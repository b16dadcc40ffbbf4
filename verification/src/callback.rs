use vstd::prelude::*;
use vstd::string::StringExecFns;

verus! {

/// Per-parameter metadata for one registered callback: the token of the piece
/// of state the parameter refers to, a human-readable type name used in
/// diagnostics, and whether the parameter asks for exclusive (read-write)
/// rather than shared (read-only) access.
pub struct ParamDesc {
    pub token: u64,
    pub name: String,
    pub exclusive: bool,
}

/// A registered callback: the identifier the dispatcher uses to reach the
/// actual function, together with the declared parameter list.
pub struct Callback {
    pub id: u64,
    pub params: Vec<ParamDesc>,
}

/// Two parameter positions conflict when they name the same state token and at
/// least one of the two asks for exclusive access.
pub open spec fn conflicting_pair(params: Seq<ParamDesc>, i: int, j: int) -> bool {
    &&& 0 <= i < params.len()
    &&& 0 <= j < params.len()
    &&& i != j
    &&& params[i].token == params[j].token
    &&& params[i].exclusive || params[j].exclusive
}

/// A callback signature is legal when it has no conflicting pair: duplicate
/// tokens are allowed only when every occurrence is shared.
pub open spec fn signature_legal(params: Seq<ParamDesc>) -> bool {
    forall|i: int, j: int| !conflicting_pair(params, i, j)
}

/// The conflicting pair that the legality check reports: the one that comes
/// first when positions are scanned in order.
pub open spec fn is_first_conflict(params: Seq<ParamDesc>, i: int, j: int) -> bool {
    &&& conflicting_pair(params, i, j)
    &&& forall|i2: int, j2: int| conflicting_pair(params, i2, j2) ==> i <= i2
    &&& forall|j2: int| 0 <= j2 < j ==> !conflicting_pair(params, i, j2)
}

/// One parameter as it is rendered in diagnostics.
pub open spec fn param_text(p: ParamDesc) -> Seq<char> {
    (if p.exclusive {
        "exclusive "@
    } else {
        "shared "@
    }) + p.name@
}

/// A whole parameter list as it is rendered in diagnostics, comma-separated,
/// in declaration order.
pub open spec fn signature_text(params: Seq<ParamDesc>) -> Seq<char>
    decreases params.len(),
{
    if params.len() == 0 {
        Seq::empty()
    } else if params.len() == 1 {
        param_text(params[0])
    } else {
        signature_text(params.drop_last()) + ", "@ + param_text(params.last())
    }
}

/// The message reported for an illegal signature whose first conflict is the
/// pair `(i, j)`: it enumerates the full parameter list and names the
/// conflicting type.
pub open spec fn illegal_signature_text(params: Seq<ParamDesc>, i: int, j: int) -> Seq<char> {
    "illegal callback signature ("@ + signature_text(params) + (if params[i].exclusive
        && params[j].exclusive {
        "): multiple exclusive references to "@
    } else {
        "): both exclusive and shared references to "@
    }) + params[i].name@
}

/// The message reported when a callback asks for state that was never seeded.
pub open spec fn missing_type_text(name: Seq<char>) -> Seq<char> {
    "missing state: "@ + name
}

/// An unrecoverable misuse of the registration or dispatch interface.
#[derive(Debug)]
pub enum AppError {
    /// Two or more parameters of one registered callback alias a state token
    /// with at least one exclusive.  Detected at registration time.
    IllegalSignature { message: String, conflict: String, both_exclusive: bool },
    /// A callback asks for state that is not in the store when its chain runs.
    MissingType { name: String },
}

/// What the legality check reports about an illegal parameter list.
pub open spec fn illegal_signature_error(params: Seq<ParamDesc>, e: AppError) -> bool {
    exists|i: int, j: int|
        #[trigger] is_first_conflict(params, i, j) && (e matches AppError::IllegalSignature {
            message,
            conflict,
            both_exclusive,
        } && message@ == illegal_signature_text(params, i, j) && conflict@ == params[i].name@
            && both_exclusive == (params[i].exclusive && params[j].exclusive))
}

impl AppError {
    /// A human-readable description of the error.
    pub fn message(&self) -> (r: String)
        ensures
            match self {
                AppError::IllegalSignature { message, .. } => r@ == message@,
                AppError::MissingType { name } => r@ == missing_type_text(name@),
            },
    {
        match self {
            AppError::IllegalSignature { message, .. } => message.clone(),
            AppError::MissingType { name } => {
                let mut r = String::from_str("missing state: ");
                r.append(name.as_str());
                r
            },
        }
    }
}

/// Renders a parameter list for diagnostics, each parameter as
/// `shared Name` or `exclusive Name`, comma-separated.
fn describe_params(params: &Vec<ParamDesc>) -> (r: String)
    ensures
        r@ == signature_text(params@),
{
    let mut r = String::new();
    let n = params.len();
    let mut i: usize = 0;
    while i < n
        invariant
            n == params@.len(),
            0 <= i <= n,
            r@ == signature_text(params@.take(i as int)),
        decreases n - i,
    {
        if i > 0 {
            r.append(", ");
        }
        if params[i].exclusive {
            r.append("exclusive ");
        } else {
            r.append("shared ");
        }
        r.append(params[i].name.as_str());
        proof {
            let t = params@.take(i + 1 as int);
            assert(t.drop_last() =~= params@.take(i as int));
            assert(t.last() == params@[i as int]);
        }
        i += 1;
    }
    proof {
        assert(params@.take(n as int) =~= params@);
    }
    r
}

impl Callback {
    /// Checks that this callback's declared signature is legal: no state token
    /// may appear twice unless both occurrences are shared.  On failure the
    /// error enumerates the full parameter list and names the conflicting
    /// type.
    pub fn assert_legal(&self) -> (r: Result<(), AppError>)
        ensures
            r is Ok <==> signature_legal(self.params@),
            r matches Err(e) ==> illegal_signature_error(self.params@, e),
    {
        let n = self.params.len();
        let mut i: usize = 0;
        while i < n
            invariant
                n == self.params@.len(),
                0 <= i <= n,
                forall|i2: int, j2: int| 0 <= i2 < i ==> !conflicting_pair(self.params@, i2, j2),
            decreases n - i,
        {
            let mut j: usize = 0;
            while j < n
                invariant
                    n == self.params@.len(),
                    0 <= i < n,
                    0 <= j <= n,
                    forall|i2: int, j2: int| 0 <= i2 < i ==> !conflicting_pair(
                        self.params@,
                        i2,
                        j2,
                    ),
                    forall|j2: int| 0 <= j2 < j ==> !conflicting_pair(self.params@, i as int, j2),
                decreases n - j,
            {
                if i != j && self.params[i].token == self.params[j].token && (self.params[i].exclusive
                    || self.params[j].exclusive) {
                    let both = self.params[i].exclusive && self.params[j].exclusive;
                    let mut message = String::from_str("illegal callback signature (");
                    let listing = describe_params(&self.params);
                    message.append(listing.as_str());
                    if both {
                        message.append("): multiple exclusive references to ");
                    } else {
                        message.append("): both exclusive and shared references to ");
                    }
                    message.append(self.params[i].name.as_str());
                    let conflict = self.params[i].name.clone();
                    proof {
                        assert(is_first_conflict(self.params@, i as int, j as int));
                        assert(message@ == illegal_signature_text(self.params@, i as int, j as int));
                    }
                    return Err(AppError::IllegalSignature { message, conflict, both_exclusive: both });
                }
                j += 1;
            }
            i += 1;
        }
        Ok(())
    }
}

} // verus!
