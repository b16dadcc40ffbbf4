use vstd::prelude::*;
use vstd::string::StringExecFns;

use crate::callback::AppError;
use crate::callback::Callback;
use crate::callback::ParamDesc;
use crate::callback::illegal_signature_error;
use crate::callback::signature_legal;
use crate::store::TypeMap;

verus! {

/// The first declared parameter, in declaration order, whose token is not in
/// the store.
pub open spec fn is_first_missing<V>(params: Seq<ParamDesc>, state: Map<u64, V>, idx: int) -> bool {
    &&& 0 <= idx < params.len()
    &&& !state.contains_key(params[idx].token)
    &&& forall|l: int| #![trigger params[l]] 0 <= l < idx ==> state.contains_key(params[l].token)
}

/// One entry of the setup chain: a callback, and, for state-derivation
/// entries, the token under which the callback's result is stored.
pub struct SetupEntry {
    pub callback: Callback,
    pub output: Option<u64>,
}

/// A dispatcher can be called on any store and callback identifier.
pub open spec fn dispatcher_total<V, F: Fn(TypeMap<V>, u64) -> TypeMap<V>>(f: F) -> bool {
    forall|s: TypeMap<V>, id: u64| #[trigger] call_requires(f, (s, id))
}

/// A state-derivation dispatcher can be called on any store and callback
/// identifier.
pub open spec fn derive_dispatcher_total<V, G: Fn(TypeMap<V>, u64) -> (TypeMap<V>, V)>(
    g: G,
) -> bool {
    forall|s: TypeMap<V>, id: u64| #[trigger] call_requires(g, (s, id))
}

/// A dispatcher never drops store entries: whatever store it returns holds at
/// least the tokens the store it was given held.
pub open spec fn preserves_state<V, F: Fn(TypeMap<V>, u64) -> TypeMap<V>>(f: F) -> bool {
    forall|s: TypeMap<V>, id: u64, out: TypeMap<V>|
        #[trigger] call_ensures(f, (s, id), out) ==> s@.dom().subset_of(out@.dom())
}

/// A state-derivation dispatcher never drops store entries.
pub open spec fn derive_preserves_state<V, G: Fn(TypeMap<V>, u64) -> (TypeMap<V>, V)>(
    g: G,
) -> bool {
    forall|s: TypeMap<V>, id: u64, out: (TypeMap<V>, V)|
        #[trigger] call_ensures(g, (s, id), out) ==> s@.dom().subset_of(out.0@.dom())
}

/// Every declared parameter of a callback is present in the store.
pub open spec fn params_present<V>(params: Seq<ParamDesc>, state: Map<u64, V>) -> bool {
    forall|k: int| #![trigger params[k]] 0 <= k < params.len() ==> state.contains_key(
        params[k].token,
    )
}

/// A successful run of a frame chain: `states` records the store before the
/// first callback, between any two callbacks, and after the last one.  Each
/// registered callback runs exactly once, in registration order, its declared
/// parameters all present in the store it is handed.
pub open spec fn frame_trace<V, F: Fn(TypeMap<V>, u64) -> TypeMap<V>>(
    f: F,
    chain: Seq<Callback>,
    states: Seq<TypeMap<V>>,
) -> bool {
    &&& states.len() == chain.len() + 1
    &&& forall|k: int| #![trigger chain[k]] 0 <= k < chain.len() ==> params_present(
        chain[k].params@,
        states[k]@,
    )
    &&& forall|k: int| #![trigger chain[k]] 0 <= k < chain.len() ==> call_ensures(
        f,
        (states[k], chain[k].id),
        states[k + 1],
    )
}

/// What one setup entry does to the store: a plain initialization callback is
/// one dispatcher call; a state-derivation entry is one dispatcher call whose
/// returned value is stored under the entry's output token immediately after
/// the call, so that every later callback observes it.
pub open spec fn setup_step<
    V,
    F: Fn(TypeMap<V>, u64) -> TypeMap<V>,
    G: Fn(TypeMap<V>, u64) -> (TypeMap<V>, V),
>(f: F, g: G, entry: SetupEntry, pre: TypeMap<V>, post: TypeMap<V>) -> bool {
    match entry.output {
        None => call_ensures(f, (pre, entry.callback.id), post),
        Some(token) => exists|mid: TypeMap<V>, value: V|
            #![trigger call_ensures(g, (pre, entry.callback.id), (mid, value))]
            call_ensures(g, (pre, entry.callback.id), (mid, value)) && post@ == mid@.insert(
                token,
                value,
            ),
    }
}

/// A successful run of the setup chain, entries in registration order, each
/// exactly once.
pub open spec fn setup_trace<
    V,
    F: Fn(TypeMap<V>, u64) -> TypeMap<V>,
    G: Fn(TypeMap<V>, u64) -> (TypeMap<V>, V),
>(f: F, g: G, chain: Seq<SetupEntry>, states: Seq<TypeMap<V>>) -> bool {
    &&& states.len() == chain.len() + 1
    &&& forall|k: int| #![trigger chain[k]] 0 <= k < chain.len() ==> params_present(
        chain[k].callback.params@,
        states[k]@,
    )
    &&& forall|k: int| #![trigger chain[k]] 0 <= k < chain.len() ==> setup_step(
        f,
        g,
        chain[k],
        states[k],
        states[k + 1],
    )
}

/// The store contents after inserting a list of token-value pairs in order,
/// later pairs winning.
pub open spec fn insert_all<V>(m: Map<u64, V>, items: Seq<(u64, V)>) -> Map<u64, V>
    decreases items.len(),
{
    if items.len() == 0 {
        m
    } else {
        insert_all(m.insert(items[0].0, items[0].1), items.drop_first())
    }
}

/// Inserts a list of token-value pairs into a store, in order.
fn insert_items<V>(store: &mut TypeMap<V>, items: Vec<(u64, V)>)
    ensures
        final(store)@ == insert_all(old(store)@, items@),
    decreases items@.len(),
{
    let mut rest = items;
    if rest.len() == 0 {
        return ;
    }
    let first = rest.remove(0);
    store.insert(first.0, first.1);
    proof {
        assert(rest@ =~= items@.drop_first());
    }
    insert_items(store, rest);
}

/// The tokens that are certainly in the store when the setup entry at
/// position `k` runs: everything present initially plus the outputs of all
/// earlier state-derivation entries.
pub open spec fn setup_available(initial: Set<u64>, chain: Seq<SetupEntry>, k: int) -> Set<u64>
    decreases k,
{
    if k <= 0 {
        initial
    } else {
        match chain[k - 1].output {
            None => setup_available(initial, chain, k - 1),
            Some(token) => setup_available(initial, chain, k - 1).insert(token),
        }
    }
}

/// Every setup entry's declared parameters are available when it runs: seeded
/// initially, or produced by an earlier state-derivation entry.
pub open spec fn setup_satisfiable(initial: Set<u64>, chain: Seq<SetupEntry>) -> bool {
    forall|k: int, l: int|
        #![trigger chain[k].callback.params@[l]]
        0 <= k < chain.len() && 0 <= l < chain[k].callback.params@.len() ==> setup_available(
            initial,
            chain,
            k,
        ).contains(chain[k].callback.params@[l].token)
}

/// Looks up the first declared parameter whose token is not in the store,
/// returning its display name.
fn first_missing_name<V>(store: &TypeMap<V>, params: &Vec<ParamDesc>) -> (r: Option<String>)
    ensures
        match r {
            None => params_present(params@, store@),
            Some(name) => exists|idx: int|
                #[trigger] is_first_missing(params@, store@, idx) && name@ == params@[idx].name@,
        },
{
    let n = params.len();
    let mut k: usize = 0;
    while k < n
        invariant
            n == params@.len(),
            0 <= k <= n,
            forall|l: int| #![trigger params@[l]] 0 <= l < k ==> store@.contains_key(
                params@[l].token,
            ),
        decreases n - k,
    {
        if !store.contains(params[k].token) {
            proof {
                assert(is_first_missing(params@, store@, k as int));
            }
            return Some(params[k].name.clone());
        }
        k += 1;
    }
    None
}

/// An application under construction and, once built, its runtime state: the
/// window configuration, the typed store, and the two callback chains.
///
/// Building is transactional: a registration either extends a chain, or
/// fails the legality check and hands the application back untouched beside
/// the error, so the chains already built stay valid and usable.
pub struct App<V> {
    title: String,
    size: (u32, u32),
    vsync: bool,
    resizable: bool,
    state: TypeMap<V>,
    setup_chain: Vec<SetupEntry>,
    frame_chain: Vec<Callback>,
}

impl<V> Default for App<V> {
    /// Creates a new application with default configuration, as [`App::new`]
    /// does.
    fn default() -> (r: Self)
        ensures
            r.spec_title() == "Pufferfish"@,
            r.spec_size() == (800u32, 600u32),
            r.spec_vsync(),
            r.spec_resizable(),
            r.spec_state() == Map::<u64, V>::empty(),
            r.spec_setup_chain() == Seq::<SetupEntry>::empty(),
            r.spec_frame_chain() == Seq::<Callback>::empty(),
    {
        App::new()
    }
}

impl<V> App<V> {
    /// The window title.
    pub closed spec fn spec_title(&self) -> Seq<char> {
        self.title@
    }

    /// The requested window size.
    pub closed spec fn spec_size(&self) -> (u32, u32) {
        self.size
    }

    /// Whether vsync is requested.
    pub closed spec fn spec_vsync(&self) -> bool {
        self.vsync
    }

    /// Whether the window should be resizable.
    pub closed spec fn spec_resizable(&self) -> bool {
        self.resizable
    }

    /// The typed store itself.
    pub closed spec fn spec_store(&self) -> TypeMap<V> {
        self.state
    }

    /// The store contents.
    pub open spec fn spec_state(&self) -> Map<u64, V> {
        self.spec_store()@
    }

    /// The setup chain, in registration order.
    pub closed spec fn spec_setup_chain(&self) -> Seq<SetupEntry> {
        self.setup_chain@
    }

    /// The per-frame chain, in registration order.
    pub closed spec fn spec_frame_chain(&self) -> Seq<Callback> {
        self.frame_chain@
    }

    /// The window configuration of two applications agrees.
    pub open spec fn same_config(&self, other: &App<V>) -> bool {
        &&& self.spec_title() == other.spec_title()
        &&& self.spec_size() == other.spec_size()
        &&& self.spec_vsync() == other.spec_vsync()
        &&& self.spec_resizable() == other.spec_resizable()
    }

    /// Creates a new application with default configuration: an empty store,
    /// empty chains, an 800 by 600 resizable window with vsync.
    pub fn new() -> (r: Self)
        ensures
            r.spec_title() == "Pufferfish"@,
            r.spec_size() == (800u32, 600u32),
            r.spec_vsync(),
            r.spec_resizable(),
            r.spec_state() == Map::<u64, V>::empty(),
            r.spec_setup_chain() == Seq::<SetupEntry>::empty(),
            r.spec_frame_chain() == Seq::<Callback>::empty(),
    {
        App {
            title: String::from_str("Pufferfish"),
            size: (800, 600),
            vsync: true,
            resizable: true,
            state: TypeMap::new(),
            setup_chain: Vec::new(),
            frame_chain: Vec::new(),
        }
    }

    /// Sets the title of the application window.
    pub fn with_title(self, title: String) -> (r: Self)
        ensures
            r.spec_title() == title@,
            r.spec_size() == self.spec_size(),
            r.spec_vsync() == self.spec_vsync(),
            r.spec_resizable() == self.spec_resizable(),
            r.spec_store() == self.spec_store(),
            r.spec_setup_chain() == self.spec_setup_chain(),
            r.spec_frame_chain() == self.spec_frame_chain(),
    {
        App { title, ..self }
    }

    /// Sets the size of the application window.
    pub fn with_size(self, width: u32, height: u32) -> (r: Self)
        ensures
            r.spec_size() == (width, height),
            r.spec_title() == self.spec_title(),
            r.spec_vsync() == self.spec_vsync(),
            r.spec_resizable() == self.spec_resizable(),
            r.spec_store() == self.spec_store(),
            r.spec_setup_chain() == self.spec_setup_chain(),
            r.spec_frame_chain() == self.spec_frame_chain(),
    {
        App { size: (width, height), ..self }
    }

    /// Requests whether or not vsync should be enabled.
    pub fn with_vsync(self, vsync: bool) -> (r: Self)
        ensures
            r.spec_vsync() == vsync,
            r.spec_title() == self.spec_title(),
            r.spec_size() == self.spec_size(),
            r.spec_resizable() == self.spec_resizable(),
            r.spec_store() == self.spec_store(),
            r.spec_setup_chain() == self.spec_setup_chain(),
            r.spec_frame_chain() == self.spec_frame_chain(),
    {
        App { vsync, ..self }
    }

    /// Sets whether or not the application window should be resizable.
    pub fn with_resizable(self, resizable: bool) -> (r: Self)
        ensures
            r.spec_resizable() == resizable,
            r.spec_title() == self.spec_title(),
            r.spec_size() == self.spec_size(),
            r.spec_vsync() == self.spec_vsync(),
            r.spec_store() == self.spec_store(),
            r.spec_setup_chain() == self.spec_setup_chain(),
            r.spec_frame_chain() == self.spec_frame_chain(),
    {
        App { resizable, ..self }
    }

    /// The typed store, for the driver and for inspection after a run.
    pub fn state(&self) -> (r: &TypeMap<V>)
        ensures
            *r == self.spec_store(),
    {
        &self.state
    }

    /// The window title, for the driver.
    pub fn title(&self) -> (r: &String)
        ensures
            r@ == self.spec_title(),
    {
        &self.title
    }

    /// The requested window size, for the driver.
    pub fn size(&self) -> (r: (u32, u32))
        ensures
            r == self.spec_size(),
    {
        self.size
    }

    /// Whether vsync is requested, for the driver.
    pub fn vsync(&self) -> (r: bool)
        ensures
            r == self.spec_vsync(),
    {
        self.vsync
    }

    /// Whether the window should be resizable, for the driver.
    pub fn resizable(&self) -> (r: bool)
        ensures
            r == self.spec_resizable(),
    {
        self.resizable
    }

    /// Adds new state to the application.  If multiple values are added under
    /// one token, the last one added is kept, the earlier one handed back to
    /// its owner by the store.
    pub fn add_state(self, token: u64, value: V) -> (r: Self)
        ensures
            r.spec_state() == self.spec_state().insert(token, value),
            r.same_config(&self),
            r.spec_setup_chain() == self.spec_setup_chain(),
            r.spec_frame_chain() == self.spec_frame_chain(),
    {
        let App { title, size, vsync, resizable, mut state, setup_chain, frame_chain } = self;
        state.insert(token, value);
        App { title, size, vsync, resizable, state, setup_chain, frame_chain }
    }

    /// Adds a callback, run once at initialization, whose result is stored
    /// under `out_token` immediately after the call, so that every later
    /// setup entry and every frame callback observes it.
    ///
    /// The callback's signature is checked for legality now, at registration
    /// time.  Registration is transactional: on failure the application is
    /// handed back untouched beside the error, its chains, store and
    /// configuration exactly as they were.
    pub fn add_state_with(self, callback: Callback, out_token: u64) -> (r: Result<
        Self,
        (Self, AppError),
    >)
        ensures
            r is Ok <==> signature_legal(callback.params@),
            r matches Ok(app) ==> {
                &&& app.spec_setup_chain() == self.spec_setup_chain().push(
                    SetupEntry { callback, output: Some(out_token) },
                )
                &&& app.same_config(&self)
                &&& app.spec_store() == self.spec_store()
                &&& app.spec_frame_chain() == self.spec_frame_chain()
            },
            r matches Err(pair) ==> pair.0 == self && illegal_signature_error(
                callback.params@,
                pair.1,
            ),
    {
        match callback.assert_legal() {
            Ok(()) => {
                let App { title, size, vsync, resizable, state, mut setup_chain, frame_chain } =
                    self;
                setup_chain.push(SetupEntry { callback, output: Some(out_token) });
                Ok(App { title, size, vsync, resizable, state, setup_chain, frame_chain })
            },
            Err(e) => Err((self, e)),
        }
    }

    /// Adds a callback that is executed once, for its side effects, when the
    /// application is initialized.  Setup entries run in registration order,
    /// state-derivation and plain initialization callbacks interleaved as
    /// registered.
    ///
    /// The callback's signature is checked for legality now, at registration
    /// time.  Registration is transactional: on failure the application is
    /// handed back untouched beside the error.
    pub fn add_init_callback(self, callback: Callback) -> (r: Result<Self, (Self, AppError)>)
        ensures
            r is Ok <==> signature_legal(callback.params@),
            r matches Ok(app) ==> {
                &&& app.spec_setup_chain() == self.spec_setup_chain().push(
                    SetupEntry { callback, output: None },
                )
                &&& app.same_config(&self)
                &&& app.spec_store() == self.spec_store()
                &&& app.spec_frame_chain() == self.spec_frame_chain()
            },
            r matches Err(pair) ==> pair.0 == self && illegal_signature_error(
                callback.params@,
                pair.1,
            ),
    {
        match callback.assert_legal() {
            Ok(()) => {
                let App { title, size, vsync, resizable, state, mut setup_chain, frame_chain } =
                    self;
                setup_chain.push(SetupEntry { callback, output: None });
                Ok(App { title, size, vsync, resizable, state, setup_chain, frame_chain })
            },
            Err(e) => Err((self, e)),
        }
    }

    /// Adds a callback that is executed every frame.  Frame callbacks are
    /// executed in the order they are added.
    ///
    /// The callback's signature is checked for legality now, at registration
    /// time.  Registration is transactional: on failure the application is
    /// handed back untouched beside the error.
    pub fn add_frame_callback(self, callback: Callback) -> (r: Result<Self, (Self, AppError)>)
        ensures
            r is Ok <==> signature_legal(callback.params@),
            r matches Ok(app) ==> {
                &&& app.spec_frame_chain() == self.spec_frame_chain().push(callback)
                &&& app.same_config(&self)
                &&& app.spec_store() == self.spec_store()
                &&& app.spec_setup_chain() == self.spec_setup_chain()
            },
            r matches Err(pair) ==> pair.0 == self && illegal_signature_error(
                callback.params@,
                pair.1,
            ),
    {
        match callback.assert_legal() {
            Ok(()) => {
                let App { title, size, vsync, resizable, state, setup_chain, mut frame_chain } =
                    self;
                frame_chain.push(callback);
                Ok(App { title, size, vsync, resizable, state, setup_chain, frame_chain })
            },
            Err(e) => Err((self, e)),
        }
    }
}

/// What the dispatch engine reports when a callback asks for state that the
/// store does not hold: the name of the first missing parameter.
pub open spec fn missing_type_error<V>(params: Seq<ParamDesc>, state: Map<u64, V>, e: AppError) -> bool {
    exists|idx: int|
        #[trigger] is_first_missing(params, state, idx) && (e matches AppError::MissingType { name }
            && name@ == params[idx].name@)
}

proof fn lemma_frame_dom_interval<V, F: Fn(TypeMap<V>, u64) -> TypeMap<V>>(
    f: F,
    chain: Seq<Callback>,
    states: Seq<TypeMap<V>>,
    a: int,
    b: int,
)
    requires
        preserves_state(f),
        0 <= a <= b < states.len(),
        states.len() <= chain.len() + 1,
        forall|t: int| #![trigger chain[t]] 0 <= t < states.len() - 1 ==> call_ensures(
            f,
            (states[t], chain[t].id),
            states[t + 1],
        ),
    ensures
        states[a]@.dom().subset_of(states[b]@.dom()),
    decreases b - a,
{
    if a < b {
        lemma_frame_dom_interval(f, chain, states, a, b - 1);
        assert(call_ensures(f, (states[b - 1], chain[b - 1].id), states[b]));
        assert forall|x: u64| states[a]@.dom().contains(x) implies states[b]@.dom().contains(
            x,
        ) by {
            assert(states[b - 1]@.dom().contains(x));
        }
    }
}

proof fn lemma_setup_dom_interval<
    V,
    F: Fn(TypeMap<V>, u64) -> TypeMap<V>,
    G: Fn(TypeMap<V>, u64) -> (TypeMap<V>, V),
>(f: F, g: G, chain: Seq<SetupEntry>, states: Seq<TypeMap<V>>, a: int, b: int)
    requires
        preserves_state(f),
        derive_preserves_state(g),
        0 <= a <= b < states.len(),
        states.len() <= chain.len() + 1,
        forall|t: int| #![trigger chain[t]] 0 <= t < states.len() - 1 ==> setup_step(
            f,
            g,
            chain[t],
            states[t],
            states[t + 1],
        ),
    ensures
        states[a]@.dom().subset_of(states[b]@.dom()),
    decreases b - a,
{
    if a < b {
        lemma_setup_dom_interval(f, g, chain, states, a, b - 1);
        assert(setup_step(f, g, chain[b - 1], states[b - 1], states[b]));
        match chain[b - 1].output {
            None => {
                assert forall|x: u64| states[a]@.dom().contains(x) implies states[b]@.dom().contains(
                    x,
                ) by {
                    assert(states[b - 1]@.dom().contains(x));
                }
            },
            Some(token) => {
                let (mid, value) = choose|mid: TypeMap<V>, value: V|
                    call_ensures(g, (states[b - 1], chain[b - 1].callback.id), (mid, value))
                        && states[b]@ == mid@.insert(token, value);
                assert forall|x: u64| states[a]@.dom().contains(x) implies states[b]@.dom().contains(
                    x,
                ) by {
                    assert(states[b - 1]@.dom().contains(x));
                    assert(mid@.dom().contains(x));
                }
            },
        }
    }
}

proof fn lemma_setup_available_dom<
    V,
    F: Fn(TypeMap<V>, u64) -> TypeMap<V>,
    G: Fn(TypeMap<V>, u64) -> (TypeMap<V>, V),
>(f: F, g: G, chain: Seq<SetupEntry>, states: Seq<TypeMap<V>>, base: Set<u64>, k: int)
    requires
        preserves_state(f),
        derive_preserves_state(g),
        0 <= k < states.len(),
        states.len() <= chain.len() + 1,
        forall|t: int| #![trigger chain[t]] 0 <= t < states.len() - 1 ==> setup_step(
            f,
            g,
            chain[t],
            states[t],
            states[t + 1],
        ),
        base.subset_of(states[0]@.dom()),
    ensures
        setup_available(base, chain, k).subset_of(states[k]@.dom()),
    decreases k,
{
    if k > 0 {
        lemma_setup_available_dom(f, g, chain, states, base, k - 1);
        assert(setup_step(f, g, chain[k - 1], states[k - 1], states[k]));
        match chain[k - 1].output {
            None => {
                assert forall|x: u64| setup_available(base, chain, k).contains(x)
                    implies states[k]@.dom().contains(x) by {
                    assert(states[k - 1]@.dom().contains(x));
                }
            },
            Some(token) => {
                let (mid, value) = choose|mid: TypeMap<V>, value: V|
                    call_ensures(g, (states[k - 1], chain[k - 1].callback.id), (mid, value))
                        && states[k]@ == mid@.insert(token, value);
                assert forall|x: u64| setup_available(base, chain, k).contains(x)
                    implies states[k]@.dom().contains(x) by {
                    if x == token {
                        assert(states[k]@.contains_key(token));
                    } else {
                        assert(setup_available(base, chain, k - 1).contains(x));
                        assert(states[k - 1]@.dom().contains(x));
                        assert(mid@.dom().contains(x));
                    }
                }
            },
        }
    }
}

/// Law of chain ordering: two successive chain runs compose into one run of
/// the concatenated chain.  In particular, ticking an application N times
/// behaves as one run of the frame chain repeated N times, so callbacks
/// `c1, c2, c3` registered in that order are invoked in the sequence
/// `c1, c2, c3, c1, c2, c3, ...`, each exactly N times.
pub proof fn lemma_frame_trace_compose<V, F: Fn(TypeMap<V>, u64) -> TypeMap<V>>(
    f: F,
    chain1: Seq<Callback>,
    chain2: Seq<Callback>,
    states1: Seq<TypeMap<V>>,
    states2: Seq<TypeMap<V>>,
)
    requires
        frame_trace(f, chain1, states1),
        frame_trace(f, chain2, states2),
        states1.last() == states2.first(),
    ensures
        frame_trace(f, chain1 + chain2, states1 + states2.drop_first()),
{
    let chain = chain1 + chain2;
    let states = states1 + states2.drop_first();
    assert(states.len() == chain.len() + 1);
    assert forall|k: int| 0 <= k < chain.len() implies params_present(
        (#[trigger] chain[k]).params@,
        states[k]@,
    ) && call_ensures(f, (states[k], chain[k].id), states[k + 1]) by {
        if k < chain1.len() {
            assert(chain[k] == chain1[k]);
            assert(states[k] == states1[k]);
            assert(states[k + 1] == states1[k + 1]);
        } else {
            let k2 = k - chain1.len();
            assert(chain[k] == chain2[k2]);
            if k == chain1.len() {
                assert(states[k] == states1[k]);
                assert(states1[k] == states1.last());
                assert(states[k] == states2[k2]);
            } else {
                assert(states[k] == states2.drop_first()[k - states1.len()]);
                assert(states[k] == states2[k2]);
            }
            assert(states[k + 1] == states2.drop_first()[k + 1 - states1.len()]);
            assert(states[k + 1] == states2[k2 + 1]);
            assert(params_present(chain2[k2].params@, states2[k2]@));
            assert(call_ensures(f, (states2[k2], chain2[k2].id), states2[k2 + 1]));
        }
    }
}

/// The frame chain repeated `n` times, as `n` successive ticks invoke it.
pub open spec fn repeat_chain(chain: Seq<Callback>, n: nat) -> Seq<Callback>
    decreases n,
{
    if n == 0 {
        Seq::empty()
    } else {
        repeat_chain(chain, (n - 1) as nat) + chain
    }
}

/// The single combined state trace of successive chain runs: the runs'
/// traces joined, each shared boundary state written once.
pub open spec fn chained_states<V>(traces: Seq<Seq<TypeMap<V>>>) -> Seq<TypeMap<V>>
    decreases traces.len(),
{
    if traces.len() == 0 {
        Seq::empty()
    } else if traces.len() == 1 {
        traces[0]
    } else {
        chained_states(traces.drop_last()) + traces.last().drop_first()
    }
}

/// Law of chain ordering over any number of ticks: N successive runs of the
/// frame chain, each handing its final store to the next, compose into one
/// run of the chain repeated N times — callbacks `c1, c2, c3` registered in
/// that order are invoked in the sequence `c1, c2, c3, c1, c2, c3, ...`,
/// each exactly N times.
pub proof fn lemma_frame_trace_repeat<V, F: Fn(TypeMap<V>, u64) -> TypeMap<V>>(
    f: F,
    chain: Seq<Callback>,
    traces: Seq<Seq<TypeMap<V>>>,
)
    requires
        traces.len() >= 1,
        forall|t: int| 0 <= t < traces.len() ==> frame_trace(f, chain, #[trigger] traces[t]),
        forall|t: int|
            1 <= t < traces.len() ==> (#[trigger] traces[t]).first() == traces[t - 1].last(),
    ensures
        frame_trace(f, repeat_chain(chain, traces.len() as nat), chained_states(traces)),
        chained_states(traces).first() == traces.first().first(),
        chained_states(traces).last() == traces.last().last(),
    decreases traces.len(),
{
    if traces.len() == 1 {
        assert(repeat_chain(chain, 0nat) =~= Seq::<Callback>::empty());
        assert(repeat_chain(chain, 1nat) == repeat_chain(chain, 0nat) + chain);
        assert(repeat_chain(chain, 1nat) =~= chain);
    } else {
        let rest = traces.drop_last();
        assert forall|t: int| 0 <= t < rest.len() implies frame_trace(
            f,
            chain,
            #[trigger] rest[t],
        ) by {
            assert(rest[t] == traces[t]);
        }
        assert forall|t: int| 1 <= t < rest.len() implies (#[trigger] rest[t]).first() == rest[t
            - 1].last() by {
            assert(rest[t] == traces[t]);
            assert(rest[t - 1] == traces[t - 1]);
        }
        lemma_frame_trace_repeat(f, chain, rest);
        let n1 = (traces.len() - 1) as nat;
        assert(chained_states(rest).last() == traces[traces.len() - 2].last());
        assert(traces.last().first() == traces[traces.len() - 2].last());
        lemma_frame_trace_compose(
            f,
            repeat_chain(chain, n1),
            chain,
            chained_states(rest),
            traces.last(),
        );
    }
}

/// Law of state-derivation visibility, setup half: when the dispatchers never
/// drop store entries, the value produced by a state-derivation setup entry is
/// in the store when setup finishes.
pub proof fn lemma_derived_state_visible<
    V,
    F: Fn(TypeMap<V>, u64) -> TypeMap<V>,
    G: Fn(TypeMap<V>, u64) -> (TypeMap<V>, V),
>(f: F, g: G, chain: Seq<SetupEntry>, states: Seq<TypeMap<V>>, k: int, token: u64)
    requires
        preserves_state(f),
        derive_preserves_state(g),
        setup_trace(f, g, chain, states),
        0 <= k < chain.len(),
        chain[k].output == Some(token),
    ensures
        states.last()@.contains_key(token),
{
    assert(setup_step(f, g, chain[k], states[k], states[k + 1]));
    let (mid, value) = choose|mid: TypeMap<V>, value: V|
        call_ensures(g, (states[k], chain[k].callback.id), (mid, value)) && states[k + 1]@
            == mid@.insert(token, value);
    assert(states[k + 1]@.contains_key(token));
    lemma_setup_dom_interval(f, g, chain, states, k + 1, states.len() - 1);
    assert(states.last() == states[states.len() - 1]);
}

/// Law of state-derivation visibility, frame half: when the dispatcher never
/// drops store entries, a token present before a frame run is present in the
/// store handed to every frame callback of that run, and still present after
/// it — so state derived during setup is available from the first tick on.
pub proof fn lemma_state_persists_across_frames<V, F: Fn(TypeMap<V>, u64) -> TypeMap<V>>(
    f: F,
    chain: Seq<Callback>,
    states: Seq<TypeMap<V>>,
    token: u64,
)
    requires
        preserves_state(f),
        frame_trace(f, chain, states),
        states.first()@.contains_key(token),
    ensures
        forall|k: int| 0 <= k < states.len() ==> (#[trigger] states[k])@.contains_key(token),
{
    assert forall|k: int| 0 <= k < states.len() implies (#[trigger] states[k])@.contains_key(
        token,
    ) by {
        lemma_frame_dom_interval(f, chain, states, 0, k);
        assert(states[0]@.dom().contains(token));
    }
}

impl<V> App<V> {
    /// Runs the per-frame chain once: every registered frame callback, in
    /// registration order, exactly once, each through one dispatcher call on
    /// the current store.  Before a callback runs, its declared parameters are
    /// checked against the store; a missing one stops the run with a
    /// `MissingType` error naming it — a setup-ordering bug, by design not
    /// recoverable.
    #[verifier::loop_isolation(false)]
    pub fn run_frame<F: Fn(TypeMap<V>, u64) -> TypeMap<V>>(self, f: F) -> (r: Result<
        App<V>,
        AppError,
    >)
        requires
            dispatcher_total(f),
        ensures
            match r {
                Ok(app) => {
                    &&& app.same_config(&self)
                    &&& app.spec_setup_chain() == self.spec_setup_chain()
                    &&& app.spec_frame_chain() == self.spec_frame_chain()
                    &&& exists|states: Seq<TypeMap<V>>|
                        #[trigger] frame_trace(f, self.spec_frame_chain(), states)
                            && states.first() == self.spec_store() && states.last()
                            == app.spec_store()
                },
                Err(e) => exists|k: int, states: Seq<TypeMap<V>>|
                    #![trigger frame_trace(f, self.spec_frame_chain().take(k), states)]
                    {
                        &&& 0 <= k < self.spec_frame_chain().len()
                        &&& frame_trace(f, self.spec_frame_chain().take(k), states)
                        &&& states.first() == self.spec_store()
                        &&& missing_type_error(
                            self.spec_frame_chain()[k].params@,
                            states.last()@,
                            e,
                        )
                    },
            },
            preserves_state(f) && (forall|t: int|
                #![trigger self.spec_frame_chain()[t]]
                0 <= t < self.spec_frame_chain().len() ==> params_present(
                    self.spec_frame_chain()[t].params@,
                    self.spec_state(),
                )) ==> r is Ok,
    {
        let ghost orig = self;
        let App { title, size, vsync, resizable, state, setup_chain, frame_chain } = self;
        let mut store = state;
        let ghost mut states: Seq<TypeMap<V>> = seq![store];
        let n = frame_chain.len();
        let mut k: usize = 0;
        while k < n
            invariant
                n == frame_chain@.len(),
                0 <= k <= n,
                states.len() == k + 1,
                states.first() == orig.spec_store(),
                states.last() == store,
                forall|t: int| #![trigger frame_chain@[t]] 0 <= t < k ==> params_present(
                    frame_chain@[t].params@,
                    states[t]@,
                ),
                forall|t: int| #![trigger frame_chain@[t]] 0 <= t < k ==> call_ensures(
                    f,
                    (states[t], frame_chain@[t].id),
                    states[t + 1],
                ),
            decreases n - k,
        {
            let missing = first_missing_name(&store, &frame_chain[k].params);
            if let Some(name) = missing {
                proof {
                    let ki = k as int;
                    let cb = frame_chain@[ki];
                    if preserves_state(f) && (forall|t: int|
                        #![trigger orig.spec_frame_chain()[t]]
                        0 <= t < orig.spec_frame_chain().len() ==> params_present(
                            orig.spec_frame_chain()[t].params@,
                            orig.spec_state(),
                        )) {
                        lemma_frame_dom_interval(f, frame_chain@, states, 0, ki);
                        let idx = choose|idx: int|
                            #[trigger] is_first_missing(cb.params@, store@, idx) && name@
                                == cb.params@[idx].name@;
                        assert(cb == orig.spec_frame_chain()[ki]);
                        assert(params_present(cb.params@, orig.spec_state()));
                        assert(orig.spec_state().contains_key(cb.params@[idx].token));
                        assert(states[0]@.dom().contains(cb.params@[idx].token));
                        assert(states[ki]@.dom().contains(cb.params@[idx].token));
                        assert(false);
                    }
                    let pre = orig.spec_frame_chain().take(ki);
                    assert forall|t: int| 0 <= t < pre.len() implies params_present(
                        (#[trigger] pre[t]).params@,
                        states[t]@,
                    ) && call_ensures(f, (states[t], pre[t].id), states[t + 1]) by {
                        assert(pre[t] == frame_chain@[t]);
                    }
                    assert(frame_trace(f, pre, states));
                    assert(missing_type_error(
                        orig.spec_frame_chain()[ki].params@,
                        states.last()@,
                        AppError::MissingType { name },
                    ));
                }
                return Err(AppError::MissingType { name });
            }
            let id = frame_chain[k].id;
            store = f(store, id);
            proof {
                states = states.push(store);
                assert(states.last() == store);
            }
            k += 1;
        }
        let app = App { title, size, vsync, resizable, state: store, setup_chain, frame_chain };
        proof {
            assert(frame_trace(f, orig.spec_frame_chain(), states));
            assert(states.first() == orig.spec_store() && states.last() == app.spec_store());
        }
        Ok(app)
    }

    /// Initializes the application: inserts the engine-owned resources handed
    /// in by the driver into the store, in order, then runs the setup chain
    /// once — state-derivation and plain initialization callbacks interleaved
    /// in registration order, each exactly once, a derivation's result stored
    /// under its output token immediately after its call.  A callback whose
    /// declared parameters are not all present stops the run with a
    /// `MissingType` error naming the first missing one.
    #[verifier::loop_isolation(false)]
    pub fn init<
        F: Fn(TypeMap<V>, u64) -> TypeMap<V>,
        G: Fn(TypeMap<V>, u64) -> (TypeMap<V>, V),
    >(self, builtins: Vec<(u64, V)>, f: F, g: G) -> (r: Result<App<V>, AppError>)
        requires
            dispatcher_total(f),
            derive_dispatcher_total(g),
        ensures
            match r {
                Ok(app) => {
                    &&& app.same_config(&self)
                    &&& app.spec_setup_chain() == self.spec_setup_chain()
                    &&& app.spec_frame_chain() == self.spec_frame_chain()
                    &&& exists|states: Seq<TypeMap<V>>|
                        #[trigger] setup_trace(f, g, self.spec_setup_chain(), states)
                            && states.first()@ == insert_all(self.spec_state(), builtins@)
                            && states.last() == app.spec_store()
                },
                Err(e) => exists|k: int, states: Seq<TypeMap<V>>|
                    #![trigger setup_trace(f, g, self.spec_setup_chain().take(k), states)]
                    {
                        &&& 0 <= k < self.spec_setup_chain().len()
                        &&& setup_trace(f, g, self.spec_setup_chain().take(k), states)
                        &&& states.first()@ == insert_all(self.spec_state(), builtins@)
                        &&& missing_type_error(
                            self.spec_setup_chain()[k].callback.params@,
                            states.last()@,
                            e,
                        )
                    },
            },
            preserves_state(f) && derive_preserves_state(g) && setup_satisfiable(
                insert_all(self.spec_state(), builtins@).dom(),
                self.spec_setup_chain(),
            ) ==> r is Ok,
    {
        let ghost orig = self;
        let App { title, size, vsync, resizable, state, setup_chain, frame_chain } = self;
        let mut store = state;
        insert_items(&mut store, builtins);
        let ghost base = store;
        let ghost mut states: Seq<TypeMap<V>> = seq![store];
        let n = setup_chain.len();
        let mut k: usize = 0;
        while k < n
            invariant
                n == setup_chain@.len(),
                0 <= k <= n,
                states.len() == k + 1,
                states.first() == base,
                states.last() == store,
                forall|t: int| #![trigger setup_chain@[t]] 0 <= t < k ==> params_present(
                    setup_chain@[t].callback.params@,
                    states[t]@,
                ),
                forall|t: int| #![trigger setup_chain@[t]] 0 <= t < k ==> setup_step(
                    f,
                    g,
                    setup_chain@[t],
                    states[t],
                    states[t + 1],
                ),
            decreases n - k,
        {
            let missing = first_missing_name(&store, &setup_chain[k].callback.params);
            if let Some(name) = missing {
                proof {
                    let ki = k as int;
                    let cb = setup_chain@[ki].callback;
                    if preserves_state(f) && derive_preserves_state(g) && setup_satisfiable(
                        base@.dom(),
                        setup_chain@,
                    ) {
                        lemma_setup_available_dom(f, g, setup_chain@, states, base@.dom(), ki);
                        let idx = choose|idx: int|
                            #[trigger] is_first_missing(cb.params@, store@, idx) && name@
                                == cb.params@[idx].name@;
                        assert(setup_available(base@.dom(), setup_chain@, ki).contains(
                            cb.params@[idx].token,
                        ));
                        assert(states[ki]@.dom().contains(cb.params@[idx].token));
                        assert(false);
                    }
                    let pre = orig.spec_setup_chain().take(ki);
                    assert forall|t: int| 0 <= t < pre.len() implies params_present(
                        (#[trigger] pre[t]).callback.params@,
                        states[t]@,
                    ) && setup_step(f, g, pre[t], states[t], states[t + 1]) by {
                        assert(pre[t] == setup_chain@[t]);
                    }
                    assert(setup_trace(f, g, pre, states));
                    assert(missing_type_error(
                        orig.spec_setup_chain()[ki].callback.params@,
                        states.last()@,
                        AppError::MissingType { name },
                    ));
                }
                return Err(AppError::MissingType { name });
            }
            let id = setup_chain[k].callback.id;
            let out = setup_chain[k].output;
            let ghost pre_store = store;
            match out {
                None => {
                    store = f(store, id);
                    proof {
                        states = states.push(store);
                    }
                },
                Some(token) => {
                    let res = g(store, id);
                    let mut s2 = res.0;
                    let value = res.1;
                    let ghost gmid = s2;
                    let ghost gvalue = value;
                    s2.insert(token, value);
                    store = s2;
                    proof {
                        assert(call_ensures(g, (pre_store, id), (gmid, gvalue)));
                        assert(store@ == gmid@.insert(token, gvalue));
                        assert(setup_step(f, g, setup_chain@[k as int], pre_store, store));
                        states = states.push(store);
                    }
                },
            }
            k += 1;
        }
        let app = App { title, size, vsync, resizable, state: store, setup_chain, frame_chain };
        proof {
            assert(setup_trace(f, g, orig.spec_setup_chain(), states));
            assert(states.first()@ == insert_all(orig.spec_state(), builtins@));
        }
        Ok(app)
    }
}

} // verus!
