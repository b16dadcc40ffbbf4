use vstd::prelude::*;

verus! {

/// A heterogeneous collection that can store one value per state token.
///
/// Every piece of application state is filed under a token (a stable per-type
/// identity chosen by the embedding application).  The store keeps at most one
/// live value per token: inserting under an occupied token replaces the old
/// value and hands it back to the caller, so it is released exactly once.
pub struct TypeMap<V> {
    entries: Vec<(u64, V)>,
}

impl<V> View for TypeMap<V> {
    type V = Map<u64, V>;

    closed spec fn view(&self) -> Map<u64, V> {
        TypeMap::<V>::assoc_map(self.entries@)
    }
}

impl<V> Default for TypeMap<V> {
    /// Creates an empty store, as [`TypeMap::new`] does.
    fn default() -> (r: Self)
        ensures
            r@ == Map::<u64, V>::empty(),
    {
        TypeMap::new()
    }
}

impl<V> TypeMap<V> {
    /// The token-to-value association described by an entry list, later
    /// entries winning.
    pub closed spec fn assoc_map(s: Seq<(u64, V)>) -> Map<u64, V>
        decreases s.len(),
    {
        if s.len() == 0 {
            Map::empty()
        } else {
            Self::assoc_map(s.drop_last()).insert(s.last().0, s.last().1)
        }
    }

    spec fn keys_unique(s: Seq<(u64, V)>) -> bool {
        forall|i: int, j: int| 0 <= i < j < s.len() ==> s[i].0 != s[j].0
    }

    #[verifier::type_invariant]
    spec fn wf(self) -> bool {
        Self::keys_unique(self.entries@)
    }

    proof fn lemma_assoc_contains(s: Seq<(u64, V)>, k: u64)
        ensures
            Self::assoc_map(s).contains_key(k) <==> exists|i: int|
                0 <= i < s.len() && s[i].0 == k,
        decreases s.len(),
    {
        if s.len() > 0 {
            Self::lemma_assoc_contains(s.drop_last(), k);
            if s.last().0 == k {
                assert(s[s.len() - 1].0 == k);
            } else if Self::assoc_map(s).contains_key(k) {
                let i = choose|i: int| 0 <= i < s.drop_last().len() && s.drop_last()[i].0 == k;
                assert(s[i].0 == k);
            } else if exists|i: int| 0 <= i < s.len() && s[i].0 == k {
                let i = choose|i: int| 0 <= i < s.len() && s[i].0 == k;
                assert(s.drop_last()[i].0 == k);
            }
        }
    }

    proof fn lemma_assoc_index(s: Seq<(u64, V)>, i: int)
        requires
            Self::keys_unique(s),
            0 <= i < s.len(),
        ensures
            Self::assoc_map(s).contains_key(s[i].0),
            Self::assoc_map(s)[s[i].0] == s[i].1,
        decreases s.len(),
    {
        if i < s.len() - 1 {
            assert(s[i].0 != s.last().0);
            assert(s.drop_last()[i] == s[i]);
            Self::lemma_assoc_index(s.drop_last(), i);
        }
    }

    proof fn lemma_assoc_update(s: Seq<(u64, V)>, i: int, v: V)
        requires
            Self::keys_unique(s),
            0 <= i < s.len(),
        ensures
            Self::assoc_map(s.update(i, (s[i].0, v))) =~= Self::assoc_map(s).insert(s[i].0, v),
        decreases s.len(),
    {
        let s2 = s.update(i, (s[i].0, v));
        if i == s.len() - 1 {
            assert(s2.drop_last() =~= s.drop_last());
        } else {
            assert(s2.drop_last() =~= s.drop_last().update(i, (s[i].0, v)));
            assert(s.drop_last()[i] == s[i]);
            Self::lemma_assoc_update(s.drop_last(), i, v);
            assert(s[i].0 != s.last().0);
        }
    }

    /// Creates an empty store.
    pub fn new() -> (r: Self)
        ensures
            r@ == Map::<u64, V>::empty(),
    {
        TypeMap { entries: Vec::new() }
    }

    /// Returns true when a value is stored under the given token.
    pub fn contains(&self, token: u64) -> (r: bool)
        ensures
            r == self@.contains_key(token),
    {
        let n = self.entries.len();
        let mut i: usize = 0;
        while i < n
            invariant
                n == self.entries@.len(),
                0 <= i <= n,
                forall|j: int| 0 <= j < i ==> self.entries@[j].0 != token,
            decreases n - i,
        {
            if self.entries[i].0 == token {
                proof {
                    Self::lemma_assoc_contains(self.entries@, token);
                    assert(self.entries@[i as int].0 == token);
                }
                return true;
            }
            i += 1;
        }
        proof {
            Self::lemma_assoc_contains(self.entries@, token);
        }
        false
    }

    /// Returns a reference to the value stored under the given token, if any.
    pub fn get(&self, token: u64) -> (r: Option<&V>)
        ensures
            match r {
                Some(v) => self@.contains_key(token) && *v == self@[token],
                None => !self@.contains_key(token),
            },
    {
        let n = self.entries.len();
        let mut i: usize = 0;
        while i < n
            invariant
                n == self.entries@.len(),
                0 <= i <= n,
                forall|j: int| 0 <= j < i ==> self.entries@[j].0 != token,
            decreases n - i,
        {
            if self.entries[i].0 == token {
                proof {
                    use_type_invariant(&*self);
                    Self::lemma_assoc_index(self.entries@, i as int);
                }
                return Some(&self.entries[i].1);
            }
            i += 1;
        }
        proof {
            Self::lemma_assoc_contains(self.entries@, token);
        }
        None
    }

    /// Stores a value under the given token, replacing and returning any
    /// previous value of that token.
    pub fn insert(&mut self, token: u64, value: V) -> (prev: Option<V>)
        ensures
            final(self)@ == old(self)@.insert(token, value),
            old(self)@.contains_key(token) ==> prev == Some(old(self)@[token]),
            !old(self)@.contains_key(token) ==> prev is None,
    {
        let ghost s0 = self.entries@;
        proof {
            use_type_invariant(&*self);
            Self::lemma_assoc_contains(s0, token);
        }
        let mut entries: Vec<(u64, V)> = Vec::new();
        std::mem::swap(&mut entries, &mut self.entries);
        let n = entries.len();
        let mut i: usize = 0;
        while i < n
            invariant
                n == entries@.len(),
                entries@ == s0,
                s0 == old(self).entries@,
                Self::keys_unique(s0),
                0 <= i <= n,
                forall|j: int| 0 <= j < i ==> entries@[j].0 != token,
            decreases n - i,
        {
            if entries[i].0 == token {
                let pair = entries.remove(i);
                entries.insert(i, (token, value));
                proof {
                    Self::lemma_assoc_index(s0, i as int);
                    Self::lemma_assoc_update(s0, i as int, value);
                    assert(entries@ =~= s0.update(i as int, (s0[i as int].0, value)));
                }
                self.entries = entries;
                return Some(pair.1);
            }
            i += 1;
        }
        entries.push((token, value));
        self.entries = entries;
        proof {
            assert(self.entries@.drop_last() =~= s0);
        }
        None
    }
}


/// Law of the store round trip: storing a value under a token and then
/// reading that token yields exactly that value; a second store under the
/// same token yields the second value, the first having been handed back by
/// the replacing insert exactly once.
pub proof fn lemma_store_round_trip<V>(m: Map<u64, V>, token: u64, v1: V, v2: V)
    ensures
        m.insert(token, v1).contains_key(token),
        m.insert(token, v1)[token] == v1,
        m.insert(token, v1).insert(token, v2)[token] == v2,
{
}

} // verus!
