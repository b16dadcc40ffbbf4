use vstd::prelude::*;

pub mod fs;

verus! {

/// A handle to a resource slot: the token of the resource's type and the
/// slot's one-based index within that token's slots.
#[derive(PartialEq, Eq, Structural, Hash, Clone, Copy, Debug)]
pub struct ResourceHandle {
    token: u64,
    idx: u64,
}

impl ResourceHandle {
    /// The type token the handle belongs to.
    pub closed spec fn spec_token(&self) -> u64 {
        self.token
    }

    /// The one-based slot index within the token's slots.
    pub closed spec fn spec_idx(&self) -> u64 {
        self.idx
    }

    /// The type token the handle belongs to.
    pub fn token(&self) -> (r: u64)
        ensures
            r == self.spec_token(),
    {
        self.token
    }
}

/// Rebinds a handle to another type token, keeping its slot index.
pub fn transmute_handle(handle: ResourceHandle, token: u64) -> (r: ResourceHandle)
    ensures
        r.spec_token() == token,
        r.spec_idx() == handle.spec_idx(),
{
    ResourceHandle { token, idx: handle.idx }
}

/// A live shared borrow of a resource slot, given back with
/// [`ResourceManager::release`].
pub struct ResourceRef {
    token: u64,
    idx: u64,
}

impl ResourceRef {
    /// The type token of the borrowed slot.
    pub closed spec fn spec_token(&self) -> u64 {
        self.token
    }

    /// The one-based index of the borrowed slot.
    pub closed spec fn spec_idx(&self) -> u64 {
        self.idx
    }

    fn new(token: u64, idx: u64) -> (r: Self)
        ensures
            r.spec_token() == token,
            r.spec_idx() == idx,
    {
        ResourceRef { token, idx }
    }
}

/// A live exclusive borrow of a resource slot, given back with
/// [`ResourceManager::release_mut`].
pub struct ResourceRefMut {
    token: u64,
    idx: u64,
}

impl ResourceRefMut {
    /// The type token of the borrowed slot.
    pub closed spec fn spec_token(&self) -> u64 {
        self.token
    }

    /// The one-based index of the borrowed slot.
    pub closed spec fn spec_idx(&self) -> u64 {
        self.idx
    }

    fn new(token: u64, idx: u64) -> (r: Self)
        ensures
            r.spec_token() == token,
            r.spec_idx() == idx,
    {
        ResourceRefMut { token, idx }
    }
}

/// One resource slot: a borrow flag and the stored value, if any.  The flag
/// counts live shared borrows; `-1` marks a live exclusive borrow.
struct Resource<V> {
    flag: i64,
    data: Option<V>,
}

impl<V> Resource<V> {
    fn new(data: Option<V>) -> (r: Self)
        ensures
            r.flag == 0,
            r.data == data,
    {
        Resource { flag: 0, data }
    }

    fn lock(&mut self)
        requires
            old(self).flag >= 0,
            old(self).flag < i64::MAX,
        ensures
            final(self).flag == old(self).flag + 1,
            final(self).data == old(self).data,
    {
        self.flag = self.flag + 1;
    }

    fn lock_mut(&mut self)
        requires
            old(self).flag == 0,
        ensures
            final(self).flag == -1,
            final(self).data == old(self).data,
    {
        self.flag = -1;
    }

    fn unlock(&mut self)
        requires
            old(self).flag > 0,
        ensures
            final(self).flag == old(self).flag - 1,
            final(self).data == old(self).data,
    {
        self.flag = self.flag - 1;
    }

    fn unlock_mut(&mut self)
        requires
            old(self).flag == -1,
        ensures
            final(self).flag == 0,
            final(self).data == old(self).data,
    {
        self.flag = 0;
    }
}

/// Central storage of resources: one slot group per type token, each slot
/// holding at most one value, guarded by a dynamic borrow flag.  Violating
/// the borrow discipline — borrowing a slot exclusively while it is borrowed,
/// or releasing a borrow that was never taken — is a contract violation, not
/// a recoverable condition: callers check `is_live` and `borrow_flag` first.
pub struct ResourceManager<V> {
    storage: Vec<(u64, Vec<Resource<V>>)>,
}

impl<V> ResourceManager<V> {
    spec fn group_tokens_unique(s: Seq<(u64, Vec<Resource<V>>)>) -> bool {
        forall|i: int, j: int| 0 <= i < j < s.len() ==> s[i].0 != s[j].0
    }

    #[verifier::type_invariant]
    spec fn wf(self) -> bool {
        Self::group_tokens_unique(self.storage@)
    }

    spec fn groups_of(s: Seq<(u64, Vec<Resource<V>>)>) -> Map<u64, Seq<Resource<V>>>
        decreases s.len(),
    {
        if s.len() == 0 {
            Map::empty()
        } else {
            Self::groups_of(s.drop_last()).insert(s.last().0, s.last().1@)
        }
    }

    spec fn groups(&self) -> Map<u64, Seq<Resource<V>>> {
        Self::groups_of(self.storage@)
    }

    proof fn lemma_groups_contains(s: Seq<(u64, Vec<Resource<V>>)>, k: u64)
        ensures
            Self::groups_of(s).contains_key(k) <==> exists|i: int| 0 <= i < s.len() && s[i].0 == k,
        decreases s.len(),
    {
        if s.len() > 0 {
            Self::lemma_groups_contains(s.drop_last(), k);
            if s.last().0 == k {
                assert(s[s.len() - 1].0 == k);
            } else if Self::groups_of(s).contains_key(k) {
                let i = choose|i: int| 0 <= i < s.drop_last().len() && s.drop_last()[i].0 == k;
                assert(s[i].0 == k);
            } else if exists|i: int| 0 <= i < s.len() && s[i].0 == k {
                let i = choose|i: int| 0 <= i < s.len() && s[i].0 == k;
                assert(s.drop_last()[i].0 == k);
            }
        }
    }

    proof fn lemma_groups_index(s: Seq<(u64, Vec<Resource<V>>)>, i: int)
        requires
            Self::group_tokens_unique(s),
            0 <= i < s.len(),
        ensures
            Self::groups_of(s).contains_key(s[i].0),
            Self::groups_of(s)[s[i].0] == s[i].1@,
        decreases s.len(),
    {
        if i < s.len() - 1 {
            assert(s[i].0 != s.last().0);
            assert(s.drop_last()[i] == s[i]);
            Self::lemma_groups_index(s.drop_last(), i);
        }
    }

    proof fn lemma_groups_update(s: Seq<(u64, Vec<Resource<V>>)>, i: int, g: Vec<Resource<V>>)
        requires
            Self::group_tokens_unique(s),
            0 <= i < s.len(),
        ensures
            Self::groups_of(s.update(i, (s[i].0, g))) =~= Self::groups_of(s).insert(s[i].0, g@),
        decreases s.len(),
    {
        let s2 = s.update(i, (s[i].0, g));
        if i == s.len() - 1 {
            assert(s2.drop_last() =~= s.drop_last());
        } else {
            assert(s2.drop_last() =~= s.drop_last().update(i, (s[i].0, g)));
            assert(s.drop_last()[i] == s[i]);
            Self::lemma_groups_update(s.drop_last(), i, g);
            assert(s[i].0 != s.last().0);
        }
    }

    /// How many slots a token has.
    pub closed spec fn spec_slot_count(&self, token: u64) -> nat {
        if self.groups().contains_key(token) {
            self.groups()[token].len()
        } else {
            0
        }
    }

    /// Whether a slot with this token and one-based index exists.
    pub open spec fn has_slot(&self, token: u64, idx: u64) -> bool {
        1 <= idx <= self.spec_slot_count(token)
    }

    /// The borrow flag of a slot: the number of live shared borrows, or `-1`
    /// for a live exclusive borrow.
    pub closed spec fn slot_flag(&self, token: u64, idx: u64) -> int {
        self.groups()[token][idx - 1].flag as int
    }

    /// The value a slot holds, if it was ever set.
    pub closed spec fn slot_data(&self, token: u64, idx: u64) -> Option<V> {
        self.groups()[token][idx - 1].data
    }

    /// Whether a handle points at an existing slot.
    pub open spec fn handle_live(&self, h: ResourceHandle) -> bool {
        self.has_slot(h.spec_token(), h.spec_idx())
    }

    /// All slots agree between two managers, and no slot appeared or
    /// vanished.  Slot indices start at one, so excepting index zero excepts
    /// nothing.
    pub open spec fn same_slots(self, other: Self) -> bool {
        self.same_slots_except(other, 0, 0)
    }

    /// All slots, except possibly the named one, agree between two managers,
    /// and no slot appeared or vanished.
    pub open spec fn same_slots_except(self, other: Self, token: u64, idx: u64) -> bool {
        &&& forall|t: u64| #[trigger] other.spec_slot_count(t) == self.spec_slot_count(t)
        &&& forall|t: u64, i: u64|
            #![trigger other.slot_flag(t, i)]
            #![trigger other.slot_data(t, i)]
            self.has_slot(t, i) && !(t == token && i == idx) ==> other.slot_flag(t, i)
                == self.slot_flag(t, i) && other.slot_data(t, i) == self.slot_data(t, i)
    }

    proof fn lemma_slot_update(pre: Self, post: Self, token: u64, idx: u64, r2: Resource<V>)
        requires
            pre.has_slot(token, idx),
            post.groups() == pre.groups().insert(
                token,
                pre.groups()[token].update(idx - 1, r2),
            ),
        ensures
            pre.same_slots_except(post, token, idx),
            post.has_slot(token, idx),
            post.slot_flag(token, idx) == r2.flag as int,
            post.slot_data(token, idx) == r2.data,
    {
        assert forall|t: u64| #[trigger] post.spec_slot_count(t) == pre.spec_slot_count(t) by {
            if t != token {
                assert(post.groups().contains_key(t) == pre.groups().contains_key(t));
            }
        }
        assert forall|t: u64, i: u64|
            #![trigger post.slot_flag(t, i)]
            #![trigger post.slot_data(t, i)]
            pre.has_slot(t, i) && !(t == token && i == idx) implies post.slot_flag(t, i)
            == pre.slot_flag(t, i) && post.slot_data(t, i) == pre.slot_data(t, i) by {
            if t == token {
                assert(post.groups()[t][i - 1] == pre.groups()[t][i - 1]);
            } else {
                assert(post.groups()[t] == pre.groups()[t]);
            }
        }
    }

    /// Creates an empty resource manager.
    pub fn new() -> (r: Self)
        ensures
            forall|t: u64| #[trigger] r.spec_slot_count(t) == 0,
    {
        let r = ResourceManager { storage: Vec::new() };
        proof {
            assert forall|t: u64| #[trigger] r.spec_slot_count(t) == 0 by {
                Self::lemma_groups_contains(r.storage@, t);
            }
        }
        r
    }

    /// Finds the position of a token's group in the storage list.
    fn find_group(&self, token: u64) -> (r: Option<usize>)
        ensures
            match r {
                Some(gi) => gi < self.storage@.len() && self.storage@[gi as int].0 == token
                    && self.groups().contains_key(token) && self.groups()[token]
                    == self.storage@[gi as int].1@,
                None => !self.groups().contains_key(token),
            },
    {
        let n = self.storage.len();
        let mut i: usize = 0;
        while i < n
            invariant
                n == self.storage@.len(),
                0 <= i <= n,
                forall|j: int| 0 <= j < i ==> self.storage@[j].0 != token,
            decreases n - i,
        {
            if self.storage[i].0 == token {
                proof {
                    use_type_invariant(&*self);
                    Self::lemma_groups_index(self.storage@, i as int);
                }
                return Some(i);
            }
            i += 1;
        }
        proof {
            Self::lemma_groups_contains(self.storage@, token);
        }
        None
    }

    /// Replaces the slot `(token, idx)` by the given one, handing the old
    /// slot out.
    fn swap_slot(&mut self, token: u64, idx: u64, slot: Resource<V>) -> (r: Resource<V>)
        requires
            old(self).has_slot(token, idx),
        ensures
            r.flag as int == old(self).slot_flag(token, idx),
            r.data == old(self).slot_data(token, idx),
            old(self).same_slots_except(*final(self), token, idx),
            final(self).has_slot(token, idx),
            final(self).slot_flag(token, idx) == slot.flag as int,
            final(self).slot_data(token, idx) == slot.data,
    {
        proof {
            use_type_invariant(&*self);
        }
        let ghost pre = *self;
        let ghost s0 = self.storage@;
        let gi_opt = self.find_group(token);
        let gi = match gi_opt {
            Some(gi) => gi,
            None => {
                proof {
                    assert(false);
                }
                vstd::pervasive::unreached()
            },
        };
        let mut storage: Vec<(u64, Vec<Resource<V>>)> = Vec::new();
        std::mem::swap(&mut storage, &mut self.storage);
        let mut group = storage.remove(gi);
        let ghost g0 = group.1@;
        let si = (idx - 1) as usize;
        let old_slot = group.1.remove(si);
        group.1.insert(si, slot);
        let ghost g1 = group.1;
        storage.insert(gi, group);
        proof {
            assert(g1@ =~= g0.update(idx - 1, g1@[idx - 1]));
            assert(storage@ =~= s0.update(gi as int, (token, g1)));
            Self::lemma_groups_update(s0, gi as int, g1);
        }
        self.storage = storage;
        proof {
            Self::lemma_slot_update(pre, *self, token, idx, g1@[idx - 1]);
        }
        old_slot
    }

    /// Allocates a new, empty slot for the given token and returns its
    /// handle.
    pub fn allocate(&mut self, token: u64) -> (h: ResourceHandle)
        ensures
            h.spec_token() == token,
            h.spec_idx() == old(self).spec_slot_count(token) + 1,
            final(self).spec_slot_count(token) == old(self).spec_slot_count(token) + 1,
            forall|t: u64|
                t != token ==> #[trigger] final(self).spec_slot_count(t) == old(
                    self,
                ).spec_slot_count(t),
            forall|t: u64, i: u64|
                #![trigger final(self).slot_flag(t, i)]
                #![trigger final(self).slot_data(t, i)]
                old(self).has_slot(t, i) ==> final(self).slot_flag(t, i) == old(self).slot_flag(
                    t,
                    i,
                ) && final(self).slot_data(t, i) == old(self).slot_data(t, i),
            final(self).slot_flag(token, h.spec_idx()) == 0,
            final(self).slot_data(token, h.spec_idx()) is None,
    {
        proof {
            use_type_invariant(&*self);
        }
        let ghost pre = *self;
        let ghost s0 = self.storage@;
        let gi_opt = self.find_group(token);
        let mut storage: Vec<(u64, Vec<Resource<V>>)> = Vec::new();
        std::mem::swap(&mut storage, &mut self.storage);
        let idx: u64;
        match gi_opt {
            Some(gi) => {
                let mut group = storage.remove(gi);
                let ghost g0 = group.1@;
                group.1.push(Resource::new(None));
                idx = group.1.len() as u64;
                let ghost g1 = group.1;
                storage.insert(gi, group);
                proof {
                    assert(storage@ =~= s0.update(gi as int, (token, g1)));
                    Self::lemma_groups_update(s0, gi as int, g1);
                    assert forall|a: int, b: int| 0 <= a < b < storage@.len() implies storage@[a].0
                        != storage@[b].0 by {
                        assert(storage@[a].0 == s0[a].0);
                        assert(storage@[b].0 == s0[b].0);
                    }
                }
            },
            None => {
                let mut group: Vec<Resource<V>> = Vec::new();
                group.push(Resource::new(None));
                idx = 1;
                let ghost g1 = group;
                storage.push((token, group));
                proof {
                    assert(storage@.drop_last() =~= s0);
                    assert(Self::groups_of(storage@) == Self::groups_of(s0).insert(token, g1@));
                    Self::lemma_groups_contains(s0, token);
                    assert forall|a: int, b: int| 0 <= a < b < storage@.len() implies storage@[a].0
                        != storage@[b].0 by {
                        if b == storage@.len() - 1 {
                            assert(storage@[a].0 == s0[a].0);
                        } else {
                            assert(storage@[a].0 == s0[a].0);
                            assert(storage@[b].0 == s0[b].0);
                        }
                    }
                }
            },
        }
        self.storage = storage;
        proof {
            let g2 = self.groups()[token];
            assert(self.groups() == pre.groups().insert(token, g2));
            assert(g2.len() == pre.spec_slot_count(token) + 1);
            assert(g2[idx - 1].flag == 0 && g2[idx - 1].data is None);
            assert forall|t: u64|
                t != token implies #[trigger] self.spec_slot_count(t) == pre.spec_slot_count(
                t,
            ) by {
                assert(self.groups().contains_key(t) == pre.groups().contains_key(t));
            }
            assert forall|t: u64, i: u64|
                #![trigger self.slot_flag(t, i)]
                #![trigger self.slot_data(t, i)]
                pre.has_slot(t, i) implies self.slot_flag(t, i) == pre.slot_flag(t, i)
                && self.slot_data(t, i) == pre.slot_data(t, i) by {
                if t == token {
                    assert(self.groups()[t][i - 1] == pre.groups()[t][i - 1]);
                } else {
                    assert(self.groups()[t] == pre.groups()[t]);
                }
            }
        }
        ResourceHandle { token, idx }
    }

    /// Sets the value in the slot the handle points at.  The slot must not be
    /// borrowed exclusively.
    pub fn set(&mut self, handle: ResourceHandle, data: V)
        requires
            old(self).handle_live(handle),
            old(self).slot_flag(handle.spec_token(), handle.spec_idx()) >= 0,
        ensures
            final(self).slot_data(handle.spec_token(), handle.spec_idx()) == Some(data),
            final(self).slot_flag(handle.spec_token(), handle.spec_idx()) == old(self).slot_flag(
                handle.spec_token(),
                handle.spec_idx(),
            ),
            old(self).same_slots_except(*final(self), handle.spec_token(), handle.spec_idx()),
    {
        let token = handle.token;
        let idx = handle.idx;
        let old_slot = self.swap_slot(token, idx, Resource::new(None));
        let mut slot = old_slot;
        slot.data = Some(data);
        let _ = self.swap_slot(token, idx, slot);
    }

    /// Takes a shared borrow of the slot the handle points at, or returns
    /// `None` when the slot was never set.  The slot must not be borrowed
    /// exclusively, and its borrow count must not be exhausted.
    pub fn get(&mut self, handle: ResourceHandle) -> (r: Option<ResourceRef>)
        requires
            old(self).handle_live(handle),
            0 <= old(self).slot_flag(handle.spec_token(), handle.spec_idx()) < i64::MAX,
        ensures
            match r {
                None => {
                    &&& old(self).slot_data(handle.spec_token(), handle.spec_idx()) is None
                    &&& final(self).slot_flag(handle.spec_token(), handle.spec_idx()) == old(
                        self,
                    ).slot_flag(handle.spec_token(), handle.spec_idx())
                    &&& final(self).slot_data(handle.spec_token(), handle.spec_idx()) is None
                    &&& old(self).same_slots_except(
                        *final(self),
                        handle.spec_token(),
                        handle.spec_idx(),
                    )
                },
                Some(rr) => {
                    &&& rr.spec_token() == handle.spec_token()
                    &&& rr.spec_idx() == handle.spec_idx()
                    &&& old(self).slot_data(handle.spec_token(), handle.spec_idx()) is Some
                    &&& final(self).slot_flag(handle.spec_token(), handle.spec_idx()) == old(
                        self,
                    ).slot_flag(handle.spec_token(), handle.spec_idx()) + 1
                    &&& final(self).slot_data(handle.spec_token(), handle.spec_idx()) == old(
                        self,
                    ).slot_data(handle.spec_token(), handle.spec_idx())
                    &&& old(self).same_slots_except(
                        *final(self),
                        handle.spec_token(),
                        handle.spec_idx(),
                    )
                },
            },
    {
        let token = handle.token;
        let idx = handle.idx;
        let old_slot = self.swap_slot(token, idx, Resource::new(None));
        let mut slot = old_slot;
        if slot.data.is_some() {
            slot.lock();
            let _ = self.swap_slot(token, idx, slot);
            Some(ResourceRef::new(token, idx))
        } else {
            let _ = self.swap_slot(token, idx, slot);
            None
        }
    }

    /// Reads through a live shared borrow.
    pub fn read<'a>(&'a self, rr: &ResourceRef) -> (r: &'a V)
        requires
            self.has_slot(rr.spec_token(), rr.spec_idx()),
            self.slot_flag(rr.spec_token(), rr.spec_idx()) > 0,
            self.slot_data(rr.spec_token(), rr.spec_idx()) is Some,
        ensures
            Some(*r) == self.slot_data(rr.spec_token(), rr.spec_idx()),
    {
        let gi = match self.find_group(rr.token) {
            Some(gi) => gi,
            None => {
                proof {
                    assert(false);
                }
                vstd::pervasive::unreached()
            },
        };
        let group = &self.storage[gi];
        let _glen = group.1.len();
        let si = (rr.idx - 1) as usize;
        match &group.1[si].data {
            Some(v) => v,
            None => {
                proof {
                    assert(false);
                }
                vstd::pervasive::unreached()
            },
        }
    }

    /// Gives back a shared borrow.
    pub fn release(&mut self, rr: ResourceRef)
        requires
            old(self).has_slot(rr.spec_token(), rr.spec_idx()),
            old(self).slot_flag(rr.spec_token(), rr.spec_idx()) > 0,
        ensures
            final(self).slot_flag(rr.spec_token(), rr.spec_idx()) == old(self).slot_flag(
                rr.spec_token(),
                rr.spec_idx(),
            ) - 1,
            final(self).slot_data(rr.spec_token(), rr.spec_idx()) == old(self).slot_data(
                rr.spec_token(),
                rr.spec_idx(),
            ),
            old(self).same_slots_except(*final(self), rr.spec_token(), rr.spec_idx()),
    {
        let token = rr.token;
        let idx = rr.idx;
        let old_slot = self.swap_slot(token, idx, Resource::new(None));
        let mut slot = old_slot;
        slot.unlock();
        let _ = self.swap_slot(token, idx, slot);
    }

    /// Takes an exclusive borrow of the slot the handle points at, or returns
    /// `None` when the slot was never set.  The slot must not be borrowed at
    /// all.
    pub fn get_mut(&mut self, handle: ResourceHandle) -> (r: Option<ResourceRefMut>)
        requires
            old(self).handle_live(handle),
            old(self).slot_flag(handle.spec_token(), handle.spec_idx()) == 0,
        ensures
            match r {
                None => {
                    &&& old(self).slot_data(handle.spec_token(), handle.spec_idx()) is None
                    &&& final(self).slot_flag(handle.spec_token(), handle.spec_idx()) == old(
                        self,
                    ).slot_flag(handle.spec_token(), handle.spec_idx())
                    &&& final(self).slot_data(handle.spec_token(), handle.spec_idx()) is None
                    &&& old(self).same_slots_except(
                        *final(self),
                        handle.spec_token(),
                        handle.spec_idx(),
                    )
                },
                Some(rr) => {
                    &&& rr.spec_token() == handle.spec_token()
                    &&& rr.spec_idx() == handle.spec_idx()
                    &&& old(self).slot_data(handle.spec_token(), handle.spec_idx()) is Some
                    &&& final(self).slot_flag(handle.spec_token(), handle.spec_idx()) == -1
                    &&& final(self).slot_data(handle.spec_token(), handle.spec_idx()) == old(
                        self,
                    ).slot_data(handle.spec_token(), handle.spec_idx())
                    &&& old(self).same_slots_except(
                        *final(self),
                        handle.spec_token(),
                        handle.spec_idx(),
                    )
                },
            },
    {
        let token = handle.token;
        let idx = handle.idx;
        let old_slot = self.swap_slot(token, idx, Resource::new(None));
        let mut slot = old_slot;
        if slot.data.is_some() {
            slot.lock_mut();
            let _ = self.swap_slot(token, idx, slot);
            Some(ResourceRefMut::new(token, idx))
        } else {
            let _ = self.swap_slot(token, idx, slot);
            None
        }
    }

    /// Reads through a live exclusive borrow.
    pub fn read_mut<'a>(&'a self, rr: &ResourceRefMut) -> (r: &'a V)
        requires
            self.has_slot(rr.spec_token(), rr.spec_idx()),
            self.slot_flag(rr.spec_token(), rr.spec_idx()) == -1,
            self.slot_data(rr.spec_token(), rr.spec_idx()) is Some,
        ensures
            Some(*r) == self.slot_data(rr.spec_token(), rr.spec_idx()),
    {
        let gi = match self.find_group(rr.token) {
            Some(gi) => gi,
            None => {
                proof {
                    assert(false);
                }
                vstd::pervasive::unreached()
            },
        };
        let group = &self.storage[gi];
        let _glen = group.1.len();
        let si = (rr.idx - 1) as usize;
        match &group.1[si].data {
            Some(v) => v,
            None => {
                proof {
                    assert(false);
                }
                vstd::pervasive::unreached()
            },
        }
    }

    /// Writes through a live exclusive borrow.
    pub fn write(&mut self, rr: &ResourceRefMut, data: V)
        requires
            old(self).has_slot(rr.spec_token(), rr.spec_idx()),
            old(self).slot_flag(rr.spec_token(), rr.spec_idx()) == -1,
        ensures
            final(self).slot_flag(rr.spec_token(), rr.spec_idx()) == -1,
            final(self).slot_data(rr.spec_token(), rr.spec_idx()) == Some(data),
            old(self).same_slots_except(*final(self), rr.spec_token(), rr.spec_idx()),
    {
        let token = rr.token;
        let idx = rr.idx;
        let old_slot = self.swap_slot(token, idx, Resource::new(None));
        let mut slot = old_slot;
        slot.data = Some(data);
        let _ = self.swap_slot(token, idx, slot);
    }

    /// Gives back an exclusive borrow.
    pub fn release_mut(&mut self, rr: ResourceRefMut)
        requires
            old(self).has_slot(rr.spec_token(), rr.spec_idx()),
            old(self).slot_flag(rr.spec_token(), rr.spec_idx()) == -1,
        ensures
            final(self).slot_flag(rr.spec_token(), rr.spec_idx()) == 0,
            final(self).slot_data(rr.spec_token(), rr.spec_idx()) == old(self).slot_data(
                rr.spec_token(),
                rr.spec_idx(),
            ),
            old(self).same_slots_except(*final(self), rr.spec_token(), rr.spec_idx()),
    {
        let token = rr.token;
        let idx = rr.idx;
        let old_slot = self.swap_slot(token, idx, Resource::new(None));
        let mut slot = old_slot;
        slot.unlock_mut();
        let _ = self.swap_slot(token, idx, slot);
    }

    /// Whether the handle points at an existing slot, for drivers that must
    /// check before they call.
    pub fn is_live(&self, handle: ResourceHandle) -> (r: bool)
        ensures
            r == self.handle_live(handle),
    {
        match self.find_group(handle.token) {
            Some(gi) => {
                proof {
                    use_type_invariant(&*self);
                }
                let len = self.storage[gi].1.len();
                1 <= handle.idx && handle.idx <= len as u64
            },
            None => false,
        }
    }

    /// The borrow flag of the slot a handle points at, for drivers that must
    /// check before they call.
    pub fn borrow_flag(&self, handle: ResourceHandle) -> (r: i64)
        requires
            self.handle_live(handle),
        ensures
            r as int == self.slot_flag(handle.spec_token(), handle.spec_idx()),
    {
        let gi = match self.find_group(handle.token) {
            Some(gi) => gi,
            None => {
                proof {
                    assert(false);
                }
                vstd::pervasive::unreached()
            },
        };
        let _glen = self.storage[gi].1.len();
        let si = (handle.idx - 1) as usize;
        self.storage[gi].1[si].flag
    }
}


/// One file read that is still in flight: the asset's type token, its path,
/// the file extension that picks the loader, and the slot the loaded value
/// will be stored in.
pub struct PendingTask {
    pub token: u64,
    pub path: String,
    pub extension: String,
    pub handle: ResourceHandle,
}

/// The loader registry as token and extension pairs.
pub open spec fn loaders_view(s: Seq<(u64, String)>) -> Seq<(u64, Seq<char>)> {
    s.map(|i: int, p: (u64, String)| (p.0, p.1@))
}

/// The handle cache as token, path and handle triples.
pub open spec fn handles_view(s: Seq<(u64, String, ResourceHandle)>) -> Seq<
    (u64, Seq<char>, ResourceHandle),
> {
    s.map(|i: int, p: (u64, String, ResourceHandle)| (p.0, p.1@, p.2))
}

/// The handle the cache holds for an asset, if it was ever requested: the
/// first entry with this token and path.
pub open spec fn cache_lookup(
    hs: Seq<(u64, Seq<char>, ResourceHandle)>,
    token: u64,
    path: Seq<char>,
) -> Option<ResourceHandle>
    decreases hs.len(),
{
    if hs.len() == 0 {
        None
    } else if hs[0].0 == token && hs[0].1 == path {
        Some(hs[0].2)
    } else {
        cache_lookup(hs.drop_first(), token, path)
    }
}

/// Whether a loader is registered for a token and file extension.
pub open spec fn has_loader_for(ls: Seq<(u64, Seq<char>)>, token: u64, ext: Seq<char>) -> bool {
    exists|i: int| 0 <= i < ls.len() && ls[i] == (token, ext)
}

/// Bookkeeping for asset loading: which loaders are registered, which assets
/// already have a handle, and which file reads are still in flight.  The
/// reads themselves, and the loaders, are the driver's; this records every
/// decision: when to allocate, when to reuse a cached handle, which loader a
/// finished read feeds, and which slot receives the result.
pub struct Assets {
    loaders: Vec<(u64, String)>,
    handles: Vec<(u64, String, ResourceHandle)>,
    tasks: Vec<PendingTask>,
    fs_set: bool,
}

impl Assets {
    /// The registered loaders, as token and extension pairs.
    pub closed spec fn spec_loaders(&self) -> Seq<(u64, Seq<char>)> {
        loaders_view(self.loaders@)
    }

    /// The handle cache, as token, path and handle triples.
    pub closed spec fn spec_handles(&self) -> Seq<(u64, Seq<char>, ResourceHandle)> {
        handles_view(self.handles@)
    }

    /// The file reads still in flight.
    pub closed spec fn spec_tasks(&self) -> Seq<PendingTask> {
        self.tasks@
    }

    /// Whether a file system was installed in place of the default one.
    pub closed spec fn spec_fs_set(&self) -> bool {
        self.fs_set
    }

    /// Creates an empty asset registry.
    pub fn new() -> (r: Self)
        ensures
            r.spec_loaders() == Seq::<(u64, Seq<char>)>::empty(),
            r.spec_handles() == Seq::<(u64, Seq<char>, ResourceHandle)>::empty(),
            r.spec_tasks() == Seq::<PendingTask>::empty(),
            !r.spec_fs_set(),
    {
        let r = Assets { loaders: Vec::new(), handles: Vec::new(), tasks: Vec::new(), fs_set: false };
        proof {
            assert(r.spec_loaders() =~= Seq::<(u64, Seq<char>)>::empty());
            assert(r.spec_handles() =~= Seq::<(u64, Seq<char>, ResourceHandle)>::empty());
        }
        r
    }

    /// Records that the driver installed its own file system.
    pub fn set_fs(&mut self)
        ensures
            final(self).spec_fs_set(),
            final(self).spec_loaders() == old(self).spec_loaders(),
            final(self).spec_handles() == old(self).spec_handles(),
            final(self).spec_tasks() == old(self).spec_tasks(),
    {
        self.fs_set = true;
    }

    /// Registers a loader for the given type under each of the given file
    /// extensions.
    pub fn add_loader(&mut self, token: u64, extensions: Vec<String>)
        ensures
            final(self).spec_loaders() == old(self).spec_loaders() + loaders_view(
                extensions@.map(|i: int, e: String| (token, e)),
            ),
            final(self).spec_handles() == old(self).spec_handles(),
            final(self).spec_tasks() == old(self).spec_tasks(),
            final(self).spec_fs_set() == old(self).spec_fs_set(),
    {
        let ghost l0 = self.loaders@;
        let ghost exts = extensions@;
        let mut rest = extensions;
        let n = rest.len();
        let mut i: usize = 0;
        while i < n
            invariant
                n == exts.len(),
                0 <= i <= n,
                rest@ == exts.skip(i as int),
                self.loaders@ == l0 + exts.take(i as int).map(|k: int, e: String| (token, e)),
                self.handles@ == old(self).handles@,
                self.tasks@ == old(self).tasks@,
                self.fs_set == old(self).fs_set,
            decreases n - i,
        {
            let e = rest.remove(0);
            self.loaders.push((token, e));
            proof {
                let f = |k: int, e: String| (token, e);
                assert(exts.take(i + 1 as int).map(f).drop_last() =~= exts.take(i as int).map(f));
                assert(exts.take(i + 1 as int).map(f).last() == (token, exts[i as int]));
                assert(self.loaders@ =~= l0 + exts.take(i + 1 as int).map(f));
                assert(rest@ =~= exts.skip(i + 1 as int));
            }
            i += 1;
        }
        proof {
            assert(exts.take(n as int) =~= exts);
            assert(loaders_view(l0 + exts.map(|k: int, e: String| (token, e))) =~= loaders_view(l0)
                + loaders_view(exts.map(|k: int, e: String| (token, e))));
        }
    }

    /// Whether a loader is registered for this token and extension.
    pub fn has_loader(&self, token: u64, extension: &String) -> (r: bool)
        ensures
            r == has_loader_for(self.spec_loaders(), token, extension@),
    {
        let n = self.loaders.len();
        let mut i: usize = 0;
        while i < n
            invariant
                n == self.loaders@.len(),
                0 <= i <= n,
                forall|j: int| 0 <= j < i ==> self.spec_loaders()[j] != (token, extension@),
            decreases n - i,
        {
            if self.loaders[i].0 == token && self.loaders[i].1 == *extension {
                proof {
                    assert(self.spec_loaders()[i as int] == (token, extension@));
                }
                return true;
            }
            i += 1;
        }
        false
    }

    /// Returns the handle for the asset at the given path, allocating a new
    /// slot and recording a pending read when the asset was never requested
    /// before.  The second component says whether a read was started: the
    /// driver then performs it and hands the result to `finish_task`.
    pub fn load<V>(
        &mut self,
        rm: &mut ResourceManager<V>,
        token: u64,
        path: String,
        extension: String,
    ) -> (r: (ResourceHandle, bool))
        ensures
            match cache_lookup(old(self).spec_handles(), token, path@) {
                Some(h) => {
                    &&& r == (h, false)
                    &&& final(self).spec_loaders() == old(self).spec_loaders()
                    &&& final(self).spec_handles() == old(self).spec_handles()
                    &&& final(self).spec_tasks() == old(self).spec_tasks()
                    &&& final(self).spec_fs_set() == old(self).spec_fs_set()
                    &&& old(rm).same_slots(*final(rm))
                },
                None => {
                    &&& r.1
                    &&& r.0.spec_token() == token
                    &&& r.0.spec_idx() == old(rm).spec_slot_count(token) + 1
                    &&& final(rm).spec_slot_count(token) == old(rm).spec_slot_count(token) + 1
                    &&& forall|t: u64|
                        t != token ==> #[trigger] final(rm).spec_slot_count(t) == old(
                            rm,
                        ).spec_slot_count(t)
                    &&& forall|t: u64, i: u64|
                        #![trigger final(rm).slot_flag(t, i)]
                        #![trigger final(rm).slot_data(t, i)]
                        old(rm).has_slot(t, i) ==> final(rm).slot_flag(t, i) == old(rm).slot_flag(
                            t,
                            i,
                        ) && final(rm).slot_data(t, i) == old(rm).slot_data(t, i)
                    &&& final(rm).slot_flag(token, r.0.spec_idx()) == 0
                    &&& final(rm).slot_data(token, r.0.spec_idx()) is None
                    &&& final(self).spec_handles() == old(self).spec_handles().push(
                        (token, path@, r.0),
                    )
                    &&& final(self).spec_tasks().len() == old(self).spec_tasks().len() + 1
                    &&& final(self).spec_tasks().last().token == token
                    &&& final(self).spec_tasks().last().path@ == path@
                    &&& final(self).spec_tasks().last().extension@ == extension@
                    &&& final(self).spec_tasks().last().handle == r.0
                    &&& final(self).spec_tasks().drop_last() == old(self).spec_tasks()
                    &&& final(self).spec_loaders() == old(self).spec_loaders()
                    &&& final(self).spec_fs_set() == old(self).spec_fs_set()
                },
            },
    {
        let ghost hs = self.spec_handles();
        proof {
            assert(hs.skip(0) =~= hs);
        }
        let n = self.handles.len();
        let mut i: usize = 0;
        while i < n
            invariant
                n == self.handles@.len(),
                hs == self.spec_handles(),
                0 <= i <= n,
                cache_lookup(hs, token, path@) == cache_lookup(
                    hs.skip(i as int),
                    token,
                    path@,
                ),
            decreases n - i,
        {
            let hit = self.handles[i].0 == token && self.handles[i].1 == path;
            proof {
                assert(hs.skip(i as int)[0] == hs[i as int]);
                assert(hs.skip(i as int).drop_first() =~= hs.skip(i + 1 as int));
            }
            if hit {
                return (self.handles[i].2, false);
            }
            i += 1;
        }
        proof {
            assert(hs.skip(n as int) =~= Seq::<(u64, Seq<char>, ResourceHandle)>::empty());
        }
        let handle = rm.allocate(token);
        let task = PendingTask {
            token,
            path: path.clone(),
            extension,
            handle,
        };
        self.handles.push((token, path, handle));
        self.tasks.push(task);
        proof {
            assert(self.spec_handles() =~= hs.push((token, path@, handle)));
            assert(self.tasks@.drop_last() =~= old(self).tasks@);
        }
        (handle, true)
    }

    /// How many file reads are still in flight.
    pub fn task_count(&self) -> (r: usize)
        ensures
            r == self.spec_tasks().len(),
    {
        self.tasks.len()
    }

    /// The pending read at the given position.
    pub fn task(&self, i: usize) -> (r: &PendingTask)
        requires
            i < self.spec_tasks().len(),
        ensures
            *r == self.spec_tasks()[i as int],
    {
        &self.tasks[i]
    }

    /// Resolves the pending read at the given position: stores the value the
    /// driver's loader produced into the task's slot and forgets the task.
    /// There must be a loader for the task's token and extension — feeding a
    /// read nobody can load is a setup bug, as is resolving into a slot that
    /// is currently borrowed.
    pub fn finish_task<V>(&mut self, rm: &mut ResourceManager<V>, i: usize, value: V)
        requires
            i < old(self).spec_tasks().len(),
            has_loader_for(
                old(self).spec_loaders(),
                old(self).spec_tasks()[i as int].token,
                old(self).spec_tasks()[i as int].extension@,
            ),
            old(rm).handle_live(old(self).spec_tasks()[i as int].handle),
            old(rm).slot_flag(
                old(self).spec_tasks()[i as int].handle.spec_token(),
                old(self).spec_tasks()[i as int].handle.spec_idx(),
            ) >= 0,
        ensures
            final(self).spec_tasks() == old(self).spec_tasks().remove(i as int),
            final(self).spec_handles() == old(self).spec_handles(),
            final(self).spec_loaders() == old(self).spec_loaders(),
            final(self).spec_fs_set() == old(self).spec_fs_set(),
            final(rm).slot_data(
                old(self).spec_tasks()[i as int].handle.spec_token(),
                old(self).spec_tasks()[i as int].handle.spec_idx(),
            ) == Some(value),
            old(rm).same_slots_except(
                *final(rm),
                old(self).spec_tasks()[i as int].handle.spec_token(),
                old(self).spec_tasks()[i as int].handle.spec_idx(),
            ),
    {
        let task = self.tasks.remove(i);
        rm.set(task.handle, value);
    }
}

} // verus!
