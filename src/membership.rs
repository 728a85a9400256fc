use vstd::prelude::*;
use crate::account::AccountId;

verus! {

/// The role one account holds in one group.
#[derive(Clone, Copy, Debug, PartialEq, Eq)]
pub struct GroupUser {
    pub role: u8,
}

/// One stored membership.
#[derive(Clone, Copy, Debug)]
pub struct MembershipEntry {
    pub group_id: u32,
    pub user: AccountId,
    pub role: u8,
}

impl MembershipEntry {
    pub open spec fn key(self) -> (u32, AccountId) {
        (self.group_id, self.user)
    }
}

/// `entries` lists exactly the memberships of `m`, each once.
pub open spec fn lists_memberships(m: Map<(u32, AccountId), u8>, entries: Seq<MembershipEntry>) -> bool {
    &&& forall|i: int|
        0 <= i < entries.len() ==> m.contains_key(#[trigger] entries[i].key()) && m[entries[i].key()]
            == entries[i].role
    &&& forall|k: (u32, AccountId)|
        #[trigger] m.contains_key(k) ==> exists|i: int| 0 <= i < entries.len() && entries[i].key() == k
    &&& forall|i: int, j: int|
        0 <= i < entries.len() && 0 <= j < entries.len() && i != j ==> entries[i].key() != entries[j].key()
}

/// Memberships keyed by (group, account), at most one per pair.
pub struct MembershipStore {
    entries: Vec<MembershipEntry>,
    model: Ghost<Map<(u32, AccountId), u8>>,
}

impl View for MembershipStore {
    type V = Map<(u32, AccountId), u8>;

    closed spec fn view(&self) -> Map<(u32, AccountId), u8> {
        self.model@
    }
}

impl MembershipStore {
    /// The entries agree with the model, and no two share a key.
    pub closed spec fn wf(&self) -> bool {
        &&& forall|i: int|
            0 <= i < self.entries@.len() ==> {
                &&& self.model@.contains_key(#[trigger] self.entries@[i].key())
                &&& self.model@[self.entries@[i].key()] == self.entries@[i].role
            }
        &&& forall|k: (u32, AccountId)|
            #[trigger] self.model@.contains_key(k) ==> exists|i: int|
                0 <= i < self.entries@.len() && self.entries@[i].key() == k
        &&& forall|i: int, j: int|
            0 <= i < self.entries@.len() && 0 <= j < self.entries@.len() && i != j
                ==> self.entries@[i].key() != self.entries@[j].key()
    }

    /// Copies of the stored memberships, in no particular order.
    pub fn export(&self) -> (r: Vec<MembershipEntry>)
        requires
            self.wf(),
        ensures
            lists_memberships(self@, r@),
    {
        let mut out: Vec<MembershipEntry> = Vec::new();
        let mut i: usize = 0;
        while i < self.entries.len()
            invariant
                0 <= i <= self.entries@.len(),
                out@ == self.entries@.take(i as int),
            decreases self.entries@.len() - i,
        {
            out.push(self.entries[i]);
            i = i + 1;
            assert(out@ =~= self.entries@.take(i as int));
        }
        assert(self.entries@.take(i as int) =~= self.entries@);
        out
    }

    pub fn new() -> (r: MembershipStore)
        ensures
            r.wf(),
            r@ == Map::<(u32, AccountId), u8>::empty(),
    {
        MembershipStore { entries: Vec::new(), model: Ghost(Map::empty()) }
    }

    fn find(&self, group_id: u32, user: &AccountId) -> (r: Option<usize>)
        requires
            self.wf(),
        ensures
            match r {
                Some(i) => i < self.entries@.len() && self.entries@[i as int].key() == (group_id, *user),
                None => !self@.contains_key((group_id, *user)),
            },
    {
        let mut i: usize = 0;
        while i < self.entries.len()
            invariant
                self.wf(),
                0 <= i <= self.entries@.len(),
                forall|j: int| 0 <= j < i ==> self.entries@[j].key() != (group_id, *user),
            decreases self.entries@.len() - i,
        {
            let e = &self.entries[i];
            if e.group_id == group_id && e.user.same(user) {
                return Some(i);
            }
            i = i + 1;
        }
        None
    }

    /// The role of `user` in `group_id`, if it holds one.
    pub fn get(&self, group_id: u32, user: &AccountId) -> (r: Option<u8>)
        requires
            self.wf(),
        ensures
            r == (if self@.contains_key((group_id, *user)) {
                Some(self@[(group_id, *user)])
            } else {
                None::<u8>
            }),
    {
        match self.find(group_id, user) {
            Some(i) => Some(self.entries[i].role),
            None => None,
        }
    }

    /// Sets the role of `user` in `group_id`, adding the membership if absent.
    pub fn put(&mut self, group_id: u32, user: &AccountId, role: u8)
        requires
            old(self).wf(),
        ensures
            final(self).wf(),
            final(self)@ == old(self)@.insert((group_id, *user), role),
    {
        let k = Ghost((group_id, *user));
        match self.find(group_id, user) {
            Some(i) => {
                let entry = MembershipEntry { group_id, user: *user, role };
                self.entries.set(i, entry);
                self.model = Ghost(self.model@.insert(k@, role));
                assert forall|k2: (u32, AccountId)| #[trigger] self.model@.contains_key(k2) implies exists|j: int|
                    0 <= j < self.entries@.len() && self.entries@[j].key() == k2 by {
                    if k2 != k@ {
                        let j = choose|j: int| 0 <= j < old(self).entries@.len() && old(self).entries@[j].key() == k2;
                        assert(self.entries@[j].key() == k2);
                    } else {
                        assert(self.entries@[i as int].key() == k2);
                    }
                }
            },
            None => {
                let entry = MembershipEntry { group_id, user: *user, role };
                self.entries.push(entry);
                self.model = Ghost(self.model@.insert(k@, role));
                assert forall|k2: (u32, AccountId)| #[trigger] self.model@.contains_key(k2) implies exists|j: int|
                    0 <= j < self.entries@.len() && self.entries@[j].key() == k2 by {
                    if k2 != k@ {
                        let j = choose|j: int| 0 <= j < old(self).entries@.len() && old(self).entries@[j].key() == k2;
                        assert(self.entries@[j].key() == k2);
                    } else {
                        assert(self.entries@[self.entries@.len() - 1].key() == k2);
                    }
                }
            },
        }
    }

    /// Removes the membership of `user` in `group_id`, if any.
    pub fn remove(&mut self, group_id: u32, user: &AccountId)
        requires
            old(self).wf(),
        ensures
            final(self).wf(),
            final(self)@ == old(self)@.remove((group_id, *user)),
    {
        let k = Ghost((group_id, *user));
        match self.find(group_id, user) {
            Some(i) => {
                let ghost old_entries = self.entries@;
                self.entries.remove(i);
                self.model = Ghost(self.model@.remove(k@));
                assert forall|j: int| 0 <= j < self.entries@.len() implies {
                    &&& self.model@.contains_key(#[trigger] self.entries@[j].key())
                    &&& self.model@[self.entries@[j].key()] == self.entries@[j].role
                } by {
                    if j < i {
                        assert(self.entries@[j] == old_entries[j]);
                    } else {
                        assert(self.entries@[j] == old_entries[j + 1]);
                    }
                }
                assert forall|k2: (u32, AccountId)| #[trigger] self.model@.contains_key(k2) implies exists|j: int|
                    0 <= j < self.entries@.len() && self.entries@[j].key() == k2 by {
                    let j = choose|j: int| 0 <= j < old_entries.len() && old_entries[j].key() == k2;
                    if j < i {
                        assert(self.entries@[j].key() == k2);
                    } else {
                        assert(self.entries@[j - 1].key() == k2);
                    }
                }
                assert forall|a: int, b: int|
                    0 <= a < self.entries@.len() && 0 <= b < self.entries@.len() && a != b
                        implies self.entries@[a].key() != self.entries@[b].key() by {
                    let oa = if a < i { a } else { a + 1 };
                    let ob = if b < i { b } else { b + 1 };
                    assert(self.entries@[a] == old_entries[oa]);
                    assert(self.entries@[b] == old_entries[ob]);
                }
            },
            None => {
                assert(self.model@.remove(k@) =~= self.model@);
            },
        }
    }
}

} // verus!
