use vstd::prelude::*;
use crate::error::{AZGroupsError, is_not_found, is_unprocessable, not_found, unprocessable};
use crate::name_index::NameIndex;
use crate::text::{lower_of, lowercased};

verus! {

/// A named group. Its id is its position in the order of creation.
#[derive(Clone, Debug, PartialEq)]
pub struct Group {
    pub id: u32,
    pub name: String,
    pub enabled: bool,
}

/// A group as plain values.
pub struct GroupView {
    pub id: u32,
    pub name: Seq<char>,
    pub enabled: bool,
}

impl View for Group {
    type V = GroupView;

    open spec fn view(&self) -> GroupView {
        GroupView { id: self.id, name: self.name@, enabled: self.enabled }
    }
}

impl Group {
    /// A copy of this group.
    pub fn duplicate(&self) -> (r: Group)
        ensures
            r@ == self@,
    {
        Group { id: self.id, name: self.name.clone(), enabled: self.enabled }
    }
}

/// The largest number of groups: ids are `u32` values handed out in sequence.
pub const GROUP_LIMIT: u32 = 4294967295;

/// The groups, indexed by id, and the lookup from case-folded name to id.
pub struct GroupRegistry {
    groups: Vec<Group>,
    index: NameIndex,
}

/// The groups as plain values, in order.
pub open spec fn views_of(groups: Seq<Group>) -> Seq<GroupView> {
    groups.map_values(|g: Group| g@)
}

impl GroupRegistry {
    /// The groups, in order of id.
    pub closed spec fn groups(&self) -> Seq<GroupView> {
        views_of(self.groups@)
    }

    /// The name index.
    pub closed spec fn index(&self) -> Map<Seq<char>, u32> {
        self.index@
    }

    /// Each group sits at the position of its id, and the index maps the
    /// case-folded name of each group to its id and holds nothing else.
    pub closed spec fn wf(&self) -> bool {
        &&& self.index.wf()
        &&& self.groups@.len() <= GROUP_LIMIT
        &&& forall|i: int| 0 <= i < self.groups@.len() ==> #[trigger] self.groups@[i].id == i
        &&& forall|i: int| 0 <= i < self.groups@.len() ==> (#[trigger] self.groups@[i]).name@.len() > 0
        &&& forall|i: int|
            0 <= i < self.groups@.len() ==> {
                &&& self.index@.contains_key(lower_of(#[trigger] self.groups@[i].name@))
                &&& self.index@[lower_of(self.groups@[i].name@)] == i
            }
        &&& forall|k: Seq<char>|
            #[trigger] self.index@.contains_key(k) ==> {
                &&& self.index@[k] < self.groups@.len()
                &&& lower_of(self.groups@[self.index@[k] as int].name@) == k
            }
    }

    proof fn lemma_wf_facts(&self)
        requires
            self.wf(),
        ensures
            self.groups().len() == self.groups@.len(),
            forall|i: int| 0 <= i < self.groups@.len() ==> #[trigger] self.groups()[i] == self.groups@[i]@,
            self.groups().len() <= GROUP_LIMIT,
            forall|i: int| 0 <= i < self.groups().len() ==> #[trigger] self.groups()[i].id == i,
            forall|i: int|
                0 <= i < self.groups().len() ==> self.index().contains_key(
                    lower_of(#[trigger] self.groups()[i].name),
                ) && self.index()[lower_of(self.groups()[i].name)] == i,
            forall|k: Seq<char>|
                #[trigger] self.index().contains_key(k) ==> self.index()[k] < self.groups().len()
                    && lower_of(self.groups()[self.index()[k] as int].name) == k,
    {
        assert forall|i: int| 0 <= i < self.groups().len() implies self.index().contains_key(
            lower_of(#[trigger] self.groups()[i].name),
        ) && self.index()[lower_of(self.groups()[i].name)] == i by {
            assert(self.groups()[i] == self.groups@[i]@);
        }
    }

    /// Facts of a well-formed registry: ids match positions; the index maps
    /// each group's case-folded name to its id and names nothing else.
    pub proof fn lemma_consistent(&self)
        requires
            self.wf(),
        ensures
            self.groups().len() <= GROUP_LIMIT,
            forall|i: int| 0 <= i < self.groups().len() ==> #[trigger] self.groups()[i].id == i,
            forall|i: int| 0 <= i < self.groups().len() ==> (#[trigger] self.groups()[i]).name.len() > 0,
            forall|i: int|
                0 <= i < self.groups().len() ==> self.index().contains_key(
                    lower_of(#[trigger] self.groups()[i].name),
                ) && self.index()[lower_of(self.groups()[i].name)] == i,
            forall|k: Seq<char>|
                #[trigger] self.index().contains_key(k) ==> self.index()[k] < self.groups().len()
                    && lower_of(self.groups()[self.index()[k] as int].name) == k,
    {
        self.lemma_wf_facts();
        assert forall|i: int| 0 <= i < self.groups().len() implies (#[trigger] self.groups()[i]).name.len() > 0 by {
            assert(self.groups()[i] == self.groups@[i]@);
        }
    }

    pub fn new() -> (r: GroupRegistry)
        ensures
            r.wf(),
            r.groups() == Seq::<GroupView>::empty(),
            r.index() == Map::<Seq<char>, u32>::empty(),
    {
        let r = GroupRegistry { groups: Vec::new(), index: NameIndex::new() };
        assert(r.groups() =~= Seq::<GroupView>::empty());
        r
    }

    /// The number of groups created so far.
    pub fn len(&self) -> (r: u32)
        requires
            self.wf(),
        ensures
            r == self.groups().len(),
    {
        proof { self.lemma_wf_facts(); }
        self.groups.len() as u32
    }

    /// Copies of the groups, in order of id.
    pub fn export(&self) -> (r: Vec<Group>)
        requires
            self.wf(),
        ensures
            views_of(r@) == self.groups(),
    {
        let mut out: Vec<Group> = Vec::new();
        let mut i: usize = 0;
        while i < self.groups.len()
            invariant
                0 <= i <= self.groups@.len(),
                out@.len() == i,
                forall|j: int| 0 <= j < i ==> #[trigger] out@[j]@ == self.groups@[j]@,
            decreases self.groups@.len() - i,
        {
            out.push(self.groups[i].duplicate());
            i = i + 1;
        }
        assert(views_of(out@) =~= views_of(self.groups@));
        out
    }

    /// The id indexed under the case-folded name `key`, if any.
    pub fn id_by_key(&self, key: &String) -> (r: Option<u32>)
        requires
            self.wf(),
        ensures
            r == (if self.index().contains_key(key@) {
                Some(self.index()[key@])
            } else {
                None::<u32>
            }),
    {
        self.index.get(key)
    }

    /// The group with id `id`, or `NotFound` naming "Group".
    pub fn show(&self, id: u32) -> (r: Result<Group, AZGroupsError>)
        requires
            self.wf(),
        ensures
            id < self.groups().len() ==> r is Ok && r->Ok_0@ == self.groups()[id as int],
            id >= self.groups().len() ==> r is Err && is_not_found(r->Err_0, "Group"@),
    {
        proof { self.lemma_wf_facts(); }
        if (id as usize) < self.groups.len() {
            Ok(self.groups[id as usize].duplicate())
        } else {
            Err(not_found("Group"))
        }
    }
    /// Creates a group named `name`, indexed under `key`, its case-folded name.
    /// Fails when the name is blank, when every id is taken, or when the key is
    /// already indexed; then nothing changes.
    pub fn create(&mut self, name: String, key: String) -> (r: Result<Group, AZGroupsError>)
        requires
            old(self).wf(),
            key@ == lower_of(name@),
        ensures
            final(self).wf(),
            name@.len() == 0 ==> r is Err && is_unprocessable(r->Err_0, "Name can't be blank"@),
            name@.len() != 0 && old(self).groups().len() == GROUP_LIMIT ==> r is Err
                && is_unprocessable(r->Err_0, "Group limit reached"@),
            name@.len() != 0 && old(self).groups().len() < GROUP_LIMIT && old(self).index().contains_key(key@)
                ==> r is Err && is_unprocessable(r->Err_0, "Group has already been taken"@),
            r is Err ==> *final(self) == *old(self),
            r is Ok <==> (name@.len() != 0 && old(self).groups().len() < GROUP_LIMIT && !old(self).index().contains_key(key@)),
            r is Ok ==> {
                &&& r->Ok_0@ == (GroupView { id: old(self).groups().len() as u32, name: name@, enabled: true })
                &&& final(self).groups() == old(self).groups().push(r->Ok_0@)
                &&& final(self).index() == old(self).index().insert(key@, r->Ok_0.id)
            },
    {
        proof { self.lemma_wf_facts(); }
        if name.as_str().is_empty() {
            return Err(unprocessable("Name can't be blank"));
        }
        if self.groups.len() as u32 == GROUP_LIMIT {
            return Err(unprocessable("Group limit reached"));
        }
        if self.index.get(&key).is_some() {
            return Err(unprocessable("Group has already been taken"));
        }
        let id = self.groups.len() as u32;
        let group = Group { id, name, enabled: true };
        let result = group.duplicate();
        let ghost old_groups = self.groups@;
        self.groups.push(group);
        self.index.insert(key, id);
        proof {
            assert(views_of(self.groups@) =~= views_of(old_groups).push(result@));
            assert forall|i: int| 0 <= i < self.groups@.len() implies {
                &&& self.index@.contains_key(lower_of(#[trigger] self.groups@[i].name@))
                &&& self.index@[lower_of(self.groups@[i].name@)] == i
            } by {
                if i < old_groups.len() {
                    assert(self.groups@[i] == old_groups[i]);
                    assert(old(self).index@.contains_key(lower_of(old_groups[i].name@)));
                }
            }
            assert forall|k: Seq<char>| #[trigger] self.index@.contains_key(k) implies {
                &&& self.index@[k] < self.groups@.len()
                &&& lower_of(self.groups@[self.index@[k] as int].name@) == k
            } by {
                if k != key@ {
                    assert(old(self).index@.contains_key(k));
                }
            }
        }
        Ok(result)
    }

    /// Renames the group `id` to `new_name` (with its case-folded `key`) when one
    /// is given, and sets its flag when one is given. Fails when the group does
    /// not exist, when the new name is blank, or when its key differs from the
    /// group's current one and is already indexed; then nothing changes.
    pub fn rename_and_update(
        &mut self,
        id: u32,
        new_name: Option<(String, String)>,
        enabled: Option<bool>,
    ) -> (r: Result<Group, AZGroupsError>)
        requires
            old(self).wf(),
            new_name matches Some(p) ==> p.1@ == lower_of(p.0@),
        ensures
            final(self).wf(),
            r is Err ==> *final(self) == *old(self),
            id >= old(self).groups().len() ==> r is Err && is_not_found(r->Err_0, "Group"@),
            id < old(self).groups().len() ==> rename_outcome(
                old(self).groups(),
                old(self).index(),
                final(self).groups(),
                final(self).index(),
                id,
                name_views(new_name),
                enabled,
                r,
            ),
    {
        proof { self.lemma_wf_facts(); }
        if (id as usize) >= self.groups.len() {
            return Err(not_found("Group"));
        }
        let mut group = self.groups[id as usize].duplicate();
        let ghost old_groups = self.groups@;
        match new_name {
            Some((name, new_key)) => {
                if name.as_str().is_empty() {
                    return Err(unprocessable("Name can't be blank"));
                }
                let old_key = lowercased(group.name.as_str());
                if new_key != old_key && self.index.get(&new_key).is_some() {
                    return Err(unprocessable("Group has already been taken"));
                }
                self.index.remove(&old_key);
                group.name = name;
                self.index.insert(new_key, id);
            },
            None => {},
        }
        match enabled {
            Some(flag) => {
                group.enabled = flag;
            },
            None => {},
        }
        let result = group.duplicate();
        self.groups.set(id as usize, group);
        proof {
            assert(views_of(self.groups@) =~= views_of(old_groups).update(id as int, result@));
            assert forall|i: int| 0 <= i < self.groups@.len() implies {
                &&& self.index@.contains_key(lower_of(#[trigger] self.groups@[i].name@))
                &&& self.index@[lower_of(self.groups@[i].name@)] == i
            } by {
                if i != id {
                    assert(self.groups@[i] == old_groups[i]);
                    assert(old(self).index@.contains_key(lower_of(old_groups[i].name@)));
                }
            }
            assert forall|k: Seq<char>| #[trigger] self.index@.contains_key(k) implies {
                &&& self.index@[k] < self.groups@.len()
                &&& lower_of(self.groups@[self.index@[k] as int].name@) == k
            } by {
                if new_name is Some && k != new_name->Some_0.1@ {
                    assert(old(self).index@.contains_key(k));
                }
            }
        }
        Ok(result)
    }
}

/// A new name and its key as plain values.
pub open spec fn name_views(new_name: Option<(String, String)>) -> Option<(Seq<char>, Seq<char>)> {
    match new_name {
        Some(p) => Some((p.0@, p.1@)),
        None => None,
    }
}

/// What `rename_and_update` does to an existing group `id`.
pub open spec fn rename_outcome(
    groups: Seq<GroupView>,
    index: Map<Seq<char>, u32>,
    groups2: Seq<GroupView>,
    index2: Map<Seq<char>, u32>,
    id: u32,
    new_name: Option<(Seq<char>, Seq<char>)>,
    enabled: Option<bool>,
    r: Result<Group, AZGroupsError>,
) -> bool {
    let old_group = groups[id as int];
    match new_name {
        Some(p) => {
            let name = p.0;
            let key = p.1;
            let old_key = lower_of(old_group.name);
            if name.len() == 0 {
                r is Err && is_unprocessable(r->Err_0, "Name can't be blank"@)
            } else if key != old_key && index.contains_key(key) {
                r is Err && is_unprocessable(r->Err_0, "Group has already been taken"@)
            } else {
                &&& r is Ok
                &&& r->Ok_0@ == (GroupView {
                    id,
                    name,
                    enabled: match enabled { Some(f) => f, None => old_group.enabled },
                })
                &&& groups2 == groups.update(id as int, r->Ok_0@)
                &&& index2 == index.remove(old_key).insert(key, id)
            }
        },
        None => {
            &&& r is Ok
            &&& r->Ok_0@ == (GroupView {
                id,
                name: old_group.name,
                enabled: match enabled { Some(f) => f, None => old_group.enabled },
            })
            &&& groups2 == groups.update(id as int, r->Ok_0@)
            &&& index2 == index
        },
    }
}

} // verus!
