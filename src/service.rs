use vstd::prelude::*;
use crate::account::AccountId;
use crate::error::{AZGroupsError, is_not_found, is_unprocessable, not_found, unprocessable};
use crate::events::{Create, Event, GroupUserCreate, GroupUserDestroy, GroupUserUpdate, Update};
use crate::membership::{GroupUser, MembershipEntry, MembershipStore, lists_memberships};
use crate::policy::{
    can_join, can_leave_or_kick, can_update_group, can_update_role, leave_or_kick_allowed,
    update_group_allowed, update_role_allowed,
    ROLE_APPLICANT, ROLE_SUPER_ADMIN,
};
use crate::registry::{Group, GroupRegistry, GroupView, GROUP_LIMIT, rename_outcome, views_of};
use crate::text::{format_group_name, lower_of, lowercased, trim_of};

verus! {

/// Groups, their name index and the memberships, with the notifications that
/// successful operations declared and the host has not yet taken.
pub struct AZGroups {
    registry: GroupRegistry,
    members: MembershipStore,
    events: Vec<Event>,
}

impl AZGroups {
    /// The groups, in order of id.
    pub closed spec fn groups(&self) -> Seq<GroupView> {
        self.registry.groups()
    }

    /// The lookup from case-folded group name to id.
    pub closed spec fn name_index(&self) -> Map<Seq<char>, u32> {
        self.registry.index()
    }

    /// The role of each account in each group it belongs to.
    pub closed spec fn memberships(&self) -> Map<(u32, AccountId), u8> {
        self.members@
    }

    /// The registry's ids match positions and its index maps exactly the
    /// case-folded names of the groups to their ids.
    pub proof fn lemma_registry_consistent(&self)
        requires
            self.wf(),
        ensures
            forall|i: int| 0 <= i < self.groups().len() ==> #[trigger] self.groups()[i].id == i,
            forall|i: int|
                0 <= i < self.groups().len() ==> self.name_index().contains_key(
                    lower_of(#[trigger] self.groups()[i].name),
                ) && self.name_index()[lower_of(self.groups()[i].name)] == i,
    {
        self.registry.lemma_consistent();
    }

    /// Every membership belongs to an existing group and holds one of the five
    /// roles; every group name is non-blank; the number of groups is within the limit.
    pub proof fn lemma_memberships_valid(&self)
        requires
            self.wf(),
        ensures
            forall|k: (u32, AccountId)|
                #[trigger] self.memberships().contains_key(k) ==> k.0 < self.groups().len()
                    && self.memberships()[k] <= ROLE_SUPER_ADMIN,
            forall|i: int| 0 <= i < self.groups().len() ==> (#[trigger] self.groups()[i]).name.len() > 0,
            self.groups().len() <= GROUP_LIMIT,
    {
        self.registry.lemma_consistent();
    }

    /// The notifications declared and not yet taken, oldest first.
    pub closed spec fn events(&self) -> Seq<Event> {
        self.events@
    }

    /// The registry and the store are well formed, every membership belongs to
    /// an existing group, and every role is one of the five.
    pub closed spec fn wf(&self) -> bool {
        &&& self.registry.wf()
        &&& self.members.wf()
        &&& forall|k: (u32, AccountId)|
            #[trigger] self.members@.contains_key(k) ==> k.0 < self.registry.groups().len()
                && self.members@[k] <= ROLE_SUPER_ADMIN
    }
}

impl AZGroups {
    pub fn new() -> (r: AZGroups)
        ensures
            r.wf(),
            r.groups() == Seq::<GroupView>::empty(),
            r.name_index() == Map::<Seq<char>, u32>::empty(),
            r.memberships() == Map::<(u32, AccountId), u8>::empty(),
            r.events() == Seq::<Event>::empty(),
    {
        AZGroups { registry: GroupRegistry::new(), members: MembershipStore::new(), events: Vec::new() }
    }

    /// Creates a group named `name` with surrounding white space removed, and
    /// makes `caller` its SuperAdmin. Fails when the trimmed name is blank,
    /// when every id is taken, or when its case-folded form names a group.
    pub fn groups_create(&mut self, caller: AccountId, name: String) -> (r: Result<Group, AZGroupsError>)
        requires
            old(self).wf(),
        ensures
            final(self).wf(),
            create_outcome(*old(self), *final(self), caller, trim_of(name@), lower_of(trim_of(name@)), r),
            r is Err ==> *final(self) == *old(self),
            r is Ok ==> final(self).memberships()[(r->Ok_0.id, caller)] == ROLE_SUPER_ADMIN,
    {
        let formatted = format_group_name(name.as_str());
        let key = lowercased(formatted.as_str());
        self.groups_create_formatted(caller, formatted, key)
    }

    /// `groups_create` for a name already trimmed, given with its case-folded key.
    pub fn groups_create_formatted(&mut self, caller: AccountId, name: String, key: String) -> (r: Result<
        Group,
        AZGroupsError,
    >)
        requires
            old(self).wf(),
            key@ == lower_of(name@),
        ensures
            final(self).wf(),
            create_outcome(*old(self), *final(self), caller, name@, key@, r),
            r is Err ==> *final(self) == *old(self),
    {
        proof { self.registry.lemma_consistent(); }
        let result = self.registry.create(name, key);
        match result {
            Ok(group) => {
                self.members.put(group.id, &caller, ROLE_SUPER_ADMIN);
                self.events.push(Event::Create(Create { id: group.id, name: group.name.clone() }));
                self.events.push(
                    Event::GroupUserCreate(GroupUserCreate { group_id: group.id, user: caller, role: ROLE_SUPER_ADMIN }),
                );
                Ok(group)
            },
            Err(e) => Err(e),
        }
    }

    /// Renames and enables or disables the group `id`, on behalf of `caller`,
    /// who must be its SuperAdmin. A new name is trimmed; it may differ from the
    /// current one in case alone, and may not be blank or name another group.
    pub fn groups_update(
        &mut self,
        caller: AccountId,
        id: u32,
        new_name: Option<String>,
        enabled: Option<bool>,
    ) -> (r: Result<Group, AZGroupsError>)
        requires
            old(self).wf(),
        ensures
            final(self).wf(),
            group_update_outcome(*old(self), *final(self), caller, id, formatted_name(new_name), enabled, r),
            r is Err ==> *final(self) == *old(self),
    {
        let formatted = match new_name {
            Some(n) => {
                let trimmed = format_group_name(n.as_str());
                let key = lowercased(trimmed.as_str());
                Some((trimmed, key))
            },
            None => None,
        };
        self.groups_update_formatted(caller, id, formatted, enabled)
    }

    /// `groups_update` for a new name already trimmed, given with its case-folded key.
    pub fn groups_update_formatted(
        &mut self,
        caller: AccountId,
        id: u32,
        new_name: Option<(String, String)>,
        enabled: Option<bool>,
    ) -> (r: Result<Group, AZGroupsError>)
        requires
            old(self).wf(),
            new_name matches Some(p) ==> p.1@ == lower_of(p.0@),
        ensures
            final(self).wf(),
            group_update_outcome(*old(self), *final(self), caller, id, crate::registry::name_views(new_name), enabled, r),
            r is Err ==> *final(self) == *old(self),
    {
        proof { self.registry.lemma_consistent(); }
        if id >= self.registry.len() {
            return Err(not_found("Group"));
        }
        let caller_role = match self.members.get(id, &caller) {
            Some(role) => role,
            None => {
                return Err(not_found("GroupUser"));
            },
        };
        if !can_update_group(caller_role) {
            return Err(AZGroupsError::Unauthorised);
        }
        let result = self.registry.rename_and_update(id, new_name, enabled);
        match result {
            Ok(group) => {
                self.events.push(
                    Event::Update(Update { id, name: group.name.clone(), enabled: group.enabled }),
                );
                Ok(group)
            },
            Err(e) => Err(e),
        }
    }
    /// Sets the role of `user` in `group_id` to `role`, on behalf of `caller`.
    /// The role must be one of the five and both must be members; the caller
    /// must then be an Admin or above,
    /// other than the target, ranked at least as high as the target, and may
    /// grant no role above its own.
    pub fn group_users_update(&mut self, caller: AccountId, group_id: u32, user: AccountId, role: u8) -> (r: Result<
        GroupUser,
        AZGroupsError,
    >)
        requires
            old(self).wf(),
        ensures
            final(self).wf(),
            role_update_outcome(*old(self), *final(self), caller, group_id, user, role, r),
            r is Err ==> *final(self) == *old(self),
            r is Ok ==> role <= old(self).memberships()[(group_id, caller)] && old(self).memberships()[(
                group_id,
                caller,
            )] >= old(self).memberships()[(group_id, user)],
            caller == user ==> r is Err,
    {
        if role > ROLE_SUPER_ADMIN {
            return Err(unprocessable("Role must be less than or equal to 4"));
        }
        let caller_role = match self.members.get(group_id, &caller) {
            Some(r) => r,
            None => {
                return Err(not_found("GroupUser"));
            },
        };
        let user_role = match self.members.get(group_id, &user) {
            Some(r) => r,
            None => {
                return Err(not_found("GroupUser"));
            },
        };
        if !can_update_role(caller_role, user_role, caller.same(&user), role) {
            return Err(AZGroupsError::Unauthorised);
        }
        self.members.put(group_id, &user, role);
        self.events.push(Event::GroupUserUpdate(GroupUserUpdate { group_id, user, role }));
        Ok(GroupUser { role })
    }

    /// Makes `caller` an Applicant of the group `group_id`. Fails when the group
    /// does not exist or when the caller already holds a membership in it.
    pub fn group_users_create(&mut self, caller: AccountId, group_id: u32) -> (r: Result<GroupUser, AZGroupsError>)
        requires
            old(self).wf(),
        ensures
            final(self).wf(),
            join_outcome(*old(self), *final(self), caller, group_id, r),
            r is Err ==> *final(self) == *old(self),
    {
        proof { self.registry.lemma_consistent(); }
        if group_id >= self.registry.len() {
            return Err(not_found("Group"));
        }
        if !can_join(self.members.get(group_id, &caller)) {
            return Err(unprocessable("Group user has already been taken"));
        }
        self.members.put(group_id, &caller, ROLE_APPLICANT);
        self.events.push(
            Event::GroupUserCreate(GroupUserCreate { group_id, user: caller, role: ROLE_APPLICANT }),
        );
        Ok(GroupUser { role: ROLE_APPLICANT })
    }

    /// Removes the membership of `user` in `group_id`, on behalf of `caller`.
    /// A member may leave unless it is a SuperAdmin; another member may be
    /// removed by an Admin or above ranked at least as high.
    pub fn group_users_destroy(&mut self, caller: AccountId, group_id: u32, user: AccountId) -> (r: Result<
        (),
        AZGroupsError,
    >)
        requires
            old(self).wf(),
        ensures
            final(self).wf(),
            leave_outcome(*old(self), *final(self), caller, group_id, user, r),
            r is Err ==> *final(self) == *old(self),
            caller == user ==> (r is Ok <==> (old(self).memberships().contains_key((group_id, caller))
                && old(self).memberships()[(group_id, caller)] != ROLE_SUPER_ADMIN)),
    {
        let caller_role = match self.members.get(group_id, &caller) {
            Some(r) => r,
            None => {
                return Err(not_found("GroupUser"));
            },
        };
        let user_role = match self.members.get(group_id, &user) {
            Some(r) => r,
            None => {
                return Err(not_found("GroupUser"));
            },
        };
        if !can_leave_or_kick(caller_role, user_role, caller.same(&user)) {
            return Err(AZGroupsError::Unauthorised);
        }
        self.members.remove(group_id, &user);
        self.events.push(Event::GroupUserDestroy(GroupUserDestroy { group_id, user }));
        Ok(())
    }

    /// The membership of `user` in `group_id`, or `NotFound` naming "GroupUser".
    pub fn group_users_show(&self, group_id: u32, user: AccountId) -> (r: Result<GroupUser, AZGroupsError>)
        requires
            self.wf(),
        ensures
            self.memberships().contains_key((group_id, user)) ==> r == Ok::<GroupUser, AZGroupsError>(
                GroupUser { role: self.memberships()[(group_id, user)] },
            ),
            !self.memberships().contains_key((group_id, user)) ==> r is Err && is_not_found(
                r->Err_0,
                "GroupUser"@,
            ),
    {
        match self.members.get(group_id, &user) {
            Some(role) => Ok(GroupUser { role }),
            None => Err(not_found("GroupUser")),
        }
    }

    /// The group with id `id`, or `NotFound` naming "Group".
    pub fn groups_show(&self, id: u32) -> (r: Result<Group, AZGroupsError>)
        requires
            self.wf(),
        ensures
            id < self.groups().len() ==> r is Ok && r->Ok_0@ == self.groups()[id as int],
            id >= self.groups().len() ==> r is Err && is_not_found(r->Err_0, "Group"@),
    {
        self.registry.show(id)
    }

    /// Copies of the groups, in order of id, for the host to store.
    pub fn export_groups(&self) -> (r: Vec<Group>)
        requires
            self.wf(),
        ensures
            views_of(r@) == self.groups(),
    {
        self.registry.export()
    }

    /// The memberships, each once, for the host to store.
    pub fn export_memberships(&self) -> (r: Vec<MembershipEntry>)
        requires
            self.wf(),
        ensures
            lists_memberships(self.memberships(), r@),
    {
        self.members.export()
    }

    /// Rebuilds a state from stored groups and memberships, with no pending
    /// notifications. Fails exactly when the lists are inconsistent.
    pub fn restore(groups: Vec<Group>, memberships: Vec<MembershipEntry>) -> (r: Result<AZGroups, AZGroupsError>)
        ensures
            r is Ok <==> restorable(groups@, memberships@),
            r is Ok ==> {
                &&& r->Ok_0.wf()
                &&& r->Ok_0.groups() == views_of(groups@)
                &&& lists_memberships(r->Ok_0.memberships(), memberships@)
                &&& r->Ok_0.events() == Seq::<Event>::empty()
            },
            r is Err ==> is_unprocessable(r->Err_0, "Stored state is inconsistent"@),
    {
        let mut registry = GroupRegistry::new();
        let mut i: usize = 0;
        while i < groups.len()
            invariant
                registry.wf(),
                0 <= i <= groups@.len(),
                registry.groups() == views_of(groups@.take(i as int)),
                forall|j: int| 0 <= j < i ==> (#[trigger] groups@[j]).id == j && groups@[j].name@.len() > 0,
                forall|a: int, b: int|
                    0 <= a < i && 0 <= b < i && a != b ==> lower_of(#[trigger] groups@[a].name@) != lower_of(
                        #[trigger] groups@[b].name@,
                    ),
            decreases groups@.len() - i,
        {
            proof { registry.lemma_consistent(); }
            let g = &groups[i];
            if g.id as usize != i {
                return Err(unprocessable("Stored state is inconsistent"));
            }
            let key = lowercased(g.name.as_str());
            let ghost before = registry.groups();
            let ghost index_before = registry.index();
            match registry.create(g.name.clone(), key) {
                Ok(_) => {},
                Err(_) => {
                    proof {
                        if g.name@.len() != 0 && before.len() < GROUP_LIMIT {
                            let k = lower_of(g.name@);
                            let j = index_before[k] as int;
                            assert(before[j] == groups@[j]@);
                            assert(lower_of(groups@[j].name@) == lower_of(groups@[i as int].name@));
                        }
                    }
                    return Err(unprocessable("Stored state is inconsistent"));
                },
            }
            proof { registry.lemma_consistent(); }
            match registry.rename_and_update(g.id, None, Some(g.enabled)) {
                Ok(_) => {},
                Err(_) => {
                    return Err(unprocessable("Stored state is inconsistent"));
                },
            }
            proof {
                assert(registry.groups() =~= views_of(groups@.take(i + 1)));
                assert forall|a: int, b: int|
                    0 <= a < i + 1 && 0 <= b < i + 1 && a != b implies lower_of(
                    #[trigger] groups@[a].name@,
                ) != lower_of(#[trigger] groups@[b].name@) by {
                    if a == i {
                        assert(before[b] == groups@[b]@);
                        assert(index_before.contains_key(lower_of(before[b].name)));
                    } else if b == i {
                        assert(before[a] == groups@[a]@);
                        assert(index_before.contains_key(lower_of(before[a].name)));
                    }
                }
            }
            i = i + 1;
        }
        proof {
            assert(groups@.take(i as int) =~= groups@);
            registry.lemma_consistent();
        }
        let mut members = MembershipStore::new();
        let mut k: usize = 0;
        while k < memberships.len()
            invariant
                registry.wf(),
                registry.groups() == views_of(groups@),
                registry.groups().len() == groups@.len(),
                members.wf(),
                0 <= k <= memberships@.len(),
                lists_memberships(members@, memberships@.take(k as int)),
                forall|j: int|
                    0 <= j < k ==> (#[trigger] memberships@[j]).group_id < groups@.len() && memberships@[j].role
                        <= ROLE_SUPER_ADMIN,
                forall|kk: (u32, AccountId)|
                    #[trigger] members@.contains_key(kk) ==> kk.0 < groups@.len() && members@[kk] <= ROLE_SUPER_ADMIN,
            decreases memberships@.len() - k,
        {
            let e = memberships[k];
            if e.group_id >= registry.len() || e.role > ROLE_SUPER_ADMIN {
                return Err(unprocessable("Stored state is inconsistent"));
            }
            let ghost taken = memberships@.take(k as int);
            let ghost before = members@;
            if members.get(e.group_id, &e.user).is_some() {
                proof {
                    let j = choose|j: int| 0 <= j < taken.len() && taken[j].key() == e.key();
                    assert(memberships@[j].key() == memberships@[k as int].key());
                }
                return Err(unprocessable("Stored state is inconsistent"));
            }
            members.put(e.group_id, &e.user, e.role);
            proof {
                let next = memberships@.take(k + 1);
                assert(next =~= taken.push(e));
                assert forall|j: int| 0 <= j < next.len() implies members@.contains_key(#[trigger] next[j].key())
                    && members@[next[j].key()] == next[j].role by {
                    if j < k {
                        assert(before.contains_key(taken[j].key()));
                    }
                }
                assert forall|kk: (u32, AccountId)| #[trigger] members@.contains_key(kk) implies exists|j: int|
                    0 <= j < next.len() && next[j].key() == kk by {
                    if kk != e.key() {
                        let j = choose|j: int| 0 <= j < taken.len() && taken[j].key() == kk;
                        assert(next[j].key() == kk);
                    } else {
                        assert(next[k as int].key() == kk);
                    }
                }
                assert forall|a: int, b: int|
                    0 <= a < next.len() && 0 <= b < next.len() && a != b implies next[a].key() != next[b].key() by {
                    if a == k {
                        assert(before.contains_key(taken[b].key()));
                    } else if b == k {
                        assert(before.contains_key(taken[a].key()));
                    }
                }
            }
            k = k + 1;
        }
        proof {
            assert(memberships@.take(k as int) =~= memberships@);
        }
        Ok(AZGroups { registry, members, events: Vec::new() })
    }

    /// The id of the group whose case-folded name is `key`, if any.
    pub fn group_id_by_name(&self, key: &String) -> (r: Option<u32>)
        requires
            self.wf(),
        ensures
            r == (if self.name_index().contains_key(key@) {
                Some(self.name_index()[key@])
            } else {
                None::<u32>
            }),
    {
        self.registry.id_by_key(key)
    }

    /// The number of groups created so far, which is also the next id.
    pub fn groups_total(&self) -> (r: u32)
        requires
            self.wf(),
        ensures
            r == self.groups().len(),
    {
        self.registry.len()
    }

    /// Hands over the notifications declared so far, oldest first, and forgets them.
    pub fn take_events(&mut self) -> (r: Vec<Event>)
        requires
            old(self).wf(),
        ensures
            final(self).wf(),
            r@ == old(self).events(),
            final(self).events() == Seq::<Event>::empty(),
            same_groups(*old(self), *final(self)),
            final(self).memberships() == old(self).memberships(),
    {
        let mut taken: Vec<Event> = Vec::new();
        std::mem::swap(&mut self.events, &mut taken);
        taken
    }
}

impl Default for AZGroups {
    fn default() -> (r: AZGroups)
        ensures
            r.wf(),
            r.groups() == Seq::<GroupView>::empty(),
            r.name_index() == Map::<Seq<char>, u32>::empty(),
            r.memberships() == Map::<(u32, AccountId), u8>::empty(),
            r.events() == Seq::<Event>::empty(),
    {
        AZGroups::new()
    }
}


/// The stored lists are consistent: ids in sequence, non-blank names whose
/// case-folded forms differ, and at most one membership per group and account,
/// each in an existing group with one of the five roles.
pub open spec fn restorable(groups: Seq<Group>, memberships: Seq<MembershipEntry>) -> bool {
    &&& groups.len() <= GROUP_LIMIT
    &&& forall|i: int| 0 <= i < groups.len() ==> (#[trigger] groups[i]).id == i && groups[i].name@.len() > 0
    &&& forall|i: int, j: int|
        0 <= i < groups.len() && 0 <= j < groups.len() && i != j ==> lower_of(#[trigger] groups[i].name@)
            != lower_of(#[trigger] groups[j].name@)
    &&& forall|i: int|
        0 <= i < memberships.len() ==> (#[trigger] memberships[i]).group_id < groups.len()
            && memberships[i].role <= ROLE_SUPER_ADMIN
    &&& forall|i: int, j: int|
        0 <= i < memberships.len() && 0 <= j < memberships.len() && i != j ==> memberships[i].key()
            != memberships[j].key()
}

/// Nothing but the memberships and the notifications differ between `s0` and `s1`.
pub open spec fn same_groups(s0: AZGroups, s1: AZGroups) -> bool {
    &&& s1.groups() == s0.groups()
    &&& s1.name_index() == s0.name_index()
}

/// `groups_create` from `s0` to `s1`, for the trimmed name `name` with case-folded key `key`.
pub open spec fn create_outcome(
    s0: AZGroups,
    s1: AZGroups,
    caller: AccountId,
    name: Seq<char>,
    key: Seq<char>,
    r: Result<Group, AZGroupsError>,
) -> bool {
    &&& r is Err ==> s1 == s0
    &&& if name.len() == 0 {
        r is Err && is_unprocessable(r->Err_0, "Name can't be blank"@)
    } else if s0.groups().len() == GROUP_LIMIT {
        r is Err && is_unprocessable(r->Err_0, "Group limit reached"@)
    } else if s0.name_index().contains_key(key) {
        r is Err && is_unprocessable(r->Err_0, "Group has already been taken"@)
    } else {
        let id = s0.groups().len() as u32;
        &&& r is Ok
        &&& r->Ok_0@ == (GroupView { id, name, enabled: true })
        &&& s1.groups() == s0.groups().push(r->Ok_0@)
        &&& s1.name_index() == s0.name_index().insert(key, id)
        &&& s1.memberships() == s0.memberships().insert((id, caller), ROLE_SUPER_ADMIN)
        &&& s1.events() == s0.events().push(Event::Create(Create { id, name: r->Ok_0.name })).push(
            Event::GroupUserCreate(GroupUserCreate { group_id: id, user: caller, role: ROLE_SUPER_ADMIN }),
        )
    }
}

/// `group_users_create` from `s0` to `s1`.
pub open spec fn join_outcome(
    s0: AZGroups,
    s1: AZGroups,
    caller: AccountId,
    group_id: u32,
    r: Result<GroupUser, AZGroupsError>,
) -> bool {
    &&& r is Err ==> s1 == s0
    &&& if group_id >= s0.groups().len() {
        r is Err && is_not_found(r->Err_0, "Group"@)
    } else if s0.memberships().contains_key((group_id, caller)) {
        r is Err && is_unprocessable(r->Err_0, "Group user has already been taken"@)
    } else {
        &&& r == Ok::<GroupUser, AZGroupsError>(GroupUser { role: ROLE_APPLICANT })
        &&& same_groups(s0, s1)
        &&& s1.memberships() == s0.memberships().insert((group_id, caller), ROLE_APPLICANT)
        &&& s1.events() == s0.events().push(
            Event::GroupUserCreate(GroupUserCreate { group_id, user: caller, role: ROLE_APPLICANT }),
        )
    }
}

/// `group_users_destroy` from `s0` to `s1`.
pub open spec fn leave_outcome(
    s0: AZGroups,
    s1: AZGroups,
    caller: AccountId,
    group_id: u32,
    user: AccountId,
    r: Result<(), AZGroupsError>,
) -> bool {
    let m = s0.memberships();
    &&& r is Err ==> s1 == s0
    &&& if !m.contains_key((group_id, caller)) || !m.contains_key((group_id, user)) {
        r is Err && is_not_found(r->Err_0, "GroupUser"@)
    } else if !leave_or_kick_allowed(m[(group_id, caller)], m[(group_id, user)], caller == user) {
        r == Err::<(), AZGroupsError>(AZGroupsError::Unauthorised)
    } else {
        &&& r is Ok
        &&& same_groups(s0, s1)
        &&& s1.memberships() == m.remove((group_id, user))
        &&& s1.events() == s0.events().push(Event::GroupUserDestroy(GroupUserDestroy { group_id, user }))
    }
}

/// `group_users_update` from `s0` to `s1`: the role range is checked, then both
/// memberships are looked up, then the policy decides.
pub open spec fn role_update_outcome(
    s0: AZGroups,
    s1: AZGroups,
    caller: AccountId,
    group_id: u32,
    user: AccountId,
    role: u8,
    r: Result<GroupUser, AZGroupsError>,
) -> bool {
    let m = s0.memberships();
    &&& r is Err ==> s1 == s0
    &&& if role > ROLE_SUPER_ADMIN {
        r is Err && is_unprocessable(r->Err_0, "Role must be less than or equal to 4"@)
    } else if !m.contains_key((group_id, caller)) || !m.contains_key((group_id, user)) {
        r is Err && is_not_found(r->Err_0, "GroupUser"@)
    } else if !update_role_allowed(m[(group_id, caller)], m[(group_id, user)], caller == user, role) {
        r == Err::<GroupUser, AZGroupsError>(AZGroupsError::Unauthorised)
    } else {
        &&& r == Ok::<GroupUser, AZGroupsError>(GroupUser { role })
        &&& same_groups(s0, s1)
        &&& s1.memberships() == m.insert((group_id, user), role)
        &&& s1.events() == s0.events().push(Event::GroupUserUpdate(GroupUserUpdate { group_id, user, role }))
    }
}

/// `groups_update` from `s0` to `s1`, where `new_name` holds the trimmed new name
/// and its case-folded key.
pub open spec fn group_update_outcome(
    s0: AZGroups,
    s1: AZGroups,
    caller: AccountId,
    id: u32,
    new_name: Option<(Seq<char>, Seq<char>)>,
    enabled: Option<bool>,
    r: Result<Group, AZGroupsError>,
) -> bool {
    let m = s0.memberships();
    &&& r is Err ==> s1 == s0
    &&& if id >= s0.groups().len() {
        r is Err && is_not_found(r->Err_0, "Group"@)
    } else if !m.contains_key((id, caller)) {
        r is Err && is_not_found(r->Err_0, "GroupUser"@)
    } else if !update_group_allowed(m[(id, caller)]) {
        r == Err::<Group, AZGroupsError>(AZGroupsError::Unauthorised)
    } else {
        &&& rename_outcome(s0.groups(), s0.name_index(), s1.groups(), s1.name_index(), id, new_name, enabled, r)
        &&& r is Ok ==> {
            &&& s1.memberships() == m
            &&& s1.events() == s0.events().push(
                Event::Update(Update { id, name: r->Ok_0.name, enabled: r->Ok_0.enabled }),
            )
        }
    }
}

/// The trimmed form of a new name and its case-folded key.
pub open spec fn formatted_name(new_name: Option<String>) -> Option<(Seq<char>, Seq<char>)> {
    match new_name {
        Some(n) => Some((trim_of(n@), lower_of(trim_of(n@)))),
        None => None,
    }
}

} // verus!
