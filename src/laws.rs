use vstd::prelude::*;
use crate::account::AccountId;
use crate::error::{AZGroupsError, is_unprocessable};
use crate::membership::{GroupUser, MembershipEntry, lists_memberships};
use crate::policy::ROLE_SUPER_ADMIN;
use crate::registry::{Group, views_of};
use crate::service::{
    AZGroups, create_outcome, formatted_name, group_update_outcome, join_outcome, leave_outcome,
    restorable, role_update_outcome,
};
use crate::text::{lower_of, trim_of};

verus! {

/// No two groups of a well-formed state share a case-folded name. Every
/// operation keeps the state well formed, so this holds after any sequence of
/// calls that starts from `AZGroups::new()`.
pub proof fn lemma_names_unique(s: AZGroups)
    requires
        s.wf(),
    ensures
        forall|i: int, j: int|
            0 <= i < s.groups().len() && 0 <= j < s.groups().len() && i != j ==> lower_of(
                #[trigger] s.groups()[i].name,
            ) != lower_of(#[trigger] s.groups()[j].name),
{
    s.lemma_registry_consistent();
    assert forall|i: int, j: int|
        0 <= i < s.groups().len() && 0 <= j < s.groups().len() && i != j implies lower_of(
            #[trigger] s.groups()[i].name,
        ) != lower_of(#[trigger] s.groups()[j].name) by {
        assert(s.name_index()[lower_of(s.groups()[i].name)] == i);
        assert(s.name_index()[lower_of(s.groups()[j].name)] == j);
    }
}

/// After `groups_create(caller, name)` succeeds, `caller` holds the SuperAdmin
/// role in the new group, which is what `group_users_show` then returns.
pub proof fn lemma_creator_is_super_admin(
    s0: AZGroups,
    s1: AZGroups,
    caller: AccountId,
    name: String,
    r: Result<Group, AZGroupsError>,
)
    requires
        create_outcome(s0, s1, caller, trim_of(name@), lower_of(trim_of(name@)), r),
        r is Ok,
    ensures
        s1.memberships().contains_key((r->Ok_0.id, caller)),
        s1.memberships()[(r->Ok_0.id, caller)] == ROLE_SUPER_ADMIN,
{
}

/// What `export_groups` and `export_memberships` return for a well-formed state
/// is accepted by `restore`, which rebuilds the same groups and memberships.
pub proof fn lemma_export_restorable(s: AZGroups, groups: Seq<Group>, memberships: Seq<MembershipEntry>)
    requires
        s.wf(),
        views_of(groups) == s.groups(),
        lists_memberships(s.memberships(), memberships),
    ensures
        restorable(groups, memberships),
{
    lemma_names_unique(s);
    s.lemma_registry_consistent();
    s.lemma_memberships_valid();
    assert(views_of(groups).len() == groups.len());
    assert forall|i: int| 0 <= i < groups.len() implies (#[trigger] groups[i]).id == i && groups[i].name@.len()
        > 0 by {
        assert(views_of(groups)[i] == groups[i]@);
        assert(s.groups()[i].id == i);
        assert(s.groups()[i].name.len() > 0);
    }
    assert forall|i: int, j: int|
        0 <= i < groups.len() && 0 <= j < groups.len() && i != j implies lower_of(#[trigger] groups[i].name@)
        != lower_of(#[trigger] groups[j].name@) by {
        assert(views_of(groups)[i] == groups[i]@);
        assert(views_of(groups)[j] == groups[j]@);
    }
    assert forall|i: int| 0 <= i < memberships.len() implies (#[trigger] memberships[i]).group_id < groups.len()
        && memberships[i].role <= ROLE_SUPER_ADMIN by {
        assert(s.memberships().contains_key(memberships[i].key()));
    }
}

/// `states[k]` to `states[k + 1]` is `groups_create(callers[k], names[k])`
/// returning `results[k]`, for every `k` of a run of creates.
pub open spec fn create_run(
    states: Seq<AZGroups>,
    callers: Seq<AccountId>,
    names: Seq<Seq<char>>,
    results: Seq<Result<Group, AZGroupsError>>,
) -> bool {
    &&& states.len() == results.len() + 1
    &&& callers.len() == results.len()
    &&& names.len() == results.len()
    &&& forall|k: int| 0 <= k < states.len() ==> (#[trigger] states[k]).wf()
    &&& forall|k: int|
        0 <= k < results.len() ==> create_outcome(
            states[k],
            states[k + 1],
            callers[k],
            trim_of(names[k]),
            lower_of(trim_of(names[k])),
            #[trigger] results[k],
        )
}

proof fn lemma_created_group_persists(
    states: Seq<AZGroups>,
    callers: Seq<AccountId>,
    names: Seq<Seq<char>>,
    results: Seq<Result<Group, AZGroupsError>>,
    i: int,
    k: int,
)
    requires
        create_run(states, callers, names, results),
        0 <= i < k < states.len(),
        results[i] is Ok,
    ensures
        results[i]->Ok_0.id < states[k].groups().len(),
        states[k].groups()[results[i]->Ok_0.id as int] == results[i]->Ok_0@,
    decreases k - i,
{
    let id = results[i]->Ok_0.id as int;
    assert(states[i].wf());
    states[i].lemma_memberships_valid();
    assert(create_outcome(states[i], states[i + 1], callers[i], trim_of(names[i]), lower_of(trim_of(names[i])), results[i]));
    if k > i + 1 {
        lemma_created_group_persists(states, callers, names, results, i, k - 1);
        assert(create_outcome(
            states[k - 1],
            states[k],
            callers[k - 1],
            trim_of(names[k - 1]),
            lower_of(trim_of(names[k - 1])),
            results[k - 1],
        ));
        if results[k - 1] is Ok {
            assert(states[k].groups()[id] == states[k - 1].groups()[id]);
        }
    } else {
        assert(states[k].groups()[id] == results[i]->Ok_0@);
    }
}

/// In any run of `groups_create` calls, two calls that both succeed return
/// groups with different ids and different case-folded names.
pub proof fn lemma_create_run_unique(
    states: Seq<AZGroups>,
    callers: Seq<AccountId>,
    names: Seq<Seq<char>>,
    results: Seq<Result<Group, AZGroupsError>>,
    i: int,
    j: int,
)
    requires
        create_run(states, callers, names, results),
        0 <= i < j < results.len(),
        results[i] is Ok,
        results[j] is Ok,
    ensures
        results[i]->Ok_0.id != results[j]->Ok_0.id,
        lower_of(results[i]->Ok_0.name@) != lower_of(results[j]->Ok_0.name@),
{
    lemma_created_group_persists(states, callers, names, results, i, j);
    let s = states[j];
    assert(s.wf());
    s.lemma_registry_consistent();
    s.lemma_memberships_valid();
    assert(create_outcome(states[j], states[j + 1], callers[j], trim_of(names[j]), lower_of(trim_of(names[j])), results[j]));
    let id = results[i]->Ok_0.id as int;
    assert(s.groups()[id].name == results[i]->Ok_0.name@);
    assert(s.name_index().contains_key(lower_of(s.groups()[id].name)));
}

/// One call of a mutating operation, with its arguments and what it returned.
pub enum Call {
    GroupsCreate { caller: AccountId, name: String, result: Result<Group, AZGroupsError> },
    GroupsUpdate {
        caller: AccountId,
        id: u32,
        new_name: Option<String>,
        enabled: Option<bool>,
        result: Result<Group, AZGroupsError>,
    },
    GroupUsersCreate { caller: AccountId, group_id: u32, result: Result<GroupUser, AZGroupsError> },
    GroupUsersUpdate {
        caller: AccountId,
        group_id: u32,
        user: AccountId,
        role: u8,
        result: Result<GroupUser, AZGroupsError>,
    },
    GroupUsersDestroy { caller: AccountId, group_id: u32, user: AccountId, result: Result<(), AZGroupsError> },
}

/// `call` takes `s0` to `s1`, as the operation's contract describes.
pub open spec fn call_outcome(s0: AZGroups, s1: AZGroups, call: Call) -> bool {
    match call {
        Call::GroupsCreate { caller, name, result } => create_outcome(
            s0,
            s1,
            caller,
            trim_of(name@),
            lower_of(trim_of(name@)),
            result,
        ),
        Call::GroupsUpdate { caller, id, new_name, enabled, result } => group_update_outcome(
            s0,
            s1,
            caller,
            id,
            formatted_name(new_name),
            enabled,
            result,
        ),
        Call::GroupUsersCreate { caller, group_id, result } => join_outcome(s0, s1, caller, group_id, result),
        Call::GroupUsersUpdate { caller, group_id, user, role, result } => role_update_outcome(
            s0,
            s1,
            caller,
            group_id,
            user,
            role,
            result,
        ),
        Call::GroupUsersDestroy { caller, group_id, user, result } => leave_outcome(
            s0,
            s1,
            caller,
            group_id,
            user,
            result,
        ),
    }
}

/// `call` is a successful removal of the membership of `user` in `group_id`.
pub open spec fn removes(call: Call, group_id: u32, user: AccountId) -> bool {
    match call {
        Call::GroupUsersDestroy { caller, group_id: g, user: u, result } => g == group_id && u == user
            && result is Ok,
        _ => false,
    }
}

proof fn lemma_membership_kept(
    states: Seq<AZGroups>,
    calls: Seq<Call>,
    caller: AccountId,
    group_id: u32,
    k: int,
)
    requires
        states.len() == calls.len() + 1,
        forall|i: int|
            0 <= i < calls.len() ==> call_outcome(states[i], states[i + 1], #[trigger] calls[i]),
        forall|i: int| 0 <= i < calls.len() ==> !removes(#[trigger] calls[i], group_id, caller),
        states[0].memberships().contains_key((group_id, caller)),
        0 <= k < states.len(),
    ensures
        states[k].memberships().contains_key((group_id, caller)),
    decreases k,
{
    if k > 0 {
        lemma_membership_kept(states, calls, caller, group_id, k - 1);
        let c = calls[k - 1];
        assert(call_outcome(states[k - 1], states[k], c));
        assert(!removes(c, group_id, caller));
    }
}

/// Once `caller` holds a membership in `group_id` (after a successful
/// `group_users_create` or `groups_create`), `group_users_create` by the same
/// caller for that group fails with `UnprocessableEntity` and changes nothing,
/// after any calls in between that do not remove that membership.
pub proof fn lemma_join_after_calls(
    states: Seq<AZGroups>,
    calls: Seq<Call>,
    caller: AccountId,
    group_id: u32,
    next: AZGroups,
    r: Result<GroupUser, AZGroupsError>,
)
    requires
        states.len() == calls.len() + 1,
        forall|i: int| 0 <= i < states.len() ==> (#[trigger] states[i]).wf(),
        forall|i: int|
            0 <= i < calls.len() ==> call_outcome(states[i], states[i + 1], #[trigger] calls[i]),
        forall|i: int| 0 <= i < calls.len() ==> !removes(#[trigger] calls[i], group_id, caller),
        states[0].memberships().contains_key((group_id, caller)),
        join_outcome(states.last(), next, caller, group_id, r),
    ensures
        r is Err,
        is_unprocessable(r->Err_0, "Group user has already been taken"@),
        next == states.last(),
{
    lemma_membership_kept(states, calls, caller, group_id, states.len() - 1);
    let s = states.last();
    assert(s.wf());
    s.lemma_memberships_valid();
}

} // verus!
