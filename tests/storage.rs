use az_groups::membership::MembershipEntry;
use az_groups::policy::{can_join, can_leave_or_kick, can_update_group, can_update_role};
use az_groups::{AZGroups, AZGroupsError, AccountId, Group, GroupUser};

fn account(n: u8) -> AccountId {
    AccountId([n; 32])
}

fn inconsistent() -> AZGroupsError {
    AZGroupsError::UnprocessableEntity("Stored state is inconsistent".to_string())
}

fn group(id: u32, name: &str) -> Group {
    Group { id, name: name.to_string(), enabled: true }
}

fn entry(group_id: u32, user: u8, role: u8) -> MembershipEntry {
    MembershipEntry { group_id, user: account(user), role }
}

#[test]
fn export_then_restore_rebuilds_the_state() {
    let mut groups = AZGroups::new();
    groups.groups_create(account(1), "One".to_string()).unwrap();
    groups.groups_create(account(2), "Two".to_string()).unwrap();
    groups.group_users_create(account(3), 0).unwrap();
    groups.groups_update(account(2), 1, None, Some(false)).unwrap();
    let stored_groups = groups.export_groups();
    let stored_members = groups.export_memberships();
    assert_eq!(stored_groups.len(), 2);
    assert_eq!(stored_members.len(), 3);
    let mut restored = AZGroups::restore(stored_groups, stored_members).unwrap();
    assert_eq!(restored.groups_show(1), Ok(Group { id: 1, name: "Two".to_string(), enabled: false }));
    assert_eq!(restored.group_users_show(0, account(1)), Ok(GroupUser { role: 4 }));
    assert_eq!(restored.group_users_show(0, account(3)), Ok(GroupUser { role: 1 }));
    assert_eq!(restored.group_id_by_name(&"two".to_string()), Some(1));
    assert!(restored.take_events().is_empty());
    assert_eq!(
        restored.groups_create(account(4), "ONE".to_string()),
        Err(AZGroupsError::UnprocessableEntity("Group has already been taken".to_string()))
    );
}

#[test]
fn restore_rejects_inconsistent_lists() {
    let out_of_order = AZGroups::restore(vec![group(1, "A")], vec![]);
    assert_eq!(out_of_order.err(), Some(inconsistent()));
    let same_key = AZGroups::restore(vec![group(0, "A"), group(1, "a")], vec![]);
    assert_eq!(same_key.err(), Some(inconsistent()));
    let blank = AZGroups::restore(vec![group(0, "")], vec![]);
    assert_eq!(blank.err(), Some(inconsistent()));
    let missing_group = AZGroups::restore(vec![group(0, "A")], vec![entry(1, 1, 4)]);
    assert_eq!(missing_group.err(), Some(inconsistent()));
    let bad_role = AZGroups::restore(vec![group(0, "A")], vec![entry(0, 1, 5)]);
    assert_eq!(bad_role.err(), Some(inconsistent()));
    let duplicate = AZGroups::restore(vec![group(0, "A")], vec![entry(0, 1, 4), entry(0, 1, 2)]);
    assert_eq!(duplicate.err(), Some(inconsistent()));
    assert!(AZGroups::restore(vec![group(0, "A")], vec![entry(0, 1, 4), entry(0, 2, 2)]).is_ok());
}

#[test]
fn policy_decisions() {
    assert!(can_join(None));
    assert!(!can_join(Some(0)));
    assert!(can_leave_or_kick(3, 3, true));
    assert!(!can_leave_or_kick(4, 4, true));
    assert!(can_leave_or_kick(3, 3, false));
    assert!(!can_leave_or_kick(2, 0, false));
    assert!(!can_leave_or_kick(3, 4, false));
    assert!(can_update_role(3, 2, false, 3));
    assert!(!can_update_role(4, 2, true, 1));
    assert!(!can_update_role(2, 1, false, 1));
    assert!(!can_update_role(3, 4, false, 1));
    assert!(!can_update_role(3, 1, false, 4));
    assert!(can_update_group(4));
    assert!(!can_update_group(3));
}

#[test]
fn account_identity_compares_every_byte() {
    let mut bytes = [7u8; 32];
    let a = AccountId(bytes);
    bytes[31] = 8;
    let b = AccountId(bytes);
    assert!(a.same(&a));
    assert!(!a.same(&b));
}
