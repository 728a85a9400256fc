use az_groups::{AZGroups, AZGroupsError, AccountId, Group};

const MOCK_GROUP_NAME: &str = "The Next Wave";

struct Accounts {
    alice: AccountId,
    bob: AccountId,
    charlie: AccountId,
}

fn init() -> (Accounts, AZGroups) {
    let accounts = Accounts {
        alice: AccountId([1; 32]),
        bob: AccountId([2; 32]),
        charlie: AccountId([3; 32]),
    };
    (accounts, AZGroups::new())
}

#[test]
fn test_group_users_create() {
    let (accounts, mut az_groups) = init();
    let group_name: String = MOCK_GROUP_NAME.to_string();
    // when group with id does not exist
    let mut result = az_groups.group_users_create(accounts.bob, 0);
    assert_eq!(result, Err(AZGroupsError::NotFound("Group".to_string())));
    // when group with id exists
    az_groups.groups_create(accounts.bob, group_name).unwrap();
    // when the caller's membership exists
    result = az_groups.group_users_create(accounts.bob, 0);
    assert_eq!(
        result,
        Err(AZGroupsError::UnprocessableEntity(
            "Group user has already been taken".to_string()
        ))
    );
    // when the caller's membership does not exist, it is created as applicant
    result = az_groups.group_users_create(accounts.alice, 0);
    assert_eq!(result.unwrap().role, 1);
}

#[test]
fn test_group_users_destroy() {
    let (accounts, mut az_groups) = init();
    let group_name: String = MOCK_GROUP_NAME.to_string();
    az_groups.groups_create(accounts.bob, group_name.clone()).unwrap();
    // when caller has no membership
    let mut result = az_groups.group_users_destroy(accounts.charlie, 0, accounts.bob);
    assert_eq!(result, Err(AZGroupsError::NotFound("GroupUser".to_string())));
    // when user has no membership
    result = az_groups.group_users_destroy(accounts.bob, 0, accounts.charlie);
    assert_eq!(result, Err(AZGroupsError::NotFound("GroupUser".to_string())));
    // when caller equals user and is super admin
    result = az_groups.group_users_destroy(accounts.bob, 0, accounts.bob);
    assert_eq!(result, Err(AZGroupsError::Unauthorised));
    // when caller equals user and is not super admin
    az_groups.group_users_create(accounts.charlie, 0).unwrap();
    az_groups.group_users_destroy(accounts.charlie, 0, accounts.charlie).unwrap();
    assert!(az_groups.group_users_show(0, accounts.charlie).is_err());
    // when caller's role is below admin
    az_groups.group_users_create(accounts.charlie, 0).unwrap();
    result = az_groups.group_users_destroy(accounts.charlie, 0, accounts.bob);
    assert_eq!(result, Err(AZGroupsError::Unauthorised));
    // when caller is admin but below the user's role
    az_groups.group_users_update(accounts.bob, 0, accounts.charlie, 3).unwrap();
    result = az_groups.group_users_destroy(accounts.charlie, 0, accounts.bob);
    assert_eq!(result, Err(AZGroupsError::Unauthorised));
    // when caller's role is at least the user's role
    az_groups.group_users_update(accounts.bob, 0, accounts.charlie, 4).unwrap();
    az_groups.group_users_destroy(accounts.bob, 0, accounts.charlie).unwrap();
    assert!(az_groups.group_users_show(0, accounts.charlie).is_err());
}

#[test]
fn test_group_users_update() {
    let (accounts, mut az_groups) = init();
    let group_name: String = MOCK_GROUP_NAME.to_string();
    // when role is greater than 4
    let mut result = az_groups.group_users_update(accounts.bob, 0, accounts.alice, 5);
    assert_eq!(
        result,
        Err(AZGroupsError::UnprocessableEntity(
            "Role must be less than or equal to 4".to_string()
        ))
    );
    az_groups.groups_create(accounts.bob, group_name).unwrap();
    // when caller equals user
    result = az_groups.group_users_update(accounts.bob, 0, accounts.bob, 4);
    assert_eq!(result, Err(AZGroupsError::Unauthorised));
    // when caller has no membership
    result = az_groups.group_users_update(accounts.charlie, 0, accounts.bob, 4);
    assert_eq!(result, Err(AZGroupsError::NotFound("GroupUser".to_string())));
    // a second super admin sets bob's role to 2
    az_groups.group_users_create(accounts.alice, 0).unwrap();
    az_groups.group_users_update(accounts.bob, 0, accounts.alice, 4).unwrap();
    az_groups.group_users_update(accounts.alice, 0, accounts.bob, 2).unwrap();
    // when caller's role is less than 3
    result = az_groups.group_users_update(accounts.bob, 0, accounts.bob, 2);
    assert_eq!(result, Err(AZGroupsError::Unauthorised));
    // when caller's role is 3 and the user has no membership
    az_groups.group_users_update(accounts.alice, 0, accounts.bob, 3).unwrap();
    result = az_groups.group_users_update(accounts.bob, 0, accounts.charlie, 4);
    assert_eq!(result, Err(AZGroupsError::NotFound("GroupUser".to_string())));
    // when caller's role is less than the user's role
    az_groups.group_users_create(accounts.charlie, 0).unwrap();
    az_groups.group_users_update(accounts.alice, 0, accounts.charlie, 4).unwrap();
    result = az_groups.group_users_update(accounts.bob, 0, accounts.charlie, 4);
    assert_eq!(result, Err(AZGroupsError::Unauthorised));
    // when caller's role is at least the user's role
    az_groups.group_users_update(accounts.alice, 0, accounts.charlie, 3).unwrap();
    result = az_groups.group_users_update(accounts.bob, 0, accounts.charlie, 3);
    assert_eq!(result.unwrap().role, 3);
    // when new role is greater than caller's role
    result = az_groups.group_users_update(accounts.bob, 0, accounts.charlie, 4);
    assert_eq!(result, Err(AZGroupsError::Unauthorised));
}

#[test]
fn test_groups_create() {
    let (accounts, mut az_groups) = init();
    let group_name: String = MOCK_GROUP_NAME.to_string();
    let key: String = group_name.to_lowercase();
    let mut result = az_groups.groups_create(accounts.bob, group_name.clone());
    let group = result.unwrap();
    assert_eq!(group.name, group_name);
    assert_eq!(group.enabled, true);
    // the caller becomes super admin
    let group_user = az_groups.group_users_show(0, accounts.bob).unwrap();
    assert_eq!(group_user.role, 4);
    // the name index maps the key to the id
    assert_eq!(az_groups.group_id_by_name(&key).unwrap(), 0);
    assert_eq!(az_groups.groups_total(), 1);
    // when group with key already exists
    result = az_groups.groups_create(accounts.bob, key);
    assert_eq!(
        result,
        Err(AZGroupsError::UnprocessableEntity(
            "Group has already been taken".to_string()
        ))
    );
    // when group_name is blank
    result = az_groups.groups_create(accounts.bob, " ".to_string());
    assert_eq!(
        result,
        Err(AZGroupsError::UnprocessableEntity(
            "Name can't be blank".to_string()
        ))
    );
}

#[test]
fn test_groups_update() {
    let (accounts, mut az_groups) = init();
    let group_name: String = MOCK_GROUP_NAME.to_string();
    let key: String = group_name.to_lowercase();
    // when group does not exist
    let mut result = az_groups.groups_update(accounts.bob, 0, None, None);
    assert_eq!(result, Err(AZGroupsError::NotFound("Group".to_string())));
    az_groups.groups_create(accounts.bob, group_name.clone()).unwrap();
    // when caller is not part of group
    result = az_groups.groups_update(accounts.charlie, 0, None, None);
    assert_eq!(result, Err(AZGroupsError::NotFound("GroupUser".to_string())));
    // when caller is not a super admin
    az_groups.group_users_create(accounts.charlie, 0).unwrap();
    result = az_groups.groups_update(accounts.charlie, 0, None, None);
    assert_eq!(result, Err(AZGroupsError::Unauthorised));
    // when new_name is blank
    result = az_groups.groups_update(accounts.bob, 0, Some(" ".to_string()), Some(false));
    assert_eq!(
        result,
        Err(AZGroupsError::UnprocessableEntity(
            "Name can't be blank".to_string()
        ))
    );
    // when new_name is available
    let mut new_name: String = "King Kong".to_string();
    result = az_groups.groups_update(accounts.bob, 0, Some(new_name.clone()), Some(false));
    assert_eq!(
        result.unwrap(),
        Group {
            id: 0,
            name: new_name.clone(),
            enabled: false
        }
    );
    assert!(az_groups.group_id_by_name(&key).is_none());
    assert_eq!(az_groups.group_id_by_name(&new_name.to_lowercase()).unwrap(), 0);
    // when new_name's key is the same as the current key
    new_name = new_name.to_uppercase() + " ";
    result = az_groups.groups_update(accounts.bob, 0, Some(new_name.clone()), Some(true));
    assert_eq!(
        result.unwrap(),
        Group {
            id: 0,
            name: new_name.trim().to_string(),
            enabled: true
        }
    );
    // when new_name's key belongs to another group
    az_groups.groups_create(accounts.alice, "a".to_string()).unwrap();
    result = az_groups.groups_update(accounts.bob, 0, Some("A".to_string()), Some(true));
    assert_eq!(
        result,
        Err(AZGroupsError::UnprocessableEntity(
            "Group has already been taken".to_string()
        ))
    );
}
