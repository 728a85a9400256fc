use vstd::prelude::*;
use crate::account::AccountId;

verus! {

/// Announces a new group.
#[derive(Clone, Debug, PartialEq)]
pub struct Create {
    pub id: u32,
    pub name: String,
}

/// Announces a changed group.
#[derive(Clone, Debug, PartialEq)]
pub struct Update {
    pub id: u32,
    pub name: String,
    pub enabled: bool,
}

/// Announces a new membership.
#[derive(Clone, Copy, Debug, PartialEq)]
pub struct GroupUserCreate {
    pub group_id: u32,
    pub user: AccountId,
    pub role: u8,
}

/// Announces a removed membership.
#[derive(Clone, Copy, Debug, PartialEq)]
pub struct GroupUserDestroy {
    pub group_id: u32,
    pub user: AccountId,
}

/// Announces a changed role.
#[derive(Clone, Copy, Debug, PartialEq)]
pub struct GroupUserUpdate {
    pub group_id: u32,
    pub user: AccountId,
    pub role: u8,
}

/// A notification declared by a successful operation, for the host to deliver.
#[derive(Clone, Debug, PartialEq)]
pub enum Event {
    Create(Create),
    Update(Update),
    GroupUserCreate(GroupUserCreate),
    GroupUserDestroy(GroupUserDestroy),
    GroupUserUpdate(GroupUserUpdate),
}

} // verus!
