use vstd::prelude::*;
use vstd::string::*;

verus! {

/// Errors returned by the group operations.
#[derive(Clone, Debug, PartialEq)]
pub enum AZGroupsError {
    /// The referenced group or membership does not exist; holds the entity's name.
    NotFound(String),
    /// The input breaks a validation, uniqueness or capacity rule; holds the reason.
    UnprocessableEntity(String),
    /// The policy refused the action for the roles involved.
    Unauthorised,
}

/// `e` is `NotFound` naming `entity`.
pub open spec fn is_not_found(e: AZGroupsError, entity: Seq<char>) -> bool {
    match e {
        AZGroupsError::NotFound(s) => s@ == entity,
        _ => false,
    }
}

/// `e` is `UnprocessableEntity` with the reason `msg`.
pub open spec fn is_unprocessable(e: AZGroupsError, msg: Seq<char>) -> bool {
    match e {
        AZGroupsError::UnprocessableEntity(s) => s@ == msg,
        _ => false,
    }
}

pub fn not_found(entity: &str) -> (e: AZGroupsError)
    ensures
        is_not_found(e, entity@),
{
    AZGroupsError::NotFound(String::from_str(entity))
}

pub fn unprocessable(msg: &str) -> (e: AZGroupsError)
    ensures
        is_unprocessable(e, msg@),
{
    AZGroupsError::UnprocessableEntity(String::from_str(msg))
}

} // verus!
