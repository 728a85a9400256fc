//! Named groups and per-account roles within them, under a five-level role
//! hierarchy: who may join, who may change whose role, who may remove whom,
//! and who may rename or disable a group.
pub mod account;
pub mod error;
pub mod events;
pub mod laws;
pub mod membership;
pub mod name_index;
pub mod policy;
pub mod registry;
pub mod service;
pub mod text;

pub use account::AccountId;
pub use error::AZGroupsError;
pub use events::{Create, Event, GroupUserCreate, GroupUserDestroy, GroupUserUpdate, Update};
pub use membership::GroupUser;
pub use registry::Group;
pub use service::AZGroups;
