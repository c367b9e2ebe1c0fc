//! The checks: each goes through the records and adds what it finds to a list.

pub mod naming;
pub mod hierarchy;
pub mod membership;
pub mod lists;
pub mod permissions;
pub mod rfcbot;
pub mod github;
