//! Stacked-branch workflow on top of git: the branch naming protocol, stack
//! navigation and the rebase and sync state machines.

pub mod branch;
pub mod branches;
pub mod commands;
pub mod config;
pub mod decimal;
pub mod error;
pub mod gateway;
pub mod guarantees;
pub mod machine;
pub mod model;
pub mod pr;
pub mod record;
pub mod stack;
pub mod terminal;
pub mod text;
pub mod transaction;
