//! Reconciliation engine that brings the users, groups, roles and applications
//! of one platform instance over to another, independently identified, instance.
//!
//! - `equality`: field-level differences and the comparator every kind implements;
//! - `entity`, `groups`, `roles`, `users`, `workspaces`, `apps`: the resource kinds;
//! - `plan`: the migration plan of one kind, with its partition and idempotence laws;
//! - `translate`: identifier translation tables and the rewriting of nested references;
//! - `migrator`: the order of writes and the write for each plan entry;
//! - `packages`, `paging`, `tasks`, `workflows`, `text`: supporting data and parsing.

pub mod text;
pub mod equality;
pub mod entity;
pub mod groups;
pub mod roles;
pub mod users;
pub mod workspaces;
pub mod apps;
pub mod plan;
pub mod translate;
pub mod migrator;
pub mod packages;
pub mod paging;
pub mod tasks;
pub mod workflows;
