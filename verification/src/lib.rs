//! Task management: a forest of tasks, an append-only audit log of the
//! mutations made to it, and offset-based paging over both.
//!
//! The services in [`tasks`] and [`logs`] are written against the storage
//! contracts of [`repos`]; [`memory`] holds stores that meet those contracts.
//! [`hierarchy`] says what it means for a task to stand under another,
//! [`paging`] what a continuation token is, [`sorting`] and [`search`] in
//! what order and by what match tasks are listed.
//!
//! Identifiers are the 128-bit values of UUIDs and instants are seconds
//! and nanoseconds since the Unix epoch; [`ident`] and [`clock`] hold the
//! few calls into the `uuid` and `chrono` crates that the library makes.

pub mod clock;
pub mod convert;
pub mod dtos;
pub mod enums;
pub mod errors;
pub mod hierarchy;
pub mod ident;
pub mod logs;
pub mod memory;
pub mod models;
pub mod paging;
pub mod repos;
pub mod search;
pub mod sorting;
pub mod tasks;
pub mod text;
pub mod view;
