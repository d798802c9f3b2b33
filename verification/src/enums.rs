//! The closed vocabularies of the domain.

use vstd::prelude::*;

verus! {

/// How urgent a task is.
#[derive(Clone, Copy, Debug, PartialEq, Eq, Structural)]
pub enum TaskPriority {
    Low,
    Normal,
    High,
    Urgent,
}

/// Where a task stands in its life.
#[derive(Clone, Copy, Debug, PartialEq, Eq, Structural)]
pub enum TaskStatus {
    Reserved,
    Ongoing,
    Done,
    Pending,
}

/// The kinds of mutation that the audit log records.
#[derive(Clone, Copy, Debug, PartialEq, Eq, Structural)]
pub enum TaskAction {
    Create,
    Delete,
    Update,
    RootChanged,
}

} // verus!
