//! The records that the stores keep.

use vstd::prelude::*;
use crate::enums::{TaskAction, TaskPriority, TaskStatus};

verus! {

/// An instant: whole seconds since the Unix epoch and the nanoseconds past
/// that second.
#[derive(Clone, Copy, Debug, PartialEq, Eq, Structural)]
pub struct Timestamp {
    pub seconds: i64,
    pub nanos: u32,
}

/// The text of an optional string.
pub open spec fn opt_text(s: Option<String>) -> Option<Seq<char>> {
    match s {
        Some(t) => Some(t@),
        None => None,
    }
}

/// A copy of an optional string.
pub fn copy_opt_text(s: &Option<String>) -> (r: Option<String>)
    ensures
        opt_text(r) == opt_text(*s),
{
    match s {
        Some(t) => Some(t.clone()),
        None => None,
    }
}

/// A task as a store keeps it.
#[derive(Debug)]
pub struct TaskEntity {
    pub id: u128,
    pub root_task_id: Option<u128>,
    pub summary: String,
    pub description: Option<String>,
    pub create_date: Timestamp,
    pub due_date: Timestamp,
    pub priority: TaskPriority,
    pub status: TaskStatus,
}

/// What a [`TaskEntity`] holds, with its texts as sequences of characters.
pub struct TaskRecord {
    pub id: u128,
    pub root_task_id: Option<u128>,
    pub summary: Seq<char>,
    pub description: Option<Seq<char>>,
    pub create_date: Timestamp,
    pub due_date: Timestamp,
    pub priority: TaskPriority,
    pub status: TaskStatus,
}

impl View for TaskEntity {
    type V = TaskRecord;

    open spec fn view(&self) -> TaskRecord {
        TaskRecord {
            id: self.id,
            root_task_id: self.root_task_id,
            summary: self.summary@,
            description: opt_text(self.description),
            create_date: self.create_date,
            due_date: self.due_date,
            priority: self.priority,
            status: self.status,
        }
    }
}

impl TaskEntity {
    /// The same task once more, with texts of its own.
    pub fn duplicate(&self) -> (r: TaskEntity)
        ensures
            r@ == self@,
    {
        TaskEntity {
            id: self.id,
            root_task_id: self.root_task_id,
            summary: self.summary.clone(),
            description: copy_opt_text(&self.description),
            create_date: self.create_date,
            due_date: self.due_date,
            priority: self.priority,
            status: self.status,
        }
    }
}

/// What a search returns of a task.
#[derive(Debug)]
pub struct TaskSearchEntity {
    pub id: u128,
    pub summary: Option<String>,
    pub description: Option<String>,
}

/// What a [`TaskSearchEntity`] holds.
pub struct TaskSearchRecord {
    pub id: u128,
    pub summary: Option<Seq<char>>,
    pub description: Option<Seq<char>>,
}

impl View for TaskSearchEntity {
    type V = TaskSearchRecord;

    open spec fn view(&self) -> TaskSearchRecord {
        TaskSearchRecord {
            id: self.id,
            summary: opt_text(self.summary),
            description: opt_text(self.description),
        }
    }
}

/// One entry of the audit log.
#[derive(Debug)]
pub struct LogEntity {
    pub id: u128,
    pub action: TaskAction,
    pub timestamp: i64,
    pub entity_id: Option<u128>,
    pub entity_type: Option<String>,
    pub payload: Option<String>,
}

/// What a [`LogEntity`] holds.
pub struct LogRecord {
    pub id: u128,
    pub action: TaskAction,
    pub timestamp: i64,
    pub entity_id: Option<u128>,
    pub entity_type: Option<Seq<char>>,
    pub payload: Option<Seq<char>>,
}

impl View for LogEntity {
    type V = LogRecord;

    open spec fn view(&self) -> LogRecord {
        LogRecord {
            id: self.id,
            action: self.action,
            timestamp: self.timestamp,
            entity_id: self.entity_id,
            entity_type: opt_text(self.entity_type),
            payload: opt_text(self.payload),
        }
    }
}

impl LogEntity {
    /// The same entry once more, with texts of its own.
    pub fn duplicate(&self) -> (r: LogEntity)
        ensures
            r@ == self@,
    {
        LogEntity {
            id: self.id,
            action: self.action,
            timestamp: self.timestamp,
            entity_id: self.entity_id,
            entity_type: copy_opt_text(&self.entity_type),
            payload: copy_opt_text(&self.payload),
        }
    }
}

} // verus!
