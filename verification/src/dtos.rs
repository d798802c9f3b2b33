//! The shapes in which tasks and audit entries leave the services, and in
//! which task details come in.

use vstd::prelude::*;
use crate::enums;
use crate::ident::{id_text, id_to_string};
use crate::models::{
    copy_opt_text, opt_text, LogEntity, LogRecord, TaskEntity, TaskRecord, TaskSearchEntity,
    TaskSearchRecord, Timestamp,
};

verus! {

/// How urgent a task is, as callers write it.
#[derive(Clone, Copy, Debug, PartialEq, Eq, Structural)]
pub enum TaskPriority {
    Low,
    Normal,
    High,
    Urgent,
}

/// Where a task stands in its life, as callers write it.
#[derive(Clone, Copy, Debug, PartialEq, Eq, Structural)]
pub enum TaskStatus {
    Reserved,
    Ongoing,
    Done,
    Pending,
}

/// The kind of a logged mutation, as callers read it.
#[derive(Clone, Copy, Debug, PartialEq, Eq, Structural)]
pub enum TaskAction {
    Create,
    Delete,
    Update,
    RootChanged,
}

impl TaskPriority {
    /// The priority that stands for `source`.
    pub open spec fn of(source: enums::TaskPriority) -> TaskPriority {
        match source {
            enums::TaskPriority::Low => TaskPriority::Low,
            enums::TaskPriority::Normal => TaskPriority::Normal,
            enums::TaskPriority::High => TaskPriority::High,
            enums::TaskPriority::Urgent => TaskPriority::Urgent,
        }
    }

    /// The domain's priority that `self` stands for.
    pub open spec fn model(self) -> enums::TaskPriority {
        match self {
            TaskPriority::Low => enums::TaskPriority::Low,
            TaskPriority::Normal => enums::TaskPriority::Normal,
            TaskPriority::High => enums::TaskPriority::High,
            TaskPriority::Urgent => enums::TaskPriority::Urgent,
        }
    }

    /// The priority that stands for `source`.
    pub fn new(source: &enums::TaskPriority) -> (r: TaskPriority)
        ensures
            r == Self::of(*source),
    {
        match source {
            enums::TaskPriority::Low => TaskPriority::Low,
            enums::TaskPriority::Normal => TaskPriority::Normal,
            enums::TaskPriority::High => TaskPriority::High,
            enums::TaskPriority::Urgent => TaskPriority::Urgent,
        }
    }

    /// The domain's priority that `self` stands for.
    pub fn as_model(&self) -> (r: enums::TaskPriority)
        ensures
            r == self.model(),
    {
        match self {
            TaskPriority::Low => enums::TaskPriority::Low,
            TaskPriority::Normal => enums::TaskPriority::Normal,
            TaskPriority::High => enums::TaskPriority::High,
            TaskPriority::Urgent => enums::TaskPriority::Urgent,
        }
    }
}

impl TaskStatus {
    /// The status that stands for `source`.
    pub open spec fn of(source: enums::TaskStatus) -> TaskStatus {
        match source {
            enums::TaskStatus::Done => TaskStatus::Done,
            enums::TaskStatus::Ongoing => TaskStatus::Ongoing,
            enums::TaskStatus::Pending => TaskStatus::Pending,
            enums::TaskStatus::Reserved => TaskStatus::Reserved,
        }
    }

    /// The domain's status that `self` stands for.
    pub open spec fn model(self) -> enums::TaskStatus {
        match self {
            TaskStatus::Done => enums::TaskStatus::Done,
            TaskStatus::Ongoing => enums::TaskStatus::Ongoing,
            TaskStatus::Pending => enums::TaskStatus::Pending,
            TaskStatus::Reserved => enums::TaskStatus::Reserved,
        }
    }

    /// The status that stands for `source`.
    pub fn new(source: &enums::TaskStatus) -> (r: TaskStatus)
        ensures
            r == Self::of(*source),
    {
        match source {
            enums::TaskStatus::Done => TaskStatus::Done,
            enums::TaskStatus::Ongoing => TaskStatus::Ongoing,
            enums::TaskStatus::Pending => TaskStatus::Pending,
            enums::TaskStatus::Reserved => TaskStatus::Reserved,
        }
    }

    /// The domain's status that `self` stands for.
    pub fn as_model(&self) -> (r: enums::TaskStatus)
        ensures
            r == self.model(),
    {
        match self {
            TaskStatus::Done => enums::TaskStatus::Done,
            TaskStatus::Ongoing => enums::TaskStatus::Ongoing,
            TaskStatus::Pending => enums::TaskStatus::Pending,
            TaskStatus::Reserved => enums::TaskStatus::Reserved,
        }
    }
}

impl TaskAction {
    /// The action that stands for `source`.
    pub open spec fn of(source: enums::TaskAction) -> TaskAction {
        match source {
            enums::TaskAction::Create => TaskAction::Create,
            enums::TaskAction::Delete => TaskAction::Delete,
            enums::TaskAction::Update => TaskAction::Update,
            enums::TaskAction::RootChanged => TaskAction::RootChanged,
        }
    }

    /// The domain's action that `self` stands for.
    pub open spec fn model(self) -> enums::TaskAction {
        match self {
            TaskAction::Create => enums::TaskAction::Create,
            TaskAction::Delete => enums::TaskAction::Delete,
            TaskAction::Update => enums::TaskAction::Update,
            TaskAction::RootChanged => enums::TaskAction::RootChanged,
        }
    }

    /// The action that stands for `source`.
    pub fn new(source: &enums::TaskAction) -> (r: TaskAction)
        ensures
            r == Self::of(*source),
    {
        match source {
            enums::TaskAction::Create => TaskAction::Create,
            enums::TaskAction::Delete => TaskAction::Delete,
            enums::TaskAction::Update => TaskAction::Update,
            enums::TaskAction::RootChanged => TaskAction::RootChanged,
        }
    }

    /// The domain's action that `self` stands for.
    pub fn as_model(&self) -> (r: enums::TaskAction)
        ensures
            r == self.model(),
    {
        match self {
            TaskAction::Create => enums::TaskAction::Create,
            TaskAction::Delete => enums::TaskAction::Delete,
            TaskAction::Update => enums::TaskAction::Update,
            TaskAction::RootChanged => enums::TaskAction::RootChanged,
        }
    }
}

/// Converting a vocabulary to the callers' form and back changes nothing,
/// in either direction.
pub proof fn lemma_vocabularies_round_trip()
    ensures
        forall|p: enums::TaskPriority| #[trigger] TaskPriority::of(p).model() == p,
        forall|p: TaskPriority| TaskPriority::of(#[trigger] p.model()) == p,
        forall|s: enums::TaskStatus| #[trigger] TaskStatus::of(s).model() == s,
        forall|s: TaskStatus| TaskStatus::of(#[trigger] s.model()) == s,
        forall|a: enums::TaskAction| #[trigger] TaskAction::of(a).model() == a,
        forall|a: TaskAction| TaskAction::of(#[trigger] a.model()) == a,
{
}

/// The text of an optional identifier.
pub open spec fn opt_id_text(id: Option<u128>) -> Option<Seq<char>> {
    match id {
        Some(v) => Some(id_text(v)),
        None => None,
    }
}

/// The text of an optional identifier.
pub fn opt_id_to_string(id: Option<u128>) -> (r: Option<String>)
    ensures
        opt_text(r) == opt_id_text(id),
{
    match id {
        Some(v) => Some(id_to_string(v)),
        None => None,
    }
}

/// An audit entry as callers read it.
#[derive(Debug)]
pub struct LogEntryDto {
    pub id: String,
    pub action: TaskAction,
    pub timestamp: i64,
    pub entity_id: Option<String>,
    pub entity_type: Option<String>,
    pub payload: Option<String>,
}

/// What a [`LogEntryDto`] holds.
pub struct LogEntryView {
    pub id: Seq<char>,
    pub action: TaskAction,
    pub timestamp: i64,
    pub entity_id: Option<Seq<char>>,
    pub entity_type: Option<Seq<char>>,
    pub payload: Option<Seq<char>>,
}

impl View for LogEntryDto {
    type V = LogEntryView;

    open spec fn view(&self) -> LogEntryView {
        LogEntryView {
            id: self.id@,
            action: self.action,
            timestamp: self.timestamp,
            entity_id: opt_text(self.entity_id),
            entity_type: opt_text(self.entity_type),
            payload: opt_text(self.payload),
        }
    }
}

/// The answer to a creation, with the new id as text.
#[derive(Debug)]
pub struct CreateTaskResponse {
    pub task_id: String,
}

/// A request to bind a task under another, which is named by its id as
/// text.
#[derive(Debug)]
pub struct TaskRootChangeRequest {
    pub root_id: String,
}

/// The short form of a task.
#[derive(Debug)]
pub struct TaskBaseDto {
    pub id: String,
    pub summary: String,
    pub priority: TaskPriority,
    pub status: TaskStatus,
}

/// What a [`TaskBaseDto`] holds.
pub struct TaskBaseView {
    pub id: Seq<char>,
    pub summary: Seq<char>,
    pub priority: TaskPriority,
    pub status: TaskStatus,
}

impl View for TaskBaseDto {
    type V = TaskBaseView;

    open spec fn view(&self) -> TaskBaseView {
        TaskBaseView {
            id: self.id@,
            summary: self.summary@,
            priority: self.priority,
            status: self.status,
        }
    }
}

/// A task as a listing shows it.
#[derive(Debug)]
pub struct TaskDetailedDto {
    pub root_id: Option<String>,
    pub create_date: Timestamp,
    pub due_date: Timestamp,
    pub base: TaskBaseDto,
}

/// What a [`TaskDetailedDto`] holds.
pub struct TaskDetailedView {
    pub root_id: Option<Seq<char>>,
    pub create_date: Timestamp,
    pub due_date: Timestamp,
    pub base: TaskBaseView,
}

impl View for TaskDetailedDto {
    type V = TaskDetailedView;

    open spec fn view(&self) -> TaskDetailedView {
        TaskDetailedView {
            root_id: opt_text(self.root_id),
            create_date: self.create_date,
            due_date: self.due_date,
            base: self.base@,
        }
    }
}

/// The short forms of a sequence of DTOs.
pub open spec fn base_views(s: Seq<TaskBaseDto>) -> Seq<TaskBaseView> {
    s.map_values(|d: TaskBaseDto| d@)
}

/// The short form of an optional DTO.
pub open spec fn opt_base_view(d: Option<TaskBaseDto>) -> Option<TaskBaseView> {
    match d {
        Some(b) => Some(b@),
        None => None,
    }
}

/// A task with its root, its direct subtasks and its description.
#[derive(Debug)]
pub struct TaskFullDto {
    pub root_task: Option<TaskBaseDto>,
    pub subtasks: Vec<TaskBaseDto>,
    pub description: Option<String>,
    pub detailed: TaskDetailedDto,
}

/// What a [`TaskFullDto`] holds.
pub struct TaskFullView {
    pub root_task: Option<TaskBaseView>,
    pub subtasks: Seq<TaskBaseView>,
    pub description: Option<Seq<char>>,
    pub detailed: TaskDetailedView,
}

impl View for TaskFullDto {
    type V = TaskFullView;

    open spec fn view(&self) -> TaskFullView {
        TaskFullView {
            root_task: opt_base_view(self.root_task),
            subtasks: base_views(self.subtasks@),
            description: opt_text(self.description),
            detailed: self.detailed@,
        }
    }
}

/// A task as a search shows it.
#[derive(Debug)]
pub struct TaskSearchDto {
    pub id: String,
    pub summary: Option<String>,
    pub description: Option<String>,
}

/// What a [`TaskSearchDto`] holds.
pub struct TaskSearchView {
    pub id: Seq<char>,
    pub summary: Option<Seq<char>>,
    pub description: Option<Seq<char>>,
}

impl View for TaskSearchDto {
    type V = TaskSearchView;

    open spec fn view(&self) -> TaskSearchView {
        TaskSearchView {
            id: self.id@,
            summary: opt_text(self.summary),
            description: opt_text(self.description),
        }
    }
}

/// The details of a task as a caller gives them, for creation and update.
#[derive(Debug)]
pub struct UpsertTaskDto {
    pub summary: String,
    pub priority: TaskPriority,
    pub status: TaskStatus,
    pub description: Option<String>,
    pub due_date: Timestamp,
}

/// What an [`UpsertTaskDto`] holds.
pub struct UpsertTaskView {
    pub summary: Seq<char>,
    pub priority: TaskPriority,
    pub status: TaskStatus,
    pub description: Option<Seq<char>>,
    pub due_date: Timestamp,
}

impl View for UpsertTaskDto {
    type V = UpsertTaskView;

    open spec fn view(&self) -> UpsertTaskView {
        UpsertTaskView {
            summary: self.summary@,
            priority: self.priority,
            status: self.status,
            description: opt_text(self.description),
            due_date: self.due_date,
        }
    }
}

/// The short form of a task.
pub open spec fn base_of(e: TaskRecord) -> TaskBaseView {
    TaskBaseView {
        id: id_text(e.id),
        summary: e.summary,
        priority: TaskPriority::of(e.priority),
        status: TaskStatus::of(e.status),
    }
}

/// The listing form of a task.
pub open spec fn detailed_of(e: TaskRecord) -> TaskDetailedView {
    TaskDetailedView {
        root_id: opt_id_text(e.root_task_id),
        create_date: e.create_date,
        due_date: e.due_date,
        base: base_of(e),
    }
}

/// The short form of an optional task.
pub open spec fn opt_base_of(e: Option<TaskRecord>) -> Option<TaskBaseView> {
    match e {
        Some(r) => Some(base_of(r)),
        None => None,
    }
}

/// The full form of a task, given its root and its direct subtasks.
pub open spec fn full_of(e: TaskRecord, root: Option<TaskRecord>, subtasks: Seq<TaskRecord>)
    -> TaskFullView {
    TaskFullView {
        root_task: opt_base_of(root),
        subtasks: subtasks.map_values(|s: TaskRecord| base_of(s)),
        description: e.description,
        detailed: detailed_of(e),
    }
}

/// The callers' form of an audit entry.
pub open spec fn log_entry_of(e: LogRecord) -> LogEntryView {
    LogEntryView {
        id: id_text(e.id),
        action: TaskAction::of(e.action),
        timestamp: e.timestamp,
        entity_id: opt_id_text(e.entity_id),
        entity_type: e.entity_type,
        payload: e.payload,
    }
}

/// The callers' form of a search result.
pub open spec fn search_of(e: TaskSearchRecord) -> TaskSearchView {
    TaskSearchView { id: id_text(e.id), summary: e.summary, description: e.description }
}

/// The records of a sequence of tasks.
pub open spec fn task_records(s: Seq<TaskEntity>) -> Seq<TaskRecord> {
    s.map_values(|e: TaskEntity| e@)
}

impl TaskBaseDto {
    /// The short form of a task.
    pub fn new(entity: &TaskEntity) -> (dto: TaskBaseDto)
        ensures
            dto@ == base_of(entity@),
    {
        TaskBaseDto {
            id: id_to_string(entity.id),
            summary: entity.summary.clone(),
            priority: TaskPriority::new(&entity.priority),
            status: TaskStatus::new(&entity.status),
        }
    }
}

impl TaskDetailedDto {
    /// The listing form of a task.
    pub fn new(entity: &TaskEntity) -> (dto: TaskDetailedDto)
        ensures
            dto@ == detailed_of(entity@),
    {
        TaskDetailedDto {
            root_id: opt_id_to_string(entity.root_task_id),
            create_date: entity.create_date,
            due_date: entity.due_date,
            base: TaskBaseDto::new(entity),
        }
    }
}

impl TaskFullDto {
    /// The full form of a task, given its root and its direct subtasks.
    pub fn new(entity: &TaskEntity, root_entity: Option<&TaskEntity>, subtasks: &Vec<TaskEntity>)
        -> (dto: TaskFullDto)
        ensures
            dto@ == full_of(
                entity@,
                match root_entity {
                    Some(r) => Some(r@),
                    None => None,
                },
                task_records(subtasks@),
            ),
    {
        let root_task = match root_entity {
            Some(r) => Some(TaskBaseDto::new(r)),
            None => None,
        };
        let mut short: Vec<TaskBaseDto> = Vec::new();
        let mut i: usize = 0;
        while i < subtasks.len()
            invariant
                i <= subtasks.len(),
                short.len() == i,
                forall|k: int| 0 <= k < i ==> (#[trigger] short[k])@ == base_of(subtasks[k]@),
            decreases subtasks.len() - i,
        {
            short.push(TaskBaseDto::new(&subtasks[i]));
            i = i + 1;
        }
        let dto = TaskFullDto {
            root_task,
            subtasks: short,
            description: copy_opt_text(&entity.description),
            detailed: TaskDetailedDto::new(entity),
        };
        assert(dto@.subtasks =~= task_records(subtasks@).map_values(|s: TaskRecord| base_of(s)));
        dto
    }
}

impl LogEntryDto {
    /// The callers' form of an audit entry.
    pub fn new(entity: &LogEntity) -> (dto: LogEntryDto)
        ensures
            dto@ == log_entry_of(entity@),
    {
        LogEntryDto {
            id: id_to_string(entity.id),
            action: TaskAction::new(&entity.action),
            timestamp: entity.timestamp,
            entity_id: opt_id_to_string(entity.entity_id),
            entity_type: copy_opt_text(&entity.entity_type),
            payload: copy_opt_text(&entity.payload),
        }
    }
}

impl TaskSearchDto {
    /// The callers' form of a search result.
    pub fn new(entity: &TaskSearchEntity) -> (dto: TaskSearchDto)
        ensures
            dto@ == search_of(entity@),
    {
        TaskSearchDto {
            id: id_to_string(entity.id),
            summary: copy_opt_text(&entity.summary),
            description: copy_opt_text(&entity.description),
        }
    }
}

} // verus!
