//! What the services ask of a store.
//!
//! A store is described by what it holds: a table of tasks, or the audit
//! entries in the order in which they were written. Each operation says
//! what its answer is in terms of that, for every way it can end. A store
//! may fail for reasons of its own and then answers with
//! [`Error::DbError`]; one that never does so calls itself dependable.

use vstd::prelude::*;
use crate::enums::{TaskPriority, TaskStatus};
use crate::errors::Error;
use crate::hierarchy::{descendants, lists_exactly, rebound, TaskTable};
use crate::models::{LogEntity, LogRecord, TaskEntity, TaskRecord, TaskSearchEntity, Timestamp};
use crate::dtos::task_records;
use crate::paging::page;
use crate::search::{search_records, search_results};
use crate::sorting::{sort_field, sorted, SortField};

verus! {

/// The records of a sequence of audit entries.
pub open spec fn log_records(s: Seq<LogEntity>) -> Seq<LogRecord> {
    s.map_values(|e: LogEntity| e@)
}

/// The entries of a listing that are tagged with an entity type.
pub open spec fn of_entity_type(listing: Seq<LogRecord>, entity_type: Seq<char>) -> Seq<
    LogRecord,
> {
    listing.filter(|e: LogRecord| e.entity_type == Some(entity_type))
}

/// The entries of a listing that refer to an entity.
pub open spec fn of_entity(listing: Seq<LogRecord>, entity_id: u128) -> Seq<LogRecord> {
    listing.filter(|e: LogRecord| e.entity_id == Some(entity_id))
}

/// The entries with a tag are found by going through a listing entry by
/// entry.
pub proof fn lemma_of_entity_type_step(listing: Seq<LogRecord>, entity_type: Seq<char>)
    ensures
        of_entity_type(listing, entity_type) == if listing.len() == 0 {
            Seq::<LogRecord>::empty()
        } else if listing.last().entity_type == Some(entity_type) {
            of_entity_type(listing.drop_last(), entity_type).push(listing.last())
        } else {
            of_entity_type(listing.drop_last(), entity_type)
        },
{
    reveal(Seq::filter);
    if listing.len() == 0 {
        assert(of_entity_type(listing, entity_type) =~= Seq::<LogRecord>::empty());
    }
}

/// The entries about an entity are found by going through a listing
/// entry by entry.
pub proof fn lemma_of_entity_step(listing: Seq<LogRecord>, entity_id: u128)
    ensures
        of_entity(listing, entity_id) == if listing.len() == 0 {
            Seq::<LogRecord>::empty()
        } else if listing.last().entity_id == Some(entity_id) {
            of_entity(listing.drop_last(), entity_id).push(listing.last())
        } else {
            of_entity(listing.drop_last(), entity_id)
        },
{
    reveal(Seq::filter);
    if listing.len() == 0 {
        assert(of_entity(listing, entity_id) =~= Seq::<LogRecord>::empty());
    }
}

/// Whether a listing of audit entries is sorted by time in the given
/// direction.
pub open spec fn sorted_by_time(listing: Seq<LogRecord>, descending: bool) -> bool {
    forall|i: int, j: int|
        0 <= i < j < listing.len() ==> if descending {
            (#[trigger] listing[i]).timestamp >= (#[trigger] listing[j]).timestamp
        } else {
            listing[i].timestamp <= listing[j].timestamp
        }
}

/// A task as it stands after an update of its details.
pub open spec fn updated(
    task: TaskRecord,
    summary: Seq<char>,
    description: Option<Seq<char>>,
    due_date: Timestamp,
    priority: TaskPriority,
    status: TaskStatus,
) -> TaskRecord {
    TaskRecord { summary, description, due_date, priority, status, ..task }
}

/// The text of an optional string slice.
pub open spec fn opt_str_text(s: Option<&str>) -> Option<Seq<char>> {
    match s {
        Some(t) => Some(t@),
        None => None,
    }
}

/// Whether `listing` holds the entries of a store, each as often as the
/// store holds it, sorted by time in the given direction.
pub open spec fn lists_by_time(listing: Seq<LogRecord>, entries: Seq<LogRecord>, descending: bool)
    -> bool {
    &&& listing.to_multiset() == entries.to_multiset()
    &&& sorted_by_time(listing, descending)
    &&& listing.len() <= u64::MAX
}

/// A store of audit entries.
///
/// What a store holds is for the store to say. The bodies given here
/// stand for a store that does not say it: such a store is never in
/// order, so that nothing is claimed of it, and it may fail at any time.
pub trait LogRepository {
    /// The entries that the store holds, in the order in which they were
    /// written.
    open spec fn entries(&self) -> Seq<LogRecord> {
        Seq::empty()
    }

    /// The entries in the order in which the store lists them by time.
    open spec fn by_time(&self, descending: bool) -> Seq<LogRecord> {
        Seq::empty()
    }

    /// Whether the store is in order. Every operation asks for it and
    /// keeps it.
    open spec fn wf(&self) -> bool {
        false
    }

    /// Whether the store never fails for reasons of its own.
    open spec fn dependable() -> bool {
        false
    }

    /// Writes an entry and says whether it was stored. A dependable store
    /// stores every entry.
    fn insert(&mut self, entity: LogEntity) -> (stored: bool)
        requires
            old(self).wf(),
        ensures
            final(self).wf(),
            final(self).entries() == if stored {
                old(self).entries().push(entity@)
            } else {
                old(self).entries()
            },
            Self::dependable() ==> stored,
    ;

    /// The page of the entries tagged with `entity_type`, listed by time.
    fn get_batch_by_entity_type(
        &self,
        entity_type: &str,
        offset: u64,
        take: u32,
        descending: bool,
    ) -> (r: Result<Vec<LogEntity>, Error>)
        requires
            self.wf(),
        ensures
            match r {
                Ok(rows) => {
                    &&& lists_by_time(self.by_time(descending), self.entries(), descending)
                    &&& log_records(rows@) == page(
                        of_entity_type(self.by_time(descending), entity_type@),
                        offset as nat,
                        take as nat,
                    )
                },
                Err(e) => e is DbError && !Self::dependable(),
            },
    ;

    /// The page of the entries that refer to `entity_id`, listed by time.
    fn get_batch_by_entity(&self, entity_id: u128, offset: u64, take: u32, descending: bool) -> (r:
        Result<Vec<LogEntity>, Error>)
        requires
            self.wf(),
        ensures
            match r {
                Ok(rows) => {
                    &&& lists_by_time(self.by_time(descending), self.entries(), descending)
                    &&& log_records(rows@) == page(
                        of_entity(self.by_time(descending), entity_id),
                        offset as nat,
                        take as nat,
                    )
                },
                Err(e) => e is DbError && !Self::dependable(),
            },
    ;
}

/// Whether `listing` holds every root task of the table once and no other
/// task, sorted by `field` in the given direction.
pub open spec fn lists_roots(
    listing: Seq<TaskRecord>,
    tasks: TaskTable,
    field: SortField,
    descending: bool,
) -> bool {
    &&& lists_exactly(listing, tasks, None)
    &&& sorted(listing, field, descending)
    &&& listing.len() <= u64::MAX
}

/// A store of tasks.
///
/// What a store holds is for the store to say. The bodies given here
/// stand for a store that does not say it: such a store is never in
/// order, so that nothing is claimed of it, and it may fail at any time.
pub trait TaskRepository {
    /// The tasks that the store holds.
    open spec fn tasks(&self) -> TaskTable {
        Map::empty()
    }

    /// The root tasks in the order in which the store lists them by
    /// `field`.
    open spec fn root_listing(&self, field: SortField, descending: bool) -> Seq<TaskRecord> {
        Seq::empty()
    }

    /// Whether the store is in order. Every operation asks for it and
    /// keeps it.
    open spec fn wf(&self) -> bool {
        false
    }

    /// Whether the store never fails for reasons of its own.
    open spec fn dependable() -> bool {
        false
    }

    /// The task with the given id.
    fn get_by_id(&self, id: u128) -> (r: Result<TaskEntity, Error>)
        requires
            self.wf(),
        ensures
            match r {
                Ok(task) => self.tasks().contains_key(id) && task@ == self.tasks()[id] && task.id
                    == id,
                Err(e) => if self.tasks().contains_key(id) {
                    e is DbError && !Self::dependable()
                } else {
                    e is EntityNotFound || (e is DbError && !Self::dependable())
                },
            },
    ;

    /// Adds a task. An id that the store holds already is a failure of
    /// the store.
    fn insert(&mut self, entity: TaskEntity) -> (r: Result<(), Error>)
        requires
            old(self).wf(),
        ensures
            final(self).wf(),
            match r {
                Ok(()) => !old(self).tasks().contains_key(entity.id) && final(self).tasks() == old(
                    self,
                ).tasks().insert(entity.id, entity@),
                Err(e) => e is DbError && final(self).tasks() == old(self).tasks() && (
                old(self).tasks().contains_key(entity.id) || !Self::dependable()),
            },
    ;

    /// Removes a task. The links of its subtasks stay as they are.
    fn delete(&mut self, id: u128) -> (r: Result<(), Error>)
        requires
            old(self).wf(),
        ensures
            final(self).wf(),
            match r {
                Ok(()) => old(self).tasks().contains_key(id) && final(self).tasks() == old(
                    self,
                ).tasks().remove(id),
                Err(e) => final(self).tasks() == old(self).tasks() && if old(
                    self,
                ).tasks().contains_key(id) {
                    e is DbError && !Self::dependable()
                } else {
                    e is EntityNotFound || (e is DbError && !Self::dependable())
                },
            },
    ;

    /// The tasks that stand directly under `task_id`.
    fn get_subtasks(&self, task_id: u128) -> (r: Result<Vec<TaskEntity>, Error>)
        requires
            self.wf(),
        ensures
            match r {
                Ok(rows) => lists_exactly(task_records(rows@), self.tasks(), Some(task_id)),
                Err(e) => e is DbError && !Self::dependable(),
            },
    ;

    /// A page of the root tasks, listed by the field that `sort_by` names.
    /// A name that is not that of a sort field is refused.
    fn get_root_task_batch(&self, take: u32, offset: u64, sort_by: &str, descending: bool) -> (r:
        Result<Vec<TaskEntity>, Error>)
        requires
            self.wf(),
        ensures
            match r {
                Ok(rows) => {
                    &&& sort_field(sort_by@) matches Some(field)
                    &&& lists_roots(
                        self.root_listing(field, descending),
                        self.tasks(),
                        field,
                        descending,
                    )
                    &&& task_records(rows@) == page(
                        self.root_listing(field, descending),
                        offset as nat,
                        take as nat,
                    )
                },
                Err(e) => if sort_field(sort_by@) is Some {
                    e is DbError && !Self::dependable()
                } else {
                    e is InvalidInput || (e is DbError && !Self::dependable())
                },
            },
    ;

    /// A page of the root tasks that match `phrase`, listed by creation
    /// date.
    fn search_tasks(&self, phrase: &str, take: u32, offset: u64) -> (r: Result<
        Vec<TaskSearchEntity>,
        Error,
    >)
        requires
            self.wf(),
        ensures
            match r {
                Ok(rows) => {
                    &&& lists_roots(
                        self.root_listing(SortField::CreateDate, false),
                        self.tasks(),
                        SortField::CreateDate,
                        false,
                    )
                    &&& search_records(rows@) == page(
                        search_results(self.root_listing(SortField::CreateDate, false), phrase@),
                        offset as nat,
                        take as nat,
                    )
                },
                Err(e) => e is DbError && !Self::dependable(),
            },
    ;

    /// The ids of all that stands under `task_id`, directly or through
    /// other tasks.
    fn get_all_subtasks_recursive(&self, task_id: u128) -> (r: Result<Vec<u128>, Error>)
        requires
            self.wf(),
        ensures
            match r {
                Ok(ids) => ids@.to_set() == descendants(self.tasks(), task_id),
                Err(e) => e is DbError && !Self::dependable(),
            },
    ;

    /// Binds a task under `new_root_id`, or makes it a root. The store
    /// does not ask whether the binding is sound: that is for the caller.
    fn update_task_root(&mut self, task_id: u128, new_root_id: Option<u128>) -> (r: Result<
        (),
        Error,
    >)
        requires
            old(self).wf(),
        ensures
            final(self).wf(),
            match r {
                Ok(()) => old(self).tasks().contains_key(task_id) && final(self).tasks()
                    == rebound(old(self).tasks(), task_id, new_root_id),
                Err(e) => final(self).tasks() == old(self).tasks() && if old(
                    self,
                ).tasks().contains_key(task_id) {
                    e is DbError && !Self::dependable()
                } else {
                    e is EntityNotFound || (e is DbError && !Self::dependable())
                },
            },
    ;

    /// Replaces the details of a task.
    fn update_task(
        &mut self,
        id: u128,
        summary: &str,
        description: Option<&str>,
        due_date: Timestamp,
        priority: TaskPriority,
        status: TaskStatus,
    ) -> (r: Result<(), Error>)
        requires
            old(self).wf(),
        ensures
            final(self).wf(),
            match r {
                Ok(()) => old(self).tasks().contains_key(id) && final(self).tasks() == old(
                    self,
                ).tasks().insert(
                    id,
                    updated(
                        old(self).tasks()[id],
                        summary@,
                        opt_str_text(description),
                        due_date,
                        priority,
                        status,
                    ),
                ),
                Err(e) => final(self).tasks() == old(self).tasks() && if old(
                    self,
                ).tasks().contains_key(id) {
                    e is DbError && !Self::dependable()
                } else {
                    e is EntityNotFound || (e is DbError && !Self::dependable())
                },
            },
    ;
}

} // verus!
