//! The task service: creating, reading, changing and deleting tasks,
//! binding them under one another, and recording each change in the
//! audit log.

use vstd::prelude::*;
use crate::clock::now;
use crate::dtos::{
    detailed_of, full_of, search_of, task_records, TaskAction, TaskDetailedDto, TaskDetailedView,
    TaskFullDto, TaskSearchDto, TaskSearchView, UpsertTaskDto, UpsertTaskView,
};
use crate::errors::Error;
use crate::hierarchy::{
    acyclic, descendants, is_descendant, lemma_relink_keeps_acyclic, lemma_same_links_keep_acyclic,
    lists_exactly, rebound, root_link, TaskTable,
};
use crate::ident::{fresh_id, is_random_id};
use crate::logs::{one_entry_added, task_entity_type, LogsService};
use crate::models::{copy_opt_text, LogRecord, TaskEntity, TaskRecord, TaskSearchRecord, Timestamp};
use crate::paging::{
    advance, format_token, lemma_page_len, next_token, page, parse_token, token_offset,
};
use crate::repos::{lists_roots, updated, LogRepository, TaskRepository};
use crate::search::{search_records, search_results};
use crate::sorting::{sort_field, SortField};

verus! {

/// The listing form of a sequence of DTOs.
pub open spec fn detailed_views(s: Seq<TaskDetailedDto>) -> Seq<TaskDetailedView> {
    s.map_values(|d: TaskDetailedDto| d@)
}

/// The listing form of a sequence of tasks.
pub open spec fn detailed_all(s: Seq<TaskRecord>) -> Seq<TaskDetailedView> {
    s.map_values(|t: TaskRecord| detailed_of(t))
}

/// The search form of a sequence of DTOs.
pub open spec fn search_views(s: Seq<TaskSearchDto>) -> Seq<TaskSearchView> {
    s.map_values(|d: TaskSearchDto| d@)
}

/// The search form of a sequence of search results.
pub open spec fn search_all(s: Seq<TaskSearchRecord>) -> Seq<TaskSearchView> {
    s.map_values(|t: TaskSearchRecord| search_of(t))
}

/// The page of a listing of tasks that a request selects, in the listing
/// form, with the token that continues after it.
pub open spec fn task_batch(listing: Seq<TaskRecord>, offset: u64, take: u32) -> (
    Seq<TaskDetailedView>,
    Seq<char>,
) {
    (detailed_all(page(listing, offset as nat, take as nat)), next_token(listing, offset, take))
}

/// The page of a listing of search results that a request selects, in the
/// search form, with the token that continues after it.
pub open spec fn search_batch(listing: Seq<TaskSearchRecord>, offset: u64, take: u32) -> (
    Seq<TaskSearchView>,
    Seq<char>,
) {
    (search_all(page(listing, offset as nat, take as nat)), next_token(listing, offset, take))
}

/// Whether `task` is a new root task with the given id and details. Its
/// creation date is the time of its making.
pub open spec fn created_from(task: TaskRecord, id: u128, details: UpsertTaskView) -> bool {
    &&& task.id == id
    &&& task.root_task_id is None
    &&& task.summary == details.summary
    &&& task.description == details.description
    &&& task.due_date == details.due_date
    &&& task.priority == details.priority.model()
    &&& task.status == details.status.model()
}

/// Whether the log went from `before` to `after` by the record of one
/// action on the task `id`, or stayed as it was because the store of the
/// log did not keep the entry.
pub open spec fn audited(before: Seq<LogRecord>, after: Seq<LogRecord>, action: TaskAction, id: u128)
    -> bool {
    after == before || one_entry_added(
        before,
        after,
        action,
        Some(id),
        Some(task_entity_type()),
        None,
    )
}

/// Whether the root link of `id` names a task that the table does not
/// hold.
pub open spec fn root_dangles(tasks: TaskTable, id: u128) -> bool {
    tasks.contains_key(id) && match tasks[id].root_task_id {
        Some(root) => !tasks.contains_key(root),
        None => false,
    }
}

/// The task that `task` stands under, as the table has it.
pub open spec fn root_record(tasks: TaskTable, task: TaskRecord) -> Option<TaskRecord> {
    match task.root_task_id {
        Some(root) => Some(tasks[root]),
        None => None,
    }
}

/// Whether `ids` holds `id`.
pub fn contains_id(ids: &Vec<u128>, id: u128) -> (r: bool)
    ensures
        r == ids@.contains(id),
{
    let mut i: usize = 0;
    while i < ids.len()
        invariant
            i <= ids.len(),
            forall|k: int| 0 <= k < i ==> ids@[k] != id,
        decreases ids.len() - i,
    {
        if ids[i] == id {
            return true;
        }
        i = i + 1;
    }
    false
}

/// The task service over a store of tasks and the audit log.
pub struct TaskService<R: TaskRepository, L: LogRepository> {
    pub repo: R,
    pub log_service: LogsService<L>,
}

impl<R: TaskRepository, L: LogRepository> TaskService<R, L> {
    /// Whether the service is in order.
    pub open spec fn wf(&self) -> bool {
        self.repo.wf() && self.log_service.wf()
    }

    /// The tasks that the store holds.
    pub open spec fn tasks(&self) -> TaskTable {
        self.repo.tasks()
    }

    /// The audit log, in the order in which it was written.
    pub open spec fn log(&self) -> Seq<LogRecord> {
        self.log_service.entries()
    }

    /// A service over the given store, recording to the given log.
    pub fn new(repo: R, log_service: LogsService<L>) -> (s: TaskService<R, L>)
        ensures
            s.repo == repo,
            s.log_service == log_service,
    {
        TaskService { repo, log_service }
    }

    /// A page of the root tasks, sorted by the field that `sort_by`
    /// names, with the token that continues after the page. Every task of
    /// the page is a root. A token that is no number, or a name that is
    /// not that of a sort field, is refused as invalid input.
    pub fn get_root_task_batch(
        &self,
        take: u32,
        continuation_token: &str,
        sort_by: &str,
        descending: bool,
    ) -> (r: Result<(Vec<TaskDetailedDto>, String), Error>)
        requires
            self.wf(),
        ensures
            match (token_offset(continuation_token@), sort_field(sort_by@)) {
                (None, _) => r is Err && r->Err_0 is InvalidInput,
                (Some(_), None) => r is Err && (r->Err_0 is InvalidInput || (r->Err_0 is DbError
                    && !R::dependable())),
                (Some(offset), Some(field)) => match r {
                    Ok(batch) => {
                        &&& lists_roots(
                            self.repo.root_listing(field, descending),
                            self.tasks(),
                            field,
                            descending,
                        )
                        &&& (detailed_views(batch.0@), batch.1@) == task_batch(
                            self.repo.root_listing(field, descending),
                            offset,
                            take,
                        )
                    },
                    Err(e) => e is DbError && !R::dependable(),
                },
            },
            r matches Ok(batch) ==> forall|i: int|
                0 <= i < batch.0@.len() ==> (#[trigger] batch.0@[i])@.root_id is None,
    {
        let offset = match parse_token(continuation_token) {
            Ok(offset) => offset,
            Err(e) => {
                return Err(e);
            },
        };
        match self.repo.get_root_task_batch(take, offset, sort_by, descending) {
            Ok(rows) => {
                let ghost field = sort_field(sort_by@)->Some_0;
                let ghost listing = self.repo.root_listing(field, descending);
                proof {
                    lemma_page_len(listing, offset as nat, take as nat);
                }
                let mut shown: Vec<TaskDetailedDto> = Vec::new();
                let mut i: usize = 0;
                while i < rows.len()
                    invariant
                        i <= rows.len(),
                        shown.len() == i,
                        forall|k: int|
                            0 <= k < i ==> (#[trigger] shown[k])@ == detailed_of(rows[k]@),
                    decreases rows.len() - i,
                {
                    shown.push(TaskDetailedDto::new(&rows[i]));
                    i = i + 1;
                }
                assert(detailed_views(shown@) =~= detailed_all(task_records(rows@)));
                assert forall|i: int| 0 <= i < shown@.len() implies (#[trigger] shown@[i])@.root_id
                    is None by {
                    let row = page(listing, offset as nat, take as nat)[i];
                    assert(row == task_records(rows@)[i]);
                    assert(row == listing[offset + i]);
                }
                let token = format_token(advance(offset, take, rows.len()));
                Ok((shown, token))
            },
            Err(e) => Err(e),
        }
    }

    /// The task with the given id, with the short forms of its root and of
    /// its direct subtasks. A root link that names a task which the store
    /// no longer holds is not passed over: the lookup of the root fails,
    /// and so does the call.
    pub fn get_task(&self, id: u128) -> (r: Result<TaskFullDto, Error>)
        requires
            self.wf(),
        ensures
            match r {
                Ok(dto) => {
                    &&& self.tasks().contains_key(id)
                    &&& !root_dangles(self.tasks(), id)
                    &&& exists|subtasks: Seq<TaskRecord>|
                        lists_exactly(subtasks, self.tasks(), Some(id)) && dto@ == #[trigger] full_of(
                            self.tasks()[id],
                            root_record(self.tasks(), self.tasks()[id]),
                            subtasks,
                        )
                },
                Err(e) => if !self.tasks().contains_key(id) || root_dangles(self.tasks(), id) {
                    e is EntityNotFound || (e is DbError && !R::dependable())
                } else {
                    e is DbError && !R::dependable()
                },
            },
    {
        let entity = match self.repo.get_by_id(id) {
            Ok(entity) => entity,
            Err(e) => {
                return Err(e);
            },
        };
        let root_entity = match entity.root_task_id {
            Some(root_id) => match self.repo.get_by_id(root_id) {
                Ok(root) => Some(root),
                Err(e) => {
                    return Err(e);
                },
            },
            None => None,
        };
        let subtasks = match self.repo.get_subtasks(id) {
            Ok(rows) => rows,
            Err(e) => {
                return Err(e);
            },
        };
        let dto = TaskFullDto::new(&entity, root_entity.as_ref(), &subtasks);
        proof {
            let found = task_records(subtasks@);
            assert(dto@ == full_of(
                self.tasks()[id],
                root_record(self.tasks(), self.tasks()[id]),
                found,
            ));
        }
        Ok(dto)
    }

    /// The root task that is made from the given details, with the id and
    /// the creation date of its making.
    pub fn draft(id: u128, create_date: Timestamp, details: &UpsertTaskDto) -> (task: TaskEntity)
        ensures
            created_from(task@, id, details@),
            task@.create_date == create_date,
    {
        TaskEntity {
            id,
            root_task_id: None,
            summary: details.summary.clone(),
            description: copy_opt_text(&details.description),
            create_date,
            due_date: details.due_date,
            priority: details.priority.as_model(),
            status: details.status.as_model(),
        }
    }

    /// Creates a root task from the given details, with a fresh id and the
    /// current time as its creation date, and records the creation. The
    /// store decides whether the task is taken; if it is not, nothing is
    /// recorded. A dependable store refuses the task only if the fresh id
    /// is that of a task which it holds already.
    pub fn create_task(&mut self, details: &UpsertTaskDto) -> (r: Result<u128, Error>)
        requires
            old(self).wf(),
        ensures
            final(self).wf(),
            acyclic(old(self).tasks()) ==> acyclic(final(self).tasks()),
            match r {
                Ok(id) => {
                    &&& is_random_id(id)
                    &&& !old(self).tasks().contains_key(id)
                    &&& final(self).tasks().contains_key(id)
                    &&& final(self).tasks() == old(self).tasks().insert(id, final(self).tasks()[id])
                    &&& created_from(final(self).tasks()[id], id, details@)
                    &&& final(self).tasks()[id].create_date.nanos < 1_000_000_000
                    &&& audited(old(self).log(), final(self).log(), TaskAction::Create, id)
                    &&& L::dependable() ==> one_entry_added(
                        old(self).log(),
                        final(self).log(),
                        TaskAction::Create,
                        Some(id),
                        Some(task_entity_type()),
                        None,
                    )
                },
                Err(e) => {
                    &&& e is DbError
                    &&& final(self).tasks() == old(self).tasks()
                    &&& final(self).log() == old(self).log()
                    &&& !R::dependable() || exists|id: u128|
                        is_random_id(id) && #[trigger] old(self).tasks().contains_key(id)
                },
            },
    {
        let id = fresh_id();
        let entity = Self::draft(id, now(), details);
        match self.repo.insert(entity) {
            Ok(()) => {
                proof {
                    if acyclic(old(self).tasks()) {
                        lemma_relink_keeps_acyclic(old(self).tasks(), self.repo.tasks(), id, None);
                    }
                }
            },
            Err(e) => {
                assert(!R::dependable() || old(self).tasks().contains_key(id));
                return Err(e);
            },
        }
        let _ = self.log_service.log_task_action(
            TaskAction::Create,
            Some(id),
            Some("TaskEntity"),
            None,
        );
        Ok(id)
    }

    /// Replaces the details of a task and records the update. Fails, and
    /// records nothing, if the store holds no task with that id.
    pub fn update_task(&mut self, task_id: u128, details: &UpsertTaskDto) -> (r: Result<(), Error>)
        requires
            old(self).wf(),
        ensures
            final(self).wf(),
            acyclic(old(self).tasks()) ==> acyclic(final(self).tasks()),
            match r {
                Ok(()) => {
                    &&& old(self).tasks().contains_key(task_id)
                    &&& final(self).tasks() == old(self).tasks().insert(
                        task_id,
                        updated(
                            old(self).tasks()[task_id],
                            details@.summary,
                            details@.description,
                            details@.due_date,
                            details@.priority.model(),
                            details@.status.model(),
                        ),
                    )
                    &&& audited(old(self).log(), final(self).log(), TaskAction::Update, task_id)
                    &&& L::dependable() ==> one_entry_added(
                        old(self).log(),
                        final(self).log(),
                        TaskAction::Update,
                        Some(task_id),
                        Some(task_entity_type()),
                        None,
                    )
                },
                Err(e) => {
                    &&& final(self).tasks() == old(self).tasks()
                    &&& final(self).log() == old(self).log()
                    &&& if old(self).tasks().contains_key(task_id) {
                        e is DbError && !R::dependable()
                    } else {
                        e is EntityNotFound || (e is DbError && !R::dependable())
                    }
                },
            },
    {
        let description: Option<&str> = match &details.description {
            Some(d) => Some(d.as_str()),
            None => None,
        };
        match self.repo.update_task(
            task_id,
            details.summary.as_str(),
            description,
            details.due_date,
            details.priority.as_model(),
            details.status.as_model(),
        ) {
            Ok(()) => {
                proof {
                    if acyclic(old(self).tasks()) {
                        assert forall|x: u128| #[trigger]
                            root_link(self.repo.tasks(), x) == root_link(
                                old(self).tasks(),
                                x,
                            ) by {}
                        lemma_same_links_keep_acyclic(old(self).tasks(), self.repo.tasks());
                    }
                }
            },
            Err(e) => {
                return Err(e);
            },
        }
        let _ = self.log_service.log_task_action(
            TaskAction::Update,
            Some(task_id),
            Some("TaskEntity"),
            None,
        );
        Ok(())
    }

    /// Binds a task under `new_root_id`, or makes it a root, and records
    /// the change. A task is never bound to itself, nor to anything that
    /// stands under it: both are refused before the store is changed, so
    /// that no task comes to stand under itself.
    pub fn update_task_root(&mut self, task_id: u128, new_root_id: Option<u128>) -> (r: Result<
        (),
        Error,
    >)
        requires
            old(self).wf(),
        ensures
            final(self).wf(),
            acyclic(old(self).tasks()) ==> acyclic(final(self).tasks()),
            new_root_id == Some(task_id) ==> r is Err && r->Err_0 is InvalidRootBinding,
            (new_root_id matches Some(root) && is_descendant(old(self).tasks(), task_id, root))
                ==> r is Err && (r->Err_0 is InvalidRootBinding || (r->Err_0 is DbError
                && !R::dependable())),
            match r {
                Ok(()) => {
                    &&& new_root_id != Some(task_id)
                    &&& new_root_id matches Some(root) ==> !is_descendant(
                        old(self).tasks(),
                        task_id,
                        root,
                    )
                    &&& old(self).tasks().contains_key(task_id)
                    &&& final(self).tasks() == rebound(old(self).tasks(), task_id, new_root_id)
                    &&& audited(old(self).log(), final(self).log(), TaskAction::RootChanged, task_id)
                    &&& L::dependable() ==> one_entry_added(
                        old(self).log(),
                        final(self).log(),
                        TaskAction::RootChanged,
                        Some(task_id),
                        Some(task_entity_type()),
                        None,
                    )
                },
                Err(e) => {
                    &&& final(self).tasks() == old(self).tasks()
                    &&& final(self).log() == old(self).log()
                    &&& match e {
                        Error::InvalidRootBinding(_) => new_root_id == Some(task_id) || (
                        new_root_id matches Some(root) && is_descendant(
                            old(self).tasks(),
                            task_id,
                            root,
                        )),
                        Error::EntityNotFound(_) => !old(self).tasks().contains_key(task_id),
                        Error::DbError(_) => !R::dependable(),
                        Error::InvalidInput(_) => false,
                    }
                },
            },
    {
        if let Some(root) = new_root_id {
            if root == task_id {
                return Err(Error::invalid_root_binding("Can't bind task to itself"));
            }
            let below = match self.repo.get_all_subtasks_recursive(task_id) {
                Ok(ids) => ids,
                Err(e) => {
                    return Err(e);
                },
            };
            proof {
                assert(below@.to_set().contains(root) == below@.contains(root));
                assert(descendants(self.repo.tasks(), task_id).contains(root) == is_descendant(
                    self.repo.tasks(),
                    task_id,
                    root,
                ));
            }
            if contains_id(&below, root) {
                return Err(Error::invalid_root_binding("Can't bind task to its subtask"));
            }
        }
        match self.repo.update_task_root(task_id, new_root_id) {
            Ok(()) => {
                proof {
                    if acyclic(old(self).tasks()) {
                        lemma_relink_keeps_acyclic(
                            old(self).tasks(),
                            self.repo.tasks(),
                            task_id,
                            new_root_id,
                        );
                    }
                }
            },
            Err(e) => {
                return Err(e);
            },
        }
        let _ = self.log_service.log_task_action(
            TaskAction::RootChanged,
            Some(task_id),
            Some("TaskEntity"),
            None,
        );
        Ok(())
    }

    /// Deletes a task and records the deletion. Its subtasks stay, and
    /// keep their root link as it was. Fails, and records nothing, if the
    /// store holds no task with that id.
    pub fn delete_task(&mut self, task_id: u128) -> (r: Result<(), Error>)
        requires
            old(self).wf(),
        ensures
            final(self).wf(),
            acyclic(old(self).tasks()) ==> acyclic(final(self).tasks()),
            match r {
                Ok(()) => {
                    &&& old(self).tasks().contains_key(task_id)
                    &&& final(self).tasks() == old(self).tasks().remove(task_id)
                    &&& audited(old(self).log(), final(self).log(), TaskAction::Delete, task_id)
                    &&& L::dependable() ==> one_entry_added(
                        old(self).log(),
                        final(self).log(),
                        TaskAction::Delete,
                        Some(task_id),
                        Some(task_entity_type()),
                        None,
                    )
                },
                Err(e) => {
                    &&& final(self).tasks() == old(self).tasks()
                    &&& final(self).log() == old(self).log()
                    &&& if old(self).tasks().contains_key(task_id) {
                        e is DbError && !R::dependable()
                    } else {
                        e is EntityNotFound || (e is DbError && !R::dependable())
                    }
                },
            },
    {
        match self.repo.delete(task_id) {
            Ok(()) => {
                proof {
                    if acyclic(old(self).tasks()) {
                        lemma_relink_keeps_acyclic(
                            old(self).tasks(),
                            self.repo.tasks(),
                            task_id,
                            None,
                        );
                    }
                }
            },
            Err(e) => {
                return Err(e);
            },
        }
        let _ = self.log_service.log_task_action(
            TaskAction::Delete,
            Some(task_id),
            Some("TaskEntity"),
            None,
        );
        Ok(())
    }

    /// A page of the root tasks that hold `phrase` in their summary or
    /// description, letter case aside, listed by creation date, with the
    /// token that continues after the page.
    pub fn search_tasks(&self, phrase: &str, take: u32, continuation_token: &str) -> (r: Result<
        (Vec<TaskSearchDto>, String),
        Error,
    >)
        requires
            self.wf(),
        ensures
            match token_offset(continuation_token@) {
                None => r is Err && r->Err_0 is InvalidInput,
                Some(offset) => match r {
                    Ok(batch) => {
                        &&& lists_roots(
                            self.repo.root_listing(SortField::CreateDate, false),
                            self.tasks(),
                            SortField::CreateDate,
                            false,
                        )
                        &&& (search_views(batch.0@), batch.1@) == search_batch(
                            search_results(
                                self.repo.root_listing(SortField::CreateDate, false),
                                phrase@,
                            ),
                            offset,
                            take,
                        )
                    },
                    Err(e) => e is DbError && !R::dependable(),
                },
            },
    {
        let offset = match parse_token(continuation_token) {
            Ok(offset) => offset,
            Err(e) => {
                return Err(e);
            },
        };
        match self.repo.search_tasks(phrase, take, offset) {
            Ok(rows) => {
                proof {
                    let roots = self.repo.root_listing(SortField::CreateDate, false);
                    crate::search::lemma_search_results_len(roots, phrase@);
                    lemma_page_len(search_results(roots, phrase@), offset as nat, take as nat);
                }
                let mut shown: Vec<TaskSearchDto> = Vec::new();
                let mut i: usize = 0;
                while i < rows.len()
                    invariant
                        i <= rows.len(),
                        shown.len() == i,
                        forall|k: int|
                            0 <= k < i ==> (#[trigger] shown[k])@ == search_of(rows[k]@),
                    decreases rows.len() - i,
                {
                    shown.push(TaskSearchDto::new(&rows[i]));
                    i = i + 1;
                }
                assert(search_views(shown@) =~= search_all(search_records(rows@)));
                let token = format_token(advance(offset, take, rows.len()));
                Ok((shown, token))
            },
            Err(e) => Err(e),
        }
    }
}

} // verus!
