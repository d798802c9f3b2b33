//! The audit log: one entry for each mutation of a task.

use vstd::prelude::*;
use crate::clock::now;
use crate::dtos::{log_entry_of, LogEntryDto, LogEntryView, TaskAction};
use crate::errors::Error;
use crate::ident::{fresh_id, is_random_id};
use crate::models::{LogEntity, LogRecord};
use crate::paging::{
    advance, decimal_text, format_token, lemma_page_len, next_offset, next_token, page,
    parse_token, token_offset,
};
use crate::repos::{
    lists_by_time, log_records, of_entity, of_entity_type, opt_str_text, LogRepository,
};

verus! {

/// The tag that the entries about tasks carry as their entity type.
pub open spec fn task_entity_type() -> Seq<char> {
    "TaskEntity"@
}

/// The callers' form of a sequence of audit entries.
pub open spec fn log_entry_views(s: Seq<LogEntryDto>) -> Seq<LogEntryView> {
    s.map_values(|d: LogEntryDto| d@)
}

/// The callers' form of a listing of audit entries.
pub open spec fn log_entries_of(s: Seq<LogRecord>) -> Seq<LogEntryView> {
    s.map_values(|e: LogRecord| log_entry_of(e))
}

/// Whether `entry` records the given action on the given entity. Its id
/// and its time are those of its writing and are not fixed by the action.
pub open spec fn records_action(
    entry: LogRecord,
    action: TaskAction,
    entity_id: Option<u128>,
    entity_type: Option<Seq<char>>,
    payload: Option<Seq<char>>,
) -> bool {
    &&& entry.action == action.model()
    &&& entry.entity_id == entity_id
    &&& entry.entity_type == entity_type
    &&& entry.payload == payload
}

/// Whether `after` is `before` with exactly one entry added at its end,
/// which records the given action on the given entity.
pub open spec fn one_entry_added(
    before: Seq<LogRecord>,
    after: Seq<LogRecord>,
    action: TaskAction,
    entity_id: Option<u128>,
    entity_type: Option<Seq<char>>,
    payload: Option<Seq<char>>,
) -> bool {
    &&& after.len() == before.len() + 1
    &&& after.drop_last() == before
    &&& records_action(after.last(), action, entity_id, entity_type, payload)
}

/// An owned copy of an optional string slice.
pub fn to_opt_string(s: Option<&str>) -> (r: Option<String>)
    ensures
        crate::models::opt_text(r) == opt_str_text(s),
{
    match s {
        Some(t) => Some(t.to_owned()),
        None => None,
    }
}

/// The page of a listing that a request selects, in the callers' form,
/// with the token that continues after it.
pub open spec fn log_batch(listing: Seq<LogRecord>, offset: u64, take: u32) -> (
    Seq<LogEntryView>,
    Seq<char>,
) {
    (log_entries_of(page(listing, offset as nat, take as nat)), next_token(listing, offset, take))
}

/// Writes and reads the audit log of a store.
pub struct LogsService<L: LogRepository> {
    pub repo: L,
}

impl<L: LogRepository> LogsService<L> {
    /// Whether the service is in order.
    pub open spec fn wf(&self) -> bool {
        self.repo.wf()
    }

    /// The entries of the log, in the order in which they were written.
    pub open spec fn entries(&self) -> Seq<LogRecord> {
        self.repo.entries()
    }

    /// A service over the given store.
    pub fn new(repo: L) -> (s: LogsService<L>)
        ensures
            s.repo == repo,
    {
        LogsService { repo }
    }

    /// The entry that records an action, with the id and the time of its
    /// writing.
    pub fn compose(
        id: u128,
        timestamp: i64,
        action: TaskAction,
        entity_id: Option<u128>,
        entity_type: Option<&str>,
        payload: Option<&str>,
    ) -> (entry: LogEntity)
        ensures
            entry@ == (LogRecord {
                id,
                timestamp,
                action: action.model(),
                entity_id,
                entity_type: opt_str_text(entity_type),
                payload: opt_str_text(payload),
            }),
    {
        LogEntity {
            id,
            action: action.as_model(),
            entity_type: to_opt_string(entity_type),
            entity_id,
            payload: to_opt_string(payload),
            timestamp,
        }
    }

    /// Records an action: one entry with a fresh id and the current time
    /// is handed to the store. Says whether the store kept it; a caller is
    /// free to ignore the answer. Nothing else in the log changes.
    pub fn log_task_action(
        &mut self,
        action: TaskAction,
        entity_id: Option<u128>,
        entity_type: Option<&str>,
        payload: Option<&str>,
    ) -> (stored: bool)
        requires
            old(self).wf(),
        ensures
            final(self).wf(),
            stored ==> one_entry_added(
                old(self).entries(),
                final(self).entries(),
                action,
                entity_id,
                opt_str_text(entity_type),
                opt_str_text(payload),
            ),
            stored ==> is_random_id(final(self).entries().last().id),
            !stored ==> final(self).entries() == old(self).entries(),
            L::dependable() ==> stored,
    {
        let stamp = now();
        let entry = Self::compose(
            fresh_id(),
            stamp.seconds,
            action,
            entity_id,
            entity_type,
            payload,
        );
        let ghost before = self.repo.entries();
        let ghost record = entry@;
        let stored = self.repo.insert(entry);
        proof {
            if stored {
                assert(before.push(record).drop_last() =~= before);
            }
        }
        stored
    }

    /// A page of the entries about tasks, listed by time. The token is
    /// read as the number of entries to skip; one that is no number is
    /// refused as invalid input.
    pub fn get_task_action_log_batch(&self, continuation_token: &str, take: u32, descending: bool)
        -> (r: Result<(Vec<LogEntryDto>, String), Error>)
        requires
            self.wf(),
        ensures
            match token_offset(continuation_token@) {
                None => r is Err && r->Err_0 is InvalidInput,
                Some(offset) => match r {
                    Ok(batch) => {
                        &&& lists_by_time(
                            self.repo.by_time(descending),
                            self.entries(),
                            descending,
                        )
                        &&& (log_entry_views(batch.0@), batch.1@) == log_batch(
                            of_entity_type(self.repo.by_time(descending), task_entity_type()),
                            offset,
                            take,
                        )
                    },
                    Err(e) => e is DbError && !L::dependable(),
                },
            },
    {
        let offset = match parse_token(continuation_token) {
            Ok(offset) => offset,
            Err(e) => {
                return Err(e);
            },
        };
        match self.repo.get_batch_by_entity_type("TaskEntity", offset, take, descending) {
            Ok(rows) => {
                proof {
                    let listing = of_entity_type(self.repo.by_time(descending), task_entity_type());
                    broadcast use vstd::seq_lib::group_filter_ensures;

                    lemma_page_len(listing, offset as nat, take as nat);
                }
                Ok(Self::present(&rows, offset, take))
            },
            Err(e) => Err(e),
        }
    }

    /// A page of the entries that refer to the task `task_id`, listed by
    /// time. The token is read as above.
    pub fn get_task_action_log_batch_by_task(
        &self,
        task_id: u128,
        continuation_token: &str,
        take: u32,
        descending: bool,
    ) -> (r: Result<(Vec<LogEntryDto>, String), Error>)
        requires
            self.wf(),
        ensures
            match token_offset(continuation_token@) {
                None => r is Err && r->Err_0 is InvalidInput,
                Some(offset) => match r {
                    Ok(batch) => {
                        &&& lists_by_time(
                            self.repo.by_time(descending),
                            self.entries(),
                            descending,
                        )
                        &&& (log_entry_views(batch.0@), batch.1@) == log_batch(
                            of_entity(self.repo.by_time(descending), task_id),
                            offset,
                            take,
                        )
                    },
                    Err(e) => e is DbError && !L::dependable(),
                },
            },
    {
        let offset = match parse_token(continuation_token) {
            Ok(offset) => offset,
            Err(e) => {
                return Err(e);
            },
        };
        match self.repo.get_batch_by_entity(task_id, offset, take, descending) {
            Ok(rows) => {
                proof {
                    let listing = of_entity(self.repo.by_time(descending), task_id);
                    broadcast use vstd::seq_lib::group_filter_ensures;

                    lemma_page_len(listing, offset as nat, take as nat);
                }
                Ok(Self::present(&rows, offset, take))
            },
            Err(e) => Err(e),
        }
    }

    /// The callers' form of a page of entries, with the token that
    /// continues after it.
    pub fn present(rows: &Vec<LogEntity>, offset: u64, take: u32) -> (batch: (
        Vec<LogEntryDto>,
        String,
    ))
        requires
            next_offset(offset as nat, take as nat, rows@.len()) <= u64::MAX,
        ensures
            log_entry_views(batch.0@) == log_entries_of(log_records(rows@)),
            batch.1@ == decimal_text(next_offset(offset as nat, take as nat, rows@.len())),
    {
        let mut shown: Vec<LogEntryDto> = Vec::new();
        let mut i: usize = 0;
        while i < rows.len()
            invariant
                i <= rows.len(),
                shown.len() == i,
                forall|k: int| 0 <= k < i ==> (#[trigger] shown[k])@ == log_entry_of(rows[k]@),
            decreases rows.len() - i,
        {
            shown.push(LogEntryDto::new(&rows[i]));
            i = i + 1;
        }
        assert(log_entry_views(shown@) =~= log_entries_of(log_records(rows@)));
        let token = format_token(advance(offset, take, rows.len()));
        (shown, token)
    }
}

} // verus!
