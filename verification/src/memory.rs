//! Stores that keep their rows in memory.
//!
//! They meet the contracts of [`crate::repos`] and never fail for reasons
//! of their own: what a service proves against the contract holds of them
//! without exception.

use vstd::prelude::*;
use crate::dtos::task_records;
use crate::enums::{TaskPriority, TaskStatus};
use crate::errors::Error;
use crate::hierarchy::{
    acyclic, ancestor, descendants, is_descendant, lemma_child_is_descendant,
    lemma_descendant_transitive, lemma_empty_is_acyclic, lists_exactly, root_link, TaskTable,
};
use crate::models::{LogEntity, LogRecord, TaskEntity, TaskRecord, TaskSearchEntity, Timestamp};
use crate::paging::page_range;
use crate::repos::{
    lemma_of_entity_step, lemma_of_entity_type_step, lists_by_time, lists_roots, log_records,
    of_entity, of_entity_type, LogRepository, TaskRepository,
};
use crate::logs::to_opt_string;
use crate::search::{
    chars_of, lemma_search_results_step, search_records, search_results, task_matches,
    to_search_entity,
};
use crate::tasks::contains_id;
use crate::text::same_text;
use crate::sorting::{
    all_places, arrange, arranged, key_of, lemma_arranged, lemma_arranged_picks_all,
    parse_sort_field, picked, sort_key, sorted, SortField, SortKey,
};

verus! {

/// Whether no two rows have the same id.
pub open spec fn distinct_ids(rows: Seq<TaskRecord>) -> bool {
    forall|i: int, j: int|
        0 <= i < j < rows.len() ==> (#[trigger] rows[i]).id != (#[trigger] rows[j]).id
}

/// Whether a row has the given id.
pub open spec fn holds(rows: Seq<TaskRecord>, id: u128) -> bool {
    exists|i: int| 0 <= i < rows.len() && (#[trigger] rows[i]).id == id
}

/// The place of the row with the given id.
pub open spec fn place(rows: Seq<TaskRecord>, id: u128) -> int {
    choose|i: int| 0 <= i < rows.len() && (#[trigger] rows[i]).id == id
}

/// The table that the rows make up.
pub open spec fn table_of(rows: Seq<TaskRecord>) -> TaskTable {
    Map::new(|id: u128| holds(rows, id), |id: u128| rows[place(rows, id)])
}

/// Each row is the table's task of its id.
pub proof fn lemma_table_at(rows: Seq<TaskRecord>, i: int)
    requires
        distinct_ids(rows),
        0 <= i < rows.len(),
    ensures
        table_of(rows).contains_key(rows[i].id),
        table_of(rows)[rows[i].id] == rows[i],
{
    let id = rows[i].id;
    let p = place(rows, id);
    assert(0 <= p < rows.len() && rows[p].id == id);
    if p < i {
        assert(rows[p].id != rows[i].id);
    } else if i < p {
        assert(rows[i].id != rows[p].id);
    }
}

/// The table holds nothing but the rows.
pub proof fn lemma_table_rows(rows: Seq<TaskRecord>, id: u128)
    requires
        distinct_ids(rows),
        table_of(rows).contains_key(id),
    ensures
        0 <= place(rows, id) < rows.len(),
        rows[place(rows, id)].id == id,
        table_of(rows)[id] == rows[place(rows, id)],
{
}

/// The rows that stand under `under`, by their places, in the order of
/// the rows.
pub open spec fn positions(rows: Seq<TaskRecord>, under: Option<u128>) -> Seq<usize>
    decreases rows.len(),
{
    if rows.len() == 0 {
        Seq::empty()
    } else if rows.last().root_task_id == under {
        positions(rows.drop_last(), under).push((rows.len() - 1) as usize)
    } else {
        positions(rows.drop_last(), under)
    }
}

/// The keys of the rows for a listing by `field`.
pub open spec fn keys_of(rows: Seq<TaskRecord>, field: SortField) -> Seq<SortKey> {
    rows.map_values(|t: TaskRecord| sort_key(field, t))
}

/// The places of the rows under `under` are just these: each such row
/// once, and no other.
pub proof fn lemma_positions(rows: Seq<TaskRecord>, under: Option<u128>)
    requires
        rows.len() <= usize::MAX,
    ensures
        positions(rows, under).len() <= rows.len(),
        positions(rows, under).no_duplicates(),
        forall|k: int|
            0 <= k < positions(rows, under).len() ==> (#[trigger] positions(rows, under)[k])
                < rows.len() && rows[positions(rows, under)[k] as int].root_task_id == under,
        forall|i: int|
            0 <= i < rows.len() && (#[trigger] rows[i]).root_task_id == under ==> positions(
                rows,
                under,
            ).contains(i as usize),
    decreases rows.len(),
{
    let out = positions(rows, under);
    if rows.len() > 0 {
        let rest = rows.drop_last();
        let inner = positions(rest, under);
        lemma_positions(rest, under);
        assert forall|k: int| 0 <= k < out.len() implies (#[trigger] out[k]) < rows.len()
            && rows[out[k] as int].root_task_id == under by {
            if k < inner.len() {
                assert(rest[inner[k] as int] == rows[inner[k] as int]);
            }
        }
        assert forall|i: int|
            0 <= i < rows.len() && (#[trigger] rows[i]).root_task_id == under implies out.contains(
            i as usize,
        ) by {
            if i < rest.len() {
                assert(rest[i].root_task_id == under);
                assert(inner.contains(i as usize));
                let k = choose|k: int| 0 <= k < inner.len() && inner[k] == i as usize;
                assert(out[k] == i as usize);
            } else {
                assert(out[out.len() - 1] == i as usize);
            }
        }
        assert forall|a: int, b: int|
            0 <= a < out.len() && 0 <= b < out.len() && a != b implies out[a] != out[b] by {
            if a < inner.len() && b < inner.len() {
                assert(inner[a] != inner[b]);
            }
        }
    }
}

/// The rows at places that name each row under `under` once, and no
/// other row, list exactly the tasks under `under`.
pub proof fn lemma_picked_lists(rows: Seq<TaskRecord>, order: Seq<usize>, under: Option<u128>)
    requires
        distinct_ids(rows),
        rows.len() <= usize::MAX,
        order.no_duplicates(),
        forall|k: int|
            0 <= k < order.len() ==> (#[trigger] order[k]) < rows.len() && rows[order[k] as int].root_task_id
                == under,
        forall|i: int|
            0 <= i < rows.len() && (#[trigger] rows[i]).root_task_id == under ==> order.contains(
                i as usize,
            ),
    ensures
        lists_exactly(picked(rows, order), table_of(rows), under),
{
    let list = picked(rows, order);
    let tasks = table_of(rows);
    assert forall|i: int| 0 <= i < list.len() implies {
        &&& tasks.contains_key((#[trigger] list[i]).id)
        &&& tasks[list[i].id] == list[i]
        &&& list[i].root_task_id == under
    } by {
        lemma_table_at(rows, order[i] as int);
    }
    assert forall|i: int, j: int| 0 <= i < j < list.len() implies (#[trigger] list[i]).id != (
    #[trigger] list[j]).id by {
        let a = order[i] as int;
        let b = order[j] as int;
        assert(a != b);
        if a < b {
            assert(rows[a].id != rows[b].id);
        } else {
            assert(rows[b].id != rows[a].id);
        }
    }
    assert forall|id: u128| #[trigger]
        tasks.contains_key(id) && tasks[id].root_task_id == under implies exists|i: int|
        0 <= i < list.len() && (#[trigger] list[i]).id == id by {
        lemma_table_rows(rows, id);
        let p = place(rows, id);
        assert(rows[p].root_task_id == under);
        assert(order.contains(p as usize));
        let k = choose|k: int| 0 <= k < order.len() && order[k] == p as usize;
        assert(list[k].id == id);
    }
}

/// How many rows are not yet marked.
pub open spec fn unmarked(marks: Seq<bool>) -> nat
    decreases marks.len(),
{
    if marks.len() == 0 {
        0
    } else if marks.last() {
        unmarked(marks.drop_last())
    } else {
        unmarked(marks.drop_last()) + 1
    }
}

/// Marking a row leaves one fewer unmarked.
pub proof fn lemma_mark(marks: Seq<bool>, i: int)
    requires
        0 <= i < marks.len(),
        !marks[i],
    ensures
        unmarked(marks.update(i, true)) + 1 == unmarked(marks),
    decreases marks.len(),
{
    let after = marks.update(i, true);
    if i == marks.len() - 1 {
        assert(after.drop_last() =~= marks.drop_last());
    } else {
        lemma_mark(marks.drop_last(), i);
        assert(after.drop_last() =~= marks.drop_last().update(i, true));
    }
}

/// Whether row `j` is accounted for: if it stands directly under `of` or
/// under a task that `found` names, then `found` names it too.
pub open spec fn accounted(rows: Seq<TaskRecord>, found: Seq<u128>, of: u128, j: int) -> bool {
    match rows[j].root_task_id {
        Some(above) => (above == of || found.contains(above)) ==> found.contains(rows[j].id),
        None => true,
    }
}

/// Once every row is accounted for, `found` names all that stands under
/// `of`.
pub proof fn lemma_accounted_reaches(
    rows: Seq<TaskRecord>,
    found: Seq<u128>,
    of: u128,
    id: u128,
    n: nat,
)
    requires
        distinct_ids(rows),
        n >= 1,
        ancestor(table_of(rows), id, n) == Some(of),
        forall|j: int| 0 <= j < rows.len() ==> accounted(rows, found, of, j),
    ensures
        found.contains(id),
    decreases n,
{
    let tasks = table_of(rows);
    let above = root_link(tasks, id)->Some_0;
    lemma_table_rows(rows, id);
    let p = place(rows, id);
    assert(rows[p].root_task_id == Some(above));
    if n > 1 {
        lemma_accounted_reaches(rows, found, of, above, (n - 1) as nat);
    } else {
        assert(ancestor(tasks, above, 0) == Some(above));
    }
    assert(accounted(rows, found, of, p));
}

/// Whether two root links are the same.
fn same_link(a: Option<u128>, b: Option<u128>) -> (r: bool)
    ensures
        r == (a == b),
{
    match (a, b) {
        (Some(x), Some(y)) => x == y,
        (None, None) => true,
        _ => false,
    }
}

/// A store of tasks that keeps its rows in memory, in the order in which
/// they came.
pub struct MemoryTaskStore {
    rows: Vec<TaskEntity>,
}

impl MemoryTaskStore {
    /// The rows of the store.
    pub closed spec fn records(&self) -> Seq<TaskRecord> {
        task_records(self.rows@)
    }

    /// An empty store.
    pub fn new() -> (s: MemoryTaskStore)
        ensures
            s.wf(),
            s.records() == Seq::<TaskRecord>::empty(),
            s.tasks() == Map::<u128, TaskRecord>::empty(),
            acyclic(s.tasks()),
    {
        let s = MemoryTaskStore { rows: Vec::new() };
        assert(s.records() =~= Seq::<TaskRecord>::empty());
        assert(s.tasks() =~= Map::<u128, TaskRecord>::empty());
        proof {
            lemma_empty_is_acyclic();
        }
        s
    }

    /// The place of the row with the given id, if there is one.
    fn find(&self, id: u128) -> (r: Option<usize>)
        ensures
            match r {
                Some(i) => i < self.records().len() && self.records()[i as int].id == id,
                None => !holds(self.records(), id),
            },
    {
        let mut i: usize = 0;
        while i < self.rows.len()
            invariant
                i <= self.rows.len(),
                forall|k: int| 0 <= k < i ==> (#[trigger] self.records()[k]).id != id,
            decreases self.rows.len() - i,
        {
            if self.rows[i].id == id {
                return Some(i);
            }
            i = i + 1;
        }
        None
    }

    /// A listing of the roots holds every root task once and no other
    /// task, sorted by the field.
    pub proof fn root_listing_lists_roots(&self, field: SortField, descending: bool)
        requires
            self.wf(),
        ensures
            lists_roots(self.root_listing(field, descending), self.tasks(), field, descending),
    {
        let rows = self.records();
        let keys = keys_of(rows, field);
        let roots = positions(rows, None);
        let order = arranged(keys, roots, descending);
        assert(rows.len() <= usize::MAX) by {
            assert(rows.len() == self.rows.len());
        }
        lemma_positions(rows, None);
        lemma_arranged(keys, roots, descending);
        assert forall|k: int| 0 <= k < order.len() implies (#[trigger] order[k]) < rows.len()
            && rows[order[k] as int].root_task_id == None::<u128> by {
            assert(order.contains(order[k]));
            assert(roots.contains(order[k]));
        }
        assert forall|i: int|
            0 <= i < rows.len() && (#[trigger] rows[i]).root_task_id
                == None::<u128> implies order.contains(i as usize) by {
            assert(roots.contains(i as usize));
        }
        lemma_picked_lists(rows, order, None);
        let list = self.root_listing(field, descending);
        assert forall|i: int, j: int| 0 <= i < j < list.len() implies crate::sorting::in_order(
            field,
            descending,
            #[trigger] list[i],
            #[trigger] list[j],
        ) by {
            assert(order.contains(order[i]));
            assert(order.contains(order[j]));
        }
    }

    /// The places of the root rows in the order of a listing by `field`.
    fn listing_order(&self, field: SortField, descending: bool) -> (order: Vec<usize>)
        ensures
            order@ == arranged(
                keys_of(self.records(), field),
                positions(self.records(), None),
                descending,
            ),
            forall|j: int| 0 <= j < order.len() ==> (#[trigger] order@[j]) < self.records().len(),
    {
        let mut keys: Vec<SortKey> = Vec::new();
        let mut i: usize = 0;
        while i < self.rows.len()
            invariant
                i <= self.rows.len(),
                keys.len() == i,
                forall|k: int|
                    0 <= k < i ==> (#[trigger] keys@[k]) == sort_key(field, self.records()[k]),
            decreases self.rows.len() - i,
        {
            keys.push(key_of(field, &self.rows[i]));
            i = i + 1;
        }
        assert(keys@ =~= keys_of(self.records(), field));
        let roots = self.select(None);
        proof {
            assert(self.records().len() == self.rows.len());
            lemma_positions(self.records(), None);
        }
        arrange(&keys, &roots, descending)
    }

    /// The ids of all that stands under `task_id`. The rows are gone
    /// through again and again, and each round takes the rows that stand
    /// under `task_id` or under a row taken before, until a round takes
    /// none.
    fn below(&self, task_id: u128) -> (found: Vec<u128>)
        requires
            self.wf(),
        ensures
            found@.to_set() == descendants(self.tasks(), task_id),
    {
        let n = self.rows.len();
        let ghost rows = self.records();
        let ghost tasks = table_of(rows);
        let mut marks: Vec<bool> = Vec::new();
        while marks.len() < n
            invariant
                marks.len() <= n,
                forall|k: int| 0 <= k < marks.len() ==> !(#[trigger] marks@[k]),
            decreases n - marks.len(),
        {
            marks.push(false);
        }
        let mut found: Vec<u128> = Vec::new();
        let mut grew = true;
        while grew
            invariant
                n == self.rows.len(),
                rows == self.records(),
                tasks == table_of(rows),
                distinct_ids(rows),
                marks.len() == n,
                forall|k: int|
                    0 <= k < found.len() ==> is_descendant(tasks, task_id, #[trigger] found@[k]),
                forall|i: int|
                    0 <= i < n && (#[trigger] marks@[i]) ==> found@.contains(rows[i].id),
                !grew ==> forall|j: int| 0 <= j < n ==> accounted(rows, found@, task_id, j),
            decreases unmarked(marks@) + if grew { 1nat } else { 0nat },
        {
            grew = false;
            let ghost open_before = unmarked(marks@);
            let mut i: usize = 0;
            while i < n
                invariant
                    i <= n,
                    n == self.rows.len(),
                    rows == self.records(),
                    tasks == table_of(rows),
                    distinct_ids(rows),
                    marks.len() == n,
                    forall|k: int|
                        0 <= k < found.len() ==> is_descendant(
                            tasks,
                            task_id,
                            #[trigger] found@[k],
                        ),
                    forall|x: int|
                        0 <= x < n && (#[trigger] marks@[x]) ==> found@.contains(rows[x].id),
                    unmarked(marks@) <= open_before,
                    grew ==> unmarked(marks@) < open_before,
                    !grew ==> forall|j: int| 0 <= j < i ==> accounted(rows, found@, task_id, j),
                decreases n - i,
            {
                if !marks[i] {
                    let takes = match self.rows[i].root_task_id {
                        Some(above) => above == task_id || contains_id(&found, above),
                        None => false,
                    };
                    if takes {
                        let ghost before = found@;
                        let ghost id = rows[i as int].id;
                        let ghost above = rows[i as int].root_task_id->Some_0;
                        proof {
                            lemma_table_at(rows, i as int);
                            lemma_child_is_descendant(tasks, above, id);
                            if above != task_id {
                                let k = choose|k: int|
                                    0 <= k < before.len() && before[k] == above;
                                assert(is_descendant(tasks, task_id, before[k]));
                                lemma_descendant_transitive(tasks, task_id, above, id);
                            }
                            lemma_mark(marks@, i as int);
                        }
                        found.push(self.rows[i].id);
                        marks.set(i, true);
                        grew = true;
                        proof {
                            assert forall|x: int|
                                0 <= x < n && (#[trigger] marks@[x]) implies found@.contains(
                                rows[x].id,
                            ) by {
                                if x == i {
                                    assert(found@[before.len() as int] == rows[x].id);
                                } else {
                                    let k = choose|k: int|
                                        0 <= k < before.len() && before[k] == rows[x].id;
                                    assert(found@[k] == rows[x].id);
                                }
                            }
                        }
                    }
                }
                i = i + 1;
            }
        }
        proof {
            assert forall|id: u128| found@.to_set().contains(id) <==> descendants(
                tasks,
                task_id,
            ).contains(id) by {
                if is_descendant(tasks, task_id, id) {
                    let m = choose|m: nat| m >= 1 && #[trigger] ancestor(tasks, id, m) == Some(task_id);
                    lemma_accounted_reaches(rows, found@, task_id, id, m);
                }
                if found@.contains(id) {
                    let k = choose|k: int| 0 <= k < found.len() && found@[k] == id;
                    assert(is_descendant(tasks, task_id, found@[k]));
                }
            }
            assert(found@.to_set() =~= descendants(tasks, task_id));
        }
        found
    }

    /// The places of the rows that stand under `under`.
    fn select(&self, under: Option<u128>) -> (r: Vec<usize>)
        ensures
            r@ == positions(self.records(), under),
    {
        let mut out: Vec<usize> = Vec::new();
        let mut i: usize = 0;
        while i < self.rows.len()
            invariant
                i <= self.rows.len(),
                out@ == positions(self.records().subrange(0, i as int), under),
            decreases self.rows.len() - i,
        {
            proof {
                let upto = self.records().subrange(0, i + 1);
                assert(upto.drop_last() =~= self.records().subrange(0, i as int));
                assert(upto.last() == self.records()[i as int]);
            }
            if same_link(self.rows[i].root_task_id, under) {
                out.push(i);
            }
            i = i + 1;
        }
        assert(self.records().subrange(0, i as int) =~= self.records());
        out
    }
}

impl TaskRepository for MemoryTaskStore {
    open spec fn tasks(&self) -> TaskTable {
        table_of(self.records())
    }

    open spec fn root_listing(&self, field: SortField, descending: bool) -> Seq<TaskRecord> {
        picked(
            self.records(),
            arranged(keys_of(self.records(), field), positions(self.records(), None), descending),
        )
    }

    open spec fn wf(&self) -> bool {
        distinct_ids(self.records())
    }

    open spec fn dependable() -> bool {
        true
    }

    fn get_by_id(&self, id: u128) -> (r: Result<TaskEntity, Error>) {
        match self.find(id) {
            Some(i) => {
                proof {
                    lemma_table_at(self.records(), i as int);
                }
                Ok(self.rows[i].duplicate())
            },
            None => Err(Error::not_found(id)),
        }
    }

    fn insert(&mut self, entity: TaskEntity) -> (r: Result<(), Error>) {
        match self.find(entity.id) {
            Some(_) => Err(Error::DbError("a task with this id exists already".to_owned())),
            None => {
                let ghost before = self.records();
                let ghost record = entity@;
                self.rows.push(entity);
                proof {
                    let after = self.records();
                    assert(after =~= before.push(record));
                    assert(distinct_ids(after));
                    assert(table_of(after) =~= table_of(before).insert(record.id, record)) by {
                        assert forall|id: u128| table_of(after).contains_key(id) <==> (table_of(
                            before,
                        ).contains_key(id) || id == record.id) by {
                            if holds(before, id) {
                                let k = choose|k: int|
                                    0 <= k < before.len() && (#[trigger] before[k]).id == id;
                                assert(after[k].id == id);
                            }
                            if id == record.id {
                                assert(after[before.len() as int].id == id);
                            }
                            if holds(after, id) {
                                let k = choose|k: int|
                                    0 <= k < after.len() && (#[trigger] after[k]).id == id;
                                if k < before.len() {
                                    assert(before[k].id == id);
                                }
                            }
                        }
                        assert forall|id: u128| table_of(after).contains_key(id) implies table_of(
                            after,
                        )[id] == table_of(before).insert(record.id, record)[id] by {
                            lemma_table_rows(after, id);
                            let k = place(after, id);
                            if k < before.len() {
                                lemma_table_at(before, k);
                            }
                        }
                    }
                }
                Ok(())
            },
        }
    }

    fn delete(&mut self, id: u128) -> (r: Result<(), Error>) {
        match self.find(id) {
            None => Err(Error::not_found(id)),
            Some(i) => {
                let ghost before = self.records();
                self.rows.remove(i);
                proof {
                    let after = self.records();
                    assert(after =~= before.remove(i as int));
                    assert(distinct_ids(after)) by {
                        assert forall|a: int, b: int| 0 <= a < b < after.len() implies (
                        #[trigger] after[a]).id != (#[trigger] after[b]).id by {
                            let x = if a < i { a } else { a + 1 };
                            let y = if b < i { b } else { b + 1 };
                            assert(before[x].id != before[y].id);
                        }
                    }
                    lemma_table_at(before, i as int);
                    assert(table_of(after) =~= table_of(before).remove(id)) by {
                        assert forall|k: u128| table_of(after).contains_key(k) <==> (table_of(
                            before,
                        ).contains_key(k) && k != id) by {
                            if holds(after, k) {
                                let a = choose|a: int|
                                    0 <= a < after.len() && (#[trigger] after[a]).id == k;
                                let x = if a < i { a } else { a + 1 };
                                assert(before[x].id == k);
                                if x < i {
                                    assert(before[x].id != before[i as int].id);
                                } else {
                                    assert(before[i as int].id != before[x].id);
                                }
                            }
                            if holds(before, k) && k != id {
                                let x = choose|x: int|
                                    0 <= x < before.len() && (#[trigger] before[x]).id == k;
                                let a = if x < i { x } else { x - 1 };
                                assert(after[a].id == k);
                            }
                        }
                        assert forall|k: u128| table_of(after).contains_key(k) implies table_of(
                            after,
                        )[k] == table_of(before)[k] by {
                            lemma_table_rows(after, k);
                            let a = place(after, k);
                            let x = if a < i { a } else { a + 1 };
                            lemma_table_at(before, x);
                        }
                    }
                }
                Ok(())
            },
        }
    }

    fn get_subtasks(&self, task_id: u128) -> (r: Result<Vec<TaskEntity>, Error>) {
        let order = self.select(Some(task_id));
        let ghost rows = self.records();
        proof {
            assert(rows.len() == self.rows.len());
            lemma_positions(rows, Some(task_id));
            lemma_picked_lists(rows, order@, Some(task_id));
        }
        let mut out: Vec<TaskEntity> = Vec::new();
        let mut k: usize = 0;
        while k < order.len()
            invariant
                k <= order.len(),
                rows == self.records(),
                forall|j: int| 0 <= j < order.len() ==> (#[trigger] order@[j]) < rows.len(),
                out.len() == k,
                forall|j: int| 0 <= j < k ==> (#[trigger] out@[j])@ == rows[order@[j] as int],
            decreases order.len() - k,
        {
            out.push(self.rows[order[k]].duplicate());
            k = k + 1;
        }
        assert(task_records(out@) =~= picked(rows, order@));
        Ok(out)
    }

    fn get_root_task_batch(&self, take: u32, offset: u64, sort_by: &str, descending: bool) -> (r:
        Result<Vec<TaskEntity>, Error>) {
        let field = match parse_sort_field(sort_by) {
            Some(field) => field,
            None => {
                return Err(Error::invalid_input("unknown sort field"));
            },
        };
        proof {
            self.root_listing_lists_roots(field, descending);
        }
        let order = self.listing_order(field, descending);
        let (start, end) = page_range(order.len(), offset, take);
        let ghost rows = self.records();
        let mut out: Vec<TaskEntity> = Vec::new();
        let mut k: usize = start;
        while k < end
            invariant
                start <= k <= end <= order.len(),
                rows == self.records(),
                forall|j: int| 0 <= j < order.len() ==> (#[trigger] order@[j]) < rows.len(),
                out.len() == k - start,
                forall|j: int|
                    0 <= j < k - start ==> (#[trigger] out@[j])@ == rows[order@[start + j] as int],
            decreases end - k,
        {
            out.push(self.rows[order[k]].duplicate());
            k = k + 1;
        }
        assert(task_records(out@) =~= picked(rows, order@).subrange(start as int, end as int));
        Ok(out)
    }

    fn search_tasks(&self, phrase: &str, take: u32, offset: u64) -> (r: Result<
        Vec<TaskSearchEntity>,
        Error,
    >) {
        proof {
            self.root_listing_lists_roots(SortField::CreateDate, false);
        }
        let order = self.listing_order(SortField::CreateDate, false);
        let wanted = chars_of(phrase);
        let ghost rows = self.records();
        let ghost listing = picked(rows, order@);
        let mut found: Vec<usize> = Vec::new();
        let mut i: usize = 0;
        while i < order.len()
            invariant
                i <= order.len(),
                rows == self.records(),
                listing == picked(rows, order@),
                wanted@ == phrase@,
                forall|j: int| 0 <= j < order.len() ==> (#[trigger] order@[j]) < rows.len(),
                forall|j: int| 0 <= j < found.len() ==> (#[trigger] found@[j]) < rows.len(),
                found@.map_values(|p: usize| crate::search::search_record(rows[p as int]))
                    == search_results(listing.subrange(0, i as int), phrase@),
            decreases order.len() - i,
        {
            proof {
                let upto = listing.subrange(0, i + 1);
                assert(upto.drop_last() =~= listing.subrange(0, i as int));
                assert(upto.last() == rows[order@[i as int] as int]);
                lemma_search_results_step(upto, phrase@);
            }
            let ghost before = found@;
            if task_matches(&self.rows[order[i]], &wanted) {
                found.push(order[i]);
                assert(found@.map_values(|p: usize| crate::search::search_record(rows[p as int]))
                    =~= before.map_values(
                    |p: usize| crate::search::search_record(rows[p as int]),
                ).push(crate::search::search_record(rows[order@[i as int] as int])));
            }
            i = i + 1;
        }
        assert(listing.subrange(0, i as int) =~= listing);
        let (start, end) = page_range(found.len(), offset, take);
        let mut out: Vec<TaskSearchEntity> = Vec::new();
        let mut k: usize = start;
        while k < end
            invariant
                start <= k <= end <= found.len(),
                rows == self.records(),
                forall|j: int| 0 <= j < found.len() ==> (#[trigger] found@[j]) < rows.len(),
                out.len() == k - start,
                forall|j: int|
                    0 <= j < k - start ==> (#[trigger] out@[j])@ == crate::search::search_record(
                        rows[found@[start + j] as int],
                    ),
            decreases end - k,
        {
            out.push(to_search_entity(&self.rows[found[k]]));
            k = k + 1;
        }
        assert(search_records(out@) =~= found@.map_values(
            |p: usize| crate::search::search_record(rows[p as int]),
        ).subrange(start as int, end as int));
        Ok(out)
    }

    fn get_all_subtasks_recursive(&self, task_id: u128) -> (r: Result<Vec<u128>, Error>) {
        Ok(self.below(task_id))
    }

    fn update_task_root(&mut self, task_id: u128, new_root_id: Option<u128>) -> (r: Result<
        (),
        Error,
    >) {
        match self.find(task_id) {
            None => Err(Error::not_found(task_id)),
            Some(i) => {
                let ghost before = self.records();
                let mut row = self.rows[i].duplicate();
                row.root_task_id = new_root_id;
                let ghost record = row@;
                self.rows.set(i, row);
                proof {
                    lemma_table_at(before, i as int);
                    assert(self.records() =~= before.update(i as int, record));
                    lemma_row_replaced(before, self.records(), i as int, record);
                }
                Ok(())
            },
        }
    }

    fn update_task(
        &mut self,
        id: u128,
        summary: &str,
        description: Option<&str>,
        due_date: Timestamp,
        priority: TaskPriority,
        status: TaskStatus,
    ) -> (r: Result<(), Error>) {
        match self.find(id) {
            None => Err(Error::not_found(id)),
            Some(i) => {
                let ghost before = self.records();
                let row = TaskEntity {
                    id,
                    root_task_id: self.rows[i].root_task_id,
                    summary: summary.to_owned(),
                    description: to_opt_string(description),
                    create_date: self.rows[i].create_date,
                    due_date,
                    priority,
                    status,
                };
                let ghost record = row@;
                self.rows.set(i, row);
                proof {
                    lemma_table_at(before, i as int);
                    assert(self.records() =~= before.update(i as int, record));
                    lemma_row_replaced(before, self.records(), i as int, record);
                }
                Ok(())
            },
        }
    }
}

/// Replacing a row by one with the same id replaces the table's task of
/// that id and leaves the ids distinct.
pub proof fn lemma_row_replaced(
    before: Seq<TaskRecord>,
    after: Seq<TaskRecord>,
    i: int,
    record: TaskRecord,
)
    requires
        distinct_ids(before),
        0 <= i < before.len(),
        record.id == before[i].id,
        after == before.update(i, record),
    ensures
        distinct_ids(after),
        table_of(after) == table_of(before).insert(record.id, record),
{
    assert forall|a: int, b: int| 0 <= a < b < after.len() implies (#[trigger] after[a]).id != (
    #[trigger] after[b]).id by {
        assert(before[a].id != before[b].id);
    }
    assert forall|id: u128| table_of(after).contains_key(id) <==> table_of(before).contains_key(
        id,
    ) by {
        if holds(after, id) {
            let k = choose|k: int| 0 <= k < after.len() && (#[trigger] after[k]).id == id;
            assert(before[k].id == id);
        }
        if holds(before, id) {
            let k = choose|k: int| 0 <= k < before.len() && (#[trigger] before[k]).id == id;
            assert(after[k].id == id);
        }
    }
    lemma_table_at(before, i);
    assert forall|id: u128| table_of(after).contains_key(id) implies table_of(after)[id]
        == table_of(before).insert(record.id, record)[id] by {
        lemma_table_rows(after, id);
        let k = place(after, id);
        lemma_table_at(after, k);
        if k != i {
            lemma_table_at(before, k);
        }
    }
    assert(table_of(after) =~= table_of(before).insert(record.id, record));
}

/// The keys of the entries for a listing by time.
pub open spec fn time_keys(entries: Seq<LogRecord>) -> Seq<SortKey> {
    entries.map_values(|e: LogRecord| (e.timestamp, 0i64))
}

/// A store of audit entries that keeps its rows in memory, in the order in
/// which they were written.
pub struct MemoryLogStore {
    rows: Vec<LogEntity>,
}

impl MemoryLogStore {
    /// The rows of the store.
    pub closed spec fn records(&self) -> Seq<LogRecord> {
        log_records(self.rows@)
    }

    /// An empty store.
    pub fn new() -> (s: MemoryLogStore)
        ensures
            s.wf(),
            s.entries() == Seq::<LogRecord>::empty(),
    {
        let s = MemoryLogStore { rows: Vec::new() };
        assert(s.records() =~= Seq::<LogRecord>::empty());
        s
    }

    /// A listing by time holds the entries of the store, each as often as
    /// the store holds it, sorted by their timestamps.
    pub proof fn by_time_lists_entries(&self, descending: bool)
        requires
            self.wf(),
        ensures
            lists_by_time(self.by_time(descending), self.entries(), descending),
    {
        let rows = self.records();
        let keys = time_keys(rows);
        let order = arranged(keys, all_places(rows.len()), descending);
        lemma_arranged_picks_all(rows, keys, rows.len(), descending);
        assert(rows.subrange(0, rows.len() as int) =~= rows);
        lemma_arranged(keys, all_places(rows.len()), descending);
        let list = self.by_time(descending);
        assert forall|i: int, j: int| 0 <= i < j < list.len() implies if descending {
            (#[trigger] list[i]).timestamp >= (#[trigger] list[j]).timestamp
        } else {
            list[i].timestamp <= list[j].timestamp
        } by {
            assert(order.contains(order[i]));
            assert(order.contains(order[j]));
            assert(all_places(rows.len()).contains(order[i]));
            assert(all_places(rows.len()).contains(order[j]));
            assert(crate::sorting::keys_in_order(
                descending,
                keys[order[i] as int],
                keys[order[j] as int],
            ));
        }
    }

    /// The places of the rows in the order of a listing by time.
    fn listing_order(&self, descending: bool) -> (order: Vec<usize>)
        ensures
            order@ == arranged(
                time_keys(self.records()),
                all_places(self.records().len()),
                descending,
            ),
            forall|j: int| 0 <= j < order.len() ==> (#[trigger] order@[j]) < self.records().len(),
    {
        let mut keys: Vec<SortKey> = Vec::new();
        let mut all: Vec<usize> = Vec::new();
        let mut i: usize = 0;
        while i < self.rows.len()
            invariant
                i <= self.rows.len(),
                keys.len() == i,
                all.len() == i,
                forall|k: int| 0 <= k < i ==> (#[trigger] keys@[k]) == (self.records()[k].timestamp, 0i64),
                forall|k: int| 0 <= k < i ==> (#[trigger] all@[k]) == k,
            decreases self.rows.len() - i,
        {
            keys.push((self.rows[i].timestamp, 0));
            all.push(i);
            i = i + 1;
        }
        assert(keys@ =~= time_keys(self.records()));
        assert(all@ =~= all_places(self.records().len()));
        arrange(&keys, &all, descending)
    }

    /// Copies of the rows at the places `kept[start..end]`.
    fn copy_rows(&self, kept: &Vec<usize>, start: usize, end: usize) -> (out: Vec<LogEntity>)
        requires
            start <= end <= kept.len(),
            forall|j: int| 0 <= j < kept.len() ==> (#[trigger] kept@[j]) < self.records().len(),
        ensures
            log_records(out@) == picked(self.records(), kept@).subrange(start as int, end as int),
    {
        let mut out: Vec<LogEntity> = Vec::new();
        let mut k: usize = start;
        while k < end
            invariant
                start <= k <= end <= kept.len(),
                forall|j: int| 0 <= j < kept.len() ==> (#[trigger] kept@[j]) < self.records().len(),
                out.len() == k - start,
                forall|j: int|
                    0 <= j < k - start ==> (#[trigger] out@[j])@ == self.records()[kept@[start
                        + j] as int],
            decreases end - k,
        {
            out.push(self.rows[kept[k]].duplicate());
            k = k + 1;
        }
        assert(log_records(out@) =~= picked(self.records(), kept@).subrange(
            start as int,
            end as int,
        ));
        out
    }
}

impl LogRepository for MemoryLogStore {
    open spec fn entries(&self) -> Seq<LogRecord> {
        self.records()
    }

    open spec fn by_time(&self, descending: bool) -> Seq<LogRecord> {
        picked(
            self.records(),
            arranged(time_keys(self.records()), all_places(self.records().len()), descending),
        )
    }

    open spec fn wf(&self) -> bool {
        self.records().len() <= usize::MAX
    }

    open spec fn dependable() -> bool {
        true
    }

    fn insert(&mut self, entity: LogEntity) -> (stored: bool) {
        let ghost before = self.records();
        let ghost record = entity@;
        self.rows.push(entity);
        proof {
            assert(self.records() =~= before.push(record));
            assert(self.records().len() == self.rows.len());
        }
        true
    }

    fn get_batch_by_entity_type(
        &self,
        entity_type: &str,
        offset: u64,
        take: u32,
        descending: bool,
    ) -> (r: Result<Vec<LogEntity>, Error>) {
        proof {
            self.by_time_lists_entries(descending);
        }
        let order = self.listing_order(descending);
        let ghost rows = self.records();
        let ghost listing = picked(rows, order@);
        let mut kept: Vec<usize> = Vec::new();
        let mut i: usize = 0;
        while i < order.len()
            invariant
                i <= order.len(),
                rows == self.records(),
                listing == picked(rows, order@),
                forall|j: int| 0 <= j < order.len() ==> (#[trigger] order@[j]) < rows.len(),
                forall|j: int| 0 <= j < kept.len() ==> (#[trigger] kept@[j]) < rows.len(),
                picked(rows, kept@) == of_entity_type(listing.subrange(0, i as int), entity_type@),
            decreases order.len() - i,
        {
            proof {
                let upto = listing.subrange(0, i + 1);
                assert(upto.drop_last() =~= listing.subrange(0, i as int));
                assert(upto.last() == rows[order@[i as int] as int]);
                lemma_of_entity_type_step(upto, entity_type@);
            }
            let ghost before = kept@;
            let tagged = match &self.rows[order[i]].entity_type {
                Some(t) => same_text(t.as_str(), entity_type),
                None => false,
            };
            if tagged {
                kept.push(order[i]);
                assert(picked(rows, kept@) =~= picked(rows, before).push(
                    rows[order@[i as int] as int],
                ));
            }
            i = i + 1;
        }
        assert(listing.subrange(0, i as int) =~= listing);
        let (start, end) = page_range(kept.len(), offset, take);
        Ok(self.copy_rows(&kept, start, end))
    }

    fn get_batch_by_entity(&self, entity_id: u128, offset: u64, take: u32, descending: bool) -> (r:
        Result<Vec<LogEntity>, Error>) {
        proof {
            self.by_time_lists_entries(descending);
        }
        let order = self.listing_order(descending);
        let ghost rows = self.records();
        let ghost listing = picked(rows, order@);
        let mut kept: Vec<usize> = Vec::new();
        let mut i: usize = 0;
        while i < order.len()
            invariant
                i <= order.len(),
                rows == self.records(),
                listing == picked(rows, order@),
                forall|j: int| 0 <= j < order.len() ==> (#[trigger] order@[j]) < rows.len(),
                forall|j: int| 0 <= j < kept.len() ==> (#[trigger] kept@[j]) < rows.len(),
                picked(rows, kept@) == of_entity(listing.subrange(0, i as int), entity_id),
            decreases order.len() - i,
        {
            proof {
                let upto = listing.subrange(0, i + 1);
                assert(upto.drop_last() =~= listing.subrange(0, i as int));
                assert(upto.last() == rows[order@[i as int] as int]);
                lemma_of_entity_step(upto, entity_id);
            }
            let ghost before = kept@;
            if same_link(self.rows[order[i]].entity_id, Some(entity_id)) {
                kept.push(order[i]);
                assert(picked(rows, kept@) =~= picked(rows, before).push(
                    rows[order@[i as int] as int],
                ));
            }
            i = i + 1;
        }
        assert(listing.subrange(0, i as int) =~= listing);
        let (start, end) = page_range(kept.len(), offset, take);
        Ok(self.copy_rows(&kept, start, end))
    }
}

} // verus!
