//! The fields by which a listing of tasks can be sorted.

use vstd::prelude::*;
use crate::enums::{TaskPriority, TaskStatus};
use crate::models::{TaskEntity, TaskRecord};
use crate::text::same_text;

verus! {

/// A field that a listing can be sorted by.
#[derive(Clone, Copy, Debug, PartialEq, Eq, Structural)]
pub enum SortField {
    CreateDate,
    DueDate,
    Priority,
    Status,
}

/// The name under which a caller asks for a field.
pub open spec fn field_name(f: SortField) -> Seq<char> {
    match f {
        SortField::CreateDate => "CreateDate"@,
        SortField::DueDate => "DueDate"@,
        SortField::Priority => "Priority"@,
        SortField::Status => "Status"@,
    }
}

/// The field that `name` asks for, if it is the name of one.
pub open spec fn sort_field(name: Seq<char>) -> Option<SortField> {
    if name == "CreateDate"@ {
        Some(SortField::CreateDate)
    } else if name == "DueDate"@ {
        Some(SortField::DueDate)
    } else if name == "Priority"@ {
        Some(SortField::Priority)
    } else if name == "Status"@ {
        Some(SortField::Status)
    } else {
        None
    }
}

/// The place of a priority among the priorities, lowest first.
pub open spec fn priority_rank(p: TaskPriority) -> int {
    match p {
        TaskPriority::Low => 0,
        TaskPriority::Normal => 1,
        TaskPriority::High => 2,
        TaskPriority::Urgent => 3,
    }
}

/// The place of a status among the statuses.
pub open spec fn status_rank(s: TaskStatus) -> int {
    match s {
        TaskStatus::Reserved => 0,
        TaskStatus::Ongoing => 1,
        TaskStatus::Done => 2,
        TaskStatus::Pending => 3,
    }
}

/// A sort key: two numbers, of which the first counts first.
pub type SortKey = (i64, i64);

/// The key by which a task is placed in a listing by `field`.
pub open spec fn sort_key(field: SortField, task: TaskRecord) -> SortKey {
    match field {
        SortField::CreateDate => (task.create_date.seconds, task.create_date.nanos as i64),
        SortField::DueDate => (task.due_date.seconds, task.due_date.nanos as i64),
        SortField::Priority => (priority_rank(task.priority) as i64, 0i64),
        SortField::Status => (status_rank(task.status) as i64, 0i64),
    }
}

/// Whether key `a` is at most key `b`.
pub open spec fn key_le(a: SortKey, b: SortKey) -> bool {
    a.0 < b.0 || (a.0 == b.0 && a.1 <= b.1)
}

/// Whether a row with key `a` may stand before one with key `b` in the
/// given direction.
pub open spec fn keys_in_order(descending: bool, a: SortKey, b: SortKey) -> bool {
    if descending {
        key_le(b, a)
    } else {
        key_le(a, b)
    }
}

/// Whether `a` may stand before `b` in a listing by `field` in the given
/// direction.
pub open spec fn in_order(field: SortField, descending: bool, a: TaskRecord, b: TaskRecord)
    -> bool {
    keys_in_order(descending, sort_key(field, a), sort_key(field, b))
}

/// Whether a listing is sorted by `field` in the given direction.
pub open spec fn sorted(list: Seq<TaskRecord>, field: SortField, descending: bool) -> bool {
    forall|i: int, j: int|
        0 <= i < j < list.len() ==> in_order(
            field,
            descending,
            #[trigger] list[i],
            #[trigger] list[j],
        )
}

/// Whether `order` names rows of `keys` only.
pub open spec fn within(keys: Seq<SortKey>, order: Seq<usize>) -> bool {
    forall|k: int| 0 <= k < order.len() ==> (#[trigger] order[k]) < keys.len()
}

/// Whether the rows that `order` names stand in the order of their keys.
pub open spec fn arranged_by_key(keys: Seq<SortKey>, order: Seq<usize>, descending: bool)
    -> bool {
    forall|i: int, j: int|
        0 <= i < j < order.len() ==> keys_in_order(
            descending,
            keys[(#[trigger] order[i]) as int],
            keys[(#[trigger] order[j]) as int],
        )
}

/// `order` with the row `x` put in behind the last row that may stand
/// before it.
pub open spec fn placed(keys: Seq<SortKey>, order: Seq<usize>, x: usize, descending: bool)
    -> Seq<usize>
    decreases order.len(),
{
    if order.len() == 0 {
        seq![x]
    } else if keys_in_order(descending, keys[order.last() as int], keys[x as int]) {
        order.push(x)
    } else {
        placed(keys, order.drop_last(), x, descending).push(order.last())
    }
}

/// The rows that `rows` names, in the order of their keys. Rows with
/// equal keys keep the order in which `rows` names them.
pub open spec fn arranged(keys: Seq<SortKey>, rows: Seq<usize>, descending: bool) -> Seq<usize>
    decreases rows.len(),
{
    if rows.len() == 0 {
        Seq::empty()
    } else {
        placed(keys, arranged(keys, rows.drop_last(), descending), rows.last(), descending)
    }
}

/// Putting a row in is an insertion at the place behind which no row may
/// stand before it.
pub proof fn lemma_placed_at(
    keys: Seq<SortKey>,
    order: Seq<usize>,
    x: usize,
    descending: bool,
    p: int,
)
    requires
        0 <= p <= order.len(),
        forall|k: int|
            p <= k < order.len() ==> !keys_in_order(
                descending,
                keys[(#[trigger] order[k]) as int],
                keys[x as int],
            ),
        p > 0 ==> keys_in_order(descending, keys[order[p - 1] as int], keys[x as int]),
    ensures
        placed(keys, order, x, descending) == order.insert(p, x),
    decreases order.len(),
{
    if order.len() == 0 {
        assert(order.insert(p, x) =~= seq![x]);
    } else if p == order.len() {
        assert(order.insert(p, x) =~= order.push(x));
    } else {
        assert(!keys_in_order(descending, keys[order[order.len() - 1] as int], keys[x as int]));
        lemma_placed_at(keys, order.drop_last(), x, descending, p);
        assert(order.drop_last().insert(p, x).push(order.last()) =~= order.insert(p, x));
    }
}

/// Putting a row into rows that stand in order leaves them in order, adds
/// that row and no other, and takes none away.
pub proof fn lemma_placed(keys: Seq<SortKey>, order: Seq<usize>, x: usize, descending: bool)
    requires
        arranged_by_key(keys, order, descending),
    ensures
        arranged_by_key(keys, placed(keys, order, x, descending), descending),
        placed(keys, order, x, descending).len() == order.len() + 1,
        forall|v: usize|
            #![trigger placed(keys, order, x, descending).contains(v)]
            #![trigger order.contains(v)]
            placed(keys, order, x, descending).contains(v) <==> (order.contains(v) || v == x),
        order.no_duplicates() && !order.contains(x) ==> placed(
            keys,
            order,
            x,
            descending,
        ).no_duplicates(),
    decreases order.len(),
{
    let out = placed(keys, order, x, descending);
    if order.len() == 0 {
        assert(out[0] == x);
    } else if keys_in_order(descending, keys[order.last() as int], keys[x as int]) {
        assert forall|v: usize| out.contains(v) <==> (order.contains(v) || v == x) by {
            if order.contains(v) {
                let k = choose|k: int| 0 <= k < order.len() && order[k] == v;
                assert(out[k] == v);
            }
            if v == x {
                assert(out[order.len() as int] == x);
            }
        }
        assert forall|i: int, j: int| 0 <= i < j < out.len() implies keys_in_order(
            descending,
            keys[(#[trigger] out[i]) as int],
            keys[(#[trigger] out[j]) as int],
        ) by {
            if j == order.len() && i < order.len() - 1 {
                assert(keys_in_order(
                    descending,
                    keys[order[i] as int],
                    keys[order[order.len() - 1] as int],
                ));
            }
        }
    } else {
        let rest = order.drop_last();
        let last = order.last();
        lemma_placed(keys, rest, x, descending);
        let inner = placed(keys, rest, x, descending);
        assert(out == inner.push(last));
        assert forall|v: usize| out.contains(v) <==> (order.contains(v) || v == x) by {
            if out.contains(v) {
                let k = choose|k: int| 0 <= k < out.len() && out[k] == v;
                if k < inner.len() {
                    assert(inner.contains(v));
                    if rest.contains(v) {
                        let m = choose|m: int| 0 <= m < rest.len() && rest[m] == v;
                        assert(order[m] == v);
                    }
                } else {
                    assert(order[order.len() - 1] == v);
                }
            }
            if order.contains(v) {
                let k = choose|k: int| 0 <= k < order.len() && order[k] == v;
                if k < rest.len() {
                    assert(rest[k] == v);
                    assert(rest.contains(v));
                    assert(inner.contains(v));
                    let m = choose|m: int| 0 <= m < inner.len() && inner[m] == v;
                    assert(out[m] == v);
                } else {
                    assert(out[inner.len() as int] == v);
                }
            }
            if v == x {
                assert(inner.contains(x));
                let m = choose|m: int| 0 <= m < inner.len() && inner[m] == x;
                assert(out[m] == x);
            }
        }
        assert forall|i: int, j: int| 0 <= i < j < out.len() implies keys_in_order(
            descending,
            keys[(#[trigger] out[i]) as int],
            keys[(#[trigger] out[j]) as int],
        ) by {
            if j == inner.len() {
                assert(inner.contains(inner[i]));
                if inner[i] != x {
                    assert(rest.contains(inner[i]));
                    let m = choose|m: int| 0 <= m < rest.len() && rest[m] == inner[i];
                    assert(order[m] == inner[i]);
                    assert(keys_in_order(
                        descending,
                        keys[order[m] as int],
                        keys[order[order.len() - 1] as int],
                    ));
                }
            }
        }
        if order.no_duplicates() && !order.contains(x) {
            assert(rest.no_duplicates()) by {
                assert forall|i: int, j: int|
                    0 <= i < rest.len() && 0 <= j < rest.len() && i != j implies rest[i]
                    != rest[j] by {
                    assert(order[i] != order[j]);
                }
            }
            assert(!rest.contains(x)) by {
                if rest.contains(x) {
                    let m = choose|m: int| 0 <= m < rest.len() && rest[m] == x;
                    assert(order[m] == x);
                }
            }
            assert(!inner.contains(last)) by {
                if inner.contains(last) {
                    assert(rest.contains(last) || last == x);
                    if rest.contains(last) {
                        let m = choose|m: int| 0 <= m < rest.len() && rest[m] == last;
                        assert(order[m] == order[order.len() - 1]);
                    } else {
                        assert(order[order.len() - 1] == x);
                    }
                }
            }
            assert forall|i: int, j: int|
                0 <= i < out.len() && 0 <= j < out.len() && i != j implies out[i] != out[j] by {
                if i < inner.len() && j < inner.len() {
                    assert(inner[i] != inner[j]);
                } else if i < inner.len() {
                    assert(inner.contains(inner[i]));
                } else {
                    assert(inner.contains(inner[j]));
                }
            }
        }
    }
}

/// Arranging rows by their keys puts them in order and is a
/// rearrangement: it names the same rows, each as often as before.
pub proof fn lemma_arranged(keys: Seq<SortKey>, rows: Seq<usize>, descending: bool)
    ensures
        arranged_by_key(keys, arranged(keys, rows, descending), descending),
        arranged(keys, rows, descending).len() == rows.len(),
        forall|v: usize|
            #![trigger arranged(keys, rows, descending).contains(v)]
            #![trigger rows.contains(v)]
            arranged(keys, rows, descending).contains(v) <==> rows.contains(v),
        rows.no_duplicates() ==> arranged(keys, rows, descending).no_duplicates(),
    decreases rows.len(),
{
    let out = arranged(keys, rows, descending);
    if rows.len() > 0 {
        let rest = rows.drop_last();
        let last = rows.last();
        let inner = arranged(keys, rest, descending);
        lemma_arranged(keys, rest, descending);
        lemma_placed(keys, inner, last, descending);
        assert forall|v: usize| out.contains(v) <==> rows.contains(v) by {
            if rest.contains(v) {
                let m = choose|m: int| 0 <= m < rest.len() && rest[m] == v;
                assert(rows[m] == v);
            }
            if rows.contains(v) {
                let k = choose|k: int| 0 <= k < rows.len() && rows[k] == v;
                if k < rest.len() {
                    assert(rest[k] == v);
                }
            }
        }
        if rows.no_duplicates() {
            assert(rest.no_duplicates()) by {
                assert forall|i: int, j: int|
                    0 <= i < rest.len() && 0 <= j < rest.len() && i != j implies rest[i]
                    != rest[j] by {
                    assert(rows[i] != rows[j]);
                }
            }
            assert(!inner.contains(last)) by {
                if rest.contains(last) {
                    let m = choose|m: int| 0 <= m < rest.len() && rest[m] == last;
                    assert(rows[m] == rows[rows.len() - 1]);
                }
            }
        }
    }
}

/// The rows at the given places.
pub open spec fn picked<T>(rows: Seq<T>, order: Seq<usize>) -> Seq<T> {
    order.map_values(|i: usize| rows[i as int])
}

/// The places of the first `n` rows.
pub open spec fn all_places(n: nat) -> Seq<usize> {
    Seq::new(n, |i: int| i as usize)
}

/// Putting a row in adds that row to the rows picked, and nothing else.
pub proof fn lemma_placed_picks<T>(
    rows: Seq<T>,
    keys: Seq<SortKey>,
    order: Seq<usize>,
    x: usize,
    descending: bool,
)
    ensures
        picked(rows, placed(keys, order, x, descending)).to_multiset() == picked(
            rows,
            order,
        ).to_multiset().insert(rows[x as int]),
    decreases order.len(),
{
    broadcast use vstd::seq_lib::to_multiset_build;

    let out = placed(keys, order, x, descending);
    if order.len() == 0 {
        assert(picked(rows, out) =~= picked(rows, order).push(rows[x as int]));
    } else if keys_in_order(descending, keys[order.last() as int], keys[x as int]) {
        assert(picked(rows, out) =~= picked(rows, order).push(rows[x as int]));
    } else {
        let rest = order.drop_last();
        let last = order.last();
        lemma_placed_picks(rows, keys, rest, x, descending);
        let inner = placed(keys, rest, x, descending);
        assert(picked(rows, out) =~= picked(rows, inner).push(rows[last as int]));
        assert(picked(rows, order) =~= picked(rows, rest).push(rows[last as int]));
        assert(picked(rows, rest).to_multiset().insert(rows[x as int]).insert(rows[last as int])
            =~= picked(rows, rest).to_multiset().insert(rows[last as int]).insert(
            rows[x as int],
        ));
    }
}

/// Arranging the first `n` rows picks those rows again, each as often as
/// it stands among them.
pub proof fn lemma_arranged_picks_all<T>(
    rows: Seq<T>,
    keys: Seq<SortKey>,
    n: nat,
    descending: bool,
)
    requires
        n <= rows.len() <= usize::MAX,
    ensures
        picked(rows, arranged(keys, all_places(n), descending)).to_multiset() == rows.subrange(
            0,
            n as int,
        ).to_multiset(),
    decreases n,
{
    broadcast use vstd::seq_lib::to_multiset_build;

    if n == 0 {
        assert(picked(rows, arranged(keys, all_places(n), descending)) =~= rows.subrange(0, 0));
    } else {
        let m = (n - 1) as nat;
        lemma_arranged_picks_all(rows, keys, m, descending);
        assert(all_places(n).drop_last() =~= all_places(m));
        lemma_placed_picks(
            rows,
            keys,
            arranged(keys, all_places(m), descending),
            m as usize,
            descending,
        );
        assert(rows.subrange(0, n as int) =~= rows.subrange(0, m as int).push(rows[m as int]));
    }
}

/// Finds the field that `name` asks for. The names are matched exactly:
/// no other text ever reaches a store as a sort field.
pub fn parse_sort_field(name: &str) -> (r: Option<SortField>)
    ensures
        r == sort_field(name@),
{
    if same_text(name, "CreateDate") {
        Some(SortField::CreateDate)
    } else if same_text(name, "DueDate") {
        Some(SortField::DueDate)
    } else if same_text(name, "Priority") {
        Some(SortField::Priority)
    } else if same_text(name, "Status") {
        Some(SortField::Status)
    } else {
        None
    }
}

fn rank_of_priority(p: TaskPriority) -> (r: i64)
    ensures
        r == priority_rank(p),
{
    match p {
        TaskPriority::Low => 0,
        TaskPriority::Normal => 1,
        TaskPriority::High => 2,
        TaskPriority::Urgent => 3,
    }
}

fn rank_of_status(s: TaskStatus) -> (r: i64)
    ensures
        r == status_rank(s),
{
    match s {
        TaskStatus::Reserved => 0,
        TaskStatus::Ongoing => 1,
        TaskStatus::Done => 2,
        TaskStatus::Pending => 3,
    }
}

/// Computes the key by which a task is placed in a listing by `field`.
pub fn key_of(field: SortField, task: &TaskEntity) -> (key: SortKey)
    ensures
        key == sort_key(field, task@),
{
    match field {
        SortField::CreateDate => (task.create_date.seconds, task.create_date.nanos as i64),
        SortField::DueDate => (task.due_date.seconds, task.due_date.nanos as i64),
        SortField::Priority => (rank_of_priority(task.priority), 0),
        SortField::Status => (rank_of_status(task.status), 0),
    }
}

/// Decides whether a row with key `a` may stand before one with key `b`.
fn may_precede(descending: bool, a: SortKey, b: SortKey) -> (r: bool)
    ensures
        r == keys_in_order(descending, a, b),
{
    if descending {
        b.0 < a.0 || (b.0 == a.0 && b.1 <= a.1)
    } else {
        a.0 < b.0 || (a.0 == b.0 && a.1 <= b.1)
    }
}

/// Arranges the rows that `rows` names by their keys: an insertion sort
/// that keeps rows with equal keys in the order given.
pub fn arrange(keys: &Vec<SortKey>, rows: &Vec<usize>, descending: bool) -> (order: Vec<usize>)
    requires
        within(keys@, rows@),
    ensures
        order@ == arranged(keys@, rows@, descending),
        within(keys@, order@),
{
    let mut order: Vec<usize> = Vec::new();
    let mut n: usize = 0;
    while n < rows.len()
        invariant
            n <= rows.len(),
            within(keys@, rows@),
            within(keys@, order@),
            order@ == arranged(keys@, rows@.subrange(0, n as int), descending),
        decreases rows.len() - n,
    {
        let x = rows[n];
        let mut p: usize = order.len();
        while p > 0 && !may_precede(descending, keys[order[p - 1]], keys[x])
            invariant
                p <= order.len(),
                x < keys.len(),
                within(keys@, order@),
                forall|k: int|
                    p <= k < order.len() ==> !keys_in_order(
                        descending,
                        keys@[(#[trigger] order@[k]) as int],
                        keys@[x as int],
                    ),
            decreases p,
        {
            p = p - 1;
        }
        proof {
            lemma_placed_at(keys@, order@, x, descending, p as int);
            assert(rows@.subrange(0, n + 1).drop_last() =~= rows@.subrange(0, n as int));
        }
        order.insert(p, x);
        n = n + 1;
    }
    assert(rows@.subrange(0, n as int) =~= rows@);
    order
}

} // verus!
