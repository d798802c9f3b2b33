//! The forest of tasks: who stands under whom.
//!
//! A table of tasks maps each id to its task. A task's root link names the
//! task it stands under. Links may be chained to any depth: a task under a
//! task under a task. A link may also dangle, since deleting a task leaves
//! the links of its subtasks as they were; what hangs on a dangling link
//! is neither a root nor reachable from one.
//!
//! The one rule is that no task stands under itself, directly or through
//! others. Every change of a link that the task service makes keeps it:
//! see [`lemma_relink_keeps_acyclic`].

use vstd::prelude::*;
use crate::models::TaskRecord;

verus! {

/// A table of tasks, by id.
pub type TaskTable = Map<u128, TaskRecord>;

/// The task that `id` stands under: none for a root, and none for an id
/// that the table does not hold.
pub open spec fn root_link(tasks: TaskTable, id: u128) -> Option<u128> {
    if tasks.contains_key(id) {
        tasks[id].root_task_id
    } else {
        None
    }
}

/// Where `n` steps along the root links lead from `id`, if there are that
/// many.
pub open spec fn ancestor(tasks: TaskTable, id: u128, n: nat) -> Option<u128>
    decreases n,
{
    if n == 0 {
        Some(id)
    } else {
        match root_link(tasks, id) {
            Some(above) => ancestor(tasks, above, (n - 1) as nat),
            None => None,
        }
    }
}

/// Whether `id` stands under `of`, directly or through other tasks.
pub open spec fn is_descendant(tasks: TaskTable, of: u128, id: u128) -> bool {
    exists|n: nat| n >= 1 && #[trigger] ancestor(tasks, id, n) == Some(of)
}

/// Everything that stands under `of`.
pub open spec fn descendants(tasks: TaskTable, of: u128) -> Set<u128> {
    Set::new(|id: u128| is_descendant(tasks, of, id))
}

/// Whether no task stands under itself.
pub open spec fn acyclic(tasks: TaskTable) -> bool {
    forall|id: u128| !is_descendant(tasks, id, id)
}

/// The table after `id` was bound under `new_root`.
pub open spec fn rebound(tasks: TaskTable, id: u128, new_root: Option<u128>) -> TaskTable {
    tasks.insert(id, TaskRecord { root_task_id: new_root, ..tasks[id] })
}

/// Whether `list` names the tasks of the table whose root link is `under`:
/// each of them once, as the table has it, and no other. With no link
/// given, these are the roots.
pub open spec fn lists_exactly(list: Seq<TaskRecord>, tasks: TaskTable, under: Option<u128>)
    -> bool {
    &&& forall|i: int|
        0 <= i < list.len() ==> {
            &&& tasks.contains_key((#[trigger] list[i]).id)
            &&& tasks[list[i].id] == list[i]
            &&& list[i].root_task_id == under
        }
    &&& forall|i: int, j: int|
        0 <= i < j < list.len() ==> (#[trigger] list[i]).id != (#[trigger] list[j]).id
    &&& forall|id: u128|
        #[trigger] tasks.contains_key(id) && tasks[id].root_task_id == under ==> exists|i: int|
            0 <= i < list.len() && (#[trigger] list[i]).id == id
}

/// A table without tasks is a forest.
pub proof fn lemma_empty_is_acyclic()
    ensures
        acyclic(Map::<u128, TaskRecord>::empty()),
{
    let tasks = Map::<u128, TaskRecord>::empty();
    assert forall|id: u128| !is_descendant(tasks, id, id) by {
        if is_descendant(tasks, id, id) {
            let n = choose|n: nat| n >= 1 && #[trigger] ancestor(tasks, id, n) == Some(id);
            assert(ancestor(tasks, id, n) is None);
        }
    }
}

/// Steps along the root links add up.
pub proof fn lemma_ancestor_chain(tasks: TaskTable, id: u128, m: nat, mid: u128, n: nat)
    requires
        ancestor(tasks, id, m) == Some(mid),
    ensures
        ancestor(tasks, id, m + n) == ancestor(tasks, mid, n),
    decreases m,
{
    if m > 0 {
        let above = root_link(tasks, id)->Some_0;
        lemma_ancestor_chain(tasks, above, (m - 1) as nat, mid, n);
    }
}

/// What stands under a descendant stands under the task itself.
pub proof fn lemma_descendant_transitive(tasks: TaskTable, a: u128, b: u128, c: u128)
    requires
        is_descendant(tasks, a, b),
        is_descendant(tasks, b, c),
    ensures
        is_descendant(tasks, a, c),
{
    let m = choose|m: nat| m >= 1 && #[trigger] ancestor(tasks, c, m) == Some(b);
    let n = choose|n: nat| n >= 1 && #[trigger] ancestor(tasks, b, n) == Some(a);
    lemma_ancestor_chain(tasks, c, m, b, n);
    assert(ancestor(tasks, c, m + n) == Some(a));
}

/// A task with a root link stands under the task that the link names.
pub proof fn lemma_child_is_descendant(tasks: TaskTable, of: u128, id: u128)
    requires
        root_link(tasks, id) == Some(of),
    ensures
        is_descendant(tasks, of, id),
{
    assert(ancestor(tasks, of, 0) == Some(of));
    assert(ancestor(tasks, id, 1) == Some(of));
}

/// Whether two tables have the same root links, but for the link of `id`.
pub open spec fn links_differ_only_at(before: TaskTable, after: TaskTable, id: u128) -> bool {
    forall|x: u128| x != id ==> #[trigger] root_link(after, x) == root_link(before, x)
}

/// Whether two tables have the same root links.
pub open spec fn same_links(before: TaskTable, after: TaskTable) -> bool {
    forall|x: u128| #[trigger] root_link(after, x) == root_link(before, x)
}

/// Tables with the same root links have the same ancestors.
pub proof fn lemma_same_links(before: TaskTable, after: TaskTable, id: u128, n: nat)
    requires
        same_links(before, after),
    ensures
        ancestor(after, id, n) == ancestor(before, id, n),
    decreases n,
{
    if n > 0 {
        assert(root_link(after, id) == root_link(before, id));
        match root_link(before, id) {
            Some(above) => lemma_same_links(before, after, above, (n - 1) as nat),
            None => {},
        }
    }
}

/// A walk that reaches `id` in a table whose links differ only at `id`
/// reaches it in the other table too, and no later: up to its first
/// arrival at `id` it goes by links that are the same in both.
pub proof fn lemma_first_arrival(before: TaskTable, after: TaskTable, id: u128, x: u128, n: nat)
    requires
        links_differ_only_at(before, after, id),
        ancestor(after, x, n) == Some(id),
    ensures
        exists|m: nat| m <= n && #[trigger] ancestor(before, x, m) == Some(id),
    decreases n,
{
    if x == id {
        assert(ancestor(before, x, 0) == Some(id));
    } else {
        assert(root_link(after, x) == root_link(before, x));
        let above = root_link(before, x)->Some_0;
        lemma_first_arrival(before, after, id, above, (n - 1) as nat);
        let m = choose|m: nat| m <= n - 1 && #[trigger] ancestor(before, above, m) == Some(id);
        assert(ancestor(before, x, m + 1) == Some(id));
    }
}

/// A walk in a table whose links differ only at `id` is a walk in the
/// other table too, unless it passes `id` on its way.
pub proof fn lemma_walk_or_pass(before: TaskTable, after: TaskTable, id: u128, x: u128, n: nat)
    requires
        links_differ_only_at(before, after, id),
        ancestor(after, x, n) is Some,
    ensures
        ancestor(before, x, n) == ancestor(after, x, n) || exists|k: nat|
            k < n && #[trigger] ancestor(after, x, k) == Some(id),
    decreases n,
{
    if n > 0 {
        if x == id {
            assert(ancestor(after, x, 0) == Some(id));
        } else {
            assert(root_link(after, x) == root_link(before, x));
            let above = root_link(before, x)->Some_0;
            lemma_walk_or_pass(before, after, id, above, (n - 1) as nat);
            if ancestor(before, above, (n - 1) as nat) != ancestor(after, above, (n - 1) as nat) {
                let k = choose|k: nat|
                    k < n - 1 && #[trigger] ancestor(after, above, k) == Some(id);
                assert(ancestor(after, x, k + 1) == Some(id));
            }
        }
    }
}

/// Changing one root link keeps a forest a forest, as long as the task is
/// bound neither to itself nor to anything that stands under it. Taking
/// the link away is always sound.
pub proof fn lemma_relink_keeps_acyclic(
    before: TaskTable,
    after: TaskTable,
    id: u128,
    new_root: Option<u128>,
)
    requires
        acyclic(before),
        links_differ_only_at(before, after, id),
        root_link(after, id) == new_root,
        new_root != Some(id),
        new_root matches Some(root) ==> !is_descendant(before, id, root),
    ensures
        acyclic(after),
{
    assert forall|x: u128| !is_descendant(after, x, x) by {
        if is_descendant(after, x, x) {
            let n = choose|n: nat| n >= 1 && #[trigger] ancestor(after, x, n) == Some(x);
            lemma_walk_or_pass(before, after, id, x, n);
            if ancestor(before, x, n) == ancestor(after, x, n) {
                assert(is_descendant(before, x, x));
            } else {
                let k = choose|k: nat| k < n && #[trigger] ancestor(after, x, k) == Some(id);
                lemma_ancestor_chain(after, x, k, id, (n - k) as nat);
                assert(ancestor(after, id, (n - k) as nat) == Some(x));
                lemma_ancestor_chain(after, id, (n - k) as nat, x, k);
                assert(ancestor(after, id, n) == Some(id));
                let root = new_root->Some_0;
                assert(ancestor(after, root, (n - 1) as nat) == Some(id));
                lemma_first_arrival(before, after, id, root, (n - 1) as nat);
                let m = choose|m: nat|
                    m <= n - 1 && #[trigger] ancestor(before, root, m) == Some(id);
                assert(m >= 1) by {
                    if m == 0 {
                        assert(ancestor(before, root, 0) == Some(root));
                    }
                }
                assert(is_descendant(before, id, root));
            }
        }
    }
}

/// A table with the same root links is a forest if the other is.
pub proof fn lemma_same_links_keep_acyclic(before: TaskTable, after: TaskTable)
    requires
        acyclic(before),
        same_links(before, after),
    ensures
        acyclic(after),
{
    assert forall|x: u128| !is_descendant(after, x, x) by {
        if is_descendant(after, x, x) {
            let n = choose|n: nat| n >= 1 && #[trigger] ancestor(after, x, n) == Some(x);
            lemma_same_links(before, after, x, n);
            assert(is_descendant(before, x, x));
        }
    }
}

} // verus!
