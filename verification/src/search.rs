//! Searching tasks for a phrase.
//!
//! A task matches when the phrase occurs in its summary or in its
//! description, letter case aside. Case is folded for the letters `A` to
//! `Z` only.

use vstd::prelude::*;
use crate::models::{copy_opt_text, TaskEntity, TaskRecord, TaskSearchEntity, TaskSearchRecord};

verus! {

/// The character that stands for `c` when case is ignored.
pub open spec fn fold(c: char) -> char {
    if 'A' <= c <= 'Z' {
        ((c as u8) + 32) as char
    } else {
        c
    }
}

/// Whether `phrase` stands in `text` at position `k`, case aside.
pub open spec fn occurs_at(text: Seq<char>, phrase: Seq<char>, k: int) -> bool {
    &&& 0 <= k
    &&& k + phrase.len() <= text.len()
    &&& forall|j: int| 0 <= j < phrase.len() ==> fold(text[k + j]) == fold(#[trigger] phrase[j])
}

/// Whether `phrase` occurs somewhere in `text`, case aside.
pub open spec fn contains_phrase(text: Seq<char>, phrase: Seq<char>) -> bool {
    exists|k: int| occurs_at(text, phrase, k)
}

/// Whether a task matches a phrase.
pub open spec fn matches_phrase(task: TaskRecord, phrase: Seq<char>) -> bool {
    contains_phrase(task.summary, phrase) || match task.description {
        Some(d) => contains_phrase(d, phrase),
        None => false,
    }
}

/// What a search shows of a task.
pub open spec fn search_record(task: TaskRecord) -> TaskSearchRecord {
    TaskSearchRecord { id: task.id, summary: Some(task.summary), description: task.description }
}

/// The tasks of a listing that match a phrase, in the order of the
/// listing, as a search shows them.
pub open spec fn search_results(listing: Seq<TaskRecord>, phrase: Seq<char>) -> Seq<
    TaskSearchRecord,
> {
    listing.filter(|t: TaskRecord| matches_phrase(t, phrase)).map_values(
        |t: TaskRecord| search_record(t),
    )
}

/// A search shows no more tasks than the listing holds.
pub proof fn lemma_search_results_len(listing: Seq<TaskRecord>, phrase: Seq<char>)
    ensures
        search_results(listing, phrase).len() <= listing.len(),
{
    broadcast use vstd::seq_lib::group_filter_ensures;

}

/// A search goes through a listing row by row: the last row is shown
/// behind the results of the rows before it if it matches, and left out
/// if it does not.
pub proof fn lemma_search_results_step(listing: Seq<TaskRecord>, phrase: Seq<char>)
    ensures
        search_results(listing, phrase) == if listing.len() == 0 {
            Seq::<TaskSearchRecord>::empty()
        } else if matches_phrase(listing.last(), phrase) {
            search_results(listing.drop_last(), phrase).push(search_record(listing.last()))
        } else {
            search_results(listing.drop_last(), phrase)
        },
{
    reveal(Seq::filter);
    if listing.len() == 0 {
        assert(search_results(listing, phrase) =~= Seq::<TaskSearchRecord>::empty());
    } else if matches_phrase(listing.last(), phrase) {
        assert(search_results(listing, phrase) =~= search_results(
            listing.drop_last(),
            phrase,
        ).push(search_record(listing.last())));
    }
}

/// The records of a sequence of search results.
pub open spec fn search_records(s: Seq<TaskSearchEntity>) -> Seq<TaskSearchRecord> {
    s.map_values(|e: TaskSearchEntity| e@)
}

/// What a search shows of a task.
pub fn to_search_entity(task: &TaskEntity) -> (r: TaskSearchEntity)
    ensures
        r@ == search_record(task@),
{
    TaskSearchEntity {
        id: task.id,
        summary: Some(task.summary.clone()),
        description: copy_opt_text(&task.description),
    }
}

/// The character that stands for `c` when case is ignored.
pub fn fold_char(c: char) -> (r: char)
    ensures
        r == fold(c),
{
    if 'A' <= c && c <= 'Z' {
        ((c as u8) + 32) as char
    } else {
        c
    }
}

/// The characters of a string.
pub fn chars_of(s: &str) -> (v: Vec<char>)
    ensures
        v@ == s@,
{
    let n = s.unicode_len();
    let mut v: Vec<char> = Vec::new();
    let mut i: usize = 0;
    while i < n
        invariant
            n == s@.len(),
            i <= n,
            v@ == s@.subrange(0, i as int),
        decreases n - i,
    {
        v.push(s.get_char(i));
        assert(v@ =~= s@.subrange(0, i + 1));
        i = i + 1;
    }
    assert(s@.subrange(0, n as int) =~= s@);
    v
}

/// Decides whether `phrase` stands in `text` at position `k`.
fn stands_at(text: &Vec<char>, phrase: &Vec<char>, k: usize) -> (r: bool)
    requires
        k + phrase.len() <= text.len(),
    ensures
        r == occurs_at(text@, phrase@, k as int),
{
    let mut j: usize = 0;
    while j < phrase.len()
        invariant
            j <= phrase.len(),
            k + phrase.len() <= text.len(),
            forall|x: int| 0 <= x < j ==> fold(text@[k + x]) == fold(#[trigger] phrase@[x]),
        decreases phrase.len() - j,
    {
        if fold_char(text[k + j]) != fold_char(phrase[j]) {
            return false;
        }
        j = j + 1;
    }
    true
}

/// Decides whether `phrase` occurs somewhere in `text`, case aside.
pub fn text_contains(text: &Vec<char>, phrase: &Vec<char>) -> (r: bool)
    ensures
        r == contains_phrase(text@, phrase@),
{
    if phrase.len() > text.len() {
        return false;
    }
    let last = text.len() - phrase.len();
    let mut k: usize = 0;
    while k <= last
        invariant
            last == text.len() - phrase.len(),
            k <= last + 1,
            forall|x: int| 0 <= x < k ==> !occurs_at(text@, phrase@, x),
        decreases last + 1 - k,
    {
        if stands_at(text, phrase, k) {
            return true;
        }
        k = k + 1;
    }
    false
}

/// Decides whether a task matches a phrase.
pub fn task_matches(task: &TaskEntity, phrase: &Vec<char>) -> (r: bool)
    ensures
        r == matches_phrase(task@, phrase@),
{
    let summary = chars_of(task.summary.as_str());
    if text_contains(&summary, phrase) {
        return true;
    }
    match &task.description {
        Some(d) => {
            let description = chars_of(d.as_str());
            text_contains(&description, phrase)
        },
        None => false,
    }
}

} // verus!
