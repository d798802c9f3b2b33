//! What a caller sends along with a listing request, and the envelope in
//! which a page goes back.

use vstd::prelude::*;
use crate::errors::Error;
use crate::paging::{decimal_text, format_token};

verus! {

/// The page size of a request that names none.
pub const DEFAULT_TAKE: u32 = 20;

/// The status code that goes out with a failure: 404 for a missing
/// entity, 400 for a request that is refused as it stands, 500 for a
/// failure of the store.
pub open spec fn status_of(e: Error) -> u16 {
    match e {
        Error::EntityNotFound(_) => 404,
        Error::InvalidRootBinding(_) => 400,
        Error::InvalidInput(_) => 400,
        Error::DbError(_) => 500,
    }
}

/// The status code that goes out with a failure.
pub fn failure_status(e: &Error) -> (code: u16)
    ensures
        code == status_of(*e),
{
    match e {
        Error::EntityNotFound(_) => 404,
        Error::InvalidRootBinding(_) => 400,
        Error::InvalidInput(_) => 400,
        Error::DbError(_) => 500,
    }
}

/// The paging options of a request. Each is optional.
#[derive(Debug)]
pub struct Pagination {
    take: Option<i32>,
    continuation_token: Option<i32>,
    order_by: Option<String>,
    descending_sort: Option<bool>,
    descending: Option<bool>,
}

impl Pagination {
    /// The page size that was asked for.
    pub closed spec fn spec_take(&self) -> Option<i32> {
        self.take
    }

    /// The offset that was asked for.
    pub closed spec fn spec_continuation_token(&self) -> Option<i32> {
        self.continuation_token
    }

    /// The sort field that was asked for.
    pub closed spec fn spec_order_by(&self) -> Option<Seq<char>> {
        match self.order_by {
            Some(s) => Some(s@),
            None => None,
        }
    }

    /// The direction that was asked for, for a listing of tasks.
    pub closed spec fn spec_descending_sort(&self) -> Option<bool> {
        self.descending_sort
    }

    /// The direction that was asked for, for a listing of audit entries.
    pub closed spec fn spec_descending(&self) -> Option<bool> {
        self.descending
    }

    /// The options as given.
    pub fn new(
        take: Option<i32>,
        continuation_token: Option<i32>,
        order_by: Option<String>,
        descending_sort: Option<bool>,
        descending: Option<bool>,
    ) -> (p: Pagination)
        ensures
            p.spec_take() == take,
            p.spec_continuation_token() == continuation_token,
            p.spec_order_by() == match order_by {
                Some(s) => Some(s@),
                None => None::<Seq<char>>,
            },
            p.spec_descending_sort() == descending_sort,
            p.spec_descending() == descending,
    {
        Pagination { take, continuation_token, order_by, descending_sort, descending }
    }

    /// The page size that was asked for.
    pub fn take(&self) -> (r: Option<i32>)
        ensures
            r == self.spec_take(),
    {
        self.take
    }

    /// The offset that was asked for.
    pub fn continuation_token(&self) -> (r: Option<i32>)
        ensures
            r == self.spec_continuation_token(),
    {
        self.continuation_token
    }

    /// The sort field that was asked for.
    pub fn order_by(&self) -> (r: Option<&str>)
        ensures
            match r {
                Some(s) => self.spec_order_by() == Some(s@),
                None => self.spec_order_by() is None,
            },
    {
        match &self.order_by {
            Some(s) => Some(s.as_str()),
            None => None,
        }
    }

    /// The direction that was asked for, for a listing of tasks.
    pub fn descending_sort(&self) -> (r: Option<bool>)
        ensures
            r == self.spec_descending_sort(),
    {
        self.descending_sort
    }

    /// The direction that was asked for, for a listing of audit entries.
    pub fn descending(&self) -> (r: Option<bool>)
        ensures
            r == self.spec_descending(),
    {
        self.descending
    }

    /// The page size to list with: the one asked for, or
    /// [`DEFAULT_TAKE`] where none was. A negative size is refused.
    pub fn page_size(&self) -> (r: Result<u32, Error>)
        ensures
            match self.spec_take() {
                None => r == Ok::<u32, Error>(DEFAULT_TAKE),
                Some(t) => if t >= 0 {
                    r == Ok::<u32, Error>(t as u32)
                } else {
                    r is Err && r->Err_0 is InvalidInput
                },
            },
    {
        match self.take {
            None => Ok(DEFAULT_TAKE),
            Some(t) => if t >= 0 {
                Ok(t as u32)
            } else {
                Err(Error::invalid_input("take is negative"))
            },
        }
    }

    /// The continuation token to list with: that of the offset asked
    /// for, or of offset 0 where none was. A negative offset is refused.
    pub fn token(&self) -> (r: Result<String, Error>)
        ensures
            match self.spec_continuation_token() {
                None => r is Ok && r->Ok_0@ == decimal_text(0),
                Some(n) => if n >= 0 {
                    r is Ok && r->Ok_0@ == decimal_text(n as nat)
                } else {
                    r is Err && r->Err_0 is InvalidInput
                },
            },
    {
        match self.continuation_token {
            None => Ok(format_token(0)),
            Some(n) => if n >= 0 {
                Ok(format_token(n as u64))
            } else {
                Err(Error::invalid_input("continuation token is negative"))
            },
        }
    }

    /// The name of the field to sort tasks by: the one asked for, or the
    /// creation date where none was.
    pub fn sort_by(&self) -> (r: &str)
        ensures
            r@ == match self.spec_order_by() {
                Some(name) => name,
                None => "CreateDate"@,
            },
    {
        match &self.order_by {
            Some(name) => name.as_str(),
            None => "CreateDate",
        }
    }

    /// Whether tasks are listed downwards: only where that was asked for.
    pub fn sorts_descending(&self) -> (r: bool)
        ensures
            r == (self.spec_descending_sort() == Some(true)),
    {
        match self.descending_sort {
            Some(d) => d,
            None => false,
        }
    }

    /// Whether audit entries are listed downwards: only where that was
    /// asked for.
    pub fn lists_descending(&self) -> (r: bool)
        ensures
            r == (self.spec_descending() == Some(true)),
    {
        match self.descending {
            Some(d) => d,
            None => false,
        }
    }
}

/// One page of entities with the token that continues after it.
#[derive(Debug)]
pub struct BatchResponse<T> {
    pub entities: Vec<T>,
    pub continuation_token: String,
}

impl<T> BatchResponse<T> {
    /// Wraps a page. Takes both by value: the envelope is where they end.
    pub fn new(entities: Vec<T>, continuation_token: String) -> (r: BatchResponse<T>)
        ensures
            r.entities == entities,
            r.continuation_token == continuation_token,
    {
        BatchResponse { entities, continuation_token }
    }
}

/// The answer to a creation.
#[derive(Clone, Copy, Debug, PartialEq, Eq, Structural)]
pub struct CreateTaskResponse {
    pub task_id: u128,
}

impl CreateTaskResponse {
    /// The answer that names the new task.
    pub fn new(task_id: u128) -> (r: CreateTaskResponse)
        ensures
            r.task_id == task_id,
    {
        CreateTaskResponse { task_id }
    }
}

/// A request to bind a task under `root_id`, or to make it a root.
#[derive(Clone, Copy, Debug)]
pub struct TaskRootChangeRequest {
    pub root_id: Option<u128>,
}

impl TaskRootChangeRequest {
    /// The task to bind under, if any.
    pub fn root_id(&self) -> (r: Option<u128>)
        ensures
            r == self.root_id,
    {
        self.root_id
    }
}

} // verus!
