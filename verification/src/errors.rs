//! What can go wrong.

use vstd::prelude::*;
use crate::ident::{id_text, id_to_string};

verus! {

/// The failures that the services report. Each carries a message for the
/// caller.
#[derive(Debug)]
pub enum Error {
    /// No entity has the id that was named.
    EntityNotFound(String),
    /// A task was to be bound to itself or to one of its own descendants.
    InvalidRootBinding(String),
    /// The store could not carry out the operation.
    DbError(String),
    /// A request was malformed: a continuation token that is no number, or
    /// a sort field that the store does not know.
    InvalidInput(String),
}

impl Error {
    /// The message that the error carries.
    pub open spec fn message(self) -> Seq<char> {
        match self {
            Error::EntityNotFound(m) => m@,
            Error::InvalidRootBinding(m) => m@,
            Error::DbError(m) => m@,
            Error::InvalidInput(m) => m@,
        }
    }

    /// The message of a failed lookup of `id`.
    pub open spec fn not_found_message(id: u128) -> Seq<char> {
        "Entity with id "@ + id_text(id) + " cannot be found"@
    }

    /// The failure of a lookup of `id`.
    pub fn not_found(id: u128) -> (e: Error)
        ensures
            e is EntityNotFound,
            e.message() == Self::not_found_message(id),
    {
        let text = id_to_string(id);
        let message = "Entity with id ".to_owned().concat(text.as_str()).concat(
            " cannot be found",
        );
        Error::EntityNotFound(message)
    }

    /// The refusal of a root binding, with the reason given.
    pub fn invalid_root_binding(message: &str) -> (e: Error)
        ensures
            e is InvalidRootBinding,
            e.message() == message@,
    {
        Error::InvalidRootBinding(message.to_owned())
    }

    /// The refusal of a malformed request, with the reason given.
    pub fn invalid_input(message: &str) -> (e: Error)
        ensures
            e is InvalidInput,
            e.message() == message@,
    {
        Error::InvalidInput(message.to_owned())
    }

    /// The message of the error as a string.
    pub fn text(&self) -> (r: String)
        ensures
            r@ == self.message(),
    {
        match self {
            Error::EntityNotFound(m) => m.clone(),
            Error::InvalidRootBinding(m) => m.clone(),
            Error::DbError(m) => m.clone(),
            Error::InvalidInput(m) => m.clone(),
        }
    }
}

} // verus!
