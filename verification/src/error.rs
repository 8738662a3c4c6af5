//! The error kinds a query can fail with.

use vstd::prelude::*;

verus! {

/// The remote task service answered with an `ERROR`-prefixed log: the
/// query failed on the backing database, and the raw text is reported to
/// the client as the error message.
#[derive(Clone, Debug, PartialEq)]
pub struct SqlError {
    error: String,
}

impl SqlError {
    /// The error text.
    pub closed spec fn text(&self) -> Seq<char> {
        self.error@
    }

    /// An error carrying the remote log text.
    pub fn new(error: String) -> (r: Self)
        ensures
            r.text() == error@,
    {
        SqlError { error }
    }

    /// The error text, for reporting on the wire.
    pub fn message(&self) -> (r: &str)
        ensures
            r@ == self.text(),
    {
        self.error.as_str()
    }
}

/// Why a query failed.
#[derive(Clone, Debug, PartialEq)]
pub enum QueryError {
    /// The remote task reported a database error.
    Sql(SqlError),
    /// The transport to the remote failed; the text says how.
    Transport(String),
    /// A result broke an internal contract: its column count did not
    /// match the inferred projection, or an already-typed cell reached
    /// the coercion step.
    Contract(String),
    /// A text cell could not be parsed under its inferred type.
    Coerce(String),
}

} // verus!
