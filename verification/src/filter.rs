//! The filter stage: drops statements the remote cannot serve.
//!
//! The one such statement is the literal `SHOW WARNINGS`: the stage
//! answers it with no result and asks the inner stage nothing. Every
//! other query is passed through unchanged, exactly once.

use vstd::prelude::*;

use crate::error::QueryError;
use crate::executor::QueryExecutor;
use crate::text::{chars_of, eq_chars};

verus! {

/// The one filtered statement.
pub open spec fn show_warnings() -> Seq<char> {
    "SHOW WARNINGS"@
}

/// The filter stage, owning the next stage.
pub struct QueryFilter<T> {
    /// The next stage.
    pub inner: T,
    /// The queries this stage has been asked.
    pub asked: Ghost<Seq<Seq<char>>>,
}

impl<T> QueryFilter<T> {
    /// A filter in front of `executor`.
    pub fn new(executor: T) -> (r: Self)
        ensures
            r.inner == executor,
            r.asked@ == Seq::<Seq<char>>::empty(),
    {
        QueryFilter { inner: executor, asked: Ghost(Seq::empty()) }
    }
}

impl<T: QueryExecutor> QueryExecutor for QueryFilter<T> {
    type Out = T::Out;

    open spec fn log(&self) -> Seq<Seq<char>> {
        self.asked@
    }

    /// `SHOW WARNINGS` is answered with no result and the inner stage
    /// sees nothing of it; any other query reaches the inner stage
    /// exactly once, unchanged.
    open spec fn query_ens(
        pre: Self,
        post: Self,
        q: Seq<char>,
        r: Result<Option<T::Out>, QueryError>,
    ) -> bool {
        if q == show_warnings() {
            &&& post.inner == pre.inner
            &&& r matches Ok(None)
        } else {
            &&& post.inner.log() == pre.inner.log().push(q)
            &&& T::query_ens(pre.inner, post.inner, q, r)
        }
    }

    fn query(&mut self, query: &str) -> (r: Result<Option<T::Out>, QueryError>) {
        proof {
            self.asked@ = self.asked@.push(query@);
        }
        if is_filtered(query) {
            return Ok(None);
        }
        self.inner.query(query)
    }
}

/// Whether the filter drops this query instead of forwarding it.
pub fn is_filtered(query: &str) -> (r: bool)
    ensures
        r == (query@ == show_warnings()),
{
    let qv = chars_of(query);
    let sw = chars_of("SHOW WARNINGS");
    eq_chars(&qv, &sw)
}

} // verus!
