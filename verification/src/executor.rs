//! The pipeline's two capabilities.
//!
//! Every stage of the pipeline implements [`QueryExecutor`]: it takes a
//! query text and answers with no result, a result, or an error, and it
//! owns the next stage. A stage's behaviour is pinned by two spec
//! functions each implementation defines: `log`, the queries the stage
//! has been asked so far, and `query_ens`, what one call does to the
//! stage and what it returns.
//!
//! Result objects implement [`QueryResult`]: consuming them yields the
//! columns and the rows, and `data_ens` pins what those can be.

use vstd::prelude::*;

use crate::error::QueryError;
use crate::reader::ReaderQueryResult;
use crate::value::{Column, Row};

verus! {

/// A source of query results: the columns (or a failure to produce
/// them), and the rows, each of which may fail on its own.
pub trait QueryResult: Sized {
    /// What consuming this result may yield.
    spec fn data_ens(
        self,
        cols: Result<Vec<Column>, QueryError>,
        rows: Vec<Result<Row, QueryError>>,
    ) -> bool;

    /// The columns and the rows; the result is consumed.
    fn get_data(self) -> (r: (Result<Vec<Column>, QueryError>, Vec<Result<Row, QueryError>>))
        ensures
            self.data_ens(r.0, r.1),
    ;
}

/// One stage of the pipeline: takes a query, answers with `Ok(None)` (no
/// result), `Ok(Some(result))`, or an error.
pub trait QueryExecutor: Sized {
    /// The result type this stage hands back.
    type Out;

    /// The queries this stage has been asked, oldest first.
    spec fn log(&self) -> Seq<Seq<char>>;

    /// What one call of `query` does, beyond extending the log: how the
    /// stage's state changes and what it answers.
    spec fn query_ens(
        pre: Self,
        post: Self,
        q: Seq<char>,
        r: Result<Option<Self::Out>, QueryError>,
    ) -> bool;

    /// Ask this stage the query `query`.
    fn query(&mut self, query: &str) -> (r: Result<Option<Self::Out>, QueryError>)
        ensures
            final (self).log() == old(self).log().push(query@),
            Self::query_ens(*old(self), *final (self), query@, r),
    ;
}

/// The views of a sequence of strings.
pub open spec fn deep_of(v: Seq<String>) -> Seq<Seq<char>> {
    Seq::new(v.len(), |i: int| v[i]@)
}

/// A scripted executor: answers each query with the next pre-arranged
/// result, last first, and records every query it was asked. It stands
/// in for the remote leaf in tests of the pipeline stages.
pub struct FakeQueryExecutor {
    results: Vec<Result<Option<ReaderQueryResult>, QueryError>>,
    queries: Vec<String>,
}

impl FakeQueryExecutor {
    /// The results not yet handed out, next one last.
    pub closed spec fn pending(&self) -> Seq<Result<Option<ReaderQueryResult>, QueryError>> {
        self.results@
    }

    /// The queries asked so far, as strings.
    pub closed spec fn asked(&self) -> Seq<Seq<char>> {
        deep_of(self.queries@)
    }

    /// A scripted executor that will answer with `result_list`, last
    /// element first.
    pub fn new(result_list: Vec<Result<Option<ReaderQueryResult>, QueryError>>) -> (r: Self)
        ensures
            r.pending() == result_list@,
            r.asked() == Seq::<Seq<char>>::empty(),
    {
        let r = FakeQueryExecutor { results: result_list, queries: Vec::new() };
        proof {
            assert(r.asked() =~= Seq::<Seq<char>>::empty());
        }
        r
    }

    /// The queries asked so far.
    pub fn get_query_list(&self) -> (r: &Vec<String>)
        ensures
            deep_of(r@) == self.asked(),
    {
        &self.queries
    }
}

impl QueryExecutor for FakeQueryExecutor {
    type Out = ReaderQueryResult;

    open spec fn log(&self) -> Seq<Seq<char>> {
        self.asked()
    }

    open spec fn query_ens(
        pre: Self,
        post: Self,
        q: Seq<char>,
        r: Result<Option<ReaderQueryResult>, QueryError>,
    ) -> bool {
        if pre.pending().len() > 0 {
            r == pre.pending().last() && post.pending() == pre.pending().drop_last()
        } else {
            r is Err && post.pending() == pre.pending()
        }
    }

    fn query(&mut self, query: &str) -> (r: Result<Option<ReaderQueryResult>, QueryError>) {
        self.queries.push(query.to_owned());
        proof {
            assert(deep_of(self.queries@) =~= deep_of(old(self).queries@).push(query@));
        }
        match self.results.pop() {
            Some(r) => r,
            None => Err(QueryError::Transport("no scripted result is left".to_owned())),
        }
    }
}

} // verus!
