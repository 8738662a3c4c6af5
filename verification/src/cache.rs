//! The result cache stage.
//!
//! An allow-list of exact query strings is fixed at construction. On a
//! storage hit the stage answers from the store and asks the inner stage
//! nothing. On a miss it delegates; a result for an allow-listed query
//! is materialized in full, stored, and answered from the materialized
//! data; anything else streams through untouched.

use vstd::prelude::*;

use crate::error::QueryError;
use crate::executor::{QueryExecutor, QueryResult};
use crate::text::{chars_of, eq_chars};
use crate::value::{clone_columns, clone_rows, Column, Row};

verus! {

/// A fully materialized result: columns and rows.
#[derive(Debug, Clone, PartialEq)]
pub struct CachedResult {
    /// The result's columns.
    pub columns: Vec<Column>,
    /// The result's rows.
    pub rows: Vec<Row>,
}

/// `a` holds the same columns and the same row contents as `b`.
pub open spec fn cached_eq(a: CachedResult, b: CachedResult) -> bool {
    &&& a.columns@ == b.columns@
    &&& a.rows@.len() == b.rows@.len()
    &&& forall|i: int| 0 <= i < a.rows@.len() ==> a.rows@[i]@ == b.rows@[i]@
}

/// A key-value store of materialized results, keyed by exact query text.
pub trait QueryStorage: Sized {
    /// The stored results, as a map from query text.
    spec fn stored(&self) -> Map<Seq<char>, CachedResult>;

    /// Store a result under `query`, replacing any previous one.
    fn store(&mut self, query: &str, columns: Vec<Column>, rows: Vec<Row>)
        ensures
            final (self).stored() == old(self).stored().insert(
                query@,
                CachedResult { columns, rows },
            ),
    ;

    /// The result stored under `query`, as a copy, if one is there.
    fn get(&self, query: &str) -> (r: Option<CachedResult>)
        ensures
            match r {
                Some(c) => self.stored().contains_key(query@) && cached_eq(
                    c,
                    self.stored()[query@],
                ),
                None => !self.stored().contains_key(query@),
            },
    ;
}

/// The map an entry list denotes: later entries win.
pub open spec fn map_of_entries(entries: Seq<(String, CachedResult)>) -> Map<
    Seq<char>,
    CachedResult,
>
    decreases entries.len(),
{
    if entries.len() == 0 {
        Map::<Seq<char>, CachedResult>::empty()
    } else {
        map_of_entries(entries.drop_last()).insert(entries.last().0@, entries.last().1)
    }
}

/// An in-process store backed by a plain entry list.
pub struct InMemoryQueryStorage {
    /// The stored entries, oldest first; a later entry wins.
    pub entries: Vec<(String, CachedResult)>,
}

impl InMemoryQueryStorage {
    /// An empty store.
    pub fn new() -> (r: Self)
        ensures
            r.stored() == Map::<Seq<char>, CachedResult>::empty(),
    {
        InMemoryQueryStorage { entries: Vec::new() }
    }
}

/// A copy of a stored result, with equal columns and equal row contents.
fn duplicate_cached(c: &CachedResult) -> (r: CachedResult)
    ensures
        cached_eq(r, *c),
{
    CachedResult { columns: clone_columns(&c.columns), rows: clone_rows(&c.rows) }
}

/// The last matching entry decides both membership and the value.
proof fn lemma_map_of_entries_lookup(entries: Seq<(String, CachedResult)>, q: Seq<char>, j: int)
    requires
        0 <= j < entries.len(),
        entries[j].0@ == q,
        forall|k: int| j < k < entries.len() ==> entries[k].0@ != q,
    ensures
        map_of_entries(entries).contains_key(q),
        map_of_entries(entries)[q] == entries[j].1,
    decreases entries.len(),
{
    if j == entries.len() - 1 {
    } else {
        lemma_map_of_entries_lookup(entries.drop_last(), q, j);
    }
}

/// With no matching entry, the key is absent.
proof fn lemma_map_of_entries_absent(entries: Seq<(String, CachedResult)>, q: Seq<char>)
    requires
        forall|k: int| 0 <= k < entries.len() ==> entries[k].0@ != q,
    ensures
        !map_of_entries(entries).contains_key(q),
    decreases entries.len(),
{
    if entries.len() > 0 {
        lemma_map_of_entries_absent(entries.drop_last(), q);
    }
}

impl QueryStorage for InMemoryQueryStorage {
    open spec fn stored(&self) -> Map<Seq<char>, CachedResult> {
        map_of_entries(self.entries@)
    }

    fn store(&mut self, query: &str, columns: Vec<Column>, rows: Vec<Row>) {
        self.entries.push((query.to_owned(), CachedResult { columns, rows }));
        proof {
            assert(self.entries@.drop_last() =~= old(self).entries@);
        }
    }

    fn get(&self, query: &str) -> (r: Option<CachedResult>) {
        let qv = chars_of(query);
        let n = self.entries.len();
        let mut i: usize = n;
        while i > 0
            invariant
                i <= n,
                n == self.entries@.len(),
                qv@ == query@,
                forall|k: int| i <= k < n ==> self.entries@[k].0@ != query@,
            decreases i,
        {
            i -= 1;
            let key = chars_of(self.entries[i].0.as_str());
            if eq_chars(&key, &qv) {
                proof {
                    lemma_map_of_entries_lookup(self.entries@, query@, i as int);
                }
                return Some(duplicate_cached(&self.entries[i].1));
            }
        }
        proof {
            lemma_map_of_entries_absent(self.entries@, query@);
        }
        None
    }
}

/// A result answered by the cache stage: either a materialized result or
/// the inner stage's own, streamed through.
pub enum CachedQueryResult<T> {
    /// A materialized result.
    CachedResult(CachedResult),
    /// The inner stage's result, untouched.
    Result(T),
}

/// Consuming a materialized result yields its columns and each row
/// intact.
pub open spec fn cached_data_ens(
    c: CachedResult,
    cols: Result<Vec<Column>, QueryError>,
    rows: Seq<Result<Row, QueryError>>,
) -> bool {
    &&& cols matches Ok(cs) && cs@ == c.columns@
    &&& rows.len() == c.rows@.len()
    &&& forall|i: int|
        0 <= i < rows.len() ==> (#[trigger] rows[i] matches Ok(row) && row@ == c.rows@[i]@)
}

impl<T: QueryResult> QueryResult for CachedQueryResult<T> {
    open spec fn data_ens(
        self,
        cols: Result<Vec<Column>, QueryError>,
        rows: Vec<Result<Row, QueryError>>,
    ) -> bool {
        match self {
            CachedQueryResult::Result(inner) => inner.data_ens(cols, rows),
            CachedQueryResult::CachedResult(c) => cached_data_ens(c, cols, rows@),
        }
    }

    fn get_data(self) -> (r: (Result<Vec<Column>, QueryError>, Vec<Result<Row, QueryError>>)) {
        match self {
            CachedQueryResult::Result(inner) => inner.get_data(),
            CachedQueryResult::CachedResult(c) => {
                let CachedResult { columns, rows } = c;
                let n = rows.len();
                let ghost rows0 = rows@;
                let mut rem = rows;
                let mut out: Vec<Result<Row, QueryError>> = Vec::new();
                let mut i: usize = 0;
                proof {
                    assert(rows0.skip(0) =~= rows0);
                }
                while i < n
                    invariant
                        i <= n,
                        n == rows0.len(),
                        rem@ == rows0.skip(i as int),
                        out@.len() == i,
                        forall|k: int|
                            0 <= k < i ==> (#[trigger] out@[k] matches Ok(row) && row@
                                == rows0[k]@),
                    decreases n - i,
                {
                    let row = rem.remove(0);
                    proof {
                        assert(rows0.skip(i as int)[0] == rows0[i as int]);
                        assert(rows0.skip(i as int).drop_first() =~= rows0.skip(i as int + 1));
                    }
                    out.push(Ok(row));
                    i += 1;
                }
                (Ok(columns), out)
            },
        }
    }
}

/// Whether `q` is one of the allow-listed query strings.
pub open spec fn in_allow_list(list: Seq<String>, q: Seq<char>) -> bool {
    exists|i: int| 0 <= i < list.len() && list[i]@ == q
}

/// The cache stage, owning the next stage and a storage.
pub struct QueryCache<T, S> {
    /// The next stage.
    pub executor: T,
    /// The store of materialized results.
    pub storage: S,
    /// The exact query strings worth caching.
    pub queries_to_cache: Vec<String>,
    /// The queries this stage has been asked.
    pub asked: Ghost<Seq<Seq<char>>>,
}

impl<T, S> QueryCache<T, S> {
    /// A cache in front of `executor`, over `storage`, caching exactly
    /// the queries in `queries_to_cache`.
    pub fn new(executor: T, storage: S, queries_to_cache: Vec<String>) -> (r: Self)
        ensures
            r.executor == executor,
            r.storage == storage,
            r.queries_to_cache == queries_to_cache,
            r.asked@ == Seq::<Seq<char>>::empty(),
    {
        QueryCache { executor, storage, queries_to_cache, asked: Ghost(Seq::empty()) }
    }
}

/// Whether `query` is one of the allow-listed strings.
pub fn allow_listed(list: &Vec<String>, query: &str) -> (r: bool)
    ensures
        r == in_allow_list(list@, query@),
{
    let qv = chars_of(query);
    let n = list.len();
    let mut i: usize = 0;
    while i < n
        invariant
            i <= n,
            n == list@.len(),
            qv@ == query@,
            forall|k: int| 0 <= k < i ==> list@[k]@ != query@,
        decreases n - i,
    {
        let item = chars_of(list[i].as_str());
        if eq_chars(&item, &qv) {
            return true;
        }
        i += 1;
    }
    false
}

impl<T, S> QueryCache<T, S> {
    /// Whether `query` is allow-listed.
    fn should_cache(&self, query: &str) -> (r: bool)
        ensures
            r == in_allow_list(self.queries_to_cache@, query@),
    {
        allow_listed(&self.queries_to_cache, query)
    }
}

/// What the cache answers on a miss, given the inner stage's answer
/// `ir`: errors and empty answers pass through; a result for a query off
/// the allow-list streams through; a result for an allow-listed query is
/// materialized, stored, and answered from the store.
pub open spec fn miss_ens<T: QueryExecutor<Out = R>, S: QueryStorage, R: QueryResult>(
    pre: QueryCache<T, S>,
    post: QueryCache<T, S>,
    q: Seq<char>,
    ir: Result<Option<R>, QueryError>,
    r: Result<Option<CachedQueryResult<R>>, QueryError>,
) -> bool {
    match ir {
        Err(e) => r == Err::<Option<CachedQueryResult<R>>, QueryError>(e)
            && post.storage.stored() == pre.storage.stored(),
        Ok(None) => r == Ok::<Option<CachedQueryResult<R>>, QueryError>(None)
            && post.storage.stored() == pre.storage.stored(),
        Ok(Some(res)) => {
            if !in_allow_list(pre.queries_to_cache@, q) {
                &&& r == Ok::<Option<CachedQueryResult<R>>, QueryError>(
                    Some(CachedQueryResult::Result(res)),
                )
                &&& post.storage.stored() == pre.storage.stored()
            } else {
                exists|cols: Result<Vec<Column>, QueryError>, rows: Vec<Result<Row, QueryError>>|
                    {
                        &&& #[trigger] res.data_ens(cols, rows)
                        &&& match cols {
                            Err(e) => r == Err::<Option<CachedQueryResult<R>>, QueryError>(e)
                                && post.storage.stored() == pre.storage.stored(),
                            Ok(cs) => {
                                if exists|i: int| 0 <= i < rows@.len() && rows@[i] is Err {
                                    &&& r is Err
                                    &&& post.storage.stored() == pre.storage.stored()
                                } else {
                                    exists|c: CachedResult|
                                        {
                                            &&& #[trigger] cached_data_ens(c, cols, rows@)
                                            &&& post.storage.stored()
                                                == pre.storage.stored().insert(q, c)
                                            &&& r matches Ok(Some(
                                                CachedQueryResult::CachedResult(rc),
                                            )) && cached_eq(rc, c)
                                        }
                                }
                            },
                        }
                    }
            }
        },
    }
}

impl<T, S, R> QueryExecutor for QueryCache<T, S> where
    T: QueryExecutor<Out = R>,
    S: QueryStorage,
    R: QueryResult,
 {
    type Out = CachedQueryResult<R>;

    open spec fn log(&self) -> Seq<Seq<char>> {
        self.asked@
    }

    /// On a hit the inner stage sees nothing and the answer is the
    /// stored result; on a miss the inner stage sees the query exactly
    /// once and the answer follows `miss_ens`. The allow-list never
    /// changes.
    open spec fn query_ens(
        pre: Self,
        post: Self,
        q: Seq<char>,
        r: Result<Option<CachedQueryResult<R>>, QueryError>,
    ) -> bool {
        &&& post.queries_to_cache == pre.queries_to_cache
        &&& if pre.storage.stored().contains_key(q) {
            &&& post.executor == pre.executor
            &&& post.storage.stored() == pre.storage.stored()
            &&& r matches Ok(Some(CachedQueryResult::CachedResult(c))) && cached_eq(
                c,
                pre.storage.stored()[q],
            )
        } else {
            &&& post.executor.log() == pre.executor.log().push(q)
            &&& exists|ir: Result<Option<R>, QueryError>|
                #[trigger] T::query_ens(pre.executor, post.executor, q, ir) && miss_ens(
                    pre,
                    post,
                    q,
                    ir,
                    r,
                )
        }
    }

    #[verifier::loop_isolation(false)]
    #[verifier::rlimit(60)]
    fn query(&mut self, query: &str) -> (r: Result<Option<CachedQueryResult<R>>, QueryError>) {
        proof {
            self.asked@ = self.asked@.push(query@);
        }
        match self.storage.get(query) {
            Some(cached) => {
                let out_r = Ok(Some(CachedQueryResult::CachedResult(cached)));
                proof {
                    assert(Self::query_ens(*old(self), *self, query@, out_r));
                }
                out_r
            },
            None => {
                let ir = self.executor.query(query);
                match ir {
                    Err(e) => {
                        let ghost ir_v = Err::<Option<R>, QueryError>(e);
                        let out_r = Err::<Option<CachedQueryResult<R>>, QueryError>(e);
                        proof {
                            assert(T::query_ens(old(self).executor, self.executor, query@, ir_v)
                                && miss_ens(*old(self), *self, query@, ir_v, out_r));
                            assert(Self::query_ens(*old(self), *self, query@, out_r));
                        }
                        out_r
                    },
                    Ok(None) => {
                        let ghost ir_v = Ok::<Option<R>, QueryError>(None);
                        let out_r = Ok::<Option<CachedQueryResult<R>>, QueryError>(None);
                        proof {
                            assert(T::query_ens(old(self).executor, self.executor, query@, ir_v)
                                && miss_ens(*old(self), *self, query@, ir_v, out_r));
                            assert(Self::query_ens(*old(self), *self, query@, out_r));
                        }
                        out_r
                    },
                    Ok(Some(res)) => {
                        let ghost ir_v = Ok::<Option<R>, QueryError>(Some(res));
                        let cache_it = self.should_cache(query);
                        proof {
                            assert(self.queries_to_cache == old(self).queries_to_cache);
                            assert(cache_it == in_allow_list(
                                old(self).queries_to_cache@,
                                query@,
                            ));
                        }
                        if !cache_it {
                            let out_r = Ok(Some(CachedQueryResult::Result(res)));
                            proof {
                                assert(T::query_ens(
                                    old(self).executor,
                                    self.executor,
                                    query@,
                                    ir_v,
                                ) && miss_ens(*old(self), *self, query@, ir_v, out_r));
                                assert(Self::query_ens(*old(self), *self, query@, out_r));
                            }
                            return out_r;
                        }
                        let (cols_r, rows_r) = res.get_data();
                        let columns = match cols_r {
                            Ok(cs) => cs,
                            Err(e) => {
                                let out_r = Err::<Option<CachedQueryResult<R>>, QueryError>(e);
                                proof {
                                    assert(res.data_ens(cols_r, rows_r));
                                    assert(T::query_ens(
                                        old(self).executor,
                                        self.executor,
                                        query@,
                                        ir_v,
                                    ) && miss_ens(*old(self), *self, query@, ir_v, out_r));
                                    assert(Self::query_ens(*old(self), *self, query@, out_r));
                                }
                                return out_r;
                            },
                        };
                        let n = rows_r.len();
                        let ghost rows_r0 = rows_r@;
                        let mut rem = rows_r;
                        let mut rows: Vec<Row> = Vec::new();
                        let mut i: usize = 0;
                        proof {
                            assert(rows_r0.skip(0) =~= rows_r0);
                        }
                        while i < n
                            invariant
                                i <= n,
                                n == rows_r0.len(),
                                rem@ == rows_r0.skip(i as int),
                                rows@.len() == i,
                                forall|k: int|
                                    0 <= k < i ==> (#[trigger] rows_r0[k] matches Ok(row)
                                        && rows@[k] == row),
                            decreases n - i,
                        {
                            let row = rem.remove(0);
                            proof {
                                assert(rows_r0.skip(i as int)[0] == rows_r0[i as int]);
                                assert(rows_r0.skip(i as int).drop_first() =~= rows_r0.skip(
                                    i as int + 1,
                                ));
                            }
                            match row {
                                Ok(row) => {
                                    rows.push(row);
                                },
                                Err(e) => {
                                    let out_r = Err::<Option<CachedQueryResult<R>>, QueryError>(e);
                                    proof {
                                        assert(rows_r0[i as int] is Err);
                                        assert(T::query_ens(
                                            old(self).executor,
                                            self.executor,
                                            query@,
                                            ir_v,
                                        ) && miss_ens(*old(self), *self, query@, ir_v, out_r));
                                        assert(Self::query_ens(*old(self), *self, query@, out_r));
                                    }
                                    return out_r;
                                },
                            }
                            i += 1;
                        }
                        let stored_cols = clone_columns(&columns);
                        let stored_rows = clone_rows(&rows);
                        let ghost c = CachedResult { columns: stored_cols, rows: stored_rows };
                        self.storage.store(query, stored_cols, stored_rows);
                        let out = CachedResult { columns, rows };
                        let out_r = Ok(Some(CachedQueryResult::CachedResult(out)));
                        proof {
                            assert(forall|k: int| 0 <= k < rows_r0.len() ==> !(rows_r0[k] is Err));
                            assert(cached_data_ens(c, cols_r, rows_r0));
                            assert(T::query_ens(old(self).executor, self.executor, query@, ir_v)
                                && miss_ens(*old(self), *self, query@, ir_v, out_r));
                            assert(Self::query_ens(*old(self), *self, query@, out_r));
                        }
                        out_r
                    },
                }
            },
        }
    }
}

} // verus!
