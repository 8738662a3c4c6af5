//! The pipeline's laws: statements that span several calls or several
//! stages, proved once and for all inputs.

use vstd::prelude::*;

use crate::accumulator::{lhs_elems, replay_spec, QueryAccumulator};
use crate::cache::{cached_eq, in_allow_list, CachedQueryResult, QueryCache, QueryStorage};
use crate::data_type::{
    spec_body_tables, spec_body_types, spec_expr_type, spec_find_type, spec_fold_from,
    spec_fold_joins, spec_infer, spec_proj_types, spec_triples, spec_triples_for_table,
    NameAndType, wrap_ens,
};
use crate::error::QueryError;
use crate::executor::{QueryExecutor, QueryResult};
use crate::filter::{show_warnings, QueryFilter};
use crate::ast::{FromItem, ProjItem, QueryBody, SqlExpr, SqlStatement, TableSource};
use crate::reader::{chop_cr, clean_fields, header_spec, kept_lines, row_of_line, rows_spec, untyped_cols};
use crate::sanitizer::{clean_lines, drop_comment, line_kept, sanitize_spec};
use crate::text::{contains_spec, join_spec, lower_of, match_at, replace_spec, split_spec, starts_with_spec};
use crate::value::{Column, Row};

verus! {

/// Filtering: `SHOW WARNINGS` reaches the inner stage zero times and is
/// answered with no result; any other query reaches it exactly once,
/// unchanged.
pub proof fn lemma_filter_law<T: QueryExecutor>(
    pre: QueryFilter<T>,
    post: QueryFilter<T>,
    q: Seq<char>,
    r: Result<Option<T::Out>, QueryError>,
)
    requires
        QueryFilter::<T>::query_ens(pre, post, q, r),
    ensures
        q == show_warnings() ==> post.inner == pre.inner && r matches Ok(None),
        q != show_warnings() ==> post.inner.log() == pre.inner.log().push(q),
{
}

/// Accumulator replay: after `set a`, `set b` and a substantive `q`, the
/// inner stage has seen exactly one call, whose text is `a`, `b` and `q`
/// joined by `;` and line breaks; the two `set` statements produced no
/// call.
pub proof fn lemma_accumulator_replay<T: QueryExecutor>(
    s0: QueryAccumulator<T>,
    s1: QueryAccumulator<T>,
    s2: QueryAccumulator<T>,
    s3: QueryAccumulator<T>,
    a: Seq<char>,
    b: Seq<char>,
    q: Seq<char>,
    r1: Result<Option<T::Out>, QueryError>,
    r2: Result<Option<T::Out>, QueryError>,
    r3: Result<Option<T::Out>, QueryError>,
)
    requires
        starts_with_spec(lower_of(a), "set"@),
        starts_with_spec(lower_of(b), "set"@),
        !starts_with_spec(lower_of(q), "set"@),
        a != b,
        lhs_elems(s0.acc).len() == 0,
        QueryAccumulator::<T>::query_ens(s0, s1, a, r1),
        QueryAccumulator::<T>::query_ens(s1, s2, b, r2),
        QueryAccumulator::<T>::query_ens(s2, s3, q, r3),
    ensures
        s1.executor == s0.executor,
        s2.executor == s0.executor,
        r1 matches Ok(None),
        r2 matches Ok(None),
        s3.executor.log() == s0.executor.log().push(a + ";\n"@ + b + ";\n"@ + q),
{
    let e = lhs_elems(s0.acc);
    assert(!e.contains(a));
    assert(lhs_elems(s1.acc) =~= seq![a]);
    if lhs_elems(s1.acc).contains(b) {
        assert(lhs_elems(s1.acc)[choose|i: int|
            0 <= i < lhs_elems(s1.acc).len() && lhs_elems(s1.acc)[i] == b] == b);
    }
    assert(lhs_elems(s2.acc) =~= seq![a, b]);
    let acc2 = lhs_elems(s2.acc);
    assert(acc2.drop_first() =~= seq![b]);
    assert(acc2.len() == 2);
    assert(join_spec(acc2.drop_first(), ";\n"@) == b) by {
        assert(acc2.drop_first().len() == 1);
        assert(acc2.drop_first()[0] == b);
    }
    assert(join_spec(acc2, ";\n"@) == acc2[0] + ";\n"@ + join_spec(acc2.drop_first(), ";\n"@));
    assert(join_spec(acc2, ";\n"@) == a + ";\n"@ + b);
    assert(replay_spec(acc2, q) =~= a + ";\n"@ + b + ";\n"@ + q);
}

/// Accumulator deduplication: a repeated identical `set` statement
/// accumulates once, and distinct `set` statements accumulate in
/// first-seen order.
pub proof fn lemma_accumulator_dedup<T: QueryExecutor>(
    s0: QueryAccumulator<T>,
    s1: QueryAccumulator<T>,
    s2: QueryAccumulator<T>,
    s3: QueryAccumulator<T>,
    a: Seq<char>,
    b: Seq<char>,
    r1: Result<Option<T::Out>, QueryError>,
    r2: Result<Option<T::Out>, QueryError>,
    r3: Result<Option<T::Out>, QueryError>,
)
    requires
        starts_with_spec(lower_of(a), "set"@),
        starts_with_spec(lower_of(b), "set"@),
        a != b,
        !lhs_elems(s0.acc).contains(a),
        !lhs_elems(s0.acc).contains(b),
        QueryAccumulator::<T>::query_ens(s0, s1, a, r1),
        QueryAccumulator::<T>::query_ens(s1, s2, a, r2),
        QueryAccumulator::<T>::query_ens(s2, s3, b, r3),
    ensures
        lhs_elems(s1.acc) == lhs_elems(s0.acc).push(a),
        lhs_elems(s2.acc) == lhs_elems(s1.acc),
        lhs_elems(s3.acc) == lhs_elems(s0.acc).push(a).push(b),
{
    let e0 = lhs_elems(s0.acc);
    let e1 = lhs_elems(s1.acc);
    assert(e1 == e0.push(a));
    assert(e1[e0.len() as int] == a);
    assert(e1.contains(a));
    let e2 = lhs_elems(s2.acc);
    assert(e2 == e1);
    if e2.contains(b) {
        let i = choose|i: int| 0 <= i < e2.len() && e2[i] == b;
        if i < e0.len() {
            assert(e0[i] == b);
            assert(e0.contains(b));
        }
        assert(false);
    }
    assert(lhs_elems(s3.acc) == e2.push(b));
}

/// Cache hit after a miss: once an allow-listed query has been
/// materialized and stored, a second call with the same text asks the
/// inner stage nothing and answers with the same columns and the same
/// row contents.
pub proof fn lemma_cache_hit_after_store<T, S, R>(
    c0: QueryCache<T, S>,
    c1: QueryCache<T, S>,
    c2: QueryCache<T, S>,
    q: Seq<char>,
    r1: Result<Option<CachedQueryResult<R>>, QueryError>,
    r2: Result<Option<CachedQueryResult<R>>, QueryError>,
) where T: QueryExecutor<Out = R>, S: QueryStorage, R: QueryResult
    requires
        in_allow_list(c0.queries_to_cache@, q),
        !c0.storage.stored().contains_key(q),
        QueryCache::<T, S>::query_ens(c0, c1, q, r1),
        r1 matches Ok(Some(CachedQueryResult::CachedResult(_))),
        QueryCache::<T, S>::query_ens(c1, c2, q, r2),
    ensures
        c2.executor == c1.executor,
        c2.storage.stored() == c1.storage.stored(),
        ({
            &&& r1 matches Ok(Some(CachedQueryResult::CachedResult(first)))
            &&& r2 matches Ok(Some(CachedQueryResult::CachedResult(second)))
            &&& second.columns@ == first.columns@
            &&& second.rows@.len() == first.rows@.len()
            &&& forall|i: int|
                0 <= i < first.rows@.len() ==> second.rows@[i]@ == first.rows@[i]@
        }),
{
    let ir = choose|ir: Result<Option<R>, QueryError>|
        #[trigger] T::query_ens(c0.executor, c1.executor, q, ir) && crate::cache::miss_ens(
            c0,
            c1,
            q,
            ir,
            r1,
        );
    match ir {
        Err(_) => {
            assert(false);
        },
        Ok(None) => {
            assert(false);
        },
        Ok(Some(res)) => {
            let (cols, rows) = choose|
                cols: Result<Vec<Column>, QueryError>,
                rows: Vec<Result<Row, QueryError>>,
            | #[trigger] res.data_ens(cols, rows) && (match cols {
                Err(e) => r1 == Err::<Option<CachedQueryResult<R>>, QueryError>(e)
                    && c1.storage.stored() == c0.storage.stored(),
                Ok(cs) => {
                    if exists|i: int| 0 <= i < rows@.len() && rows@[i] is Err {
                        &&& r1 is Err
                        &&& c1.storage.stored() == c0.storage.stored()
                    } else {
                        exists|c: crate::cache::CachedResult|
                            {
                                &&& #[trigger] crate::cache::cached_data_ens(c, cols, rows@)
                                &&& c1.storage.stored() == c0.storage.stored().insert(q, c)
                                &&& r1 matches Ok(Some(CachedQueryResult::CachedResult(rc)))
                                    && cached_eq(rc, c)
                            }
                    }
                },
            });
            match cols {
                Err(_) => {
                    assert(false);
                },
                Ok(_) => {
                    if exists|i: int| 0 <= i < rows@.len() && rows@[i] is Err {
                        assert(false);
                    } else {
                        let c = choose|c: crate::cache::CachedResult|
                            {
                                &&& #[trigger] crate::cache::cached_data_ens(c, cols, rows@)
                                &&& c1.storage.stored() == c0.storage.stored().insert(q, c)
                                &&& r1 matches Ok(Some(CachedQueryResult::CachedResult(rc)))
                                    && cached_eq(rc, c)
                            };
                        assert(c1.storage.stored().contains_key(q));
                        assert(c1.storage.stored()[q] == c);
                    }
                },
            }
        },
    }
}

/// Cache pass-through: two calls with a query off the allow-list, never
/// stored, each reach the inner stage once, so it sees the text twice.
pub proof fn lemma_cache_miss_twice<T, S, R>(
    c0: QueryCache<T, S>,
    c1: QueryCache<T, S>,
    c2: QueryCache<T, S>,
    q: Seq<char>,
    r1: Result<Option<CachedQueryResult<R>>, QueryError>,
    r2: Result<Option<CachedQueryResult<R>>, QueryError>,
) where T: QueryExecutor<Out = R>, S: QueryStorage, R: QueryResult
    requires
        !in_allow_list(c0.queries_to_cache@, q),
        !c0.storage.stored().contains_key(q),
        QueryCache::<T, S>::query_ens(c0, c1, q, r1),
        QueryCache::<T, S>::query_ens(c1, c2, q, r2),
    ensures
        c2.executor.log() == c0.executor.log().push(q).push(q),
{
    let ir = choose|ir: Result<Option<R>, QueryError>|
        #[trigger] T::query_ens(c0.executor, c1.executor, q, ir) && crate::cache::miss_ens(
            c0,
            c1,
            q,
            ir,
            r1,
        );
    assert(c1.storage.stored() == c0.storage.stored());
}

/// The column-count guard: when types were inferred and the inner
/// result's column count differs from the inferred count, consuming the
/// wrapped result fails as a whole and yields no rows.
pub proof fn lemma_column_count_guard(
    types: Seq<NameAndType>,
    ic: Result<Vec<Column>, QueryError>,
    irows: Seq<Result<Row, QueryError>>,
    cols: Result<Vec<Column>, QueryError>,
    rows: Seq<Result<Row, QueryError>>,
)
    requires
        types.len() > 0,
        ic matches Ok(cs) && cs@.len() != types.len(),
        wrap_ens(types, ic, irows, cols, rows),
    ensures
        cols is Err,
        rows.len() == 0,
{
}


/// Splitting a separator-free prefix off: the prefix is the first field.
proof fn lemma_split_concat(a: Seq<char>, b: Seq<char>, sep: char)
    requires
        forall|k: int| 0 <= k < a.len() ==> a[k] != sep,
    ensures
        split_spec(a + seq![sep] + b, sep) == seq![a] + split_spec(b, sep),
    decreases a.len(),
{
    let s = a + seq![sep] + b;
    if a.len() == 0 {
        assert(s.len() > 0);
        assert(s[0] == sep);
        assert(s.drop_first() =~= b);
        assert(split_spec(s, sep) == seq![Seq::<char>::empty()] + split_spec(b, sep));
        assert(a =~= Seq::<char>::empty());
        assert(seq![a] == seq![Seq::<char>::empty()]);
    } else {
        assert(s[0] == a[0]);
        assert(s[0] != sep);
        assert(s.drop_first() =~= a.drop_first() + seq![sep] + b);
        lemma_split_concat(a.drop_first(), b, sep);
        let rest = split_spec(s.drop_first(), sep);
        assert(rest == seq![a.drop_first()] + split_spec(b, sep));
        assert(rest[0] == a.drop_first());
        assert(split_spec(s, sep) == rest.update(0, seq![s[0]] + rest[0]));
        assert(seq![s[0]] + a.drop_first() =~= a);
        assert(rest.update(0, a) =~= seq![a] + split_spec(b, sep));
    }
}

/// Reader round trip: for a stream of a header line and two row lines,
/// the header is the tab-split of the first line (fields trimmed,
/// empties dropped, untyped) and the rows are exactly the tab-splits of
/// the two row lines.
pub proof fn lemma_reader_round_trip(h: Seq<char>, r1: Seq<char>, r2: Seq<char>)
    requires
        forall|k: int| 0 <= k < h.len() ==> h[k] != '\n',
        forall|k: int| 0 <= k < r1.len() ==> r1[k] != '\n' && r1[k] != '\r',
        forall|k: int| 0 <= k < r2.len() ==> r2[k] != '\n' && r2[k] != '\r',
        r1.len() > 0,
        r2.len() > 0,
    ensures
        ({
            let text = h + seq!['\n'] + r1 + seq!['\n'] + r2 + seq!['\n'];
            &&& header_spec(text) == untyped_cols(clean_fields(split_spec(h, '\t')))
            &&& rows_spec(text) == seq![row_of_line(r1), row_of_line(r2)]
        }),
{
    let text = h + seq!['\n'] + r1 + seq!['\n'] + r2 + seq!['\n'];
    let tail1 = r1 + seq!['\n'] + r2 + seq!['\n'];
    let tail2 = r2 + seq!['\n'];
    assert(text =~= h + seq!['\n'] + tail1);
    lemma_split_concat(h, tail1, '\n');
    assert(tail1 =~= r1 + seq!['\n'] + tail2);
    lemma_split_concat(r1, tail2, '\n');
    assert(tail2 =~= r2 + seq!['\n'] + Seq::<char>::empty());
    lemma_split_concat(r2, Seq::<char>::empty(), '\n');
    assert(split_spec(Seq::<char>::empty(), '\n') == seq![Seq::<char>::empty()]);
    let lines = split_spec(text, '\n');
    assert(lines =~= seq![h, r1, r2, Seq::<char>::empty()]);
    assert(lines[0] == h);
    assert(header_spec(text) == untyped_cols(clean_fields(split_spec(h, '\t'))));
    let body = lines.drop_first();
    assert(body =~= seq![r1, r2, Seq::<char>::empty()]);
    assert(chop_cr(r1) == r1);
    assert(chop_cr(r2) == r2);
    assert(body.drop_first() =~= seq![r2, Seq::<char>::empty()]);
    assert(body.drop_first().drop_first() =~= seq![Seq::<char>::empty()]);
    assert(body.drop_first().drop_first().drop_first() =~= Seq::<Seq<char>>::empty());
    assert(chop_cr(Seq::<char>::empty()) == Seq::<char>::empty());
    assert(kept_lines(Seq::<Seq<char>>::empty()) =~= Seq::<Seq<char>>::empty());
    assert(kept_lines(body.drop_first().drop_first()) =~= Seq::<Seq<char>>::empty());
    assert(kept_lines(body.drop_first()) =~= seq![r2]);
    assert(kept_lines(body) =~= seq![r1] + kept_lines(body.drop_first()));
    assert(kept_lines(body) =~= seq![r1, r2]);
    assert(rows_spec(text) =~= seq![row_of_line(r1), row_of_line(r2)]);
}

/// Looking a column up in one table's triples finds the catalog's first
/// row for that column under the table.
proof fn lemma_find_in_table(
    cat: Seq<(Seq<char>, Seq<char>, Seq<char>, Option<Seq<char>>)>,
    schema: Seq<char>,
    table: Seq<char>,
    alias: Seq<char>,
    c: Seq<char>,
    k: int,
)
    requires
        0 <= k < cat.len(),
        cat[k].0 == schema && cat[k].1 == table && cat[k].2 == c,
        forall|j: int|
            0 <= j < k ==> !(cat[j].0 == schema && cat[j].1 == table && cat[j].2 == c),
    ensures
        spec_find_type(spec_triples_for_table(cat, schema, table, alias), c, Some(alias)) == (
            c,
            cat[k].3,
        ),
    decreases cat.len(),
{
    let triples = spec_triples_for_table(cat, schema, table, alias);
    let rest = spec_triples_for_table(cat.drop_first(), schema, table, alias);
    if k == 0 {
        assert(triples == seq![(alias, cat[0].2, cat[0].3)] + rest);
        assert(triples[0] == (alias, c, cat[0].3));
        assert(spec_find_type(triples, c, Some(alias)) == (triples[0].1, triples[0].2));
    } else {
        assert forall|j: int|
            0 <= j < k - 1 implies !(cat.drop_first()[j].0 == schema && cat.drop_first()[j].1
            == table && cat.drop_first()[j].2 == c) by {
            assert(cat.drop_first()[j] == cat[j + 1]);
        }
        assert(cat.drop_first()[k - 1] == cat[k]);
        lemma_find_in_table(cat.drop_first(), schema, table, alias, c, k - 1);
        if cat[0].0 == schema && cat[0].1 == table {
            assert(cat[0].2 != c);
            assert(triples == seq![(alias, cat[0].2, cat[0].3)] + rest);
            assert(triples[0] == (alias, cat[0].2, cat[0].3));
            assert(triples[0].1 != c);
            assert(triples.drop_first() =~= rest);
            assert(spec_find_type(triples, c, Some(alias)) == spec_find_type(
                triples.drop_first(),
                c,
                Some(alias),
            ));
        } else {
            assert(triples == rest);
        }
    }
}

/// Inference soundness: for a query of the shape
/// `select t.c from schema.table t`, the inferred output is one column
/// named `c` whose type is the catalog's type for `(schema, table, c)`.
pub proof fn lemma_infer_qualified_column(
    cat: Seq<(Seq<char>, Seq<char>, Seq<char>, Option<Seq<char>>)>,
    default_schema: Seq<char>,
    ast: Seq<SqlStatement>,
    schema: Seq<char>,
    table: Seq<char>,
    alias: Seq<char>,
    c: Seq<char>,
    k: int,
)
    requires
        ast.len() == 1,
        ast[0] matches SqlStatement::Query(body) && (body matches QueryBody::Select {
            from,
            projection,
        } && from@.len() == 1 && from@[0].joins@.len() == 0 && (from@[0].relation
            matches TableSource::Named { parts, alias: al } && parts@.len() == 2
            && parts@[0]@ == schema && parts@[1]@ == table && (al matches Some(a) && a@
            == alias)) && projection@.len() == 1 && (projection@[0] matches ProjItem::Expr(e)
            && (e matches SqlExpr::CompoundIdent(ps) && ps@.len() == 2 && ps@[0]@ == alias
            && ps@[1]@ == c))),
        0 <= k < cat.len(),
        cat[k].0 == schema && cat[k].1 == table && cat[k].2 == c,
        forall|j: int|
            0 <= j < k ==> !(cat[j].0 == schema && cat[j].1 == table && cat[j].2 == c),
    ensures
        spec_infer(cat, default_schema, ast) == Ok::<
            Seq<(Seq<char>, Option<Seq<char>>)>,
            crate::data_type::InferError,
        >(seq![(c, cat[k].3)]),
{
    let body = ast[0]->Query_0;
    let from = (match body {
        QueryBody::Select { from, .. } => from,
        _ => arbitrary(),
    });
    let projection = (match body {
        QueryBody::Select { projection, .. } => projection,
        _ => arbitrary(),
    });
    let f = from@[0].relation;
    assert(spec_fold_joins(from@[0].joins, 0, cat, default_schema) == Ok::<
        _,
        crate::data_type::InferError,
    >((Seq::<(Seq<char>, Seq<char>, Seq<char>)>::empty(), cat)));
    assert(crate::data_type::spec_factor(f, cat, default_schema) == Ok::<
        _,
        crate::data_type::InferError,
    >(((schema, table, alias), cat)));
    assert(spec_fold_from(from, 1, cat, default_schema) == Ok::<
        _,
        crate::data_type::InferError,
    >((Seq::<(Seq<char>, Seq<char>, Seq<char>)>::empty(), cat)));
    let tables = seq![(schema, table, alias)];
    assert(spec_fold_from(from, 0, cat, default_schema) matches Ok(p) && p.0 =~= tables && p.1
        == cat);
    match spec_fold_from(from, 0, cat, default_schema) {
        Ok(p) => {
            assert(p.0 == tables);
        },
        Err(_) => {
            assert(false);
        },
    }
    assert(spec_body_tables(body, cat, default_schema) == Ok::<
        _,
        crate::data_type::InferError,
    >((tables, cat)));
    let triples = spec_triples(tables, cat);
    assert(triples =~= spec_triples_for_table(cat, schema, table, alias) + spec_triples(
        tables.drop_first(),
        cat,
    )) by {
        assert(tables[0] == (schema, table, alias));
    }
    assert(tables.drop_first() =~= Seq::<(Seq<char>, Seq<char>, Seq<char>)>::empty());
    assert(spec_triples(tables.drop_first(), cat) =~= Seq::<
        (Seq<char>, Seq<char>, Option<Seq<char>>),
    >::empty());
    assert(triples =~= spec_triples_for_table(cat, schema, table, alias));
    lemma_find_in_table(cat, schema, table, alias, c, k);
    let e = (match projection@[0] {
        ProjItem::Expr(e) => e,
        _ => arbitrary(),
    });
    assert(spec_expr_type(triples, e) == Ok::<
        (Seq<char>, Option<Seq<char>>),
        crate::data_type::InferError,
    >((c, cat[k].3)));
    assert(spec_proj_types(triples, projection@.drop_first()) == Ok::<
        Seq<(Seq<char>, Option<Seq<char>>)>,
        crate::data_type::InferError,
    >(Seq::empty())) by {
        assert(projection@.drop_first().len() == 0);
    }
    assert(spec_proj_types(triples, projection@) == Ok::<
        Seq<(Seq<char>, Option<Seq<char>>)>,
        crate::data_type::InferError,
    >(seq![(c, cat[k].3)] + Seq::<(Seq<char>, Option<Seq<char>>)>::empty()));
    assert(seq![(c, cat[k].3)] + Seq::<(Seq<char>, Option<Seq<char>>)>::empty() =~= seq![
        (c, cat[k].3),
    ]);
    assert(spec_body_types(triples, body) == Ok::<
        Seq<(Seq<char>, Option<Seq<char>>)>,
        crate::data_type::InferError,
    >(seq![(c, cat[k].3)]));
}

/// Replacing every occurrence erases the pattern for good, provided the
/// pattern's first character never occurs in the replacement and the
/// replacement's first character never occurs in the pattern: no
/// occurrence survives and none is created across a boundary.
proof fn lemma_replace_erases(s: Seq<char>, pat: Seq<char>, rep: Seq<char>)
    requires
        pat.len() > 0,
        rep.len() > 0,
        forall|k: int| 0 <= k < rep.len() ==> rep[k] != pat[0],
        forall|k: int| 0 <= k < pat.len() ==> pat[k] != rep[0],
    ensures
        forall|i: int| !match_at(replace_spec(s, pat, rep), i, pat),
        forall|k: int|
            1 <= k < pat.len() && starts_with_spec(replace_spec(s, pat, rep), pat.skip(k))
                ==> starts_with_spec(s, pat.skip(k)),
    decreases s.len(),
{
    let r = replace_spec(s, pat, rep);
    if s.len() == 0 {
        assert forall|i: int| !match_at(r, i, pat) by {}
    } else if starts_with_spec(s, pat) {
        let s2 = s.skip(pat.len() as int);
        lemma_replace_erases(s2, pat, rep);
        let r2 = replace_spec(s2, pat, rep);
        assert(r == rep + r2);
        assert forall|i: int| !match_at(r, i, pat) by {
            if match_at(r, i, pat) {
                assert(r.subrange(i, i + pat.len())[0] == pat[0]);
                assert(r[i] == pat[0]);
                if i < rep.len() {
                    assert(r[i] == rep[i]);
                } else {
                    assert(r.subrange(i, i + pat.len()) =~= r2.subrange(
                        i - rep.len(),
                        i - rep.len() + pat.len(),
                    ));
                    assert(match_at(r2, i - rep.len(), pat));
                }
            }
        }
        assert forall|k: int|
            1 <= k < pat.len() && starts_with_spec(r, pat.skip(k)) implies starts_with_spec(
            s,
            pat.skip(k),
        ) by {
            assert(r[0] == rep[0]);
            assert(pat.skip(k)[0] == pat[k]);
            assert(r.subrange(0, pat.len() - k)[0] == r[0]);
        }
    } else {
        let s2 = s.drop_first();
        lemma_replace_erases(s2, pat, rep);
        let r2 = replace_spec(s2, pat, rep);
        assert(r == seq![s[0]] + r2);
        assert(r[0] == s[0]);
        assert forall|i: int| !match_at(r, i, pat) by {
            if match_at(r, i, pat) {
                if i == 0 {
                    assert(r.subrange(0, pat.len() as int)[0] == pat[0]);
                    assert(s[0] == pat[0]);
                    if pat.len() == 1 {
                        assert(s.subrange(0, 1) =~= pat);
                        assert(starts_with_spec(s, pat));
                    } else {
                        assert(r.subrange(0, pat.len() as int) == pat);
                        assert forall|t: int|
                            0 <= t < pat.len() - 1 implies #[trigger] r2.subrange(
                            0,
                            pat.len() - 1,
                        )[t] == pat.skip(1)[t] by {
                            assert(r2[t] == r[t + 1]);
                            assert(r[t + 1] == r.subrange(0, pat.len() as int)[t + 1]);
                        }
                        assert(r2.subrange(0, pat.len() - 1) =~= pat.skip(1));
                        assert(starts_with_spec(r2, pat.skip(1)));
                        assert(starts_with_spec(s2, pat.skip(1)));
                        assert forall|t: int|
                            0 <= t < pat.len() implies #[trigger] s.subrange(
                            0,
                            pat.len() as int,
                        )[t] == pat[t] by {
                            if t > 0 {
                                assert(s2.subrange(0, pat.len() - 1)[t - 1] == pat.skip(1)[t
                                    - 1]);
                            }
                        }
                        assert(s.subrange(0, pat.len() as int) =~= pat);
                        assert(starts_with_spec(s, pat));
                    }
                } else {
                    assert(r.subrange(i, i + pat.len()) =~= r2.subrange(
                        i - 1,
                        i - 1 + pat.len(),
                    ));
                    assert(match_at(r2, i - 1, pat));
                }
            }
        }
        assert forall|k: int|
            1 <= k < pat.len() && starts_with_spec(r, pat.skip(k)) implies starts_with_spec(
            s,
            pat.skip(k),
        ) by {
            assert(pat.skip(k)[0] == pat[k]);
            assert(r.subrange(0, pat.len() - k)[0] == r[0]);
            assert(s[0] == pat[k]);
            if k + 1 == pat.len() {
                assert(s.subrange(0, 1) =~= pat.skip(k));
                assert(starts_with_spec(s, pat.skip(k)));
            } else {
                assert forall|t: int|
                    0 <= t < pat.len() - k - 1 implies #[trigger] r2.subrange(
                    0,
                    pat.len() - k - 1,
                )[t] == pat.skip(k + 1)[t] by {
                    assert(r2[t] == r[t + 1]);
                    assert(r[t + 1] == r.subrange(0, pat.len() - k)[t + 1]);
                    assert(pat.skip(k)[t + 1] == pat.skip(k + 1)[t]);
                }
                assert(r2.subrange(0, pat.len() - k - 1) =~= pat.skip(k + 1));
                assert(starts_with_spec(r2, pat.skip(k + 1)));
                assert(starts_with_spec(s2, pat.skip(k + 1)));
                assert forall|t: int|
                    0 <= t < pat.len() - k implies #[trigger] s.subrange(0, pat.len() - k)[t]
                    == pat.skip(k)[t] by {
                    if t > 0 {
                        assert(s2.subrange(0, pat.len() - k - 1)[t - 1] == pat.skip(k + 1)[t
                            - 1]);
                    }
                }
                assert(s.subrange(0, pat.len() - k) =~= pat.skip(k));
                assert(starts_with_spec(s, pat.skip(k)));
            }
        }
    }
}

/// Sanitizing erases `@@language`: no occurrence of it survives in the
/// output, for any query.
pub proof fn lemma_sanitizer_erases_language(q: Seq<char>)
    ensures
        !contains_spec(sanitize_spec(q), "@@language"@),
{
    let pat = "@@language"@;
    let rep = "'english'"@;
    reveal_strlit("@@language");
    reveal_strlit("'english'");
    assert(pat.len() == 10);
    assert(rep.len() == 9);
    assert forall|k: int| 0 <= k < rep.len() implies rep[k] != pat[0] by {
        assert(pat[0] == '@');
    }
    assert forall|k: int| 0 <= k < pat.len() implies pat[k] != rep[0] by {
        assert(rep[0] == '\'');
    }
    let t = crate::text::trim_spec(crate::sanitizer::drop_comment(crate::text::trim_spec(q)));
    let joined = join_spec(crate::sanitizer::clean_lines(split_spec(t, '\n')), "\n"@);
    lemma_replace_erases(joined, pat, rep);
    if contains_spec(sanitize_spec(q), pat) {
        let i = choose|i: int| match_at(sanitize_spec(q), i, pat);
        assert(!match_at(replace_spec(joined, pat, rep), i, pat));
    }
}

/// Splitting yields at least one field.
proof fn lemma_split_nonempty(s: Seq<char>, sep: char)
    ensures
        split_spec(s, sep).len() >= 1,
    decreases s.len(),
{
    if s.len() > 0 && s[0] != sep {
        lemma_split_nonempty(s.drop_first(), sep);
    }
}

/// Splitting leaves the separator out of every field.
proof fn lemma_split_fields_no_sep(s: Seq<char>, sep: char)
    ensures
        forall|j: int, t: int|
            0 <= j < split_spec(s, sep).len() && 0 <= t < split_spec(s, sep)[j].len()
                ==> #[trigger] split_spec(s, sep)[j][t] != sep,
    decreases s.len(),
{
    if s.len() == 0 {
    } else {
        lemma_split_fields_no_sep(s.drop_first(), sep);
        lemma_split_nonempty(s.drop_first(), sep);
        let rest = split_spec(s.drop_first(), sep);
        if s[0] == sep {
        } else {
            let parts = split_spec(s, sep);
            assert(parts == rest.update(0, seq![s[0]] + rest[0]));
            assert forall|j: int, t: int|
                0 <= j < parts.len() && 0 <= t < parts[j].len() implies #[trigger] parts[j][t]
                != sep by {
                if j == 0 {
                    if t > 0 {
                        assert(parts[0][t] == rest[0][t - 1]);
                    }
                } else {
                    assert(parts[j] == rest[j]);
                }
            }
        }
    }
}

/// Trimming the start invents no characters.
proof fn lemma_trim_start_no(s: Seq<char>, c: char)
    requires
        forall|t: int| 0 <= t < s.len() ==> s[t] != c,
    ensures
        forall|t: int|
            0 <= t < crate::text::trim_start_spec(s).len() ==> #[trigger] crate::text::trim_start_spec(
                s,
            )[t] != c,
    decreases s.len(),
{
    if s.len() > 0 && crate::text::is_space(s[0]) {
        assert forall|t: int|
            0 <= t < s.drop_first().len() implies #[trigger] s.drop_first()[t] != c by {
            assert(s.drop_first()[t] == s[t + 1]);
        }
        lemma_trim_start_no(s.drop_first(), c);
        assert(crate::text::trim_start_spec(s) == crate::text::trim_start_spec(s.drop_first()));
    }
}

/// Trimming the end invents no characters.
proof fn lemma_trim_end_no(s: Seq<char>, c: char)
    requires
        forall|t: int| 0 <= t < s.len() ==> s[t] != c,
    ensures
        forall|t: int|
            0 <= t < crate::text::trim_end_spec(s).len() ==> #[trigger] crate::text::trim_end_spec(
                s,
            )[t] != c,
    decreases s.len(),
{
    if s.len() > 0 && crate::text::is_space(s[s.len() - 1]) {
        assert forall|t: int|
            0 <= t < s.drop_last().len() implies #[trigger] s.drop_last()[t] != c by {
            assert(s.drop_last()[t] == s[t]);
        }
        lemma_trim_end_no(s.drop_last(), c);
        assert(crate::text::trim_end_spec(s) == crate::text::trim_end_spec(s.drop_last()));
    }
}

/// Trimming invents no characters.
proof fn lemma_trim_no(s: Seq<char>, c: char)
    requires
        forall|t: int| 0 <= t < s.len() ==> s[t] != c,
    ensures
        forall|t: int|
            0 <= t < crate::text::trim_spec(s).len() ==> #[trigger] crate::text::trim_spec(s)[t]
                != c,
{
    lemma_trim_start_no(s, c);
    lemma_trim_end_no(crate::text::trim_start_spec(s), c);
}

/// Every cleaned line is newline-free and survives the keep test.
proof fn lemma_clean_lines_props(ls: Seq<Seq<char>>)
    requires
        forall|j: int, t: int|
            0 <= j < ls.len() && 0 <= t < ls[j].len() ==> #[trigger] ls[j][t] != '\n',
    ensures
        forall|j: int|
            0 <= j < clean_lines(ls).len() ==> line_kept(#[trigger] clean_lines(ls)[j]) && forall|
                t: int,
            | 0 <= t < clean_lines(ls)[j].len() ==> clean_lines(ls)[j][t] != '\n',
    decreases ls.len(),
{
    if ls.len() > 0 {
        assert forall|j: int, t: int|
            0 <= j < ls.drop_first().len() && 0 <= t < ls.drop_first()[j].len()
                implies #[trigger] ls.drop_first()[j][t] != '\n' by {
            assert(ls.drop_first()[j] == ls[j + 1]);
        }
        lemma_clean_lines_props(ls.drop_first());
        let tr = crate::text::trim_spec(ls[0]);
        lemma_trim_no(ls[0], '\n');
        let cl = clean_lines(ls);
        let rest = clean_lines(ls.drop_first());
        if line_kept(tr) {
            assert(cl == seq![tr] + rest);
            assert forall|j: int| 0 <= j < cl.len() implies line_kept(#[trigger] cl[j]) && forall|
                t: int,
            | 0 <= t < cl[j].len() ==> cl[j][t] != '\n' by {
                if j == 0 {
                    assert(cl[0] == tr);
                } else {
                    assert(cl[j] == rest[j - 1]);
                }
            }
        } else {
            assert(cl == rest);
        }
    }
}

/// Joining kept lines with line breaks: the text does not begin with a
/// comment starter and none follows a line break.
proof fn lemma_join_clean(parts: Seq<Seq<char>>)
    requires
        forall|j: int|
            0 <= j < parts.len() ==> line_kept(#[trigger] parts[j]) && forall|t: int|
                0 <= t < parts[j].len() ==> parts[j][t] != '\n',
    ensures
        !starts_with_spec(join_spec(parts, "\n"@), "--"@),
        !starts_with_spec(join_spec(parts, "\n"@), "#"@),
        forall|i: int| !match_at(join_spec(parts, "\n"@), i, seq!['\n', '-', '-']),
        forall|i: int| !match_at(join_spec(parts, "\n"@), i, seq!['\n', '#']),
    decreases parts.len(),
{
    reveal_strlit("\n");
    reveal_strlit("--");
    reveal_strlit("#");
    let j = join_spec(parts, "\n"@);
    if parts.len() == 0 {
        assert forall|i: int| !match_at(j, i, seq!['\n', '-', '-']) by {}
    } else if parts.len() == 1 {
        assert(j == parts[0]);
        assert forall|i: int| !match_at(j, i, seq!['\n', '-', '-']) by {
            if match_at(j, i, seq!['\n', '-', '-']) {
                assert(j.subrange(i, i + 3)[0] == '\n');
                assert(j[i] == '\n');
            }
        }
        assert forall|i: int| !match_at(j, i, seq!['\n', '#']) by {
            if match_at(j, i, seq!['\n', '#']) {
                assert(j.subrange(i, i + 2)[0] == '\n');
                assert(j[i] == '\n');
            }
        }
    } else {
        assert forall|jj: int|
            0 <= jj < parts.drop_first().len() implies line_kept(
            #[trigger] parts.drop_first()[jj],
        ) && forall|t: int|
            0 <= t < parts.drop_first()[jj].len() ==> parts.drop_first()[jj][t] != '\n' by {
            assert(parts.drop_first()[jj] == parts[jj + 1]);
        }
        lemma_join_clean(parts.drop_first());
        let p0 = parts[0];
        let rest = join_spec(parts.drop_first(), "\n"@);
        assert(j == p0 + "\n"@ + rest);
        assert(j.len() == p0.len() + 1 + rest.len());
        assert(j[p0.len() as int] == '\n');
        assert forall|i: int| !match_at(j, i, seq!['\n', '-', '-']) by {
            if match_at(j, i, seq!['\n', '-', '-']) {
                assert(j.subrange(i, i + 3)[0] == '\n');
                assert(j[i] == '\n');
                assert(i + 3 <= j.len());
                if i < p0.len() {
                    assert(p0[i] == '\n');
                } else if i == p0.len() {
                    assert(j[i + 1] == rest[0]);
                    assert(j[i + 2] == rest[1]);
                    assert(j.subrange(i, i + 3)[1] == '-');
                    assert(j.subrange(i, i + 3)[2] == '-');
                    assert(rest.subrange(0, 2) =~= "--"@);
                    assert(starts_with_spec(rest, "--"@));
                } else {
                    assert(j.subrange(i, i + 3) =~= rest.subrange(
                        i - p0.len() - 1,
                        i - p0.len() - 1 + 3,
                    ));
                    assert(match_at(rest, i - p0.len() - 1, seq!['\n', '-', '-']));
                }
            }
        }
        assert forall|i: int| !match_at(j, i, seq!['\n', '#']) by {
            if match_at(j, i, seq!['\n', '#']) {
                assert(j.subrange(i, i + 2)[0] == '\n');
                assert(j[i] == '\n');
                assert(i + 2 <= j.len());
                if i < p0.len() {
                    assert(p0[i] == '\n');
                } else if i == p0.len() {
                    assert(j[i + 1] == rest[0]);
                    assert(j.subrange(i, i + 2)[1] == '#');
                    assert(rest.subrange(0, 1) =~= "#"@);
                    assert(starts_with_spec(rest, "#"@));
                } else {
                    assert(j.subrange(i, i + 2) =~= rest.subrange(
                        i - p0.len() - 1,
                        i - p0.len() - 1 + 2,
                    ));
                    assert(match_at(rest, i - p0.len() - 1, seq!['\n', '#']));
                }
            }
        }
        if starts_with_spec(j, "--"@) {
            assert(j.subrange(0, 2)[0] == '-');
            assert(j.subrange(0, 2)[1] == '-');
            if p0.len() >= 2 {
                assert(p0.subrange(0, 2) =~= "--"@);
                assert(starts_with_spec(p0, "--"@));
            } else if p0.len() == 1 {
                assert(j[1] == '\n');
            } else {
                assert(j[0] == '\n');
            }
        }
        if starts_with_spec(j, "#"@) {
            assert(j.subrange(0, 1)[0] == '#');
            if p0.len() >= 1 {
                assert(p0.subrange(0, 1) =~= "#"@);
                assert(starts_with_spec(p0, "#"@));
            } else {
                assert(j[0] == '\n');
            }
        }
    }
}

/// Replacing a pattern whose replacement shares no character with `bad`
/// creates no occurrence of `bad` and keeps every prefix fact about it.
proof fn lemma_replace_no_new(s: Seq<char>, pat: Seq<char>, rep: Seq<char>, bad: Seq<char>)
    requires
        pat.len() > 0,
        rep.len() > 0,
        bad.len() > 0,
        forall|k: int, u: int| 0 <= k < bad.len() && 0 <= u < rep.len() ==> bad[k] != rep[u],
        forall|i: int| !match_at(s, i, bad),
    ensures
        forall|i: int| !match_at(replace_spec(s, pat, rep), i, bad),
        forall|k: int|
            1 <= k < bad.len() && starts_with_spec(replace_spec(s, pat, rep), bad.skip(k))
                ==> starts_with_spec(s, bad.skip(k)),
    decreases s.len(),
{
    let r = replace_spec(s, pat, rep);
    if s.len() == 0 {
        assert forall|i: int| !match_at(r, i, bad) by {}
    } else if starts_with_spec(s, pat) {
        let s2 = s.skip(pat.len() as int);
        assert forall|i: int| !match_at(s2, i, bad) by {
            if match_at(s2, i, bad) {
                assert(s2.subrange(i, i + bad.len()) =~= s.subrange(
                    i + pat.len(),
                    i + pat.len() + bad.len(),
                ));
                assert(match_at(s, i + pat.len(), bad));
            }
        }
        lemma_replace_no_new(s2, pat, rep, bad);
        let r2 = replace_spec(s2, pat, rep);
        assert(r == rep + r2);
        assert forall|i: int| !match_at(r, i, bad) by {
            if match_at(r, i, bad) {
                assert(r.subrange(i, i + bad.len())[0] == bad[0]);
                assert(r[i] == bad[0]);
                if i < rep.len() {
                    assert(r[i] == rep[i]);
                } else {
                    assert(r.subrange(i, i + bad.len()) =~= r2.subrange(
                        i - rep.len(),
                        i - rep.len() + bad.len(),
                    ));
                    assert(match_at(r2, i - rep.len(), bad));
                }
            }
        }
        assert forall|k: int|
            1 <= k < bad.len() && starts_with_spec(r, bad.skip(k)) implies starts_with_spec(
            s,
            bad.skip(k),
        ) by {
            assert(r[0] == rep[0]);
            assert(bad.skip(k)[0] == bad[k]);
            assert(r.subrange(0, bad.len() - k)[0] == r[0]);
        }
    } else {
        let s2 = s.drop_first();
        assert forall|i: int| !match_at(s2, i, bad) by {
            if match_at(s2, i, bad) {
                assert(s2.subrange(i, i + bad.len()) =~= s.subrange(i + 1, i + 1 + bad.len()));
                assert(match_at(s, i + 1, bad));
            }
        }
        lemma_replace_no_new(s2, pat, rep, bad);
        let r2 = replace_spec(s2, pat, rep);
        assert(r == seq![s[0]] + r2);
        assert(r[0] == s[0]);
        assert forall|i: int| !match_at(r, i, bad) by {
            if match_at(r, i, bad) {
                if i == 0 {
                    assert(r.subrange(0, bad.len() as int)[0] == bad[0]);
                    assert(s[0] == bad[0]);
                    if bad.len() == 1 {
                        assert(s.subrange(0, 1) =~= bad);
                        assert(match_at(s, 0, bad));
                    } else {
                        assert forall|t: int|
                            0 <= t < bad.len() - 1 implies #[trigger] r2.subrange(
                            0,
                            bad.len() - 1,
                        )[t] == bad.skip(1)[t] by {
                            assert(r2[t] == r[t + 1]);
                            assert(r[t + 1] == r.subrange(0, bad.len() as int)[t + 1]);
                        }
                        assert(r2.subrange(0, bad.len() - 1) =~= bad.skip(1));
                        assert(starts_with_spec(r2, bad.skip(1)));
                        assert(starts_with_spec(s2, bad.skip(1)));
                        assert forall|t: int|
                            0 <= t < bad.len() implies #[trigger] s.subrange(
                            0,
                            bad.len() as int,
                        )[t] == bad[t] by {
                            if t > 0 {
                                assert(s2.subrange(0, bad.len() - 1)[t - 1] == bad.skip(1)[t
                                    - 1]);
                            }
                        }
                        assert(s.subrange(0, bad.len() as int) =~= bad);
                        assert(match_at(s, 0, bad));
                    }
                } else {
                    assert(r.subrange(i, i + bad.len()) =~= r2.subrange(
                        i - 1,
                        i - 1 + bad.len(),
                    ));
                    assert(match_at(r2, i - 1, bad));
                }
            }
        }
        assert forall|k: int|
            1 <= k < bad.len() && starts_with_spec(r, bad.skip(k)) implies starts_with_spec(
            s,
            bad.skip(k),
        ) by {
            assert(bad.skip(k)[0] == bad[k]);
            assert(r.subrange(0, bad.len() - k)[0] == r[0]);
            assert(s[0] == bad[k]);
            if k + 1 == bad.len() {
                assert(s.subrange(0, 1) =~= bad.skip(k));
            } else {
                assert forall|t: int|
                    0 <= t < bad.len() - k - 1 implies #[trigger] r2.subrange(
                    0,
                    bad.len() - k - 1,
                )[t] == bad.skip(k + 1)[t] by {
                    assert(r2[t] == r[t + 1]);
                    assert(r[t + 1] == r.subrange(0, bad.len() - k)[t + 1]);
                    assert(bad.skip(k)[t + 1] == bad.skip(k + 1)[t]);
                }
                assert(r2.subrange(0, bad.len() - k - 1) =~= bad.skip(k + 1));
                assert(starts_with_spec(r2, bad.skip(k + 1)));
                assert(starts_with_spec(s2, bad.skip(k + 1)));
                assert forall|t: int|
                    0 <= t < bad.len() - k implies #[trigger] s.subrange(0, bad.len() - k)[t]
                    == bad.skip(k)[t] by {
                    if t > 0 {
                        assert(s2.subrange(0, bad.len() - k - 1)[t - 1] == bad.skip(k + 1)[t
                            - 1]);
                    }
                }
                assert(s.subrange(0, bad.len() - k) =~= bad.skip(k));
            }
        }
    }
}

/// Replacing keeps "does not begin with this one- or two-character
/// starter", provided the replacement begins with something else.
proof fn lemma_replace_keeps_start(s: Seq<char>, pat: Seq<char>, rep: Seq<char>, head: Seq<char>)
    requires
        pat.len() > 0,
        rep.len() > 0,
        1 <= head.len() <= 2,
        rep[0] != head[0],
        head.len() == 2 ==> rep[0] != head[1],
        !starts_with_spec(s, head),
    ensures
        !starts_with_spec(replace_spec(s, pat, rep), head),
    decreases s.len(),
{
    let r = replace_spec(s, pat, rep);
    if s.len() == 0 {
    } else if starts_with_spec(s, pat) {
        if starts_with_spec(r, head) {
            assert(r.subrange(0, head.len() as int)[0] == head[0]);
            assert(r[0] == rep[0]);
        }
    } else {
        let s2 = s.drop_first();
        let r2 = replace_spec(s2, pat, rep);
        assert(r == seq![s[0]] + r2);
        if starts_with_spec(r, head) {
            assert(r.subrange(0, head.len() as int)[0] == head[0]);
            assert(s[0] == head[0]);
            if head.len() == 1 {
                assert(s.subrange(0, 1) =~= head);
                assert(starts_with_spec(s, head));
            } else {
                assert(r.subrange(0, 2)[1] == head[1]);
                assert(r[1] == head[1]);
                assert(r2.len() > 0);
                assert(r2[0] == head[1]);
                if s2.len() == 0 {
                    assert(r2.len() == 0);
                } else if starts_with_spec(s2, pat) {
                    assert(r2[0] == rep[0]);
                } else {
                    assert(r2[0] == s2[0]);
                    assert(s[1] == head[1]);
                    assert(s.subrange(0, 2) =~= head);
                    assert(starts_with_spec(s, head));
                }
            }
        }
    }
}

/// Sanitizing leaves no comment line: the output does not begin with
/// `--` or `#`, and neither starter follows a line break, so no line of
/// the output opens a line comment.
pub proof fn lemma_sanitizer_drops_comment_lines(q: Seq<char>)
    ensures
        !starts_with_spec(sanitize_spec(q), "--"@),
        !starts_with_spec(sanitize_spec(q), "#"@),
        forall|i: int| !match_at(sanitize_spec(q), i, seq!['\n', '-', '-']),
        forall|i: int| !match_at(sanitize_spec(q), i, seq!['\n', '#']),
{
    reveal_strlit("@@language");
    reveal_strlit("'english'");
    reveal_strlit("--");
    reveal_strlit("#");
    reveal_strlit("\n");
    let pat = "@@language"@;
    let rep = "'english'"@;
    let t = crate::text::trim_spec(drop_comment(crate::text::trim_spec(q)));
    let ls = split_spec(t, '\n');
    let cl = clean_lines(ls);
    let joined = join_spec(cl, "\n"@);
    lemma_split_fields_no_sep(t, '\n');
    lemma_clean_lines_props(ls);
    lemma_join_clean(cl);
    lemma_replace_no_new(joined, pat, rep, seq!['\n', '-', '-']);
    lemma_replace_no_new(joined, pat, rep, seq!['\n', '#']);
    lemma_replace_keeps_start(joined, pat, rep, "--"@);
    lemma_replace_keeps_start(joined, pat, rep, "#"@);
}

/// Trimming the start keeps a suffix.
proof fn lemma_trim_start_suffix(s: Seq<char>)
    ensures
        exists|j: int|
            0 <= j <= s.len() && crate::text::trim_start_spec(s) == #[trigger] s.skip(j),
    decreases s.len(),
{
    if s.len() > 0 && crate::text::is_space(s[0]) {
        lemma_trim_start_suffix(s.drop_first());
        let j = choose|j: int|
            0 <= j <= s.drop_first().len() && crate::text::trim_start_spec(s.drop_first())
                == #[trigger] s.drop_first().skip(j);
        assert(s.drop_first().skip(j) =~= s.skip(j + 1));
        assert(crate::text::trim_start_spec(s) == s.skip(j + 1));
    } else {
        assert(s.skip(0) =~= s);
        assert(crate::text::trim_start_spec(s) == s.skip(0));
    }
}

/// Trimming the end keeps a prefix.
proof fn lemma_trim_end_prefix(s: Seq<char>)
    ensures
        exists|j: int|
            0 <= j <= s.len() && crate::text::trim_end_spec(s) == #[trigger] s.take(j),
    decreases s.len(),
{
    if s.len() > 0 && crate::text::is_space(s[s.len() - 1]) {
        lemma_trim_end_prefix(s.drop_last());
        let j = choose|j: int|
            0 <= j <= s.drop_last().len() && crate::text::trim_end_spec(s.drop_last())
                == #[trigger] s.drop_last().take(j);
        assert(s.drop_last().take(j) =~= s.take(j));
        assert(crate::text::trim_end_spec(s) == s.take(j));
    } else {
        assert(s.take(s.len() as int) =~= s);
        assert(crate::text::trim_end_spec(s) == s.take(s.len() as int));
    }
}

/// A pattern found in a trimmed text is found in the text.
proof fn lemma_trim_contains(s: Seq<char>, p: Seq<char>)
    requires
        contains_spec(crate::text::trim_spec(s), p),
    ensures
        contains_spec(s, p),
{
    lemma_trim_start_suffix(s);
    let j1 = choose|j: int|
        0 <= j <= s.len() && crate::text::trim_start_spec(s) == #[trigger] s.skip(j);
    let mid = crate::text::trim_start_spec(s);
    lemma_trim_end_prefix(mid);
    let j2 = choose|j: int|
        0 <= j <= mid.len() && crate::text::trim_end_spec(mid) == #[trigger] mid.take(j);
    let i = choose|i: int| match_at(crate::text::trim_spec(s), i, p);
    assert(crate::text::trim_spec(s).subrange(i, i + p.len()) == p);
    assert(crate::text::trim_spec(s) == mid.take(j2));
    assert(mid.take(j2).subrange(i, i + p.len()) =~= mid.subrange(i, i + p.len()));
    assert(mid.subrange(i, i + p.len()) =~= s.subrange(j1 + i, j1 + i + p.len()));
    assert(match_at(s, j1 + i, p));
}

/// The first field of a split is a prefix of the text.
proof fn lemma_split_first_prefix(s: Seq<char>, sep: char)
    ensures
        split_spec(s, sep)[0].len() <= s.len(),
        split_spec(s, sep)[0] == s.take(split_spec(s, sep)[0].len() as int),
    decreases s.len(),
{
    lemma_split_nonempty(s, sep);
    if s.len() == 0 {
        assert(s.take(0) =~= s);
    } else if s[0] == sep {
        assert(split_spec(s, sep)[0] =~= Seq::<char>::empty());
        assert(s.take(0) =~= Seq::<char>::empty());
    } else {
        lemma_split_first_prefix(s.drop_first(), sep);
        lemma_split_nonempty(s.drop_first(), sep);
        let rest = split_spec(s.drop_first(), sep);
        let f = split_spec(s, sep)[0];
        assert(f == seq![s[0]] + rest[0]);
        assert(rest[0] == s.drop_first().take(rest[0].len() as int));
        assert(f =~= s.take(f.len() as int));
    }
}

/// A pattern found in a field of a split is found in the text.
proof fn lemma_split_field_contains(s: Seq<char>, sep: char, p: Seq<char>, j: int)
    requires
        0 <= j < split_spec(s, sep).len(),
        contains_spec(split_spec(s, sep)[j], p),
    ensures
        contains_spec(s, p),
    decreases s.len(),
{
    let parts = split_spec(s, sep);
    let i = choose|i: int| match_at(parts[j], i, p);
    if j == 0 {
        lemma_split_first_prefix(s, sep);
        assert(parts[0].subrange(i, i + p.len()) =~= s.subrange(i, i + p.len()));
        assert(match_at(s, i, p));
    } else {
        lemma_split_nonempty(s.drop_first(), sep);
        let rest = split_spec(s.drop_first(), sep);
        if s[0] == sep {
            assert(parts[j] == rest[j - 1]);
            assert(contains_spec(rest[j - 1], p));
            lemma_split_field_contains(s.drop_first(), sep, p, j - 1);
            let i2 = choose|i2: int| match_at(s.drop_first(), i2, p);
            assert(s.drop_first().subrange(i2, i2 + p.len()) =~= s.subrange(
                i2 + 1,
                i2 + 1 + p.len(),
            ));
            assert(match_at(s, i2 + 1, p));
        } else {
            assert(parts[j] == rest[j]);
            assert(contains_spec(rest[j], p));
            lemma_split_field_contains(s.drop_first(), sep, p, j);
            let i2 = choose|i2: int| match_at(s.drop_first(), i2, p);
            assert(s.drop_first().subrange(i2, i2 + p.len()) =~= s.subrange(
                i2 + 1,
                i2 + 1 + p.len(),
            ));
            assert(match_at(s, i2 + 1, p));
        }
    }
}

/// Every cleaned line is the trimmed form of one of the lines.
proof fn lemma_clean_elem(ls: Seq<Seq<char>>, j: int)
    requires
        0 <= j < clean_lines(ls).len(),
    ensures
        exists|i: int|
            0 <= i < ls.len() && clean_lines(ls)[j] == crate::text::trim_spec(#[trigger] ls[i]),
    decreases ls.len(),
{
    let cl = clean_lines(ls);
    let tr = crate::text::trim_spec(ls[0]);
    let rest = clean_lines(ls.drop_first());
    if line_kept(tr) {
        assert(cl == seq![tr] + rest);
        if j == 0 {
            assert(cl[0] == crate::text::trim_spec(ls[0]));
        } else {
            lemma_clean_elem(ls.drop_first(), j - 1);
            let i = choose|i: int|
                0 <= i < ls.drop_first().len() && rest[j - 1] == crate::text::trim_spec(
                    #[trigger] ls.drop_first()[i],
                );
            assert(ls.drop_first()[i] == ls[i + 1]);
            assert(cl[j] == crate::text::trim_spec(ls[i + 1]));
        }
    } else {
        assert(cl == rest);
        lemma_clean_elem(ls.drop_first(), j);
        let i = choose|i: int|
            0 <= i < ls.drop_first().len() && rest[j] == crate::text::trim_spec(
                #[trigger] ls.drop_first()[i],
            );
        assert(ls.drop_first()[i] == ls[i + 1]);
        assert(cl[j] == crate::text::trim_spec(ls[i + 1]));
    }
}

/// Sanitizing strips the leading block comment: when the text after the
/// first `*/` of the trimmed query holds no further block opener, the
/// output does not begin with one. An input with a second block comment
/// behind the first is not covered: only its first block is stripped.
pub proof fn lemma_sanitizer_strips_leading_block(q: Seq<char>)
    requires
        !contains_spec(drop_comment(crate::text::trim_spec(q)), "/*"@),
    ensures
        !starts_with_spec(sanitize_spec(q), "/*"@),
{
    reveal_strlit("/*");
    reveal_strlit("@@language");
    reveal_strlit("'english'");
    reveal_strlit("\n");
    let p = "/*"@;
    let t2 = drop_comment(crate::text::trim_spec(q));
    let t = crate::text::trim_spec(t2);
    let ls = split_spec(t, '\n');
    let cl = clean_lines(ls);
    let joined = join_spec(cl, "\n"@);
    if contains_spec(t, p) {
        lemma_trim_contains(t2, p);
    }
    if starts_with_spec(joined, p) {
        assert(joined.subrange(0, 2)[0] == '/');
        assert(joined.subrange(0, 2)[1] == '*');
        assert(joined[0] == '/');
        assert(joined[1] == '*');
        assert(cl.len() > 0);
        let p0 = cl[0];
        if cl.len() == 1 {
            assert(joined == p0);
        } else {
            assert(joined == p0 + "\n"@ + join_spec(cl.drop_first(), "\n"@));
            if p0.len() == 0 {
                assert(joined[0] == '\n');
            } else if p0.len() == 1 {
                assert(joined[1] == '\n');
            }
        }
        assert(p0.len() >= 2);
        assert(p0[0] == '/');
        assert(p0[1] == '*');
        assert(p0.subrange(0, 2) =~= p);
        assert(match_at(p0, 0, p));
        lemma_clean_elem(ls, 0);
        let i = choose|i: int|
            0 <= i < ls.len() && cl[0] == crate::text::trim_spec(#[trigger] ls[i]);
        lemma_trim_contains(ls[i], p);
        lemma_split_field_contains(t, '\n', p, i);
        lemma_trim_contains(t2, p);
    }
    lemma_replace_keeps_start(joined, "@@language"@, "'english'"@, p);
}
} // verus!
