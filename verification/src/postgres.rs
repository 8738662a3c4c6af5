//! The PostgreSQL front-end's core: named-statement bookkeeping,
//! positional `$n` parameter substitution, the AST-driven describe, the
//! PostgreSQL type mapping, and the summary-row filter. The socket
//! handling and the wire encoding live outside this crate.

use vstd::prelude::*;

use crate::ast::{parse_postgres, pg_parse_of};
use crate::data_type::{nts_view, opt_view, spec_infer, spec_infer_cat, DataTypeInfo, InferError};
use crate::text::{
    chars_of, eq_chars, find_first, lower_of, lowercase, match_at, push_all, replace_all,
    replace_spec, string_of,
};
use crate::value::{ColumnValue, Row};

verus! {

/// The PostgreSQL wire types the proxy emits.
#[derive(Clone, Copy, Debug, PartialEq, Eq, Structural)]
pub enum PgType {
    Text,
    Int8,
    Uuid,
    Oid,
    Varchar,
    Bytea,
    TimestampTz,
    Bool,
    Int4,
    AnyArray,
    Date,
}

/// The wire type for a lower-cased catalog type tag; untyped and unknown
/// tags ship as text.
pub open spec fn spec_pg_type(t: Option<Seq<char>>) -> PgType {
    match t {
        None => PgType::Text,
        Some(t) => {
            if t == "text"@ || t == "name"@ {
                PgType::Text
            } else if t == "bigint"@ {
                PgType::Int8
            } else if t == "uuid"@ {
                PgType::Uuid
            } else if t == "oid"@ {
                PgType::Oid
            } else if t == "character varying"@ {
                PgType::Varchar
            } else if t == "bytea"@ {
                PgType::Bytea
            } else if t == "timestamp with time zone"@ {
                PgType::TimestampTz
            } else if t == "boolean"@ {
                PgType::Bool
            } else if t == "integer"@ {
                PgType::Int4
            } else if t == "array"@ {
                PgType::AnyArray
            } else if t == "date"@ {
                PgType::Date
            } else {
                PgType::Text
            }
        },
    }
}

/// The lower-cased view of an optional type tag.
pub open spec fn low_opt(t: Option<Seq<char>>) -> Option<Seq<char>> {
    match t {
        Some(s) => Some(lower_of(s)),
        None => None,
    }
}

/// Whether `s` holds exactly the text `lit`.
fn tag_is(s: &String, lit: &str) -> (r: bool)
    ensures
        r == (s@ == lit@),
{
    let a = chars_of(s.as_str());
    let b = chars_of(lit);
    eq_chars(&a, &b)
}

/// The wire type of a type tag, compared after lower-casing.
pub fn pg_type_of(ty: &Option<String>) -> (r: PgType)
    ensures
        r == spec_pg_type(low_opt(opt_view(*ty))),
{
    match ty {
        None => PgType::Text,
        Some(t0) => {
            let t = lowercase(t0.as_str());
            if tag_is(&t, "text") || tag_is(&t, "name") {
                PgType::Text
            } else if tag_is(&t, "bigint") {
                PgType::Int8
            } else if tag_is(&t, "uuid") {
                PgType::Uuid
            } else if tag_is(&t, "oid") {
                PgType::Oid
            } else if tag_is(&t, "character varying") {
                PgType::Varchar
            } else if tag_is(&t, "bytea") {
                PgType::Bytea
            } else if tag_is(&t, "timestamp with time zone") {
                PgType::TimestampTz
            } else if tag_is(&t, "boolean") {
                PgType::Bool
            } else if tag_is(&t, "integer") {
                PgType::Int4
            } else if tag_is(&t, "array") {
                PgType::AnyArray
            } else if tag_is(&t, "date") {
                PgType::Date
            } else {
                PgType::Text
            }
        },
    }
}

/// `s` with its first occurrence of `pat` replaced by `rep`; without an
/// occurrence, `s` itself.
pub open spec fn replace_once_spec(s: Seq<char>, pat: Seq<char>, rep: Seq<char>) -> Seq<char> {
    if exists|i: int| match_at(s, i, pat) {
        let i = first_match(s, pat);
        s.subrange(0, i) + rep + s.skip(i + pat.len())
    } else {
        s
    }
}

/// The least position where `pat` occurs in `s`.
pub open spec fn first_match(s: Seq<char>, pat: Seq<char>) -> int {
    choose|i: int| match_at(s, i, pat) && forall|j: int| 0 <= j < i ==> !match_at(s, j, pat)
}

/// The first match index is well defined when a match exists.
proof fn lemma_first_match(s: Seq<char>, pat: Seq<char>, i: int)
    requires
        match_at(s, i, pat),
        forall|j: int| 0 <= j < i ==> !match_at(s, j, pat),
    ensures
        first_match(s, pat) == i,
{
    let k = first_match(s, pat);
    assert(match_at(s, k, pat) && forall|j: int| 0 <= j < k ==> !match_at(s, j, pat)) by {
        assert(match_at(s, i, pat) && forall|j: int| 0 <= j < i ==> !match_at(s, j, pat));
    }
    if k < i {
        assert(!match_at(s, k, pat));
    }
    if i < k {
        assert(!match_at(s, i, pat));
    }
}

/// `v` with its first occurrence of `pat` replaced by `rep`.
pub fn replace_once(v: &Vec<char>, pat: &Vec<char>, rep: &Vec<char>) -> (r: Vec<char>)
    ensures
        r@ == replace_once_spec(v@, pat@, rep@),
{
    match find_first(v, pat) {
        None => {
            let mut out: Vec<char> = Vec::new();
            push_all(&mut out, v);
            proof {
                assert(!(exists|i: int| match_at(v@, i, pat@)));
                assert(out@ =~= v@);
            }
            out
        },
        Some(i) => {
            proof {
                lemma_first_match(v@, pat@, i as int);
            }
            let n = v.len();
            let m = pat.len();
            let mut out: Vec<char> = Vec::new();
            let mut k: usize = 0;
            while k < i
                invariant
                    k <= i,
                    i + m <= n,
                    n == v@.len(),
                    out@ =~= v@.subrange(0, k as int),
                decreases i - k,
            {
                out.push(v[k]);
                k += 1;
            }
            push_all(&mut out, rep);
            let mut k2: usize = i + m;
            while k2 < n
                invariant
                    i + m <= k2 <= n,
                    n == v@.len(),
                    out@ =~= v@.subrange(0, i as int) + rep@ + v@.subrange(i + m, k2 as int),
                decreases n - k2,
            {
                out.push(v[k2]);
                k2 += 1;
            }
            proof {
                assert(out@ =~= v@.subrange(0, i as int) + rep@ + v@.skip(i + m));
            }
            out
        },
    }
}

/// The statement text with each `(pattern, rendered)` pair substituted
/// in order: the first occurrence of each pattern is replaced once.
pub open spec fn bind_spec(q: Seq<char>, params: Seq<(String, String)>) -> Seq<char>
    decreases params.len(),
{
    if params.len() == 0 {
        q
    } else {
        bind_spec(replace_once_spec(q, params[0].0@, params[0].1@), params.drop_first())
    }
}

/// The statement text with the rendered parameters substituted: for each
/// pair, the first occurrence of its pattern is replaced by its text.
pub fn bind_params(q: &str, params: &Vec<(String, String)>) -> (r: String)
    ensures
        r@ == bind_spec(q@, params@),
{
    let mut text = chars_of(q);
    let n = params.len();
    let mut i: usize = 0;
    proof {
        assert(params@.skip(0) =~= params@);
    }
    while i < n
        invariant
            i <= n,
            n == params@.len(),
            bind_spec(text@, params@.skip(i as int)) == bind_spec(q@, params@),
        decreases n - i,
    {
        let pat = chars_of(params[i].0.as_str());
        let rep = chars_of(params[i].1.as_str());
        proof {
            assert(params@.skip(i as int)[0] == params@[i as int]);
            assert(params@.skip(i as int).drop_first() =~= params@.skip(i as int + 1));
        }
        text = replace_once(&text, &pat, &rep);
        i += 1;
    }
    proof {
        assert(params@.skip(n as int) =~= Seq::<(String, String)>::empty());
    }
    string_of(&text)
}

/// `p` is a suffix of `s`.
pub open spec fn ends_with_spec(s: Seq<char>, p: Seq<char>) -> bool {
    p.len() <= s.len() && s.subrange(s.len() - p.len(), s.len() as int) == p
}

/// Whether `p` is a suffix of `v`.
pub fn ends_with(v: &Vec<char>, p: &Vec<char>) -> (r: bool)
    ensures
        r == ends_with_spec(v@, p@),
{
    let n = v.len();
    let m = p.len();
    if m > n {
        return false;
    }
    let mut k: usize = 0;
    while k < m
        invariant
            k <= m <= n,
            n == v@.len(),
            m == p@.len(),
            forall|t: int| 0 <= t < k ==> v@[n - m + t] == p@[t],
        decreases m - k,
    {
        if v[n - m + k] != p[k] {
            proof {
                assert(v@.subrange(n - m, n as int)[k as int] != p@[k as int]);
            }
            return false;
        }
        k += 1;
    }
    proof {
        assert(v@.subrange(n - m, n as int) =~= p@);
    }
    true
}

/// Whether a row is the task stream's trailing `(N rows)` annotation: a
/// single text cell ending in `row)` or `rows)`.
pub open spec fn is_summary_row(row: Seq<ColumnValue>) -> bool {
    row.len() == 1 && match row[0] {
        ColumnValue::Text(s) => ends_with_spec(s@, "row)"@) || ends_with_spec(s@, "rows)"@),
        _ => false,
    }
}

/// The rows without the trailing row-count annotation rows.
pub open spec fn spec_visible_rows(rows: Seq<Row>) -> Seq<Row>
    decreases rows.len(),
{
    if rows.len() == 0 {
        Seq::empty()
    } else {
        let rest = spec_visible_rows(rows.drop_first());
        if is_summary_row(rows[0]@) {
            rest
        } else {
            seq![rows[0]] + rest
        }
    }
}

/// The rows a front-end ships: every row but the `(N rows)` annotations.
pub fn visible_rows(rows: Vec<Row>) -> (r: Vec<Row>)
    ensures
        r@ == spec_visible_rows(rows@),
{
    let ghost rows0 = rows@;
    let n = rows.len();
    let mut rem = rows;
    let mut out: Vec<Row> = Vec::new();
    let mut i: usize = 0;
    proof {
        assert(rem@ == rows0.skip(0));
        assert(rows0.skip(0) =~= rows0);
    }
    while i < n
        invariant
            i <= n,
            n == rows0.len(),
            rem@ == rows0.skip(i as int),
            (spec_visible_rows(rows0) =~= out@ + spec_visible_rows(rows0.skip(i as int))),
        decreases n - i,
    {
        let row = rem.remove(0);
        proof {
            assert(rows0.skip(i as int)[0] == rows0[i as int]);
            assert(rows0.skip(i as int).drop_first() =~= rows0.skip(i as int + 1));
        }
        let keep = if row.len() == 1 {
            match &row[0] {
                ColumnValue::Text(s) => {
                    let sv = chars_of(s.as_str());
                    let p1 = chars_of("row)");
                    let p2 = chars_of("rows)");
                    !(ends_with(&sv, &p1) || ends_with(&sv, &p2))
                },
                _ => true,
            }
        } else {
            true
        };
        proof {
            assert(keep == !is_summary_row(rows0[i as int]@));
        }
        if keep {
            out.push(row);
            proof {
                assert(out@ + spec_visible_rows(rows0.skip(i as int + 1)) =~= out@.drop_last() + (
                seq![rows0[i as int]] + spec_visible_rows(rows0.skip(i as int + 1))));
            }
        }
        i += 1;
    }
    proof {
        assert(rows0.skip(n as int) =~= Seq::<Row>::empty());
        assert(out@ + Seq::<Row>::empty() =~= out@);
    }
    out
}

/// The cleaned portal text the describe step parses: constructs the
/// remote's parser cannot take are rewritten or dropped first.
pub open spec fn describe_cleaned(portal: Seq<char>) -> Seq<char> {
    let s1 = replace_spec(portal, "at time zone 'UTC'"@, ""@);
    let s2 = replace_spec(s1, "distinct"@, ""@);
    let s3 = replace_spec(s2, "from pg_user"@, "from pg_catalog.pg_user"@);
    let s4 = replace_spec(s3, "order by inhseqno)"@, ")"@);
    replace_spec(s4, "order by inhrelid)"@, ")"@)
}

/// The per-connection PostgreSQL front-end state: named statements, the
/// catalog used for describing, and the next stage.
pub struct PostgresBackend<T> {
    /// The next stage.
    pub executor: T,
    /// The named statements, in preparation order; a later name wins.
    pub queries: Vec<(String, String)>,
    /// The catalog the describe step resolves against.
    pub data_type_info: DataTypeInfo,
}

/// The last statement stored under a name.
pub open spec fn named_lookup(queries: Seq<(String, String)>, name: Seq<char>) -> Option<String>
    decreases queries.len(),
{
    if queries.len() == 0 {
        None
    } else if queries.last().0@ == name {
        Some(queries.last().1)
    } else {
        named_lookup(queries.drop_last(), name)
    }
}

impl<T> PostgresBackend<T> {
    /// A front-end over `executor`, describing against the given
    /// catalog.
    pub fn new(executor: T, data_type_info: DataTypeInfo) -> (r: Self)
        ensures
            r.executor == executor,
            r.data_type_info == data_type_info,
            r.queries@.len() == 0,
    {
        PostgresBackend { executor, queries: Vec::new(), data_type_info }
    }

    /// Store a statement under a name.
    pub fn prepare(&mut self, query_name: String, query: String)
        ensures
            final (self).queries@ == old(self).queries@.push((query_name, query)),
            final (self).executor == old(self).executor,
            final (self).data_type_info == old(self).data_type_info,
    {
        self.queries.push((query_name, query));
    }

    /// The statement stored under a name, as a copy.
    pub fn lookup(&self, query_name: &str) -> (r: Option<String>)
        ensures
            match r {
                Some(q) => named_lookup(self.queries@, query_name@) matches Some(q2) && q@ == q2@,
                None => named_lookup(self.queries@, query_name@) is None,
            },
    {
        let qv = chars_of(query_name);
        let n = self.queries.len();
        let mut i: usize = n;
        proof {
            assert(self.queries@.take(n as int) =~= self.queries@);
        }
        while i > 0
            invariant
                i <= n,
                n == self.queries@.len(),
                qv@ == query_name@,
                named_lookup(self.queries@, query_name@) == named_lookup(
                    self.queries@.take(i as int),
                    query_name@,
                ),
            decreases i,
        {
            i -= 1;
            proof {
                assert(self.queries@.take(i as int + 1).last() == self.queries@[i as int]);
                assert(self.queries@.take(i as int + 1).drop_last() =~= self.queries@.take(
                    i as int,
                ));
            }
            let key = chars_of(self.queries[i].0.as_str());
            if eq_chars(&key, &qv) {
                return Some(self.queries[i].1.clone());
            }
        }
        proof {
            assert(self.queries@.take(0) =~= Seq::<(String, String)>::empty());
        }
        None
    }

    /// The portal for a named statement: its text with the rendered
    /// parameters substituted; nothing when the name is unknown.
    pub fn bind(&self, query_name: &str, params: &Vec<(String, String)>) -> (r: Option<String>)
        ensures
            match r {
                Some(portal) => named_lookup(self.queries@, query_name@) matches Some(q)
                    && portal@ == bind_spec(q@, params@),
                None => named_lookup(self.queries@, query_name@) is None,
            },
    {
        match self.lookup(query_name) {
            Some(q) => Some(bind_params(q.as_str(), params)),
            None => None,
        }
    }

    /// Describe a portal by parsing it and resolving its projection
    /// against the catalog under the `public` schema: the output columns
    /// with their wire types, or nothing for an empty projection.
    /// Synthetic catalog rows of derived tables stay in the catalog.
    pub fn describe_by_parsing_query(&mut self, portal: &str) -> (r: Result<
        Option<Vec<(String, PgType)>>,
        InferError,
    >)
        ensures
            final (self).executor == old(self).executor,
            final (self).queries == old(self).queries,
            ({
                let cleaned = describe_cleaned(portal@);
                match pg_parse_of(cleaned) {
                    None => r == Err::<Option<Vec<(String, PgType)>>, InferError>(
                        InferError::ParseFailed,
                    ) && final (self).data_type_info == old(self).data_type_info,
                    Some(ast) => {
                        &&& final (self).data_type_info.catalog() == spec_infer_cat(
                            old(self).data_type_info.catalog(),
                            "public"@,
                            ast@,
                        )
                        &&& match spec_infer(
                            old(self).data_type_info.catalog(),
                            "public"@,
                            ast@,
                        ) {
                            Err(e) => r == Err::<Option<Vec<(String, PgType)>>, InferError>(e),
                            Ok(types) => {
                                if types.len() == 0 {
                                    r matches Ok(None)
                                } else {
                                    r matches Ok(Some(cols)) && cols@.len() == types.len()
                                        && forall|i: int|
                                        0 <= i < types.len() ==> (#[trigger] cols@[i]).0@
                                            == types[i].0 && cols@[i].1 == spec_pg_type(
                                            low_opt(types[i].1),
                                        )
                                }
                            },
                        }
                    },
                }
            }),
    {
        let pv = chars_of(portal);
        let p1 = chars_of("at time zone 'UTC'");
        let p2 = chars_of("distinct");
        let p3 = chars_of("from pg_user");
        let r3 = chars_of("from pg_catalog.pg_user");
        let p4 = chars_of("order by inhseqno)");
        let p5 = chars_of("order by inhrelid)");
        let rp = chars_of(")");
        let empty_rep: Vec<char> = Vec::new();
        proof {
            assert(p1@.len() == 18) by {
                reveal_strlit("at time zone 'UTC'");
            }
            assert(p2@.len() == 8) by {
                reveal_strlit("distinct");
            }
            assert(p3@.len() == 12) by {
                reveal_strlit("from pg_user");
            }
            assert(p4@.len() == 18) by {
                reveal_strlit("order by inhseqno)");
            }
            assert(p5@.len() == 18) by {
                reveal_strlit("order by inhrelid)");
            }
            assert(empty_rep@ =~= ""@) by {
                reveal_strlit("");
            }
        }
        let s1 = replace_all(&pv, &p1, &empty_rep);
        let s2 = replace_all(&s1, &p2, &empty_rep);
        let s3 = replace_all(&s2, &p3, &r3);
        let s4 = replace_all(&s3, &p4, &rp);
        let s5 = replace_all(&s4, &p5, &rp);
        let cleaned = string_of(&s5);
        match parse_postgres(cleaned.as_str()) {
            None => Err(InferError::ParseFailed),
            Some(ast) => {
                match self.data_type_info.get_columns_types_from_ast("public", ast) {
                    Err(e) => Err(e),
                    Ok(types) => {
                        if types.len() == 0 {
                            return Ok(None);
                        }
                        let ghost typesv = types@;
                        let m = types.len();
                        let mut rem = types;
                        let mut cols: Vec<(String, PgType)> = Vec::new();
                        let mut i: usize = 0;
                        proof {
                            assert(rem@ == typesv.skip(0));
                        }
                        while i < m
                            invariant
                                i <= m,
                                m == typesv.len(),
                                rem@ == typesv.skip(i as int),
                                cols@.len() == i,
                                forall|k: int|
                                    0 <= k < i ==> (#[trigger] cols@[k]).0@ == typesv[k].0@
                                        && cols@[k].1 == spec_pg_type(
                                        low_opt(opt_view(typesv[k].1)),
                                    ),
                            decreases m - i,
                        {
                            let nt = rem.remove(0);
                            proof {
                                assert(typesv.skip(i as int)[0] == typesv[i as int]);
                                assert(typesv.skip(i as int).drop_first() =~= typesv.skip(
                                    i as int + 1,
                                ));
                            }
                            let pg = pg_type_of(&nt.1);
                            cols.push((nt.0, pg));
                            i += 1;
                        }
                        proof {
                            assert forall|k: int| 0 <= k < m implies (#[trigger] cols@[k]).0@
                                == nts_view(typesv)[k].0 && cols@[k].1 == spec_pg_type(
                                low_opt(nts_view(typesv)[k].1),
                            ) by {
                                assert(nts_view(typesv)[k] == (typesv[k].0@, opt_view(
                                    typesv[k].1,
                                )));
                            }
                        }
                        Ok(Some(cols))
                    },
                }
            },
        }
    }
}

/// The session defaults a front-end reads from the stacked `show`
/// queries: every third row's first cell, which must be text; a missing
/// or non-text cell yields nothing.
pub open spec fn spec_session_defaults(rows: Seq<Row>) -> Option<Seq<Seq<char>>>
    decreases rows.len(),
{
    if rows.len() == 0 {
        Some(Seq::empty())
    } else if rows[0]@.len() == 0 {
        None
    } else {
        match rows[0]@[0] {
            ColumnValue::Text(s) => {
                let rest = if rows.len() >= 3 {
                    spec_session_defaults(rows.skip(3))
                } else {
                    Some(Seq::<Seq<char>>::empty())
                };
                match rest {
                    Some(vs) => Some(seq![s@] + vs),
                    None => None,
                }
            },
            _ => None,
        }
    }
}


/// The session defaults from row `i` on, as `spec_session_defaults`
/// states them for the remaining rows.
fn session_defaults_from(rows: &Vec<Row>, i: usize) -> (r: Option<Vec<String>>)
    requires
        i <= rows@.len(),
    ensures
        match r {
            Some(vs) => spec_session_defaults(rows@.skip(i as int)) matches Some(ws) && vs@.len()
                == ws.len() && forall|k: int| 0 <= k < ws.len() ==> (#[trigger] vs@[k])@ == ws[k],
            None => spec_session_defaults(rows@.skip(i as int)) is None,
        },
    decreases rows@.len() - i,
{
    let ghost suf = rows@.skip(i as int);
    if i >= rows.len() {
        proof {
            assert(suf =~= Seq::<Row>::empty());
        }
        let empty_out: Vec<String> = Vec::new();
        return Some(empty_out);
    }
    proof {
        assert(suf[0] == rows@[i as int]);
    }
    let row = &rows[i];
    if row.len() == 0 {
        return None;
    }
    match &row[0] {
        ColumnValue::Text(s) => {
            let rest = if rows.len() >= 3 && i <= rows.len() - 3 {
                proof {
                    assert(i + 3 <= rows@.len());
                    assert(suf.skip(3) =~= rows@.skip(i as int + 3));
                }
                session_defaults_from(rows, i + 3)
            } else {
                proof {
                    assert(suf.len() < 3);
                }
                let empty_out: Vec<String> = Vec::new();
                Some(empty_out)
            };
            match rest {
                None => None,
                Some(mut vs) => {
                    let ghost vs0 = vs@;
                    let mut out: Vec<String> = Vec::new();
                    out.push(s.clone());
                    out.append(&mut vs);
                    proof {
                        assert(out@.len() == 1 + vs0.len());
                        assert(out@[0] == out@[0]);
                        match spec_session_defaults(suf) {
                            Some(ws) => {
                                assert forall|k: int| 0 <= k < ws.len() implies (
                                #[trigger] out@[k])@ == ws[k] by {
                                    if k == 0 {
                                        assert(suf[0]@[0] matches ColumnValue::Text(t)
                                            && out@[0]@ == t@);
                                    } else {
                                        assert(out@[k] == vs0[k - 1]);
                                    }
                                }
                            },
                            None => {
                                assert(false);
                            },
                        }
                    }
                    Some(out)
                },
            }
        },
        _ => None,
    }
}

/// The session defaults a front-end reads from the stacked `show`
/// queries, as `spec_session_defaults` states them.
pub fn session_defaults(rows: &Vec<Row>) -> (r: Option<Vec<String>>)
    ensures
        match r {
            Some(vs) => spec_session_defaults(rows@) matches Some(ws) && vs@.len() == ws.len()
                && forall|k: int| 0 <= k < ws.len() ==> (#[trigger] vs@[k])@ == ws[k],
            None => spec_session_defaults(rows@) is None,
        },
{
    let r = session_defaults_from(rows, 0);
    proof {
        assert(rows@.skip(0) =~= rows@);
    }
    r
}

} // verus!
