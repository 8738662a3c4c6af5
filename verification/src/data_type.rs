//! Type inference: resolving a query's projection against the schema
//! catalog.
//!
//! The catalog is a list of `(schema, table, column, type)` rows read
//! from the target's `INFORMATION_SCHEMA.COLUMNS`. Inference collects
//! the tables a `SELECT` draws from, builds `(alias, column, type)`
//! triples from the catalog, and resolves each projected expression to
//! an output name and an optional type tag. A derived table adds
//! synthetic catalog rows under its alias so that later references
//! resolve against it.

use vstd::prelude::*;

use crate::ast::{parse_of, parse_sql, FromItem, ProjItem, QueryBody, SqlDialect, SqlExpr, SqlStatement, TableSource};
use crate::error::QueryError;
use crate::executor::{QueryExecutor, QueryResult};
use crate::text::{
    chars_of, eq_chars, is_space, is_space_exec, join_spec, lower_of, lowercase, push_all,
    replace_all, replace_spec, seq_views, starts_with, starts_with_spec, string_of,
};
use crate::value::{
    date_parse_of, datetime_parse_of, int_text_val, is_int_text, parse_date_text,
    parse_datetime_text, parse_i16, parse_i32, parse_i64, parse_i8, Column, ColumnValue, Row,
};

verus! {

/// One catalog row: schema, table, column, and the column's type tag.
pub type CatalogRow = (String, String, String, Option<String>);

/// The view of an optional string.
pub open spec fn opt_view(o: Option<String>) -> Option<Seq<char>> {
    match o {
        Some(s) => Some(s@),
        None => None,
    }
}

/// The view of one catalog row.
pub open spec fn cat_view(r: CatalogRow) -> (Seq<char>, Seq<char>, Seq<char>, Option<Seq<char>>) {
    (r.0@, r.1@, r.2@, opt_view(r.3))
}

/// The views of a catalog.
pub open spec fn cats_view(s: Seq<CatalogRow>) -> Seq<
    (Seq<char>, Seq<char>, Seq<char>, Option<Seq<char>>),
> {
    Seq::new(s.len(), |i: int| cat_view(s[i]))
}

/// An `(alias, column, type)` triple.
pub type Triple = (String, String, Option<String>);

/// The view of one triple.
pub open spec fn triple_view(t: Triple) -> (Seq<char>, Seq<char>, Option<Seq<char>>) {
    (t.0@, t.1@, opt_view(t.2))
}

/// The views of a triple list.
pub open spec fn triples_view(s: Seq<Triple>) -> Seq<(Seq<char>, Seq<char>, Option<Seq<char>>)> {
    Seq::new(s.len(), |i: int| triple_view(s[i]))
}

/// An output column: its name and its optional type tag.
pub type NameAndType = (String, Option<String>);

/// The view of one output column.
pub open spec fn nt_view(t: NameAndType) -> (Seq<char>, Option<Seq<char>>) {
    (t.0@, opt_view(t.1))
}

/// The views of an output column list.
pub open spec fn nts_view(s: Seq<NameAndType>) -> Seq<(Seq<char>, Option<Seq<char>>)> {
    Seq::new(s.len(), |i: int| nt_view(s[i]))
}

/// Why inference gave up on a query; the query is then forwarded with no
/// types attached.
#[derive(Clone, Copy, Debug, PartialEq, Eq, Structural)]
pub enum InferError {
    /// More than one statement in the text.
    MultiStatement,
    /// A statement kind inference does not handle.
    UnsupportedStatement,
    /// A query body that is neither a `SELECT` nor a `UNION`.
    UnsupportedBody,
    /// A table in `FROM` that is neither a named table nor a subquery.
    UnsupportedTable,
    /// A table name with no part or more than two dotted parts.
    TableNameParts,
    /// A derived table without an alias.
    MissingAlias,
    /// A projection item inference does not handle.
    UnsupportedProjection,
    /// A qualified wildcard with no part or more than two dotted parts.
    WildcardParts,
    /// A dotted identifier with fewer or more than two parts.
    IdentParts,
    /// The text did not parse at all.
    ParseFailed,
    /// An `if` or `max` call without the expected plain arguments.
    BadCall,
}

/// The catalog's `(alias, column, type)` triples for one table, under
/// the given alias: one triple per catalog row of that schema and table,
/// in catalog order.
pub open spec fn spec_triples_for_table(
    cat: Seq<(Seq<char>, Seq<char>, Seq<char>, Option<Seq<char>>)>,
    schema: Seq<char>,
    table: Seq<char>,
    alias: Seq<char>,
) -> Seq<(Seq<char>, Seq<char>, Option<Seq<char>>)>
    decreases cat.len(),
{
    if cat.len() == 0 {
        Seq::empty()
    } else {
        let rest = spec_triples_for_table(cat.drop_first(), schema, table, alias);
        if cat[0].0 == schema && cat[0].1 == table {
            seq![(alias, cat[0].2, cat[0].3)] + rest
        } else {
            rest
        }
    }
}

/// The triples for a list of resolved tables, in table order.
pub open spec fn spec_triples(
    tables: Seq<(Seq<char>, Seq<char>, Seq<char>)>,
    cat: Seq<(Seq<char>, Seq<char>, Seq<char>, Option<Seq<char>>)>,
) -> Seq<(Seq<char>, Seq<char>, Option<Seq<char>>)>
    decreases tables.len(),
{
    if tables.len() == 0 {
        Seq::empty()
    } else {
        spec_triples_for_table(cat, tables[0].0, tables[0].1, tables[0].2) + spec_triples(
            tables.drop_first(),
            cat,
        )
    }
}

/// The first triple whose column is `column` (and, when `table` is
/// given, whose alias is `table`); an unresolved name keeps the column
/// name and gets no type.
pub open spec fn spec_find_type(
    triples: Seq<(Seq<char>, Seq<char>, Option<Seq<char>>)>,
    column: Seq<char>,
    table: Option<Seq<char>>,
) -> (Seq<char>, Option<Seq<char>>)
    decreases triples.len(),
{
    if triples.len() == 0 {
        (column, None)
    } else if (match table {
        Some(t) => triples[0].0 == t && triples[0].1 == column,
        None => triples[0].1 == column,
    }) {
        (triples[0].1, triples[0].2)
    } else {
        spec_find_type(triples.drop_first(), column, table)
    }
}

/// The output name and type of one projected expression.
pub open spec fn spec_expr_type(
    triples: Seq<(Seq<char>, Seq<char>, Option<Seq<char>>)>,
    e: SqlExpr,
) -> Result<(Seq<char>, Option<Seq<char>>), InferError>
    decreases e,
{
    match e {
        SqlExpr::Ident(name) => Ok(spec_find_type(triples, name@, None)),
        SqlExpr::CompoundIdent(parts) => {
            if parts@.len() != 2 {
                Err(InferError::IdentParts)
            } else {
                Ok(spec_find_type(triples, parts@[1]@, Some(parts@[0]@)))
            }
        },
        SqlExpr::Call { name, args } => {
            if name@ == "if"@ {
                if args@.len() >= 3 && args@[1] is Some && args@[2] is Some {
                    match spec_expr_type(triples, args@[1]->0) {
                        Err(e) => Err(e),
                        Ok(first) => match spec_expr_type(triples, args@[2]->0) {
                            Err(e) => Err(e),
                            Ok(second) => if first.1 is None {
                                Ok(second)
                            } else {
                                Ok(first)
                            },
                        },
                    }
                } else {
                    Err(InferError::BadCall)
                }
            } else if name@ == "max"@ {
                if args@.len() >= 1 && args@[0] is Some {
                    spec_expr_type(triples, args@[0]->0)
                } else {
                    Err(InferError::BadCall)
                }
            } else {
                Ok((name@, None))
            }
        },
        SqlExpr::Cast { inner, ty } => match spec_expr_type(triples, *inner) {
            Err(e) => Err(e),
            Ok(first) => Ok((first.0, Some(ty@))),
        },
        SqlExpr::IsNull(inner) => match spec_expr_type(triples, *inner) {
            Err(e) => Err(e),
            Ok(first) => Ok((first.0, Some("tinyint"@))),
        },
        SqlExpr::IsNotNull(inner) => match spec_expr_type(triples, *inner) {
            Err(e) => Err(e),
            Ok(first) => Ok((first.0, Some("tinyint"@))),
        },
        SqlExpr::Unsupported => Ok(("unknown"@, None)),
    }
}

/// The triples whose alias is `alias`, as output columns.
pub open spec fn spec_wildcard_cols(
    triples: Seq<(Seq<char>, Seq<char>, Option<Seq<char>>)>,
    alias: Option<Seq<char>>,
) -> Seq<(Seq<char>, Option<Seq<char>>)>
    decreases triples.len(),
{
    if triples.len() == 0 {
        Seq::empty()
    } else {
        let rest = spec_wildcard_cols(triples.drop_first(), alias);
        let keep = match alias {
            Some(a) => triples[0].0 == a,
            None => true,
        };
        if keep {
            seq![(triples[0].1, triples[0].2)] + rest
        } else {
            rest
        }
    }
}

/// The output columns of one projection item.
pub open spec fn spec_item_types(
    triples: Seq<(Seq<char>, Seq<char>, Option<Seq<char>>)>,
    item: ProjItem,
) -> Result<Seq<(Seq<char>, Option<Seq<char>>)>, InferError> {
    match item {
        ProjItem::Expr(e) => match spec_expr_type(triples, e) {
            Err(err) => Err(err),
            Ok(nt) => Ok(seq![nt]),
        },
        ProjItem::Aliased(e, alias) => match spec_expr_type(triples, e) {
            Err(err) => Err(err),
            Ok(nt) => Ok(seq![(alias@, nt.1)]),
        },
        ProjItem::QualifiedWildcard(parts) => {
            if parts@.len() > 2 || parts@.len() == 0 {
                Err(InferError::WildcardParts)
            } else {
                Ok(spec_wildcard_cols(triples, Some(parts@[0]@)))
            }
        },
        ProjItem::Wildcard => Ok(spec_wildcard_cols(triples, None)),
        ProjItem::Unsupported => Err(InferError::UnsupportedProjection),
    }
}

/// The output columns of a projection, item by item.
pub open spec fn spec_proj_types(
    triples: Seq<(Seq<char>, Seq<char>, Option<Seq<char>>)>,
    items: Seq<ProjItem>,
) -> Result<Seq<(Seq<char>, Option<Seq<char>>)>, InferError>
    decreases items.len(),
{
    if items.len() == 0 {
        Ok(Seq::empty())
    } else {
        match spec_item_types(triples, items[0]) {
            Err(err) => Err(err),
            Ok(first) => match spec_proj_types(triples, items.drop_first()) {
                Err(err) => Err(err),
                Ok(rest) => Ok(first + rest),
            },
        }
    }
}

/// The output columns of a query body, given resolved triples: a
/// `SELECT` resolves its projection, a `UNION` resolves its left side.
pub open spec fn spec_body_types(
    triples: Seq<(Seq<char>, Seq<char>, Option<Seq<char>>)>,
    body: QueryBody,
) -> Result<Seq<(Seq<char>, Option<Seq<char>>)>, InferError>
    decreases body,
{
    match body {
        QueryBody::Select { from, projection } => spec_proj_types(triples, projection@),
        QueryBody::Union { left } => spec_body_types(triples, *left),
        QueryBody::Unsupported => Err(InferError::UnsupportedBody),
    }
}

/// One `FROM` table resolved to `(schema, table, alias)`, together with
/// the catalog after it: a named table resolves against the default
/// schema and leaves the catalog alone; a derived table resolves its own
/// subquery and adds one synthetic catalog row per projected column
/// under its alias.
pub open spec fn spec_factor(
    f: TableSource,
    cat: Seq<(Seq<char>, Seq<char>, Seq<char>, Option<Seq<char>>)>,
    default_schema: Seq<char>,
) -> Result<
    ((Seq<char>, Seq<char>, Seq<char>), Seq<(Seq<char>, Seq<char>, Seq<char>, Option<Seq<char>>)>),
    InferError,
>
    decreases f, 0int, 0int,
{
    match f {
        TableSource::Named { parts, alias } => {
            if parts@.len() == 1 {
                let table = parts@[0]@;
                let a = match alias {
                    Some(al) => al@,
                    None => table,
                };
                Ok(((default_schema, table, a), cat))
            } else if parts@.len() == 2 {
                let table = parts@[1]@;
                let a = match alias {
                    Some(al) => al@,
                    None => table,
                };
                Ok(((parts@[0]@, table, a), cat))
            } else {
                Err(InferError::TableNameParts)
            }
        },
        TableSource::Derived { body, alias } => match *body {
            QueryBody::Select { from, projection } => match spec_fold_from(
                from,
                0,
                cat,
                default_schema,
            ) {
                Err(e) => Err(e),
                Ok((sub_tables, temp_cat)) => {
                    let triples = spec_triples(sub_tables, temp_cat);
                    match spec_proj_types(triples, projection@) {
                        Err(e) => Err(e),
                        Ok(cols) => match alias {
                            None => Err(InferError::MissingAlias),
                            Some(al) => Ok(
                                (
                                    (al@, al@, al@),
                                    cat + Seq::new(
                                        cols.len(),
                                        |i: int| (al@, al@, cols[i].0, cols[i].1),
                                    ),
                                ),
                            ),
                        },
                    }
                },
            },
            _ => Err(InferError::UnsupportedBody),
        },
        TableSource::Unsupported => Err(InferError::UnsupportedTable),
    }
}

/// The `FROM` entries from position `i` on, resolved in order: each
/// entry's leading table, then its joined tables, each against the
/// catalog left by the tables before it.
pub open spec fn spec_fold_from(
    from: Vec<FromItem>,
    i: int,
    cat: Seq<(Seq<char>, Seq<char>, Seq<char>, Option<Seq<char>>)>,
    default_schema: Seq<char>,
) -> Result<
    (
        Seq<(Seq<char>, Seq<char>, Seq<char>)>,
        Seq<(Seq<char>, Seq<char>, Seq<char>, Option<Seq<char>>)>,
    ),
    InferError,
>
    decreases from, from@.len() - i, 1int,
{
    if i < 0 || i >= from@.len() {
        Ok((Seq::empty(), cat))
    } else {
        match spec_factor(from@[i].relation, cat, default_schema) {
            Err(e) => Err(e),
            Ok((t, cat1)) => match spec_fold_joins(from@[i].joins, 0, cat1, default_schema) {
                Err(e) => Err(e),
                Ok((js, cat2)) => match spec_fold_from(from, i + 1, cat2, default_schema) {
                    Err(e) => Err(e),
                    Ok((rest, cat3)) => Ok((seq![t] + js + rest, cat3)),
                },
            },
        }
    }
}

/// The joined tables from position `j` on, resolved in order.
pub open spec fn spec_fold_joins(
    joins: Vec<TableSource>,
    j: int,
    cat: Seq<(Seq<char>, Seq<char>, Seq<char>, Option<Seq<char>>)>,
    default_schema: Seq<char>,
) -> Result<
    (
        Seq<(Seq<char>, Seq<char>, Seq<char>)>,
        Seq<(Seq<char>, Seq<char>, Seq<char>, Option<Seq<char>>)>,
    ),
    InferError,
>
    decreases joins, joins@.len() - j, 1int,
{
    if j < 0 || j >= joins@.len() {
        Ok((Seq::empty(), cat))
    } else {
        match spec_factor(joins@[j], cat, default_schema) {
            Err(e) => Err(e),
            Ok((t, cat1)) => match spec_fold_joins(joins, j + 1, cat1, default_schema) {
                Err(e) => Err(e),
                Ok((rest, cat2)) => Ok((seq![t] + rest, cat2)),
            },
        }
    }
}

/// The tables a query body draws from, with the catalog the resolution
/// leaves behind: a `SELECT` resolves its `FROM` list, a `UNION`
/// resolves its left side.
pub open spec fn spec_body_tables(
    body: QueryBody,
    cat: Seq<(Seq<char>, Seq<char>, Seq<char>, Option<Seq<char>>)>,
    default_schema: Seq<char>,
) -> Result<
    (
        Seq<(Seq<char>, Seq<char>, Seq<char>)>,
        Seq<(Seq<char>, Seq<char>, Seq<char>, Option<Seq<char>>)>,
    ),
    InferError,
>
    decreases body,
{
    match body {
        QueryBody::Select { from, projection } => spec_fold_from(from, 0, cat, default_schema),
        QueryBody::Union { left } => spec_body_tables(*left, cat, default_schema),
        QueryBody::Unsupported => Err(InferError::UnsupportedBody),
    }
}

/// The inferred output columns of a statement list against a catalog: no
/// statement infers nothing; a single query resolves its tables and then
/// its projection; a single `SHOW <variable>` yields one text column
/// named by joining the variable parts with `_`.
pub open spec fn spec_infer(
    cat: Seq<(Seq<char>, Seq<char>, Seq<char>, Option<Seq<char>>)>,
    default_schema: Seq<char>,
    ast: Seq<SqlStatement>,
) -> Result<Seq<(Seq<char>, Option<Seq<char>>)>, InferError> {
    if ast.len() == 0 {
        Ok(Seq::empty())
    } else if ast.len() > 1 {
        Err(InferError::MultiStatement)
    } else {
        match ast[0] {
            SqlStatement::Query(body) => match spec_body_tables(body, cat, default_schema) {
                Err(e) => Err(e),
                Ok((tables, cat1)) => spec_body_types(spec_triples(tables, cat1), body),
            },
            SqlStatement::ShowVariable(parts) => Ok(
                seq![
                    (
                        join_spec(Seq::new(parts@.len(), |i: int| parts@[i]@), "_"@),
                        Some("text"@),
                    ),
                ],
            ),
            SqlStatement::Unsupported => Err(InferError::UnsupportedStatement),
        }
    }
}


/// A copy of an optional string, equal to the original.
fn clone_opt(o: &Option<String>) -> (r: Option<String>)
    ensures
        r == *o,
{
    match o {
        Some(s) => Some(s.clone()),
        None => None,
    }
}

/// Whether `s` holds exactly the text `lit`.
fn str_is(s: &String, lit: &str) -> (r: bool)
    ensures
        r == (s@ == lit@),
{
    let a = chars_of(s.as_str());
    let b = chars_of(lit);
    eq_chars(&a, &b)
}

/// The view of an inference result.
pub open spec fn infer_result_view(r: Result<Vec<NameAndType>, InferError>) -> Result<
    Seq<(Seq<char>, Option<Seq<char>>)>,
    InferError,
> {
    match r {
        Ok(v) => Ok(nts_view(v@)),
        Err(e) => Err(e),
    }
}

/// The first triple for `column` (and `table`, when given), as
/// `spec_find_type` states it.
fn find_type(
    triples: &Vec<Triple>,
    column: &String,
    table: Option<&String>,
) -> (r: NameAndType)
    ensures
        nt_view(r) == spec_find_type(
            triples_view(triples@),
            column@,
            match table {
                Some(t) => Some(t@),
                None => None,
            },
        ),
{
    let ghost tv = triples_view(triples@);
    let ghost tbl: Option<Seq<char>> = match table {
        Some(t) => Some(t@),
        None => None,
    };
    let n = triples.len();
    let mut i: usize = 0;
    proof {
        assert(tv.skip(0) =~= tv);
    }
    while i < n
        invariant
            i <= n,
            n == triples@.len(),
            tv == triples_view(triples@),
            tbl == (match table {
                Some(t) => Some(t@),
                None => None,
            }),
            spec_find_type(tv, column@, tbl) == spec_find_type(tv.skip(i as int), column@, tbl),
        decreases n - i,
    {
        let hit = match table {
            Some(t) => {
                let alias_ok = triples[i].0 == *t;
                alias_ok && triples[i].1 == *column
            },
            None => triples[i].1 == *column,
        };
        proof {
            assert(tv.skip(i as int)[0] == triple_view(triples@[i as int]));
            assert(tv.skip(i as int).drop_first() =~= tv.skip(i as int + 1));
        }
        if hit {
            let r = (triples[i].1.clone(), clone_opt(&triples[i].2));
            return r;
        }
        i += 1;
    }
    proof {
        assert(tv.skip(n as int) =~= Seq::<(Seq<char>, Seq<char>, Option<Seq<char>>)>::empty());
    }
    (column.clone(), None)
}

/// The output name and type of one projected expression, as
/// `spec_expr_type` states it.
fn expr_type(triples: &Vec<Triple>, e: &SqlExpr) -> (r: Result<NameAndType, InferError>)
    ensures
        match r {
            Ok(nt) => spec_expr_type(triples_view(triples@), *e) == Ok::<
                (Seq<char>, Option<Seq<char>>),
                InferError,
            >(nt_view(nt)),
            Err(er) => spec_expr_type(triples_view(triples@), *e) == Err::<
                (Seq<char>, Option<Seq<char>>),
                InferError,
            >(er),
        },
    decreases *e,
{
    match e {
        SqlExpr::Ident(name) => Ok(find_type(triples, name, None)),
        SqlExpr::CompoundIdent(parts) => {
            if parts.len() != 2 {
                Err(InferError::IdentParts)
            } else {
                Ok(find_type(triples, &parts[1], Some(&parts[0])))
            }
        },
        SqlExpr::Call { name, args } => {
            if str_is(name, "if") {
                if args.len() >= 3 {
                    let a1 = &args[1];
                    let a2 = &args[2];
                    match (a1, a2) {
                        (Some(e1), Some(e2)) => {
                            let first = expr_type(triples, e1)?;
                            let second = expr_type(triples, e2)?;
                            match first.1 {
                                None => Ok(second),
                                Some(t) => Ok((first.0, Some(t))),
                            }
                        },
                        _ => Err(InferError::BadCall),
                    }
                } else {
                    Err(InferError::BadCall)
                }
            } else if str_is(name, "max") {
                if args.len() >= 1 {
                    match &args[0] {
                        Some(e0) => expr_type(triples, e0),
                        None => Err(InferError::BadCall),
                    }
                } else {
                    Err(InferError::BadCall)
                }
            } else {
                Ok((name.clone(), None))
            }
        },
        SqlExpr::Cast { inner, ty } => {
            let first = expr_type(triples, inner)?;
            Ok((first.0, Some(ty.clone())))
        },
        SqlExpr::IsNull(inner) => {
            let first = expr_type(triples, inner)?;
            Ok((first.0, Some(String::from_str("tinyint"))))
        },
        SqlExpr::IsNotNull(inner) => {
            let first = expr_type(triples, inner)?;
            Ok((first.0, Some(String::from_str("tinyint"))))
        },
        SqlExpr::Unsupported => Ok((String::from_str("unknown"), None)),
    }
}

/// The triples under `alias` (or all of them), as output columns.
fn wildcard_cols(triples: &Vec<Triple>, alias: Option<&String>) -> (r: Vec<NameAndType>)
    ensures
        nts_view(r@) == spec_wildcard_cols(
            triples_view(triples@),
            match alias {
                Some(a) => Some(a@),
                None => None,
            },
        ),
{
    let ghost tv = triples_view(triples@);
    let ghost av: Option<Seq<char>> = match alias {
        Some(a) => Some(a@),
        None => None,
    };
    let n = triples.len();
    let mut out: Vec<NameAndType> = Vec::new();
    proof {
        assert(tv.skip(n as int) =~= Seq::<(Seq<char>, Seq<char>, Option<Seq<char>>)>::empty());
        assert(nts_view(out@) =~= spec_wildcard_cols(tv.skip(n as int), av));
    }
    let mut i: usize = n;
    while i > 0
        invariant
            i <= n,
            n == triples@.len(),
            tv == triples_view(triples@),
            av == (match alias {
                Some(a) => Some(a@),
                None => None,
            }),
            nts_view(out@) == spec_wildcard_cols(tv.skip(i as int), av),
        decreases i,
    {
        i -= 1;
        proof {
            assert(tv.skip(i as int)[0] == triple_view(triples@[i as int]));
            assert(tv.skip(i as int).drop_first() =~= tv.skip(i as int + 1));
        }
        let keep = match alias {
            Some(a) => triples[i].0 == *a,
            None => true,
        };
        if keep {
            out.insert(0, (triples[i].1.clone(), clone_opt(&triples[i].2)));
            proof {
                assert(nts_view(out@) =~= seq![
                    (triples@[i as int].1@, opt_view(triples@[i as int].2)),
                ] + spec_wildcard_cols(tv.skip(i as int + 1), av));
            }
        }
        proof {
            assert(nts_view(out@) =~= spec_wildcard_cols(tv.skip(i as int), av));
        }
    }
    proof {
        assert(tv.skip(0) =~= tv);
    }
    out
}

/// The output columns of a projection, as `spec_proj_types` states them.
#[verifier::loop_isolation(false)]
fn proj_types(triples: &Vec<Triple>, items: &Vec<ProjItem>) -> (r: Result<
    Vec<NameAndType>,
    InferError,
>)
    ensures
        infer_result_view(r) == spec_proj_types(triples_view(triples@), items@),
{
    let ghost tv = triples_view(triples@);
    let n = items.len();
    let mut out: Vec<NameAndType> = Vec::new();
    let mut i: usize = 0;
    proof {
        assert(items@.skip(0) =~= items@);
        assert(nts_view(out@) =~= Seq::<(Seq<char>, Option<Seq<char>>)>::empty());
    }
    while i < n
        invariant
            i <= n,
            n == items@.len(),
            (match spec_proj_types(tv, items@.skip(i as int)) {
                Err(e) => spec_proj_types(tv, items@) == Err::<
                    Seq<(Seq<char>, Option<Seq<char>>)>,
                    InferError,
                >(e),
                Ok(rest) => spec_proj_types(tv, items@) == Ok::<
                    Seq<(Seq<char>, Option<Seq<char>>)>,
                    InferError,
                >(nts_view(out@) + rest),
            }),
        decreases n - i,
    {
        proof {
            assert(items@.skip(i as int)[0] == items@[i as int]);
            assert(items@.skip(i as int).drop_first() =~= items@.skip(i as int + 1));
        }
        let ghost out_before = out@;
        match &items[i] {
            ProjItem::Expr(e) => {
                match expr_type(triples, e) {
                    Ok(nt) => {
                        out.push(nt);
                    },
                    Err(er) => {
                        return Err(er);
                    },
                }
            },
            ProjItem::Aliased(e, alias) => {
                match expr_type(triples, e) {
                    Ok(nt) => {
                        out.push((alias.clone(), nt.1));
                    },
                    Err(er) => {
                        return Err(er);
                    },
                }
            },
            ProjItem::QualifiedWildcard(parts) => {
                if parts.len() > 2 || parts.len() == 0 {
                    return Err(InferError::WildcardParts);
                }
                let mut cols = wildcard_cols(triples, Some(&parts[0]));
                let ghost colsv = cols@;
                let m = cols.len();
                let mut k: usize = 0;
                while k < m
                    invariant
                        k <= m,
                        m == colsv.len(),
                        cols@ == colsv.skip(k as int),
                        out@ == out_before + colsv.take(k as int),
                    decreases m - k,
                {
                    let c = cols.remove(0);
                    proof {
                        assert(colsv.skip(k as int)[0] == colsv[k as int]);
                        assert(colsv.skip(k as int).drop_first() =~= colsv.skip(k as int + 1));
                        assert(colsv.take(k as int).push(colsv[k as int]) =~= colsv.take(
                            k as int + 1,
                        ));
                    }
                    out.push(c);
                    k += 1;
                }
                proof {
                    assert(colsv.take(m as int) =~= colsv);
                    assert(out@ == out_before + colsv);
                }
            },
            ProjItem::Wildcard => {
                let mut cols = wildcard_cols(triples, None);
                let ghost colsv = cols@;
                let m = cols.len();
                let mut k: usize = 0;
                while k < m
                    invariant
                        k <= m,
                        m == colsv.len(),
                        cols@ == colsv.skip(k as int),
                        out@ == out_before + colsv.take(k as int),
                    decreases m - k,
                {
                    let c = cols.remove(0);
                    proof {
                        assert(colsv.skip(k as int)[0] == colsv[k as int]);
                        assert(colsv.skip(k as int).drop_first() =~= colsv.skip(k as int + 1));
                        assert(colsv.take(k as int).push(colsv[k as int]) =~= colsv.take(
                            k as int + 1,
                        ));
                    }
                    out.push(c);
                    k += 1;
                }
                proof {
                    assert(colsv.take(m as int) =~= colsv);
                    assert(out@ == out_before + colsv);
                }
            },
            ProjItem::Unsupported => {
                return Err(InferError::UnsupportedProjection);
            },
        }
        proof {
            let st = spec_item_types(tv, items@[i as int]);
            assert(st is Ok);
            let first = st->Ok_0;
            assert(nts_view(out@) =~= nts_view(out_before) + first);
            match spec_proj_types(tv, items@.skip(i as int + 1)) {
                Ok(rest) => {
                    assert(spec_proj_types(tv, items@.skip(i as int)) == Ok::<
                        Seq<(Seq<char>, Option<Seq<char>>)>,
                        InferError,
                    >(first + rest));
                    assert(nts_view(out_before) + (first + rest) =~= nts_view(out@) + rest);
                },
                Err(er) => {},
            }
        }
        i += 1;
    }
    proof {
        assert(items@.skip(n as int) =~= Seq::<ProjItem>::empty());
    }
    Ok(out)
}

/// The views of a resolved table list.
pub open spec fn tbls_view(s: Seq<(String, String, String)>) -> Seq<(Seq<char>, Seq<char>, Seq<char>)> {
    Seq::new(s.len(), |i: int| (s[i].0@, s[i].1@, s[i].2@))
}

/// A copy of a catalog row list, equal to the original.
fn clone_cat(rows: &Vec<CatalogRow>) -> (r: Vec<CatalogRow>)
    ensures
        r@ == rows@,
{
    let n = rows.len();
    let mut r: Vec<CatalogRow> = Vec::new();
    let mut i: usize = 0;
    while i < n
        invariant
            i <= n,
            n == rows@.len(),
            r@ =~= rows@.subrange(0, i as int),
        decreases n - i,
    {
        let row = &rows[i];
        r.push((row.0.clone(), row.1.clone(), row.2.clone(), clone_opt(&row.3)));
        i += 1;
    }
    proof {
        assert(r@ =~= rows@);
    }
    r
}

/// The catalog triples for one table under an alias, as
/// `spec_triples_for_table` states them.
fn triples_for_table(
    cat: &Vec<CatalogRow>,
    schema: &String,
    table: &String,
    alias: &String,
) -> (r: Vec<Triple>)
    ensures
        triples_view(r@) == spec_triples_for_table(cats_view(cat@), schema@, table@, alias@),
{
    let ghost cv = cats_view(cat@);
    let n = cat.len();
    let mut out: Vec<Triple> = Vec::new();
    proof {
        assert(cv.skip(n as int) =~= Seq::<
            (Seq<char>, Seq<char>, Seq<char>, Option<Seq<char>>),
        >::empty());
        assert(triples_view(out@) =~= spec_triples_for_table(
            cv.skip(n as int),
            schema@,
            table@,
            alias@,
        ));
    }
    let mut i: usize = n;
    while i > 0
        invariant
            i <= n,
            n == cat@.len(),
            cv == cats_view(cat@),
            triples_view(out@) == spec_triples_for_table(cv.skip(i as int), schema@, table@, alias@),
        decreases i,
    {
        i -= 1;
        proof {
            assert(cv.skip(i as int)[0] == cat_view(cat@[i as int]));
            assert(cv.skip(i as int).drop_first() =~= cv.skip(i as int + 1));
        }
        let row = &cat[i];
        let schema_hit = row.0 == *schema;
        if schema_hit && row.1 == *table {
            out.insert(0, (alias.clone(), row.2.clone(), clone_opt(&row.3)));
            proof {
                assert(triples_view(out@) =~= seq![
                    (alias@, cat@[i as int].2@, opt_view(cat@[i as int].3)),
                ] + spec_triples_for_table(cv.skip(i as int + 1), schema@, table@, alias@));
            }
        }
        proof {
            assert(triples_view(out@) =~= spec_triples_for_table(
                cv.skip(i as int),
                schema@,
                table@,
                alias@,
            ));
        }
    }
    proof {
        assert(cv.skip(0) =~= cv);
    }
    out
}

/// The triples for a resolved table list, as `spec_triples` states them.
fn triples_for(tables: &Vec<(String, String, String)>, cat: &Vec<CatalogRow>) -> (r: Vec<Triple>)
    ensures
        triples_view(r@) == spec_triples(tbls_view(tables@), cats_view(cat@)),
{
    let ghost tv = tbls_view(tables@);
    let n = tables.len();
    let mut out: Vec<Triple> = Vec::new();
    proof {
        assert(tv.skip(n as int) =~= Seq::<(Seq<char>, Seq<char>, Seq<char>)>::empty());
        assert(triples_view(out@) =~= spec_triples(tv.skip(n as int), cats_view(cat@)));
    }
    let mut i: usize = n;
    while i > 0
        invariant
            i <= n,
            n == tables@.len(),
            tv == tbls_view(tables@),
            triples_view(out@) == spec_triples(tv.skip(i as int), cats_view(cat@)),
        decreases i,
    {
        i -= 1;
        proof {
            assert(tv.skip(i as int)[0] == (tables@[i as int].0@, tables@[i as int].1@, tables@[i as int].2@));
            assert(tv.skip(i as int).drop_first() =~= tv.skip(i as int + 1));
        }
        let t = &tables[i];
        let mut new_out = triples_for_table(cat, &t.0, &t.1, &t.2);
        let ghost chunkv = new_out@;
        new_out.append(&mut out);
        proof {
            assert(triples_view(new_out@) =~= triples_view(chunkv) + spec_triples(
                tv.skip(i as int + 1),
                cats_view(cat@),
            ));
            assert(triples_view(new_out@) =~= spec_triples(tv.skip(i as int), cats_view(cat@)));
        }
        out = new_out;
    }
    proof {
        assert(tv.skip(0) =~= tv);
    }
    out
}

/// One `FROM` table resolved, as `spec_factor` states it; the returned
/// catalog carries any synthetic rows a derived table added.
fn factor(f: &TableSource, cat: Vec<CatalogRow>, default_schema: &String) -> (r: Result<
    ((String, String, String), Vec<CatalogRow>),
    InferError,
>)
    ensures
        match r {
            Ok(p) => spec_factor(*f, cats_view(cat@), default_schema@) == Ok::<
                _,
                InferError,
            >(((p.0.0@, p.0.1@, p.0.2@), cats_view(p.1@))),
            Err(e) => spec_factor(*f, cats_view(cat@), default_schema@) == Err::<
                ((Seq<char>, Seq<char>, Seq<char>), Seq<(Seq<char>, Seq<char>, Seq<char>, Option<Seq<char>>)>),
                InferError,
            >(e),
        },
    decreases *f, 0int, 0int,
{
    match f {
        TableSource::Named { parts, alias } => {
            if parts.len() == 1 {
                let table = parts[0].clone();
                let a = match alias {
                    Some(al) => al.clone(),
                    None => table.clone(),
                };
                Ok(((default_schema.clone(), table, a), cat))
            } else if parts.len() == 2 {
                let schema = parts[0].clone();
                let table = parts[1].clone();
                let a = match alias {
                    Some(al) => al.clone(),
                    None => table.clone(),
                };
                Ok(((schema, table, a), cat))
            } else {
                Err(InferError::TableNameParts)
            }
        },
        TableSource::Derived { body, alias } => match &**body {
            QueryBody::Select { from, projection } => {
                let temp = clone_cat(&cat);
                match fold_from(from, 0, temp, default_schema) {
                    Err(e) => Err(e),
                    Ok((sub_tables, temp_cat)) => {
                        let triples = triples_for(&sub_tables, &temp_cat);
                        match proj_types(&triples, projection) {
                            Err(e) => Err(e),
                            Ok(cols) => match alias {
                                None => Err(InferError::MissingAlias),
                                Some(al) => {
                                    let mut cat2 = cat;
                                    let ghost cat0 = cat2@;
                                    let m = cols.len();
                                    let mut k: usize = 0;
                                    while k < m
                                        invariant
                                            k <= m,
                                            m == cols@.len(),
                                            cat2@.len() == cat0.len() + k,
                                            cat2@.subrange(0, cat0.len() as int) =~= cat0,
                                            forall|t: int|
                                                0 <= t < k ==> cat_view(
                                                    #[trigger] cat2@[cat0.len() + t],
                                                ) == (al@, al@, cols@[t].0@, opt_view(cols@[t].1)),
                                        decreases m - k,
                                    {
                                        let col = &cols[k];
                                        cat2.push(
                                            (al.clone(), al.clone(), col.0.clone(), clone_opt(&col.1)),
                                        );
                                        proof {
                                            assert(cat2@.subrange(0, cat0.len() as int) =~= cat0);
                                        }
                                        k += 1;
                                    }
                                    proof {
                                        let cols_v = nts_view(cols@);
                                        let target = cats_view(cat0) + Seq::new(
                                            cols_v.len(),
                                            |i: int| (al@, al@, cols_v[i].0, cols_v[i].1),
                                        );
                                        assert forall|jx: int|
                                            0 <= jx < cat2@.len() implies cats_view(cat2@)[jx]
                                            == target[jx] by {
                                            if jx < cat0.len() {
                                                assert(cat2@.subrange(0, cat0.len() as int)[jx]
                                                    == cat0[jx]);
                                            } else {
                                                let tx = jx - cat0.len();
                                                assert(cat_view(cat2@[cat0.len() + tx]) == (
                                                al@,
                                                al@,
                                                cols@[tx].0@,
                                                opt_view(cols@[tx].1),
                                                ));
                                            }
                                        }
                                        assert(cats_view(cat2@) =~= target);
                                    }
                                    Ok(((al.clone(), al.clone(), al.clone()), cat2))
                                },
                            },
                        }
                    },
                }
            },
            _ => Err(InferError::UnsupportedBody),
        },
        TableSource::Unsupported => Err(InferError::UnsupportedTable),
    }
}

/// The `FROM` entries from `i` on, resolved in order, as
/// `spec_fold_from` states them.
fn fold_from(from: &Vec<FromItem>, i: usize, cat: Vec<CatalogRow>, default_schema: &String) -> (r:
    Result<(Vec<(String, String, String)>, Vec<CatalogRow>), InferError>)
    ensures
        match r {
            Ok(p) => spec_fold_from(*from, i as int, cats_view(cat@), default_schema@) == Ok::<
                _,
                InferError,
            >((tbls_view(p.0@), cats_view(p.1@))),
            Err(e) => spec_fold_from(*from, i as int, cats_view(cat@), default_schema@) == Err::<
                (Seq<(Seq<char>, Seq<char>, Seq<char>)>, Seq<(Seq<char>, Seq<char>, Seq<char>, Option<Seq<char>>)>),
                InferError,
            >(e),
        },
    decreases *from, from@.len() - i, 1int,
{
    if i >= from.len() {
        let empty_tables: Vec<(String, String, String)> = Vec::new();
        proof {
            assert(tbls_view(empty_tables@) =~= Seq::<(Seq<char>, Seq<char>, Seq<char>)>::empty());
        }
        return Ok((empty_tables, cat));
    }
    let entry = &from[i];
    match factor(&entry.relation, cat, default_schema) {
        Err(e) => Err(e),
        Ok((t, cat1)) => match fold_joins(&entry.joins, 0, cat1, default_schema) {
            Err(e) => Err(e),
            Ok((js, cat2)) => match fold_from(from, i + 1, cat2, default_schema) {
                Err(e) => Err(e),
                Ok((rest, cat3)) => {
                    let ghost jsv = js@;
                    let ghost restv = rest@;
                    let mut tables: Vec<(String, String, String)> = Vec::new();
                    tables.push(t);
                    let mut js_rem = js;
                    tables.append(&mut js_rem);
                    let mut rest_rem = rest;
                    tables.append(&mut rest_rem);
                    proof {
                        assert(tables@ =~= seq![tables@[0]] + jsv + restv);
                        assert(tbls_view(tables@) =~= seq![
                            (tables@[0].0@, tables@[0].1@, tables@[0].2@),
                        ] + tbls_view(jsv) + tbls_view(restv));
                    }
                    Ok((tables, cat3))
                },
            },
        },
    }
}

/// The joined tables from `j` on, resolved in order, as
/// `spec_fold_joins` states them.
fn fold_joins(joins: &Vec<TableSource>, j: usize, cat: Vec<CatalogRow>, default_schema: &String) -> (r:
    Result<(Vec<(String, String, String)>, Vec<CatalogRow>), InferError>)
    ensures
        match r {
            Ok(p) => spec_fold_joins(*joins, j as int, cats_view(cat@), default_schema@) == Ok::<
                _,
                InferError,
            >((tbls_view(p.0@), cats_view(p.1@))),
            Err(e) => spec_fold_joins(*joins, j as int, cats_view(cat@), default_schema@) == Err::<
                (Seq<(Seq<char>, Seq<char>, Seq<char>)>, Seq<(Seq<char>, Seq<char>, Seq<char>, Option<Seq<char>>)>),
                InferError,
            >(e),
        },
    decreases *joins, joins@.len() - j, 1int,
{
    if j >= joins.len() {
        let empty_tables: Vec<(String, String, String)> = Vec::new();
        proof {
            assert(tbls_view(empty_tables@) =~= Seq::<(Seq<char>, Seq<char>, Seq<char>)>::empty());
        }
        return Ok((empty_tables, cat));
    }
    match factor(&joins[j], cat, default_schema) {
        Err(e) => Err(e),
        Ok((t, cat1)) => match fold_joins(joins, j + 1, cat1, default_schema) {
            Err(e) => Err(e),
            Ok((rest, cat2)) => {
                let ghost restv = rest@;
                let mut tables: Vec<(String, String, String)> = Vec::new();
                tables.push(t);
                let mut rest_rem = rest;
                tables.append(&mut rest_rem);
                proof {
                    assert(tables@ =~= seq![tables@[0]] + restv);
                    assert(tbls_view(tables@) =~= seq![
                        (tables@[0].0@, tables@[0].1@, tables@[0].2@),
                    ] + tbls_view(restv));
                }
                Ok((tables, cat2))
            },
        },
    }
}

/// The tables a query body draws from, as `spec_body_tables` states
/// them.
fn body_tables(body: &QueryBody, cat: Vec<CatalogRow>, default_schema: &String) -> (r: Result<
    (Vec<(String, String, String)>, Vec<CatalogRow>),
    InferError,
>)
    ensures
        match r {
            Ok(p) => spec_body_tables(*body, cats_view(cat@), default_schema@) == Ok::<
                _,
                InferError,
            >((tbls_view(p.0@), cats_view(p.1@))),
            Err(e) => spec_body_tables(*body, cats_view(cat@), default_schema@) == Err::<
                (Seq<(Seq<char>, Seq<char>, Seq<char>)>, Seq<(Seq<char>, Seq<char>, Seq<char>, Option<Seq<char>>)>),
                InferError,
            >(e),
        },
    decreases *body,
{
    match body {
        QueryBody::Select { from, projection } => fold_from(from, 0, cat, default_schema),
        QueryBody::Union { left } => body_tables(left, cat, default_schema),
        QueryBody::Unsupported => Err(InferError::UnsupportedBody),
    }
}

/// The output columns of a query body, as `spec_body_types` states them.
fn body_types(triples: &Vec<Triple>, body: &QueryBody) -> (r: Result<Vec<NameAndType>, InferError>)
    ensures
        infer_result_view(r) == spec_body_types(triples_view(triples@), *body),
    decreases *body,
{
    match body {
        QueryBody::Select { from, projection } => proj_types(triples, projection),
        QueryBody::Union { left } => body_types(triples, left),
        QueryBody::Unsupported => Err(InferError::UnsupportedBody),
    }
}

/// The catalog a resolution leaves behind: a single query statement may
/// add synthetic rows for its derived tables; everything else leaves the
/// catalog alone.
pub open spec fn spec_infer_cat(
    cat: Seq<(Seq<char>, Seq<char>, Seq<char>, Option<Seq<char>>)>,
    default_schema: Seq<char>,
    ast: Seq<SqlStatement>,
) -> Seq<(Seq<char>, Seq<char>, Seq<char>, Option<Seq<char>>)> {
    if ast.len() == 1 {
        match ast[0] {
            SqlStatement::Query(body) => match spec_body_tables(body, cat, default_schema) {
                Ok(p) => p.1,
                Err(_) => cat,
            },
            _ => cat,
        }
    } else {
        cat
    }
}

/// The schema catalog: `(schema, table, column, type)` rows read from
/// the target's `INFORMATION_SCHEMA.COLUMNS`, in catalog order.
#[derive(Debug, Clone)]
pub struct DataTypeInfo {
    /// The catalog rows.
    pub rows: Vec<CatalogRow>,
}

impl DataTypeInfo {
    /// The catalog's rows, at the view level.
    pub open spec fn catalog(&self) -> Seq<(Seq<char>, Seq<char>, Seq<char>, Option<Seq<char>>)> {
        cats_view(self.rows@)
    }

    /// A catalog over the given rows.
    pub fn new(rows: Vec<CatalogRow>) -> (r: Self)
        ensures
            r.rows@ == rows@,
    {
        DataTypeInfo { rows }
    }

    /// A copy of the catalog, row for row.
    pub fn duplicate(&self) -> (r: Self)
        ensures
            r.rows@ == self.rows@,
    {
        DataTypeInfo { rows: clone_cat(&self.rows) }
    }

    /// The output columns the statement list projects, resolved against
    /// this catalog under `default_schema`, as `spec_infer` states them.
    /// A single query's derived tables leave their synthetic rows in the
    /// catalog.
    pub fn get_columns_types_from_ast(
        &mut self,
        default_schema: &str,
        ast: Vec<SqlStatement>,
    ) -> (r: Result<Vec<NameAndType>, InferError>)
        ensures
            infer_result_view(r) == spec_infer(old(self).catalog(), default_schema@, ast@),
            final (self).catalog() == spec_infer_cat(
                old(self).catalog(),
                default_schema@,
                ast@,
            ),
    {
        if ast.len() == 0 {
            let out: Vec<NameAndType> = Vec::new();
            proof {
                assert(nts_view(out@) =~= Seq::<(Seq<char>, Option<Seq<char>>)>::empty());
            }
            return Ok(out);
        }
        if ast.len() > 1 {
            return Err(InferError::MultiStatement);
        }
        match &ast[0] {
            SqlStatement::Query(body) => {
                let ds = default_schema.to_owned();
                let cat = clone_cat(&self.rows);
                match body_tables(body, cat, &ds) {
                    Err(e) => Err(e),
                    Ok((tables, cat1)) => {
                        let triples = triples_for(&tables, &cat1);
                        self.rows = cat1;
                        body_types(&triples, body)
                    },
                }
            },
            SqlStatement::ShowVariable(parts) => {
                let m = parts.len();
                let mut pieces: Vec<Vec<char>> = Vec::new();
                let mut i: usize = 0;
                while i < m
                    invariant
                        i <= m,
                        m == parts@.len(),
                        pieces@.len() == i,
                        seq_views(pieces@) == crate::executor::deep_of(parts@).take(i as int),
                    decreases m - i,
                {
                    let piece = chars_of(parts[i].as_str());
                    proof {
                        assert(piece@ == crate::executor::deep_of(parts@)[i as int]);
                    }
                    pieces.push(piece);
                    proof {
                        assert(seq_views(pieces@) =~= crate::executor::deep_of(parts@).take(
                            i as int + 1,
                        ));
                    }
                    i += 1;
                }
                proof {
                    assert(seq_views(pieces@) =~= crate::executor::deep_of(parts@));
                    assert(crate::executor::deep_of(parts@) =~= Seq::new(
                        parts@.len(),
                        |k: int| parts@[k]@,
                    ));
                }
                let sep = chars_of("_");
                let joined = crate::text::join_parts(&pieces, &sep);
                let name = string_of(&joined);
                let mut out: Vec<NameAndType> = Vec::new();
                out.push((name, Some(String::from_str("text"))));
                proof {
                    assert(nts_view(out@) =~= seq![
                        (
                            join_spec(Seq::new(parts@.len(), |k: int| parts@[k]@), "_"@),
                            Some("text"@),
                        ),
                    ]);
                }
                Ok(out)
            },
            SqlStatement::Unsupported => Err(InferError::UnsupportedStatement),
        }
    }
}

/// Why one cell could not be coerced.
#[derive(Clone, Copy, Debug, PartialEq, Eq, Structural)]
pub enum CoerceFail {
    /// The text does not parse under the inferred type: the row fails.
    RowValue,
    /// A cell was already typed where text was owed: the whole result is
    /// a contract violation.
    Violation,
}

/// One cell coerced under a type tag: nulls stay null; text parses into
/// the tag's typed variant (integer tags must parse and fit, timestamp
/// and datetime must parse, a date that does not parse stays text,
/// floating tags keep their text, textual and unknown tags stay text);
/// an already-typed cell is a contract violation.
pub open spec fn spec_coerce_cell(ty: Option<Seq<char>>, v: ColumnValue) -> Result<
    ColumnValue,
    CoerceFail,
> {
    match v {
        ColumnValue::Null => Ok(ColumnValue::Null),
        ColumnValue::Text(s) => match ty {
            None => Ok(ColumnValue::Text(s)),
            Some(t) => {
                if t == "bigint"@ {
                    if is_int_text(s@) && i64::MIN <= int_text_val(s@) <= i64::MAX {
                        Ok(ColumnValue::I64(int_text_val(s@) as i64))
                    } else {
                        Err(CoerceFail::RowValue)
                    }
                } else if t == "int"@ || t == "mediumint"@ {
                    if is_int_text(s@) && i32::MIN <= int_text_val(s@) <= i32::MAX {
                        Ok(ColumnValue::I32(int_text_val(s@) as i32))
                    } else {
                        Err(CoerceFail::RowValue)
                    }
                } else if t == "smallint"@ || t == "year"@ {
                    if is_int_text(s@) && i16::MIN <= int_text_val(s@) <= i16::MAX {
                        Ok(ColumnValue::I16(int_text_val(s@) as i16))
                    } else {
                        Err(CoerceFail::RowValue)
                    }
                } else if t == "tinyint"@ {
                    if is_int_text(s@) && i8::MIN <= int_text_val(s@) <= i8::MAX {
                        Ok(ColumnValue::I8(int_text_val(s@) as i8))
                    } else {
                        Err(CoerceFail::RowValue)
                    }
                } else if t == "double"@ {
                    Ok(ColumnValue::Double(s))
                } else if t == "float"@ {
                    Ok(ColumnValue::Float(s))
                } else if t == "timestamp"@ || t == "datetime"@ {
                    match datetime_parse_of(s@) {
                        Some(p) => Ok(ColumnValue::DateTime(p)),
                        None => Err(CoerceFail::RowValue),
                    }
                } else if t == "date"@ {
                    match date_parse_of(s@) {
                        Some(p) => Ok(ColumnValue::Date(p)),
                        None => Ok(ColumnValue::Text(s)),
                    }
                } else {
                    Ok(ColumnValue::Text(s))
                }
            },
        },
        _ => Err(CoerceFail::Violation),
    }
}

/// A row coerced cell by cell against the inferred types, up to the
/// shorter of the two lists; the first failure decides.
pub open spec fn spec_coerce_row(types: Seq<NameAndType>, row: Seq<ColumnValue>) -> Result<
    Seq<ColumnValue>,
    CoerceFail,
>
    decreases row.len(),
{
    if row.len() == 0 || types.len() == 0 {
        Ok(Seq::empty())
    } else {
        match spec_coerce_cell(opt_view(types[0].1), row[0]) {
            Err(f) => Err(f),
            Ok(c) => match spec_coerce_row(types.drop_first(), row.drop_first()) {
                Err(f) => Err(f),
                Ok(cs) => Ok(seq![c] + cs),
            },
        }
    }
}

/// One cell coerced, as `spec_coerce_cell` states it.
fn coerce_cell(ty: &Option<String>, v: ColumnValue) -> (r: Result<ColumnValue, CoerceFail>)
    ensures
        r == spec_coerce_cell(opt_view(*ty), v),
{
    match v {
        ColumnValue::Null => Ok(ColumnValue::Null),
        ColumnValue::Text(s) => match ty {
            None => Ok(ColumnValue::Text(s)),
            Some(t) => {
                let sv = chars_of(s.as_str());
                if str_is(t, "bigint") {
                    match parse_i64(&sv) {
                        Some(n) => Ok(ColumnValue::I64(n)),
                        None => Err(CoerceFail::RowValue),
                    }
                } else if str_is(t, "int") || str_is(t, "mediumint") {
                    match parse_i32(&sv) {
                        Some(n) => Ok(ColumnValue::I32(n)),
                        None => Err(CoerceFail::RowValue),
                    }
                } else if str_is(t, "smallint") || str_is(t, "year") {
                    match parse_i16(&sv) {
                        Some(n) => Ok(ColumnValue::I16(n)),
                        None => Err(CoerceFail::RowValue),
                    }
                } else if str_is(t, "tinyint") {
                    match parse_i8(&sv) {
                        Some(n) => Ok(ColumnValue::I8(n)),
                        None => Err(CoerceFail::RowValue),
                    }
                } else if str_is(t, "double") {
                    Ok(ColumnValue::Double(s))
                } else if str_is(t, "float") {
                    Ok(ColumnValue::Float(s))
                } else if str_is(t, "timestamp") || str_is(t, "datetime") {
                    match parse_datetime_text(s.as_str()) {
                        Some(p) => Ok(ColumnValue::DateTime(p)),
                        None => Err(CoerceFail::RowValue),
                    }
                } else if str_is(t, "date") {
                    match parse_date_text(s.as_str()) {
                        Some(p) => Ok(ColumnValue::Date(p)),
                        None => Ok(ColumnValue::Text(s)),
                    }
                } else {
                    Ok(ColumnValue::Text(s))
                }
            },
        },
        other => Err(CoerceFail::Violation),
    }
}

/// A row coerced, as `spec_coerce_row` states it.
#[verifier::loop_isolation(false)]
fn coerce_row(types: &Vec<NameAndType>, row: Row) -> (r: Result<Row, CoerceFail>)
    ensures
        match r {
            Ok(cr) => spec_coerce_row(types@, row@) == Ok::<Seq<ColumnValue>, CoerceFail>(cr@),
            Err(f) => spec_coerce_row(types@, row@) == Err::<Seq<ColumnValue>, CoerceFail>(f),
        },
{
    let ghost typesv = types@;
    let ghost rowv = row@;
    let n = if row.len() < types.len() {
        row.len()
    } else {
        types.len()
    };
    let mut rem = row;
    let mut out: Vec<ColumnValue> = Vec::new();
    let mut i: usize = 0;
    proof {
        assert(rowv.skip(0) =~= rowv);
        assert(typesv.skip(0) =~= typesv);
    }
    while i < n
        invariant
            i <= n,
            n == if rowv.len() < typesv.len() {
                rowv.len()
            } else {
                typesv.len()
            },
            rem@ == rowv.skip(i as int),
            out@.len() == i,
            (match spec_coerce_row(typesv.skip(i as int), rowv.skip(i as int)) {
                Err(f) => spec_coerce_row(typesv, rowv) == Err::<Seq<ColumnValue>, CoerceFail>(f),
                Ok(cs) => spec_coerce_row(typesv, rowv) == Ok::<Seq<ColumnValue>, CoerceFail>(
                    out@ + cs,
                ),
            }),
        decreases n - i,
    {
        let cell = rem.remove(0);
        proof {
            assert(rowv.skip(i as int)[0] == rowv[i as int]);
            assert(rowv.skip(i as int).drop_first() =~= rowv.skip(i as int + 1));
            assert(typesv.skip(i as int)[0] == typesv[i as int]);
            assert(typesv.skip(i as int).drop_first() =~= typesv.skip(i as int + 1));
        }
        match coerce_cell(&types[i].1, cell) {
            Ok(c) => {
                proof {
                    assert(spec_coerce_cell(opt_view(typesv[i as int].1), rowv[i as int]) == Ok::<
                        ColumnValue,
                        CoerceFail,
                    >(c));
                    assert(spec_coerce_row(typesv.skip(i as int), rowv.skip(i as int)) == (
                    match spec_coerce_row(typesv.skip(i as int + 1), rowv.skip(i as int + 1)) {
                        Err(f) => Err::<Seq<ColumnValue>, CoerceFail>(f),
                        Ok(cs) => Ok::<Seq<ColumnValue>, CoerceFail>(seq![c] + cs),
                    }));
                    match spec_coerce_row(typesv.skip(i as int + 1), rowv.skip(i as int + 1)) {
                        Ok(cs) => {
                            assert(out@ + (seq![c] + cs) =~= out@.push(c) + cs);
                        },
                        Err(f) => {},
                    }
                }
                out.push(c);
            },
            Err(f) => {
                return Err(f);
            },
        }
        i += 1;
    }
    proof {
        assert(spec_coerce_row(typesv.skip(n as int), rowv.skip(n as int)) == Ok::<
            Seq<ColumnValue>,
            CoerceFail,
        >(Seq::empty()));
        assert(out@ + Seq::<ColumnValue>::empty() =~= out@);
    }
    Ok(out)
}

/// Whether some successfully read row holds an already-typed cell, which
/// the coercion step is never owed.
pub open spec fn some_row_violates(
    types: Seq<NameAndType>,
    irows: Seq<Result<Row, QueryError>>,
) -> bool {
    exists|i: int|
        0 <= i < irows.len() && (#[trigger] irows[i] matches Ok(row) && spec_coerce_row(
            types,
            row@,
        ) == Err::<Seq<ColumnValue>, CoerceFail>(CoerceFail::Violation))
}

/// What wrapping an inner result's data under inferred types yields.
/// With no inferred types everything passes through. Otherwise a column
/// count differing from the inferred count, or an already-typed cell in
/// a row, aborts the whole result. Else the columns get the inferred
/// types, a failed row passes its error through, and every other row is
/// coerced cell by cell, failing alone if a cell does not parse.
pub open spec fn wrap_ens(
    types: Seq<NameAndType>,
    ic: Result<Vec<Column>, QueryError>,
    irows: Seq<Result<Row, QueryError>>,
    cols: Result<Vec<Column>, QueryError>,
    rows: Seq<Result<Row, QueryError>>,
) -> bool {
    if types.len() == 0 {
        cols == ic && rows == irows
    } else {
        let mismatch = ic matches Ok(cs) && cs@.len() != types.len();
        if mismatch || some_row_violates(types, irows) {
            cols is Err && rows.len() == 0
        } else {
            &&& (match ic {
                Err(e) => cols == Err::<Vec<Column>, QueryError>(e),
                Ok(cs) => cols matches Ok(cs2) && cs2@.len() == cs@.len() && forall|i: int|
                    0 <= i < cs@.len() ==> (#[trigger] cs2@[i]).name@ == cs@[i].name@ && opt_view(
                        cs2@[i].ty,
                    ) == opt_view(types[i].1),
            })
            &&& rows.len() == irows.len()
            &&& forall|i: int|
                0 <= i < irows.len() ==> (match #[trigger] irows[i] {
                    Err(e) => rows[i] == Err::<Row, QueryError>(e),
                    Ok(row) => match spec_coerce_row(types, row@) {
                        Ok(cr) => rows[i] matches Ok(row2) && row2@ == cr,
                        Err(f) => rows[i] matches Err(e2) && e2 matches QueryError::Coerce(_),
                    },
                })
        }
    }
}

/// An inner result wrapped with the inferred column types; consuming it
/// coerces the columns and every row.
pub struct ResultWithCustomColumnTypes<T> {
    /// The inner result; `None` answers with the inferred columns and no
    /// rows.
    pub result: Option<T>,
    /// The inferred output columns; empty means no inference happened
    /// and everything passes through.
    pub column_types: Vec<NameAndType>,
}

impl<T> ResultWithCustomColumnTypes<T> {
    /// A wrapped result.
    pub fn new(result: Option<T>, column_types: Vec<NameAndType>) -> (r: Self)
        ensures
            r.result == result,
            r.column_types == column_types,
    {
        ResultWithCustomColumnTypes { result, column_types }
    }
}

impl<T: QueryResult> QueryResult for ResultWithCustomColumnTypes<T> {
    open spec fn data_ens(
        self,
        cols: Result<Vec<Column>, QueryError>,
        rows: Vec<Result<Row, QueryError>>,
    ) -> bool {
        match self.result {
            None => {
                &&& cols matches Ok(cs) && cs@.len() == self.column_types@.len() && forall|i: int|
                    0 <= i < cs@.len() ==> (#[trigger] cs@[i]).name@ == self.column_types@[i].0@
                        && opt_view(cs@[i].ty) == opt_view(self.column_types@[i].1)
                &&& rows@.len() == 0
            },
            Some(inner) => exists|
                ic: Result<Vec<Column>, QueryError>,
                irows: Vec<Result<Row, QueryError>>,
            |
                {
                    &&& #[trigger] inner.data_ens(ic, irows)
                    &&& wrap_ens(self.column_types@, ic, irows@, cols, rows@)
                },
        }
    }

    #[verifier::loop_isolation(false)]
    #[verifier::rlimit(60)]
    fn get_data(self) -> (r: (Result<Vec<Column>, QueryError>, Vec<Result<Row, QueryError>>)) {
        let ResultWithCustomColumnTypes { result, column_types } = self;
        match result {
            None => {
                let m = column_types.len();
                let mut cs: Vec<Column> = Vec::new();
                let ghost typesv = column_types@;
                let mut rem = column_types;
                let mut i: usize = 0;
                proof {
                    assert(rem@ == typesv.skip(0));
                }
                while i < m
                    invariant
                        i <= m,
                        m == typesv.len(),
                        rem@ == typesv.skip(i as int),
                        cs@.len() == i,
                        forall|k: int|
                            0 <= k < i ==> (#[trigger] cs@[k]).name@ == typesv[k].0@ && opt_view(
                                cs@[k].ty,
                            ) == opt_view(typesv[k].1),
                    decreases m - i,
                {
                    let nt = rem.remove(0);
                    proof {
                        assert(typesv.skip(i as int)[0] == typesv[i as int]);
                        assert(typesv.skip(i as int).drop_first() =~= typesv.skip(i as int + 1));
                    }
                    cs.push(Column { name: nt.0, ty: nt.1 });
                    i += 1;
                }
                (Ok(cs), Vec::new())
            },
            Some(inner) => {
                let (ic, irows) = inner.get_data();
                let ghost g_ic = ic;
                let ghost g_irows = irows;
                if column_types.len() == 0 {
                    proof {
                        assert(wrap_ens(column_types@, g_ic, g_irows@, ic, irows@));
                    }
                    return (ic, irows);
                }
                // the column-count guard
                let mismatch = match &ic {
                    Ok(cs) => cs.len() != column_types.len(),
                    Err(_) => false,
                };
                // coerce the rows, watching for a contract violation
                let n = irows.len();
                let ghost irows0 = irows@;
                let mut rem = irows;
                let mut rows: Vec<Result<Row, QueryError>> = Vec::new();
                let mut violation = false;
                let mut i: usize = 0;
                proof {
                    assert(rem@ == irows0.skip(0));
                }
                while i < n
                    invariant
                        i <= n,
                        n == irows0.len(),
                        rem@ == irows0.skip(i as int),
                        rows@.len() == i,
                        !violation ==> forall|k: int|
                            0 <= k < i ==> !(#[trigger] irows0[k] matches Ok(row)
                                && spec_coerce_row(column_types@, row@) == Err::<
                                Seq<ColumnValue>,
                                CoerceFail,
                            >(CoerceFail::Violation)),
                        violation ==> some_row_violates(column_types@, irows0),
                        forall|k: int|
                            0 <= k < i ==> (match #[trigger] irows0[k] {
                                Err(e) => rows@[k] == Err::<Row, QueryError>(e),
                                Ok(row) => match spec_coerce_row(column_types@, row@) {
                                    Ok(cr) => rows@[k] matches Ok(row2) && row2@ == cr,
                                    Err(f) => rows@[k] matches Err(e2) && e2
                                        matches QueryError::Coerce(_),
                                },
                            }),
                    decreases n - i,
                {
                    let row_r = rem.remove(0);
                    proof {
                        assert(irows0.skip(i as int)[0] == irows0[i as int]);
                        assert(irows0.skip(i as int).drop_first() =~= irows0.skip(i as int + 1));
                    }
                    match row_r {
                        Err(e) => {
                            rows.push(Err(e));
                        },
                        Ok(row) => match coerce_row(&column_types, row) {
                            Ok(cr) => {
                                rows.push(Ok(cr));
                            },
                            Err(CoerceFail::RowValue) => {
                                rows.push(
                                    Err(
                                        QueryError::Coerce(
                                            "a cell does not parse under its inferred type".to_owned(),
                                        ),
                                    ),
                                );
                            },
                            Err(CoerceFail::Violation) => {
                                violation = true;
                                rows.push(
                                    Err(QueryError::Coerce("an already-typed cell".to_owned())),
                                );
                            },
                        },
                    }
                    i += 1;
                }
                if mismatch || violation {
                    let out_cols = Err::<Vec<Column>, QueryError>(
                        QueryError::Contract(
                            "the result does not fit the inferred projection".to_owned(),
                        ),
                    );
                    let out_rows: Vec<Result<Row, QueryError>> = Vec::new();
                    proof {
                        assert(wrap_ens(column_types@, g_ic, g_irows@, out_cols, out_rows@));
                    }
                    return (out_cols, out_rows);
                }
                proof {
                    assert(!some_row_violates(column_types@, irows0));
                }
                let cols = match ic {
                    Err(e) => Err(e),
                    Ok(cs) => {
                        let m = cs.len();
                        let ghost csv = cs@;
                        let mut cs_rem = cs;
                        let mut out_cs: Vec<Column> = Vec::new();
                        let mut k: usize = 0;
                        proof {
                            assert(cs_rem@ == csv.skip(0));
                        }
                        while k < m
                            invariant
                                k <= m,
                                m == csv.len(),
                                m == column_types@.len(),
                                cs_rem@ == csv.skip(k as int),
                                out_cs@.len() == k,
                                forall|t: int|
                                    0 <= t < k ==> (#[trigger] out_cs@[t]).name@ == csv[t].name@
                                        && opt_view(out_cs@[t].ty) == opt_view(
                                        column_types@[t].1,
                                    ),
                            decreases m - k,
                        {
                            let c = cs_rem.remove(0);
                            proof {
                                assert(csv.skip(k as int)[0] == csv[k as int]);
                                assert(csv.skip(k as int).drop_first() =~= csv.skip(k as int + 1));
                            }
                            out_cs.push(Column { name: c.name, ty: clone_opt(&column_types[k].1) });
                            k += 1;
                        }
                        Ok(out_cs)
                    },
                };
                proof {
                    assert(wrap_ens(column_types@, g_ic, g_irows@, cols, rows@));
                }
                (cols, rows)
            },
        }
    }
}

/// The whitespace-separated words of `s`, in order.
pub open spec fn words_spec(s: Seq<char>) -> Seq<Seq<char>>
    decreases s.len(),
{
    if s.len() == 0 {
        Seq::<Seq<char>>::empty()
    } else if is_space(s[0]) {
        words_spec(s.drop_first())
    } else {
        let rest = words_spec(s.drop_first());
        if s.len() > 1 && !is_space(s[1]) {
            rest.update(0, seq![s[0]] + rest[0])
        } else {
            seq![seq![s[0]]] + rest
        }
    }
}

/// A text starting with a non-space character has at least one word.
proof fn lemma_words_nonempty(s: Seq<char>)
    requires
        s.len() > 0,
        !is_space(s[0]),
    ensures
        words_spec(s).len() >= 1,
    decreases s.len(),
{
    if s.len() > 1 && !is_space(s[1]) {
        lemma_words_nonempty(s.drop_first());
    }
}

/// The second whitespace-separated word of `s`, or nothing when there
/// are fewer than two.
pub open spec fn second_word_spec(s: Seq<char>) -> Seq<char> {
    if words_spec(s).len() >= 2 {
        words_spec(s)[1]
    } else {
        Seq::<char>::empty()
    }
}

/// The whitespace-separated words of `v`.
fn words(v: &Vec<char>) -> (r: Vec<Vec<char>>)
    ensures
        seq_views(r@) == words_spec(v@),
{
    let n = v.len();
    let mut acc: Vec<Vec<char>> = Vec::new();
    proof {
        assert(v@.skip(n as int) =~= Seq::<char>::empty());
        assert(seq_views(acc@) =~= words_spec(v@.skip(n as int)));
    }
    let mut i: usize = n;
    while i > 0
        invariant
            i <= n,
            n == v@.len(),
            seq_views(acc@) == words_spec(v@.skip(i as int)),
        decreases i,
    {
        i -= 1;
        let c = v[i];
        let ghost suf = v@.skip(i as int);
        proof {
            assert(suf[0] == c);
            assert(suf.drop_first() =~= v@.skip(i as int + 1));
        }
        if is_space_exec(c) {
        } else {
            if i + 1 < n && !is_space_exec(v[i + 1]) {
                proof {
                    assert(v@.skip(i as int + 1)[0] == v@[i as int + 1]);
                    lemma_words_nonempty(v@.skip(i as int + 1));
                }
                let mut w = acc.remove(0);
                w.insert(0, c);
                acc.insert(0, w);
                proof {
                    let rest = words_spec(v@.skip(i as int + 1));
                    assert(w@ =~= seq![c] + rest[0]);
                    assert(seq_views(acc@) =~= rest.update(0, seq![c] + rest[0]));
                }
            } else {
                let mut w: Vec<char> = Vec::new();
                w.push(c);
                acc.insert(0, w);
                proof {
                    assert(w@ =~= seq![c]);
                    assert(seq_views(acc@) =~= seq![seq![c]] + words_spec(v@.skip(i as int + 1)));
                }
            }
        }
        proof {
            assert(seq_views(acc@) =~= words_spec(v@.skip(i as int)));
        }
    }
    proof {
        assert(v@.skip(0) =~= v@);
    }
    acc
}

/// The second whitespace-separated word of `v`, or nothing.
fn second_word(v: &Vec<char>) -> (r: Vec<char>)
    ensures
        r@ == second_word_spec(v@),
{
    let ws = words(v);
    if ws.len() >= 2 {
        let mut out: Vec<char> = Vec::new();
        push_all(&mut out, &ws[1]);
        proof {
            assert(out@ =~= words_spec(v@)[1]);
        }
        out
    } else {
        Vec::new()
    }
}

/// The introspection query that loads the catalog.
pub open spec fn catalog_query() -> Seq<char> {
    "SELECT TABLE_SCHEMA, TABLE_NAME, COLUMN_NAME, DATA_TYPE, IS_NULLABLE FROM INFORMATION_SCHEMA.COLUMNS ORDER BY TABLE_SCHEMA, TABLE_NAME, ORDINAL_POSITION;"@
}

/// The query that discovers the connection's default schema.
pub open spec fn schema_query() -> Seq<char> {
    "select database();"@
}

/// The catalog rows a result's rows denote: a row shorter than four
/// cells is skipped, four text cells become a `(schema, table, column,
/// type)` row, and a failed row or a non-text cell abandons the load.
pub open spec fn spec_catalog_rows(irows: Seq<Result<Row, QueryError>>) -> Option<
    Seq<(Seq<char>, Seq<char>, Seq<char>, Option<Seq<char>>)>,
>
    decreases irows.len(),
{
    if irows.len() == 0 {
        Some(Seq::empty())
    } else {
        match irows[0] {
            Err(_) => None,
            Ok(row) => {
                if row@.len() < 4 {
                    spec_catalog_rows(irows.drop_first())
                } else {
                    match (row@[0], row@[1], row@[2], row@[3]) {
                        (
                            ColumnValue::Text(s0),
                            ColumnValue::Text(s1),
                            ColumnValue::Text(s2),
                            ColumnValue::Text(s3),
                        ) => match spec_catalog_rows(irows.drop_first()) {
                            Some(rest) => Some(seq![(s0@, s1@, s2@, Some(s3@))] + rest),
                            None => None,
                        },
                        _ => None,
                    }
                }
            },
        }
    }
}

/// What loading the catalog yields for the inner stage's answer `ir`.
pub open spec fn load_ens<R: QueryResult>(
    ir: Result<Option<R>, QueryError>,
    r: Result<DataTypeInfo, QueryError>,
) -> bool {
    match ir {
        Err(e) => r == Err::<DataTypeInfo, QueryError>(e),
        Ok(None) => r is Err,
        Ok(Some(res)) => exists|
            ic: Result<Vec<Column>, QueryError>,
            irows: Vec<Result<Row, QueryError>>,
        |
            {
                &&& #[trigger] res.data_ens(ic, irows)
                &&& match spec_catalog_rows(irows@) {
                    Some(rows) => r matches Ok(d) && d.catalog() == rows,
                    None => r is Err,
                }
            },
    }
}

impl DataTypeInfo {
    /// The catalog read from the target's `INFORMATION_SCHEMA.COLUMNS`,
    /// issued once through `executor`.
    #[verifier::loop_isolation(false)]
    pub fn load<T, R>(executor: &mut T) -> (r: Result<DataTypeInfo, QueryError>) where
        T: QueryExecutor<Out = R>,
        R: QueryResult,

        ensures
            final (executor).log() == old(executor).log().push(catalog_query()),
            exists|ir: Result<Option<R>, QueryError>|
                #[trigger] T::query_ens(*old(executor), *final (executor), catalog_query(), ir)
                    && load_ens(ir, r),
    {
        let q =
            "SELECT TABLE_SCHEMA, TABLE_NAME, COLUMN_NAME, DATA_TYPE, IS_NULLABLE FROM INFORMATION_SCHEMA.COLUMNS ORDER BY TABLE_SCHEMA, TABLE_NAME, ORDINAL_POSITION;";
        let ir = executor.query(q);
        proof {
            assert(q@ == catalog_query());
        }
        match ir {
            Err(e) => {
                let ghost g_ir: Result<Option<R>, QueryError> = Err(e);
                let out = Err::<DataTypeInfo, QueryError>(e);
                proof {
                    assert(T::query_ens(*old(executor), *executor, catalog_query(), g_ir));
                    assert(load_ens(g_ir, out));
                }
                out
            },
            Ok(None) => {
                let ghost g_ir: Result<Option<R>, QueryError> = Ok(None);
                let out = Err::<DataTypeInfo, QueryError>(
                    QueryError::Transport("the catalog query returned no result".to_owned()),
                );
                proof {
                    assert(T::query_ens(*old(executor), *executor, catalog_query(), g_ir));
                    assert(load_ens(g_ir, out));
                }
                out
            },
            Ok(Some(res)) => {
                let ghost g_ir: Result<Option<R>, QueryError> = Ok(Some(res));
                let (ic, irows) = res.get_data();
                let ghost g_ic = ic;
                let ghost g_irows = irows;
                let n = irows.len();
                let ghost irows0 = irows@;
                let mut rem = irows;
                let mut rows: Vec<CatalogRow> = Vec::new();
                let mut i: usize = 0;
                proof {
                    assert(rem@ == irows0.skip(0));
                }
                while i < n
                    invariant
                        i <= n,
                        n == irows0.len(),
                        rem@ == irows0.skip(i as int),
                        (match spec_catalog_rows(irows0.skip(i as int)) {
                            None => spec_catalog_rows(irows0) is None,
                            Some(rest) => spec_catalog_rows(irows0) == Some(
                                cats_view(rows@) + rest,
                            ),
                        }),
                    decreases n - i,
                {
                    let row_r = rem.remove(0);
                    proof {
                        assert(irows0.skip(i as int)[0] == irows0[i as int]);
                        assert(irows0.skip(i as int).drop_first() =~= irows0.skip(i as int + 1));
                    }
                    match row_r {
                        Err(e) => {
                            let out = Err::<DataTypeInfo, QueryError>(e);
                            proof {
                                assert(spec_catalog_rows(irows0.skip(i as int)) is None);
                                assert(T::query_ens(*old(executor), *executor, catalog_query(), g_ir));
                                assert(load_ens(g_ir, out));
                            }
                            return out;
                        },
                        Ok(row) => {
                            if row.len() >= 4 {
                                let mut rest_row = row;
                                let c0 = rest_row.remove(0);
                                let c1 = rest_row.remove(0);
                                let c2 = rest_row.remove(0);
                                let c3 = rest_row.remove(0);
                                match (c0, c1, c2, c3) {
                                    (
                                        ColumnValue::Text(s0),
                                        ColumnValue::Text(s1),
                                        ColumnValue::Text(s2),
                                        ColumnValue::Text(s3),
                                    ) => {
                                        let ghost rows_before = rows@;
                                        rows.push((s0, s1, s2, Some(s3)));
                                        proof {
                                            match spec_catalog_rows(irows0.skip(i as int + 1)) {
                                                Some(rest) => {
                                                    assert(cats_view(rows@) =~= cats_view(
                                                        rows_before,
                                                    ).push(cat_view(rows@.last())));
                                                    assert(cats_view(rows_before) + (seq![
                                                        cat_view(rows@.last()),
                                                    ] + rest) =~= cats_view(rows@) + rest);
                                                },
                                                None => {},
                                            }
                                        }
                                    },
                                    _ => {
                                        let out = Err::<DataTypeInfo, QueryError>(
                                            QueryError::Contract(
                                                "a catalog cell is not text".to_owned(),
                                            ),
                                        );
                                        proof {
                                            assert(spec_catalog_rows(irows0.skip(i as int))
                                                is None);
                                            assert(T::query_ens(
                                                *old(executor),
                                                *executor,
                                                catalog_query(),
                                                g_ir,
                                            ));
                                            assert(load_ens(g_ir, out));
                                        }
                                        return out;
                                    },
                                }
                            }
                        },
                    }
                    i += 1;
                }
                let out_info = DataTypeInfo { rows };
                let out = Ok::<DataTypeInfo, QueryError>(out_info);
                proof {
                    assert(irows0.skip(n as int) =~= Seq::<Result<Row, QueryError>>::empty());
                    assert(spec_catalog_rows(irows0.skip(n as int)) == Some(
                        Seq::<(Seq<char>, Seq<char>, Seq<char>, Option<Seq<char>>)>::empty(),
                    ));
                    match spec_catalog_rows(irows0) {
                        Some(rest) => {
                            assert(rest =~= out->Ok_0.catalog() + Seq::<
                                (Seq<char>, Seq<char>, Seq<char>, Option<Seq<char>>),
                            >::empty());
                            assert(rest =~= out->Ok_0.catalog());
                        },
                        None => {
                            assert(false);
                        },
                    }
                    assert(T::query_ens(*old(executor), *executor, catalog_query(), g_ir));
                    assert(load_ens(g_ir, out));
                }
                out
            },
        }
    }
}

/// The inner stage's answer `ir` passed through with no types attached:
/// a result is wrapped untyped, no result and errors pass through.
pub open spec fn untyped_ens<R>(
    ir: Result<Option<R>, QueryError>,
    r: Result<Option<ResultWithCustomColumnTypes<R>>, QueryError>,
) -> bool {
    match ir {
        Err(e) => r == Err::<Option<ResultWithCustomColumnTypes<R>>, QueryError>(e),
        Ok(None) => r matches Ok(None),
        Ok(Some(res)) => r matches Ok(Some(w)) && w.result == Some(res) && w.column_types@.len()
            == 0,
    }
}

/// The inner stage's answer `ir` wrapped with the inferred types; even
/// an empty answer carries the inferred columns.
pub open spec fn typed_ens<R>(
    ir: Result<Option<R>, QueryError>,
    types: Seq<(Seq<char>, Option<Seq<char>>)>,
    r: Result<Option<ResultWithCustomColumnTypes<R>>, QueryError>,
) -> bool {
    match ir {
        Err(e) => r == Err::<Option<ResultWithCustomColumnTypes<R>>, QueryError>(e),
        Ok(opt) => r matches Ok(Some(w)) && w.result == opt && nts_view(w.column_types@) == types,
    }
}

/// The inner stage saw exactly `q`, answering untyped.
pub open spec fn delegate_untyped<T: QueryExecutor>(
    e0: T,
    e1: T,
    q: Seq<char>,
    r: Result<Option<ResultWithCustomColumnTypes<T::Out>>, QueryError>,
) -> bool {
    &&& e1.log() == e0.log().push(q)
    &&& exists|ir: Result<Option<T::Out>, QueryError>|
        #[trigger] T::query_ens(e0, e1, q, ir) && untyped_ens(ir, r)
}

/// The inner stage saw exactly `q`, answering with the inferred types
/// attached.
pub open spec fn delegate_typed<T: QueryExecutor>(
    e0: T,
    e1: T,
    q: Seq<char>,
    types: Seq<(Seq<char>, Option<Seq<char>>)>,
    r: Result<Option<ResultWithCustomColumnTypes<T::Out>>, QueryError>,
) -> bool {
    &&& e1.log() == e0.log().push(q)
    &&& exists|ir: Result<Option<T::Out>, QueryError>|
        #[trigger] T::query_ens(e0, e1, q, ir) && typed_ens(ir, types, r)
}

/// The first cell of the first row, when it is text: what the schema
/// discovery reads.
pub open spec fn first_text_cell(irows: Seq<Result<Row, QueryError>>) -> Option<Seq<char>> {
    if irows.len() == 0 {
        None
    } else {
        match irows[0] {
            Err(_) => None,
            Ok(row) => if row@.len() == 0 {
                None
            } else {
                match row@[0] {
                    ColumnValue::Text(s) => Some(s@),
                    _ => None,
                }
            },
        }
    }
}

/// What the schema-discovery call yields: the first text cell of its
/// result, or nothing on any failure.
pub open spec fn schema_load_ens<R: QueryResult>(
    ir: Result<Option<R>, QueryError>,
    got: Option<Seq<char>>,
) -> bool {
    match ir {
        Ok(Some(res)) => exists|
            ic: Result<Vec<Column>, QueryError>,
            irows: Vec<Result<Row, QueryError>>,
        | #[trigger] res.data_ens(ic, irows) && got == first_text_cell(irows@),
        _ => got is None,
    }
}

/// The type-inference stage, owning the next stage, a parser dialect, a
/// catalog, and the connection's default schema.
pub struct QueryDataType<T> {
    /// The next stage.
    pub executor: T,
    /// The dialect queries are parsed under.
    pub dialect: SqlDialect,
    /// The schema catalog.
    pub data_type_info: DataTypeInfo,
    /// The connection's default schema; empty until first discovered.
    pub default_schema: String,
    /// The queries this stage has been asked.
    pub asked: Ghost<Seq<Seq<char>>>,
}

impl<T> QueryDataType<T> {
    /// An inference stage in front of `executor` over the given catalog,
    /// with the default schema not yet discovered.
    pub fn new(executor: T, dialect: SqlDialect, data_type_info: DataTypeInfo) -> (r: Self)
        ensures
            r.executor == executor,
            r.dialect == dialect,
            r.data_type_info == data_type_info,
            r.default_schema@ == Seq::<char>::empty(),
            r.asked@ == Seq::<Seq<char>>::empty(),
    {
        QueryDataType {
            executor,
            dialect,
            data_type_info,
            default_schema: String::new(),
            asked: Ghost(Seq::empty()),
        }
    }
}

/// What one query does to the inference stage when the lower-cased text
/// is a `SELECT` that parsed: with the default schema at hand (from the
/// state or freshly discovered), a successful inference forwards the
/// lower-cased query and types the result; a failed inference or a
/// failed discovery forwards it untyped.
pub open spec fn select_ens<T: QueryExecutor<Out = R>, R: QueryResult>(
    pre: QueryDataType<T>,
    post: QueryDataType<T>,
    lq: Seq<char>,
    ast: Vec<SqlStatement>,
    r: Result<Option<ResultWithCustomColumnTypes<R>>, QueryError>,
) -> bool {
    if pre.default_schema@.len() > 0 {
        &&& post.default_schema == pre.default_schema
        &&& match spec_infer(pre.data_type_info.catalog(), pre.default_schema@, ast@) {
            Err(_) => delegate_untyped(pre.executor, post.executor, lq, r),
            Ok(types) => delegate_typed(pre.executor, post.executor, lq, types, r),
        }
    } else {
        exists|mid: T, ir0: Result<Option<R>, QueryError>|
            {
                &&& #[trigger] T::query_ens(pre.executor, mid, schema_query(), ir0)
                &&& mid.log() == pre.executor.log().push(schema_query())
                &&& exists|got: Option<Seq<char>>|
                    #[trigger] schema_load_ens(ir0, got) && match got {
                        None => post.default_schema == pre.default_schema && delegate_untyped(
                            mid,
                            post.executor,
                            lq,
                            r,
                        ),
                        Some(schema_text) => {
                            &&& post.default_schema@ == schema_text
                            &&& match spec_infer(pre.data_type_info.catalog(), schema_text, ast@) {
                                Err(_) => delegate_untyped(mid, post.executor, lq, r),
                                Ok(types) => delegate_typed(mid, post.executor, lq, types, r),
                            }
                        },
                    }
            }
    }
}

impl<T, R> QueryExecutor for QueryDataType<T> where
    T: QueryExecutor<Out = R>,
    R: QueryResult,
 {
    type Out = ResultWithCustomColumnTypes<R>;

    open spec fn log(&self) -> Seq<Seq<char>> {
        self.asked@
    }

    /// The inner stage always sees the lower-cased query. A `use`
    /// statement also renames the default schema to its second word. A
    /// `SELECT` is parsed and, when everything resolves, its result
    /// carries the inferred column types; any recoverable failure
    /// forwards the query untyped. Discovering the default schema may
    /// ask the inner stage `select database();` first. The catalog and
    /// the dialect never change.
    open spec fn query_ens(
        pre: Self,
        post: Self,
        q: Seq<char>,
        r: Result<Option<ResultWithCustomColumnTypes<R>>, QueryError>,
    ) -> bool {
        let lq = lower_of(q);
        &&& post.dialect == pre.dialect
        &&& post.data_type_info == pre.data_type_info
        &&& if starts_with_spec(lq, "use"@) {
            &&& post.executor.log() == pre.executor.log().push(lq)
            &&& exists|ir: Result<Option<R>, QueryError>|
                #[trigger] T::query_ens(pre.executor, post.executor, lq, ir) && match ir {
                    Err(e) => r == Err::<Option<ResultWithCustomColumnTypes<R>>, QueryError>(e)
                        && post.default_schema == pre.default_schema,
                    Ok(opt) => post.default_schema@ == second_word_spec(lq) && untyped_ens(
                        Ok::<Option<R>, QueryError>(opt),
                        r,
                    ),
                }
        } else if !starts_with_spec(lq, "select"@) {
            &&& post.default_schema == pre.default_schema
            &&& delegate_untyped(pre.executor, post.executor, lq, r)
        } else {
            match parse_of(pre.dialect, replace_spec(lq, "straight_join"@, "join"@)) {
                None => post.default_schema == pre.default_schema && delegate_untyped(
                    pre.executor,
                    post.executor,
                    lq,
                    r,
                ),
                Some(ast) => select_ens(pre, post, lq, ast, r),
            }
        }
    }

    #[verifier::rlimit(90)]
    fn query(&mut self, query: &str) -> (r: Result<
        Option<ResultWithCustomColumnTypes<R>>,
        QueryError,
    >) {
        proof {
            self.asked@ = self.asked@.push(query@);
        }
        let ghost pre = *old(self);
        let lq = lowercase(query);
        let lv = chars_of(lq.as_str());
        let use_kw = chars_of("use");
        let select_kw = chars_of("select");
        if starts_with(&lv, &use_kw) {
            let res = self.executor.query(lq.as_str());
            match res {
                Ok(opt) => {
                    let ghost g_ir: Result<Option<R>, QueryError> = Ok(opt);
                    let tok = second_word(&lv);
                    self.default_schema = string_of(&tok);
                    let out = match opt {
                        Some(result) => Ok(
                            Some(ResultWithCustomColumnTypes::new(Some(result), Vec::new())),
                        ),
                        None => Ok(None),
                    };
                    proof {
                        assert(untyped_ens(g_ir, out));
                        assert(T::query_ens(pre.executor, self.executor, lower_of(query@), g_ir));
                        assert(Self::query_ens(pre, *self, query@, out));
                    }
                    out
                },
                Err(e) => {
                    let ghost g_ir: Result<Option<R>, QueryError> = Err(e);
                    let out = Err::<Option<ResultWithCustomColumnTypes<R>>, QueryError>(e);
                    proof {
                        assert(T::query_ens(pre.executor, self.executor, lower_of(query@), g_ir));
                        assert(Self::query_ens(pre, *self, query@, out));
                    }
                    out
                },
            }
        } else if !starts_with(&lv, &select_kw) {
            let res = self.executor.query(lq.as_str());
            let ghost g_ir = res;
            let out = match res {
                Ok(Some(result)) => Ok(
                    Some(ResultWithCustomColumnTypes::new(Some(result), Vec::new())),
                ),
                Ok(None) => Ok(None),
                Err(e) => Err(e),
            };
            proof {
                assert(untyped_ens(g_ir, out));
                assert(T::query_ens(pre.executor, self.executor, lower_of(query@), g_ir));
                assert(delegate_untyped(pre.executor, self.executor, lower_of(query@), out));
                assert(Self::query_ens(pre, *self, query@, out));
            }
            out
        } else {
            let sj = chars_of("straight_join");
            let join_kw = chars_of("join");
            proof {
                assert(sj@.len() == 13) by {
                    reveal_strlit("straight_join");
                }
            }
            let parse_text = string_of(&replace_all(&lv, &sj, &join_kw));
            match parse_sql(self.dialect, parse_text.as_str()) {
                None => {
                    let res = self.executor.query(lq.as_str());
                    let ghost g_ir = res;
                    let out = match res {
                        Ok(Some(result)) => Ok(
                            Some(ResultWithCustomColumnTypes::new(Some(result), Vec::new())),
                        ),
                        Ok(None) => Ok(None),
                        Err(e) => Err(e),
                    };
                    proof {
                        assert(untyped_ens(g_ir, out));
                        assert(T::query_ens(pre.executor, self.executor, lower_of(query@), g_ir));
                        assert(delegate_untyped(pre.executor, self.executor, lower_of(query@), out));
                        assert(Self::query_ens(pre, *self, query@, out));
                    }
                    out
                },
                Some(ast) => {
                    let had_schema = !self.default_schema.as_str().is_empty();
                    proof {
                        assert(had_schema == (pre.default_schema@.len() > 0));
                    }
                    let mut got_schema: bool = had_schema;
                    let ghost g_mid = self.executor;
                    let ghost g_ir0: Result<Option<R>, QueryError> = Ok(None);
                    let ghost g_got: Option<Seq<char>> = None;
                    if !had_schema {
                        let res0 = self.executor.query("select database();");
                        proof {
                            g_mid = self.executor;
                        }
                        match res0 {
                            Ok(Some(result0)) => {
                                proof {
                                    g_ir0 = Ok(Some(result0));
                                }
                                let (c0, mut rows0) = result0.get_data();
                                let ghost g_c0 = c0;
                                let ghost g_rows0 = rows0;
                                if rows0.len() > 0 {
                                    let first = rows0.remove(0);
                                    match first {
                                        Ok(mut row0) => {
                                            if row0.len() > 0 {
                                                let cell = row0.remove(0);
                                                match cell {
                                                    ColumnValue::Text(sch) => {
                                                        self.default_schema = sch;
                                                        got_schema = true;
                                                        proof {
                                                            g_got = Some(
                                                                self.default_schema@,
                                                            );
                                                            assert(g_rows0@[0] matches Ok(rw)
                                                                && rw@[0] == ColumnValue::Text(
                                                                self.default_schema,
                                                            ));
                                                            assert(first_text_cell(g_rows0@)
                                                                == g_got);
                                                        }
                                                    },
                                                    _ => {
                                                        proof {
                                                            assert(first_text_cell(g_rows0@)
                                                                is None);
                                                        }
                                                    },
                                                }
                                            } else {
                                                proof {
                                                    assert(first_text_cell(g_rows0@) is None);
                                                }
                                            }
                                        },
                                        Err(_) => {
                                            proof {
                                                assert(first_text_cell(g_rows0@) is None);
                                            }
                                        },
                                    }
                                } else {
                                    proof {
                                        assert(first_text_cell(g_rows0@) is None);
                                    }
                                }
                                proof {
                                    assert(result0.data_ens(g_c0, g_rows0));
                                    assert(schema_load_ens(g_ir0, g_got));
                                }
                            },
                            Ok(None) => {
                                proof {
                                    g_ir0 = Ok(None);
                                    assert(schema_load_ens(g_ir0, g_got));
                                }
                            },
                            Err(_) => {
                                proof {
                                    g_ir0 = Err(res0->Err_0);
                                    assert(schema_load_ens(g_ir0, g_got));
                                }
                            },
                        }
                    }
                    let types_r: Option<Vec<NameAndType>> = if got_schema {
                        let mut cat = self.data_type_info.duplicate();
                        match cat.get_columns_types_from_ast(self.default_schema.as_str(), ast) {
                            Ok(ts) => Some(ts),
                            Err(_) => None,
                        }
                    } else {
                        None
                    };
                    match types_r {
                        None => {
                            let res = self.executor.query(lq.as_str());
                            let out = match res {
                                Ok(Some(result)) => Ok(
                                    Some(
                                        ResultWithCustomColumnTypes::new(
                                            Some(result),
                                            Vec::new(),
                                        ),
                                    ),
                                ),
                                Ok(None) => Ok(None),
                                Err(e) => Err(e),
                            };
                            proof {
                                if had_schema {
                                    assert(delegate_untyped(pre.executor, self.executor, lq@, out));
                                } else {
                                    assert(delegate_untyped(g_mid, self.executor, lq@, out));
                                    assert(T::query_ens(pre.executor, g_mid, schema_query(), g_ir0));
                                    assert(g_mid.log() == pre.executor.log().push(schema_query()));
                                    assert(schema_load_ens(g_ir0, g_got));
                                    assert(select_ens(pre, *self, lq@, ast, out));
                                }
                                assert(select_ens(pre, *self, lq@, ast, out));
                                assert(Self::query_ens(pre, *self, query@, out));
                            }
                            out
                        },
                        Some(types) => {
                            let ghost g_types = types@;
                            let res = self.executor.query(lq.as_str());
                            let out = match res {
                                Ok(opt) => Ok(
                                    Some(ResultWithCustomColumnTypes::new(opt, types)),
                                ),
                                Err(e) => Err(e),
                            };
                            proof {
                                if had_schema {
                                    assert(delegate_typed(
                                        pre.executor,
                                        self.executor,
                                        lq@,
                                        nts_view(g_types),
                                        out,
                                    ));
                                } else {
                                    assert(delegate_typed(
                                        g_mid,
                                        self.executor,
                                        lq@,
                                        nts_view(g_types),
                                        out,
                                    ));
                                    assert(T::query_ens(pre.executor, g_mid, schema_query(), g_ir0));
                                    assert(g_mid.log() == pre.executor.log().push(schema_query()));
                                    assert(schema_load_ens(g_ir0, g_got));
                                    assert(select_ens(pre, *self, lq@, ast, out));
                                }
                                assert(select_ens(pre, *self, lq@, ast, out));
                                assert(Self::query_ens(pre, *self, query@, out));
                            }
                            out
                        },
                    }
                },
            }
        }
    }
}
} // verus!
