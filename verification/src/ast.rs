//! The slice of the SQL syntax tree that type inference reads, and the
//! trusted bridge that obtains it from the `sqlparser` crate.
//!
//! The inference logic never walks `sqlparser`'s own types: a family of
//! converters turns the parsed tree into the plain datatypes below,
//! keeping exactly the parts the projection-resolution algorithm looks
//! at and folding everything else into an `Unsupported` marker.

use sqlparser::ast as sql;
use vstd::prelude::*;

verus! {

#[verifier::external_type_specification]
#[verifier::external_body]
pub struct ExStatement(sqlparser::ast::Statement);

#[verifier::external_type_specification]
#[verifier::external_body]
pub struct ExSetExpr(sqlparser::ast::SetExpr);

#[verifier::external_type_specification]
#[verifier::external_body]
pub struct ExTableWithJoins(sqlparser::ast::TableWithJoins);

#[verifier::external_type_specification]
#[verifier::external_body]
pub struct ExTableFactor(sqlparser::ast::TableFactor);

#[verifier::external_type_specification]
#[verifier::external_body]
pub struct ExObjectName(sqlparser::ast::ObjectName);

#[verifier::external_type_specification]
#[verifier::external_body]
pub struct ExSelectItem(sqlparser::ast::SelectItem);

#[verifier::external_type_specification]
#[verifier::external_body]
pub struct ExFunctionArguments(sqlparser::ast::FunctionArguments);

#[verifier::external_type_specification]
#[verifier::external_body]
pub struct ExExpr(sqlparser::ast::Expr);

#[verifier::external_type_specification]
#[verifier::external_body]
pub struct ExFunction(sqlparser::ast::Function);

/// An expression in a projection.
pub enum SqlExpr {
    /// A bare column name.
    Ident(String),
    /// A dotted name, such as an alias-qualified column.
    CompoundIdent(Vec<String>),
    /// A function call; an argument is `None` when it is anything but a
    /// plain expression.
    Call { name: String, args: Vec<Option<SqlExpr>> },
    /// `CAST(inner AS ty)`.
    Cast { inner: Box<SqlExpr>, ty: String },
    /// `inner IS NULL`.
    IsNull(Box<SqlExpr>),
    /// `inner IS NOT NULL`.
    IsNotNull(Box<SqlExpr>),
    /// Anything the inference does not look into.
    Unsupported,
}

/// One item of a `SELECT` projection.
pub enum ProjItem {
    /// An expression without an alias.
    Expr(SqlExpr),
    /// An expression with an output alias.
    Aliased(SqlExpr, String),
    /// `t.*`, with the dotted name's parts.
    QualifiedWildcard(Vec<String>),
    /// A bare `*`.
    Wildcard,
    /// Anything else.
    Unsupported,
}

/// A table in a `FROM` clause.
pub enum TableSource {
    /// A named table, with the dotted name's parts and an optional
    /// alias.
    Named { parts: Vec<String>, alias: Option<String> },
    /// A parenthesized subquery with an optional alias.
    Derived { body: Box<QueryBody>, alias: Option<String> },
    /// Anything else.
    Unsupported,
}

/// A `FROM` entry: a table and the tables it is joined with.
pub struct FromItem {
    /// The leading table.
    pub relation: TableSource,
    /// The joined tables, in order.
    pub joins: Vec<TableSource>,
}

/// The body of a query.
pub enum QueryBody {
    /// A plain `SELECT`.
    Select { from: Vec<FromItem>, projection: Vec<ProjItem> },
    /// A `UNION`; only the left side takes part in inference.
    Union { left: Box<QueryBody> },
    /// Anything else.
    Unsupported,
}

/// One SQL statement.
pub enum SqlStatement {
    /// A query with a body.
    Query(QueryBody),
    /// `SHOW <variable>`, with the variable's dotted parts.
    ShowVariable(Vec<String>),
    /// Anything else.
    Unsupported,
}

/// The dialect a query is parsed under.
#[derive(Clone, Copy, Debug, PartialEq, Eq, Structural)]
pub enum SqlDialect {
    MySql,
    Postgres,
}

/// What parsing a text under the MySQL dialect yields: it depends on the
/// characters alone.
pub uninterp spec fn mysql_parse_of(q: Seq<char>) -> Option<Vec<SqlStatement>>;

/// What parsing a text under the PostgreSQL dialect yields: it depends
/// on the characters alone.
pub uninterp spec fn pg_parse_of(q: Seq<char>) -> Option<Vec<SqlStatement>>;

/// The parse of `q` under `dialect`.
pub open spec fn parse_of(dialect: SqlDialect, q: Seq<char>) -> Option<Vec<SqlStatement>> {
    match dialect {
        SqlDialect::MySql => mysql_parse_of(q),
        SqlDialect::Postgres => pg_parse_of(q),
    }
}

/// Relies on `sqlparser::parser::Parser::parse_sql` with
/// `sqlparser::dialect::MySqlDialect`: parsing is a function of the text
/// alone; `None` reports a parse failure.
#[verifier::external_body]
pub fn parse_mysql(q: &str) -> (r: Option<Vec<SqlStatement>>)
    ensures
        r == mysql_parse_of(q@),
{
    match sqlparser::parser::Parser::parse_sql(&sqlparser::dialect::MySqlDialect {}, q) {
        Ok(stmts) => Some(stmts.iter().map(convert_statement).collect()),
        Err(_) => None,
    }
}

/// Relies on `sqlparser::parser::Parser::parse_sql` with
/// `sqlparser::dialect::PostgreSqlDialect`: parsing is a function of the
/// text alone; `None` reports a parse failure.
#[verifier::external_body]
pub fn parse_postgres(q: &str) -> (r: Option<Vec<SqlStatement>>)
    ensures
        r == pg_parse_of(q@),
{
    match sqlparser::parser::Parser::parse_sql(&sqlparser::dialect::PostgreSqlDialect {}, q) {
        Ok(stmts) => Some(stmts.iter().map(convert_statement).collect()),
        Err(_) => None,
    }
}

/// The parse of `q` under `dialect`.
pub fn parse_sql(dialect: SqlDialect, q: &str) -> (r: Option<Vec<SqlStatement>>)
    ensures
        r == parse_of(dialect, q@),
{
    match dialect {
        SqlDialect::MySql => parse_mysql(q),
        SqlDialect::Postgres => parse_postgres(q),
    }
}

/// Relies on the shape of `sqlparser::ast::Statement`: keeps queries and
/// `SHOW <variable>`, folds the rest into `Unsupported`.
#[verifier::external_body]
fn convert_statement(s: &sqlparser::ast::Statement) -> (r: SqlStatement) {
    match s {
        sql::Statement::Query(q) => SqlStatement::Query(convert_body(&q.body)),
        sql::Statement::ShowVariable { variable } => SqlStatement::ShowVariable(variable.iter().map(|i| i.value.clone()).collect()),
        _ => SqlStatement::Unsupported,
    }
}

/// Relies on the shape of `sqlparser::ast::SetExpr`: keeps `SELECT`
/// bodies and the left side of a `UNION`.
#[verifier::external_body]
fn convert_body(b: &sqlparser::ast::SetExpr) -> (r: QueryBody) {
    match b {
        sql::SetExpr::Select(s) => QueryBody::Select {
            from: s.from.iter().map(convert_table_with_joins).collect(),
            projection: s.projection.iter().map(convert_select_item).collect(),
        },
        sql::SetExpr::SetOperation { left, op: sql::SetOperator::Union, .. } => QueryBody::Union { left: Box::new(convert_body(left)) },
        _ => QueryBody::Unsupported,
    }
}

/// Relies on the shape of `sqlparser::ast::TableWithJoins`.
#[verifier::external_body]
fn convert_table_with_joins(t: &sqlparser::ast::TableWithJoins) -> (r: FromItem) {
    FromItem {
        relation: convert_table_factor(&t.relation),
        joins: t.joins.iter().map(|j| convert_table_factor(&j.relation)).collect(),
    }
}

/// Relies on the shape of `sqlparser::ast::ObjectName`: the dotted
/// parts, each an identifier's bare value.
#[verifier::external_body]
fn convert_object_name(n: &sqlparser::ast::ObjectName) -> (r: Vec<String>) {
    n.0.iter().map(|p| match p {
        sql::ObjectNamePart::Identifier(i) => i.value.clone(),
        other => other.to_string(),
    }).collect()
}

/// Relies on the shape of `sqlparser::ast::TableFactor`: keeps named
/// tables and derived subqueries with their aliases.
#[verifier::external_body]
fn convert_table_factor(t: &sqlparser::ast::TableFactor) -> (r: TableSource) {
    match t {
        sql::TableFactor::Table { name, alias, .. } => TableSource::Named {
            parts: convert_object_name(name),
            alias: alias.as_ref().map(|a| a.name.value.clone()),
        },
        sql::TableFactor::Derived { subquery, alias, .. } => TableSource::Derived {
            body: Box::new(convert_body(&subquery.body)),
            alias: alias.as_ref().map(|a| a.name.value.clone()),
        },
        _ => TableSource::Unsupported,
    }
}

/// Relies on the shape of `sqlparser::ast::SelectItem`.
#[verifier::external_body]
fn convert_select_item(s: &sqlparser::ast::SelectItem) -> (r: ProjItem) {
    match s {
        sql::SelectItem::UnnamedExpr(e) => ProjItem::Expr(convert_expr(e)),
        sql::SelectItem::ExprWithAlias { expr, alias } => ProjItem::Aliased(convert_expr(expr), alias.value.clone()),
        sql::SelectItem::QualifiedWildcard(sql::SelectItemQualifiedWildcardKind::ObjectName(n), _) => ProjItem::QualifiedWildcard(convert_object_name(n)),
        sql::SelectItem::Wildcard(_) => ProjItem::Wildcard,
        _ => ProjItem::Unsupported,
    }
}

/// Relies on the shape of `sqlparser::ast::FunctionArguments`: the plain
/// expression arguments, `None` for any other argument form.
#[verifier::external_body]
fn convert_args(a: &sqlparser::ast::FunctionArguments) -> (r: Vec<Option<SqlExpr>>) {
    match a {
        sql::FunctionArguments::List(l) => l.args.iter().map(|arg| match arg {
            sql::FunctionArg::Unnamed(sql::FunctionArgExpr::Expr(e)) => Some(convert_expr(e)),
            _ => None,
        }).collect(),
        _ => Vec::new(),
    }
}

/// Relies on the shape of `sqlparser::ast::Function`: the call's first
/// name part and its plain arguments.
#[verifier::external_body]
fn convert_call(f: &sqlparser::ast::Function) -> (r: SqlExpr) {
    SqlExpr::Call {
        name: match f.name.0.first() {
            Some(sql::ObjectNamePart::Identifier(i)) => i.value.clone(),
            _ => String::new(),
        },
        args: convert_args(&f.args),
    }
}

/// Relies on the shape of `sqlparser::ast::Expr`: keeps identifiers,
/// dotted identifiers, function calls, casts and null tests.
#[verifier::external_body]
fn convert_expr(e: &sqlparser::ast::Expr) -> (r: SqlExpr) {
    match e {
        sql::Expr::Identifier(i) => SqlExpr::Ident(i.value.clone()),
        sql::Expr::CompoundIdentifier(is) => SqlExpr::CompoundIdent(is.iter().map(|i| i.value.clone()).collect()),
        sql::Expr::Function(f) => convert_call(f),
        sql::Expr::Cast { expr, data_type, .. } => SqlExpr::Cast { inner: Box::new(convert_expr(expr)), ty: data_type.to_string() },
        sql::Expr::IsNull(inner) => SqlExpr::IsNull(Box::new(convert_expr(inner))),
        sql::Expr::IsNotNull(inner) => SqlExpr::IsNotNull(Box::new(convert_expr(inner))),
        _ => SqlExpr::Unsupported,
    }
}

} // verus!
