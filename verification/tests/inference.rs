//! Type inference against a catalog, and the wire type mappings.

use runops_proxy::ast::{parse_sql, SqlDialect};
use runops_proxy::data_type::{DataTypeInfo, InferError, QueryDataType};
use runops_proxy::executor::{FakeQueryExecutor, QueryExecutor, QueryResult};
use runops_proxy::mysql::{mysql_type_of, MySqlType};
use runops_proxy::postgres::{pg_type_of, PgType, PostgresBackend};
use runops_proxy::reader::ReaderQueryResult;
use runops_proxy::value::{Column, ColumnValue};

fn users_catalog() -> DataTypeInfo {
    DataTypeInfo::new(vec![
        (
            "public".to_string(),
            "users".to_string(),
            "id".to_string(),
            Some("bigint".to_string()),
        ),
        (
            "public".to_string(),
            "users".to_string(),
            "name".to_string(),
            Some("varchar".to_string()),
        ),
    ])
}

#[test]
fn infers_plain_columns() {
    let mut cat = users_catalog();
    let ast = parse_sql(SqlDialect::MySql, "select id, name from users").unwrap();
    let types = cat.get_columns_types_from_ast("public", ast).unwrap();
    assert_eq!(types.len(), 2);
    assert_eq!(types[0], ("id".to_string(), Some("bigint".to_string())));
    assert_eq!(types[1], ("name".to_string(), Some("varchar".to_string())));
}

#[test]
fn infers_a_qualified_column_from_the_catalog() {
    let mut cat = users_catalog();
    let ast = parse_sql(SqlDialect::MySql, "select t.id from public.users t").unwrap();
    let types = cat.get_columns_types_from_ast("other", ast).unwrap();
    assert_eq!(types, vec![("id".to_string(), Some("bigint".to_string()))]);
}

#[test]
fn infers_wildcards_and_aliases() {
    let mut cat = users_catalog();
    let ast = parse_sql(SqlDialect::MySql, "select * from users").unwrap();
    let types = cat.get_columns_types_from_ast("public", ast).unwrap();
    assert_eq!(types.len(), 2);

    let mut cat = users_catalog();
    let ast = parse_sql(SqlDialect::MySql, "select id as key from users").unwrap();
    let types = cat.get_columns_types_from_ast("public", ast).unwrap();
    assert_eq!(types, vec![("key".to_string(), Some("bigint".to_string()))]);
}

#[test]
fn unresolved_columns_stay_untyped() {
    let mut cat = users_catalog();
    let ast = parse_sql(SqlDialect::MySql, "select nothing from users").unwrap();
    let types = cat.get_columns_types_from_ast("public", ast).unwrap();
    assert_eq!(types, vec![("nothing".to_string(), None)]);
}

#[test]
fn multiple_statements_are_refused() {
    let mut cat = users_catalog();
    let ast = parse_sql(SqlDialect::MySql, "select 1; select 2").unwrap();
    assert_eq!(
        cat.get_columns_types_from_ast("public", ast),
        Err(InferError::MultiStatement)
    );
}

#[test]
fn parse_failures_are_reported() {
    assert!(parse_sql(SqlDialect::MySql, "certainly ~~ not sql ((").is_none());
}

#[test]
fn type_discovery_stage_types_a_select() {
    // the stage first discovers the default schema, then runs the query
    let schema_reader = ReaderQueryResult::new("database()\npublic\n".to_string());
    let data_reader = ReaderQueryResult::new("id\tname\n7\talice\n".to_string());
    let fake = FakeQueryExecutor::new(vec![Ok(Some(data_reader)), Ok(Some(schema_reader))]);
    let mut stage = QueryDataType::new(fake, SqlDialect::MySql, users_catalog());
    let result = stage.query("SELECT id, name FROM users").unwrap().unwrap();
    let seen = stage.executor.get_query_list();
    assert_eq!(seen.len(), 2);
    assert_eq!(seen[0], "select database();");
    assert_eq!(seen[1], "select id, name from users");
    let (cols, rows) = result.get_data();
    let cols = cols.unwrap();
    assert_eq!(cols[0].ty.as_deref(), Some("bigint"));
    assert_eq!(
        rows[0].clone().unwrap(),
        vec![ColumnValue::I64(7), ColumnValue::Text("alice".to_string())]
    );
}

#[test]
fn use_statements_rename_the_default_schema() {
    let fake = FakeQueryExecutor::new(vec![Ok(None)]);
    let mut stage = QueryDataType::new(fake, SqlDialect::MySql, users_catalog());
    assert!(matches!(stage.query("USE analytics"), Ok(None)));
    assert_eq!(stage.default_schema, "analytics");
    assert_eq!(stage.executor.get_query_list()[0], "use analytics");
}

#[test]
fn mysql_wire_types_follow_the_tags() {
    let col = |ty: Option<&str>| Column { name: "c".to_string(), ty: ty.map(|t| t.to_string()) };
    assert_eq!(mysql_type_of(&col(Some("bigint"))), MySqlType::LongLong);
    assert_eq!(mysql_type_of(&col(Some("varchar"))), MySqlType::VarString);
    assert_eq!(mysql_type_of(&col(Some("datetime"))), MySqlType::Datetime);
    assert_eq!(mysql_type_of(&col(Some("mediumint"))), MySqlType::Long);
    assert_eq!(mysql_type_of(&col(Some("year"))), MySqlType::Year);
    assert_eq!(mysql_type_of(&col(None)), MySqlType::Wire);
    assert_eq!(mysql_type_of(&col(Some("whatever"))), MySqlType::Wire);
}

#[test]
fn postgres_wire_types_follow_the_lowered_tags() {
    assert_eq!(pg_type_of(&Some("BIGINT".to_string())), PgType::Int8);
    assert_eq!(pg_type_of(&Some("character varying".to_string())), PgType::Varchar);
    assert_eq!(pg_type_of(&None), PgType::Text);
    assert_eq!(pg_type_of(&Some("mystery".to_string())), PgType::Text);
}

#[test]
fn postgres_describe_resolves_against_public() {
    let fake = FakeQueryExecutor::new(vec![]);
    let mut backend = PostgresBackend::new(fake, users_catalog());
    let cols = backend
        .describe_by_parsing_query("select id from users")
        .unwrap()
        .unwrap();
    assert_eq!(cols.len(), 1);
    assert_eq!(cols[0].0, "id");
    assert_eq!(cols[0].1, PgType::Int8);
}

#[test]
fn postgres_bind_substitutes_positional_parameters() {
    let fake = FakeQueryExecutor::new(vec![]);
    let mut backend = PostgresBackend::new(fake, users_catalog());
    backend.prepare("q".to_string(), "select * from t where a = $1 and b = $2".to_string());
    let portal = backend
        .bind(
            "q",
            &vec![
                ("$1".to_string(), "'x'".to_string()),
                ("$2".to_string(), "7".to_string()),
            ],
        )
        .unwrap();
    assert_eq!(portal, "select * from t where a = 'x' and b = 7");
    assert!(backend.bind("missing", &Vec::new()).is_none());
}

#[test]
fn loads_the_catalog_through_the_pipeline() {
    let text = "TABLE_SCHEMA\tTABLE_NAME\tCOLUMN_NAME\tDATA_TYPE\tIS_NULLABLE\n\
                public\tusers\tid\tbigint\tNO\n\
                short\trow\n\
                public\tusers\tname\tvarchar\tYES\n";
    let reader = ReaderQueryResult::new(text.to_string());
    let mut fake = FakeQueryExecutor::new(vec![Ok(Some(reader))]);
    let catalog = DataTypeInfo::load(&mut fake).unwrap();
    // the header line is consumed by the reader; the short row is skipped
    assert_eq!(catalog.rows.len(), 2);
    assert_eq!(
        catalog.rows[0],
        (
            "public".to_string(),
            "users".to_string(),
            "id".to_string(),
            Some("bigint".to_string())
        )
    );
    assert_eq!(fake.get_query_list().len(), 1);
}

#[test]
fn infers_through_derived_tables() {
    let mut cat = users_catalog();
    let ast = parse_sql(
        SqlDialect::MySql,
        "select u.id from (select id from users) u",
    )
    .unwrap();
    let types = cat.get_columns_types_from_ast("public", ast).unwrap();
    assert_eq!(types, vec![("id".to_string(), Some("bigint".to_string()))]);
}

#[test]
fn union_takes_the_left_side() {
    let mut cat = users_catalog();
    let ast = parse_sql(
        SqlDialect::MySql,
        "select id from users union select name from users",
    )
    .unwrap();
    let types = cat.get_columns_types_from_ast("public", ast).unwrap();
    assert_eq!(types, vec![("id".to_string(), Some("bigint".to_string()))]);
}

#[test]
fn functions_and_null_tests_are_special_cased() {
    let mut cat = users_catalog();
    let ast = parse_sql(SqlDialect::MySql, "select max(id) from users").unwrap();
    let types = cat.get_columns_types_from_ast("public", ast).unwrap();
    assert_eq!(types, vec![("id".to_string(), Some("bigint".to_string()))]);

    let mut cat = users_catalog();
    let ast = parse_sql(SqlDialect::MySql, "select id is null from users").unwrap();
    let types = cat.get_columns_types_from_ast("public", ast).unwrap();
    assert_eq!(types, vec![("id".to_string(), Some("tinyint".to_string()))]);

    let mut cat = users_catalog();
    let ast = parse_sql(SqlDialect::MySql, "select count(id) from users").unwrap();
    let types = cat.get_columns_types_from_ast("public", ast).unwrap();
    assert_eq!(types, vec![("count".to_string(), None)]);
}

#[test]
fn session_defaults_pick_every_third_row() {
    let text = |s: &str| vec![ColumnValue::Text(s.to_string())];
    let rows = vec![
        text("15.1"),
        text("15.1"),
        text("15.1"),
        text("UTF8"),
        text("UTF8"),
        text("UTF8"),
    ];
    let defaults = runops_proxy::postgres::session_defaults(&rows).unwrap();
    assert_eq!(defaults, vec!["15.1".to_string(), "UTF8".to_string()]);
    let bad = vec![vec![ColumnValue::I64(1)]];
    assert!(runops_proxy::postgres::session_defaults(&bad).is_none());
}

#[test]
fn summary_rows_are_dropped() {
    let rows = vec![
        vec![ColumnValue::Text("alice".to_string())],
        vec![ColumnValue::Text("(2 rows)".to_string())],
        vec![ColumnValue::Text("(1 row)".to_string())],
    ];
    let visible = runops_proxy::postgres::visible_rows(rows);
    assert_eq!(visible.len(), 1);
}
