//! The result reader and the value coercions.

use runops_proxy::data_type::ResultWithCustomColumnTypes;
use runops_proxy::error::QueryError;
use runops_proxy::executor::QueryResult;
use runops_proxy::reader::ReaderQueryResult;
use runops_proxy::value::{ColumnValue, DateParts, DateTimeParts};

#[test]
fn reader_round_trip() {
    let reader = ReaderQueryResult::new("id\tname\n7\talice\n3\tNULL\n".to_string());
    let cols = reader.get_columns();
    assert_eq!(cols.len(), 2);
    assert_eq!(cols[0].name, "id");
    assert_eq!(cols[1].name, "name");
    assert!(cols[0].ty.is_none());
    let rows = reader.get_rows();
    assert_eq!(rows.len(), 2);
    assert_eq!(
        rows[0],
        vec![
            ColumnValue::Text("7".to_string()),
            ColumnValue::Text("alice".to_string())
        ]
    );
    assert_eq!(
        rows[1],
        vec![ColumnValue::Text("3".to_string()), ColumnValue::Null]
    );
}

#[test]
fn reader_trims_header_and_drops_empty_trailing_fields() {
    let reader = ReaderQueryResult::new(" a \t b \t\nx\ty\n".to_string());
    let cols = reader.get_columns();
    assert_eq!(cols.len(), 2);
    assert_eq!(cols[0].name, "a");
    assert_eq!(cols[1].name, "b");
}

#[test]
fn reader_skips_empty_lines() {
    let reader = ReaderQueryResult::new("h\n\nr1\n\n\nr2\n".to_string());
    let rows = reader.get_rows();
    assert_eq!(rows.len(), 2);
}

fn typed(reader_text: &str, types: Vec<(&str, Option<&str>)>) -> ResultWithCustomColumnTypes<ReaderQueryResult> {
    let reader = ReaderQueryResult::new(reader_text.to_string());
    let types = types
        .into_iter()
        .map(|(n, t)| (n.to_string(), t.map(|t| t.to_string())))
        .collect();
    ResultWithCustomColumnTypes::new(Some(reader), types)
}

#[test]
fn coercion_types_columns_and_rows() {
    let wrapped = typed(
        "id\tname\n7\talice\n",
        vec![("id", Some("bigint")), ("name", Some("varchar"))],
    );
    let (cols, rows) = wrapped.get_data();
    let cols = cols.unwrap();
    assert_eq!(cols[0].ty.as_deref(), Some("bigint"));
    assert_eq!(cols[1].ty.as_deref(), Some("varchar"));
    let row = rows[0].clone().unwrap();
    assert_eq!(
        row,
        vec![ColumnValue::I64(7), ColumnValue::Text("alice".to_string())]
    );
}

#[test]
fn coercion_handles_every_numeric_width() {
    let wrapped = typed(
        "a\tb\tc\td\n9000000000\t70000\t300\t7\n",
        vec![
            ("a", Some("bigint")),
            ("b", Some("int")),
            ("c", Some("smallint")),
            ("d", Some("tinyint")),
        ],
    );
    let (_, rows) = wrapped.get_data();
    let row = rows[0].clone().unwrap();
    assert_eq!(
        row,
        vec![
            ColumnValue::I64(9000000000),
            ColumnValue::I32(70000),
            ColumnValue::I16(300),
            ColumnValue::I8(7)
        ]
    );
}

#[test]
fn coercion_parses_dates_and_datetimes() {
    let wrapped = typed(
        "d\tt\n2024-01-02\t2024-01-02 10:20:30.5\n",
        vec![("d", Some("date")), ("t", Some("datetime"))],
    );
    let (_, rows) = wrapped.get_data();
    let row = rows[0].clone().unwrap();
    assert_eq!(
        row,
        vec![
            ColumnValue::Date(DateParts { year: 2024, month: 1, day: 2 }),
            ColumnValue::DateTime(DateTimeParts {
                year: 2024,
                month: 1,
                day: 2,
                hour: 10,
                minute: 20,
                second: 30,
                nanosecond: 500000000,
            })
        ]
    );
}

#[test]
fn coercion_keeps_unparseable_dates_as_text() {
    let wrapped = typed("d\nnot-a-date\n", vec![("d", Some("date"))]);
    let (_, rows) = wrapped.get_data();
    let row = rows[0].clone().unwrap();
    assert_eq!(row, vec![ColumnValue::Text("not-a-date".to_string())]);
}

#[test]
fn coercion_fails_the_row_on_a_bad_number() {
    let wrapped = typed("n\nnot-a-number\n", vec![("n", Some("bigint"))]);
    let (cols, rows) = wrapped.get_data();
    assert!(cols.is_ok());
    assert!(matches!(rows[0], Err(QueryError::Coerce(_))));
}

#[test]
fn coercion_keeps_floats_as_their_text() {
    let wrapped = typed(
        "x\ty\n1.5\t2.25\n",
        vec![("x", Some("double")), ("y", Some("float"))],
    );
    let (_, rows) = wrapped.get_data();
    let row = rows[0].clone().unwrap();
    assert_eq!(
        row,
        vec![
            ColumnValue::Double("1.5".to_string()),
            ColumnValue::Float("2.25".to_string())
        ]
    );
}

#[test]
fn column_count_mismatch_fails_the_whole_result() {
    let wrapped = typed("only\nv\n", vec![("a", None), ("b", None)]);
    let (cols, rows) = wrapped.get_data();
    assert!(matches!(cols, Err(QueryError::Contract(_))));
    assert!(rows.is_empty());
}

#[test]
fn empty_result_still_carries_the_inferred_columns() {
    let types = vec![("n".to_string(), Some("bigint".to_string()))];
    let wrapped: ResultWithCustomColumnTypes<ReaderQueryResult> =
        ResultWithCustomColumnTypes::new(None, types);
    let (cols, rows) = wrapped.get_data();
    let cols = cols.unwrap();
    assert_eq!(cols.len(), 1);
    assert_eq!(cols[0].name, "n");
    assert_eq!(cols[0].ty.as_deref(), Some("bigint"));
    assert!(rows.is_empty());
}

#[test]
fn nulls_stay_null_under_any_type() {
    let wrapped = typed("n\nNULL\n", vec![("n", Some("bigint"))]);
    let (_, rows) = wrapped.get_data();
    assert_eq!(rows[0].clone().unwrap(), vec![ColumnValue::Null]);
}
