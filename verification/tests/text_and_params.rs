//! Text utilities and the prepared-statement helpers.

use runops_proxy::mysql::{count_placeholders, escaped, substitute_params, PreparedStatements};
use runops_proxy::text::{chars_of, lowercase, string_of};
use runops_proxy::value::parse_i64;

#[test]
fn placeholder_counting_and_substitution() {
    assert_eq!(count_placeholders("select * from t where a = ? and b = ?"), 2);
    assert_eq!(count_placeholders("select 1"), 0);
    let out = substitute_params(
        "a = ? and b = ?",
        &vec!["'x'".to_string(), "7".to_string()],
    );
    assert_eq!(out, "a = 'x' and b = 7");
}

#[test]
fn escaping_wraps_in_single_quotes() {
    assert_eq!(escaped("2024-01-02"), "'2024-01-02'");
}

#[test]
fn prepared_statements_index_by_position() {
    let mut table = PreparedStatements::new();
    let id0 = table.add("select 1".to_string());
    let id1 = table.add("select 2".to_string());
    assert_eq!((id0, id1), (0, 1));
    assert_eq!(table.get(1).map(|s| s.as_str()), Some("select 2"));
    table.close(0);
    // closing shifts the later statements down
    assert_eq!(table.get(0).map(|s| s.as_str()), Some("select 2"));
    assert!(table.get(1).is_none());
}

#[test]
fn chars_round_trip_through_strings() {
    let v = chars_of("héllo");
    assert_eq!(string_of(&v), "héllo");
}

#[test]
fn lowercasing_folds_case() {
    assert_eq!(lowercase("SELECT Id FROM T"), "select id from t");
}

#[test]
fn integer_parsing_matches_the_standard_grammar() {
    assert_eq!(parse_i64(&chars_of("42")), Some(42));
    assert_eq!(parse_i64(&chars_of("-7")), Some(-7));
    assert_eq!(parse_i64(&chars_of("+9")), Some(9));
    assert_eq!(parse_i64(&chars_of("9223372036854775807")), Some(i64::MAX));
    assert_eq!(parse_i64(&chars_of("-9223372036854775808")), Some(i64::MIN));
    assert_eq!(parse_i64(&chars_of("9223372036854775808")), None);
    assert_eq!(parse_i64(&chars_of("")), None);
    assert_eq!(parse_i64(&chars_of("1.5")), None);
    assert_eq!(parse_i64(&chars_of("--1")), None);
}
