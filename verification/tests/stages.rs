//! The pipeline stages, run against a scripted inner executor.

use runops_proxy::accumulator::{fold_query, QueryAccumulator};
use runops_proxy::cache::{allow_listed, InMemoryQueryStorage, QueryCache, QueryStorage};
use runops_proxy::executor::{FakeQueryExecutor, QueryExecutor};
use runops_proxy::filter::{is_filtered, QueryFilter};
use runops_proxy::reader::ReaderQueryResult;
use runops_proxy::sanitizer::{sanitize_text, QuerySanitizer};

#[test]
fn test_filter() {
    let query_filter_data_provider = [
        ("SHOW WARNINGS", true),
        ("SET SQL_SELECT_LIMIT 501", false),
        ("SELECT * FROM payment", false),
    ];

    for (query, should_filter) in query_filter_data_provider {
        let fake_executor = FakeQueryExecutor::new(vec![Ok(None)]);
        let mut filter = QueryFilter::new(fake_executor);
        filter.query(query).unwrap();
        let executed_queries = filter.inner.get_query_list();
        if should_filter {
            assert_eq!(true, executed_queries.is_empty());
        } else {
            assert_eq!(1, executed_queries.len());
            assert_eq!(query, executed_queries[0]);
        }
    }
}

#[test]
fn filter_predicate() {
    assert!(is_filtered("SHOW WARNINGS"));
    assert!(!is_filtered("show warnings"));
    assert!(!is_filtered("SELECT 1"));
}

#[test]
fn sanitizer_strips_leading_block_comment() {
    assert_eq!(sanitize_text("/* hello */ SELECT 1"), "SELECT 1");
    assert_eq!(sanitize_text("  /* a\nb */\nSELECT 2"), "SELECT 2");
    assert_eq!(sanitize_text("/* never closed"), "");
}

#[test]
fn sanitizer_drops_comment_lines() {
    assert_eq!(sanitize_text("-- lead\nSELECT 1\n# tail"), "SELECT 1");
    assert_eq!(sanitize_text("  SELECT 1  \n   -- x"), "SELECT 1");
}

#[test]
fn sanitizer_replaces_language_token() {
    assert_eq!(sanitize_text("SELECT @@language"), "SELECT 'english'");
    assert_eq!(
        sanitize_text("SELECT @@language, @@language"),
        "SELECT 'english', 'english'"
    );
}

#[test]
fn sanitizer_stage_forwards_sanitized_text() {
    let fake = FakeQueryExecutor::new(vec![Ok(None)]);
    let mut stage = QuerySanitizer::new(fake);
    stage.query("  -- c\nSELECT @@language  ").unwrap();
    let seen = stage.inner.get_query_list();
    assert_eq!(seen.len(), 1);
    assert_eq!(seen[0], "SELECT 'english'");
}

#[test]
fn accumulator_replays_set_statements() {
    let fake = FakeQueryExecutor::new(vec![Ok(None)]);
    let mut stage = QueryAccumulator::new(fake);
    assert!(matches!(stage.query("SET time_zone='UTC'"), Ok(None)));
    assert!(stage.executor.get_query_list().is_empty());
    stage.query("SELECT 1").unwrap();
    let seen = stage.executor.get_query_list();
    assert_eq!(seen.len(), 1);
    assert_eq!(seen[0], "SET time_zone='UTC';\nSELECT 1");
}

#[test]
fn accumulator_deduplicates_and_keeps_order() {
    let fake = FakeQueryExecutor::new(vec![Ok(None)]);
    let mut stage = QueryAccumulator::new(fake);
    stage.query("set a").unwrap();
    stage.query("set b").unwrap();
    stage.query("set a").unwrap();
    stage.query("q").unwrap();
    let seen = stage.executor.get_query_list();
    assert_eq!(seen.len(), 1);
    assert_eq!(seen[0], "set a;\nset b;\nq");
}

#[test]
fn accumulator_lowercases_before_the_prefix_test() {
    // An upper-case SET must be captured, not forwarded.
    let fake = FakeQueryExecutor::new(vec![Ok(None)]);
    let mut stage = QueryAccumulator::new(fake);
    assert!(matches!(stage.query("SET x"), Ok(None)));
    assert!(stage.executor.get_query_list().is_empty());
}

#[test]
fn fold_query_passes_plain_queries_through() {
    let mut acc = ritelinked::LinkedHashSet::new();
    assert_eq!(fold_query(&mut acc, "select 1"), Some("select 1".to_string()));
    assert_eq!(fold_query(&mut acc, "set a"), None);
    assert_eq!(fold_query(&mut acc, "select 1"), Some("set a;\nselect 1".to_string()));
}

#[test]
fn cache_hit_skips_the_inner_stage() {
    let reader = ReaderQueryResult::new("v\n1\n".to_string());
    let fake = FakeQueryExecutor::new(vec![Ok(Some(reader))]);
    let storage = InMemoryQueryStorage::new();
    let allow = vec!["select version()".to_string()];
    let mut cache = QueryCache::new(fake, storage, allow);

    let first = cache.query("select version()").unwrap().unwrap();
    let (cols1, rows1) = runops_proxy::executor::QueryResult::get_data(first);
    let cols1 = cols1.unwrap();
    assert_eq!(cols1.len(), 1);
    assert_eq!(cols1[0].name, "v");
    let rows1: Vec<_> = rows1.into_iter().map(|r| r.unwrap()).collect();

    let second = cache.query("select version()").unwrap().unwrap();
    let (cols2, rows2) = runops_proxy::executor::QueryResult::get_data(second);
    let cols2 = cols2.unwrap();
    let rows2: Vec<_> = rows2.into_iter().map(|r| r.unwrap()).collect();
    assert_eq!(cols1, cols2);
    assert_eq!(rows1, rows2);

    // the scripted executor was asked exactly once
    assert_eq!(cache.executor.get_query_list().len(), 1);
}

#[test]
fn cache_passes_unlisted_queries_through_twice() {
    let r1 = ReaderQueryResult::new("a\n1\n".to_string());
    let r2 = ReaderQueryResult::new("a\n1\n".to_string());
    let fake = FakeQueryExecutor::new(vec![Ok(Some(r2)), Ok(Some(r1))]);
    let storage = InMemoryQueryStorage::new();
    let mut cache = QueryCache::new(fake, storage, Vec::new());
    cache.query("select 1").unwrap().unwrap();
    cache.query("select 1").unwrap().unwrap();
    assert_eq!(cache.executor.get_query_list().len(), 2);
}

#[test]
fn storage_returns_what_was_stored() {
    let mut storage = InMemoryQueryStorage::new();
    assert!(storage.get("q").is_none());
    storage.store("q", Vec::new(), Vec::new());
    let hit = storage.get("q").unwrap();
    assert!(hit.columns.is_empty());
    assert!(hit.rows.is_empty());
}

#[test]
fn allow_list_is_exact_text() {
    let list = vec!["select version()".to_string()];
    assert!(allow_listed(&list, "select version()"));
    assert!(!allow_listed(&list, "SELECT VERSION()"));
}
