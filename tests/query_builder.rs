use edgesearch::builder::{QueryBuilder, QueryExpr};

#[test]
fn test_query_expr_word() {
    let expr = QueryExpr::word("hello");
    assert_eq!(expr.to_query_string(), "hello");
}

#[test]
fn test_query_expr_quoted_word() {
    let expr = QueryExpr::word("hello world");
    assert_eq!(expr.to_query_string(), "\"hello world\"");
}

#[test]
fn test_query_expr_not() {
    let expr = QueryExpr::word("hello").not();
    assert_eq!(expr.to_query_string(), "~(hello)");
}

#[test]
fn test_query_expr_and() {
    let expr = QueryExpr::word("hello").and(QueryExpr::word("world"));
    assert_eq!(expr.to_query_string(), "(hello && world)");
}

#[test]
fn test_query_expr_or() {
    let expr = QueryExpr::word("hello").or(QueryExpr::word("world"));
    assert_eq!(expr.to_query_string(), "(hello || world)");
}

#[test]
fn test_query_expr_complex() {
    let expr = QueryExpr::word("programming")
        .and(QueryExpr::word("rust"))
        .or(QueryExpr::word("hello world").not());
    assert_eq!(
        expr.to_query_string(),
        "((programming && rust) || ~(\"hello world\"))"
    );
}

#[test]
fn test_query_builder_basic() {
    let builder = QueryBuilder::word("hello");
    assert_eq!(builder.to_query_string(), Some("hello".to_string()));
}

#[test]
fn test_query_builder_and() {
    let builder = QueryBuilder::word("hello").and("world");
    assert_eq!(
        builder.to_query_string(),
        Some("(hello && world)".to_string())
    );
}

#[test]
fn test_query_builder_or() {
    let builder = QueryBuilder::word("hello").or("world");
    assert_eq!(
        builder.to_query_string(),
        Some("(hello || world)".to_string())
    );
}

#[test]
fn test_query_builder_complex() {
    let builder = QueryBuilder::word("programming")
        .and("tutorials")
        .or_expr(QueryExpr::word("world").and(QueryExpr::word("peace")).not());

    let expected = "((programming && tutorials) || ~((world && peace)))";
    assert_eq!(builder.to_query_string(), Some(expected.to_string()));
}

#[test]
fn test_query_builder_not() {
    let builder = QueryBuilder::word("hello").not();
    assert_eq!(builder.to_query_string(), Some("~(hello)".to_string()));
}

#[test]
fn test_query_builder_empty() {
    let builder = QueryBuilder::new();
    assert_eq!(builder.to_query_string(), None);
}

#[test]
fn test_display_trait() {
    let expr = QueryExpr::word("hello").and(QueryExpr::word("world"));
    assert_eq!(expr.to_query_string(), "(hello && world)");
}

#[test]
fn test_special_characters_quoting() {
    let expr = QueryExpr::word("hello && world");
    assert_eq!(expr.to_query_string(), "\"hello && world\"");

    let expr2 = QueryExpr::word("hello || world");
    assert_eq!(expr2.to_query_string(), "\"hello || world\"");

    let expr3 = QueryExpr::word("hello ~ world");
    assert_eq!(expr3.to_query_string(), "\"hello ~ world\"");

    let expr4 = QueryExpr::word("hello (world)");
    assert_eq!(expr4.to_query_string(), "\"hello (world)\"");
}

#[test]
fn builder_default_is_empty() {
    let builder = QueryBuilder::default();
    assert!(builder.build().is_none());
}

#[test]
fn builder_not_on_empty_stays_empty() {
    assert_eq!(QueryBuilder::new().not().to_query_string(), None);
}

#[test]
fn builder_and_on_empty_starts_with_word() {
    assert_eq!(
        QueryBuilder::new().and("rust").to_query_string(),
        Some("rust".to_string())
    );
}
