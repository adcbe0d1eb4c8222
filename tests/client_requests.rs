use edgesearch::builder::{QueryBuilder, QueryExpr};
use edgesearch::client::{Client, ClientError, HttpMethod};
use edgesearch::journal::JournalData;

#[test]
fn base_url_loses_trailing_slashes() {
    assert_eq!(Client::new("http://x//".to_string()).base_url, "http://x");
    assert_eq!(Client::new("http://x".to_string()).base_url, "http://x");
}

#[test]
fn requests_carry_key_when_set() {
    let c = Client::new("http://x/".to_string());
    let r = c.status();
    assert_eq!(r.url, "http://x/");
    assert!(r.headers.is_empty());
    assert_eq!(r.method, HttpMethod::GET);
    let c = c.with_api_key("k".to_string());
    let r = c.create_index("foo");
    assert_eq!(r.method, HttpMethod::PUT);
    assert_eq!(r.url, "http://x/foo");
    assert_eq!(r.headers, vec![("X-API-Key".to_string(), "k".to_string())]);
}

#[test]
fn document_requests() {
    let c = Client::new("http://x".to_string());
    assert_eq!(c.list_indexes().url, "http://x/indexes");
    assert_eq!(c.get_index("foo").url, "http://x/foo");
    assert_eq!(c.delete_index("foo").method, HttpMethod::DELETE);
    assert_eq!(c.get_document("foo", "d1").url, "http://x/foo/doc/d1");
    let r = c.add_document("foo", "body".to_string(), Some("en"));
    assert_eq!(r.url, "http://x/foo/doc?lang=en");
    assert_eq!(r.body, Some("body".to_string()));
    assert_eq!(c.add_document("foo", "b".to_string(), None).url, "http://x/foo/doc");
    assert_eq!(c.update_document("foo", "d1", "b".to_string()).method, HttpMethod::PATCH);
    assert_eq!(c.delete_document("foo", "d1").url, "http://x/foo/doc/d1");
    assert_eq!(c.get_keyword("foo", "big data").url, "http://x/foo/keyword/big%20data");
}

#[test]
fn search_requests_encode_the_query() {
    let c = Client::new("http://x".to_string());
    let r = c.search("foo", "\"a\" && \"b\"", Some(true));
    assert_eq!(r.method, HttpMethod::POST);
    assert_eq!(r.url, "http://x/foo/search?query=%22a%22%20%26%26%20%22b%22&full=true");
    assert_eq!(c.search("foo", "a", None).url, "http://x/foo/search?query=a");
    let expr = QueryExpr::word("a").and(QueryExpr::word("b"));
    assert_eq!(c.search_expr("foo", &expr, Some(false)).url, "http://x/foo/search?query=%28a%20%26%26%20b%29&full=false");
    assert!(matches!(c.search_builder("foo", QueryBuilder::new(), None), Err(ClientError::Api(m)) if m == "Empty query builder"));
    match c.search_builder("foo", QueryBuilder::word("a"), None) {
        Ok(r) => assert_eq!(r.url, "http://x/foo/search?query=a"),
        Err(_) => panic!("expected a request"),
    }
}

#[test]
fn journal_starts_empty() {
    let j = JournalData::new(42);
    assert!(j.entries.is_empty());
    assert_eq!(j.last_index, 42);
}
