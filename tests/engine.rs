use edgesearch::addressing::{
    document_kv_key, document_kv_prefix, get_index_key, keyword_kv_prefix, keyword_shard_kv_key, shard_from_digest,
    shard_from_document_id,
};
use edgesearch::bulk::{get_document_limit, get_keyword_limit, BulkPlan, BulkReader, ReadKind, ReaderError};
use edgesearch::catalog::{index_name_of, IndexDocument};
use edgesearch::settings::{check_auth, get_n_shards, parse_unsigned, yake_setting};
use edgesearch::document::Document;
use edgesearch::executor::QueryLexer;
use edgesearch::framing::{frame_payloads, length_prefix_data, read_length_prefixed, read_one_length_prefixed};
use edgesearch::merge::KeywordManager;
use edgesearch::query::{Expr, QueryError, StringTokenizer, Token};
use edgesearch::reader::{frame_found, parse_body, DurableReader};
use edgesearch::shard::KeywordShardData;

fn lexer(query: &str) -> QueryLexer<f64> {
    match QueryLexer::<f64>::from_str(query) {
        Ok(l) => l,
        Err(e) => panic!("query failed to parse: {:?}", e),
    }
}

fn postings(entries: &[(&str, f64)]) -> Vec<(String, f64)> {
    entries.iter().map(|(d, s)| (d.to_string(), *s)).collect()
}

/// Three documents: d1 = "a b", d2 = "b c", d3 = "a c".
fn three_docs(query: &str) -> QueryLexer<f64> {
    let mut l = lexer(query);
    l.insert_keyword_data("a".to_string(), postings(&[("d1", 0.9), ("d3", 0.5)]));
    l.insert_keyword_data("b".to_string(), postings(&[("d1", 0.8), ("d2", 0.7)]));
    l.insert_keyword_data("c".to_string(), postings(&[("d2", 0.6), ("d3", 0.4)]));
    l
}

fn doc_ids(m: &[(String, Vec<(String, f64)>)]) -> Vec<String> {
    let mut ids: Vec<String> = m.iter().map(|(d, _)| d.clone()).collect();
    ids.sort();
    ids
}

// ---- framing ----

#[test]
fn framing_round_trip_keeps_payloads_and_empties() {
    let payloads: Vec<Vec<u8>> = vec![b"abc".to_vec(), vec![], b"xyz".to_vec(), vec![]];
    let framed = frame_payloads(&payloads);
    assert_eq!(framed.len(), 4 * 4 + 6);
    assert_eq!(read_length_prefixed(&framed), Some(payloads));
}

#[test]
fn framing_prefix_is_little_endian_length() {
    let mut out = vec![9u8];
    let whole = length_prefix_data(b"hi", &mut out);
    assert_eq!(out, vec![9, 2, 0, 0, 0, b'h', b'i']);
    assert_eq!(whole.bytes, out);
    let mut big = Vec::new();
    length_prefix_data(&vec![7u8; 258], &mut big);
    assert_eq!(&big[0..4], &[2, 1, 0, 0]);
}

#[test]
fn framing_partial_trailer_is_an_error() {
    assert_eq!(read_length_prefixed(&vec![5, 0, 0, 0, 1, 2]), None);
    assert_eq!(read_length_prefixed(&vec![1, 0]), None);
    assert_eq!(read_length_prefixed(&vec![]), Some(vec![]));
    assert_eq!(read_one_length_prefixed(&[1, 0, 0]), None);
    assert_eq!(read_one_length_prefixed(&[1, 0, 0, 0, 42, 43]), Some(vec![42]));
}

// ---- tokenizer and parser ----

#[test]
fn parse_canonical_example() {
    let tokens = StringTokenizer::tokenize("(\"a\" && \"b\") || ~(\"c\")").unwrap();
    assert_eq!(tokens.len(), 10);
    let expr = StringTokenizer::parse(tokens).unwrap();
    match &expr {
        Expr::Or(l, r) => {
            assert!(matches!(&**l, Expr::And(x, y)
                if matches!(&**x, Expr::Word(w) if w == "a") && matches!(&**y, Expr::Word(w) if w == "b")));
            assert!(matches!(&**r, Expr::Not(x) if matches!(&**x, Expr::Word(w) if w == "c")));
        }
        _ => panic!("expected an Or at the top"),
    }
    assert_eq!(expr.to_string(), "(a && b) || ~(c)");
    assert_eq!(expr.to_query_string(), "((\"a\" && \"b\") || ~(\"c\"))");
}

#[test]
fn canonical_text_reads_back() {
    let text = "((\"a b\" && ~(\"c\")) || \"d\")";
    let expr = StringTokenizer::parse(StringTokenizer::tokenize(text).unwrap()).unwrap();
    assert_eq!(expr.to_query_string(), text);
}

#[test]
fn tokenizer_errors() {
    assert!(matches!(StringTokenizer::tokenize("\"a\" & \"b\""), Err(QueryError::InvalidToken('&'))));
    assert!(matches!(StringTokenizer::tokenize("\"a\" | \"b\""), Err(QueryError::InvalidToken('|'))));
    assert!(matches!(StringTokenizer::tokenize("\"abc"), Err(QueryError::UnclosedQuote)));
    assert!(matches!(StringTokenizer::tokenize("abc"), Err(QueryError::InvalidToken('a'))));
    let tokens = StringTokenizer::tokenize(" \t\n\"x y\"").unwrap();
    assert!(matches!(&tokens[..], [Token::Word(w)] if w == "x y"));
}

#[test]
fn printing_the_example_tree() {
    let expr = Expr::Or(
        Box::new(Expr::And(Box::new(Expr::Word("a".to_string())), Box::new(Expr::Word("b".to_string())))),
        Box::new(Expr::Not(Box::new(Expr::Word("c".to_string())))),
    );
    assert_eq!(expr.to_string(), "(a && b) || ~(c)");
    assert_eq!(Expr::Word("a".to_string()).to_string(), "a");
    assert_eq!(Expr::Not(Box::new(Expr::Word("a".to_string()))).to_string(), "~(a)");
}

#[test]
fn parser_rejects_trailing_tokens() {
    assert!(StringTokenizer::parse(StringTokenizer::tokenize("\"a\" \"b\"").unwrap()).is_none());
    assert!(StringTokenizer::parse(StringTokenizer::tokenize("\"a\")").unwrap()).is_none());
    assert!(matches!(QueryLexer::<f64>::from_str("\"a\" \"b\""), Err(QueryError::UnexpectedEof)));
}

#[test]
fn parser_rejects_incomplete_queries() {
    assert!(StringTokenizer::parse(StringTokenizer::tokenize("(\"a\"").unwrap()).is_none());
    assert!(StringTokenizer::parse(StringTokenizer::tokenize("\"a\" &&").unwrap()).is_none());
    assert!(matches!(QueryLexer::<f64>::from_str(""), Err(QueryError::EmptyQuery)));
    assert!(matches!(QueryLexer::<f64>::from_str("\"a\" &&"), Err(QueryError::UnexpectedEof)));
    assert!(matches!(QueryLexer::<f64>::from_str("\"a"), Err(QueryError::UnclosedQuote)));
}

#[test]
fn and_binds_tighter_than_or() {
    let expr = StringTokenizer::parse(StringTokenizer::tokenize("\"a\" || \"b\" && \"c\"").unwrap()).unwrap();
    assert_eq!(expr.to_string(), "a || (b && c)");
}

// ---- evaluation ----

#[test]
fn boolean_and_returns_common_document_with_both_keywords() {
    let l = three_docs("\"a\" && \"c\"");
    let m = l.query();
    assert_eq!(doc_ids(&m), vec!["d3".to_string()]);
    assert_eq!(m[0].1, vec![("a".to_string(), 0.5), ("c".to_string(), 0.4)]);
}

#[test]
fn negation_at_top_level_matches_nothing() {
    let l = three_docs("~\"a\"");
    assert_eq!(l.query().len(), 0);
}

#[test]
fn negation_after_and_removes_from_left_side() {
    let l = three_docs("\"a\" && ~\"c\"");
    assert_eq!(doc_ids(&l.query()), vec!["d1".to_string()]);
}

#[test]
fn or_unites_and_merges_keywords() {
    let l = three_docs("\"a\" || \"b\"");
    let m = l.query();
    assert_eq!(doc_ids(&m), vec!["d1".to_string(), "d2".to_string(), "d3".to_string()]);
    let d1 = m.iter().find(|(d, _)| d == "d1").unwrap();
    assert_eq!(d1.1, vec![("a".to_string(), 0.9), ("b".to_string(), 0.8)]);
}

#[test]
fn unknown_keyword_matches_nothing() {
    let l = three_docs("\"zzz\"");
    assert!(l.query().is_empty());
}

#[test]
fn missing_keywords_once_each_and_not_loaded() {
    let mut l = lexer("\"a\" && (\"b\" || \"a\") && \"c\"");
    assert_eq!(l.missing_keywords(), vec!["a".to_string(), "b".to_string(), "c".to_string()]);
    l.insert_keyword_data("b".to_string(), vec![]);
    assert_eq!(l.missing_keywords(), vec!["a".to_string(), "c".to_string()]);
    assert_eq!(QueryLexer::<f64>::collect_keywords(&l.ast).len(), 4);
}

// ---- addressing and shards ----

#[test]
fn keys_have_their_schemas() {
    assert_eq!(get_index_key("foo"), "index:foo");
    assert_eq!(document_kv_key("foo", &"abc".to_string()), "foo:document:abc");
    assert_eq!(document_kv_prefix("foo"), "foo:document:");
    assert_eq!(keyword_kv_prefix("foo", "rust"), "foo:kw:rust:");
    assert_eq!(keyword_shard_kv_key("foo", "rust", 17), "foo:kw:rust:17");
    assert_eq!(keyword_shard_kv_key("foo", "rust", 0), "foo:kw:rust:0");
}

#[test]
fn shard_is_sha256_prefix_modulo() {
    assert_eq!(shard_from_document_id("doc-1".to_string(), 48), 41);
    assert_eq!(shard_from_document_id("hello".to_string(), 48), 42);
    assert_eq!(shard_from_document_id("abc".to_string(), 7), 5);
    assert_eq!(shard_from_document_id("abc".to_string(), 7), shard_from_document_id("abc".to_string(), 7));
    assert_eq!(shard_from_digest(&vec![0, 0, 1, 0], 48), 256 % 48);
    for id in ["a", "b", "c", "doc-1", "x_y"] {
        assert!(shard_from_document_id(id.to_string(), 48) < 48);
    }
}

#[test]
fn add_is_idempotent_and_keeps_first_score() {
    let mut shard = KeywordShardData::new("foo".to_string(), "rust".to_string(), 3, 1, vec![]);
    assert!(shard.add_document("d1", 0.7, 10));
    assert!(!shard.add_document("d1", 0.2, 20));
    assert_eq!(shard.docs, vec![("d1".to_string(), 0.7)]);
    assert_eq!(shard.ts, 10);
}

#[test]
fn remove_is_idempotent_and_second_needs_no_write() {
    let mut shard = KeywordShardData::new(
        "foo".to_string(),
        "rust".to_string(),
        3,
        1,
        vec![("d1".to_string(), 0.5), ("d2".to_string(), 0.6)],
    );
    assert!(shard.remove_document("d1", 5));
    assert!(!shard.remove_document("d1", 9));
    assert_eq!(shard.docs, vec![("d2".to_string(), 0.6)]);
    assert_eq!(shard.ts, 5);
    assert!(!shard.contains_document("d1"));
}

#[test]
fn from_keyword_creates_or_keeps() {
    let (fresh, write) = KeywordShardData::<f64>::from_keyword(None, "foo", "doc-1", "rust", 48, 77);
    assert!(write);
    assert_eq!(fresh.shard, 41);
    assert_eq!(fresh.ts, 77);
    assert!(fresh.docs.is_empty());
    assert_eq!(fresh.get_kv_key(), "foo:kw:rust:41");
    assert_eq!(KeywordShardData::<f64>::key_for_document("foo", "rust", "doc-1", 48), "foo:kw:rust:41");
    let (kept, write) = KeywordShardData::from_keyword(Some(fresh), "foo", "doc-1", "rust", 48, 99);
    assert!(!write);
    assert_eq!(kept.ts, 77);
}

// ---- documents ----

#[test]
fn valid_ids() {
    assert!(Document::<f64>::is_valid_id("abc-_1"));
    assert!(Document::<f64>::is_valid_id(&"a".repeat(64)));
    assert!(!Document::<f64>::is_valid_id(&"a".repeat(65)));
    assert!(!Document::<f64>::is_valid_id(""));
    assert!(!Document::<f64>::is_valid_id("a b"));
    assert!(!Document::<f64>::is_valid_id("é"));
}

#[test]
fn generated_ids_are_url_safe() {
    let d = Document::<f64>::new("foo");
    assert_eq!(d.get_uuid().chars().count(), 16);
    assert!(d.uuid.chars().all(|c| c.is_ascii_alphanumeric() || c == '-' || c == '_'));
    assert_eq!(d.revision, 0);
}

#[test]
fn update_counts_revisions_and_reports_dropped_keywords() {
    let mut d = Document::<f64>::new_with_id("foo", "doc-1");
    assert_eq!(d.get_kv_key(), "foo:document:doc-1");
    let removed = d.update("first".to_string(), postings(&[("alpha", 0.9), ("beta", 0.8)]));
    assert!(removed.is_empty());
    assert_eq!(d.revision, 1);
    let removed = d.update("second".to_string(), postings(&[("beta", 0.5), ("gamma", 0.4)]));
    assert_eq!(removed, vec!["alpha".to_string()]);
    assert_eq!(d.revision, 2);
    assert_eq!(d.document_body, Some("second".to_string()));
    d.set_language("en".to_string());
    assert_eq!(d.lang, Some("en".to_string()));
}

// ---- bulk reads ----

#[test]
fn limits() {
    assert_eq!(get_keyword_limit(48), 20);
    assert_eq!(get_keyword_limit(1), 1000);
    assert_eq!(get_document_limit(), 990);
}

#[test]
fn bulk_over_ceiling_goes_through_durable_reader() {
    let keys: Vec<String> = (0..25).map(|i| format!("foo:kw:rust:{}", i)).collect();
    let reader = BulkReader::new(48);
    match reader.plan(ReadKind::Keywords, &keys) {
        BulkPlan::Chunked(path, bodies) => {
            assert_eq!(path, "/keywords");
            assert_eq!(bodies.len(), 2);
            assert_eq!(bodies[0], keys[0..20].join(","));
            assert_eq!(bodies[1], keys[20..25].join(","));
        }
        BulkPlan::Direct => panic!("expected the durable reader"),
    }
    assert!(matches!(reader.plan(ReadKind::Keywords, &keys[0..19].to_vec()), BulkPlan::Direct));
    assert!(matches!(reader.plan(ReadKind::Documents, &keys), BulkPlan::Direct));
}

#[test]
fn chunk_answers_decode_in_order() {
    let a = frame_payloads(&vec![b"1".to_vec(), b"2".to_vec()]);
    let b = frame_payloads(&vec![b"3".to_vec()]);
    assert_eq!(
        BulkReader::decode_chunks(&vec![a.clone(), b]),
        Some(vec![b"1".to_vec(), b"2".to_vec(), b"3".to_vec()])
    );
    assert_eq!(BulkReader::decode_chunks(&vec![a, vec![3, 0]]), None);
}

#[test]
fn reader_body_and_requests() {
    assert_eq!(parse_body("a, ,b,,c "), vec!["a".to_string(), "b".to_string(), "c ".to_string()]);
    assert_eq!(parse_body(""), Vec::<String>::new());
    let reader = DurableReader::new(48);
    assert!(matches!(reader.read_request(false, "/keywords", "a"), Err(ReaderError::MethodNotAllowed)));
    assert!(matches!(reader.read_request(true, "/other", "a"), Err(ReaderError::MethodNotAllowed)));
    assert!(matches!(reader.read_request(true, "/keywords", " , "), Err(ReaderError::NoKeys)));
    let many: Vec<String> = (0..21).map(|i| i.to_string()).collect();
    assert!(matches!(
        reader.read_request(true, "/documents", &many.join(",")),
        Err(ReaderError::TooManyKeys(20))
    ));
    match reader.read_request(true, "/documents", "x,y") {
        Ok((kind, keys)) => {
            assert_eq!(kind, ReadKind::Documents);
            assert_eq!(keys, vec!["x".to_string(), "y".to_string()]);
        }
        Err(e) => panic!("unexpected {:?}", e),
    }
}

#[test]
fn missing_keys_answer_empty_payloads_in_place() {
    let framed = frame_found(&vec![Some(b"ab".to_vec()), None, Some(b"c".to_vec())]);
    assert_eq!(framed, vec![2, 0, 0, 0, b'a', b'b', 0, 0, 0, 0, 1, 0, 0, 0, b'c']);
}

// ---- merging, catalog ----

#[test]
fn keyword_decoding_and_prefix() {
    assert_eq!(KeywordManager::decode_keyword("hello%20world"), "hello world");
    assert_eq!(KeywordManager::decode_keyword("a+b"), "a b");
    let m = KeywordManager::new("foo".to_string());
    assert_eq!(m.shard_prefix("big%20data"), "foo:kw:big data:");
}

#[test]
fn merge_concatenates_shards() {
    let m = KeywordManager::new("foo".to_string());
    let s1 = KeywordShardData::new("foo".to_string(), "k".to_string(), 1, 0, postings(&[("d1", 0.1)]));
    let s2 = KeywordShardData::new("foo".to_string(), "k".to_string(), 2, 0, postings(&[("d2", 0.2), ("d3", 0.3)]));
    assert_eq!(
        m.merge_keyword_shards(&vec![s1, s2]),
        postings(&[("d1", 0.1), ("d2", 0.2), ("d3", 0.3)])
    );
}

#[test]
fn create_index_is_idempotent() {
    let (first, write) = IndexDocument::create(None, "foo", 100);
    assert!(write);
    assert_eq!(first.created, 100);
    assert_eq!(first.get_kv_key(), "index:foo");
    let (second, write) = IndexDocument::create(Some(first), "foo", 200);
    assert!(!write);
    assert_eq!(second.created, 100);
    assert!(IndexDocument::is_reserved_index("indexes"));
    assert!(IndexDocument::is_reserved_index("_internal"));
    assert!(!IndexDocument::is_reserved_index("foo"));
}

#[test]
fn recount_reports_change() {
    let mut idx = IndexDocument::new("foo", 1);
    assert!(idx.recount(3));
    assert!(!idx.recount(3));
    assert_eq!(idx.docs_count, 3);
}

// ---- settings and access ----

#[test]
fn settings_parse_or_default() {
    assert_eq!(get_n_shards(None), Some(48));
    assert_eq!(get_n_shards(Some("16")), Some(16));
    assert_eq!(get_n_shards(Some("+7")), Some(7));
    assert_eq!(get_n_shards(Some("abc")), None);
    assert_eq!(get_n_shards(Some("")), None);
    assert_eq!(get_n_shards(Some("4294967296")), None);
    assert_eq!(get_n_shards(Some("4294967295")), Some(u32::MAX));
    assert_eq!(yake_setting(Some("5"), 3), 5);
    assert_eq!(yake_setting(Some("256"), 3), 3);
    assert_eq!(yake_setting(Some("x"), 2), 2);
    assert_eq!(yake_setting(None, 2), 2);
    assert_eq!(parse_unsigned("+", 10), None);
    assert_eq!(parse_unsigned(" 1", 10), None);
    assert_eq!(parse_unsigned("0010", 10), Some(10));
    for v in ["0", "1", "99", "65535", "123456789"] {
        assert_eq!(parse_unsigned(v, u32::MAX), v.parse::<u32>().ok());
    }
}

#[test]
fn access_check() {
    assert!(check_auth(None, None));
    assert!(check_auth(None, Some("x")));
    assert!(check_auth(Some("k"), Some("k")));
    assert!(!check_auth(Some("k"), Some("K")));
    assert!(!check_auth(Some("k"), None));
}

#[test]
fn index_names_from_keys() {
    assert_eq!(index_name_of("index:foo"), Some("foo".to_string()));
    assert_eq!(index_name_of("index:"), Some(String::new()));
    assert_eq!(index_name_of("foo:document:x"), None);
    assert_eq!(index_name_of("inde"), None);
}
