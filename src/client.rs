//! The client of the service's HTTP interface: for each call, the request
//! to send. Sending it and reading the answer is up to the caller.
use crate::builder::{built, query_ast, query_text, QueryBuilder, QueryExpr};
use vstd::prelude::*;

verus! {

/// A text percent-encoded for a URL.
pub uninterp spec fn url_encoded(s: Seq<char>) -> Seq<char>;

/// Relies on urlencoding's `encode`: every byte of the UTF-8 text but ASCII
/// letters, digits and `-`, `_`, `.`, `~` percent-encoded. The result
/// depends on the text alone.
#[verifier::external_body]
fn encode_component(s: &str) -> (r: String)
    ensures
        r@ == url_encoded(s@),
{
    urlencoding::encode(s).into_owned()
}

#[derive(Debug, Clone, Copy, PartialEq, Eq, Structural)]
pub enum HttpMethod {
    GET,
    POST,
    PUT,
    PATCH,
    DELETE,
}

/// A request to send.
pub struct HttpRequest {
    pub method: HttpMethod,
    pub url: String,
    /// Header names and values.
    pub headers: Vec<(String, String)>,
    pub body: Option<String>,
}

/// An answer received.
pub struct HttpResponse {
    pub status: u16,
    pub body: String,
}

/// What can go wrong on the client's side.
pub enum ClientError {
    Http(String),
    InvalidUrl(String),
    Api(String),
}

/// `s` without its trailing slashes.
pub open spec fn trim_slashes(s: Seq<char>) -> Seq<char>
    decreases s.len(),
{
    if s.len() > 0 && s.last() == '/' {
        trim_slashes(s.drop_last())
    } else {
        s
    }
}

/// The headers that authenticate a request: the API key, where there is one.
pub open spec fn auth_headers(key: Option<String>) -> Seq<(Seq<char>, Seq<char>)> {
    match key {
        Some(k) => seq![("X-API-Key"@, k@)],
        None => Seq::empty(),
    }
}

pub open spec fn headers_view(h: Seq<(String, String)>) -> Seq<(Seq<char>, Seq<char>)> {
    h.map_values(|p: (String, String)| (p.0@, p.1@))
}

pub open spec fn body_view(b: Option<String>) -> Option<Seq<char>> {
    match b {
        Some(s) => Some(s@),
        None => None,
    }
}

/// `r` is the request that client `c` sends with method `m` to `path`,
/// carrying `body`.
pub open spec fn is_request(
    r: HttpRequest,
    c: Client,
    m: HttpMethod,
    path: Seq<char>,
    body: Option<Seq<char>>,
) -> bool {
    &&& r.method == m
    &&& r.url@ == c.base_url@ + path
    &&& headers_view(r.headers@) == auth_headers(c.api_key)
    &&& body_view(r.body) == body
}

/// The query part of a search: the encoded query and, where asked, whether
/// to return full documents.
pub open spec fn search_path(index: Seq<char>, query: Seq<char>, full: Option<bool>) -> Seq<char> {
    "/"@ + index + "/search?query="@ + url_encoded(query) + match full {
        Some(true) => "&full=true"@,
        Some(false) => "&full=false"@,
        None => Seq::empty(),
    }
}

/// The client of one service.
pub struct Client {
    /// The service's address, without a trailing slash.
    pub base_url: String,
    pub api_key: Option<String>,
}

impl Client {
    /// A client of the service at `base_url`; trailing slashes are dropped.
    pub fn new(base_url: String) -> (r: Client)
        ensures
            r.base_url@ == trim_slashes(base_url@),
            r.api_key is None,
    {
        let s = base_url.as_str();
        let mut end = s.unicode_len();
        assert(s@.subrange(0, end as int) =~= s@);
        while end > 0 && s.get_char(end - 1) == '/'
            invariant
                end <= s@.len(),
                trim_slashes(s@) == trim_slashes(s@.subrange(0, end as int)),
            decreases end,
        {
            assert(s@.subrange(0, end as int).drop_last() =~= s@.subrange(0, end - 1));
            end = end - 1;
        }
        assert(s@.subrange(0, 0) =~= Seq::<char>::empty());
        Client { base_url: String::from_str(s.substring_char(0, end)), api_key: None }
    }

    /// The same client, sending an API key.
    pub fn with_api_key(self, api_key: String) -> (r: Client)
        ensures
            r.base_url == self.base_url,
            r.api_key == Some(api_key),
    {
        Client { base_url: self.base_url, api_key: Some(api_key) }
    }

    fn request(&self, method: HttpMethod, path: String, body: Option<String>) -> (r: HttpRequest)
        ensures
            is_request(r, *self, method, path@, body_view(body)),
    {
        let mut headers: Vec<(String, String)> = Vec::new();
        match &self.api_key {
            Some(key) => {
                headers.push((String::from_str("X-API-Key"), key.clone()));
                assert(headers_view(headers@) =~= seq![("X-API-Key"@, key@)]);
            },
            None => {
                assert(headers_view(headers@) =~= Seq::<(Seq<char>, Seq<char>)>::empty());
            },
        }
        let url = self.base_url.clone().concat(path.as_str());
        HttpRequest { method, url, headers, body }
    }

    /// Whether the service is up.
    pub fn status(&self) -> (r: HttpRequest)
        ensures
            is_request(r, *self, HttpMethod::GET, "/"@, None),
    {
        self.request(HttpMethod::GET, String::from_str("/"), None)
    }

    /// The names of all indexes.
    pub fn list_indexes(&self) -> (r: HttpRequest)
        ensures
            is_request(r, *self, HttpMethod::GET, "/indexes"@, None),
    {
        self.request(HttpMethod::GET, String::from_str("/indexes"), None)
    }

    /// An index's descriptor.
    pub fn get_index(&self, index: &str) -> (r: HttpRequest)
        ensures
            is_request(r, *self, HttpMethod::GET, "/"@ + index@, None),
    {
        self.request(HttpMethod::GET, String::from_str("/").concat(index), None)
    }

    /// Creates an index, or finds the one of that name.
    pub fn create_index(&self, index: &str) -> (r: HttpRequest)
        ensures
            is_request(r, *self, HttpMethod::PUT, "/"@ + index@, None),
    {
        self.request(HttpMethod::PUT, String::from_str("/").concat(index), None)
    }

    /// Deletes an index.
    pub fn delete_index(&self, index: &str) -> (r: HttpRequest)
        ensures
            is_request(r, *self, HttpMethod::DELETE, "/"@ + index@, None),
    {
        self.request(HttpMethod::DELETE, String::from_str("/").concat(index), None)
    }

    /// A document.
    pub fn get_document(&self, index: &str, doc_id: &str) -> (r: HttpRequest)
        ensures
            is_request(r, *self, HttpMethod::GET, "/"@ + index@ + "/doc/"@ + doc_id@, None),
    {
        let path = String::from_str("/").concat(index).concat("/doc/").concat(doc_id);
        self.request(HttpMethod::GET, path, None)
    }

    /// Adds a document with a generated id, in language `lang` where given.
    pub fn add_document(&self, index: &str, body: String, lang: Option<&str>) -> (r: HttpRequest)
        ensures
            is_request(
                r,
                *self,
                HttpMethod::POST,
                "/"@ + index@ + "/doc"@ + match lang {
                    Some(l) => "?lang="@ + url_encoded(l@),
                    None => Seq::empty(),
                },
                Some(body@),
            ),
    {
        let mut path = String::from_str("/").concat(index).concat("/doc");
        let ghost base = path@;
        match lang {
            Some(l) => {
                let encoded = encode_component(l);
                path = path.concat("?lang=").concat(encoded.as_str());
                assert(path@ =~= base + ("?lang="@ + url_encoded(l@)));
            },
            None => {
                assert(path@ =~= base + Seq::<char>::empty());
            },
        }
        self.request(HttpMethod::POST, path, Some(body))
    }

    /// Replaces a document's body.
    pub fn update_document(&self, index: &str, doc_id: &str, body: String) -> (r: HttpRequest)
        ensures
            is_request(
                r,
                *self,
                HttpMethod::PATCH,
                "/"@ + index@ + "/doc/"@ + doc_id@,
                Some(body@),
            ),
    {
        let path = String::from_str("/").concat(index).concat("/doc/").concat(doc_id);
        self.request(HttpMethod::PATCH, path, Some(body))
    }

    /// Deletes a document.
    pub fn delete_document(&self, index: &str, doc_id: &str) -> (r: HttpRequest)
        ensures
            is_request(r, *self, HttpMethod::DELETE, "/"@ + index@ + "/doc/"@ + doc_id@, None),
    {
        let path = String::from_str("/").concat(index).concat("/doc/").concat(doc_id);
        self.request(HttpMethod::DELETE, path, None)
    }

    /// Searches an index with query text.
    pub fn search(&self, index: &str, query: &str, full: Option<bool>) -> (r: HttpRequest)
        ensures
            is_request(r, *self, HttpMethod::POST, search_path(index@, query@, full), None),
    {
        let encoded = encode_component(query);
        let mut path = String::from_str("/").concat(index).concat("/search?query=").concat(
            encoded.as_str(),
        );
        match full {
            Some(true) => {
                path = path.concat("&full=true");
            },
            Some(false) => {
                path = path.concat("&full=false");
            },
            None => {},
        }
        self.request(HttpMethod::POST, path, None)
    }

    /// Searches an index with a built expression.
    pub fn search_expr(&self, index: &str, expr: &QueryExpr, full: Option<bool>) -> (r:
        HttpRequest)
        ensures
            is_request(
                r,
                *self,
                HttpMethod::POST,
                search_path(index@, query_text(query_ast(*expr)), full),
                None,
            ),
    {
        let query = expr.to_query_string();
        self.search(index, query.as_str(), full)
    }

    /// Searches an index with a builder's expression; an empty builder is
    /// an error.
    pub fn search_builder(&self, index: &str, builder: QueryBuilder, full: Option<bool>) -> (r:
        Result<HttpRequest, ClientError>)
        ensures
            match built(builder.expr) {
                Some(a) => r is Ok && is_request(
                    r->Ok_0,
                    *self,
                    HttpMethod::POST,
                    search_path(index@, query_text(a), full),
                    None,
                ),
                None => r matches Err(ClientError::Api(m)) && m@ == "Empty query builder"@,
            },
    {
        match builder.to_query_string() {
            Some(query) => Ok(self.search(index, query.as_str(), full)),
            None => Err(ClientError::Api(String::from_str("Empty query builder"))),
        }
    }

    /// A keyword's postings in an index.
    pub fn get_keyword(&self, index: &str, keyword: &str) -> (r: HttpRequest)
        ensures
            is_request(
                r,
                *self,
                HttpMethod::GET,
                "/"@ + index@ + "/keyword/"@ + url_encoded(keyword@),
                None,
            ),
    {
        let encoded = encode_component(keyword);
        let path = String::from_str("/").concat(index).concat("/keyword/").concat(
            encoded.as_str(),
        );
        self.request(HttpMethod::GET, path, None)
    }
}

} // verus!
