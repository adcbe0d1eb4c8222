//! The durable reader's side of a bulk read: which requests it serves, the
//! keys a request asks for, and the framed answer.
use crate::bulk::{get_keyword_limit, ReadKind, ReaderError};
use crate::executor::string_views;
use crate::framing::{encode, frameable, length_prefix_data};
use vstd::prelude::*;

verus! {

/// The pieces of `s` between commas, empty pieces included.
pub open spec fn split_commas(s: Seq<char>) -> Seq<Seq<char>>
    decreases s.len(),
{
    if s.len() == 0 {
        seq![Seq::empty()]
    } else {
        let p = split_commas(s.drop_last());
        if s.last() == ',' {
            p.push(Seq::empty())
        } else {
            p.drop_last().push(p.last().push(s.last()))
        }
    }
}

/// Unicode white space, as `char::is_whitespace` has it.
pub open spec fn is_white(c: char) -> bool {
    let u = c as u32;
    (0x9 <= u && u <= 0xD) || u == 0x20 || u == 0x85 || u == 0xA0 || u == 0x1680 || (0x2000 <= u
        && u <= 0x200A) || u == 0x2028 || u == 0x2029 || u == 0x202F || u == 0x205F || u == 0x3000
}

/// A piece with something besides white space.
pub open spec fn not_blank() -> spec_fn(Seq<char>) -> bool {
    |p: Seq<char>| exists|i: int| 0 <= i < p.len() && !is_white(#[trigger] p[i])
}

/// The keys of a request body: its comma-separated pieces, blank ones
/// dropped.
pub open spec fn body_keys(s: Seq<char>) -> Seq<Seq<char>> {
    split_commas(s).filter(not_blank())
}

/// The payloads answered for the keys read: a missing key's payload is
/// empty, so that answers stay in the order of the keys.
pub open spec fn found_payloads(found: Seq<Option<Vec<u8>>>) -> Seq<Seq<u8>> {
    found.map_values(
        |o: Option<Vec<u8>>|
            match o {
                Some(v) => v@,
                None => Seq::<u8>::empty(),
            },
    )
}

fn is_white_char(c: char) -> (r: bool)
    ensures
        r == is_white(c),
{
    let u = c as u32;
    (0x9 <= u && u <= 0xD) || u == 0x20 || u == 0x85 || u == 0xA0 || u == 0x1680 || (0x2000 <= u
        && u <= 0x200A) || u == 0x2028 || u == 0x2029 || u == 0x202F || u == 0x205F || u == 0x3000
}

fn is_blank_text(p: &str) -> (r: bool)
    ensures
        r == !not_blank()(p@),
{
    let n = p.unicode_len();
    let mut i: usize = 0;
    while i < n
        invariant
            n == p@.len(),
            i <= n,
            forall|j: int| 0 <= j < i ==> is_white(#[trigger] p@[j]),
        decreases n - i,
    {
        if !is_white_char(p.get_char(i)) {
            return false;
        }
        i = i + 1;
    }
    true
}

fn split_on_commas(s: &str) -> (r: Vec<String>)
    ensures
        string_views(r@) == split_commas(s@),
{
    let n = s.unicode_len();
    let mut pieces: Vec<String> = Vec::new();
    let mut start: usize = 0;
    let mut i: usize = 0;
    assert(s@.take(0) =~= Seq::<char>::empty());
    assert(string_views(pieces@).push(s@.subrange(0, 0)) =~= seq![Seq::<char>::empty()]);
    while i < n
        invariant
            n == s@.len(),
            start <= i <= n,
            split_commas(s@.take(i as int)) == string_views(pieces@).push(
                s@.subrange(start as int, i as int),
            ),
        decreases n - i,
    {
        assert(s@.take(i + 1).drop_last() =~= s@.take(i as int));
        let c = s.get_char(i);
        let ghost before = string_views(pieces@);
        if c == ',' {
            let piece = String::from_str(s.substring_char(start, i));
            pieces.push(piece);
            assert(string_views(pieces@) =~= before.push(s@.subrange(start as int, i as int)));
            start = i + 1;
            assert(s@.subrange(start as int, start as int) =~= Seq::<char>::empty());
        } else {
            assert(s@.subrange(start as int, i + 1) =~= s@.subrange(start as int, i as int).push(
                c,
            ));
            assert(before.push(s@.subrange(start as int, i as int)).drop_last() =~= before);
        }
        i = i + 1;
    }
    assert(s@.take(n as int) =~= s@);
    let ghost before = string_views(pieces@);
    pieces.push(String::from_str(s.substring_char(start, n)));
    assert(string_views(pieces@) =~= before.push(s@.subrange(start as int, n as int)));
    pieces
}

/// The keys of a request body: split on commas, blank pieces dropped.
pub fn parse_body(body: &str) -> (r: Vec<String>)
    ensures
        string_views(r@) == body_keys(body@),
{
    let pieces = split_on_commas(body);
    let ghost ps = string_views(pieces@);
    let mut out: Vec<String> = Vec::new();
    let mut i: usize = 0;
    while i < pieces.len()
        invariant
            i <= pieces@.len(),
            ps == string_views(pieces@),
            string_views(out@) == ps.subrange(0, i as int).filter(not_blank()),
        decreases pieces@.len() - i,
    {
        reveal(Seq::filter);
        assert(ps.subrange(0, i + 1).drop_last() =~= ps.subrange(0, i as int));
        if !is_blank_text(pieces[i].as_str()) {
            let ghost before = string_views(out@);
            out.push(pieces[i].clone());
            assert(string_views(out@) =~= before.push(ps[i as int]));
        }
        i = i + 1;
    }
    assert(ps.subrange(0, pieces@.len() as int) =~= ps);
    out
}

/// Frames the payloads of the keys read, in order, an empty payload for a
/// missing key.
pub fn frame_found(found: &Vec<Option<Vec<u8>>>) -> (r: Vec<u8>)
    requires
        frameable(found_payloads(found@)),
    ensures
        r@ == encode(found_payloads(found@)),
{
    let ghost xs = found_payloads(found@);
    let empty: Vec<u8> = Vec::new();
    let mut out: Vec<u8> = Vec::new();
    let mut i: usize = 0;
    while i < found.len()
        invariant
            i <= found@.len(),
            xs == found_payloads(found@),
            frameable(xs),
            empty@.len() == 0,
            out@ == encode(xs.subrange(0, i as int)),
        decreases found@.len() - i,
    {
        assert(xs[i as int].len() <= u32::MAX);
        match &found[i] {
            Some(v) => {
                length_prefix_data(v.as_slice(), &mut out);
            },
            None => {
                length_prefix_data(empty.as_slice(), &mut out);
                assert(empty@ =~= xs[i as int]);
            },
        }
        assert(xs.subrange(0, i + 1).drop_last() =~= xs.subrange(0, i as int));
        i = i + 1;
    }
    assert(xs.subrange(0, xs.len() as int) =~= xs);
    out
}

/// The endpoint that serves bulk reads for other requests.
pub struct DurableReader {
    pub n_shards: u32,
}

impl DurableReader {
    pub fn new(n_shards: u32) -> (r: DurableReader)
        ensures
            r.n_shards == n_shards,
    {
        DurableReader { n_shards }
    }

    /// What a request asks to read: a `POST` to `/keywords` or
    /// `/documents` whose body lists between one and the keyword limit of
    /// keys. Else the reason it is refused: any other request is not
    /// allowed, more keys than the limit are too many, and none are none.
    pub fn read_request(&self, is_post: bool, path: &str, body: &str) -> (r: Result<
        (ReadKind, Vec<String>),
        ReaderError,
    >)
        requires
            self.n_shards > 0,
        ensures
            !is_post || (path@ != "/keywords"@ && path@ != "/documents"@) ==> r is Err
                && r->Err_0 == ReaderError::MethodNotAllowed,
            is_post && (path@ == "/keywords"@ || path@ == "/documents"@) ==> {
                let keys = body_keys(body@);
                let limit = 1000int / (self.n_shards as int);
                &&& keys.len() > limit ==> r is Err && r->Err_0 == ReaderError::TooManyKeys(
                    limit as u32,
                )
                &&& keys.len() == 0 ==> r is Err && r->Err_0 == ReaderError::NoKeys
                &&& 0 < keys.len() <= limit ==> r is Ok && string_views(r->Ok_0.1@) == keys
                    && r->Ok_0.0 == (if path@ == "/keywords"@ {
                    ReadKind::Keywords
                } else {
                    ReadKind::Documents
                })
            },
    {
        let is_keywords = crate::addressing::same_text(path, "/keywords");
        let is_documents = crate::addressing::same_text(path, "/documents");
        if !is_post || (!is_keywords && !is_documents) {
            return Err(ReaderError::MethodNotAllowed);
        }
        let keys = parse_body(body);
        let limit = get_keyword_limit(self.n_shards);
        if keys.len() > limit as usize {
            return Err(ReaderError::TooManyKeys(limit));
        }
        if keys.len() == 0 {
            return Err(ReaderError::NoKeys);
        }
        let kind = if is_keywords {
            ReadKind::Keywords
        } else {
            ReadKind::Documents
        };
        Ok((kind, keys))
    }
}

} // verus!
