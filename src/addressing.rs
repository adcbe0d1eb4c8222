//! Where things live in the key-value store, and which shard holds a
//! document's postings.
//!
//! Keys: an index's descriptor under `index:<name>`, a document under
//! `<index>:document:<id>`, and one shard of a keyword's postings under
//! `<index>:kw:<keyword>:<shard>`.
use sha2::Digest;
use vstd::prelude::*;

verus! {

/// The SHA-256 digest of a string's UTF-8 bytes.
pub uninterp spec fn sha256_of(s: Seq<char>) -> Seq<u8>;

/// Relies on sha2's `Sha256::digest`: the 32-byte SHA-256 digest of the
/// string's UTF-8 bytes, which depends on the string alone.
#[verifier::external_body]
fn sha256_digest(s: &str) -> (r: Vec<u8>)
    ensures
        r@ == sha256_of(s@),
        r@.len() == 32,
{
    sha2::Sha256::digest(s.as_bytes()).to_vec()
}

/// The first four bytes of `b` read as a big-endian unsigned integer.
pub open spec fn be_value(b: Seq<u8>) -> int {
    16777216 * (b[0] as int) + 65536 * (b[1] as int) + 256 * (b[2] as int) + (b[3] as int)
}

/// The shard of a document: the first four bytes of the SHA-256 digest of
/// its id, big-endian, modulo the number of shards.
pub open spec fn shard_of(doc_id: Seq<char>, num_shards: u32) -> int
    recommends
        num_shards > 0,
{
    be_value(sha256_of(doc_id)) % (num_shards as int)
}

/// The shard that a digest falls in: its first four bytes, big-endian,
/// modulo the number of shards.
pub fn shard_from_digest(digest: &Vec<u8>, num_shards: u32) -> (r: u32)
    requires
        digest@.len() >= 4,
        num_shards > 0,
    ensures
        r as int == be_value(digest@) % (num_shards as int),
        r < num_shards,
{
    let value: u32 = 16777216 * (digest[0] as u32) + 65536 * (digest[1] as u32) + 256 * (
    digest[2] as u32) + (digest[3] as u32);
    value % num_shards
}

/// The shard that holds a document's postings, for every keyword alike.
pub fn shard_from_document_id(doc_id: String, num_shards: u32) -> (r: u32)
    requires
        num_shards > 0,
    ensures
        r as int == shard_of(doc_id@, num_shards),
        r < num_shards,
{
    let digest = sha256_digest(doc_id.as_str());
    shard_from_digest(&digest, num_shards)
}

pub open spec fn digit(d: int) -> char {
    seq!['0', '1', '2', '3', '4', '5', '6', '7', '8', '9'][d]
}

/// The decimal digits of `n`, most significant first, without padding.
pub open spec fn decimal(n: nat) -> Seq<char>
    decreases n,
{
    if n < 10 {
        seq![digit(n as int)]
    } else {
        decimal(n / 10).push(digit((n % 10) as int))
    }
}

/// The one-character text of a decimal digit.
fn digit_text(d: u32) -> (r: &'static str)
    requires
        d < 10,
    ensures
        r@ == seq![digit(d as int)],
{
    proof {
        reveal_strlit("0");
        reveal_strlit("1");
        reveal_strlit("2");
        reveal_strlit("3");
        reveal_strlit("4");
        reveal_strlit("5");
        reveal_strlit("6");
        reveal_strlit("7");
        reveal_strlit("8");
        reveal_strlit("9");
    }
    if d == 0 {
        "0"
    } else if d == 1 {
        "1"
    } else if d == 2 {
        "2"
    } else if d == 3 {
        "3"
    } else if d == 4 {
        "4"
    } else if d == 5 {
        "5"
    } else if d == 6 {
        "6"
    } else if d == 7 {
        "7"
    } else if d == 8 {
        "8"
    } else {
        "9"
    }
}

/// The value in decimal, without sign or padding.
fn decimal_string(n: u32) -> (r: String)
    ensures
        r@ == decimal(n as nat),
    decreases n,
{
    if n < 10 {
        String::from_str(digit_text(n))
    } else {
        let high = decimal_string(n / 10);
        let r = high.concat(digit_text(n % 10));
        assert(r@ =~= decimal((n / 10) as nat).push(digit((n % 10) as int)));
        r
    }
}

/// The key of an index's descriptor.
pub open spec fn index_key(index: Seq<char>) -> Seq<char> {
    "index:"@ + index
}

/// The key of a document.
pub open spec fn document_key(index: Seq<char>, id: Seq<char>) -> Seq<char> {
    index + ":document:"@ + id
}

/// What every shard key of a keyword starts with.
pub open spec fn keyword_prefix(index: Seq<char>, keyword: Seq<char>) -> Seq<char> {
    index + ":kw:"@ + keyword + ":"@
}

/// The key of one shard of a keyword's postings.
pub open spec fn shard_key(index: Seq<char>, keyword: Seq<char>, shard: u32) -> Seq<char> {
    keyword_prefix(index, keyword) + decimal(shard as nat)
}

/// The key of an index's descriptor.
pub fn get_index_key(index: &str) -> (r: String)
    ensures
        r@ == index_key(index@),
{
    String::from_str("index:").concat(index)
}

/// The key of a document.
pub fn document_kv_key(index: &str, uuid: &String) -> (r: String)
    ensures
        r@ == document_key(index@, uuid@),
{
    String::from_str(index).concat(":document:").concat(uuid.as_str())
}

/// What every document key of an index starts with; listing keys by it
/// finds the index's documents.
pub fn document_kv_prefix(index: &str) -> (r: String)
    ensures
        r@ == index@ + ":document:"@,
{
    String::from_str(index).concat(":document:")
}

/// What every shard key of a keyword starts with; listing keys by it finds
/// the keyword's shards.
pub fn keyword_kv_prefix(index: &str, keyword: &str) -> (r: String)
    ensures
        r@ == keyword_prefix(index@, keyword@),
{
    String::from_str(index).concat(":kw:").concat(keyword).concat(":")
}

/// The key of one shard of a keyword's postings.
pub fn keyword_shard_kv_key(index: &str, keyword: &str, shard: u32) -> (r: String)
    ensures
        r@ == shard_key(index@, keyword@, shard),
{
    let digits = decimal_string(shard);
    keyword_kv_prefix(index, keyword).concat(digits.as_str())
}

/// Whether two strings hold the same characters.
pub fn same_text(a: &str, b: &str) -> (r: bool)
    ensures
        r == (a@ == b@),
{
    let n = a.unicode_len();
    if n != b.unicode_len() {
        return false;
    }
    let mut i: usize = 0;
    while i < n
        invariant
            n == a@.len(),
            n == b@.len(),
            i <= n,
            a@.subrange(0, i as int) == b@.subrange(0, i as int),
        decreases n - i,
    {
        if a.get_char(i) != b.get_char(i) {
            assert(a@[i as int] != b@[i as int]);
            return false;
        }
        assert(a@.subrange(0, i + 1) =~= a@.subrange(0, i as int).push(a@[i as int]));
        assert(b@.subrange(0, i + 1) =~= b@.subrange(0, i as int).push(b@[i as int]));
        i = i + 1;
    }
    assert(a@ =~= a@.subrange(0, n as int));
    assert(b@ =~= b@.subrange(0, n as int));
    true
}

} // verus!
