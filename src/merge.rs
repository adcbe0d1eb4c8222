//! Gathering a keyword's postings from all of its shards.
use crate::addressing::{keyword_kv_prefix, keyword_prefix};
use crate::executor::{kws_view, Kws};
use crate::shard::KeywordShardData;
use vstd::prelude::*;

verus! {

/// A keyword as it comes in a URL path, decoded: the names of its
/// `application/x-www-form-urlencoded` pairs, concatenated.
pub uninterp spec fn form_decoded(s: Seq<char>) -> Seq<char>;

/// Relies on url's `form_urlencoded::parse`: the input read as
/// `&`-separated `name=value` pairs, names percent-decoded with `+` as a
/// space; the names are concatenated. The result depends on the input
/// alone.
#[verifier::external_body]
fn url_decode(input: &str) -> (r: String)
    ensures
        r@ == form_decoded(input@),
{
    url::form_urlencoded::parse(input.as_bytes()).map(|(k, _)| k.into_owned()).collect()
}

/// The postings of every shard, in the order of the shards.
pub open spec fn all_postings<S>(shards: Seq<KeywordShardData<S>>) -> Kws<S> {
    shards.map_values(|d: KeywordShardData<S>| kws_view(d.docs@)).flatten()
}

/// Merges the shards of keywords of one index.
pub struct KeywordManager {
    pub index: String,
}

impl KeywordManager {
    pub fn new(index: String) -> (r: KeywordManager)
        ensures
            r.index == index,
    {
        KeywordManager { index }
    }

    /// The keyword that a raw path segment names.
    pub fn decode_keyword(keyword_raw: &str) -> (r: String)
        ensures
            r@ == form_decoded(keyword_raw@),
    {
        url_decode(keyword_raw)
    }

    /// What the shard keys of a raw keyword start with: listing keys by it
    /// finds all of its shards.
    pub fn shard_prefix(&self, keyword_raw: &str) -> (r: String)
        ensures
            r@ == keyword_prefix(self.index@, form_decoded(keyword_raw@)),
    {
        let keyword = url_decode(keyword_raw);
        keyword_kv_prefix(self.index.as_str(), keyword.as_str())
    }

    /// The postings of all the shards read, concatenated in order. A
    /// document falls in one shard only, so nothing repeats across shards.
    pub fn merge_keyword_shards<S: Copy>(&self, shards: &Vec<KeywordShardData<S>>) -> (r: Vec<
        (String, S),
    >)
        ensures
            kws_view(r@) == all_postings(shards@),
    {
        let ghost per = shards@.map_values(|d: KeywordShardData<S>| kws_view(d.docs@));
        let mut out: Vec<(String, S)> = Vec::new();
        let mut i: usize = 0;
        while i < shards.len()
            invariant
                i <= shards@.len(),
                per == shards@.map_values(|d: KeywordShardData<S>| kws_view(d.docs@)),
                kws_view(out@) == per.subrange(0, i as int).flatten(),
            decreases shards@.len() - i,
        {
            let docs = &shards[i].docs;
            let mut j: usize = 0;
            let ghost before = kws_view(out@);
            while j < docs.len()
                invariant
                    j <= docs@.len(),
                    docs == shards@[i as int].docs,
                    kws_view(out@) == before + kws_view(docs@.subrange(0, j as int)),
                decreases docs@.len() - j,
            {
                let ghost prev = out@;
                out.push((docs[j].0.clone(), docs[j].1));
                assert(kws_view(out@) =~= kws_view(prev).push((docs@[j as int].0@, docs@[j as int].1)));
                assert(kws_view(docs@.subrange(0, j + 1)) =~= kws_view(docs@.subrange(0, j as int)).push(
                    (docs@[j as int].0@, docs@[j as int].1),
                ));
                j = j + 1;
            }
            assert(docs@.subrange(0, docs@.len() as int) =~= docs@);
            assert(per.subrange(0, i + 1) =~= per.subrange(0, i as int).push(per[i as int]));
            proof {
                per.subrange(0, i as int).lemma_flatten_push(per[i as int]);
            }
            i = i + 1;
        }
        assert(per.subrange(0, shards@.len() as int) =~= per);
        out
    }
}

} // verus!
