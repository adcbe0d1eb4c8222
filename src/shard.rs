//! One shard of a keyword's postings: the documents of that shard that hold
//! the keyword, each with its score.
//!
//! The operations here change a shard in memory and say whether it must be
//! written back; reading and writing the store is the caller's part.
use crate::addressing::{keyword_shard_kv_key, shard_from_document_id, shard_key, shard_of};
use crate::executor::{keys_of, kws_view, last_index, Kws};
use vstd::prelude::*;

verus! {

/// Whether a shard's postings hold document `d`.
pub open spec fn holds_doc<S>(docs: Kws<S>, d: Seq<char>) -> bool {
    last_index(keys_of(docs), d) >= 0
}

/// Whether a posting names document `d`.
pub open spec fn names_doc<S>(d: Seq<char>) -> spec_fn((Seq<char>, S)) -> bool {
    |p: (Seq<char>, S)| p.0 == d
}

/// Whether a posting names another document than `d`.
pub open spec fn other_doc<S>(d: Seq<char>) -> spec_fn((Seq<char>, S)) -> bool {
    |p: (Seq<char>, S)| p.0 != d
}

/// How many postings of a shard name document `d`.
pub open spec fn doc_count<S>(docs: Kws<S>, d: Seq<char>) -> nat {
    docs.filter(names_doc(d)).len()
}

/// The postings after adding `d` with score `s`: unchanged where `d` is
/// there already, else `(d, s)` appended.
pub open spec fn docs_add<S>(docs: Kws<S>, d: Seq<char>, s: S) -> Kws<S> {
    if holds_doc(docs, d) {
        docs
    } else {
        docs.push((d, s))
    }
}

/// The postings after removing every entry of `d`.
pub open spec fn docs_remove<S>(docs: Kws<S>, d: Seq<char>) -> Kws<S> {
    docs.filter(other_doc(d))
}

pub proof fn lemma_last_index_bounds(keys: Seq<Seq<char>>, k: Seq<char>)
    ensures
        -1 <= last_index(keys, k) < keys.len(),
        last_index(keys, k) >= 0 ==> keys[last_index(keys, k)] == k,
        last_index(keys, k) < 0 ==> forall|i: int| 0 <= i < keys.len() ==> keys[i] != k,
    decreases keys.len(),
{
    if keys.len() > 0 {
        lemma_last_index_bounds(keys.drop_last(), k);
        if last_index(keys, k) < 0 {
            assert forall|i: int| 0 <= i < keys.len() implies keys[i] != k by {
                if i < keys.len() - 1 {
                    assert(keys.drop_last()[i] == keys[i]);
                }
            }
        }
    }
}

/// `d` is held exactly where some posting names it.
pub proof fn lemma_holds_doc<S>(docs: Kws<S>, d: Seq<char>)
    ensures
        holds_doc(docs, d) <==> exists|i: int| 0 <= i < docs.len() && (#[trigger] docs[i]).0 == d,
        holds_doc(docs, d) <==> doc_count(docs, d) > 0,
{
    lemma_last_index_bounds(keys_of(docs), d);
    let f = names_doc::<S>(d);
    if holds_doc(docs, d) {
        let i = last_index(keys_of(docs), d);
        assert(f(docs[i]));
        lemma_filter_nonempty(docs, f, i);
    } else {
        assert forall|i: int| 0 <= i < docs.len() implies !f(#[trigger] docs[i]) by {
            assert(keys_of(docs)[i] != d);
        }
        lemma_filter_empty(docs, f);
    }
}

proof fn lemma_filter_nonempty<A>(s: Seq<A>, f: spec_fn(A) -> bool, i: int)
    requires
        0 <= i < s.len(),
        f(s[i]),
    ensures
        s.filter(f).len() > 0,
    decreases s.len(),
{
    reveal(Seq::filter);
    if i < s.len() - 1 {
        assert(s.drop_last()[i] == s[i]);
        lemma_filter_nonempty(s.drop_last(), f, i);
    }
}

proof fn lemma_filter_empty<A>(s: Seq<A>, f: spec_fn(A) -> bool)
    requires
        forall|i: int| 0 <= i < s.len() ==> !f(#[trigger] s[i]),
    ensures
        s.filter(f).len() == 0,
    decreases s.len(),
{
    reveal(Seq::filter);
    if s.len() > 0 {
        assert forall|i: int| 0 <= i < s.drop_last().len() implies !f(#[trigger] s.drop_last()[i]) by {
            assert(s.drop_last()[i] == s[i]);
        }
        lemma_filter_empty(s.drop_last(), f);
    }
}

/// Adding twice keeps what the first add left: a second add of the same
/// document, at any score, changes nothing. Where the document was absent
/// before, it is then held exactly once, with the first score.
pub proof fn lemma_add_idempotent<S>(docs: Kws<S>, d: Seq<char>, s1: S, s2: S)
    ensures
        docs_add(docs_add(docs, d, s1), d, s2) == docs_add(docs, d, s1),
        !holds_doc(docs, d) ==> doc_count(docs_add(docs_add(docs, d, s1), d, s2), d) == 1
            && docs_add(docs_add(docs, d, s1), d, s2).last() == (d, s1),
{
    let once = docs_add(docs, d, s1);
    lemma_holds_doc(docs, d);
    if !holds_doc(docs, d) {
        assert(once.last() == (d, s1));
        assert(keys_of(once).last() == d);
        assert(holds_doc(once, d));
        let f = names_doc::<S>(d);
        reveal(Seq::filter);
        assert(once.drop_last() =~= docs);
        lemma_filter_empty(docs, f);
    } else {
        assert(holds_doc(once, d));
    }
}

/// Removing twice is removing once: after the first removal the document is
/// not held, so the second removes nothing and needs no write.
pub proof fn lemma_remove_idempotent<S>(docs: Kws<S>, d: Seq<char>)
    ensures
        !holds_doc(docs_remove(docs, d), d),
        doc_count(docs_remove(docs, d), d) == 0,
        docs_remove(docs_remove(docs, d), d) == docs_remove(docs, d),
{
    let once = docs_remove(docs, d);
    let f = other_doc::<S>(d);
    assert forall|i: int| 0 <= i < once.len() implies (#[trigger] once[i]).0 != d by {
        docs.lemma_filter_pred(f, i);
    }
    lemma_holds_doc(once, d);
    lemma_filter_all(once, f);
}

proof fn lemma_filter_all<A>(s: Seq<A>, f: spec_fn(A) -> bool)
    requires
        forall|i: int| 0 <= i < s.len() ==> f(#[trigger] s[i]),
    ensures
        s.filter(f) == s,
    decreases s.len(),
{
    reveal(Seq::filter);
    if s.len() > 0 {
        assert forall|i: int| 0 <= i < s.drop_last().len() implies f(#[trigger] s.drop_last()[i]) by {
            assert(s.drop_last()[i] == s[i]);
        }
        lemma_filter_all(s.drop_last(), f);
        assert(s.drop_last().push(s.last()) =~= s);
    }
}

/// One shard of one keyword's postings, as stored.
pub struct KeywordShardData<S> {
    /// The index the keyword belongs to.
    pub index: String,
    /// The keyword.
    pub keyword: String,
    /// The shard's number.
    pub shard: u32,
    /// When the shard last changed, in milliseconds.
    pub ts: u64,
    /// The documents of this shard that hold the keyword, with scores.
    pub docs: Vec<(String, S)>,
}

impl<S: Copy> KeywordShardData<S> {
    pub fn new(index: String, keyword: String, shard: u32, ts: u64, docs: Vec<(String, S)>) -> (r:
        KeywordShardData<S>)
        ensures
            r.index == index,
            r.keyword == keyword,
            r.shard == shard,
            r.ts == ts,
            r.docs == docs,
    {
        KeywordShardData { index, keyword, shard, ts, docs }
    }

    /// The shard's key in the store.
    pub fn get_kv_key(&self) -> (r: String)
        ensures
            r@ == shard_key(self.index@, self.keyword@, self.shard),
    {
        keyword_shard_kv_key(self.index.as_str(), self.keyword.as_str(), self.shard)
    }

    /// The key of the shard of `keyword` that holds document `doc_id`.
    pub fn key_for_document(index: &str, keyword: &str, doc_id: &str, num_shards: u32) -> (r:
        String)
        requires
            num_shards > 0,
        ensures
            r@ == shard_key(index@, keyword@, shard_of(doc_id@, num_shards) as u32),
    {
        let shard = shard_from_document_id(String::from_str(doc_id), num_shards);
        keyword_shard_kv_key(index, keyword, shard)
    }

    /// The shard of `keyword` that holds document `doc_id`: the one read
    /// from the store under its key, where there was one, else a new empty
    /// shard stamped `now`. The flag says whether the shard is new and must
    /// be written.
    pub fn from_keyword(
        found: Option<KeywordShardData<S>>,
        index: &str,
        doc_id: &str,
        keyword: &str,
        num_shards: u32,
        now: u64,
    ) -> (r: (KeywordShardData<S>, bool))
        requires
            num_shards > 0,
        ensures
            found is Some ==> r.0 == found->Some_0 && !r.1,
            found is None ==> r.1 && r.0.index@ == index@ && r.0.keyword@ == keyword@
                && r.0.shard as int == shard_of(doc_id@, num_shards) && r.0.ts == now
                && r.0.docs@.len() == 0,
    {
        match found {
            Some(shard) => (shard, false),
            None => {
                let shard = shard_from_document_id(String::from_str(doc_id), num_shards);
                let data = KeywordShardData::new(
                    String::from_str(index),
                    String::from_str(keyword),
                    shard,
                    now,
                    Vec::new(),
                );
                (data, true)
            },
        }
    }

    /// Whether a posting names `doc_id`.
    pub fn contains_document(&self, doc_id: &str) -> (r: bool)
        ensures
            r == holds_doc(kws_view(self.docs@), doc_id@),
    {
        let ghost keys = keys_of(kws_view(self.docs@));
        let mut found = false;
        let mut i: usize = 0;
        while i < self.docs.len()
            invariant
                i <= self.docs@.len(),
                keys == keys_of(kws_view(self.docs@)),
                found == (last_index(keys.subrange(0, i as int), doc_id@) >= 0),
            decreases self.docs@.len() - i,
        {
            assert(keys.subrange(0, i + 1).drop_last() =~= keys.subrange(0, i as int));
            if crate::addressing::same_text(self.docs[i].0.as_str(), doc_id) {
                found = true;
            }
            i = i + 1;
        }
        assert(keys.subrange(0, self.docs@.len() as int) =~= keys);
        found
    }

    /// Adds `doc_id` with `score` where no posting names it yet, stamping
    /// the shard `now`. Returns whether the shard changed and must be
    /// written; a document already held keeps its first score.
    pub fn add_document(&mut self, doc_id: &str, score: S, now: u64) -> (r: bool)
        ensures
            kws_view(final(self).docs@) == docs_add(kws_view(old(self).docs@), doc_id@, score),
            r == !holds_doc(kws_view(old(self).docs@), doc_id@),
            final(self).ts == if r { now } else { old(self).ts },
            final(self).index == old(self).index,
            final(self).keyword == old(self).keyword,
            final(self).shard == old(self).shard,
    {
        if self.contains_document(doc_id) {
            return false;
        }
        let ghost before = self.docs@;
        self.docs.push((String::from_str(doc_id), score));
        assert(kws_view(self.docs@) =~= kws_view(before).push((doc_id@, score)));
        self.ts = now;
        true
    }

    /// Removes every posting of `doc_id`, stamping the shard `now` where
    /// one was removed. Returns whether the shard changed and must be
    /// written.
    pub fn remove_document(&mut self, doc_id: &str, now: u64) -> (r: bool)
        ensures
            kws_view(final(self).docs@) == docs_remove(kws_view(old(self).docs@), doc_id@),
            r == holds_doc(kws_view(old(self).docs@), doc_id@),
            final(self).ts == if r { now } else { old(self).ts },
            final(self).index == old(self).index,
            final(self).keyword == old(self).keyword,
            final(self).shard == old(self).shard,
    {
        let ghost old_docs = kws_view(self.docs@);
        let ghost f = other_doc::<S>(doc_id@);
        let mut kept: Vec<(String, S)> = Vec::new();
        let mut i: usize = 0;
        let mut removed = false;
        while i < self.docs.len()
            invariant
                i <= self.docs@.len(),
                old_docs == kws_view(self.docs@),
                f == other_doc::<S>(doc_id@),
                kws_view(kept@) == old_docs.subrange(0, i as int).filter(f),
                removed == (doc_count(old_docs.subrange(0, i as int), doc_id@) > 0),
            decreases self.docs@.len() - i,
        {
            let ghost prefix = old_docs.subrange(0, i + 1);
            assert(prefix.drop_last() =~= old_docs.subrange(0, i as int));
            reveal(Seq::filter);
            let ghost before = kept@;
            if crate::addressing::same_text(self.docs[i].0.as_str(), doc_id) {
                removed = true;
            } else {
                kept.push((self.docs[i].0.clone(), self.docs[i].1));
                assert(kws_view(kept@) =~= kws_view(before).push(old_docs[i as int]));
            }
            i = i + 1;
        }
        assert(old_docs.subrange(0, self.docs@.len() as int) =~= old_docs);
        proof {
            lemma_holds_doc(old_docs, doc_id@);
        }
        self.docs = kept;
        if removed {
            self.ts = now;
        }
        removed
    }
}

} // verus!
