//! A document: its body, its extracted keywords and its revision, and how an
//! update of its keywords is carried to the keyword shards.
//!
//! An update replaces the document's keywords. The shards of the keywords it
//! no longer has drop the document; the shards of all its current keywords
//! add it (a no-op where it is there already).
use crate::addressing::document_kv_key;
use crate::executor::{keys_of, kws_view, last_index, missing_words, string_views, Kws};
use crate::shard::{
    doc_count, docs_add, docs_remove, holds_doc, lemma_holds_doc, lemma_remove_idempotent,
};
use vstd::prelude::*;

verus! {

/// A character allowed in a document id: an ASCII letter or digit, `-` or
/// `_`. Generated ids are drawn from the same alphabet.
pub open spec fn id_char(c: char) -> bool {
    ('a' <= c && c <= 'z') || ('A' <= c && c <= 'Z') || ('0' <= c && c <= '9') || c == '-' || c
        == '_'
}

/// A caller-chosen document id: 1 to 64 characters out of `[A-Za-z0-9_-]`.
pub open spec fn valid_id(id: Seq<char>) -> bool {
    1 <= id.len() <= 64 && forall|i: int| 0 <= i < id.len() ==> id_char(#[trigger] id[i])
}

/// Relies on nanoid's `format` with its default random source and its `SAFE`
/// alphabet: a string of exactly `size` characters, each out of that
/// alphabet (`_`, `-`, digits, ASCII letters). With a size of 0 it would
/// never return, and it computes `8 * size`.
#[verifier::external_body]
fn random_id(size: usize) -> (r: String)
    requires
        0 < size <= usize::MAX / 8,
    ensures
        r@.len() == size,
        forall|i: int| 0 <= i < r@.len() ==> id_char(#[trigger] r@[i]),
{
    nanoid::format(nanoid::rngs::default, &nanoid::alphabet::SAFE, size)
}

/// How many characters a generated document id has.
pub const GENERATED_ID_LENGTH: usize = 16;

/// A document of an index.
pub struct Document<S> {
    /// The document's id.
    pub uuid: String,
    /// The index it belongs to.
    pub index: String,
    /// How many times it was written.
    pub revision: u32,
    /// Its language, as an ISO 639-1 code.
    pub lang: Option<String>,
    /// Its body.
    pub document_body: Option<String>,
    /// Its keywords with their scores, best first.
    pub keywords: Option<Vec<(String, S)>>,
}

/// The keyword names of a document, none where it has no keywords yet.
pub open spec fn keyword_names<S>(k: Option<Vec<(String, S)>>) -> Seq<Seq<char>> {
    match k {
        Some(v) => keys_of(kws_view(v@)),
        None => Seq::empty(),
    }
}

/// The keywords that an update drops: those of `old` that `new` lacks, each
/// once, in the order of `old`.
pub open spec fn removed_keywords(old: Seq<Seq<char>>, new: Seq<Seq<char>>) -> Seq<Seq<char>> {
    missing_words(old, new)
}

impl<S: Copy> Document<S> {
    /// Whether `id` is acceptable as a caller-chosen document id.
    pub fn is_valid_id(id: &str) -> (r: bool)
        ensures
            r == valid_id(id@),
    {
        let n = id.unicode_len();
        if n < 1 || n > 64 {
            return false;
        }
        let mut i: usize = 0;
        while i < n
            invariant
                n == id@.len(),
                i <= n,
                forall|j: int| 0 <= j < i ==> id_char(#[trigger] id@[j]),
            decreases n - i,
        {
            let c = id.get_char(i);
            if !(('a' <= c && c <= 'z') || ('A' <= c && c <= 'Z') || ('0' <= c && c <= '9') || c
                == '-' || c == '_') {
                return false;
            }
            i = i + 1;
        }
        true
    }

    /// A new, never written document with a generated id.
    pub fn new(index: &str) -> (r: Document<S>)
        ensures
            r.uuid@.len() == GENERATED_ID_LENGTH,
            forall|i: int| 0 <= i < r.uuid@.len() ==> id_char(#[trigger] r.uuid@[i]),
            r.index@ == index@,
            r.revision == 0,
            r.lang is None,
            r.document_body is None,
            r.keywords is None,
    {
        Document {
            uuid: random_id(GENERATED_ID_LENGTH),
            index: String::from_str(index),
            revision: 0,
            lang: None,
            document_body: None,
            keywords: None,
        }
    }

    /// A new, never written document with the given id.
    pub fn new_with_id(index: &str, id: &str) -> (r: Document<S>)
        ensures
            r.uuid@ == id@,
            r.index@ == index@,
            r.revision == 0,
            r.lang is None,
            r.document_body is None,
            r.keywords is None,
    {
        Document {
            uuid: String::from_str(id),
            index: String::from_str(index),
            revision: 0,
            lang: None,
            document_body: None,
            keywords: None,
        }
    }

    /// The document's id.
    pub fn get_uuid(&self) -> (r: String)
        ensures
            r@ == self.uuid@,
    {
        self.uuid.clone()
    }

    /// The document's key in the store.
    pub fn get_kv_key(&self) -> (r: String)
        ensures
            r@ == crate::addressing::document_key(self.index@, self.uuid@),
    {
        document_kv_key(self.index.as_str(), &self.uuid)
    }

    /// Sets the document's language.
    pub fn set_language(&mut self, lang: String)
        ensures
            final(self).lang == Some(lang),
            final(self).uuid == old(self).uuid,
            final(self).index == old(self).index,
            final(self).revision == old(self).revision,
            final(self).document_body == old(self).document_body,
            final(self).keywords == old(self).keywords,
    {
        self.lang = Some(lang);
    }

    /// Replaces the body and the keywords and counts one more revision.
    /// Returns the keywords the document no longer has: their shards must
    /// drop it, and the shards of all its current keywords must add it.
    /// Where the shards are changed so (`apply_update`), and no shard named
    /// the document twice before, each new keyword's shard names it exactly
    /// once and each dropped keyword's shard does not name it.
    pub fn update(&mut self, document_body: String, keywords: Vec<(String, S)>) -> (r: Vec<
        String,
    >)
        requires
            old(self).revision < u32::MAX,
        ensures
            final(self).revision == old(self).revision + 1,
            final(self).document_body == Some(document_body),
            final(self).keywords == Some(keywords),
            final(self).uuid == old(self).uuid,
            final(self).index == old(self).index,
            final(self).lang == old(self).lang,
            string_views(r@) == removed_keywords(
                keyword_names(old(self).keywords),
                keys_of(kws_view(keywords@)),
            ),
            forall|store: Map<Seq<char>, Kws<S>>, k: Seq<char>|
                at_most_once(store, old(self).uuid@) && last_index(keys_of(kws_view(keywords@)), k)
                    >= 0 ==> #[trigger] doc_count(
                    shard_docs(
                        apply_update(
                            store,
                            old(self).uuid@,
                            keyword_names(old(self).keywords),
                            kws_view(keywords@),
                        ),
                        k,
                    ),
                    old(self).uuid@,
                ) == 1,
            forall|store: Map<Seq<char>, Kws<S>>, k: Seq<char>|
                at_most_once(store, old(self).uuid@) && last_index(
                    keyword_names(old(self).keywords),
                    k,
                ) >= 0 && last_index(keys_of(kws_view(keywords@)), k) < 0 ==> !holds_doc(
                    #[trigger] shard_docs(
                        apply_update(
                            store,
                            old(self).uuid@,
                            keyword_names(old(self).keywords),
                            kws_view(keywords@),
                        ),
                        k,
                    ),
                    old(self).uuid@,
                ),
    {
        proof {
            let d = self.uuid@;
            let old_names = keyword_names(self.keywords);
            let new_kws = kws_view(keywords@);
            assert forall|store: Map<Seq<char>, Kws<S>>|
                at_most_once(store, d) implies (forall|k: Seq<char>|
                last_index(keys_of(new_kws), k) >= 0 ==> #[trigger] doc_count(
                    shard_docs(apply_update(store, d, old_names, new_kws), k),
                    d,
                ) == 1) && (forall|k: Seq<char>|
                last_index(old_names, k) >= 0 && last_index(keys_of(new_kws), k) < 0
                    ==> !holds_doc(
                    #[trigger] shard_docs(apply_update(store, d, old_names, new_kws), k),
                    d,
                )) by {
                lemma_update_consistency(store, d, old_names, new_kws);
            }
        }
        let ghost old_names = keyword_names(self.keywords);
        let ghost new_names = keys_of(kws_view(keywords@));
        let mut removed: Vec<String> = Vec::new();
        match &self.keywords {
            Some(old_keywords) => {
                let mut i: usize = 0;
                while i < old_keywords.len()
                    invariant
                        i <= old_keywords@.len(),
                        old_names == keys_of(kws_view(old_keywords@)),
                        new_names == keys_of(kws_view(keywords@)),
                        string_views(removed@) == missing_words(
                            old_names.subrange(0, i as int),
                            new_names,
                        ),
                    decreases old_keywords@.len() - i,
                {
                    assert(old_names.subrange(0, i + 1).drop_last() =~= old_names.subrange(
                        0,
                        i as int,
                    ));
                    let kept = Self::has_keyword(&keywords, &old_keywords[i].0);
                    let seen = Self::has_name(&removed, &old_keywords[i].0);
                    if !kept && !seen {
                        let ghost before = string_views(removed@);
                        removed.push(old_keywords[i].0.clone());
                        assert(string_views(removed@) =~= before.push(old_names[i as int]));
                    }
                    i = i + 1;
                }
                assert(old_names.subrange(0, old_keywords@.len() as int) =~= old_names);
            },
            None => {
                assert(string_views(removed@) =~= Seq::<Seq<char>>::empty());
            },
        }
        self.document_body = Some(document_body);
        self.keywords = Some(keywords);
        self.revision = self.revision + 1;
        removed
    }

    fn has_keyword(v: &Vec<(String, S)>, k: &String) -> (r: bool)
        ensures
            r == (last_index(keys_of(kws_view(v@)), k@) >= 0),
    {
        let ghost keys = keys_of(kws_view(v@));
        let mut found = false;
        let mut i: usize = 0;
        while i < v.len()
            invariant
                i <= v@.len(),
                keys == keys_of(kws_view(v@)),
                found == (last_index(keys.subrange(0, i as int), k@) >= 0),
            decreases v@.len() - i,
        {
            assert(keys.subrange(0, i + 1).drop_last() =~= keys.subrange(0, i as int));
            if v[i].0 == *k {
                found = true;
            }
            i = i + 1;
        }
        assert(keys.subrange(0, v@.len() as int) =~= keys);
        found
    }

    fn has_name(v: &Vec<String>, k: &String) -> (r: bool)
        ensures
            r == (last_index(string_views(v@), k@) >= 0),
    {
        let ghost keys = string_views(v@);
        let mut found = false;
        let mut i: usize = 0;
        while i < v.len()
            invariant
                i <= v@.len(),
                keys == string_views(v@),
                found == (last_index(keys.subrange(0, i as int), k@) >= 0),
            decreases v@.len() - i,
        {
            assert(keys.subrange(0, i + 1).drop_last() =~= keys.subrange(0, i as int));
            if v[i] == *k {
                found = true;
            }
            i = i + 1;
        }
        assert(keys.subrange(0, v@.len() as int) =~= keys);
        found
    }
}

/// The postings of a document's shard, keyword by keyword: every keyword's
/// postings of the one shard that the document falls in. A keyword without
/// an entry has an empty shard there.
pub open spec fn shard_docs<S>(store: Map<Seq<char>, Kws<S>>, k: Seq<char>) -> Kws<S> {
    if store.contains_key(k) {
        store[k]
    } else {
        Seq::empty()
    }
}

/// The shards after document `d` is removed from those of keywords `removed`.
pub open spec fn apply_removals<S>(
    store: Map<Seq<char>, Kws<S>>,
    d: Seq<char>,
    removed: Seq<Seq<char>>,
) -> Map<Seq<char>, Kws<S>>
    decreases removed.len(),
{
    if removed.len() == 0 {
        store
    } else {
        let s = apply_removals(store, d, removed.drop_last());
        s.insert(removed.last(), docs_remove(shard_docs(s, removed.last()), d))
    }
}

/// The shards after document `d` is added to those of keywords `added`, with
/// their scores.
pub open spec fn apply_additions<S>(store: Map<Seq<char>, Kws<S>>, d: Seq<char>, added: Kws<S>) -> Map<
    Seq<char>,
    Kws<S>,
>
    decreases added.len(),
{
    if added.len() == 0 {
        store
    } else {
        let s = apply_additions(store, d, added.drop_last());
        s.insert(added.last().0, docs_add(shard_docs(s, added.last().0), d, added.last().1))
    }
}

/// The shards after an update of document `d` from keywords `old` to
/// keywords `new`: first the removals, then the additions.
pub open spec fn apply_update<S>(
    store: Map<Seq<char>, Kws<S>>,
    d: Seq<char>,
    old: Seq<Seq<char>>,
    new: Kws<S>,
) -> Map<Seq<char>, Kws<S>> {
    apply_additions(apply_removals(store, d, removed_keywords(old, keys_of(new))), d, new)
}

/// No shard names document `d` more than once.
pub open spec fn at_most_once<S>(store: Map<Seq<char>, Kws<S>>, d: Seq<char>) -> bool {
    forall|k: Seq<char>| #[trigger] doc_count(shard_docs(store, k), d) <= 1
}

proof fn lemma_count_push<S>(x: Kws<S>, p: (Seq<char>, S), d: Seq<char>)
    ensures
        doc_count(x.push(p), d) == doc_count(x, d) + if p.0 == d {
            1nat
        } else {
            0nat
        },
{
    reveal(Seq::filter);
    assert(x.push(p).drop_last() =~= x);
}

proof fn lemma_add_once<S>(x: Kws<S>, d: Seq<char>, s: S)
    requires
        doc_count(x, d) <= 1,
    ensures
        doc_count(docs_add(x, d, s), d) == 1,
{
    lemma_holds_doc(x, d);
    if !holds_doc(x, d) {
        lemma_count_push(x, (d, s), d);
    }
}

proof fn lemma_removals<S>(store: Map<Seq<char>, Kws<S>>, d: Seq<char>, removed: Seq<Seq<char>>)
    ensures
        forall|k: Seq<char>|
            last_index(removed, k) >= 0 ==> #[trigger] doc_count(
                shard_docs(apply_removals(store, d, removed), k),
                d,
            ) == 0,
        forall|k: Seq<char>|
            last_index(removed, k) < 0 ==> #[trigger] shard_docs(
                apply_removals(store, d, removed),
                k,
            ) == shard_docs(store, k),
    decreases removed.len(),
{
    if removed.len() > 0 {
        let r0 = removed.drop_last();
        let x = removed.last();
        let s = apply_removals(store, d, r0);
        lemma_removals(store, d, r0);
        lemma_remove_idempotent(shard_docs(s, x), d);
        let s2 = apply_removals(store, d, removed);
        assert forall|k: Seq<char>| last_index(removed, k) >= 0 implies #[trigger] doc_count(
            shard_docs(s2, k),
            d,
        ) == 0 by {
            if k != x {
                assert(last_index(removed, k) == last_index(r0, k));
                assert(shard_docs(s2, k) == shard_docs(s, k));
            }
        }
        assert forall|k: Seq<char>| last_index(removed, k) < 0 implies #[trigger] shard_docs(
            s2,
            k,
        ) == shard_docs(store, k) by {
            assert(k != x);
            assert(last_index(r0, k) < 0);
            assert(shard_docs(s2, k) == shard_docs(s, k));
        }
    }
}

proof fn lemma_additions<S>(store: Map<Seq<char>, Kws<S>>, d: Seq<char>, added: Kws<S>)
    requires
        at_most_once(store, d),
    ensures
        forall|k: Seq<char>|
            last_index(keys_of(added), k) >= 0 ==> #[trigger] doc_count(
                shard_docs(apply_additions(store, d, added), k),
                d,
            ) == 1,
        forall|k: Seq<char>|
            last_index(keys_of(added), k) < 0 ==> #[trigger] shard_docs(
                apply_additions(store, d, added),
                k,
            ) == shard_docs(store, k),
        at_most_once(apply_additions(store, d, added), d),
    decreases added.len(),
{
    if added.len() > 0 {
        let rest = added.drop_last();
        let s = apply_additions(store, d, rest);
        lemma_additions(store, d, rest);
        assert(keys_of(added).drop_last() =~= keys_of(rest));
        let k0 = added.last().0;
        assert(doc_count(shard_docs(s, k0), d) <= 1);
        lemma_add_once(shard_docs(s, k0), d, added.last().1);
        let s2 = apply_additions(store, d, added);
        let keys = keys_of(added);
        assert(keys.last() == k0);
        assert forall|k: Seq<char>| last_index(keys, k) >= 0 implies #[trigger] doc_count(
            shard_docs(s2, k),
            d,
        ) == 1 by {
            if k != k0 {
                assert(last_index(keys, k) == last_index(keys_of(rest), k));
                assert(shard_docs(s2, k) == shard_docs(s, k));
            }
        }
        assert forall|k: Seq<char>| last_index(keys, k) < 0 implies #[trigger] shard_docs(s2, k)
            == shard_docs(store, k) by {
            assert(k != k0);
            assert(last_index(keys_of(rest), k) < 0);
            assert(shard_docs(s2, k) == shard_docs(s, k));
        }
        assert forall|k: Seq<char>| #[trigger] doc_count(shard_docs(s2, k), d) <= 1 by {
            if k != k0 {
                assert(shard_docs(s2, k) == shard_docs(s, k));
                assert(doc_count(shard_docs(s, k), d) <= 1);
            }
        }
    }
}

proof fn lemma_removed_keywords(old: Seq<Seq<char>>, new: Seq<Seq<char>>, k: Seq<char>)
    ensures
        last_index(removed_keywords(old, new), k) >= 0 <==> (last_index(old, k) >= 0
            && last_index(new, k) < 0),
    decreases old.len(),
{
    if old.len() > 0 {
        let m = removed_keywords(old.drop_last(), new);
        let x = old.last();
        lemma_removed_keywords(old.drop_last(), new, k);
        lemma_removed_keywords(old.drop_last(), new, x);
        assert(m.push(x).drop_last() =~= m);
        if k != x {
            assert(last_index(old, k) == last_index(old.drop_last(), k));
            assert(last_index(m.push(x), k) == last_index(m, k));
        }
    }
}

/// Keyword-doc consistency of one update. Where no shard names the document
/// twice before, then after the update the shard of each of its new
/// keywords names it exactly once, the shard of each keyword it lost does
/// not name it, and still no shard names it twice.
pub proof fn lemma_update_consistency<S>(
    store: Map<Seq<char>, Kws<S>>,
    d: Seq<char>,
    old: Seq<Seq<char>>,
    new: Kws<S>,
)
    requires
        at_most_once(store, d),
    ensures
        forall|k: Seq<char>|
            last_index(keys_of(new), k) >= 0 ==> #[trigger] doc_count(
                shard_docs(apply_update(store, d, old, new), k),
                d,
            ) == 1,
        forall|k: Seq<char>|
            last_index(old, k) >= 0 && last_index(keys_of(new), k) < 0 ==> !holds_doc(
                #[trigger] shard_docs(apply_update(store, d, old, new), k),
                d,
            ),
        at_most_once(apply_update(store, d, old, new), d),
{
    let removed = removed_keywords(old, keys_of(new));
    let s = apply_removals(store, d, removed);
    lemma_removals(store, d, removed);
    assert forall|k: Seq<char>| #[trigger] doc_count(shard_docs(s, k), d) <= 1 by {
        if last_index(removed, k) < 0 {
            assert(shard_docs(s, k) == shard_docs(store, k));
            assert(doc_count(shard_docs(store, k), d) <= 1);
        }
    }
    lemma_additions(s, d, new);
    let s2 = apply_update(store, d, old, new);
    assert forall|k: Seq<char>|
        last_index(old, k) >= 0 && last_index(keys_of(new), k) < 0 implies !holds_doc(
        #[trigger] shard_docs(s2, k),
        d,
    ) by {
        lemma_removed_keywords(old, keys_of(new), k);
        assert(shard_docs(s2, k) == shard_docs(s, k));
        assert(doc_count(shard_docs(s, k), d) == 0);
        lemma_holds_doc(shard_docs(s2, k), d);
    }
}

/// The shards after a run of updates of document `d`, whose keywords were
/// `start` before the first one.
pub open spec fn apply_updates<S>(
    store: Map<Seq<char>, Kws<S>>,
    d: Seq<char>,
    start: Seq<Seq<char>>,
    updates: Seq<Kws<S>>,
) -> Map<Seq<char>, Kws<S>>
    decreases updates.len(),
{
    if updates.len() == 0 {
        store
    } else {
        let s = apply_updates(store, d, start, updates.drop_last());
        let prev = if updates.len() == 1 {
            start
        } else {
            keys_of(updates[updates.len() - 2])
        };
        apply_update(s, d, prev, updates.last())
    }
}

/// Keyword-doc consistency over any run of single-writer updates: where no
/// shard named the document twice at the start, then after the run the
/// shard of each keyword of the last update names it exactly once, the
/// shard of each keyword that the last update dropped does not name it, and
/// no shard names it twice.
pub proof fn lemma_updates_consistency<S>(
    store: Map<Seq<char>, Kws<S>>,
    d: Seq<char>,
    start: Seq<Seq<char>>,
    updates: Seq<Kws<S>>,
)
    requires
        at_most_once(store, d),
        updates.len() > 0,
    ensures
        forall|k: Seq<char>|
            last_index(keys_of(updates.last()), k) >= 0 ==> #[trigger] doc_count(
                shard_docs(apply_updates(store, d, start, updates), k),
                d,
            ) == 1,
        forall|k: Seq<char>|
            last_index(
                if updates.len() == 1 {
                    start
                } else {
                    keys_of(updates[updates.len() - 2])
                },
                k,
            ) >= 0 && last_index(keys_of(updates.last()), k) < 0 ==> !holds_doc(
                #[trigger] shard_docs(apply_updates(store, d, start, updates), k),
                d,
            ),
        at_most_once(apply_updates(store, d, start, updates), d),
    decreases updates.len(),
{
    let s = apply_updates(store, d, start, updates.drop_last());
    if updates.len() > 1 {
        lemma_updates_consistency(store, d, start, updates.drop_last());
    }
    let prev = if updates.len() == 1 {
        start
    } else {
        keys_of(updates[updates.len() - 2])
    };
    lemma_update_consistency(s, d, prev, updates.last());
}

} // verus!
