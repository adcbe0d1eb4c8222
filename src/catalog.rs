//! The catalog of indexes: each index's descriptor, and the rules for
//! creating one.
use crate::addressing::{get_index_key, index_key, same_text};
use vstd::prelude::*;

verus! {

/// The format version of new indexes.
pub const INDEX_VERSION_V1: u8 = 1;

/// Index names that the service keeps for itself.
pub open spec fn reserved_index(index: Seq<char>) -> bool {
    index == "indexes"@ || index == "_internal"@
}

/// The index that a descriptor key names: the key without its `index:`
/// prefix; `None` for a key without that prefix.
pub fn index_name_of(key: &str) -> (r: Option<String>)
    ensures
        match r {
            Some(name) => key@ == index_key(name@),
            None => !(key@.len() >= 6 && key@.subrange(0, 6) == "index:"@),
        },
{
    proof {
        reveal_strlit("index:");
    }
    let n = key.unicode_len();
    if n < 6 {
        return None;
    }
    if !same_text(key.substring_char(0, 6), "index:") {
        return None;
    }
    let name = String::from_str(key.substring_char(6, n));
    assert(key@ =~= "index:"@ + name@);
    Some(name)
}

/// The descriptor of an index.
pub struct IndexDocument {
    pub index: String,
    pub docs_count: u32,
    pub version: u8,
    /// When the index was created, in milliseconds.
    pub created: u64,
}

impl IndexDocument {
    /// A new, empty index created at `created`.
    pub fn new(index: &str, created: u64) -> (r: IndexDocument)
        ensures
            r.index@ == index@,
            r.docs_count == 0,
            r.version == INDEX_VERSION_V1,
            r.created == created,
    {
        IndexDocument { index: String::from_str(index), docs_count: 0, version: INDEX_VERSION_V1, created }
    }

    /// Whether an index name is reserved, so that no index of that name can
    /// be created.
    pub fn is_reserved_index(index: &str) -> (r: bool)
        ensures
            r == reserved_index(index@),
    {
        same_text(index, "indexes") || same_text(index, "_internal")
    }

    /// The descriptor's key in the store.
    pub fn get_kv_key(&self) -> (r: String)
        ensures
            r@ == index_key(self.index@),
    {
        get_index_key(self.index.as_str())
    }

    /// Creating an index is idempotent: the descriptor found in the store,
    /// where there is one, is kept as it is; else a new one is made at
    /// `now`. The flag says whether the descriptor is new and must be
    /// written.
    pub fn create(existing: Option<IndexDocument>, index: &str, now: u64) -> (r: (
        IndexDocument,
        bool,
    ))
        ensures
            existing is Some ==> r.0 == existing->Some_0 && !r.1,
            existing is None ==> r.1 && r.0.index@ == index@ && r.0.docs_count == 0
                && r.0.version == INDEX_VERSION_V1 && r.0.created == now,
    {
        match existing {
            Some(found) => (found, false),
            None => (IndexDocument::new(index, now), true),
        }
    }

    /// Records a fresh count of the index's documents. Returns whether the
    /// count changed, so that the descriptor must be written.
    pub fn recount(&mut self, count: u32) -> (r: bool)
        ensures
            r == (old(self).docs_count != count),
            final(self).docs_count == count,
            final(self).index == old(self).index,
            final(self).version == old(self).version,
            final(self).created == old(self).created,
    {
        let changed = self.docs_count != count;
        self.docs_count = count;
        changed
    }
}

} // verus!
