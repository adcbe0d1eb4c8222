//! Reading many keys at once within the store's per-request operation
//! ceiling.
//!
//! Below the ceiling the keys are read directly. At or above it they are
//! sent, in chunks of at most the ceiling, to the durable reader: each chunk
//! as one request whose body is the chunk's keys joined by commas. The
//! reader answers each with the framed payloads of its keys, in order, an
//! empty payload standing for a missing key.
use crate::executor::string_views;
use crate::framing::{decode, payloads_view, read_length_prefixed};
use vstd::prelude::*;

verus! {

/// What a bulk read fetches.
#[derive(Debug, Clone, Copy, PartialEq, Eq, Structural)]
pub enum ReadKind {
    /// Keyword shards.
    Keywords,
    /// Documents.
    Documents,
}

/// Why the durable reader turns a request down.
#[derive(Debug, Clone, Copy, PartialEq, Eq, Structural)]
pub enum ReaderError {
    /// More keys than the limit, which it carries.
    TooManyKeys(u32),
    /// No keys at all.
    NoKeys,
    /// Not a `POST` to `/keywords` or `/documents`.
    MethodNotAllowed,
}

/// The most keys one request may read where the caller will go on to list
/// keys: the store's ceiling of about 1000 operations over the number of
/// shards.
pub fn get_keyword_limit(n_shards: u32) -> (r: u32)
    requires
        n_shards > 0,
    ensures
        r as int == 1000int / (n_shards as int),
{
    1000 / n_shards
}

/// The most documents one request may read.
pub fn get_document_limit() -> (r: u32)
    ensures
        r == 990,
{
    990
}

/// The ceiling of a bulk read of this kind.
pub open spec fn ceiling(kind: ReadKind, n_shards: u32) -> int {
    match kind {
        ReadKind::Keywords => 1000int / (n_shards as int),
        ReadKind::Documents => 990,
    }
}

/// The chunks of at most `max` keys, in order.
pub open spec fn chunks_of(keys: Seq<Seq<char>>, max: nat) -> Seq<Seq<Seq<char>>>
    decreases keys.len(),
{
    if keys.len() == 0 || max == 0 {
        Seq::empty()
    } else if keys.len() <= max {
        seq![keys]
    } else {
        seq![keys.take(max as int)] + chunks_of(keys.skip(max as int), max)
    }
}

/// Keys joined by commas.
pub open spec fn join_commas(keys: Seq<Seq<char>>) -> Seq<char>
    decreases keys.len(),
{
    if keys.len() == 0 {
        Seq::empty()
    } else if keys.len() == 1 {
        keys[0]
    } else {
        join_commas(keys.drop_last()) + seq![','] + keys.last()
    }
}

/// How a bulk read proceeds.
pub enum BulkPlan {
    /// Read each key directly.
    Direct,
    /// Send these request bodies to the durable reader at this path.
    Chunked(String, Vec<String>),
}

/// Reads of many keys for one request.
pub struct BulkReader {
    pub n_shards: u32,
}

impl BulkReader {
    pub fn new(n_shards: u32) -> (r: BulkReader)
        ensures
            r.n_shards == n_shards,
    {
        BulkReader { n_shards }
    }

    /// The ceiling of a read of this kind.
    pub fn ceiling(&self, kind: ReadKind) -> (r: u32)
        requires
            self.n_shards > 0,
        ensures
            r == ceiling(kind, self.n_shards),
    {
        match kind {
            ReadKind::Keywords => get_keyword_limit(self.n_shards),
            ReadKind::Documents => get_document_limit(),
        }
    }

    /// The durable reader's path for a read of this kind.
    pub fn path(kind: ReadKind) -> (r: &'static str)
        ensures
            kind == ReadKind::Keywords ==> r@ == "/keywords"@,
            kind == ReadKind::Documents ==> r@ == "/documents"@,
    {
        match kind {
            ReadKind::Keywords => "/keywords",
            ReadKind::Documents => "/documents",
        }
    }

    /// Keys joined by commas.
    pub fn join_keys(keys: &[String]) -> (r: String)
        ensures
            r@ == join_commas(string_views(keys@)),
    {
        let ghost ks = string_views(keys@);
        let mut out = String::new();
        let mut i: usize = 0;
        while i < keys.len()
            invariant
                i <= keys@.len(),
                ks == string_views(keys@),
                out@ == join_commas(ks.subrange(0, i as int)),
            decreases keys@.len() - i,
        {
            proof {
                reveal_strlit(",");
            }
            assert(ks.subrange(0, i + 1).drop_last() =~= ks.subrange(0, i as int));
            if i == 0 {
                out = keys[i].clone();
            } else {
                out = out.concat(",").concat(keys[i].as_str());
            }
            i = i + 1;
        }
        assert(ks.subrange(0, keys@.len() as int) =~= ks);
        out
    }

    /// The request bodies for keys sent in chunks of at most `max`.
    pub fn chunk_bodies(keys: &Vec<String>, max: usize) -> (r: Vec<String>)
        requires
            max > 0,
        ensures
            string_views(r@) == chunks_of(string_views(keys@), max as nat).map_values(
                |c: Seq<Seq<char>>| join_commas(c),
            ),
    {
        let ghost ks = string_views(keys@);
        let ghost joined = |c: Seq<Seq<char>>| join_commas(c);
        let mut out: Vec<String> = Vec::new();
        let mut start: usize = 0;
        assert(ks.skip(0) =~= ks);
        assert(string_views(out@) + chunks_of(ks, max as nat).map_values(joined) =~= chunks_of(
            ks,
            max as nat,
        ).map_values(joined));
        while start < keys.len()
            invariant
                start <= keys@.len(),
                ks == string_views(keys@),
                max > 0,
                joined == (|c: Seq<Seq<char>>| join_commas(c)),
                chunks_of(ks, max as nat).map_values(joined) == string_views(out@) + chunks_of(
                    ks.skip(start as int),
                    max as nat,
                ).map_values(joined),
            decreases keys@.len() - start,
        {
            let ghost rest = ks.skip(start as int);
            let end = if keys.len() - start <= max {
                keys.len()
            } else {
                start + max
            };
            let slice = vstd::slice::slice_subrange(keys.as_slice(), start, end);
            let body = Self::join_keys(slice);
            assert(string_views(slice@) =~= rest.take((end - start) as int));
            if keys.len() - start <= max {
                assert(rest.take((end - start) as int) =~= rest);
                assert(ks.skip(end as int) =~= Seq::<Seq<char>>::empty());
            } else {
                assert(rest.skip(max as int) =~= ks.skip(end as int));
            }
            let ghost before = string_views(out@);
            out.push(body);
            assert(string_views(out@) =~= before.push(body@));
            assert(chunks_of(rest, max as nat).map_values(joined) =~= seq![body@]
                + chunks_of(ks.skip(end as int), max as nat).map_values(joined));
            assert(before + chunks_of(rest, max as nat).map_values(joined) =~= string_views(
                out@,
            ) + chunks_of(ks.skip(end as int), max as nat).map_values(joined));
            start = end;
        }
        assert(chunks_of(ks.skip(start as int), max as nat) =~= Seq::<Seq<Seq<char>>>::empty());
        assert(string_views(out@) + Seq::<Seq<char>>::empty() =~= string_views(out@));
        out
    }

    /// How to read `keys`: directly below the ceiling, else in chunks of at
    /// most the ceiling through the durable reader.
    pub fn plan(&self, kind: ReadKind, keys: &Vec<String>) -> (r: BulkPlan)
        requires
            self.n_shards > 0,
            kind == ReadKind::Keywords ==> self.n_shards <= 1000,
        ensures
            keys@.len() < ceiling(kind, self.n_shards) <==> r is Direct,
            r matches BulkPlan::Chunked(path, bodies) ==> (kind == ReadKind::Keywords ==> path@
                == "/keywords"@) && (kind == ReadKind::Documents ==> path@ == "/documents"@)
                && string_views(bodies@) == chunks_of(
                string_views(keys@),
                ceiling(kind, self.n_shards) as nat,
            ).map_values(|c: Seq<Seq<char>>| join_commas(c)),
    {
        let max = self.ceiling(kind);
        let n = self.n_shards;
        if kind == ReadKind::Keywords {
            assert(1000int / (n as int) >= 1) by (nonlinear_arith)
                requires
                    0 < n <= 1000,
            ;
        }
        if keys.len() < max as usize {
            BulkPlan::Direct
        } else {
            let bodies = Self::chunk_bodies(keys, max as usize);
            BulkPlan::Chunked(String::from_str(Self::path(kind)), bodies)
        }
    }

    /// The payloads of the durable reader's answers, in order: each answer
    /// decoded, then all concatenated. `None` where an answer ends in a
    /// partial frame.
    pub fn decode_chunks(answers: &Vec<Vec<u8>>) -> (r: Option<Vec<Vec<u8>>>)
        ensures
            r is Some <==> forall|i: int| 0 <= i < answers@.len() ==> #[trigger] decode(
                answers@[i]@,
            ) is Some,
            r is Some ==> payloads_view(r->Some_0@) == answers@.map_values(
                |a: Vec<u8>| decode(a@)->Some_0,
            ).flatten(),
    {
        let ghost whole = answers@.map_values(|a: Vec<u8>| decode(a@)->Some_0);
        let mut out: Vec<Vec<u8>> = Vec::new();
        let mut i: usize = 0;
        while i < answers.len()
            invariant
                i <= answers@.len(),
                whole == answers@.map_values(|a: Vec<u8>| decode(a@)->Some_0),
                forall|j: int| 0 <= j < i ==> #[trigger] decode(answers@[j]@) is Some,
                payloads_view(out@) == whole.subrange(0, i as int).flatten(),
            decreases answers@.len() - i,
        {
            match read_length_prefixed(&answers[i]) {
                None => {
                    return None;
                },
                Some(mut payloads) => {
                    let ghost before = payloads_view(out@);
                    let ghost added = payloads_view(payloads@);
                    out.append(&mut payloads);
                    assert(payloads_view(out@) =~= before + added);
                    assert(whole.subrange(0, i + 1) =~= whole.subrange(0, i as int).push(
                        whole[i as int],
                    ));
                    proof {
                        whole.subrange(0, i as int).lemma_flatten_push(whole[i as int]);
                    }
                },
            }
            i = i + 1;
        }
        assert(whole.subrange(0, answers@.len() as int) =~= whole);
        Some(out)
    }
}

} // verus!
