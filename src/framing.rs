//! Length-prefixed framing: each payload is written as its length, a 32-bit
//! little-endian unsigned integer, followed by the payload's bytes. A buffer
//! is a plain concatenation of such frames.
use vstd::prelude::*;

verus! {

/// The value of four bytes read as a little-endian unsigned integer.
pub open spec fn le_value(b: Seq<u8>) -> int
    recommends
        b.len() == 4,
{
    (b[0] as int) + 256 * (b[1] as int) + 65536 * (b[2] as int) + 16777216 * (b[3] as int)
}

/// The four little-endian bytes of `n`.
pub open spec fn le_bytes(n: nat) -> Seq<u8> {
    seq![
        (n % 256) as u8,
        ((n / 256) % 256) as u8,
        ((n / 65536) % 256) as u8,
        ((n / 16777216) % 256) as u8,
    ]
}

/// One payload with its length prefix.
pub open spec fn frame(x: Seq<u8>) -> Seq<u8> {
    le_bytes(x.len()) + x
}

/// A sequence of payloads, framed and concatenated in order.
pub open spec fn encode(xs: Seq<Seq<u8>>) -> Seq<u8>
    decreases xs.len(),
{
    if xs.len() == 0 {
        Seq::empty()
    } else {
        encode(xs.drop_last()) + frame(xs.last())
    }
}

/// Reads frames from the front of `b` until it is exhausted; `None` where a
/// trailing frame is cut short.
pub open spec fn decode(b: Seq<u8>) -> Option<Seq<Seq<u8>>>
    decreases b.len(),
{
    if b.len() == 0 {
        Some(Seq::empty())
    } else if b.len() < 4 {
        None
    } else {
        let n = le_value(b.subrange(0, 4));
        if b.len() < 4 + n {
            None
        } else {
            match decode(b.subrange(4 + n, b.len() as int)) {
                Some(rest) => Some(seq![b.subrange(4, 4 + n)].add(rest)),
                None => None,
            }
        }
    }
}

/// Every payload fits the 32-bit length prefix.
pub open spec fn frameable(xs: Seq<Seq<u8>>) -> bool {
    forall|i: int| 0 <= i < xs.len() ==> #[trigger] xs[i].len() <= u32::MAX
}

pub proof fn lemma_le_round_trip(n: nat)
    requires
        n <= u32::MAX,
    ensures
        le_value(le_bytes(n)) == n,
        le_bytes(n).len() == 4,
{
    assert(le_value(le_bytes(n)) == n) by (nonlinear_arith)
        requires
            n <= u32::MAX,
            le_bytes(n)[0] == (n % 256) as u8,
            le_bytes(n)[1] == ((n / 256) % 256) as u8,
            le_bytes(n)[2] == ((n / 65536) % 256) as u8,
            le_bytes(n)[3] == ((n / 16777216) % 256) as u8,
            le_value(le_bytes(n)) == (le_bytes(n)[0] as int) + 256 * (le_bytes(n)[1] as int)
                + 65536 * (le_bytes(n)[2] as int) + 16777216 * (le_bytes(n)[3] as int),
    ;
}

/// Decoding a frame followed by more bytes yields the frame's payload
/// followed by whatever the rest decodes to.
pub proof fn lemma_decode_frame(x: Seq<u8>, rest: Seq<u8>)
    requires
        x.len() <= u32::MAX,
    ensures
        decode(frame(x) + rest) == match decode(rest) {
            Some(r) => Some(seq![x].add(r)),
            None => None::<Seq<Seq<u8>>>,
        },
{
    lemma_le_round_trip(x.len());
    let b = frame(x) + rest;
    assert(b.subrange(0, 4) =~= le_bytes(x.len()));
    assert(b.subrange(4, 4 + x.len() as int) =~= x);
    assert(b.subrange(4 + x.len() as int, b.len() as int) =~= rest);
}

/// `encode` read from the front: the first frame, then the rest.
pub proof fn lemma_encode_front(xs: Seq<Seq<u8>>)
    requires
        xs.len() > 0,
    ensures
        encode(xs) == frame(xs[0]) + encode(xs.drop_first()),
    decreases xs.len(),
{
    if xs.len() == 1 {
        assert(xs.drop_last() =~= Seq::<Seq<u8>>::empty());
        assert(xs.drop_first() =~= Seq::<Seq<u8>>::empty());
        assert(encode(xs) =~= frame(xs[0]) + encode(xs.drop_first()));
    } else {
        lemma_encode_front(xs.drop_last());
        assert(xs.drop_last().drop_first() =~= xs.drop_first().drop_last());
        assert(xs.drop_first().last() == xs.last());
        assert(encode(xs) =~= frame(xs[0]) + encode(xs.drop_first()));
    }
}

/// Framing round trip: decoding the encoding of payloads gives them back.
pub proof fn lemma_decode_encode(xs: Seq<Seq<u8>>)
    requires
        frameable(xs),
    ensures
        decode(encode(xs)) == Some(xs),
    decreases xs.len(),
{
    if xs.len() == 0 {
    } else {
        lemma_encode_front(xs);
        assert(frameable(xs.drop_first())) by {
            assert forall|i: int| 0 <= i < xs.drop_first().len() implies #[trigger] xs.drop_first()[i].len() <= u32::MAX by {
                assert(xs.drop_first()[i] == xs[i + 1]);
            }
        }
        lemma_decode_encode(xs.drop_first());
        assert(xs[0].len() <= u32::MAX);
        lemma_decode_frame(xs[0], encode(xs.drop_first()));
        assert(seq![xs[0]].add(xs.drop_first()) =~= xs);
    }
}

/// A framed payload: the bytes that one frame carries.
pub struct LengthPrefixed {
    pub bytes: Vec<u8>,
}

/// Appends `data`, framed, to `output`, and returns a copy of the whole
/// buffer written so far.
pub fn length_prefix_data(data: &[u8], output: &mut Vec<u8>) -> (r: LengthPrefixed)
    requires
        data@.len() <= u32::MAX,
    ensures
        final(output)@ == old(output)@ + frame(data@),
        r.bytes@ == final(output)@,
{
    let size = data.len() as u32;
    proof {
        lemma_le_round_trip(size as nat);
    }
    output.push((size % 256) as u8);
    output.push(((size / 256) % 256) as u8);
    output.push(((size / 65536) % 256) as u8);
    output.push(((size / 16777216) % 256) as u8);
    let ghost prefixed = output@;
    assert(prefixed =~= old(output)@ + le_bytes(data@.len()));
    let mut i: usize = 0;
    while i < data.len()
        invariant
            i <= data@.len(),
            output@ =~= prefixed + data@.subrange(0, i as int),
        decreases data@.len() - i,
    {
        output.push(data[i]);
        i = i + 1;
    }
    assert(data@.subrange(0, data@.len() as int) =~= data@);
    let mut copy: Vec<u8> = Vec::new();
    let mut j: usize = 0;
    while j < output.len()
        invariant
            j <= output@.len(),
            copy@ =~= output@.subrange(0, j as int),
        decreases output@.len() - j,
    {
        copy.push(output[j]);
        j = j + 1;
    }
    LengthPrefixed { bytes: copy }
}

/// Frames every payload in order into one buffer.
pub fn frame_payloads(payloads: &Vec<Vec<u8>>) -> (r: Vec<u8>)
    requires
        frameable(payloads_view(payloads@)),
    ensures
        r@ == encode(payloads_view(payloads@)),
{
    let ghost xs = payloads_view(payloads@);
    let mut output: Vec<u8> = Vec::new();
    let mut i: usize = 0;
    while i < payloads.len()
        invariant
            i <= payloads@.len(),
            xs == payloads_view(payloads@),
            frameable(xs),
            output@ == encode(xs.subrange(0, i as int)),
        decreases payloads@.len() - i,
    {
        assert(xs[i as int].len() <= u32::MAX);
        length_prefix_data(payloads[i].as_slice(), &mut output);
        assert(xs.subrange(0, i + 1).drop_last() =~= xs.subrange(0, i as int));
        i = i + 1;
    }
    assert(xs.subrange(0, xs.len() as int) =~= xs);
    output
}

/// The first frame at the front of `data`: its payload, or `None` where the
/// prefix or the payload is cut short.
pub fn read_one_length_prefixed(data: &[u8]) -> (r: Option<Vec<u8>>)
    ensures
        data@.len() < 4 ==> r is None,
        data@.len() >= 4 ==> {
            let n = le_value(data@.subrange(0, 4));
            &&& data@.len() < 4 + n ==> r is None
            &&& data@.len() >= 4 + n ==> r is Some && r.unwrap()@ == data@.subrange(4, 4 + n)
        },
{
    if data.len() < 4 {
        return None;
    }
    let size: usize = (data[0] as u32 + 256 * (data[1] as u32) + 65536 * (data[2] as u32)
        + 16777216 * (data[3] as u32)) as usize;
    assert(size == le_value(data@.subrange(0, 4)));
    if data.len() - 4 < size {
        return None;
    }
    let len = data.len();
    let mut out: Vec<u8> = Vec::new();
    let mut i: usize = 0;
    while i < size
        invariant
            i <= size,
            len == data@.len(),
            4 + size <= len,
            out@ =~= data@.subrange(4, 4 + i),
        decreases size - i,
    {
        out.push(data[4 + i]);
        i = i + 1;
    }
    Some(out)
}

/// The payloads' bytes.
pub open spec fn payloads_view(v: Seq<Vec<u8>>) -> Seq<Seq<u8>> {
    v.map_values(|p: Vec<u8>| p@)
}

/// `done` followed by what `rest` decodes to, if it decodes.
pub open spec fn prepend_decoded(done: Seq<Seq<u8>>, rest: Option<Seq<Seq<u8>>>) -> Option<
    Seq<Seq<u8>>,
> {
    match rest {
        Some(r) => Some(done + r),
        None => None,
    }
}

/// Reads every frame of `data` in order. `None` where the buffer ends in a
/// partial frame.
pub fn read_length_prefixed(data: &Vec<u8>) -> (r: Option<Vec<Vec<u8>>>)
    ensures
        r is Some <==> decode(data@) is Some,
        r is Some ==> payloads_view(r.unwrap()@) == decode(data@).unwrap(),
{
    let mut results: Vec<Vec<u8>> = Vec::new();
    let mut pos: usize = 0;
    assert(data@.subrange(0, data@.len() as int) =~= data@);
    proof {
        match decode(data@) {
            Some(x) => {
                assert(payloads_view(results@) + x =~= x);
            },
            None => {},
        }
    }
    while pos < data.len()
        invariant
            pos <= data@.len(),
            decode(data@) == prepend_decoded(
                payloads_view(results@),
                decode(data@.subrange(pos as int, data@.len() as int)),
            ),
        decreases data@.len() - pos,
    {
        let ghost rest = data@.subrange(pos as int, data@.len() as int);
        let tail = vstd::slice::slice_subrange(data.as_slice(), pos, data.len());
        assert(tail@ == rest);
        match read_one_length_prefixed(tail) {
            None => {
                return None;
            },
            Some(payload) => {
                let ghost n = le_value(rest.subrange(0, 4));
                assert(rest.subrange(4 + n, rest.len() as int) =~= data@.subrange(
                    pos + 4 + n,
                    data@.len() as int,
                ));
                let ghost before = payloads_view(results@);
                let len = payload.len();
                results.push(payload);
                assert(payloads_view(results@) =~= before.push(payload@));
                proof {
                    match decode(data@.subrange(pos + 4 + n, data@.len() as int)) {
                        Some(x) => {
                            assert(before + (seq![payload@] + x) =~= before.push(payload@) + x);
                        },
                        None => {},
                    }
                }
                pos = pos + 4 + len;
            },
        }
    }
    assert(data@.subrange(pos as int, data@.len() as int) =~= Seq::<u8>::empty());
    assert(payloads_view(results@) + Seq::<Seq<u8>>::empty() =~= payloads_view(results@));
    Some(results)
}

} // verus!
