//! The length field of a frame: an unsigned 32-bit integer in little-endian
//! byte order.
use vstd::prelude::*;

verus! {

/// The value of four bytes read as a little-endian unsigned integer.
pub open spec fn le_value(b: Seq<u8>) -> nat
    recommends
        b.len() == 4,
{
    (b[0] as nat) + 256 * (b[1] as nat) + 65536 * (b[2] as nat) + 16777216 * (b[3] as nat)
}

/// The four little-endian bytes of a value below 2^32.
pub open spec fn le_bytes(n: nat) -> Seq<u8> {
    seq![
        (n % 256) as u8,
        ((n / 256) % 256) as u8,
        ((n / 65536) % 256) as u8,
        ((n / 16777216) % 256) as u8,
    ]
}

/// Writing a value as four bytes and reading them back gives the value.
pub proof fn lemma_le_round_trip(n: nat)
    requires
        n <= u32::MAX,
    ensures
        le_bytes(n).len() == 4,
        le_value(le_bytes(n)) == n,
{
    let b = le_bytes(n);
    assert(b[0] as nat == n % 256);
    assert(b[1] as nat == (n / 256) % 256);
    assert(b[2] as nat == (n / 65536) % 256);
    assert(b[3] as nat == (n / 16777216) % 256);
    assert(n / 16777216 < 256) by (nonlinear_arith)
        requires n <= 0xffff_ffff;
    assert(n == n % 256 + 256 * ((n / 256) % 256) + 65536 * ((n / 65536) % 256)
        + 16777216 * (n / 16777216)) by (nonlinear_arith);
}

/// The little-endian bytes of `n`.
pub fn le_u32_to_bytes(n: u32) -> (r: [u8; 4])
    ensures
        r@ == le_bytes(n as nat),
{
    let r = [
        (n % 256) as u8,
        ((n / 256) % 256) as u8,
        ((n / 65536) % 256) as u8,
        ((n / 16777216) % 256) as u8,
    ];
    assert(r@ =~= le_bytes(n as nat));
    r
}

/// The value of four little-endian bytes.
pub fn le_u32_from_bytes(b: [u8; 4]) -> (r: u32)
    ensures
        r as nat == le_value(b@),
{
    b[0] as u32 + 256 * (b[1] as u32) + 65536 * (b[2] as u32) + 16777216 * (b[3] as u32)
}

/// The model of a chunk: its tag and its payload.
pub type ChunkModel = (Seq<u8>, Seq<u8>);

/// The bytes of one frame: the tag, the payload length, then the payload.
pub open spec fn frame_bytes(c: ChunkModel) -> Seq<u8> {
    c.0 + le_bytes(c.1.len()) + c.1
}

/// Whether a chunk can be written as a frame: a tag of four bytes and a
/// payload whose length fits the 32-bit length field.
pub open spec fn encodable(c: ChunkModel) -> bool {
    c.0.len() == 4 && c.1.len() <= u32::MAX
}

/// The payload length that the header at the start of `s` declares.
pub open spec fn declared_len(s: Seq<u8>) -> nat
    recommends
        s.len() >= 8,
{
    le_value(s.subrange(4, 8))
}

/// Whether `s` starts with a whole frame: a header of eight bytes followed by
/// at least as many bytes as it declares.
pub open spec fn has_frame(s: Seq<u8>) -> bool {
    s.len() >= 8 && s.len() >= 8 + declared_len(s)
}

/// The chunk of the frame at the start of `s`.
pub open spec fn first_chunk(s: Seq<u8>) -> ChunkModel
    recommends
        has_frame(s),
{
    (s.subrange(0, 4), s.subrange(8, 8 + declared_len(s) as int))
}

/// What follows the frame at the start of `s`.
pub open spec fn after_frame(s: Seq<u8>) -> Seq<u8>
    recommends
        has_frame(s),
{
    s.subrange(8 + declared_len(s) as int, s.len() as int)
}

/// The chunks that a stream decodes to: frame after frame from the start,
/// until what is left does not hold a whole frame.
pub open spec fn decode_stream(s: Seq<u8>) -> Seq<ChunkModel>
    decreases s.len(),
{
    if has_frame(s) {
        seq![first_chunk(s)] + decode_stream(after_frame(s))
    } else {
        Seq::empty()
    }
}

/// The bytes of a sequence of chunks written one after another.
pub open spec fn stream_bytes(cs: Seq<ChunkModel>) -> Seq<u8>
    decreases cs.len(),
{
    if cs.len() == 0 {
        Seq::empty()
    } else {
        frame_bytes(cs[0]) + stream_bytes(cs.drop_first())
    }
}

/// A frame, whatever follows it, starts with a whole frame that holds the
/// chunk it was written from, and what follows it is left untouched.
pub proof fn lemma_frame_decodes(c: ChunkModel, rest: Seq<u8>)
    requires
        encodable(c),
    ensures
        has_frame(frame_bytes(c) + rest),
        first_chunk(frame_bytes(c) + rest) == c,
        after_frame(frame_bytes(c) + rest) == rest,
{
    let n = c.1.len();
    let s = frame_bytes(c) + rest;
    lemma_le_round_trip(n);
    assert(s.subrange(4, 8) =~= le_bytes(n));
    assert(declared_len(s) == n);
    assert(s.subrange(0, 4) =~= c.0);
    assert(s.subrange(8, 8 + n as int) =~= c.1);
    assert(s.subrange(8 + n as int, s.len() as int) =~= rest);
}

/// Encoding a chunk and decoding the bytes gives back exactly that chunk.
pub proof fn lemma_round_trip(c: ChunkModel)
    requires
        encodable(c),
    ensures
        decode_stream(frame_bytes(c)) == seq![c],
{
    let s = frame_bytes(c);
    lemma_frame_decodes(c, Seq::empty());
    assert(s + Seq::<u8>::empty() =~= s);
    assert(decode_stream(Seq::<u8>::empty()) == Seq::<ChunkModel>::empty());
    assert(decode_stream(s) == seq![c] + decode_stream(after_frame(s)));
    assert(seq![c] + Seq::<ChunkModel>::empty() =~= seq![c]);
}

/// Decoding the frames of several chunks written one after another gives
/// back those chunks, in the order they were written.
pub proof fn lemma_stream_round_trip(cs: Seq<ChunkModel>)
    requires
        forall|i: int| 0 <= i < cs.len() ==> encodable(#[trigger] cs[i]),
    ensures
        decode_stream(stream_bytes(cs)) == cs,
    decreases cs.len(),
{
    if cs.len() > 0 {
        let tail = cs.drop_first();
        assert forall|i: int| 0 <= i < tail.len() implies encodable(#[trigger] tail[i]) by {
            assert(tail[i] == cs[i + 1]);
        }
        lemma_stream_round_trip(tail);
        lemma_frame_decodes(cs[0], stream_bytes(tail));
        assert(seq![cs[0]] + tail =~= cs);
    }
}

/// Writing one more chunk after a stream of chunks appends that chunk's
/// frame to the stream's bytes.
pub proof fn lemma_stream_bytes_push(cs: Seq<ChunkModel>, c: ChunkModel)
    ensures
        stream_bytes(cs.push(c)) == stream_bytes(cs) + frame_bytes(c),
    decreases cs.len(),
{
    if cs.len() == 0 {
        let one = cs.push(c);
        assert(one.drop_first() =~= Seq::<ChunkModel>::empty());
        assert(one[0] == c);
        assert(stream_bytes(Seq::<ChunkModel>::empty()) == Seq::<u8>::empty());
        assert(stream_bytes(one) == frame_bytes(c) + stream_bytes(one.drop_first()));
        assert(stream_bytes(one) =~= frame_bytes(c));
        assert(stream_bytes(cs) + frame_bytes(c) =~= frame_bytes(c));
    } else {
        lemma_stream_bytes_push(cs.drop_first(), c);
        assert(cs.push(c).drop_first() =~= cs.drop_first().push(c));
        assert(cs.push(c)[0] == cs[0]);
        assert(stream_bytes(cs.push(c)) =~= stream_bytes(cs) + frame_bytes(c));
    }
}

} // verus!
