//! The decoder: chunks pulled one at a time from a byte stream.
use vstd::prelude::*;
use crate::chunk::Chunk;
use crate::wire::{
    after_frame, decode_stream, first_chunk, has_frame, le_u32_from_bytes, le_value, ChunkModel,
};

verus! {

/// The tag and the declared payload length of a frame header.
pub fn parse_header(h: [u8; 8]) -> (r: ([u8; 4], u32))
    ensures
        r.0@ == h@.subrange(0, 4),
        r.1 as nat == le_value(h@.subrange(4, 8)),
{
    let tag = [h[0], h[1], h[2], h[3]];
    let n = le_u32_from_bytes([h[4], h[5], h[6], h[7]]);
    assert(tag@ =~= h@.subrange(0, 4));
    proof {
        let b = seq![h[4], h[5], h[6], h[7]];
        assert(b =~= h@.subrange(4, 8));
    }
    (tag, n)
}

/// The models of a sequence of chunks.
pub open spec fn chunk_models(v: Seq<Chunk>) -> Seq<ChunkModel> {
    v.map_values(|c: Chunk| c@)
}

/// A decoder over the bytes of a stream. It hands out the stream's chunks in
/// order, one per call of `next`, and ends at the first place where no whole
/// frame is left: a header of fewer than eight bytes, or a payload shorter than
/// its header declares. Once ended it hands out nothing more.
pub struct Decoder {
    src: Vec<u8>,
    pos: usize,
}

impl View for Decoder {
    type V = Seq<u8>;

    /// The bytes not yet decoded.
    closed spec fn view(&self) -> Seq<u8> {
        self.src@.subrange(self.pos as int, self.src@.len() as int)
    }
}

impl Decoder {
    #[verifier::type_invariant]
    spec fn inv(&self) -> bool {
        self.pos <= self.src@.len()
    }

    /// A decoder that starts at the first byte of `src`.
    pub fn new(src: Vec<u8>) -> (r: Self)
        ensures
            r@ == src@,
    {
        let r = Decoder { src, pos: 0 };
        assert(r@ =~= r.src@);
        r
    }

    /// The next chunk of the stream, or `None` where what is left holds no
    /// whole frame; the decoder is then exhausted.
    pub fn next(&mut self) -> (r: Option<Chunk>)
        ensures
            match r {
                Some(c) => has_frame(old(self)@) && c@ == first_chunk(old(self)@)
                    && final(self)@ == after_frame(old(self)@),
                None => !has_frame(old(self)@) && final(self)@ == Seq::<u8>::empty(),
            },
    {
        proof {
            use_type_invariant(&*self);
        }
        let len = self.src.len();
        let rest = len - self.pos;
        if rest < 8 {
            self.pos = len;
            return None;
        }
        let p = self.pos;
        let (tag, n) = parse_header([
            self.src[p], self.src[p + 1], self.src[p + 2], self.src[p + 3],
            self.src[p + 4], self.src[p + 5], self.src[p + 6], self.src[p + 7],
        ]);
        let n = n as usize;
        if rest - 8 < n {
            self.pos = len;
            return None;
        }
        let mut payload: Vec<u8> = Vec::with_capacity(n);
        let start = p + 8;
        let mut i: usize = 0;
        while i < n
            invariant
                start + n <= len,
                len == self.src@.len(),
                i <= n,
                payload@ =~= self.src@.subrange(start as int, start + i),
            decreases n - i,
        {
            payload.push(self.src[start + i]);
            i = i + 1;
        }
        self.pos = start + n;
        Some(Chunk(tag, payload))
    }

    /// Every chunk left in the stream, in order. The decoder is exhausted
    /// afterwards.
    pub fn collect_chunks(&mut self) -> (r: Vec<Chunk>)
        ensures
            chunk_models(r@) == decode_stream(old(self)@),
            final(self)@ == Seq::<u8>::empty(),
    {
        let ghost s0 = self@;
        let mut out: Vec<Chunk> = Vec::new();
        let mut done = false;
        while !done
            invariant
                chunk_models(out@) + decode_stream(self@) == decode_stream(s0),
                done ==> self@ == Seq::<u8>::empty(),
            decreases self@.len() + if done { 0int } else { 1int },
        {
            let ghost before = self@;
            match self.next() {
                Some(c) => {
                    let ghost prev = chunk_models(out@);
                    out.push(c);
                    assert(chunk_models(out@) =~= prev.push(c@));
                    assert(prev.push(c@) + decode_stream(self@) =~= prev + decode_stream(before));
                },
                None => {
                    done = true;
                },
            }
        }
        out
    }
}

} // verus!
