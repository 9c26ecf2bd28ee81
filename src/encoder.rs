//! The encoder: chunks written one at a time as frames.
use vstd::prelude::*;
use crate::chunk::Chunk;
use crate::wire::{encodable, frame_bytes, le_bytes, le_u32_to_bytes};

verus! {

/// Why a chunk could not be written.
#[derive(Debug, PartialEq, Eq, Structural, Clone, Copy)]
pub enum EncodeError {
    /// The payload holds more bytes than the 32-bit length field can count.
    PayloadTooLarge,
}

/// Appends the bytes of `src` to `out`.
fn push_bytes(out: &mut Vec<u8>, src: &[u8])
    ensures
        final(out)@ == old(out)@ + src@,
{
    let mut i: usize = 0;
    while i < src.len()
        invariant
            i <= src@.len(),
            out@ =~= old(out)@ + src@.subrange(0, i as int),
        decreases src@.len() - i,
    {
        out.push(src[i]);
        i = i + 1;
    }
    assert(src@.subrange(0, src@.len() as int) =~= src@);
}

/// Appends the frame of `chunk` to `out`. Where the payload is too long for
/// the length field, `out` is left as it was.
pub fn write_frame(out: &mut Vec<u8>, chunk: &Chunk) -> (r: Result<(), EncodeError>)
    ensures
        match r {
            Ok(()) => encodable(chunk@) && final(out)@ == old(out)@ + frame_bytes(chunk@),
            Err(e) => !encodable(chunk@) && e == EncodeError::PayloadTooLarge
                && final(out)@ == old(out)@,
        },
{
    if chunk.1.len() > 0xffff_ffff {
        return Err(EncodeError::PayloadTooLarge);
    }
    let n = chunk.1.len() as u32;
    push_bytes(out, &chunk.0);
    push_bytes(out, &le_u32_to_bytes(n));
    push_bytes(out, chunk.1.as_slice());
    assert(old(out)@ + chunk.0@ + le_bytes(n as nat) + chunk.1@ =~= old(out)@ + frame_bytes(
        chunk@,
    ));
    Ok(())
}

/// The frame of `chunk` on its own.
pub fn encode_frame(chunk: &Chunk) -> (r: Result<Vec<u8>, EncodeError>)
    ensures
        match r {
            Ok(b) => encodable(chunk@) && b@ == frame_bytes(chunk@),
            Err(e) => !encodable(chunk@) && e == EncodeError::PayloadTooLarge,
        },
{
    let mut out: Vec<u8> = Vec::new();
    match write_frame(&mut out, chunk) {
        Ok(()) => {
            assert(out@ =~= frame_bytes(chunk@));
            Ok(out)
        },
        Err(e) => Err(e),
    }
}

/// An encoder that writes frames after the bytes its sink already holds.
pub struct Encoder {
    out: Vec<u8>,
}

impl View for Encoder {
    type V = Seq<u8>;

    /// The bytes of the sink.
    closed spec fn view(&self) -> Seq<u8> {
        self.out@
    }
}

impl Encoder {
    /// An encoder that writes after the bytes of `out`.
    pub fn new(out: Vec<u8>) -> (r: Self)
        ensures
            r@ == out@,
    {
        Encoder { out }
    }

    /// Writes `chunk` as one frame and hands the encoder back, so that writes
    /// can be chained. A payload too long for the 32-bit length field is
    /// refused before anything is written.
    pub fn append(self, chunk: Chunk) -> (r: Result<Encoder, EncodeError>)
        ensures
            match r {
                Ok(e) => encodable(chunk@) && e@ == self@ + frame_bytes(chunk@),
                Err(e) => !encodable(chunk@) && e == EncodeError::PayloadTooLarge,
            },
    {
        let mut out = self.out;
        match write_frame(&mut out, &chunk) {
            Ok(()) => Ok(Encoder { out }),
            Err(e) => Err(e),
        }
    }

    /// The bytes written so far.
    pub fn bytes(&self) -> (r: &[u8])
        ensures
            r@ == self@,
    {
        self.out.as_slice()
    }

    /// The sink, with every frame written so far.
    pub fn into_inner(self) -> (r: Vec<u8>)
        ensures
            r@ == self@,
    {
        self.out
    }
}

} // verus!
