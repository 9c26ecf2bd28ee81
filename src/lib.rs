//! Reading and writing of IFF-style chunk framing.
//!
//! A stream is a concatenation of frames. Each frame is a four-byte tag, the
//! payload length as an unsigned 32-bit little-endian integer, and then that
//! many payload bytes. Note that the length field is little-endian, unlike the
//! big-endian field of canonical IFF and the RIFF readers built on it.
pub mod chunk;
pub mod decoder;
pub mod encoder;
pub mod wire;

pub use chunk::Chunk;
pub use decoder::{parse_header, Decoder};
pub use encoder::{encode_frame, write_frame, EncodeError, Encoder};
pub use wire::{le_u32_from_bytes, le_u32_to_bytes};
