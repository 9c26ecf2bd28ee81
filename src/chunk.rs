//! The chunk: one framed unit of a stream.
use vstd::prelude::*;
use crate::wire::ChunkModel;

verus! {

/// One segment of a stream: a four-byte tag that names what the payload
/// holds, and the payload itself.
///
/// The payload may hold more bytes than the 32-bit length field of a frame can
/// count; such a chunk is refused when it is written.
#[derive(Debug)]
pub struct Chunk(pub [u8; 4], pub Vec<u8>);

impl View for Chunk {
    type V = ChunkModel;

    open spec fn view(&self) -> ChunkModel {
        (self.0@, self.1@)
    }
}

/// Whether two byte slices hold the same bytes.
fn same_bytes(a: &[u8], b: &[u8]) -> (r: bool)
    ensures
        r == (a@ == b@),
{
    if a.len() != b.len() {
        return false;
    }
    let mut i: usize = 0;
    while i < a.len()
        invariant
            a@.len() == b@.len(),
            i <= a@.len(),
            forall|j: int| 0 <= j < i ==> a@[j] == b@[j],
        decreases a@.len() - i,
    {
        if a[i] != b[i] {
            return false;
        }
        i = i + 1;
    }
    assert(a@ =~= b@);
    true
}

impl PartialEq for Chunk {
    fn eq(&self, o: &Chunk) -> (r: bool) {
        same_bytes(&self.0, &o.0) && same_bytes(self.1.as_slice(), o.1.as_slice())
    }
}

impl vstd::std_specs::cmp::PartialEqSpecImpl for Chunk {
    open spec fn obeys_eq_spec() -> bool {
        true
    }

    open spec fn eq_spec(&self, o: &Chunk) -> bool {
        self@ == o@
    }
}

impl Eq for Chunk {}

} // verus!
