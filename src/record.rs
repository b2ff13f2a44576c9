use vstd::prelude::*;

use crate::multivector::MultiDenseVector;

verus! {

/// The durable unit kept for one point offset.
pub struct StoredRecord {
    pub deleted: bool,
    pub vector: MultiDenseVector,
}

impl View for StoredRecord {
    type V = (bool, (Seq<u32>, usize));

    open spec fn view(&self) -> (bool, (Seq<u32>, usize)) {
        (self.deleted, self.vector@)
    }
}

/// The four little-endian bytes of a point offset, as persisted keys hold it.
pub open spec fn point_id_bytes(id: u32) -> Seq<u8> {
    seq![
        (id % 0x100) as u8,
        ((id / 0x100) % 0x100) as u8,
        ((id / 0x1_0000) % 0x100) as u8,
        (id / 0x100_0000) as u8,
    ]
}

/// The point offset that a key starts with; further bytes are ignored.
pub open spec fn point_id_of(b: Seq<u8>) -> Option<u32> {
    if b.len() >= 4 {
        Some(
            (b[0] as int + b[1] as int * 0x100 + b[2] as int * 0x1_0000 + b[3] as int
                * 0x100_0000) as u32,
        )
    } else {
        None
    }
}

/// What the record decoder makes of persisted bytes: the deleted flag and the
/// multi-vector, or `None` where they do not hold a record.
pub uninterp spec fn decoded_record(b: Seq<u8>) -> Option<(bool, (Seq<u32>, usize))>;

/// Relies on `bincode::serialize` of a `u32` (fixed-width little-endian):
/// the four bytes of the offset, lowest first. It cannot fail here: the size
/// limit is infinite and writing into a `Vec` does not fail.
#[verifier::external_body]
pub(crate) fn encode_point_id(id: u32) -> (r: Option<Vec<u8>>)
    ensures
        r is Some,
        r matches Some(b) ==> b@ == point_id_bytes(id),
{
    bincode::serialize(&id).ok()
}

/// Relies on `bincode::deserialize` of a `u32`: it reads the first four bytes
/// little-endian, fails on fewer, and allows trailing bytes.
#[verifier::external_body]
pub(crate) fn decode_point_id(b: &Vec<u8>) -> (r: Option<u32>)
    ensures
        r == point_id_of(b@),
{
    bincode::deserialize::<u32>(b.as_slice()).ok()
}

/// Relies on `bincode::serialize` of the tuple (deleted, components, dim), the
/// layout of a serialized stored record; bincode decodes what it encodes.
/// It cannot fail here: the size limit is infinite, a `Vec` has a known
/// length, and writing into a `Vec` does not fail.
#[verifier::external_body]
pub(crate) fn encode_record(deleted: bool, vector: &MultiDenseVector) -> (r: Option<Vec<u8>>)
    ensures
        r is Some,
        r matches Some(b) ==> decoded_record(b@) == Some((deleted, vector@)),
{
    bincode::serialize(&(deleted, &vector.inner_vector, vector.dim)).ok()
}

/// Relies on `bincode::deserialize` of the tuple (deleted, components, dim).
#[verifier::external_body]
pub(crate) fn decode_record(b: &Vec<u8>) -> (r: Option<(bool, Vec<u32>, usize)>)
    ensures
        match r {
            Some((deleted, inner_vector, dim)) => decoded_record(b@) == Some(
                (deleted, (inner_vector@, dim)),
            ),
            None => decoded_record(b@) is None,
        },
{
    bincode::deserialize::<(bool, Vec<u32>, usize)>(b.as_slice()).ok()
}

} // verus!
