use std::sync::atomic::{AtomicBool, Ordering};

use vstd::prelude::*;

use crate::bits::{
    bit_at, bits_of, DeletedBits, bitvec_get, bitvec_grow, bitvec_len, bitvec_new, bitvec_replace, count_set,
    grown, lemma_count_grown, lemma_count_le_len, lemma_count_update,
};
use crate::multivector::{empty_multivector, MultiDenseVector, PointOffsetType};
use crate::record::{
    decode_point_id, decode_record, decoded_record, encode_point_id, encode_record, point_id_bytes,
    point_id_of,
};

pub use crate::record::StoredRecord;

verus! {

/// One persisted record as a model: the offset, the deleted flag and the
/// multi-vector.
pub type EntryModel = (u32, (bool, (Seq<u32>, usize)));

/// The distance a storage was opened for.
#[derive(Clone, Copy, Debug, PartialEq, Eq, Structural)]
pub enum Distance {
    Cosine,
    Euclid,
    Dot,
    Manhattan,
}

/// Why opening or writing the storage failed.
#[derive(Clone, Copy, Debug, PartialEq, Eq, Structural)]
pub enum OperationError {
    /// A persisted key does not hold a point offset.
    CorruptPointId,
    /// A persisted value does not hold a stored record.
    CorruptRecord,
    /// The stop flag was raised while the records were read.
    Cancelled,
    /// A record could not be encoded for writing.
    EncodingFailed,
}

/// Bits of a deletion bit-vector after flag `flag` is written at `key`: the
/// vector grows with clear bits only when a bit past its end is set.
pub open spec fn bits_after(bits: Seq<bool>, key: int, flag: bool) -> Seq<bool> {
    if key < bits.len() {
        bits.update(key, flag)
    } else if flag {
        grown(bits, (key + 1) as nat).update(key, true)
    } else {
        bits
    }
}

/// Bits of the deletion structure after `set_deleted(key, flag)` on a storage
/// with `n` vectors: offsets never written are left alone.
pub open spec fn deleted_after(bits: Seq<bool>, n: nat, key: int, flag: bool) -> Seq<bool> {
    if key < n {
        bits_after(bits, key, flag)
    } else {
        bits
    }
}

/// Whether some record is for offset `k`.
pub open spec fn has_key(es: Seq<EntryModel>, k: int) -> bool {
    exists|i: int| 0 <= i < es.len() && #[trigger] es[i].0 == k
}

/// Whether some record for offset `k` is marked deleted.
pub open spec fn has_deleted_key(es: Seq<EntryModel>, k: int) -> bool {
    exists|i: int| 0 <= i < es.len() && #[trigger] es[i].0 == k && es[i].1.0
}

/// No two records share an offset, as in a key-value store.
pub open spec fn keys_unique(es: Seq<EntryModel>) -> bool {
    forall|i: int, j: int|
        0 <= i < es.len() && 0 <= j < es.len() && #[trigger] es[i].0 == #[trigger] es[j].0 ==> i
            == j
}

/// Some record of `es` is `e`.
pub open spec fn contains_entry(es: Seq<EntryModel>, e: EntryModel) -> bool {
    exists|j: int| 0 <= j < es.len() && #[trigger] es[j] == e
}

/// Both sequences hold the same records, whatever their order.
pub open spec fn same_entries(a: Seq<EntryModel>, b: Seq<EntryModel>) -> bool {
    &&& forall|i: int| 0 <= i < a.len() ==> contains_entry(b, #[trigger] a[i])
    &&& forall|j: int| 0 <= j < b.len() ==> contains_entry(a, #[trigger] b[j])
}

/// The model of decoded records.
pub open spec fn entries_of(records: Seq<(PointOffsetType, StoredRecord)>) -> Seq<EntryModel> {
    records.map_values(|p: (PointOffsetType, StoredRecord)| (p.0, p.1@))
}

/// No later record is for the offset of record `i`.
pub open spec fn is_last_for_key(es: Seq<EntryModel>, i: int) -> bool {
    forall|j: int| i < j < es.len() ==> #[trigger] es[j].0 != es[i].0
}

/// The in-memory state that replaying the records `es` builds: vectors up to
/// the largest offset, each offset holding the vector of its last record
/// (deleted ones too) or the empty multi-vector, and deletion bits up to the
/// largest deleted offset, set exactly where some record is marked deleted.
pub open spec fn recovered(
    es: Seq<EntryModel>,
    vectors: Seq<(Seq<u32>, usize)>,
    deleted: Seq<bool>,
) -> bool {
    &&& forall|i: int| 0 <= i < es.len() ==> (#[trigger] es[i]).0 < vectors.len()
    &&& vectors.len() == 0 || has_key(es, vectors.len() - 1)
    &&& forall|i: int| 0 <= i < es.len() && (#[trigger] es[i]).1.0 ==> es[i].0 < deleted.len()
    &&& deleted.len() == 0 || has_deleted_key(es, deleted.len() - 1)
    &&& forall|i: int|
        0 <= i < es.len() && is_last_for_key(es, i) ==> vectors[(#[trigger] es[i]).0 as int]
            == es[i].1.1
    &&& forall|k: int|
        0 <= k < vectors.len() && !has_key(es, k) ==> #[trigger] vectors[k] == empty_multivector()
    &&& forall|k: int| 0 <= k < deleted.len() ==> #[trigger] deleted[k] == has_deleted_key(es, k)
}

/// Multi-vectors kept in memory by point offset, with soft deletion; every
/// change is persisted by writing the record that `update_stored` encodes.
pub struct SimpleMultiDenseVectorStorage {
    dim: usize,
    distance: Distance,
    vectors: Vec<MultiDenseVector>,
    /// Deleted flags; grows up to the last set flag.
    deleted: DeletedBits,
    /// Number of set flags in `deleted`.
    deleted_count: usize,
}

impl SimpleMultiDenseVectorStorage {
    /// The multi-vector at each offset.
    pub closed spec fn spec_vectors(&self) -> Seq<(Seq<u32>, usize)> {
        self.vectors@.map_values(|v: MultiDenseVector| v@)
    }

    /// The deletion bits; offsets past the end are not deleted.
    pub closed spec fn spec_deleted(&self) -> Seq<bool> {
        bits_of(self.deleted)
    }

    pub closed spec fn spec_deleted_count(&self) -> nat {
        self.deleted_count as nat
    }

    pub closed spec fn spec_dim(&self) -> usize {
        self.dim
    }

    pub closed spec fn spec_distance(&self) -> Distance {
        self.distance
    }

    /// The count matches the bits, and every offset with a bit has a vector.
    pub closed spec fn wf(&self) -> bool {
        &&& self.deleted_count == count_set(bits_of(self.deleted))
        &&& bits_of(self.deleted).len() <= self.vectors@.len()
        &&& self.vectors@.len() <= usize::MAX / 8
    }

    pub fn dim(&self) -> (r: usize)
        ensures
            r == self.spec_dim(),
    {
        self.dim
    }

    pub fn distance(&self) -> (r: Distance)
        ensures
            r == self.spec_distance(),
    {
        self.distance
    }

    /// Number of offsets that hold a vector, deleted ones included.
    pub fn total_vector_count(&self) -> (r: usize)
        ensures
            r == self.spec_vectors().len(),
    {
        self.vectors.len()
    }

    pub fn deleted_count(&self) -> (r: usize)
        ensures
            r == self.spec_deleted_count(),
    {
        self.deleted_count
    }

    pub fn is_deleted(&self, key: PointOffsetType) -> (r: bool)
        ensures
            r == bit_at(self.spec_deleted(), key as int),
    {
        if (key as usize) < bitvec_len(&self.deleted) {
            bitvec_get(&self.deleted, key as usize)
        } else {
            false
        }
    }

    /// The multi-vector at `key`, deleted or not.
    pub fn get_multi(&self, key: PointOffsetType) -> (r: &MultiDenseVector)
        requires
            (key as int) < self.spec_vectors().len(),
        ensures
            r@ == self.spec_vectors()[key as int],
    {
        &self.vectors[key as usize]
    }

    /// The storage that replaying decoded records builds, in their order:
    /// each record's vector goes to its offset, growing the vectors with empty
    /// ones, and a deleted record sets its offset's flag.
    pub fn from_records(
        dim: usize,
        distance: Distance,
        records: &Vec<(PointOffsetType, StoredRecord)>,
    ) -> (r: Self)
        requires
            forall|i: int| 0 <= i < records@.len() ==> (#[trigger] records@[i].0 as int) < usize::MAX / 8,
        ensures
            r.wf(),
            r.spec_dim() == dim,
            r.spec_distance() == distance,
            recovered(
                entries_of(records@),
                r.spec_vectors(),
                r.spec_deleted(),
            ),
    {
        let ghost es = entries_of(records@);
        let mut vectors: Vec<MultiDenseVector> = Vec::new();
        let mut deleted = bitvec_new();
        let mut deleted_count: usize = 0;
        let mut i: usize = 0;
        assert(es.take(0) =~= Seq::<EntryModel>::empty());
        assert(vectors@.map_values(|v: MultiDenseVector| v@) =~= Seq::<(Seq<u32>, usize)>::empty());
        while i < records.len()
            invariant
                es == entries_of(records@),
                forall|j: int| 0 <= j < records@.len() ==> (#[trigger] records@[j].0 as int) < usize::MAX / 8,
                i <= records@.len(),
                deleted_count == count_set(bits_of(deleted)),
                bits_of(deleted).len() <= vectors@.len() <= usize::MAX / 8,
                recovered(
                    es.take(i as int),
                    vectors@.map_values(|v: MultiDenseVector| v@),
                    bits_of(deleted),
                ),
            decreases records@.len() - i,
        {
            let key = records[i].0;
            let rec = &records[i].1;
            let k = key as usize;
            let ghost vs0 = vectors@.map_values(|v: MultiDenseVector| v@);
            let ghost bits0 = bits_of(deleted);
            let ghost len0 = vectors@.len();
            while vectors.len() <= k
                invariant
                    (k as int) < usize::MAX / 8,
                    len0 <= vectors@.len() <= (if len0 > k { len0 } else { (k + 1) as nat }),
                    forall|j: int| 0 <= j < len0 ==> #[trigger] vectors@[j]@ == vs0[j],
                    forall|j: int| len0 <= j < vectors@.len() ==> #[trigger] vectors@[j]@ == empty_multivector(),
                    vs0.len() == len0,
                decreases k + 1 - vectors@.len(),
            {
                vectors.push(MultiDenseVector::empty());
            }
            let v = rec.vector.duplicate();
            vectors.set(k, v);
            let ghost e = es[i as int];
            assert(e == (key, rec@));
            assert(vectors@.map_values(|v: MultiDenseVector| v@) =~= vectors_grown(vs0, k as int).update(k as int, e.1.1));
            if rec.deleted {
                let was = bitvec_set_deleted(&mut deleted, key, true);
                proof {
                    lemma_count_bits_after(bits0, k as int, true);
                    lemma_count_le_len(bits_of(deleted));
                }
                if !was {
                    deleted_count = deleted_count + 1;
                }
            }
            proof {
                assert(es.take(i as int + 1) =~= es.take(i as int).push(e));
                lemma_recovered_step(es.take(i as int), e, vs0, bits0);
            }
            i = i + 1;
        }
        assert(es.take(records@.len() as int) =~= es);
        SimpleMultiDenseVectorStorage { dim, distance, vectors, deleted, deleted_count }
    }

    /// Encodes the record that persists `key`: the flag given, and the new
    /// vector, or else the one held at `key` (the empty one past the end).
    /// Returns the key and value bytes to put in the backing store; the
    /// in-memory state is not touched. Encoding always succeeds.
    pub fn update_stored(
        &self,
        key: PointOffsetType,
        deleted: bool,
        vector: Option<&MultiDenseVector>,
    ) -> (r: Result<(Vec<u8>, Vec<u8>), OperationError>)
        ensures
            r matches Ok((k, v)) ==> k@ == point_id_bytes(key) && decoded_record(v@) == Some(
                (
                    deleted,
                    match vector {
                        Some(x) => x@,
                        None => if (key as int) < self.spec_vectors().len() {
                            self.spec_vectors()[key as int]
                        } else {
                            empty_multivector()
                        },
                    },
                ),
            ),
            r is Ok,
    {
        let key_bytes = match encode_point_id(key) {
            Some(b) => b,
            None => return Err(OperationError::EncodingFailed),
        };
        let value_bytes = match vector {
            Some(v) => encode_record(deleted, v),
            None => if (key as usize) < self.vectors.len() {
                encode_record(deleted, &self.vectors[key as usize])
            } else {
                encode_record(deleted, &MultiDenseVector::empty())
            },
        };
        match value_bytes {
            Some(b) => Ok((key_bytes, b)),
            None => Err(OperationError::EncodingFailed),
        }
    }

    /// Sets the deleted flag of `key` and returns the previous one. An offset
    /// that holds no vector is left alone and reads as not deleted. The count
    /// moves by one only when the flag changes.
    pub fn set_deleted(&mut self, key: PointOffsetType, deleted: bool) -> (r: bool)
        requires
            old(self).wf(),
        ensures
            final(self).wf(),
            r == ((key as int) < old(self).spec_vectors().len() && bit_at(
                old(self).spec_deleted(),
                key as int,
            )),
            final(self).spec_deleted() == deleted_after(
                old(self).spec_deleted(),
                old(self).spec_vectors().len(),
                key as int,
                deleted,
            ),
            final(self).spec_deleted_count() == count_set(final(self).spec_deleted()),
            final(self).spec_deleted_count() + (if r { 1int } else { 0int })
                == old(self).spec_deleted_count() + (if deleted && (key as int) < old(
                self).spec_vectors().len() { 1int } else { 0int }),
            final(self).spec_vectors() == old(self).spec_vectors(),
            final(self).spec_dim() == old(self).spec_dim(),
            final(self).spec_distance() == old(self).spec_distance(),
    {
        if key as usize >= self.vectors.len() {
            return false;
        }
        let ghost before = bits_of(self.deleted);
        let was_deleted = bitvec_set_deleted(&mut self.deleted, key, deleted);
        proof {
            lemma_count_bits_after(before, key as int, deleted);
            lemma_count_le_len(bits_of(self.deleted));
        }
        if was_deleted != deleted {
            if !was_deleted {
                self.deleted_count = self.deleted_count + 1;
            } else {
                self.deleted_count = self.deleted_count - 1;
            }
        }
        was_deleted
    }
}

/// Records that are adjacent by one more record: offsets are found in the
/// longer sequence exactly when found in the shorter one or in the record.
pub proof fn lemma_push_entry(es: Seq<EntryModel>, e: EntryModel)
    ensures
        forall|x: int| #[trigger] has_key(es.push(e), x) == (has_key(es, x) || x == e.0),
        forall|x: int| #[trigger]
            has_deleted_key(es.push(e), x) == (has_deleted_key(es, x) || (x == e.0 && e.1.0)),
{
    let es2 = es.push(e);
    assert forall|x: int| #[trigger] has_key(es2, x) == (has_key(es, x) || x == e.0) by {
        if has_key(es, x) {
            let i = choose|i: int| 0 <= i < es.len() && #[trigger] es[i].0 == x;
            assert(es2[i] == es[i]);
        }
        if x == e.0 {
            assert(es2[es.len() as int] == e);
        }
        if has_key(es2, x) {
            let i = choose|i: int| 0 <= i < es2.len() && #[trigger] es2[i].0 == x;
            if i < es.len() {
                assert(es2[i] == es[i]);
            }
        }
    }
    assert forall|x: int| #[trigger]
        has_deleted_key(es2, x) == (has_deleted_key(es, x) || (x == e.0 && e.1.0)) by {
        if has_deleted_key(es, x) {
            let i = choose|i: int| 0 <= i < es.len() && #[trigger] es[i].0 == x && es[i].1.0;
            assert(es2[i] == es[i]);
        }
        if x == e.0 && e.1.0 {
            assert(es2[es.len() as int] == e);
        }
        if has_deleted_key(es2, x) {
            let i = choose|i: int| 0 <= i < es2.len() && #[trigger] es2[i].0 == x && es2[i].1.0;
            if i < es.len() {
                assert(es2[i] == es[i]);
            }
        }
    }
}

/// `vs` grown with empty multi-vectors to hold offset `key`.
pub open spec fn vectors_grown(vs: Seq<(Seq<u32>, usize)>, key: int) -> Seq<(Seq<u32>, usize)> {
    if key < vs.len() {
        vs
    } else {
        vs + Seq::new((key + 1 - vs.len()) as nat, |_i: int| empty_multivector())
    }
}

/// Replaying one more record keeps the state the one that the records so
/// far describe.
pub proof fn lemma_recovered_step(
    es: Seq<EntryModel>,
    e: EntryModel,
    vs: Seq<(Seq<u32>, usize)>,
    bits: Seq<bool>,
)
    requires
        recovered(es, vs, bits),
    ensures
        recovered(
            es.push(e),
            vectors_grown(vs, e.0 as int).update(e.0 as int, e.1.1),
            if e.1.0 {
                bits_after(bits, e.0 as int, true)
            } else {
                bits
            },
        ),
{
    let es2 = es.push(e);
    let k = e.0 as int;
    let vs2 = vectors_grown(vs, k).update(k, e.1.1);
    let bits2 = if e.1.0 {
        bits_after(bits, k, true)
    } else {
        bits
    };
    lemma_push_entry(es, e);
    assert(es2[es.len() as int] == e);
    assert forall|i: int| 0 <= i < es2.len() implies (#[trigger] es2[i]).0 < vs2.len() by {
        if i < es.len() {
            assert(es2[i] == es[i]);
        }
    }
    if vs2.len() > 0 {
        if k < vs.len() {
            assert(has_key(es, vs.len() - 1));
        }
        assert(has_key(es2, vs2.len() - 1));
    }
    assert forall|i: int| 0 <= i < es2.len() && (#[trigger] es2[i]).1.0 implies es2[i].0
        < bits2.len() by {
        if i < es.len() {
            assert(es2[i] == es[i]);
        }
    }
    if bits2.len() > 0 {
        if bits2.len() == bits.len() {
            assert(has_deleted_key(es, bits.len() - 1));
        }
        assert(has_deleted_key(es2, bits2.len() - 1));
    }
    assert forall|i: int| 0 <= i < es2.len() && is_last_for_key(es2, i) implies vs2[(
    #[trigger] es2[i]).0 as int] == es2[i].1.1 by {
        if i < es.len() {
            assert(es2[i] == es[i]);
            assert(es2[es.len() as int].0 != es2[i].0);
            assert forall|j: int| i < j < es.len() implies #[trigger] es[j].0 != es[i].0 by {
                assert(es2[j] == es[j]);
            }
            assert(vs[es[i].0 as int] == es[i].1.1);
        }
    }
    assert forall|x: int| 0 <= x < vs2.len() && !has_key(es2, x) implies #[trigger] vs2[x]
        == empty_multivector() by {
        if x < vs.len() {
            assert(vs2[x] == vs[x]);
        }
    }
    assert forall|x: int| 0 <= x < bits2.len() implies #[trigger] bits2[x] == has_deleted_key(
        es2,
        x,
    ) by {
        if x < bits.len() && x != k {
            assert(bits2[x] == bits[x]);
        }

    }
}

/// The count of set bits after writing flag `flag` at `key`.
pub proof fn lemma_count_bits_after(bits: Seq<bool>, key: int, flag: bool)
    requires
        0 <= key,
    ensures
        count_set(bits_after(bits, key, flag)) + (if bit_at(bits, key) { 1int } else { 0int })
            == count_set(bits) + (if flag { 1int } else { 0int }),
{
    if key < bits.len() {
        lemma_count_update(bits, key, flag);
    } else if flag {
        let g = grown(bits, (key + 1) as nat);
        lemma_count_grown(bits, (key + 1) as nat);
        lemma_count_update(g, key, true);
    }
}

/// Writes flag `deleted` at `key` and returns the previous flag; the
/// bit-vector grows only when a flag past its end is set.
fn bitvec_set_deleted(bits: &mut DeletedBits, key: PointOffsetType, deleted: bool) -> (was: bool)
    requires
        (key as int) < usize::MAX / 8,
    ensures
        was == bit_at(bits_of(*old(bits)), key as int),
        bits_of(*final(bits)) == bits_after(bits_of(*old(bits)), key as int, deleted),
{
    let len = bitvec_len(bits);
    if (key as usize) < len {
        return bitvec_replace(bits, key as usize, deleted);
    }
    if deleted {
        bitvec_grow(bits, key as usize + 1);
        bitvec_replace(bits, key as usize, true);
    }
    false
}

/// Every persisted pair decodes: a point offset from the key and a record
/// from the value.
pub open spec fn raw_decodes(raw: Seq<(Vec<u8>, Vec<u8>)>) -> bool {
    forall|i: int|
        0 <= i < raw.len() ==> point_id_of((#[trigger] raw[i]).0@) is Some && decoded_record(
            raw[i].1@,
        ) is Some
}

/// What the persisted pairs decode to, where they do.
pub open spec fn raw_entries(raw: Seq<(Vec<u8>, Vec<u8>)>) -> Seq<EntryModel> {
    Seq::new(
        raw.len(),
        |i: int| (point_id_of(raw[i].0@)->0, decoded_record(raw[i].1@)->0),
    )
}

/// Opens the storage from the persisted (key, value) pairs, in the order the
/// backing store yields them, checking the stop flag after each one.
///
/// A key that is not a point offset, or one past what this machine can
/// address, fails with `CorruptPointId`; a value that is not a record with
/// `CorruptRecord`; a raised flag with `Cancelled`. Otherwise the records are
/// replayed as `from_records` does.
pub fn open_simple_multi_dense_vector_storage(
    records: &Vec<(Vec<u8>, Vec<u8>)>,
    dim: usize,
    distance: Distance,
    stopped: &AtomicBool,
) -> (r: Result<SimpleMultiDenseVectorStorage, OperationError>)
    ensures
        r matches Ok(s) ==> {
            &&& s.wf()
            &&& s.spec_dim() == dim
            &&& s.spec_distance() == distance
            &&& raw_decodes(records@)
            &&& recovered(
                raw_entries(records@),
                s.spec_vectors(),
                s.spec_deleted(),
            )
        },
        r == Err::<SimpleMultiDenseVectorStorage, OperationError>(OperationError::CorruptPointId)
            ==> exists|i: int|
            0 <= i < records@.len() && (point_id_of((#[trigger] records@[i]).0@) is None || (
            point_id_of(records@[i].0@)->0 as int) >= usize::MAX / 8),
        r == Err::<SimpleMultiDenseVectorStorage, OperationError>(OperationError::CorruptRecord)
            ==> exists|i: int|
            0 <= i < records@.len() && decoded_record((#[trigger] records@[i]).1@) is None,
        r matches Err(e) ==> e != OperationError::EncodingFailed,
        records@.len() == 0 ==> r is Ok,
        r == Err::<SimpleMultiDenseVectorStorage, OperationError>(OperationError::Cancelled)
            ==> records@.len() > 0,
        records@.len() > 0 && point_id_of(records@[0].0@) is None ==> r == Err::<
            SimpleMultiDenseVectorStorage,
            OperationError,
        >(OperationError::CorruptPointId),
        records@.len() > 0 && point_id_of(records@[0].0@) is Some && (point_id_of(
            records@[0].0@,
        )->0 as int) < usize::MAX / 8 && decoded_record(records@[0].1@) is None ==> r == Err::<
            SimpleMultiDenseVectorStorage,
            OperationError,
        >(OperationError::CorruptRecord),
        !raw_decodes(records@) ==> r is Err,
        raw_decodes(records@) && (forall|i: int|
            0 <= i < records@.len() ==> (point_id_of((#[trigger] records@[i]).0@)->0 as int)
                < usize::MAX / 8) ==> (r is Ok || r == Err::<
            SimpleMultiDenseVectorStorage,
            OperationError,
        >(OperationError::Cancelled)),
{
    let mut decoded: Vec<(PointOffsetType, StoredRecord)> = Vec::new();
    let mut i: usize = 0;
    while i < records.len()
        invariant
            i <= records@.len(),
            decoded@.len() == i,
            forall|j: int|
                0 <= j < i ==> point_id_of((#[trigger] records@[j]).0@) is Some && decoded_record(
                    records@[j].1@,
                ) is Some,
            forall|j: int| 0 <= j < i ==> (#[trigger] decoded@[j].0 as int) < usize::MAX / 8,
            entries_of(decoded@) =~= raw_entries(records@).take(i as int),
        decreases records@.len() - i,
    {
        let key = match decode_point_id(&records[i].0) {
            Some(k) => k,
            None => return Err(OperationError::CorruptPointId),
        };
        if key as usize >= usize::MAX / 8 {
            return Err(OperationError::CorruptPointId);
        }
        let (deleted, inner_vector, vdim) = match decode_record(&records[i].1) {
            Some(rec) => rec,
            None => return Err(OperationError::CorruptRecord),
        };
        let rec = StoredRecord { deleted, vector: MultiDenseVector::new(inner_vector, vdim) };
        decoded.push((key, rec));
        i = i + 1;
        if stopped.load(Ordering::Relaxed) {
            return Err(OperationError::Cancelled);
        }
    }
    assert(raw_entries(records@).take(records@.len() as int) =~= raw_entries(records@));
    Ok(SimpleMultiDenseVectorStorage::from_records(dim, distance, &decoded))
}

/// The deleted count is always the number of set deletion bits.
pub proof fn lemma_deleted_count_matches_bits(s: SimpleMultiDenseVectorStorage)
    requires
        s.wf(),
    ensures
        s.spec_deleted_count() == count_set(s.spec_deleted()),
{
}

/// Setting a flag twice in a row is setting it once, and setting it moves the
/// count by one at most: by one exactly when the offset holds a vector that
/// was not deleted.
pub proof fn lemma_set_deleted_twice(bits: Seq<bool>, n: nat, key: int)
    requires
        0 <= key,
    ensures
        deleted_after(deleted_after(bits, n, key, true), n, key, true) == deleted_after(
            bits,
            n,
            key,
            true,
        ),
        count_set(deleted_after(bits, n, key, true)) == count_set(bits) + if key < n && !bit_at(
            bits,
            key,
        ) {
            1int
        } else {
            0int
        },
{
    let once = deleted_after(bits, n, key, true);
    if key < n {
        lemma_count_bits_after(bits, key, true);
        assert(key < once.len());
        assert(once[key]);
        assert(deleted_after(once, n, key, true) =~= once);
    }
}

/// Replaying the same records in any order gives the same storage state:
/// the same vectors, the same deletion bits and the same count.
pub proof fn lemma_recovery_order_independent(
    es1: Seq<EntryModel>,
    es2: Seq<EntryModel>,
    s1: SimpleMultiDenseVectorStorage,
    s2: SimpleMultiDenseVectorStorage,
)
    requires
        keys_unique(es1),
        keys_unique(es2),
        same_entries(es1, es2),
        s1.wf(),
        s2.wf(),
        recovered(es1, s1.spec_vectors(), s1.spec_deleted()),
        recovered(es2, s2.spec_vectors(), s2.spec_deleted()),
    ensures
        s1.spec_vectors() == s2.spec_vectors(),
        s1.spec_deleted() == s2.spec_deleted(),
        s1.spec_deleted_count() == s2.spec_deleted_count(),
{
    lemma_recovered_same(es1, es2, s1.spec_vectors(), s1.spec_deleted(), s2.spec_vectors(), s2.spec_deleted());
}

proof fn lemma_keys_carry(es1: Seq<EntryModel>, es2: Seq<EntryModel>)
    requires
        same_entries(es1, es2),
    ensures
        forall|k: int| has_key(es1, k) ==> #[trigger] has_key(es2, k),
        forall|k: int| has_deleted_key(es1, k) ==> #[trigger] has_deleted_key(es2, k),
{
    assert forall|k: int| has_key(es1, k) implies #[trigger] has_key(es2, k) by {
        let i = choose|i: int| 0 <= i < es1.len() && #[trigger] es1[i].0 == k;
        assert(contains_entry(es2, es1[i]));
        let j = choose|j: int| 0 <= j < es2.len() && #[trigger] es2[j] == es1[i];
        assert(es2[j].0 == k);
    }
    assert forall|k: int| has_deleted_key(es1, k) implies #[trigger] has_deleted_key(es2, k) by {
        let i = choose|i: int| 0 <= i < es1.len() && #[trigger] es1[i].0 == k && es1[i].1.0;
        assert(contains_entry(es2, es1[i]));
        let j = choose|j: int| 0 <= j < es2.len() && #[trigger] es2[j] == es1[i];
        assert(es2[j].0 == k && es2[j].1.0);
    }
}

proof fn lemma_recovered_same(
    es1: Seq<EntryModel>,
    es2: Seq<EntryModel>,
    vs1: Seq<(Seq<u32>, usize)>,
    bits1: Seq<bool>,
    vs2: Seq<(Seq<u32>, usize)>,
    bits2: Seq<bool>,
)
    requires
        keys_unique(es1),
        keys_unique(es2),
        same_entries(es1, es2),
        recovered(es1, vs1, bits1),
        recovered(es2, vs2, bits2),
    ensures
        vs1 == vs2,
        bits1 == bits2,
{
    lemma_keys_carry(es1, es2);
    lemma_keys_carry(es2, es1);
    if vs1.len() > 0 {
        assert(has_key(es2, vs1.len() - 1));
    }
    if vs2.len() > 0 {
        assert(has_key(es1, vs2.len() - 1));
    }
    if bits1.len() > 0 {
        assert(has_deleted_key(es2, bits1.len() - 1));
    }
    if bits2.len() > 0 {
        assert(has_deleted_key(es1, bits2.len() - 1));
    }
    assert(vs1.len() == vs2.len());
    assert(bits1.len() == bits2.len());
    assert forall|k: int| 0 <= k < vs1.len() implies #[trigger] vs1[k] == vs2[k] by {
        if has_key(es1, k) {
            let i = choose|i: int| 0 <= i < es1.len() && #[trigger] es1[i].0 == k;
            assert(contains_entry(es2, es1[i]));
            let j = choose|j: int| 0 <= j < es2.len() && #[trigger] es2[j] == es1[i];
            assert(is_last_for_key(es1, i));
            assert(is_last_for_key(es2, j));
            assert(vs1[es1[i].0 as int] == es1[i].1.1);
            assert(vs2[es2[j].0 as int] == es2[j].1.1);
        }
    }
    assert(vs1 =~= vs2);
    assert(bits1 =~= bits2);
}

} // verus!
