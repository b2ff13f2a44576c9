use bitvec::vec::BitVec;

use vstd::prelude::*;

verus! {

/// A growable bit-vector of bitvec, held opaque: Verus refuses to declare
/// `BitVec` itself, its type parameters being bound by bitvec's traits.
#[verifier::external_body]
pub struct DeletedBits {
    bits: BitVec,
}

/// The bits that a `BitVec` holds, in index order.
pub uninterp spec fn bits_of(b: DeletedBits) -> Seq<bool>;

/// Number of set bits.
pub open spec fn count_set(bits: Seq<bool>) -> nat
    decreases bits.len(),
{
    if bits.len() == 0 {
        0
    } else {
        count_set(bits.drop_last()) + if bits.last() {
            1nat
        } else {
            0nat
        }
    }
}

/// Whether bit `k` is set; bits past the end read as clear.
pub open spec fn bit_at(bits: Seq<bool>, k: int) -> bool {
    0 <= k < bits.len() && bits[k]
}

/// `bits` grown with clear bits to length `n`.
pub open spec fn grown(bits: Seq<bool>, n: nat) -> Seq<bool> {
    bits + Seq::new((n - bits.len()) as nat, |_i: int| false)
}

pub proof fn lemma_count_le_len(bits: Seq<bool>)
    ensures
        count_set(bits) <= bits.len(),
    decreases bits.len(),
{
    if bits.len() > 0 {
        lemma_count_le_len(bits.drop_last());
    }
}

pub proof fn lemma_count_update(bits: Seq<bool>, i: int, v: bool)
    requires
        0 <= i < bits.len(),
    ensures
        count_set(bits.update(i, v)) + (if bits[i] { 1int } else { 0int }) == count_set(bits) + (
        if v {
            1int
        } else {
            0int
        }),
    decreases bits.len(),
{
    let u = bits.update(i, v);
    if i == bits.len() - 1 {
        assert(u.drop_last() =~= bits.drop_last());
    } else {
        assert(u.drop_last() =~= bits.drop_last().update(i, v));
        lemma_count_update(bits.drop_last(), i, v);
    }
}

pub proof fn lemma_count_grown(bits: Seq<bool>, n: nat)
    requires
        bits.len() <= n,
    ensures
        count_set(grown(bits, n)) == count_set(bits),
    decreases n,
{
    if n > bits.len() {
        assert(grown(bits, n).drop_last() =~= grown(bits, (n - 1) as nat));
        lemma_count_grown(bits, (n - 1) as nat);
    } else {
        assert(grown(bits, n) =~= bits);
    }
}

/// Relies on bitvec's `BitVec::new`: an empty bit-vector.
#[verifier::external_body]
pub(crate) fn bitvec_new() -> (r: DeletedBits)
    ensures
        bits_of(r) == Seq::<bool>::empty(),
{
    DeletedBits { bits: BitVec::new() }
}

/// Relies on bitvec's `BitVec::len`: the number of bits held.
#[verifier::external_body]
pub(crate) fn bitvec_len(b: &DeletedBits) -> (r: usize)
    ensures
        r == bits_of(*b).len(),
{
    b.bits.len()
}

/// Relies on bitvec's `BitSlice::replace`: writes bit `index` and returns
/// its previous value; it panics past the end, which `requires` rules out.
#[verifier::external_body]
pub(crate) fn bitvec_replace(b: &mut DeletedBits, index: usize, value: bool) -> (r: bool)
    requires
        index < bits_of(*old(b)).len(),
    ensures
        r == bits_of(*old(b))[index as int],
        bits_of(*final(b)) == bits_of(*old(b)).update(index as int, value),
{
    b.bits.replace(index, value)
}

/// Relies on bitvec's `BitVec::resize`, used here only to grow: the new bits
/// are clear. It panics past the largest length a bit-span can encode,
/// `usize::MAX >> 3`, which `requires` rules out.
#[verifier::external_body]
pub(crate) fn bitvec_grow(b: &mut DeletedBits, new_len: usize)
    requires
        bits_of(*old(b)).len() <= new_len <= usize::MAX / 8,
    ensures
        bits_of(*final(b)) == grown(bits_of(*old(b)), new_len as nat),
{
    b.bits.resize(new_len, false)
}

/// Relies on `Index<usize>` of bitvec's `BitSlice`: the bit at `index`.
#[verifier::external_body]
pub(crate) fn bitvec_get(b: &DeletedBits, index: usize) -> (r: bool)
    requires
        index < bits_of(*b).len(),
    ensures
        r == bits_of(*b)[index as int],
{
    b.bits[index]
}

} // verus!
