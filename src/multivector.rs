use vstd::prelude::*;

verus! {

/// Dense integer identifier of a point; a direct index into the storage.
pub type PointOffsetType = u32;

/// All vectors of one point, laid out one after another.
///
/// Components are kept as the IEEE-754 bit patterns of their `f32` values:
/// the library stores and moves them, and only a metric reads them as numbers.
pub struct MultiDenseVector {
    pub inner_vector: Vec<u32>,
    pub dim: usize,
}

impl View for MultiDenseVector {
    type V = (Seq<u32>, usize);

    open spec fn view(&self) -> (Seq<u32>, usize) {
        (self.inner_vector@, self.dim)
    }
}

/// The multi-vector with no sub-vectors, held by every offset never written.
pub open spec fn empty_multivector() -> (Seq<u32>, usize) {
    (Seq::empty(), 0)
}

impl MultiDenseVector {
    /// A multi-vector from its components, `dim` of them per sub-vector.
    pub fn new(inner_vector: Vec<u32>, dim: usize) -> (r: Self)
        ensures
            r@ == (inner_vector@, dim),
    {
        MultiDenseVector { inner_vector, dim }
    }

    /// The empty multi-vector.
    pub fn empty() -> (r: Self)
        ensures
            r@ == empty_multivector(),
    {
        MultiDenseVector { inner_vector: Vec::new(), dim: 0 }
    }

    /// A copy with the same components and dimension.
    pub fn duplicate(&self) -> (r: Self)
        ensures
            r@ == self@,
    {
        let mut inner: Vec<u32> = Vec::with_capacity(self.inner_vector.len());
        let mut i: usize = 0;
        while i < self.inner_vector.len()
            invariant
                i <= self.inner_vector@.len(),
                inner@ == self.inner_vector@.subrange(0, i as int),
            decreases self.inner_vector@.len() - i,
        {
            inner.push(self.inner_vector[i]);
            i = i + 1;
            assert(inner@ =~= self.inner_vector@.subrange(0, i as int));
        }
        assert(inner@ =~= self.inner_vector@);
        MultiDenseVector { inner_vector: inner, dim: self.dim }
    }
}

} // verus!
