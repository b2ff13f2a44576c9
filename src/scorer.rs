use std::marker::PhantomData;

use vstd::prelude::*;

use crate::multivector::{MultiDenseVector, PointOffsetType};
use crate::storage::SimpleMultiDenseVectorStorage;

verus! {

/// A distance function over multi-vectors, with the preprocessing it applies
/// to query vectors.
///
/// The spec functions of this trait and of `Query` carry placeholder default
/// bodies so that implementations written in plain Rust compile without
/// them; code generic over the trait sees each one as the implementation's
/// own, unknown function.
pub trait Metric {
    type Score;

    /// What `preprocess` makes of a multi-vector.
    closed spec fn spec_preprocess(v: (Seq<u32>, usize)) -> (Seq<u32>, usize) {
        arbitrary()
    }

    /// What `score_multivector` gives for a query side and a stored side.
    closed spec fn spec_score_multivector(
        query: (Seq<u32>, usize),
        stored: (Seq<u32>, usize),
    ) -> Self::Score {
        arbitrary()
    }

    /// The score of any query side against an empty stored side.
    closed spec fn spec_neutral() -> Self::Score {
        arbitrary()
    }

    fn preprocess(v: &MultiDenseVector) -> (r: MultiDenseVector)
        ensures
            r@ == Self::spec_preprocess(v@),
    ;

    /// Aggregates the pairwise scores of two multi-vectors into one; total,
    /// and neutral on an empty stored side.
    fn score_multivector(query: &MultiDenseVector, stored: &MultiDenseVector) -> (r: Self::Score)
        ensures
            r == Self::spec_score_multivector(query@, stored@),
            stored@.0.len() == 0 ==> r == Self::spec_neutral(),
    ;
}

/// A query made of example multi-vectors and a policy that folds their
/// scores into one.
pub trait Query<S>: Sized {
    /// The examples, in order.
    closed spec fn spec_examples(&self) -> Seq<(Seq<u32>, usize)> {
        arbitrary()
    }

    /// The policy: one score per example, in example order, folded into one.
    closed spec fn spec_fold(&self, scores: Seq<S>) -> S {
        arbitrary()
    }

    fn examples(&self) -> (r: &Vec<MultiDenseVector>)
        ensures
            r@.len() == self.spec_examples().len(),
            forall|i: int| 0 <= i < r@.len() ==> #[trigger] r@[i]@ == self.spec_examples()[i],
    ;

    /// The same query with its examples replaced, one for one.
    fn with_examples(self, examples: Vec<MultiDenseVector>) -> (r: Self)
        requires
            examples@.len() == self.spec_examples().len(),
        ensures
            r.spec_examples().len() == examples@.len(),
            forall|i: int|
                0 <= i < examples@.len() ==> #[trigger] r.spec_examples()[i] == examples@[i]@,
            forall|scores: Seq<S>| #[trigger] r.spec_fold(scores) == self.spec_fold(scores),
    ;

    fn fold(&self, scores: Vec<S>) -> (r: S)
        requires
            scores@.len() == self.spec_examples().len(),
        ensures
            r == self.spec_fold(scores@),
    ;
}

/// Raised by a scoring entry point that this scorer deliberately lacks.
pub enum ScoreError {
    /// Comparing two stored points: a query of several examples has no single
    /// stored point on its own side.
    Unsupported,
}

/// What a query gives against one stored multi-vector: each example scored by
/// the metric, then folded by the query's policy.
pub open spec fn spec_query_score<M: Metric, Q: Query<M::Score>>(
    query: Q,
    against: (Seq<u32>, usize),
) -> M::Score {
    query.spec_fold(
        Seq::new(
            query.spec_examples().len(),
            |i: int| M::spec_score_multivector(query.spec_examples()[i], against),
        ),
    )
}

/// The query folded over the neutral score, once per example: what it gives
/// against an empty multi-vector.
pub open spec fn spec_neutral_fold<M: Metric, Q: Query<M::Score>>(query: Q) -> M::Score {
    query.spec_fold(Seq::new(query.spec_examples().len(), |_i: int| M::spec_neutral()))
}

/// Scores stored multi-vectors against a query of several examples.
pub struct CustomQueryScorer<'a, M: Metric, Q: Query<M::Score>> {
    vector_storage: &'a SimpleMultiDenseVectorStorage,
    query: Q,
    metric: PhantomData<M>,
}

impl<'a, M: Metric, Q: Query<M::Score>> CustomQueryScorer<'a, M, Q> {
    /// The query, with its examples preprocessed.
    pub closed spec fn spec_query(&self) -> Q {
        self.query
    }

    /// The storage scored against.
    pub closed spec fn spec_storage(&self) -> &'a SimpleMultiDenseVectorStorage {
        self.vector_storage
    }

    /// Binds a query to a storage; every example is preprocessed once here, in
    /// order, and none is dropped.
    pub fn new(query: Q, vector_storage: &'a SimpleMultiDenseVectorStorage) -> (r: Self)
        ensures
            r.spec_storage() == vector_storage,
            r.spec_query().spec_examples().len() == query.spec_examples().len(),
            forall|i: int|
                0 <= i < query.spec_examples().len() ==> #[trigger] r.spec_query().spec_examples()[i]
                    == M::spec_preprocess(query.spec_examples()[i]),
            forall|scores: Seq<M::Score>| #[trigger]
                r.spec_query().spec_fold(scores) == query.spec_fold(scores),
    {
        let examples = query.examples();
        let n = examples.len();
        let mut processed: Vec<MultiDenseVector> = Vec::with_capacity(n);
        let mut i: usize = 0;
        while i < n
            invariant
                n == examples@.len(),
                n == query.spec_examples().len(),
                forall|j: int| 0 <= j < n ==> #[trigger] examples@[j]@ == query.spec_examples()[j],
                i <= n,
                processed@.len() == i,
                forall|j: int|
                    0 <= j < i ==> #[trigger] processed@[j]@ == M::spec_preprocess(
                        query.spec_examples()[j],
                    ),
            decreases n - i,
        {
            let v = M::preprocess(&examples[i]);
            processed.push(v);
            i = i + 1;
        }
        let query = query.with_examples(processed);
        CustomQueryScorer { vector_storage, query, metric: PhantomData }
    }

    /// Scores the multi-vector stored at `idx`. Deleted points are not
    /// filtered here: that is the caller's part.
    pub fn score_stored(&self, idx: PointOffsetType) -> (r: M::Score)
        requires
            (idx as int) < self.spec_storage().spec_vectors().len(),
        ensures
            r == spec_query_score::<M, Q>(
                self.spec_query(),
                self.spec_storage().spec_vectors()[idx as int],
            ),
            self.spec_storage().spec_vectors()[idx as int].0.len() == 0 ==> r
                == spec_neutral_fold::<M, Q>(self.spec_query()),
    {
        let stored = self.vector_storage.get_multi(idx);
        self.score(stored)
    }

    /// Scores a multi-vector given directly.
    pub fn score(&self, against: &MultiDenseVector) -> (r: M::Score)
        ensures
            r == spec_query_score::<M, Q>(self.spec_query(), against@),
            against@.0.len() == 0 ==> r == spec_neutral_fold::<M, Q>(self.spec_query()),
    {
        let examples = self.query.examples();
        let n = examples.len();
        let mut scores: Vec<M::Score> = Vec::with_capacity(n);
        let mut i: usize = 0;
        while i < n
            invariant
                n == examples@.len(),
                n == self.query.spec_examples().len(),
                forall|j: int|
                    0 <= j < n ==> #[trigger] examples@[j]@ == self.query.spec_examples()[j],
                i <= n,
                scores@.len() == i,
                forall|j: int|
                    0 <= j < i ==> #[trigger] scores@[j] == M::spec_score_multivector(
                        self.query.spec_examples()[j],
                        against@,
                    ),
                against@.0.len() == 0 ==> forall|j: int|
                    0 <= j < i ==> #[trigger] scores@[j] == M::spec_neutral(),
            decreases n - i,
        {
            let s = M::score_multivector(&examples[i], against);
            scores.push(s);
            i = i + 1;
        }
        assert(scores@ =~= Seq::new(
            n as nat,
            |j: int| M::spec_score_multivector(self.query.spec_examples()[j], against@),
        ));
        if against.inner_vector.len() == 0 {
            assert(scores@ =~= Seq::new(n as nat, |_j: int| M::spec_neutral()));
        }
        self.query.fold(scores)
    }

    /// Comparing two stored points is not offered by this scorer: it always
    /// reports `Unsupported`, never a score.
    pub fn score_internal(&self, _point_a: PointOffsetType, _point_b: PointOffsetType) -> (r: Result<
        M::Score,
        ScoreError,
    >)
        ensures
            r == Err::<M::Score, ScoreError>(ScoreError::Unsupported),
    {
        Err(ScoreError::Unsupported)
    }
}

} // verus!
