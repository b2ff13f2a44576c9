use std::sync::atomic::AtomicBool;

use multivec_storage::{
    open_simple_multi_dense_vector_storage, CustomQueryScorer, Distance, Metric, MultiDenseVector,
    Query, ScoreError,
};

fn mv(values: &[f32], dim: usize) -> MultiDenseVector {
    MultiDenseVector::new(values.iter().map(|x| x.to_bits()).collect(), dim)
}

fn floats(v: &MultiDenseVector) -> Vec<f32> {
    v.inner_vector.iter().map(|b| f32::from_bits(*b)).collect()
}

/// Dot product; preprocessing doubles every component.
struct DoubledDot;

impl Metric for DoubledDot {
    type Score = f32;

    fn preprocess(v: &MultiDenseVector) -> MultiDenseVector {
        let doubled: Vec<f32> = floats(v).iter().map(|x| x * 2.0).collect();
        mv(&doubled, v.dim)
    }

    /// Sum over query sub-vectors of the best dot product with a stored one.
    fn score_multivector(query: &MultiDenseVector, stored: &MultiDenseVector) -> f32 {
        let q = floats(query);
        let s = floats(stored);
        if s.is_empty() || stored.dim == 0 || query.dim == 0 {
            return 0.0;
        }
        let mut total = 0.0;
        for qv in q.chunks(query.dim) {
            let mut best = f32::NEG_INFINITY;
            for sv in s.chunks(stored.dim) {
                let d: f32 = qv.iter().zip(sv.iter()).map(|(a, b)| a * b).sum();
                best = best.max(d);
            }
            total += best;
        }
        total
    }
}

/// The best score over the examples.
struct MaxOfExamples {
    examples: Vec<MultiDenseVector>,
}

impl Query<f32> for MaxOfExamples {
    fn examples(&self) -> &Vec<MultiDenseVector> {
        &self.examples
    }

    fn with_examples(self, examples: Vec<MultiDenseVector>) -> Self {
        MaxOfExamples { examples }
    }

    fn fold(&self, scores: Vec<f32>) -> f32 {
        scores.into_iter().fold(f32::NEG_INFINITY, f32::max)
    }
}

fn storage_with(v: &MultiDenseVector) -> multivec_storage::SimpleMultiDenseVectorStorage {
    let flag = AtomicBool::new(false);
    let empty = open_simple_multi_dense_vector_storage(&vec![], 2, Distance::Dot, &flag).unwrap();
    let written = empty.update_stored(0, false, Some(v)).unwrap();
    open_simple_multi_dense_vector_storage(&vec![written], 2, Distance::Dot, &flag).unwrap()
}

#[test]
fn stored_score_is_max_over_examples() {
    let q1 = mv(&[1.0, 0.0], 2);
    let q2 = mv(&[0.0, 1.0, 1.0, 1.0], 2);
    let s = mv(&[3.0, 1.0, 0.5, 4.0], 2);
    let storage = storage_with(&s);
    let expected = DoubledDot::score_multivector(&DoubledDot::preprocess(&q1), &s)
        .max(DoubledDot::score_multivector(&DoubledDot::preprocess(&q2), &s));
    let scorer: CustomQueryScorer<DoubledDot, MaxOfExamples> =
        CustomQueryScorer::new(MaxOfExamples { examples: vec![q1, q2] }, &storage);
    // q1 doubled: best of 6, 1 -> 6; q2 doubled: (2, 8) + (6, 9) -> 8 + 9 = 17
    assert_eq!(scorer.score_stored(0), 17.0);
    assert_eq!(scorer.score_stored(0), expected);
    assert_eq!(scorer.score(&s), 17.0);
}

#[test]
fn direct_score_uses_given_vector() {
    let storage = storage_with(&mv(&[1.0, 1.0], 2));
    let scorer: CustomQueryScorer<DoubledDot, MaxOfExamples> =
        CustomQueryScorer::new(MaxOfExamples { examples: vec![mv(&[1.0, 2.0], 2)] }, &storage);
    assert_eq!(scorer.score(&mv(&[3.0, 0.5], 2)), 8.0);
    assert_eq!(scorer.score_stored(0), 6.0);
}

#[test]
fn empty_stored_side_scores_neutral() {
    let q = mv(&[1.0, 2.0], 2);
    assert_eq!(DoubledDot::score_multivector(&q, &MultiDenseVector::empty()), 0.0);
    let storage = storage_with(&MultiDenseVector::empty());
    let scorer: CustomQueryScorer<DoubledDot, MaxOfExamples> =
        CustomQueryScorer::new(MaxOfExamples { examples: vec![q] }, &storage);
    assert_eq!(scorer.score_stored(0), 0.0);
}

#[test]
fn pairwise_stored_scoring_is_unsupported() {
    let storage = storage_with(&mv(&[1.0, 1.0], 2));
    let scorer: CustomQueryScorer<DoubledDot, MaxOfExamples> =
        CustomQueryScorer::new(MaxOfExamples { examples: vec![mv(&[1.0, 2.0], 2)] }, &storage);
    assert!(matches!(scorer.score_internal(0, 0), Err(ScoreError::Unsupported)));
    assert!(matches!(scorer.score_internal(0, 7), Err(ScoreError::Unsupported)));
}

#[test]
fn empty_direct_vector_scores_neutral() {
    let storage = storage_with(&mv(&[1.0, 1.0], 2));
    let scorer: CustomQueryScorer<DoubledDot, MaxOfExamples> = CustomQueryScorer::new(
        MaxOfExamples { examples: vec![mv(&[1.0, 2.0], 2), mv(&[3.0, 4.0], 2)] },
        &storage,
    );
    assert_eq!(scorer.score(&MultiDenseVector::empty()), 0.0);
}
