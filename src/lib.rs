//! Multi-vector storage and query scoring.
//!
//! A point is held as a multi-vector: several dense vectors of one dimension.
//! `storage` keeps them by point offset with soft deletion and recovers them
//! from persisted records; `scorer` folds a query's examples against them.

pub mod bits;
pub mod record;
pub mod multivector;
pub mod scorer;
pub mod storage;

pub use multivector::{MultiDenseVector, PointOffsetType};
pub use scorer::{CustomQueryScorer, Metric, Query, ScoreError};
pub use storage::{
    open_simple_multi_dense_vector_storage, Distance, OperationError,
    SimpleMultiDenseVectorStorage, StoredRecord,
};
