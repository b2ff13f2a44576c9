use std::sync::atomic::AtomicBool;

use multivec_storage::{
    open_simple_multi_dense_vector_storage, Distance, MultiDenseVector, OperationError,
    SimpleMultiDenseVectorStorage,
};

fn bits(values: &[f32]) -> Vec<u32> {
    values.iter().map(|x| x.to_bits()).collect()
}

fn three_by_four() -> MultiDenseVector {
    MultiDenseVector::new(
        bits(&[1.0, 2.0, 3.0, 4.0, 5.0, 6.0, 7.0, 8.0, 9.0, 10.0, 11.0, 12.0]),
        4,
    )
}

fn two_by_two() -> MultiDenseVector {
    MultiDenseVector::new(bits(&[0.5, -1.5, 2.25, 8.0]), 2)
}

fn open(records: &Vec<(Vec<u8>, Vec<u8>)>) -> SimpleMultiDenseVectorStorage {
    open_simple_multi_dense_vector_storage(records, 4, Distance::Dot, &AtomicBool::new(false))
        .unwrap()
}

fn record(storage: &SimpleMultiDenseVectorStorage, key: u32, deleted: bool, v: &MultiDenseVector) -> (Vec<u8>, Vec<u8>) {
    storage.update_stored(key, deleted, Some(v)).unwrap()
}

fn same_vector(a: &MultiDenseVector, b: &MultiDenseVector) -> bool {
    a.inner_vector == b.inner_vector && a.dim == b.dim
}

#[test]
fn reopen_restores_written_point() {
    let empty = open(&vec![]);
    assert_eq!(empty.total_vector_count(), 0);
    assert_eq!(empty.deleted_count(), 0);
    let v = three_by_four();
    let written = empty.update_stored(5, false, Some(&v)).unwrap();
    let reopened = open(&vec![written]);
    assert_eq!(reopened.total_vector_count(), 6);
    assert!(same_vector(reopened.get_multi(5), &v));
    assert!(!reopened.is_deleted(5));
    assert_eq!(reopened.deleted_count(), 0);
    for k in 0..5 {
        assert!(same_vector(reopened.get_multi(k), &MultiDenseVector::empty()));
        assert!(!reopened.is_deleted(k));
    }
    assert_eq!(reopened.dim(), 4);
    assert_eq!(reopened.distance(), Distance::Dot);
}

#[test]
fn delete_without_vector_keeps_stored_vector() {
    let v2 = two_by_two();
    let base = open(&vec![]);
    let storage = open(&vec![record(&base, 7, false, &v2)]);
    assert!(same_vector(storage.get_multi(7), &v2));
    let written = storage.update_stored(7, true, None).unwrap();
    let reopened = open(&vec![written]);
    assert!(same_vector(reopened.get_multi(7), &v2));
    assert!(reopened.is_deleted(7));
    assert_eq!(reopened.deleted_count(), 1);
}

#[test]
fn update_past_end_writes_empty_vector() {
    let storage = open(&vec![]);
    let written = storage.update_stored(3, true, None).unwrap();
    let reopened = open(&vec![written]);
    assert_eq!(reopened.total_vector_count(), 4);
    assert!(same_vector(reopened.get_multi(3), &MultiDenseVector::empty()));
    assert!(reopened.is_deleted(3));
}

#[test]
fn key_bytes_are_little_endian_offset() {
    let storage = open(&vec![]);
    let (key, _) = storage.update_stored(0x0102_0304, false, Some(&two_by_two())).unwrap();
    assert_eq!(key, vec![4u8, 3, 2, 1]);
}

#[test]
fn unknown_offset_deletion_is_noop() {
    let base = open(&vec![]);
    let mut storage = open(&vec![record(&base, 2, false, &two_by_two())]);
    assert!(!storage.set_deleted(3, true));
    assert!(!storage.set_deleted(100, true));
    assert_eq!(storage.deleted_count(), 0);
    assert!(!storage.is_deleted(100));
}

#[test]
fn deleting_twice_counts_once() {
    let base = open(&vec![]);
    let mut storage = open(&vec![
        record(&base, 0, false, &two_by_two()),
        record(&base, 4, false, &three_by_four()),
    ]);
    assert!(!storage.set_deleted(2, true));
    assert_eq!(storage.deleted_count(), 1);
    assert!(storage.set_deleted(2, true));
    assert_eq!(storage.deleted_count(), 1);
    assert!(!storage.set_deleted(4, true));
    assert_eq!(storage.deleted_count(), 2);
    assert!(storage.set_deleted(2, false));
    assert_eq!(storage.deleted_count(), 1);
    assert!(!storage.set_deleted(2, false));
    assert_eq!(storage.deleted_count(), 1);
    assert!(storage.is_deleted(4));
    assert!(!storage.is_deleted(2));
}

#[test]
fn recovery_ignores_record_order() {
    let base = open(&vec![]);
    let a = record(&base, 1, true, &two_by_two());
    let b = record(&base, 6, false, &three_by_four());
    let c = record(&base, 3, true, &three_by_four());
    let first = open(&vec![a.clone(), b.clone(), c.clone()]);
    let second = open(&vec![c, a, b]);
    assert_eq!(first.total_vector_count(), 7);
    assert_eq!(second.total_vector_count(), 7);
    assert_eq!(first.deleted_count(), 2);
    assert_eq!(second.deleted_count(), 2);
    for k in 0..7 {
        assert!(same_vector(first.get_multi(k), second.get_multi(k)));
        assert_eq!(first.is_deleted(k), second.is_deleted(k));
    }
    assert!(first.is_deleted(1) && first.is_deleted(3) && !first.is_deleted(6));
}

#[test]
fn corrupt_key_fails_open() {
    let base = open(&vec![]);
    let (_, value) = record(&base, 1, false, &two_by_two());
    let r = open_simple_multi_dense_vector_storage(
        &vec![(vec![1u8, 0], value)],
        4,
        Distance::Cosine,
        &AtomicBool::new(false),
    );
    assert_eq!(r.err(), Some(OperationError::CorruptPointId));
}

#[test]
fn corrupt_record_fails_open() {
    let base = open(&vec![]);
    let (key, mut value) = record(&base, 1, false, &two_by_two());
    value[0] = 2;
    let r = open_simple_multi_dense_vector_storage(
        &vec![(key.clone(), value)],
        4,
        Distance::Cosine,
        &AtomicBool::new(false),
    );
    assert_eq!(r.err(), Some(OperationError::CorruptRecord));
    let r = open_simple_multi_dense_vector_storage(
        &vec![(key, vec![0u8, 1])],
        4,
        Distance::Cosine,
        &AtomicBool::new(false),
    );
    assert_eq!(r.err(), Some(OperationError::CorruptRecord));
}

#[test]
fn raised_stop_flag_cancels_open() {
    let base = open(&vec![]);
    let written = record(&base, 1, false, &two_by_two());
    let r = open_simple_multi_dense_vector_storage(
        &vec![written],
        4,
        Distance::Euclid,
        &AtomicBool::new(true),
    );
    assert_eq!(r.err(), Some(OperationError::Cancelled));
    let r = open_simple_multi_dense_vector_storage(&vec![], 4, Distance::Euclid, &AtomicBool::new(true));
    assert!(r.is_ok());
}

#[test]
fn repeated_offset_keeps_last_vector_and_any_deletion() {
    let base = open(&vec![]);
    let first = record(&base, 2, true, &two_by_two());
    let second = record(&base, 2, false, &three_by_four());
    let (key, value) = second;
    let mut longer_key = key.clone();
    longer_key.push(9);
    let storage = open(&vec![first, (longer_key, value)]);
    assert_eq!(storage.total_vector_count(), 3);
    assert!(same_vector(storage.get_multi(2), &three_by_four()));
    assert!(storage.is_deleted(2));
    assert_eq!(storage.deleted_count(), 1);
}
