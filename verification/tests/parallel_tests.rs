use octaindex3d::error::Error;
use octaindex3d::ids::Index64;
use octaindex3d::performance::parallel::{should_use_parallel, ParallelBatchIndexBuilder, ParallelBatchNeighborCalculator};

#[test]
fn test_should_use_parallel() {
    assert!(!should_use_parallel(10));
    assert!(!should_use_parallel(100));
    assert!(should_use_parallel(1000));
    assert!(should_use_parallel(10000));
}

#[test]
fn parallel_threshold_is_inclusive() {
    assert!(!should_use_parallel(499));
    assert!(should_use_parallel(500));
}

#[test]
fn gather_keeps_order_and_positions() {
    let a = Index64::new(0, 0, 5, 1, 2, 3).unwrap();
    let b = Index64::new(0, 0, 5, 4, 5, 6).unwrap();
    let results = vec![Ok(a), Index64::new(0, 9, 0, 0, 0, 0), Ok(b), Index64::new(0, 0, 99, 0, 0, 0)];
    let out = ParallelBatchIndexBuilder::gather(results);
    assert_eq!(out.items, vec![a, b]);
    assert_eq!(out.errors.len(), 2);
    assert_eq!(out.errors[0].0, 1);
    assert!(matches!(out.errors[0].1, Error::InvalidScaleTier(_)));
    assert_eq!(out.errors[1].0, 3);
    assert!(matches!(out.errors[1].1, Error::InvalidLOD(_)));
}

#[test]
fn chunk_sizes() {
    assert_eq!(ParallelBatchIndexBuilder::new().get_chunk_size(), 1024);
    assert_eq!(ParallelBatchIndexBuilder::default().with_chunk_size(64).get_chunk_size(), 64);
    assert_eq!(ParallelBatchNeighborCalculator::new().get_chunk_size(), 256);
    assert_eq!(ParallelBatchNeighborCalculator::default().with_chunk_size(8).get_chunk_size(), 8);
}
