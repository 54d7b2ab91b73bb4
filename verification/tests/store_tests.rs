use hilbert_store::codec::HilbertCodec;
use hilbert_store::errors::StoreError;
use hilbert_store::pipeline::ExecutionStrategy;
use hilbert_store::point::Point;
use hilbert_store::record_file::MappedRecordFile;
use hilbert_store::store::SpatialPointStore;

#[test]
fn smallest_key_comes_first() {
    // keys computed by the codec; rank 0 must hold the smallest of the
    // three, whatever the input order
    let codec = HilbertCodec::full_width();
    let coords = vec![(0u32, 0u32), (3, 1), (1, 2)];
    let mut keys: Vec<u64> = coords
        .iter()
        .map(|&(x, y)| codec.encode(x, y).unwrap())
        .collect();
    assert_eq!(keys[0], 0);
    let store = SpatialPointStore::build(&coords, ExecutionStrategy::Serial).unwrap();
    keys.sort();
    let first = store.get_by_rank(0).unwrap();
    assert_eq!(first.key, keys[0]);

    let shuffled = vec![(1u32, 2u32), (0, 0), (3, 1)];
    let store2 = SpatialPointStore::build(&shuffled, ExecutionStrategy::Serial).unwrap();
    assert_eq!(store2.get_by_rank(0).unwrap().key, keys[0]);
}

#[test]
fn store_of_decoded_points_reads_back_exactly() {
    // capacity 100, slot i written with key i and (x, y) = decode(i),
    // read back unchanged
    let codec = HilbertCodec::full_width();
    let mut file = MappedRecordFile::create(100).unwrap();
    for i in 0..100u64 {
        let (x, y) = codec.decode(i);
        file.set(i as usize, Point { key: i, x, y }).unwrap();
    }
    for i in 0..100u64 {
        let (x, y) = codec.decode(i);
        assert_eq!(file.get(i as usize).unwrap(), Point { key: i, x, y });
    }
}

#[test]
fn built_store_ranks_decoded_points_by_key() {
    let codec = HilbertCodec::full_width();
    let coords: Vec<(u32, u32)> = (0..100u64).map(|i| codec.decode(i)).collect();
    let store = SpatialPointStore::build(&coords, ExecutionStrategy::Serial).unwrap();
    assert_eq!(store.len(), 100);
    for i in 0..100u64 {
        let (x, y) = codec.decode(i);
        let p = store.get_by_rank(i as usize).unwrap();
        assert_eq!(p, Point { key: i, x, y });
    }
}

#[test]
fn ranks_ascend_by_key() {
    let coords: Vec<(u32, u32)> = vec![(9, 9), (0, 1), (100, 3), (5, 5), (0, 0), (7, 123)];
    let store = SpatialPointStore::build(&coords, ExecutionStrategy::Serial).unwrap();
    let out = store.to_vec();
    for w in out.windows(2) {
        assert!(w[0].key <= w[1].key);
    }
}

#[test]
fn get_by_rank_past_end_fails() {
    let coords = vec![(1u32, 1u32)];
    let store = SpatialPointStore::build(&coords, ExecutionStrategy::Serial).unwrap();
    assert_eq!(store.get_by_rank(1).unwrap_err(), StoreError::OutOfBounds);
}

#[test]
fn empty_store_is_valid() {
    let coords: Vec<(u32, u32)> = Vec::new();
    let store = SpatialPointStore::build(&coords, ExecutionStrategy::Serial).unwrap();
    assert_eq!(store.len(), 0);
    assert_eq!(store.get_by_rank(0).unwrap_err(), StoreError::OutOfBounds);
    assert_eq!(store.nearest_rank_range(0, u64::MAX), (0, 0));
}

#[test]
fn nearest_rank_range_finds_key_window() {
    let codec = HilbertCodec::full_width();
    let coords: Vec<(u32, u32)> = (0..100u64).map(|i| codec.decode(i)).collect();
    let store = SpatialPointStore::build(&coords, ExecutionStrategy::Serial).unwrap();
    // keys are exactly 0..100 in rank order
    assert_eq!(store.nearest_rank_range(50, 3), (47, 54));
    assert_eq!(store.nearest_rank_range(0, 2), (0, 3));
    assert_eq!(store.nearest_rank_range(99, 5), (94, 100));
    assert_eq!(store.nearest_rank_range(200, 10), (100, 100));
    assert_eq!(store.nearest_rank_range(60, 0), (60, 61));
}

#[test]
fn store_strategies_agree() {
    let coords: Vec<(u32, u32)> = (0..50u32).map(|i| (i * 7 % 31, i * 13 % 29)).collect();
    let s1 = SpatialPointStore::build(&coords, ExecutionStrategy::Serial).unwrap();
    let s2 = SpatialPointStore::build(
        &coords,
        ExecutionStrategy::Partitioned { workers: 4 },
    )
    .unwrap();
    assert_eq!(s1.to_vec(), s2.to_vec());
    assert_eq!(s1.to_bytes(), s2.to_bytes());
}

#[test]
fn open_region_round_trips_a_written_store() {
    let coords = vec![(4u32, 4u32), (0, 0), (9, 1)];
    let store = SpatialPointStore::build(&coords, ExecutionStrategy::Serial).unwrap();
    let bytes = store.to_bytes();
    let mut region = memmap2::MmapMut::map_anon(bytes.len()).unwrap();
    region[..].copy_from_slice(&bytes);
    let reopened = SpatialPointStore::open_region(region).unwrap();
    assert_eq!(reopened.to_vec(), store.to_vec());
    assert_eq!(reopened.to_bytes(), bytes);
}

#[test]
fn open_region_rejects_unsorted_records() {
    let mut file = MappedRecordFile::create(2).unwrap();
    file.set(0, Point { key: 5, x: 0, y: 0 }).unwrap();
    file.set(1, Point { key: 1, x: 0, y: 0 }).unwrap();
    let bytes = file.to_bytes();
    let mut region = memmap2::MmapMut::map_anon(bytes.len()).unwrap();
    region[..].copy_from_slice(&bytes);
    assert!(matches!(
        SpatialPointStore::open_region(region),
        Err(StoreError::Format)
    ));
}

#[test]
fn open_region_rejects_misaligned_length() {
    let region = memmap2::MmapMut::map_anon(17).unwrap();
    assert!(matches!(
        SpatialPointStore::open_region(region),
        Err(StoreError::Format)
    ));
}

#[test]
fn store_flush_succeeds() {
    let coords = vec![(1u32, 2u32), (3, 4)];
    let store = SpatialPointStore::build(&coords, ExecutionStrategy::Serial).unwrap();
    assert_eq!(store.flush(), Ok(()));
}
