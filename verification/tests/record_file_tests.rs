use hilbert_store::errors::StoreError;
use hilbert_store::point::Point;
use hilbert_store::record_file::MappedRecordFile;

#[test]
fn zero_capacity_file_is_valid_and_empty() {
    let file = MappedRecordFile::create(0).unwrap();
    assert_eq!(file.capacity(), 0);
    assert_eq!(file.to_bytes().len(), 0);
    assert_eq!(file.get(0), Err(StoreError::OutOfBounds));
    let mut file = file;
    assert_eq!(
        file.set(0, Point { key: 1, x: 2, y: 3 }),
        Err(StoreError::OutOfBounds)
    );
}

#[test]
fn fresh_file_holds_zero_records() {
    let file = MappedRecordFile::create(4).unwrap();
    assert_eq!(file.capacity(), 4);
    for i in 0..4 {
        assert_eq!(file.get(i).unwrap(), Point { key: 0, x: 0, y: 0 });
    }
    assert_eq!(file.to_bytes(), vec![0u8; 64]);
}

#[test]
fn set_then_get_round_trip() {
    let mut file = MappedRecordFile::create(3).unwrap();
    let p = Point { key: 42, x: 7, y: 9 };
    file.set(1, p).unwrap();
    assert_eq!(file.get(1).unwrap(), p);
    // the other slots are untouched
    assert_eq!(file.get(0).unwrap(), Point { key: 0, x: 0, y: 0 });
    assert_eq!(file.get(2).unwrap(), Point { key: 0, x: 0, y: 0 });
}

#[test]
fn get_and_set_past_capacity_fail() {
    let mut file = MappedRecordFile::create(2).unwrap();
    assert_eq!(file.get(2), Err(StoreError::OutOfBounds));
    assert_eq!(file.get(usize::MAX), Err(StoreError::OutOfBounds));
    assert_eq!(
        file.set(2, Point { key: 0, x: 0, y: 0 }),
        Err(StoreError::OutOfBounds)
    );
}

#[test]
fn on_disk_layout_is_little_endian_key_x_y() {
    let mut file = MappedRecordFile::create(1).unwrap();
    let p = Point {
        key: 0x0102_0304_0506_0708,
        x: 0x0A0B_0C0D,
        y: 0x0E0F_1011,
    };
    file.set(0, p).unwrap();
    let bytes = file.to_bytes();
    assert_eq!(
        bytes,
        vec![
            0x08, 0x07, 0x06, 0x05, 0x04, 0x03, 0x02, 0x01, // key
            0x0D, 0x0C, 0x0B, 0x0A, // x
            0x11, 0x10, 0x0F, 0x0E, // y
        ]
    );
}

#[test]
fn oversized_capacity_fails_with_io() {
    assert!(matches!(
        MappedRecordFile::create(usize::MAX),
        Err(StoreError::Io)
    ));
}

#[test]
fn from_region_rejects_misaligned_length() {
    let region = memmap2::MmapMut::map_anon(10).unwrap();
    assert!(matches!(
        MappedRecordFile::from_region(region),
        Err(StoreError::Format)
    ));
}

#[test]
fn from_region_accepts_stride_multiple() {
    let region = memmap2::MmapMut::map_anon(32).unwrap();
    let file = MappedRecordFile::from_region(region).unwrap();
    assert_eq!(file.capacity(), 2);
    assert_eq!(file.get(0).unwrap(), Point { key: 0, x: 0, y: 0 });
}

#[test]
fn to_vec_returns_all_records_in_slot_order() {
    let mut file = MappedRecordFile::create(3).unwrap();
    let ps = [
        Point { key: 5, x: 1, y: 2 },
        Point { key: 3, x: 4, y: 5 },
        Point { key: 9, x: 6, y: 7 },
    ];
    for (i, p) in ps.iter().enumerate() {
        file.set(i, *p).unwrap();
    }
    assert_eq!(file.to_vec(), ps.to_vec());
}

#[test]
fn flush_succeeds_on_anonymous_region() {
    let mut file = MappedRecordFile::create(2).unwrap();
    file.set(0, Point { key: 1, x: 1, y: 1 }).unwrap();
    assert_eq!(file.flush(), Ok(()));
}
