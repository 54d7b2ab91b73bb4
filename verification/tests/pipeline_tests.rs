use hilbert_store::errors::StoreError;
use hilbert_store::pipeline::{ExecutionStrategy, ReorderPipeline};
use hilbert_store::point::Point;
use hilbert_store::record_file::MappedRecordFile;

fn sample_points() -> Vec<Point> {
    vec![
        Point { key: 9, x: 1, y: 2 },
        Point { key: 3, x: 3, y: 4 },
        Point { key: 9, x: 5, y: 6 },
        Point { key: 0, x: 7, y: 8 },
        Point { key: 3, x: 9, y: 10 },
    ]
}

#[test]
fn serial_run_sorts_by_key_with_stable_ties() {
    let input = sample_points();
    let pipeline = ReorderPipeline::new(ExecutionStrategy::Serial);
    let file = pipeline.run(&input).unwrap();
    let out = file.to_vec();
    assert_eq!(
        out,
        vec![
            Point { key: 0, x: 7, y: 8 },
            Point { key: 3, x: 3, y: 4 },
            Point { key: 3, x: 9, y: 10 },
            Point { key: 9, x: 1, y: 2 },
            Point { key: 9, x: 5, y: 6 },
        ]
    );
}

#[test]
fn output_is_permutation_of_input() {
    let input = sample_points();
    let pipeline = ReorderPipeline::new(ExecutionStrategy::Serial);
    let out = pipeline.run(&input).unwrap().to_vec();
    let mut want: Vec<(u64, u32, u32)> = input.iter().map(|p| (p.key, p.x, p.y)).collect();
    let mut got: Vec<(u64, u32, u32)> = out.iter().map(|p| (p.key, p.x, p.y)).collect();
    want.sort();
    got.sort();
    assert_eq!(want, got);
}

#[test]
fn rerun_is_byte_identical() {
    let input = sample_points();
    let pipeline = ReorderPipeline::new(ExecutionStrategy::Serial);
    let b1 = pipeline.run(&input).unwrap().to_bytes();
    let b2 = pipeline.run(&input).unwrap().to_bytes();
    assert_eq!(b1, b2);
}

#[test]
fn rerunning_on_own_output_changes_nothing() {
    let input = sample_points();
    let pipeline = ReorderPipeline::new(ExecutionStrategy::Serial);
    let once = pipeline.run(&input).unwrap();
    let twice = pipeline.run(&once.to_vec()).unwrap();
    assert_eq!(once.to_bytes(), twice.to_bytes());
}

#[test]
fn serial_and_partitioned_outputs_are_identical() {
    let input = sample_points();
    let serial = ReorderPipeline::new(ExecutionStrategy::Serial);
    let sb = serial.run(&input).unwrap().to_bytes();
    for workers in [1usize, 2, 3, 5, 16] {
        let part = ReorderPipeline::new(ExecutionStrategy::Partitioned { workers });
        let pb = part.run(&input).unwrap().to_bytes();
        assert_eq!(sb, pb);
    }
}

#[test]
fn zero_workers_behaves_like_one_partition() {
    let input = sample_points();
    let part = ReorderPipeline::new(ExecutionStrategy::Partitioned { workers: 0 });
    let serial = ReorderPipeline::new(ExecutionStrategy::Serial);
    assert_eq!(
        part.run(&input).unwrap().to_bytes(),
        serial.run(&input).unwrap().to_bytes()
    );
}

#[test]
fn run_into_supplied_file_matches_run() {
    let input = sample_points();
    let pipeline = ReorderPipeline::new(ExecutionStrategy::Serial);
    let fresh = pipeline.run(&input).unwrap();
    // a caller-supplied region of the right capacity, as an output file
    // made by the caller would be
    let region = memmap2::MmapMut::map_anon(input.len() * 16).unwrap();
    let mut supplied = MappedRecordFile::from_region(region).unwrap();
    pipeline.run_into(&input, &mut supplied).unwrap();
    assert_eq!(supplied.to_bytes(), fresh.to_bytes());
    assert_eq!(supplied.to_vec(), fresh.to_vec());
}

#[test]
fn run_into_refuses_mismatched_capacity() {
    let input = sample_points();
    let pipeline = ReorderPipeline::new(ExecutionStrategy::Serial);
    let mut small = MappedRecordFile::create(input.len() - 1).unwrap();
    let before = small.to_bytes();
    assert_eq!(
        pipeline.run_into(&input, &mut small),
        Err(StoreError::OutOfBounds)
    );
    // the file is left unchanged
    assert_eq!(small.to_bytes(), before);
}

#[test]
fn empty_input_gives_empty_file() {
    let input: Vec<Point> = Vec::new();
    let pipeline = ReorderPipeline::new(ExecutionStrategy::Serial);
    let file = pipeline.run(&input).unwrap();
    assert_eq!(file.capacity(), 0);
    assert_eq!(file.to_bytes().len(), 0);
}

#[test]
fn equal_keys_everywhere_keep_input_order() {
    let input = vec![
        Point { key: 7, x: 0, y: 0 },
        Point { key: 7, x: 1, y: 1 },
        Point { key: 7, x: 2, y: 2 },
    ];
    let pipeline = ReorderPipeline::new(ExecutionStrategy::Serial);
    assert_eq!(pipeline.run(&input).unwrap().to_vec(), input);
}
