use std::ops::Range;

use riptide_core::file_assembler::FileAssembler;
use riptide_core::progressive_remuxing::{
    check_head_available, feed_chunk_end, piece_wait_timeout_error, supports_format, ProgressiveOutput,
    ProgressiveRemuxingConfig, MAX_OUTPUT_CHUNKS,
};
use riptide_core::strategy::{ContainerFormat, StreamingError};
use riptide_core::torrent::InfoHash;

struct RangesAssembler {
    available: Vec<Range<u64>>,
}

impl FileAssembler for RangesAssembler {
    fn range_available(&self, _info_hash: InfoHash, start: u64, end: u64) -> bool {
        self.available.iter().any(|r| r.start <= start && r.end >= end)
    }

    fn is_range_available(&self, info_hash: InfoHash, range: Range<u64>) -> bool {
        self.range_available(info_hash, range.start, range.end)
    }
}

fn bytes(from: u8, n: usize) -> Vec<u8> {
    (0..n).map(|i| from.wrapping_add(i as u8)).collect()
}

#[test]
fn test_progressive_config_defaults() {
    let config = ProgressiveRemuxingConfig::default();
    assert_eq!(config.min_head_size, 2 * 1024 * 1024);
    assert_eq!(config.max_output_buffer_size, 32 * 1024 * 1024);
    assert_eq!(config.input_chunk_size, 256 * 1024);
    assert!(config.remuxing_options.allow_partial);
    assert!(config.remuxing_options.ignore_index);
}

#[test]
fn test_output_reads_across_chunks() {
    let mut out = ProgressiveOutput::new();
    out.push(bytes(0, 10));
    out.push(bytes(10, 10));
    out.push(bytes(20, 5));
    assert_eq!(out.output_size(), 25);
    assert_eq!(out.read(5, 15).unwrap(), bytes(5, 10));
    assert_eq!(out.read(0, 25).unwrap(), bytes(0, 25));
    assert_eq!(out.read(20, 100).unwrap(), bytes(20, 5));
    assert_eq!(out.read(7, 7).unwrap(), Vec::<u8>::new());
}

#[test]
fn test_output_read_past_end_reports_block() {
    let mut out = ProgressiveOutput::new();
    out.push(bytes(0, 10));
    match out.read(10, 20) {
        Err(StreamingError::MissingPieces { missing, total }) => {
            assert_eq!(missing, vec![0]);
            assert_eq!(total, 1);
        },
        other => panic!("unexpected {:?}", other),
    }
    let empty = ProgressiveOutput::new();
    match empty.read(600_000, 600_001) {
        Err(StreamingError::MissingPieces { missing, .. }) => assert_eq!(missing, vec![2]),
        other => panic!("unexpected {:?}", other),
    }
}

#[test]
fn test_output_keeps_last_hundred_chunks() {
    let mut out = ProgressiveOutput::new();
    for i in 0..(MAX_OUTPUT_CHUNKS as u8 + 5) {
        out.push(vec![i; 2]);
    }
    assert_eq!(out.chunk_count(), MAX_OUTPUT_CHUNKS);
    assert_eq!(out.output_size(), 2 * (MAX_OUTPUT_CHUNKS as u64 + 5));
    // The first five chunks were dropped: a read starting there gives nothing.
    assert!(out.read(0, 4).unwrap().is_empty());
    assert_eq!(out.read(10, 14).unwrap(), vec![5, 5, 6, 6]);
}

#[test]
fn test_output_read_after_push_returns_pushed_bytes() {
    let mut out = ProgressiveOutput::new();
    for i in 0..(MAX_OUTPUT_CHUNKS as u8) {
        out.push(vec![i; 3]);
    }
    let size = out.output_size();
    let data = bytes(200, 7);
    out.push(data.clone());
    assert_eq!(out.read(size, size + 7).unwrap(), data);
}

#[test]
fn test_head_check_before_session() {
    let hash = InfoHash::new([9u8; 20]);
    let head = RangesAssembler { available: vec![0..1000] };
    assert!(check_head_available(&head, hash, 1000, 5000).is_ok());
    assert!(check_head_available(&head, hash, 4000, 500).is_ok());
    match check_head_available(&head, hash, 2000, 5000) {
        Err(StreamingError::MissingPieces { missing, total }) => {
            assert_eq!(missing, vec![0]);
            assert_eq!(total, 1);
        },
        other => panic!("unexpected {:?}", other),
    }
}

#[test]
fn test_feed_chunks_and_timeout_error() {
    assert_eq!(feed_chunk_end(0, 256 * 1024, 1_000_000), 256 * 1024);
    assert_eq!(feed_chunk_end(900_000, 256 * 1024, 1_000_000), 1_000_000);
    match piece_wait_timeout_error(600_000, 1_000_000) {
        StreamingError::MissingPieces { missing, total } => {
            assert_eq!(missing, vec![2]);
            assert_eq!(total, 4);
        },
        other => panic!("unexpected {:?}", other),
    }
    match piece_wait_timeout_error(0, 524_288) {
        StreamingError::MissingPieces { total, .. } => assert_eq!(total, 2),
        other => panic!("unexpected {:?}", other),
    }
}

#[test]
fn test_progressive_supported_formats() {
    assert!(supports_format(ContainerFormat::Mkv));
    assert!(supports_format(ContainerFormat::Avi));
    assert!(!supports_format(ContainerFormat::Mp4));
    assert!(!supports_format(ContainerFormat::Mov));
}
