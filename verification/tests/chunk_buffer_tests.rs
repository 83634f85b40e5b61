use std::time::Instant;

use riptide_core::buffer::chunk_buffer::ChunkBuffer;
use riptide_core::buffer::{BufferConfig, BufferError};
use riptide_core::chunk_server::RemuxedChunk;

fn create_test_chunk(offset: u64, size: usize, is_header: bool) -> RemuxedChunk {
    RemuxedChunk { offset, data: vec![offset as u8; size], is_header, timestamp: Instant::now() }
}

fn numbered_chunk(offset: u64, size: usize) -> RemuxedChunk {
    let data: Vec<u8> = (0..size).map(|i| (i % 251) as u8).collect();
    RemuxedChunk { offset, data, is_header: false, timestamp: Instant::now() }
}

#[test]
fn test_chunk_buffer_creation() {
    let buffer = ChunkBuffer::new(BufferConfig::default());
    assert!(!buffer.has_headers());
    assert_eq!(buffer.buffered_range(), None);
}

#[test]
fn test_header_chunk_caching() {
    let mut buffer = ChunkBuffer::new(BufferConfig::default());
    buffer.write_chunk(create_test_chunk(0, 1024, true)).unwrap();
    assert!(buffer.has_headers());
    let header_data = buffer.header_data();
    assert_eq!(header_data.len(), 1024);
    assert_eq!(header_data[0], 0);
}

#[test]
fn test_regular_chunk_buffering() {
    let mut buffer = ChunkBuffer::new(BufferConfig::default());
    buffer.write_chunk(create_test_chunk(1024, 512, false)).unwrap();
    let data = buffer.read_range(1024, 1536);
    assert_eq!(data.len(), 512);
    assert_eq!(data[0], (1024 % 256) as u8);
}

#[test]
fn test_chunk_eviction() {
    let mut config = BufferConfig::default();
    config.max_chunks = 2;
    config.max_bytes = 4096;
    let mut buffer = ChunkBuffer::new(config);
    for i in 0..3u64 {
        buffer.write_chunk(create_test_chunk(i * 1000, 1000, false)).unwrap();
    }
    assert!(buffer.read_range(0, 1000).is_empty());
    assert!(!buffer.read_range(1000, 2000).is_empty());
    assert_eq!(buffer.take_evicted(), vec![1000]);
    assert!(buffer.take_evicted().is_empty());
}

#[test]
fn test_range_read_across_chunks() {
    let mut buffer = ChunkBuffer::new(BufferConfig::default());
    buffer.write_chunk(create_test_chunk(0, 1000, false)).unwrap();
    buffer.write_chunk(create_test_chunk(1000, 1000, false)).unwrap();
    let data = buffer.read_range(500, 1500);
    assert_eq!(data.len(), 1000);
    assert_eq!(data, [vec![0u8; 500], vec![232u8; 500]].concat());
    assert_eq!(buffer.range_hits(), 1);
    assert_eq!(buffer.range_misses(), 0);
}

#[test]
fn reads_count_hits_and_misses() {
    let mut buffer = ChunkBuffer::new(BufferConfig::default());
    buffer.write_chunk(create_test_chunk(0, 1000, false)).unwrap();
    assert!(buffer.read_range(5000, 6000).is_empty());
    assert_eq!(buffer.read_range(0, 10).len(), 10);
    assert_eq!(buffer.read_range(990, 1010).len(), 10);
    assert_eq!(buffer.range_hits(), 2);
    assert_eq!(buffer.range_misses(), 1);
}

#[test]
fn test_buffered_range() {
    let mut buffer = ChunkBuffer::new(BufferConfig::default());
    assert_eq!(buffer.buffered_range(), None);
    buffer.write_chunk(create_test_chunk(0, 100, true)).unwrap();
    buffer.write_chunk(create_test_chunk(1000, 500, false)).unwrap();
    assert_eq!(buffer.buffered_range(), Some((0, 1500)));
}

#[test]
fn test_wait_for_range_data_arrives() {
    let mut buffer = ChunkBuffer::new(BufferConfig::low_latency());
    assert!(buffer.read_range(1000, 2000).is_empty());
    buffer.write_chunk(create_test_chunk(1000, 1000, false)).unwrap();
    assert!(!buffer.read_range(1000, 2000).is_empty());
}

#[test]
fn test_capacity_exceeded() {
    let mut config = BufferConfig::default();
    config.max_bytes = 1000;
    config.max_chunks = 100;
    let mut buffer = ChunkBuffer::new(config);
    assert!(buffer.write_chunk(create_test_chunk(0, 500, false)).is_ok());
    assert!(matches!(buffer.write_chunk(create_test_chunk(1000, 600, false)), Err(BufferError::CapacityExceeded)));
    // The refused chunk evicted nothing and the first chunk is still there.
    assert_eq!(buffer.read_range(0, 500).len(), 500);
    assert!(buffer.take_evicted().is_empty());
}

#[test]
fn test_read_range_orders_regular_chunks_by_offset() {
    let mut buffer = ChunkBuffer::new(BufferConfig::default());
    buffer.write_chunk(numbered_chunk(100, 10)).unwrap();
    buffer.write_chunk(numbered_chunk(0, 10)).unwrap();
    let data = buffer.read_range(5, 105);
    assert_eq!(data, vec![5, 6, 7, 8, 9, 0, 1, 2, 3, 4]);
}

#[test]
fn test_read_range_headers_first() {
    let mut buffer = ChunkBuffer::new(BufferConfig::default());
    buffer.write_chunk(numbered_chunk(0, 4)).unwrap();
    let header = RemuxedChunk { offset: 10, data: vec![9, 9], is_header: true, timestamp: Instant::now() };
    buffer.write_chunk(header).unwrap();
    assert_eq!(buffer.read_range(0, 100), vec![9, 9, 0, 1, 2, 3]);
}

#[test]
fn test_range_touched_and_clear() {
    let mut buffer = ChunkBuffer::new(BufferConfig::default());
    buffer.write_chunk(create_test_chunk(0, 100, true)).unwrap();
    buffer.write_chunk(create_test_chunk(1000, 100, false)).unwrap();
    assert!(buffer.range_touched(1050, 1060));
    assert!(!buffer.range_touched(500, 600));
    buffer.clear();
    assert!(!buffer.range_touched(1050, 1060));
    assert!(buffer.range_touched(0, 10));
    assert_eq!(buffer.buffered_range(), Some((0, 100)));
}

#[test]
fn test_chunk_count_limit_zero_refuses() {
    let mut config = BufferConfig::default();
    config.max_chunks = 0;
    let mut buffer = ChunkBuffer::new(config);
    assert!(matches!(buffer.write_chunk(create_test_chunk(0, 10, false)), Err(BufferError::CapacityExceeded)));
    assert_eq!(buffer.buffered_range(), None);
}

#[test]
fn test_read_returns_written_bytes_when_alone_in_range() {
    let mut buffer = ChunkBuffer::new(BufferConfig::default());
    buffer.write_chunk(numbered_chunk(0, 100)).unwrap();
    buffer.write_chunk(numbered_chunk(500, 300)).unwrap();
    buffer.write_chunk(numbered_chunk(2000, 50)).unwrap();
    let expected: Vec<u8> = (10..60u64).map(|i| (i % 251) as u8).collect();
    assert_eq!(buffer.read_range(510, 560), expected);
    let tail: Vec<u8> = (290..300u64).map(|i| (i % 251) as u8).collect();
    assert_eq!(buffer.read_range(790, 1000), tail);
}
