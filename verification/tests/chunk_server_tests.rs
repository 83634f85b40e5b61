use std::time::Instant;

use riptide_core::chunk_server::{content_range_header, ChunkBuffer, ChunkRequest, ChunkServer, ChunkServerError, RemuxedChunk};
use riptide_core::torrent::InfoHash;

fn create_test_chunk(offset: u64, size: usize, is_header: bool) -> RemuxedChunk {
    RemuxedChunk { offset, data: vec![0u8; size], is_header, timestamp: Instant::now() }
}

#[test]
fn test_chunk_buffer_add_and_retrieve() {
    let mut buffer = ChunkBuffer::new(10, 1024);
    let chunk = create_test_chunk(0, 100, true);
    buffer.add_chunk(chunk).unwrap();
    assert_eq!(buffer.available_bytes(), 100);
    assert!(buffer.has_headers());
    let data = buffer.try_get_range(0, Some(50)).unwrap();
    assert_eq!(data.len(), 50);
}

#[test]
fn test_chunk_buffer_lru_eviction() {
    let mut buffer = ChunkBuffer::new(2, 1024);
    buffer.add_chunk(create_test_chunk(0, 100, false)).unwrap();
    buffer.add_chunk(create_test_chunk(100, 100, false)).unwrap();
    buffer.add_chunk(create_test_chunk(200, 100, false)).unwrap();
    assert_eq!(buffer.chunk_count(), 2);
    assert_eq!(buffer.stats().evicted_chunks, 1);
}

#[test]
fn test_chunk_buffer_range_error() {
    let mut buffer = ChunkBuffer::new(10, 1024);
    buffer.add_chunk(create_test_chunk(0, 100, false)).unwrap();
    let result = buffer.try_get_range(150, Some(200));
    assert!(matches!(result, Err(ChunkServerError::ChunkNotAvailable { .. })));
}

#[test]
fn chunk_server_serves_partial_range() {
    let mut server = ChunkServer::new(InfoHash::new([1u8; 20]), 10, 128 * 1024);
    server.add_chunk(create_test_chunk(0, 64 * 1024, true)).unwrap();
    assert!(server.is_ready_for_playback());
    let request = ChunkRequest { start: 0, end: Some(50), is_range_request: true, client_id: Some("test_client".to_string()) };
    let response = server.serve_request(request).unwrap();
    assert_eq!(response.data.len(), 50);
    assert!(response.is_partial);
    assert!(response.content_range.is_some());
}

#[test]
fn terminated_server_refuses_chunks() {
    let mut server = ChunkServer::new(InfoHash::new([1u8; 20]), 10, 1024);
    server.terminate();
    let result = server.add_chunk(create_test_chunk(0, 100, false));
    assert!(matches!(result, Err(ChunkServerError::StreamTerminated { .. })));
}

#[test]
fn content_range_header_text() {
    assert_eq!(content_range_header(0, 49, 100), "bytes 0-49/100");
}

#[test]
fn range_within_chunk_reads_its_bytes() {
    let numbered = |offset: u64, size: usize| RemuxedChunk {
        offset,
        data: (0..size).map(|i| (offset as usize + i) as u8).collect(),
        is_header: false,
        timestamp: Instant::now(),
    };
    let mut buffer = ChunkBuffer::new(10, 4096);
    buffer.add_chunk(numbered(0, 100)).unwrap();
    buffer.add_chunk(numbered(100, 100)).unwrap();
    let expected: Vec<u8> = (120..180u64).map(|i| i as u8).collect();
    assert_eq!(buffer.try_get_range(120, Some(180)).unwrap(), expected);
    let across: Vec<u8> = (50..150u64).map(|i| i as u8).collect();
    assert_eq!(buffer.try_get_range(50, Some(150)).unwrap(), across);
}
