use std::collections::HashMap;
use std::sync::Arc;

use riptide_core::file_assembler::{
    assemble_range_from_pieces, compute_metadata, count_missing_pieces, range_to_pieces, validate_read,
    FileAssemblerError, PieceFileAssembler, TorrentMetadata,
};
use riptide_core::torrent::{InfoHash, PieceIndex, PieceStore, TorrentError};

struct MockPieceStore {
    pieces: HashMap<[u8; 20], HashMap<u32, Vec<u8>>>,
    piece_counts: HashMap<[u8; 20], u32>,
}

impl MockPieceStore {
    fn new() -> Self {
        Self { pieces: HashMap::new(), piece_counts: HashMap::new() }
    }

    fn add_piece(&mut self, info_hash: InfoHash, piece_index: u32, data: Vec<u8>) {
        self.pieces.entry(info_hash.0).or_default().insert(piece_index, data);
    }

    fn set_piece_count(&mut self, info_hash: InfoHash, count: u32) {
        self.piece_counts.insert(info_hash.0, count);
    }

    fn piece(&self, info_hash: InfoHash, piece_index: u32) -> Option<Vec<u8>> {
        self.pieces.get(&info_hash.0).and_then(|p| p.get(&piece_index)).cloned()
    }
}

impl PieceStore for MockPieceStore {
    fn holds_piece(&self, info_hash: InfoHash, piece_index: u32) -> bool {
        self.pieces.get(&info_hash.0).map(|p| p.contains_key(&piece_index)).unwrap_or(false)
    }

    fn count_of(&self, info_hash: InfoHash) -> Result<u32, TorrentError> {
        Ok(self
            .piece_counts
            .get(&info_hash.0)
            .copied()
            .unwrap_or_else(|| self.pieces.get(&info_hash.0).map(|p| p.len() as u32).unwrap_or(0)))
    }

    fn has_piece(&self, info_hash: InfoHash, piece_index: PieceIndex) -> bool {
        self.holds_piece(info_hash, piece_index.as_u32())
    }

    fn piece_count(&self, info_hash: InfoHash) -> Result<u32, TorrentError> {
        self.count_of(info_hash)
    }
}

fn metadata(assembler: &mut PieceFileAssembler<MockPieceStore>, info_hash: InfoHash) -> Result<TorrentMetadata, FileAssemblerError> {
    if let Some(m) = assembler.cached_metadata(&info_hash) {
        return Ok(m);
    }
    let store = Arc::clone(assembler.piece_store());
    let count = store.piece_count(info_hash).map_err(FileAssemblerError::Torrent)?;
    if count == 0 {
        return compute_metadata(0, None, None);
    }
    let first = (0..count).find(|i| store.has_piece(info_hash, PieceIndex::new(*i)));
    let first_len = first.and_then(|i| store.piece(info_hash, i)).map(|p| p.len());
    let last_len = if count > 1 && store.has_piece(info_hash, PieceIndex::new(count - 1)) {
        store.piece(info_hash, count - 1).map(|p| p.len())
    } else {
        None
    };
    let m = compute_metadata(count, first_len, last_len)?;
    assembler.remember_metadata(info_hash, m);
    Ok(m)
}

fn read_range(assembler: &mut PieceFileAssembler<MockPieceStore>, info_hash: InfoHash, start: u64, end: u64) -> Result<Vec<u8>, FileAssemblerError> {
    if start >= end {
        return Err(FileAssemblerError::InvalidRange { start, end });
    }
    let m = metadata(assembler, info_hash)?;
    validate_read(start, end, m.file_size)?;
    if let Some(data) = assembler.cached_range(&info_hash, start, end) {
        return Ok(data);
    }
    let (first, last) = range_to_pieces(start, end, m.piece_size);
    let store = Arc::clone(assembler.piece_store());
    let missing = count_missing_pieces(&*store, info_hash, first, last);
    if missing > 0 {
        return Err(FileAssemblerError::InsufficientData { start, end, missing_count: missing });
    }
    let pieces: Vec<Vec<u8>> = (first..last).map(|i| store.piece(info_hash, i).unwrap()).collect();
    let data = assemble_range_from_pieces(&pieces, first, m.piece_size, start, end).expect("piece shorter than its offset");
    assembler.cache_range(&info_hash, start, end, data.clone());
    Ok(data)
}

fn create_test_info_hash() -> InfoHash {
    InfoHash::new([1u8; 20])
}

#[test]
fn test_file_assembler_single_piece() {
    let info_hash = create_test_info_hash();
    let mut store = MockPieceStore::new();
    let test_data = b"Hello, World! This is test data.".to_vec();
    store.add_piece(info_hash, 0, test_data.clone());
    let mut assembler = PieceFileAssembler::new(Arc::new(store), Some(32));
    assert_eq!(read_range(&mut assembler, info_hash, 0, test_data.len() as u64).unwrap(), test_data);
    assert_eq!(read_range(&mut assembler, info_hash, 7, 12).unwrap(), b"World");
}

#[test]
fn test_file_assembler_multiple_pieces() {
    let info_hash = create_test_info_hash();
    let mut store = MockPieceStore::new();
    store.add_piece(info_hash, 0, b"0123456789".to_vec());
    store.add_piece(info_hash, 1, b"abcdefghij".to_vec());
    store.add_piece(info_hash, 2, b"ABCDE".to_vec());
    let mut assembler = PieceFileAssembler::new(Arc::new(store), Some(32));
    assert_eq!(read_range(&mut assembler, info_hash, 8, 22).unwrap(), b"89abcdefghijAB");
    assert_eq!(metadata(&mut assembler, info_hash).unwrap().file_size, 25);
}

#[test]
fn test_file_assembler_caching() {
    let info_hash = create_test_info_hash();
    let mut store = MockPieceStore::new();
    store.add_piece(info_hash, 0, b"0123456789".to_vec());
    let mut assembler = PieceFileAssembler::new(Arc::new(store), Some(32));
    assert_eq!(read_range(&mut assembler, info_hash, 2, 8).unwrap(), b"234567");
    assert_eq!(assembler.cached_range(&info_hash, 2, 8).unwrap(), b"234567");
    assert_eq!(read_range(&mut assembler, info_hash, 2, 8).unwrap(), b"234567");
    assert_eq!(assembler.cache_len(), 1);
    assert!(assembler.cache_capacity() > 0);
}

#[test]
fn test_file_assembler_missing_pieces() {
    let info_hash = create_test_info_hash();
    let mut store = MockPieceStore::new();
    store.add_piece(info_hash, 0, b"0123456789".to_vec());
    store.set_piece_count(info_hash, 2);
    let mut assembler = PieceFileAssembler::new(Arc::new(store), Some(32));
    let result = read_range(&mut assembler, info_hash, 8, 15);
    assert!(matches!(result, Err(FileAssemblerError::InsufficientData { missing_count: 1, .. })));
}

#[test]
fn test_file_assembler_invalid_range() {
    let info_hash = create_test_info_hash();
    let mut assembler = PieceFileAssembler::new(Arc::new(MockPieceStore::new()), Some(32));
    assert!(matches!(read_range(&mut assembler, info_hash, 10, 5), Err(FileAssemblerError::InvalidRange { start: 10, end: 5 })));
}

#[test]
fn test_file_assembler_range_exceeds_file() {
    let info_hash = create_test_info_hash();
    let mut store = MockPieceStore::new();
    store.add_piece(info_hash, 0, b"small".to_vec());
    let mut assembler = PieceFileAssembler::new(Arc::new(store), Some(32));
    assert!(matches!(
        read_range(&mut assembler, info_hash, 0, 100),
        Err(FileAssemblerError::RangeExceedsFile { start: 0, end: 100, file_size: 5 })
    ));
}

#[test]
fn file_assembler_test_is_range_available() {
    let info_hash = create_test_info_hash();
    let mut store = MockPieceStore::new();
    store.add_piece(info_hash, 0, vec![0u8; 1024 * 1024]);
    let assembler = PieceFileAssembler::new(Arc::new(store), Some(32));
    assert!(assembler.is_range_available(info_hash, 0..1024));
    assert!(!assembler.is_range_available(info_hash, 1024 * 1024..1024 * 1024 + 1024));
}

#[test]
fn test_cache_clear() {
    let info_hash = create_test_info_hash();
    let other = InfoHash::new([2u8; 20]);
    let mut store = MockPieceStore::new();
    store.add_piece(info_hash, 0, b"test data".to_vec());
    store.add_piece(other, 0, b"other data".to_vec());
    let mut assembler = PieceFileAssembler::new(Arc::new(store), Some(32));
    read_range(&mut assembler, info_hash, 0, 5).unwrap();
    read_range(&mut assembler, other, 0, 5).unwrap();
    assert_eq!(assembler.cache_len(), 2);
    assembler.clear_cache(&info_hash);
    assert_eq!(assembler.cache_len(), 1);
    assert!(assembler.cached_metadata(&info_hash).is_none());
    assert!(assembler.cached_metadata(&other).is_some());
    assert_eq!(assembler.cached_range(&other, 0, 5).unwrap(), b"other");
}

#[test]
fn test_compute_metadata_cases() {
    assert_eq!(compute_metadata(0, None, None).unwrap(), TorrentMetadata { piece_size: 0, file_size: 0 });
    assert!(matches!(compute_metadata(4, None, None), Err(FileAssemblerError::InsufficientData { start: 0, end: 0, missing_count: 4 })));
    assert!(matches!(compute_metadata(4, Some(0), None), Err(FileAssemblerError::InsufficientData { .. })));
    assert_eq!(compute_metadata(1, Some(100), None).unwrap(), TorrentMetadata { piece_size: 100, file_size: 100 });
    assert_eq!(compute_metadata(3, Some(100), Some(40)).unwrap(), TorrentMetadata { piece_size: 100, file_size: 240 });
    assert_eq!(compute_metadata(3, Some(100), None).unwrap(), TorrentMetadata { piece_size: 100, file_size: 300 });
}

#[test]
fn test_assemble_range_short_piece() {
    let pieces = vec![vec![1u8, 2, 3]];
    assert!(assemble_range_from_pieces(&pieces, 0, 10, 5, 8).is_none());
    assert_eq!(assemble_range_from_pieces(&pieces, 0, 10, 1, 8).unwrap(), vec![2, 3]);
}

#[test]
fn test_remember_metadata_replaces() {
    let info_hash = create_test_info_hash();
    let mut assembler = PieceFileAssembler::new(Arc::new(MockPieceStore::new()), None);
    assert_eq!(assembler.cache_capacity(), 64);
    assembler.remember_metadata(info_hash, TorrentMetadata { piece_size: 10, file_size: 30 });
    assembler.remember_metadata(info_hash, TorrentMetadata { piece_size: 20, file_size: 60 });
    assert_eq!(assembler.cached_metadata(&info_hash), Some(TorrentMetadata { piece_size: 20, file_size: 60 }));
}
