use riptide_core::range_handler::{
    determine_file_type, file_type_for_extension, ContentInfo, FileInfo, PiecePriority, PieceRange,
    RangeError, RangeHandler,
};
use riptide_core::time::Duration;

#[test]
fn test_calculate_required_pieces() {
    let handler = RangeHandler::new(16384, 10, 163840);
    let pieces = handler.calculate_required_pieces(0, 8192);
    assert_eq!(pieces.len(), 1);
    assert_eq!(pieces[0].piece_index, 0);
    assert_eq!(pieces[0].start_offset, 0);
    assert_eq!(pieces[0].end_offset, 8191);
}

#[test]
fn test_calculate_required_pieces_spanning() {
    let handler = RangeHandler::new(16384, 10, 163840);
    let pieces = handler.calculate_required_pieces(10240, 20480);
    assert_eq!(pieces.len(), 2);
    assert_eq!(pieces[0].piece_index, 0);
    assert_eq!(pieces[0].start_offset, 10240);
    assert_eq!(pieces[0].end_offset, 16383);
    assert_eq!(pieces[1].piece_index, 1);
    assert_eq!(pieces[1].start_offset, 0);
}

#[test]
fn test_validate_range() {
    let handler = RangeHandler::new(16384, 10, 163840);
    assert!(handler.validate_range(0, 1024).is_ok());
    assert!(handler.validate_range(200000, 1024).is_err());
    assert!(handler.validate_range(163800, 1024).is_err());
}

#[test]
fn test_file_info_from_torrent_file() {
    let file_info = FileInfo::from_torrent_file("movie.mp4".to_string(), 1_000_000_000, 0);
    assert!(file_info.is_media);
    assert!(file_info.is_streamable());
    assert_eq!(file_info.mime_type, Some("video/mp4".to_string()));
}

#[test]
fn test_content_info_streamable_files() {
    let files = vec![
        FileInfo::from_torrent_file("movie.mp4".to_string(), 1_000_000_000, 0),
        FileInfo::from_torrent_file("readme.txt".to_string(), 1024, 1_000_000_000),
        FileInfo::from_torrent_file("audio.mp3".to_string(), 5_000_000, 1_000_001_024),
    ];
    let content_info =
        ContentInfo::from_torrent_metadata("Test Torrent".to_string(), 1_005_001_024, 32768, 30626, files);
    let streamable = content_info.streamable_files();
    assert_eq!(streamable.len(), 2);
    assert_eq!(content_info.mime_type, Some("video/mp4".to_string()));
}

#[test]
fn test_streaming_buffer_calculation() {
    let handler = RangeHandler::new(32768, 100, 3276800);
    let buffer = handler.calculate_streaming_buffer(65536, 1_000_000, Duration::from_secs(10));
    assert_eq!(buffer.current_piece, 2);
    assert!(!buffer.critical_pieces.is_empty());
    assert_eq!(buffer.estimated_bitrate, 1_000_000);
}

#[test]
fn required_pieces_cover_the_range_exactly() {
    let handler = RangeHandler::new(100, 5, 450);
    let pieces = handler.calculate_required_pieces(150, 250);
    let idx: Vec<u32> = pieces.iter().map(|p| p.piece_index).collect();
    assert_eq!(idx, vec![1, 2, 3]);
    assert_eq!((pieces[0].start_offset, pieces[0].end_offset), (50, 99));
    assert_eq!((pieces[1].start_offset, pieces[1].end_offset), (0, 99));
    assert_eq!((pieces[2].start_offset, pieces[2].end_offset), (0, 99));
    assert_eq!(pieces[0].priority, PiecePriority::Critical);
}

#[test]
fn last_piece_ends_at_content_end() {
    let handler = RangeHandler::new(100, 5, 450);
    let pieces = handler.calculate_required_pieces(400, 1000);
    assert_eq!(pieces.len(), 1);
    assert_eq!(pieces[0].piece_index, 4);
    assert_eq!(pieces[0].end_offset, 49);
}

#[test]
fn piece_priority_by_index() {
    let handler = RangeHandler::new(10, 100, 1000);
    let pieces = handler.calculate_required_pieces(95, 420);
    assert_eq!(pieces.first().unwrap().priority, PiecePriority::Critical);
    assert_eq!(pieces.iter().find(|p| p.piece_index == 10).unwrap().priority, PiecePriority::High);
    assert_eq!(pieces.iter().find(|p| p.piece_index == 50).unwrap().priority, PiecePriority::Normal);
}

#[test]
fn validate_range_errors_carry_the_request() {
    let handler = RangeHandler::new(16384, 10, 163840);
    assert_eq!(
        handler.validate_range(163840, 1),
        Err(RangeError::InvalidStart { start: 163840, total_size: 163840 })
    );
    assert_eq!(
        handler.validate_range(163800, 1024),
        Err(RangeError::InvalidLength { start: 163800, length: 1024, total_size: 163840 })
    );
}

#[test]
fn download_order_puts_near_available_pieces_first() {
    let handler = RangeHandler::new(100, 20, 2000);
    let mk = |i: u32| PieceRange { piece_index: i, start_offset: 0, end_offset: 99, priority: PiecePriority::Normal };
    let pieces = vec![mk(7), mk(2), mk(5), mk(6), mk(9)];
    let ordered = handler.optimize_download_order(pieces, 500, &[6]);
    let idx: Vec<u32> = ordered.iter().map(|p| p.piece_index).collect();
    assert_eq!(idx, vec![5, 6, 7, 9, 2]);
}

#[test]
fn download_order_prefers_available_at_equal_distance() {
    let handler = RangeHandler::new(100, 20, 2000);
    let mk = |i: u32, s: u32| PieceRange { piece_index: i, start_offset: s, end_offset: 99, priority: PiecePriority::Normal };
    let pieces = vec![mk(3, 1), mk(1, 0), mk(3, 2), mk(1, 5)];
    let ordered = handler.optimize_download_order(pieces, 450, &[1]);
    let v: Vec<(u32, u32)> = ordered.iter().map(|p| (p.piece_index, p.start_offset)).collect();
    assert_eq!(v, vec![(1, 0), (1, 5), (3, 1), (3, 2)]);
}

#[test]
fn prefetch_pieces_span_the_buffer() {
    let handler = RangeHandler::new(32768, 100, 3276800);
    let buffer = handler.calculate_streaming_buffer(65536, 1_000_000, Duration::from_secs(10));
    assert_eq!(buffer.critical_pieces.len(), 3);
    assert_eq!(buffer.prefetch_pieces.first().unwrap().piece_index, 2);
    assert_eq!(buffer.prefetch_pieces.last().unwrap().piece_index, 39);
}

#[test]
fn file_types_by_extension() {
    assert_eq!(determine_file_type("Movie.MKV"), (Some("video/x-matroska".to_string()), true));
    assert_eq!(determine_file_type("notes.txt"), (Some("application/octet-stream".to_string()), false));
    assert_eq!(determine_file_type("dir/noext"), (Some("application/octet-stream".to_string()), false));
    assert_eq!(file_type_for_extension(Some("m4a".to_string())), (Some("audio/mp4".to_string()), true));
    assert_eq!(file_type_for_extension(None), (Some("application/octet-stream".to_string()), false));
}

#[test]
fn content_type_picks_last_of_equally_large() {
    let files = vec![
        FileInfo::from_torrent_file("a.mkv".to_string(), 2_000_000, 0),
        FileInfo::from_torrent_file("b.webm".to_string(), 2_000_000, 2_000_000),
    ];
    let c = ContentInfo::from_torrent_metadata("t".to_string(), 4_000_000, 1024, 3907, files);
    assert_eq!(c.mime_type, Some("video/webm".to_string()));
}

#[test]
fn file_at_offset_finds_first_holder() {
    let files = vec![
        FileInfo::from_torrent_file("a.mp4".to_string(), 100, 0),
        FileInfo::from_torrent_file("b.mp4".to_string(), 50, 100),
    ];
    let c = ContentInfo::from_torrent_metadata("t".to_string(), 150, 16, 10, files);
    assert_eq!(c.file_at_offset(120).map(|(i, f)| (i, f.name.clone())), Some((1, "b.mp4".to_string())));
    assert!(c.file_at_offset(150).is_none());
    assert_eq!(c.files[0].byte_range(), (0, 99));
}
