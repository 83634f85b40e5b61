use riptide_core::download_manager::{DownloadPriority, Downloader, DownloaderConfig, DownloaderError};
use riptide_core::time::Duration;
use riptide_core::torrent::InfoHash;

fn create_test_manager() -> Downloader {
    Downloader::new(InfoHash::new([7u8; 20]), DownloaderConfig::default())
}

fn queue_pieces(d: &Downloader) -> Vec<(u32, DownloadPriority)> {
    d.queued_requests().iter().map(|r| (r.piece_index, r.priority)).collect()
}

#[test]
fn test_streaming_position_update() {
    let mut manager = create_test_manager();
    manager.update_streaming_position(5);
    assert_eq!(manager.current_position(), 5);
}

#[test]
fn test_piece_request_priority_queue() {
    let mut manager = create_test_manager();
    manager.request_piece(1, DownloadPriority::Low, 0).unwrap();
    manager.request_piece(2, DownloadPriority::Critical, 1024).unwrap();
    manager.request_piece(3, DownloadPriority::High, 2048).unwrap();
    let queue = queue_pieces(&manager);
    assert_eq!(queue.len(), 3);
    assert_eq!(queue[0], (2, DownloadPriority::Critical));
    assert_eq!(queue, vec![(2, DownloadPriority::Critical), (3, DownloadPriority::High), (1, DownloadPriority::Low)]);
    assert_eq!(manager.stats().total_requests, 3);
    assert_eq!(manager.stats().queue_size, 3);
}

#[test]
fn test_same_priority_keeps_request_order() {
    let mut manager = create_test_manager();
    manager.request_piece(4, DownloadPriority::Normal, 0).unwrap();
    manager.request_piece(5, DownloadPriority::Normal, 0).unwrap();
    manager.request_piece(6, DownloadPriority::Critical, 0).unwrap();
    manager.request_piece(7, DownloadPriority::Normal, 0).unwrap();
    let pieces: Vec<u32> = queue_pieces(&manager).iter().map(|p| p.0).collect();
    assert_eq!(pieces, vec![6, 4, 5, 7]);
}

#[test]
fn test_download_statistics() {
    let mut manager = create_test_manager();
    manager.request_piece(1, DownloadPriority::High, 0).unwrap();
    manager.process_download_queue().unwrap();
    assert!(manager.is_in_flight(1));
    manager.mark_piece_downloaded(1);
    let stats = manager.stats();
    assert_eq!(stats.total_requests, 1);
    assert_eq!(stats.successful_downloads, 1);
    assert!(stats.last_success.is_some());
    assert!(manager.is_downloaded(1));
    assert!(!manager.is_in_flight(1));
}

#[test]
fn test_priority_recalculation() {
    let mut manager = create_test_manager();
    manager.request_piece(10, DownloadPriority::Low, 0).unwrap();
    manager.request_piece(15, DownloadPriority::Low, 1024).unwrap();
    manager.request_piece(80, DownloadPriority::Critical, 2048).unwrap();
    manager.update_streaming_position(10);
    let queue = queue_pieces(&manager);
    let piece_10 = queue.iter().find(|r| r.0 == 10).map(|r| r.1);
    assert_eq!(piece_10, Some(DownloadPriority::Critical));
    assert_eq!(queue, vec![(10, DownloadPriority::Critical), (15, DownloadPriority::High), (80, DownloadPriority::Low)]);
}

#[test]
fn test_recalculation_behind_position_is_low() {
    let mut manager = create_test_manager();
    manager.request_piece(3, DownloadPriority::Critical, 0).unwrap();
    manager.request_piece(40, DownloadPriority::Low, 0).unwrap();
    manager.update_streaming_position(10);
    assert_eq!(queue_pieces(&manager), vec![(40, DownloadPriority::Normal), (3, DownloadPriority::Low)]);
}

#[test]
fn test_stall_detection() {
    let mut config = DownloaderConfig::default();
    config.stall_timeout = Duration::from_millis(100);
    let mut manager = Downloader::new(InfoHash::new([7u8; 20]), config);
    let started = std::time::Instant::now();
    while started.elapsed() < std::time::Duration::from_millis(150) {}
    let result = manager.check_stall_detection();
    assert!(matches!(result, Err(DownloaderError::DownloadStalled { .. })));
    assert_eq!(manager.stats().stall_count, 1);
}

#[test]
fn test_stall_check_thresholds() {
    let mut manager = create_test_manager();
    manager.request_piece(2, DownloadPriority::High, 0).unwrap();
    manager.process_download_queue().unwrap();
    assert!(manager.stall_check(Duration::from_secs(30)).is_ok());
    assert!(manager.is_in_flight(2));
    let r = manager.stall_check(Duration::new(30, 1));
    assert!(matches!(r, Err(DownloaderError::DownloadStalled { .. })));
    assert!(!manager.is_in_flight(2));
    assert_eq!(manager.stats().stall_count, 1);
}

#[test]
fn test_failing_piece_retries_then_fails() {
    let mut manager = create_test_manager();
    manager.request_piece(99, DownloadPriority::Critical, 0).unwrap();
    manager.request_piece(5, DownloadPriority::High, 0).unwrap();
    manager.process_download_queue().unwrap();
    assert!(manager.is_in_flight(5));
    assert!(!manager.is_in_flight(99));
    assert_eq!(manager.stats().failed_downloads, 1);
    assert_eq!(manager.stats().queue_size, 0);
}

#[test]
fn test_concurrency_limit() {
    let mut config = DownloaderConfig::default();
    config.max_concurrent_requests = 2;
    let mut manager = Downloader::new(InfoHash::new([7u8; 20]), config);
    for p in 0..4u32 {
        manager.request_piece(p, DownloadPriority::Normal, 0).unwrap();
    }
    manager.process_download_queue().unwrap();
    assert!(manager.is_in_flight(0));
    assert!(manager.is_in_flight(1));
    assert!(!manager.is_in_flight(2));
    assert_eq!(manager.stats().queue_size, 2);
}

#[test]
fn test_complete_download_average() {
    let mut manager = create_test_manager();
    manager.request_piece(1, DownloadPriority::High, 0).unwrap();
    manager.request_piece(2, DownloadPriority::High, 0).unwrap();
    manager.process_download_queue().unwrap();
    manager.complete_download(1, Duration::from_millis(100));
    assert_eq!(manager.stats().avg_download_time.as_secs(), 0);
    assert_eq!(manager.stats().avg_download_time.subsec_nanos(), 100_000_000);
    manager.complete_download(2, Duration::from_millis(300));
    assert_eq!(manager.stats().avg_download_time.subsec_nanos(), 200_000_000);
    assert_eq!(manager.stats().successful_downloads, 2);
    manager.complete_download(3, Duration::from_millis(900));
    assert_eq!(manager.stats().successful_downloads, 2);
}

#[test]
fn test_downloaded_piece_is_skipped() {
    let mut manager = create_test_manager();
    manager.request_piece(1, DownloadPriority::High, 0).unwrap();
    manager.process_download_queue().unwrap();
    manager.complete_download(1, Duration::from_millis(10));
    manager.request_piece(1, DownloadPriority::High, 0).unwrap();
    manager.process_download_queue().unwrap();
    assert!(!manager.is_in_flight(1));
    assert_eq!(manager.stats().queue_size, 0);
}
