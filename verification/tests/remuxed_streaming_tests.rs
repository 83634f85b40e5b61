use riptide_core::remuxed_streaming::{format_of_first_piece, read_length, supports_format, RemuxingConfig};
use riptide_core::strategy::ContainerFormat;

#[test]
fn test_remuxing_config_defaults() {
    let config = RemuxingConfig::default();
    assert_eq!(config.cache_dir, "/tmp/riptide-cache");
    assert_eq!(config.max_concurrent_jobs, 2);
}

#[test]
fn remuxed_formats() {
    assert!(supports_format(&ContainerFormat::Mkv));
    assert!(supports_format(&ContainerFormat::Avi));
    assert!(!supports_format(&ContainerFormat::Mp4));
    assert!(!supports_format(&ContainerFormat::WebM));
}

#[test]
fn first_piece_detection_uses_its_start() {
    let mut piece = vec![0x1A, 0x45, 0xDF, 0xA3];
    piece.resize(600, 0);
    piece[520..524].copy_from_slice(b"webm");
    assert_eq!(format_of_first_piece(&piece), ContainerFormat::Mkv);
    assert_eq!(read_length(10, 110), 100);
}
