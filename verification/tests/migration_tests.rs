use riptide_core::migration::{detect_input_format, simple_output_ready, ProgressiveStreaming, StreamingImplementation};

#[test]
fn test_detect_input_format() {
    assert_eq!(detect_input_format("test.avi"), "avi");
    assert_eq!(detect_input_format("test.mkv"), "matroska");
    assert_eq!(detect_input_format("test.mp4"), "mp4");
    assert_eq!(detect_input_format("test.unknown"), "auto");
    assert_eq!(detect_input_format("no_extension"), "auto");
}

#[test]
fn implementation_from_setting() {
    assert_eq!(StreamingImplementation::from_setting(None), StreamingImplementation::Legacy);
    assert_eq!(StreamingImplementation::from_setting(Some("simple".to_string())), StreamingImplementation::Simple);
    assert_eq!(StreamingImplementation::from_setting(Some("legacy".to_string())), StreamingImplementation::Legacy);
    assert_eq!(StreamingImplementation::from_setting(Some("other".to_string())), StreamingImplementation::Legacy);
}

#[test]
fn explicit_implementation_is_kept() {
    let p: ProgressiveStreaming<u8, u8> = ProgressiveStreaming::with_implementation(StreamingImplementation::Simple, 3, None);
    assert_eq!(p.implementation(), StreamingImplementation::Simple);
    let q: ProgressiveStreaming<u8, u8> = ProgressiveStreaming::new(Some("simple".to_string()), 3, Some(4));
    assert_eq!(q.implementation(), StreamingImplementation::Simple);
    assert_eq!(*q.torrent_engine(), Some(4));
}

#[test]
fn uppercase_extension_is_auto() {
    assert_eq!(detect_input_format("MOVIE.AVI"), "auto");
    assert_eq!(detect_input_format("clip.webm"), "webm");
}

#[test]
fn simple_output_readiness() {
    assert!(!simple_output_ready(None));
    assert!(!simple_output_ready(Some(128 * 1024 - 1)));
    assert!(simple_output_ready(Some(128 * 1024)));
}
