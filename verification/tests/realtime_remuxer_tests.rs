use std::time::Instant;

use riptide_core::realtime_remuxer::{OutputCursor, RealtimeRemuxer, RemuxConfig, RemuxError, RemuxStatus, RemuxedChunk};

#[test]
fn test_remux_config_default() {
    let config = RemuxConfig::default();
    assert_eq!(config.input_format, "auto");
    assert_eq!(config.chunk_size, 256 * 1024);
    assert!(config.use_fragmented_mp4);
}

#[test]
fn test_remux_config_avi() {
    let config = RemuxConfig::for_avi();
    assert_eq!(config.input_format, "avi");
    assert_eq!(config.analyze_duration, 100_000_000);
    assert_eq!(config.probe_size, 100_000_000);
}

#[test]
fn test_remux_config_low_latency() {
    let config = RemuxConfig::low_latency();
    assert_eq!(config.chunk_size, 128 * 1024);
    assert_eq!(config.buffer_capacity, 64);
}

#[test]
fn test_ffmpeg_args_include_copy_codecs() {
    let config = RemuxConfig::default();
    let args = config.build_ffmpeg_args();
    assert!(args.contains(&"-c:v".to_string()));
    assert!(args.contains(&"copy".to_string()));
    assert!(args.contains(&"-c:a".to_string()));
    assert!(args.contains(&"frag_keyframe+empty_moov+default_base_moof".to_string()));
    assert!(args.contains(&"pipe:1".to_string()));
}

#[test]
fn test_remux_config_validation() {
    let mut config = RemuxConfig::default();
    assert!(RealtimeRemuxer::new(config.clone()).is_ok());
    config.chunk_size = 0;
    assert!(RealtimeRemuxer::new(config.clone()).is_err());
    config.chunk_size = 1024;
    config.buffer_capacity = 0;
    assert!(RealtimeRemuxer::new(config).is_err());
}

#[test]
fn test_remuxed_chunk_properties() {
    let chunk = RemuxedChunk { offset: 0, data: vec![0, 0, 0, 32], is_header: true, timestamp: Instant::now() };
    assert_eq!(chunk.offset, 0);
    assert!(chunk.is_header);
    assert_eq!(chunk.data.len(), 4);
}

#[test]
fn test_remux_status_transitions() {
    assert_eq!(RemuxStatus::Initializing, RemuxStatus::Initializing);
    assert_ne!(RemuxStatus::Running, RemuxStatus::Completed);
    let status = RemuxStatus::Running;
    assert!(matches!(status, RemuxStatus::Running));
}

#[test]
fn default_ffmpeg_args_in_order() {
    let args = RemuxConfig::default().build_ffmpeg_args();
    let expected: Vec<&str> = vec![
        "-y", "-analyzeduration", "10000000", "-probesize", "20971520", "-err_detect", "ignore_err", "-fflags",
        "+igndts+ignidx+genpts+discardcorrupt+nobuffer", "-avoid_negative_ts", "make_zero", "-thread_queue_size",
        "2048", "-i", "pipe:0", "-c:v", "copy", "-c:a", "copy", "-movflags",
        "frag_keyframe+empty_moov+default_base_moof", "-frag_duration", "2000000", "-f", "mp4",
        "-max_muxing_queue_size", "4096", "pipe:1",
    ];
    assert_eq!(args, expected);
}

#[test]
fn avi_ffmpeg_args_use_long_fragments_and_copied_timestamps() {
    let mut config = RemuxConfig::for_avi();
    config.input_format = "AVI".to_string();
    config.extra_args = vec!["-an".to_string()];
    let args = config.build_ffmpeg_args();
    let pos = args.iter().position(|a| a == "-f").unwrap();
    assert_eq!(args[pos + 1], "AVI");
    assert!(args.contains(&"frag_keyframe+empty_moov+default_base_moof+flush_packets".to_string()));
    assert!(args.contains(&"-copyts".to_string()));
    assert_eq!(args[args.len() - 2], "-an");
    assert_eq!(args.last().unwrap(), "pipe:1");
}

#[test]
fn invalid_config_messages() {
    let mut config = RemuxConfig::default();
    config.buffer_capacity = 0;
    match RealtimeRemuxer::new(config) {
        Err(RemuxError::InvalidConfig(m)) => assert_eq!(m, "buffer_capacity must be greater than 0"),
        _ => panic!("expected an invalid configuration"),
    }
}

#[test]
fn first_chunk_in_header_region_is_the_header() {
    let mut cursor = OutputCursor::new();
    let a = cursor.next_chunk(vec![1u8; 1000], Instant::now());
    let b = cursor.next_chunk(vec![2u8; 500], Instant::now());
    assert!(a.is_header);
    assert!(!b.is_header);
    assert_eq!((a.offset, b.offset, cursor.offset), (0, 1000, 1500));
}

#[test]
fn running_states() {
    assert!(RemuxStatus::Initializing.is_running());
    assert!(!RemuxStatus::Terminated.is_running());
    assert_eq!(RemuxStatus::on_finish(false), RemuxStatus::Failed);
}
