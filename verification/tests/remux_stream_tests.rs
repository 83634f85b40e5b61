use riptide_core::remux_stream::{min_required_size, InputPump, PumpAction, PumpPhase, RemuxStreamProducer};

#[test]
fn test_ffmpeg_args() {
    let args = RemuxStreamProducer::<()>::build_ffmpeg_args();
    assert!(args.contains(&"-i".to_string()));
    assert!(args.contains(&"pipe:0".to_string()));
    assert!(args.contains(&"-c:v".to_string()));
    assert!(args.contains(&"copy".to_string()));
    assert!(args.contains(&"-c:a".to_string()));
    assert!(args.contains(&"copy".to_string()));
    assert!(args.contains(&"-movflags".to_string()));
    assert!(args.contains(&"frag_keyframe+empty_moov+default_base_moof".to_string()));
    assert!(args.contains(&"-f".to_string()));
    assert!(args.contains(&"mp4".to_string()));
    assert!(args.contains(&"pipe:1".to_string()));
}

#[test]
fn test_remux_stream_producer_creation() {
    let producer = RemuxStreamProducer::new((), "mkv".to_string());
    assert_eq!(producer.source_format(), "mkv");
}

#[test]
fn sequential_requirement_by_file_size() {
    assert_eq!(min_required_size(512), 1);
    assert_eq!(min_required_size(200 * 1024), 1024);
    assert_eq!(min_required_size(100 * 1024 * 1024), 10 * 1024 * 1024);
    assert_eq!(min_required_size(12 * 1024 * 1024), 6 * 1024 * 1024);
}

#[test]
fn pump_feeds_whole_file_in_chunks() {
    let mut pump = InputPump::new(512, false);
    assert_eq!(pump.next_action(), PumpAction::Read { offset: 0, length: 512 });
    pump.record_read(512);
    assert_eq!(pump.next_action(), PumpAction::Finish);
}

#[test]
fn pump_verifies_then_feeds() {
    let mut pump = InputPump::new(300 * 1024, true);
    assert_eq!(pump.phase, PumpPhase::Verifying);
    assert_eq!(pump.next_action(), PumpAction::Read { offset: 0, length: 256 * 1024 });
    pump.record_read(1024);
    assert_eq!(pump.phase, PumpPhase::Feeding);
    assert_eq!(pump.next_action(), PumpAction::Read { offset: 0, length: 256 * 1024 });
    pump.record_read(256 * 1024);
    assert_eq!(pump.next_action(), PumpAction::Read { offset: 256 * 1024, length: 44 * 1024 });
}
