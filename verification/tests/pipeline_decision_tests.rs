use std::ops::Range;
use std::time::Instant;

use riptide_core::ffmpeg::RemuxingOptions;
use riptide_core::file_assembler::FileAssembler;
use riptide_core::piece_provider_adapter::read_end;
use riptide_core::piece_reader::{assemble_range, calculate_file_size, plan_read, PieceReaderError};
use riptide_core::progressive::coordinator::CoordinatorState;
use riptide_core::progressive::diagnostics::{
    diagnose, initial_check_end, pieces_downloaded, scan_step_end, total_pieces, SequentialVerdict,
};
use riptide_core::progressive::{is_timeout_reason, output_ready, PumpMove, PumpStage, PumpState, ReadOutcome};
use riptide_core::remux_streaming::{
    accept_short_read, build_session_args, check_data_availability, head_and_tail_ranges, header_ready,
    output_read_length, streaming_ready, DataAvailability, FeedWait, InputFeed, OutputBuffer, RemuxingStatus,
};
use riptide_core::remux_streaming::{get_session_info, supports_format, SessionSnapshot, SessionStatus};
use riptide_core::strategy::ContainerFormat;
use riptide_core::performance_tests::{advance_position, average_latency, throughput_chunk};
use riptide_core::torrent::InfoHash;

const MB: u64 = 1024 * 1024;

struct RangesAssembler {
    available: Vec<Range<u64>>,
}

impl FileAssembler for RangesAssembler {
    fn range_available(&self, _info_hash: InfoHash, start: u64, end: u64) -> bool {
        self.available.iter().any(|r| r.start <= start && r.end >= end)
    }

    fn is_range_available(&self, info_hash: InfoHash, range: Range<u64>) -> bool {
        self.range_available(info_hash, range.start, range.end)
    }
}

#[test]
fn test_plan_read_cases() {
    assert!(matches!(plan_read(10, 5, 100, 10), Err(PieceReaderError::InvalidRange { start: 10, end: 5 })));
    assert!(matches!(plan_read(0, 101, 100, 10), Err(PieceReaderError::RangeExceedsFile { start: 0, end: 101, file_size: 100 })));
    assert_eq!(plan_read(15, 35, 100, 10).unwrap(), (1, 3));
    assert_eq!(plan_read(0, 10, 100, 10).unwrap(), (0, 0));
}

#[test]
fn test_file_size_calculation() {
    assert_eq!(calculate_file_size(0, 1024, 0), 0);
    assert_eq!(calculate_file_size(1, 1024, 700), 700);
    assert_eq!(calculate_file_size(3, 1024, 500), 2548);
}

#[test]
fn test_read_across_multiple_pieces() {
    let pieces = vec![b"0123456789".to_vec(), b"abcdefghij".to_vec(), b"ABCDE".to_vec()];
    assert_eq!(assemble_range(&pieces, 0, 10, 8, 22).unwrap(), b"89abcdefghijAB".to_vec());
    let later = vec![b"abcdefghij".to_vec()];
    assert_eq!(assemble_range(&later, 1, 10, 12, 15).unwrap(), b"cde".to_vec());
}

#[test]
fn test_read_full_file_single_piece() {
    let pieces = vec![b"Hello, World!".to_vec()];
    assert_eq!(assemble_range(&pieces, 0, 16, 0, 13).unwrap(), b"Hello, World!".to_vec());
}

#[test]
fn test_read_partial_range_single_piece() {
    let pieces = vec![b"Hello, World!".to_vec()];
    assert_eq!(assemble_range(&pieces, 0, 16, 7, 12).unwrap(), b"World".to_vec());
}

#[test]
fn test_assemble_piece_too_small() {
    let pieces = vec![b"abc".to_vec()];
    assert!(matches!(assemble_range(&pieces, 0, 10, 5, 8), Err(PieceReaderError::PieceTooSmall { .. })));
}

#[test]
fn test_head_and_tail_ranges() {
    assert_eq!(head_and_tail_ranges(3 * MB, 100 * MB), ((0, 3 * MB), (97 * MB, 100 * MB)));
    assert_eq!(head_and_tail_ranges(3 * MB, MB), ((0, MB), (0, MB)));
}

#[test]
fn test_check_data_availability() {
    let h = InfoHash::new([1u8; 20]);
    let file_size = 100 * MB;
    let full = RangesAssembler { available: vec![0..3 * MB, 97 * MB..100 * MB] };
    assert_eq!(check_data_availability(&full, h, 3 * MB, file_size), DataAvailability::Sufficient);
    let head_part = RangesAssembler { available: vec![0..2 * MB] };
    assert_eq!(
        check_data_availability(&head_part, h, 3 * MB, file_size),
        DataAvailability::Insufficient { available: 2 * MB, needed: 6 * MB }
    );
    let tail_only = RangesAssembler { available: vec![97 * MB..100 * MB] };
    assert_eq!(
        check_data_availability(&tail_only, h, 3 * MB, file_size),
        DataAvailability::Insufficient { available: 3 * MB, needed: 6 * MB }
    );
}

#[test]
fn test_output_buffer_trims_beyond_header() {
    let mut buffer = OutputBuffer::new(100);
    buffer.insert(0, vec![0u8; 80]);
    buffer.insert(10 * MB, vec![0u8; 50]);
    assert_eq!(buffer.chunk_count(), 1);
    assert_eq!(buffer.total_bytes(), 80);
    buffer.insert(10 * MB + 100, vec![0u8; 10]);
    assert_eq!(buffer.chunk_count(), 2);
    assert_eq!(buffer.total_bytes(), 90);
}

#[test]
fn test_output_buffer_keeps_header_region() {
    let mut buffer = OutputBuffer::new(10);
    buffer.insert(0, vec![0u8; 30]);
    buffer.insert(100, vec![0u8; 30]);
    assert_eq!(buffer.chunk_count(), 2);
    assert_eq!(buffer.total_bytes(), 60);
}

#[test]
fn test_input_feed_progress() {
    let mut feed = InputFeed::new(10);
    assert_eq!(feed.next_chunk(4), Some((0, 4)));
    feed.on_fed(4);
    assert_eq!(feed.next_chunk(8), Some((4, 10)));
    assert_eq!(feed.on_unavailable(true), FeedWait::Retry);
    assert_eq!(feed.retry_count, 1);
    feed.on_available();
    assert_eq!(feed.retry_count, 0);
    assert_eq!(feed.on_unavailable(false), FeedWait::Stop);
    feed.on_fed(6);
    assert_eq!(feed.next_chunk(8), None);
}

#[test]
fn test_input_feed_gives_up() {
    let mut feed = InputFeed::new(10);
    for _ in 0..600 {
        assert_eq!(feed.on_unavailable(true), FeedWait::Retry);
    }
    assert_eq!(feed.on_unavailable(true), FeedWait::GiveUp);
}

#[test]
fn test_session_args_reencode_copy() {
    let args = build_session_args(&RemuxingOptions::default(), "/tmp/x.mp4");
    assert_eq!(args[0], "-y");
    assert_eq!(args.last().unwrap(), "/tmp/x.mp4");
    assert!(args.contains(&"-movflags".to_string()));
}

#[test]
fn test_output_read_rules() {
    assert!(output_read_length(&RemuxingStatus::Processing { input_consumed: 0 }, 100, 100, 200).is_err());
    assert_eq!(output_read_length(&RemuxingStatus::Processing { input_consumed: 0 }, 100, 50, 200).unwrap(), 50);
    assert_eq!(output_read_length(&RemuxingStatus::Completed { total_output: 100 }, 100, 10, 20).unwrap(), 10);
    assert!(accept_short_read(&RemuxingStatus::Completed { total_output: 5 }, 0));
    assert!(!accept_short_read(&RemuxingStatus::Processing { input_consumed: 0 }, 0));
    assert!(accept_short_read(&RemuxingStatus::Processing { input_consumed: 0 }, 3));
}

#[test]
fn test_header_and_streaming_readiness() {
    let mut header = vec![0u8; 32];
    header[4..8].copy_from_slice(b"ftyp");
    assert!(header_ready(10 * MB, &header, false));
    assert!(!header_ready(10 * MB - 1, &header, true));
    assert!(!header_ready(10 * MB, &header[..31], true));
    assert!(!header_ready(10 * MB, &[0u8; 32], false));
    assert!(streaming_ready(true, 5 * MB, Some(32 * 1024)));
    assert!(!streaming_ready(true, 5 * MB, Some(32 * 1024 - 1)));
    assert!(!streaming_ready(false, 5 * MB, Some(32 * 1024)));
    assert!(!streaming_ready(true, 5 * MB, None));
}

#[test]
fn test_stream_pump_basic() {
    let mut pump = PumpState::new(3 * MB);
    assert_eq!(pump.next_move(false), PumpMove::Read { start: 0, end: MB });
    assert_eq!(pump.after_read(ReadOutcome::Data(MB)), 0);
    assert_eq!(pump.next_move(false), PumpMove::Read { start: MB, end: 2 * MB });
    pump.after_read(ReadOutcome::Data(MB));
    pump.after_read(ReadOutcome::Data(MB));
    assert_eq!(pump.next_move(false), PumpMove::Done);
    assert_eq!(pump.stage, PumpStage::Streaming);
}

#[test]
fn test_stream_pump_with_delays() {
    let mut pump = PumpState::new(30 * MB);
    assert_eq!(pump.after_read(ReadOutcome::Empty), 100);
    assert_eq!(pump.consecutive_failures, 0);
    assert_eq!(pump.next_move(true), PumpMove::TimedOut);
    pump.offset = 20 * MB;
    assert_eq!(pump.next_move(true), PumpMove::Read { start: 20 * MB, end: 21 * MB });
    assert_eq!(pump.after_read(ReadOutcome::Empty), 500);
    assert_eq!(pump.after_read(ReadOutcome::InsufficientData), 1000);
    assert_eq!(pump.after_read(ReadOutcome::StorageTimeout), 2000);
    assert_eq!(pump.after_read(ReadOutcome::OtherError), 100);
    assert_eq!(pump.consecutive_failures, 4);
    assert!(!pump.should_stop(false));
    assert!(pump.should_stop(true));
    pump.consecutive_failures = 180;
    assert!(pump.should_stop(false));
    pump.after_read(ReadOutcome::Data(5));
    assert_eq!(pump.consecutive_failures, 0);
    assert_eq!(pump.offset, 20 * MB + 5);
}

#[test]
fn test_timeout_reason_and_output() {
    assert!(is_timeout_reason("storage timeout after 5s"));
    assert!(!is_timeout_reason("Timeout"));
    assert!(output_ready(Some(128 * 1024)));
    assert!(!output_ready(Some(128 * 1024 - 1)));
    assert!(!output_ready(None));
}

#[test]
fn test_coordinator_events() {
    let t0 = Instant::now();
    let mut state = CoordinatorState::new(1000, t0);
    assert_eq!(state.bytes_written, 0);
    assert_eq!(state.file_size, 1000);
    assert!(!state.ffmpeg_running);
    assert!(!state.timed_out(true));
    state.ffmpeg_running = true;
    assert!(!state.timed_out(false));
    assert!(state.timed_out(true));
    assert_eq!(state.next_check_range(), Some((0, 1000)));
    state.on_data_written(400, Instant::now());
    assert_eq!(state.bytes_written, 400);
    state.on_streaming_position(250);
    assert_eq!(state.streaming_position, 250);
    state.on_process_exited();
    assert!(!state.ffmpeg_running);
    assert!(!state.timed_out(true));
    state.on_data_written(1000, Instant::now());
    assert_eq!(state.next_check_range(), None);
    let big = CoordinatorState::new(5 * MB, t0);
    assert_eq!(big.next_check_range(), Some((0, MB)));
}

#[test]
fn test_coordinator_creation() {
    let state = CoordinatorState::new(1000000, Instant::now());
    assert_eq!(state.bytes_written, 0);
    assert_eq!(state.file_size, 1000000);
    assert!(!state.ffmpeg_running);
}

#[test]
fn test_performance_helpers() {
    assert_eq!(throughput_chunk(0, 100, 30), Some(30));
    assert_eq!(throughput_chunk(90, 100, 30), Some(10));
    assert_eq!(throughput_chunk(100, 100, 30), None);
    assert_eq!(advance_position(70, 30, 100), 0);
    assert_eq!(advance_position(10, 30, 100), 40);
    assert_eq!(average_latency(&vec![10, 20, 33]), 21);
    assert_eq!(average_latency(&vec![]), 0);
}

#[test]
fn test_adapter_read_end() {
    assert_eq!(read_end(100, 50), 150);
    assert_eq!(read_end(u64::MAX - 10, 10), u64::MAX);
}

#[test]
fn test_session_info_reports_each_state() {
    let hash = InfoHash::new([3u8; 20]);
    let none = RangesAssembler { available: vec![] };
    assert!(get_session_info(&none, hash, None, 10 * MB).is_none());

    let waiting = SessionSnapshot { file_size: 100 * MB, output_size: 0, status: RemuxingStatus::WaitingForHead { bytes_needed: 10 * MB } };
    let info = get_session_info(&none, hash, Some(&waiting), 10 * MB).unwrap();
    assert!(matches!(info.status, SessionStatus::WaitingForData { bytes_needed, bytes_available: 0 } if bytes_needed == 10 * MB));

    let head_only = RangesAssembler { available: vec![0..10 * MB] };
    let info = get_session_info(&head_only, hash, Some(&waiting), 10 * MB).unwrap();
    assert!(matches!(info.status, SessionStatus::WaitingForData { bytes_available, .. } if bytes_available == 5 * MB));

    let both = RangesAssembler { available: vec![0..10 * MB, 90 * MB..100 * MB] };
    let info = get_session_info(&both, hash, Some(&waiting), 10 * MB).unwrap();
    assert!(matches!(info.status, SessionStatus::WaitingForData { bytes_available, .. } if bytes_available == 10 * MB));

    let running = SessionSnapshot { file_size: 200, output_size: 50, status: RemuxingStatus::Processing { input_consumed: 80 } };
    let info = get_session_info(&none, hash, Some(&running), 10 * MB).unwrap();
    assert!(matches!(info.status, SessionStatus::Remuxing { progress: Some((80, 200)) }));
    assert_eq!(info.output_size, 50);

    let empty = SessionSnapshot { file_size: 0, output_size: 0, status: RemuxingStatus::Processing { input_consumed: 0 } };
    assert!(matches!(get_session_info(&none, hash, Some(&empty), 1).unwrap().status, SessionStatus::Remuxing { progress: None }));

    let done = SessionSnapshot { file_size: 10, output_size: 12, status: RemuxingStatus::Completed { total_output: 12 } };
    assert!(matches!(get_session_info(&none, hash, Some(&done), 1).unwrap().status, SessionStatus::Ready));

    let failed = SessionSnapshot { file_size: 10, output_size: 0, status: RemuxingStatus::Failed { reason: "boom".to_string() } };
    match get_session_info(&none, hash, Some(&failed), 1).unwrap().status {
        SessionStatus::Error { error } => assert_eq!(error, "boom"),
        other => panic!("unexpected status {:?}", other),
    }
}

#[test]
fn test_remux_streaming_supported_formats() {
    assert!(supports_format(ContainerFormat::Avi));
    assert!(supports_format(ContainerFormat::Mkv));
    assert!(supports_format(ContainerFormat::Mp4));
    assert!(!supports_format(ContainerFormat::Mov));
    assert!(!supports_format(ContainerFormat::WebM));
    assert!(!supports_format(ContainerFormat::Unknown));
}

#[test]
fn test_diagnostics_decisions() {
    assert_eq!(total_pieces(1_000_000, 262_144), 4);
    assert_eq!(total_pieces(524_288, 262_144), 2);
    assert_eq!(total_pieces(0, 262_144), 0);
    assert_eq!(total_pieces(u64::MAX, 1), u64::MAX);
    assert_eq!(scan_step_end(0, 100, 250), 100);
    assert_eq!(scan_step_end(200, 100, 250), 250);
    assert_eq!(initial_check_end(5 * MB), 5 * MB);
    assert_eq!(initial_check_end(50 * MB), 10 * MB);
    assert_eq!(pieces_downloaded(1_000_000, 262_144), 3);
    assert_eq!(diagnose(false, 1000, 1000), SequentialVerdict::InitialMissing);
    assert_eq!(diagnose(true, 9, 100), SequentialVerdict::VeryLittle);
    assert_eq!(diagnose(true, 10, 100), SequentialVerdict::LessThanHalf);
    assert_eq!(diagnose(true, 49, 100), SequentialVerdict::LessThanHalf);
    assert_eq!(diagnose(true, 50, 100), SequentialVerdict::Good);
}

#[test]
fn pump_reads_start_where_fed_bytes_end() {
    let mut state = PumpState::new(3 * 1024 * 1024 + 10);
    let mut fed: u64 = 0;
    for n in [1000u64, 0, 1024 * 1024, 5] {
        match state.next_move(false) {
            PumpMove::Read { start, .. } => assert_eq!(start, fed),
            other => panic!("unexpected move {:?}", other),
        }
        let outcome = if n == 0 { ReadOutcome::Empty } else { ReadOutcome::Data(n) };
        state.after_read(outcome);
        fed += n;
        assert_eq!(state.offset, fed);
    }
}
