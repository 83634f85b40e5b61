use riptide_core::ffmpeg::{
    build_remux_args, check_moov_found, check_output_header, check_output_size, moov_scan_step, streams_reencoded,
    MoovScan, ProductionFfmpegProcessor, RemuxingOptions,
};

#[test]
fn test_remuxing_options_defaults() {
    let options = RemuxingOptions::default();
    assert_eq!(options.video_codec, "copy");
    assert_eq!(options.audio_codec, "copy");
    assert!(options.faststart);
    assert_eq!(options.timeout_seconds, Some(300));
}

#[test]
fn avi_input_gets_compatibility_options_and_aac() {
    let args = build_remux_args("/data/Movie.AVI", "/out/movie.mp4", &RemuxingOptions::default());
    let expected: Vec<&str> = vec![
        "-y", "-i", "/data/Movie.AVI", "-fflags", "+genpts+igndts", "-avoid_negative_ts", "make_zero",
        "-max_muxing_queue_size", "9999", "-err_detect", "ignore_err", "-copy_unknown", "-f", "mp4", "-c:v", "copy",
        "-c:a", "aac", "-b:a", "192k", "-movflags", "frag_keyframe+empty_moov+default_base_moof", "-f", "mp4",
        "/out/movie.mp4",
    ];
    assert_eq!(args, expected);
}

#[test]
fn mkv_input_maps_video_and_audio() {
    let mut o = RemuxingOptions::default();
    o.video_codec = "libx264".to_string();
    let args = build_remux_args("a.mkv", "b.mp4", &o);
    assert_eq!(&args[3..7], &["-map", "0:v", "-map", "0:a?"]);
    assert!(args.contains(&"zerolatency".to_string()));
    assert!(streams_reencoded("a.mkv", &o));
    assert!(!streams_reencoded("a.mkv", &RemuxingOptions::default()));
}

#[test]
fn output_checks() {
    assert!(check_output_size(99).is_err());
    assert!(check_output_size(100).is_ok());
    let good = [0u8, 0, 0, 24, b'f', b't', b'y', b'p', b'i', b's', b'o', b'm'];
    assert!(check_output_header(Some(&good)).is_ok());
    assert!(check_output_header(Some(&[0u8; 12])).is_err());
    assert!(check_output_header(None).is_err());
    assert!(check_moov_found(true).is_ok());
    assert!(check_moov_found(false).is_err());
}

#[test]
fn moov_scan_moves_box_by_box() {
    let ftyp = [0u8, 0, 0, 24, b'f', b't', b'y', b'p'];
    assert_eq!(moov_scan_step(0, 1000, Some(&ftyp)), MoovScan::Next(24));
    let moov = [0u8, 0, 1, 0, b'm', b'o', b'o', b'v'];
    assert_eq!(moov_scan_step(24, 1000, Some(&moov)), MoovScan::Found);
    let zero = [0u8, 0, 0, 0, b'm', b'd', b'a', b't'];
    assert_eq!(moov_scan_step(24, 1000, Some(&zero)), MoovScan::NotFound);
    assert_eq!(moov_scan_step(24, 1000, None), MoovScan::NotFound);
}

#[test]
fn processor_keeps_its_path() {
    let p = riptide_core::ffmpeg::ProductionFfmpegProcessor::new(Some("/usr/bin/ffmpeg".to_string()));
    assert_eq!(p.ffmpeg_path().as_deref(), Some("/usr/bin/ffmpeg"));
}

#[test]
fn avi_input_always_reencodes_audio() {
    let o = RemuxingOptions::default();
    assert!(streams_reencoded("/in/MOVIE.AVI", &o));
    assert!(streams_reencoded("clip.avi", &o));
    assert!(!streams_reencoded("clip.mp4", &o));
}

#[test]
fn custom_binary_path_is_the_program() {
    assert_eq!(riptide_core::ffmpeg::ProductionFfmpegProcessor::new(None).program(), "ffmpeg");
    assert_eq!(riptide_core::ffmpeg::ProductionFfmpegProcessor::new(Some("/opt/ff/ffmpeg".to_string())).program(), "/opt/ff/ffmpeg");
}
