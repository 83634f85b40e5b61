use riptide_core::mp4_parser::{avi_frame_timing, find_atom, mp4_duration_fields, parse_mvhd_fields};

#[test]
fn test_find_atom() {
    let mut data = Vec::new();
    data.extend_from_slice(&16u32.to_be_bytes());
    data.extend_from_slice(b"ftyp");
    data.extend_from_slice(&[0u8; 8]);
    data.extend_from_slice(&20u32.to_be_bytes());
    data.extend_from_slice(b"moov");
    data.extend_from_slice(&[1, 2, 3, 4, 5, 6, 7, 8, 9, 10, 11, 12]);
    let moov_data = find_atom(&data, b"moov").unwrap();
    assert_eq!(moov_data, vec![1, 2, 3, 4, 5, 6, 7, 8, 9, 10, 11, 12]);
    let missing = find_atom(&data, b"mdat");
    assert!(missing.is_none());
}

#[test]
fn mvhd_version_0_fields() {
    let mut mvhd_data = Vec::new();
    mvhd_data.extend_from_slice(&[0, 0, 0, 0]);
    mvhd_data.extend_from_slice(&[0, 0, 0, 0]);
    mvhd_data.extend_from_slice(&[0, 0, 0, 0]);
    mvhd_data.extend_from_slice(&1000u32.to_be_bytes());
    mvhd_data.extend_from_slice(&5000u32.to_be_bytes());
    assert_eq!(parse_mvhd_fields(&mvhd_data), Some((5000, 1000)));
}

#[test]
fn mvhd_version_1_and_errors() {
    let mut d = vec![1u8, 0, 0, 0];
    d.extend_from_slice(&[0u8; 16]);
    d.extend_from_slice(&600u32.to_be_bytes());
    d.extend_from_slice(&(1u64 << 33).to_be_bytes());
    assert_eq!(parse_mvhd_fields(&d), Some((1u64 << 33, 600)));
    assert_eq!(parse_mvhd_fields(&[0u8; 19]), None);
    let mut z = vec![0u8; 20];
    z[0] = 0;
    assert_eq!(parse_mvhd_fields(&z), None);
}

#[test]
fn duration_fields_of_mp4() {
    let mut mvhd = vec![0u8; 12];
    mvhd.extend_from_slice(&90000u32.to_be_bytes());
    mvhd.extend_from_slice(&450000u32.to_be_bytes());
    let mut moov = Vec::new();
    moov.extend_from_slice(&((8 + mvhd.len()) as u32).to_be_bytes());
    moov.extend_from_slice(b"mvhd");
    moov.extend_from_slice(&mvhd);
    let mut data = Vec::new();
    data.extend_from_slice(&((8 + moov.len()) as u32).to_be_bytes());
    data.extend_from_slice(b"moov");
    data.extend_from_slice(&moov);
    assert_eq!(mp4_duration_fields(&data), Some((450000, 90000)));
}

#[test]
fn avi_frame_timing_from_main_header() {
    let mut avi_data = Vec::new();
    avi_data.extend_from_slice(b"RIFF");
    avi_data.extend_from_slice(&200u32.to_le_bytes());
    avi_data.extend_from_slice(b"AVI ");
    avi_data.extend_from_slice(b"LIST");
    avi_data.extend_from_slice(&100u32.to_le_bytes());
    avi_data.extend_from_slice(b"hdrl");
    avi_data.extend_from_slice(b"avih");
    avi_data.extend_from_slice(&56u32.to_le_bytes());
    avi_data.extend_from_slice(&40000u32.to_le_bytes());
    avi_data.extend_from_slice(&[0u8; 12]);
    avi_data.extend_from_slice(&2500u32.to_le_bytes());
    avi_data.extend_from_slice(&[0u8; 32]);
    assert_eq!(avi_frame_timing(&avi_data), Some((40000, 2500)));
    assert_eq!(avi_frame_timing(b"RIFF"), None);
}

fn avi_with_header(us_per_frame: u32, frames: u32, leading_junk: bool) -> Vec<u8> {
    let mut avi_data = Vec::new();
    avi_data.extend_from_slice(b"RIFF");
    avi_data.extend_from_slice(&300u32.to_le_bytes());
    avi_data.extend_from_slice(b"AVI ");
    if leading_junk {
        // An odd-sized chunk before the header list, padded to an even offset.
        avi_data.extend_from_slice(b"JUNK");
        avi_data.extend_from_slice(&5u32.to_le_bytes());
        avi_data.extend_from_slice(&[0u8; 6]);
    }
    avi_data.extend_from_slice(b"LIST");
    avi_data.extend_from_slice(&100u32.to_le_bytes());
    avi_data.extend_from_slice(b"hdrl");
    avi_data.extend_from_slice(b"avih");
    avi_data.extend_from_slice(&56u32.to_le_bytes());
    avi_data.extend_from_slice(&us_per_frame.to_le_bytes());
    avi_data.extend_from_slice(&[0u8; 12]);
    avi_data.extend_from_slice(&frames.to_le_bytes());
    avi_data.extend_from_slice(&[0u8; 40]);
    avi_data
}

#[test]
fn avi_frame_timing_walks_padded_chunks_and_checks_plausibility() {
    assert_eq!(avi_frame_timing(&avi_with_header(33366, 1000, true)), Some((33366, 1000)));
    // Under a second in all: not plausible.
    assert_eq!(avi_frame_timing(&avi_with_header(1000, 10, false)), None);
    // Over a day in all: not plausible.
    assert_eq!(avi_frame_timing(&avi_with_header(1_000_000, 90_000, false)), None);
    // Not an AVI file.
    let mut other = avi_with_header(40000, 2500, false);
    other[8..12].copy_from_slice(b"WAVE");
    assert_eq!(avi_frame_timing(&other), None);
}
