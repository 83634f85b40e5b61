use riptide_core::media_info::{
    detect_container_format, extension, mime_type, requires_remuxing, MediaInfo, MediaInfoError,
};
use riptide_core::remux::types::ContainerFormat;

#[test]
fn test_mp4_detection() {
    let mp4_data = [
        0x00, 0x00, 0x00, 0x20, b'f', b't', b'y', b'p', b'i', b's', b'o', b'm',
    ];
    let format = detect_container_format(&mp4_data).unwrap();
    assert_eq!(format, ContainerFormat::Mp4);
    assert!(!requires_remuxing(&format));
    assert_eq!(mime_type(&format), "video/mp4");
}

#[test]
fn test_webm_detection() {
    let mut webm_data = vec![0x1A, 0x45, 0xDF, 0xA3];
    webm_data.extend_from_slice(&[0x00; 20]);
    webm_data.extend_from_slice(b"webm");
    webm_data.extend_from_slice(&[0x00; 12]);
    let format = detect_container_format(&webm_data).unwrap();
    assert_eq!(format, ContainerFormat::WebM);
    assert!(!requires_remuxing(&format));
    assert_eq!(mime_type(&format), "video/webm");
}

#[test]
fn test_mkv_detection() {
    let mkv_data = [
        0x1A, 0x45, 0xDF, 0xA3, 0x93, 0x42, 0x86, 0x81, 0x01, 0x42, 0xF7, 0x81,
    ];
    let format = detect_container_format(&mkv_data).unwrap();
    assert_eq!(format, ContainerFormat::Mkv);
    assert!(requires_remuxing(&format));
    assert_eq!(mime_type(&format), "video/x-matroska");
}

#[test]
fn test_avi_detection() {
    let avi_data = [
        b'R', b'I', b'F', b'F', 0x00, 0x00, 0x00, 0x00, b'A', b'V', b'I', b' ',
    ];
    let format = detect_container_format(&avi_data).unwrap();
    assert_eq!(format, ContainerFormat::Avi);
    assert!(requires_remuxing(&format));
    assert_eq!(mime_type(&format), "video/x-msvideo");
}

#[test]
fn test_mov_detection() {
    let mov_data = [
        0x00, 0x00, 0x00, 0x20, b'f', b't', b'y', b'p', b'q', b't', b' ', b' ',
    ];
    let format = detect_container_format(&mov_data).unwrap();
    assert_eq!(format, ContainerFormat::Mov);
    assert!(requires_remuxing(&format));
    assert_eq!(mime_type(&format), "video/quicktime");
}

#[test]
fn test_unknown_format() {
    let unknown_data = [0xFF; 20];
    let format = detect_container_format(&unknown_data).unwrap();
    assert_eq!(format, ContainerFormat::Unknown);
    assert!(requires_remuxing(&format));
}

#[test]
fn test_insufficient_data() {
    let short_data = [0x00; 8];
    let result = detect_container_format(&short_data);
    assert!(matches!(result, Err(MediaInfoError::InsufficientData(8))));
}

#[test]
fn test_media_info_creation() {
    let mp4_data = [
        0x00, 0x00, 0x00, 0x20, b'f', b't', b'y', b'p', b'i', b's', b'o', b'm',
    ];
    let info = MediaInfo::from_bytes(&mp4_data).unwrap();
    assert_eq!(info.format, ContainerFormat::Mp4);
    assert!(!info.requires_remuxing);
    assert_eq!(info.mime_type, "video/mp4");
}

#[test]
fn test_format_extensions() {
    assert_eq!(extension(&ContainerFormat::Mp4), "mp4");
    assert_eq!(extension(&ContainerFormat::WebM), "webm");
    assert_eq!(extension(&ContainerFormat::Mkv), "mkv");
    assert_eq!(extension(&ContainerFormat::Avi), "avi");
    assert_eq!(extension(&ContainerFormat::Mov), "mov");
    assert_eq!(extension(&ContainerFormat::Unknown), "bin");
}

#[test]
fn moov_box_type_is_detected_as_mp4() {
    let data = [0, 0, 0, 8, b'm', b'o', b'o', b'v', b'x', b'x', b'x', b'x'];
    assert_eq!(detect_container_format(&data).unwrap(), ContainerFormat::Mp4);
}

#[test]
fn webm_doctype_outside_window_is_matroska() {
    let mut data = vec![0x1A, 0x45, 0xDF, 0xA3];
    data.extend_from_slice(&[0u8; 36]);
    data.extend_from_slice(b"webm");
    assert_eq!(detect_container_format(&data).unwrap(), ContainerFormat::Mkv);
}

#[test]
fn short_ebml_header_is_matroska() {
    let mut data = vec![0x1A, 0x45, 0xDF, 0xA3];
    data.extend_from_slice(&[0u8; 20]);
    data.extend_from_slice(b"webm");
    assert_eq!(data.len(), 28);
    assert_eq!(detect_container_format(&data).unwrap(), ContainerFormat::Mkv);
}

#[test]
fn media_info_rejects_short_header() {
    let r = MediaInfo::from_bytes(&[0u8; 11]);
    assert!(matches!(r, Err(MediaInfoError::InsufficientData(11))));
}

#[test]
fn unknown_format_mime_is_octet_stream() {
    assert_eq!(mime_type(&ContainerFormat::Unknown), "application/octet-stream");
    assert_eq!(mime_type(&ContainerFormat::Mov), "video/quicktime");
}
