use riptide_core::strategy::{ContainerDetector, ContainerFormat};

#[test]
fn test_container_format_browser_compatibility() {
    assert!(ContainerFormat::Mp4.is_browser_compatible());
    assert!(ContainerFormat::WebM.is_browser_compatible());
    assert!(!ContainerFormat::Mkv.is_browser_compatible());
    assert!(!ContainerFormat::Avi.is_browser_compatible());
}

#[test]
fn test_container_format_mime_types() {
    assert_eq!(ContainerFormat::Mp4.mime_type(), "video/mp4");
    assert_eq!(ContainerFormat::WebM.mime_type(), "video/webm");
    assert_eq!(ContainerFormat::Mkv.mime_type(), "video/x-matroska");
}

#[test]
fn test_container_detection_mp4() {
    let mp4_header = [
        0x00, 0x00, 0x00, 0x20, b'f', b't', b'y', b'p', b'm', b'p', b'4', b'1', 0x00, 0x00, 0x00,
        0x00,
    ];
    assert_eq!(ContainerDetector::detect_format(&mp4_header), ContainerFormat::Mp4);
}

#[test]
fn test_container_detection_webm() {
    let mut webm_header = vec![
        0x1A, 0x45, 0xDF, 0xA3, 0x01, 0x00, 0x00, 0x00, 0x00, 0x00, 0x00, 0x1F,
    ];
    webm_header.extend_from_slice(b"webm");
    webm_header.resize(50, 0);
    assert_eq!(ContainerDetector::detect_format(&webm_header), ContainerFormat::WebM);
}

#[test]
fn test_container_detection_mkv() {
    let mkv_header = [
        0x1A, 0x45, 0xDF, 0xA3, 0x01, 0x00, 0x00, 0x00, 0x00, 0x00, 0x00, 0x1F, 0x42, 0x86, 0x81,
        0x01, b'm', 0x00, 0x00,
    ];
    assert_eq!(ContainerDetector::detect_format(&mkv_header), ContainerFormat::Mkv);
}

#[test]
fn test_container_detection_avi() {
    let avi_header = [
        b'R', b'I', b'F', b'F', 0x24, 0x00, 0x00, 0x00, b'A', b'V', b'I', b' ', 0x4C, 0x49, 0x53,
        0x54,
    ];
    assert_eq!(ContainerDetector::detect_format(&avi_header), ContainerFormat::Avi);
}

#[test]
fn test_container_detection_unknown() {
    let unknown_header = [0x00; 16];
    assert_eq!(ContainerDetector::detect_format(&unknown_header), ContainerFormat::Unknown);
    let short_header = [0x00; 8];
    assert_eq!(ContainerDetector::detect_format(&short_header), ContainerFormat::Unknown);
}

#[test]
fn quicktime_brand_is_detected() {
    let header = [
        0, 0, 0, 0x20, b'f', b't', b'y', b'p', b'q', b't', b' ', b' ', 0, 0, 0, 0,
    ];
    assert_eq!(ContainerDetector::detect_format(&header), ContainerFormat::Mov);
}

#[test]
fn unknown_format_is_served_as_mp4() {
    assert_eq!(ContainerFormat::Unknown.mime_type(), "video/mp4");
    assert_eq!(ContainerFormat::Avi.mime_type(), "video/x-msvideo");
}

#[test]
fn late_webm_doctype_is_matroska() {
    let mut header = vec![0x1A, 0x45, 0xDF, 0xA3];
    header.resize(100, 0);
    header.extend_from_slice(b"webm");
    assert_eq!(ContainerDetector::detect_format(&header), ContainerFormat::Mkv);
}
