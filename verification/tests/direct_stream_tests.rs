use axum::http::{header, HeaderMap, HeaderValue};
use riptide_core::direct_stream::{next_range_read, parse_u64, unsatisfiable_range_header, DirectResponse, DirectStreamProducer};

fn parse(headers: &HeaderMap) -> Option<(u64, Option<u64>)> {
    let value = headers.get(header::RANGE).and_then(|v| v.to_str().ok());
    DirectStreamProducer::<()>::parse_range_header(value)
}

#[test]
fn test_parse_range_header() {
    let mut headers = HeaderMap::new();
    headers.insert(header::RANGE, HeaderValue::from_static("bytes=10-20"));
    assert_eq!(parse(&headers), Some((10, Some(20))));
    headers.clear();
    headers.insert(header::RANGE, HeaderValue::from_static("bytes=50-"));
    assert_eq!(parse(&headers), Some((50, None)));
    headers.clear();
    headers.insert(header::RANGE, HeaderValue::from_static("invalid"));
    assert_eq!(parse(&headers), None);
    headers.clear();
    assert_eq!(parse(&headers), None);
}

#[test]
fn range_header_edge_cases() {
    assert_eq!(DirectStreamProducer::<()>::parse_range_header(Some("bytes=1-2-3")), None);
    assert_eq!(DirectStreamProducer::<()>::parse_range_header(Some("bytes=-5")), None);
    assert_eq!(DirectStreamProducer::<()>::parse_range_header(Some("bytes=+7-9")), Some((7, Some(9))));
    assert_eq!(DirectStreamProducer::<()>::parse_range_header(Some("bytes=18446744073709551616-")), None);
}

#[test]
fn decimal_parsing() {
    let c: Vec<char> = "18446744073709551615".chars().collect();
    assert_eq!(parse_u64(&c), Some(u64::MAX));
    let d: Vec<char> = "12a".chars().collect();
    assert_eq!(parse_u64(&d), None);
    assert_eq!(parse_u64(&[]), None);
}

#[test]
fn response_plans() {
    assert_eq!(DirectStreamProducer::<()>::plan_response(1024, None), DirectResponse::Full { length: 1024 });
    assert_eq!(
        DirectStreamProducer::<()>::plan_response(100, Some((10, Some(19)))),
        DirectResponse::Partial { start: 10, end: 19, length: 10 }
    );
    assert_eq!(
        DirectStreamProducer::<()>::plan_response(100, Some((90, None))),
        DirectResponse::Partial { start: 90, end: 99, length: 10 }
    );
    assert_eq!(DirectStreamProducer::<()>::plan_response(100, Some((150, Some(200)))), DirectResponse::NotSatisfiable);
    assert_eq!(unsatisfiable_range_header(100), "bytes */100");
}

#[test]
fn range_reads_in_chunks() {
    assert_eq!(next_range_read(10, 300_000, 0), Some((10, 262_144)));
    assert_eq!(next_range_read(10, 300_000, 262_144), Some((262_154, 37_856)));
    assert_eq!(next_range_read(10, 300_000, 300_000), None);
}

#[test]
fn producer_keeps_its_content_type() {
    let p = DirectStreamProducer::new(7u8, "video/mp4".to_string());
    assert_eq!(p.content_type(), "video/mp4");
    assert_eq!(*p.provider(), 7u8);
}
