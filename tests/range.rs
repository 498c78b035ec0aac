use mlist::errors::ErrorKind;
use mlist::listing::plan_response;
use mlist::range::{parse_range_header, ByteRange};

#[test]
fn range_parses_open_ended() {
    let range = parse_range_header("bytes=10-", 100).unwrap();
    assert_eq!(range.start, 10);
    assert_eq!(range.end, 99);
    assert_eq!(range.len(), 90);
}

#[test]
fn range_parses_suffix() {
    let range = parse_range_header("bytes=-20", 100).unwrap();
    assert_eq!(range.start, 80);
    assert_eq!(range.end, 99);
}

#[test]
fn range_rejects_out_of_bounds_start() {
    assert!(parse_range_header("bytes=100-120", 100).is_err());
}

#[test]
fn range_rejects_multi_ranges() {
    assert!(parse_range_header("bytes=0-10,20-30", 100).is_err());
}

#[test]
fn range_clamps_end_and_suffix() {
    let r = parse_range_header("bytes=90-500", 100).unwrap();
    assert_eq!((r.start, r.end), (90, 99));
    let r = parse_range_header("bytes=-500", 100).unwrap();
    assert_eq!((r.start, r.end), (0, 99));
    let r = parse_range_header("  bytes=0-0 ", 100).unwrap();
    assert_eq!((r.start, r.end, r.len()), (0, 0, 1));
    let r = parse_range_header("bytes=+5-+7", 100).unwrap();
    assert_eq!((r.start, r.end), (5, 7));
}

#[test]
fn range_rejects_malformed_input() {
    for header in [
        "bytes=-0",
        "bytes=5-4",
        "items=0-1",
        "bytes=0",
        "bytes=a-1",
        "bytes=1-b",
        "bytes=-",
        "bytes=18446744073709551616-",
        "bytes=+-1",
    ] {
        let err = parse_range_header(header, 100).unwrap_err();
        assert_eq!(err.kind, ErrorKind::InvalidRange, "{header}");
        assert_eq!(err.status(), 416);
    }
    assert!(parse_range_header("bytes=0-", 0).is_err());
}

#[test]
fn response_plan_for_range_and_full() {
    let plan = plan_response(Some(ByteRange { start: 10, end: 99 }), 100);
    assert_eq!(plan.status, 206);
    assert_eq!(plan.content_length, 90);
    assert_eq!(plan.content_range.as_deref(), Some("bytes 10-99/100"));
    let plan = plan_response(None, 1234);
    assert_eq!(plan.status, 200);
    assert_eq!(plan.content_length, 1234);
    assert!(plan.content_range.is_none());
}
