use ssdp_discovery::parse::parse_response;
use ssdp_discovery::record::DeviceRecord;

fn ok_response() -> Vec<u8> {
    b"HTTP/1.1 200 OK\r\nLOCATION:http://10.0.0.5:80/desc.xml\r\nUSN:uuid:abc::upnp:rootdevice\r\nSERVER:Foo/1.0\r\n\r\n"
        .to_vec()
}

#[test]
fn parses_full_ok_response() {
    let rec = parse_response(&ok_response()).unwrap();
    assert_eq!(rec.location.as_deref(), Some(b"http://10.0.0.5:80/desc.xml".as_slice()));
    assert_eq!(rec.usn.as_deref(), Some(b"uuid:abc::upnp:rootdevice".as_slice()));
    assert_eq!(rec.server.as_deref(), Some(b"Foo/1.0".as_slice()));
}

#[test]
fn non_200_status_fails() {
    let buf = b"HTTP/1.1 404 Not Found\r\nLOCATION:http://10.0.0.5/desc.xml\r\nUSN:uuid:abc\r\nSERVER:Foo/1.0\r\n\r\n";
    assert!(parse_response(buf).is_err());
}

#[test]
fn status_500_fails_with_headers_present() {
    let buf = b"HTTP/1.1 500 Oops\r\nUSN:uuid:abc\r\n";
    assert!(parse_response(buf).is_err());
}

#[test]
fn zero_filled_buffer_fails() {
    let buf = vec![0u8; 1024];
    assert!(parse_response(&buf).is_err());
}

#[test]
fn empty_buffer_fails() {
    let buf: Vec<u8> = Vec::new();
    assert!(parse_response(&buf).is_err());
}

#[test]
fn invalid_utf8_fails() {
    let buf = b"HTTP/1.1 200 OK\r\nUSN:\xff\xfe\r\n";
    assert!(parse_response(buf).is_err());
}

#[test]
fn status_line_without_code_fails() {
    let buf = b"HTTP/1.1\r\nUSN:uuid:abc\r\n";
    assert!(parse_response(buf).is_err());
}

#[test]
fn missing_headers_leave_fields_absent() {
    let rec = parse_response(b"HTTP/1.1 200 OK\r\n\r\n").unwrap();
    assert_eq!(rec.location, None);
    assert_eq!(rec.usn, None);
    assert_eq!(rec.server, None);
    assert_eq!(rec.location_or_default(), b"No location found".to_vec());
    assert_eq!(rec.usn_or_default(), b"No USN found".to_vec());
    assert_eq!(rec.server_or_default(), b"No USN found".to_vec());
}

#[test]
fn missing_location_only() {
    let rec = parse_response(b"HTTP/1.1 200 OK\r\nUSN:u\r\nSERVER:s\r\n").unwrap();
    assert_eq!(rec.location, None);
    assert_eq!(rec.location_or_default(), b"No location found".to_vec());
    assert_eq!(rec.usn.as_deref(), Some(b"u".as_slice()));
    assert_eq!(rec.server.as_deref(), Some(b"s".as_slice()));
}

#[test]
fn header_names_match_case_insensitively() {
    let lower = parse_response(b"HTTP/1.1 200 OK\r\nLocation:http://x/\r\n").unwrap();
    let upper = parse_response(b"HTTP/1.1 200 OK\r\nLOCATION:http://x/\r\n").unwrap();
    assert_eq!(lower.location, upper.location);
    assert_eq!(lower.location.as_deref(), Some(b"http://x/".as_slice()));
}

#[test]
fn header_values_keep_their_case_and_spacing() {
    let rec = parse_response(b"HTTP/1.1 200 OK\r\nSERVER: Linux/5.4 UPnP/1.0 MiniUPnPd/2.1\r\n")
        .unwrap();
    assert_eq!(rec.server.as_deref(), Some(b" Linux/5.4 UPnP/1.0 MiniUPnPd/2.1".as_slice()));
}

#[test]
fn later_duplicate_header_wins() {
    let rec = parse_response(b"HTTP/1.1 200 OK\r\nUSN:first\r\nUSN:second\r\n").unwrap();
    assert_eq!(rec.usn.as_deref(), Some(b"second".as_slice()));
}

#[test]
fn lines_without_colon_are_skipped() {
    let rec = parse_response(b"HTTP/1.1 200 OK\r\nnonsense line\r\nUSN:u\r\n").unwrap();
    assert_eq!(rec.usn.as_deref(), Some(b"u".as_slice()));
}

#[test]
fn bare_line_feeds_work_too() {
    let rec = parse_response(b"HTTP/1.1 200 OK\nUSN:u\nSERVER:s\n").unwrap();
    assert_eq!(rec.usn.as_deref(), Some(b"u".as_slice()));
    assert_eq!(rec.server.as_deref(), Some(b"s".as_slice()));
}

#[test]
fn reparsing_the_same_bytes_gives_the_same_record() {
    let buf = ok_response();
    let a: DeviceRecord = parse_response(&buf).unwrap();
    let b: DeviceRecord = parse_response(&buf).unwrap();
    assert_eq!(a, b);
}
