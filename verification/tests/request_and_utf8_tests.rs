use ssdp_discovery::request::{build_search_request, MX_SECONDS};
use ssdp_discovery::utf8::is_utf8;

#[test]
fn search_request_is_the_fixed_datagram() {
    let expected = b"M-SEARCH * HTTP/1.1\r\nHOST:239.255.255.250:1900\r\nMAN:\"ssdp:discover\"\r\nMX:3\r\nST:upnp:rootdevice\r\n\r\n";
    assert_eq!(build_search_request(), expected.to_vec());
}

#[test]
fn mx_matches_the_request_text() {
    assert_eq!(MX_SECONDS, 3);
}

#[test]
fn ascii_is_valid_utf8() {
    assert!(is_utf8(b"HTTP/1.1 200 OK\r\n"));
    assert!(is_utf8(b""));
    assert!(is_utf8(&[0u8; 64]));
}

#[test]
fn multibyte_sequences_are_valid() {
    assert!(is_utf8("caf\u{e9} \u{20ac} \u{1f600}".as_bytes()));
    assert!(is_utf8(&[0xc3, 0xa9]));
    assert!(is_utf8(&[0xe2, 0x82, 0xac]));
    assert!(is_utf8(&[0xf0, 0x9f, 0x98, 0x80]));
}

#[test]
fn malformed_sequences_are_invalid() {
    assert!(!is_utf8(&[0xff]));
    assert!(!is_utf8(&[0x80]));
    assert!(!is_utf8(&[0xc0, 0x80]));
    assert!(!is_utf8(&[0xc1, 0xbf]));
    assert!(!is_utf8(&[0xe0, 0x9f, 0xbf]));
    assert!(!is_utf8(&[0xed, 0xa0, 0x80]));
    assert!(!is_utf8(&[0xf0, 0x8f, 0xbf, 0xbf]));
    assert!(!is_utf8(&[0xf4, 0x90, 0x80, 0x80]));
    assert!(!is_utf8(&[0xf5, 0x80, 0x80, 0x80]));
    assert!(!is_utf8(&[0xe2, 0x82]));
    assert!(!is_utf8(&[0xc3]));
}

#[test]
fn validity_agrees_with_std() {
    let samples: Vec<Vec<u8>> = vec![
        b"plain ascii".to_vec(),
        vec![0xc3, 0xa9, 0x21],
        vec![0xe2, 0x82, 0xac, 0x0a],
        vec![0xf0, 0x9f, 0x98, 0x80],
        vec![0xed, 0x9f, 0xbf],
        vec![0xee, 0x80, 0x80],
        vec![0xff, 0x20],
        vec![0xc2],
        vec![0xe0, 0xa0],
        vec![0x41, 0x80],
    ];
    for s in samples {
        assert_eq!(is_utf8(&s), std::str::from_utf8(&s).is_ok());
    }
}
