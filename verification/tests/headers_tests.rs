use ssdp_discovery::headers::parse_headers;

#[test]
fn names_are_lowered_and_values_kept() {
    let lines: Vec<Vec<u8>> = vec![b"Location:HTTP://X/Desc.XML".to_vec()];
    let map = parse_headers(&lines);
    assert_eq!(map.get(b"location").map(|v| v.as_slice()), Some(b"HTTP://X/Desc.XML".as_slice()));
    assert_eq!(map.get(b"Location"), None);
}

#[test]
fn value_keeps_every_colon_after_the_first() {
    let lines: Vec<Vec<u8>> = vec![b"HOST:239.255.255.250:1900".to_vec()];
    let map = parse_headers(&lines);
    assert_eq!(map.get(b"host").map(|v| v.as_slice()), Some(b"239.255.255.250:1900".as_slice()));
}

#[test]
fn later_binding_overwrites_earlier() {
    let lines: Vec<Vec<u8>> = vec![b"ST:one".to_vec(), b"st:two".to_vec()];
    let map = parse_headers(&lines);
    assert_eq!(map.get(b"st").map(|v| v.as_slice()), Some(b"two".as_slice()));
}

#[test]
fn lines_without_colon_contribute_nothing() {
    let lines: Vec<Vec<u8>> = vec![b"no delimiter here".to_vec(), b"".to_vec()];
    let map = parse_headers(&lines);
    assert_eq!(map.get(b"no delimiter here"), None);
    assert_eq!(map.get(b""), None);
}
