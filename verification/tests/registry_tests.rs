use ssdp_discovery::record::DeviceRecord;
use ssdp_discovery::registry::DeviceRegistry;

fn record(usn: &[u8], location: &[u8], server: &[u8]) -> DeviceRecord {
    DeviceRecord {
        location: Some(location.to_vec()),
        server: Some(server.to_vec()),
        usn: Some(usn.to_vec()),
    }
}

#[test]
fn fresh_usn_is_kept_and_announced() {
    let mut reg = DeviceRegistry::new();
    assert_eq!(reg.len(), 0);
    let fresh = reg.insert(record(b"uuid:a", b"http://a/", b"A/1.0"));
    assert!(fresh);
    assert_eq!(reg.len(), 1);
    assert!(reg.contains_usn(&Some(b"uuid:a".to_vec())));
}

#[test]
fn duplicate_usn_keeps_the_first_record() {
    let mut reg = DeviceRegistry::new();
    assert!(reg.insert(record(b"uuid:a", b"http://first/", b"First/1.0")));
    let fresh = reg.insert(record(b"uuid:a", b"http://second/", b"Second/2.0"));
    assert!(!fresh);
    assert_eq!(reg.len(), 1);
    let kept = reg.get(&Some(b"uuid:a".to_vec())).unwrap();
    assert_eq!(kept.location.as_deref(), Some(b"http://first/".as_slice()));
    assert_eq!(kept.server.as_deref(), Some(b"First/1.0".as_slice()));
}

#[test]
fn distinct_usns_are_kept_separately() {
    let mut reg = DeviceRegistry::new();
    assert!(reg.insert(record(b"uuid:a", b"http://a/", b"A/1.0")));
    assert!(reg.insert(record(b"uuid:b", b"http://b/", b"B/1.0")));
    assert_eq!(reg.len(), 2);
    assert!(reg.contains_usn(&Some(b"uuid:a".to_vec())));
    assert!(reg.contains_usn(&Some(b"uuid:b".to_vec())));
    assert!(!reg.contains_usn(&Some(b"uuid:c".to_vec())));
}

#[test]
fn records_without_usn_share_one_slot() {
    let mut reg = DeviceRegistry::new();
    let no_usn_first = DeviceRecord {
        location: Some(b"http://first/".to_vec()),
        server: None,
        usn: None,
    };
    let no_usn_second = DeviceRecord {
        location: Some(b"http://second/".to_vec()),
        server: None,
        usn: None,
    };
    assert!(reg.insert(no_usn_first));
    assert!(!reg.insert(no_usn_second));
    assert_eq!(reg.len(), 1);
    let kept = reg.get(&None).unwrap();
    assert_eq!(kept.location.as_deref(), Some(b"http://first/".as_slice()));
}

#[test]
fn get_on_unknown_usn_is_none() {
    let reg = DeviceRegistry::new();
    assert!(reg.get(&Some(b"uuid:a".to_vec())).is_none());
}
