use ssdp_discovery::discovery::{handle_datagram, DatagramOutcome};
use ssdp_discovery::registry::DeviceRegistry;

const FIRST: &[u8] =
    b"HTTP/1.1 200 OK\r\nLOCATION:http://10.0.0.5:80/desc.xml\r\nUSN:uuid:abc::upnp:rootdevice\r\nSERVER:Foo/1.0\r\n\r\n";
const SECOND_SAME_USN: &[u8] =
    b"HTTP/1.1 200 OK\r\nLOCATION:http://10.0.0.9:80/other.xml\r\nUSN:uuid:abc::upnp:rootdevice\r\nSERVER:Bar/2.0\r\n\r\n";

#[test]
fn first_response_is_announced() {
    let mut reg = DeviceRegistry::new();
    match handle_datagram(&mut reg, FIRST) {
        DatagramOutcome::NewDevice { server, location } => {
            assert_eq!(server, b"Foo/1.0".to_vec());
            assert_eq!(location, b"http://10.0.0.5:80/desc.xml".to_vec());
        }
        _ => panic!("expected a new device"),
    }
    assert_eq!(reg.len(), 1);
}

#[test]
fn second_response_under_same_usn_is_silent() {
    let mut reg = DeviceRegistry::new();
    assert!(matches!(
        handle_datagram(&mut reg, FIRST),
        DatagramOutcome::NewDevice { .. }
    ));
    assert!(matches!(
        handle_datagram(&mut reg, SECOND_SAME_USN),
        DatagramOutcome::KnownDevice
    ));
    assert_eq!(reg.len(), 1);
    let kept = reg.get(&Some(b"uuid:abc::upnp:rootdevice".to_vec())).unwrap();
    assert_eq!(kept.location.as_deref(), Some(b"http://10.0.0.5:80/desc.xml".as_slice()));
    assert_eq!(kept.server.as_deref(), Some(b"Foo/1.0".as_slice()));
}

#[test]
fn unparsable_datagram_changes_nothing() {
    let mut reg = DeviceRegistry::new();
    assert!(matches!(
        handle_datagram(&mut reg, b"HTTP/1.1 404 Not Found\r\n"),
        DatagramOutcome::Failed
    ));
    assert_eq!(reg.len(), 0);
}

#[test]
fn announcement_uses_fallback_texts_for_missing_headers() {
    let mut reg = DeviceRegistry::new();
    match handle_datagram(&mut reg, b"HTTP/1.1 200 OK\r\nUSN:uuid:x\r\n") {
        DatagramOutcome::NewDevice { server, location } => {
            assert_eq!(server, b"No USN found".to_vec());
            assert_eq!(location, b"No location found".to_vec());
        }
        _ => panic!("expected a new device"),
    }
}
