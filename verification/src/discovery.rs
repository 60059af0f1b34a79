//! The decision taken for each received datagram: parse it, offer the
//! record to the registry, and say whether a new device should be
//! announced, so that the surrounding loop only moves datagrams and
//! prints.

use vstd::prelude::*;
use crate::parse::{parse_model, parse_response};
use crate::record::{location_display, server_display};
use crate::registry::DeviceRegistry;

verus! {

/// What one datagram led to.
pub enum DatagramOutcome {
    /// A device not seen before was added to the registry; announce it
    /// with these display texts.
    NewDevice { server: Vec<u8>, location: Vec<u8> },
    /// A device already in the registry answered again; stay silent.
    KnownDevice,
    /// The datagram did not parse; report the failure.
    Failed,
}

/// Parses one datagram and applies the deduplication policy: a record
/// under a fresh USN is added and announced with its display texts, a
/// record under a known USN changes nothing and is not announced, and a
/// datagram that does not parse changes nothing.
pub fn handle_datagram(registry: &mut DeviceRegistry, buf: &[u8]) -> (out: DatagramOutcome)
    requires
        old(registry).wf(),
    ensures
        final (registry).wf(),
        (match out {
            DatagramOutcome::NewDevice { server, location } => (match parse_model(buf@) {
                Some(m) => !old(registry)@.contains_key(m.usn) && final (registry)@ == old(
                    registry,
                )@.insert(m.usn, m) && server@ == server_display(m) && location@
                    == location_display(m),
                None => false,
            }),
            DatagramOutcome::KnownDevice => (match parse_model(buf@) {
                Some(m) => old(registry)@.contains_key(m.usn) && final (registry)@ == old(
                    registry,
                )@,
                None => false,
            }),
            DatagramOutcome::Failed => parse_model(buf@) is None && final (registry)@ == old(
                registry,
            )@,
        }),
{
    match parse_response(buf) {
        Ok(rec) => {
            let server = rec.server_or_default();
            let location = rec.location_or_default();
            let fresh = registry.insert(rec);
            if fresh {
                DatagramOutcome::NewDevice { server, location }
            } else {
                DatagramOutcome::KnownDevice
            }
        },
        Err(_) => DatagramOutcome::Failed,
    }
}

} // verus!
