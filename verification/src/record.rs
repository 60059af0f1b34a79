//! The record of one discovered root device, with each advertised field
//! held as an optional value and mapped to a fixed fallback text only when
//! displayed.

use vstd::prelude::*;

verus! {

/// One discovered UPnP root device: the advertised description-document
/// URL, the server banner, and the Unique Service Name that identifies the
/// device.  A field is `None` when the response carried no such header.
#[derive(Debug, Clone, PartialEq, Eq)]
pub struct DeviceRecord {
    pub location: Option<Vec<u8>>,
    pub server: Option<Vec<u8>>,
    pub usn: Option<Vec<u8>>,
}

/// Mathematical model of a `DeviceRecord`: the same three fields as byte
/// sequences.
pub struct DeviceRecordModel {
    pub location: Option<Seq<u8>>,
    pub server: Option<Seq<u8>>,
    pub usn: Option<Seq<u8>>,
}

impl View for DeviceRecord {
    type V = DeviceRecordModel;

    open spec fn view(&self) -> DeviceRecordModel {
        DeviceRecordModel {
            location: self.location.deep_view(),
            server: self.server.deep_view(),
            usn: self.usn.deep_view(),
        }
    }
}

/// The text "No location found", shown for an absent `location` header.
pub open spec fn no_location_text() -> Seq<u8> {
    seq![78u8, 111u8, 32u8, 108u8, 111u8, 99u8, 97u8, 116u8, 105u8, 111u8, 110u8, 32u8, 102u8,
        111u8, 117u8, 110u8, 100u8]
}

/// The text "No USN found", shown for an absent `usn` header and likewise
/// for an absent `server` header.
pub open spec fn no_usn_text() -> Seq<u8> {
    seq![78u8, 111u8, 32u8, 85u8, 83u8, 78u8, 32u8, 102u8, 111u8, 117u8, 110u8, 100u8]
}

/// The advertised location, or the fallback text when absent.
pub open spec fn location_display(m: DeviceRecordModel) -> Seq<u8> {
    match m.location {
        Some(l) => l,
        None => no_location_text(),
    }
}

/// The advertised server banner, or the fallback text when absent.  The
/// fallback deliberately shares its wording with the one for `usn`.
pub open spec fn server_display(m: DeviceRecordModel) -> Seq<u8> {
    match m.server {
        Some(s) => s,
        None => no_usn_text(),
    }
}

/// The advertised Unique Service Name, or the fallback text when absent.
pub open spec fn usn_display(m: DeviceRecordModel) -> Seq<u8> {
    match m.usn {
        Some(u) => u,
        None => no_usn_text(),
    }
}

/// The bytes of "No location found".
fn no_location_sentinel() -> (v: Vec<u8>)
    ensures
        v@ == no_location_text(),
{
    let mut v: Vec<u8> = Vec::new();
    v.push(78);
    v.push(111);
    v.push(32);
    v.push(108);
    v.push(111);
    v.push(99);
    v.push(97);
    v.push(116);
    v.push(105);
    v.push(111);
    v.push(110);
    v.push(32);
    v.push(102);
    v.push(111);
    v.push(117);
    v.push(110);
    v.push(100);
    proof {
        assert(v@ =~= no_location_text());
    }
    v
}

/// The bytes of "No USN found".
fn no_usn_sentinel() -> (v: Vec<u8>)
    ensures
        v@ == no_usn_text(),
{
    let mut v: Vec<u8> = Vec::new();
    v.push(78);
    v.push(111);
    v.push(32);
    v.push(85);
    v.push(83);
    v.push(78);
    v.push(32);
    v.push(102);
    v.push(111);
    v.push(117);
    v.push(110);
    v.push(100);
    proof {
        assert(v@ =~= no_usn_text());
    }
    v
}

impl DeviceRecord {
    /// The location as shown to the user: the advertised value, or the
    /// fallback text when the response carried none.
    pub fn location_or_default(&self) -> (v: Vec<u8>)
        ensures
            v@ == location_display(self@),
    {
        match &self.location {
            Some(l) => vstd::slice::slice_to_vec(l.as_slice()),
            None => no_location_sentinel(),
        }
    }

    /// The server banner as shown to the user, with the shared fallback
    /// text when the response carried none.
    pub fn server_or_default(&self) -> (v: Vec<u8>)
        ensures
            v@ == server_display(self@),
    {
        match &self.server {
            Some(s) => vstd::slice::slice_to_vec(s.as_slice()),
            None => no_usn_sentinel(),
        }
    }

    /// The Unique Service Name as shown to the user, or the fallback text
    /// when the response carried none.
    pub fn usn_or_default(&self) -> (v: Vec<u8>)
        ensures
            v@ == usn_display(self@),
    {
        match &self.usn {
            Some(u) => vstd::slice::slice_to_vec(u.as_slice()),
            None => no_usn_sentinel(),
        }
    }
}

} // verus!
