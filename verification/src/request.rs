//! The fixed M-SEARCH discovery request.
//!
//! The request text is constant: an HTTP-style M-SEARCH line, the
//! multicast host and port, the `"ssdp:discover"` mandatory extension,
//! the MX response-delay bound, and the root-device search target, each
//! line ended by a carriage return and line feed, with a blank line at the
//! end.

use vstd::prelude::*;

verus! {

/// Seconds a device may delay its reply; also used as the receive timeout
/// when collecting replies.
pub const MX_SECONDS: u64 = 3;

/// The bytes of the discovery request:
/// `M-SEARCH * HTTP/1.1` / `HOST:239.255.255.250:1900` /
/// `MAN:"ssdp:discover"` / `MX:3` / `ST:upnp:rootdevice`, each line
/// CRLF-terminated, with a final blank line.
pub open spec fn search_request_text() -> Seq<u8> {
    seq![77u8, 45u8, 83u8, 69u8, 65u8, 82u8, 67u8, 72u8, 32u8, 42u8, 32u8, 72u8, 84u8, 84u8, 
        80u8, 47u8, 49u8, 46u8, 49u8, 13u8, 10u8, 72u8, 79u8, 83u8, 84u8, 58u8, 50u8, 51u8, 
        57u8, 46u8, 50u8, 53u8, 53u8, 46u8, 50u8, 53u8, 53u8, 46u8, 50u8, 53u8, 48u8, 58u8, 
        49u8, 57u8, 48u8, 48u8, 13u8, 10u8, 77u8, 65u8, 78u8, 58u8, 34u8, 115u8, 115u8, 100u8, 
        112u8, 58u8, 100u8, 105u8, 115u8, 99u8, 111u8, 118u8, 101u8, 114u8, 34u8, 13u8, 10u8, 
        77u8, 88u8, 58u8, 51u8, 13u8, 10u8, 83u8, 84u8, 58u8, 117u8, 112u8, 110u8, 112u8, 58u8, 
        114u8, 111u8, 111u8, 116u8, 100u8, 101u8, 118u8, 105u8, 99u8, 101u8, 13u8, 10u8, 13u8, 
        10u8]
}

/// The discovery request datagram, byte for byte as
/// `search_request_text` gives it.
pub fn build_search_request() -> (v: Vec<u8>)
    ensures
        v@ == search_request_text(),
{
    let mut v: Vec<u8> = Vec::new();
    v.push(77);
    v.push(45);
    v.push(83);
    v.push(69);
    v.push(65);
    v.push(82);
    v.push(67);
    v.push(72);
    v.push(32);
    v.push(42);
    v.push(32);
    v.push(72);
    v.push(84);
    v.push(84);
    v.push(80);
    v.push(47);
    v.push(49);
    v.push(46);
    v.push(49);
    v.push(13);
    v.push(10);
    v.push(72);
    v.push(79);
    v.push(83);
    v.push(84);
    v.push(58);
    v.push(50);
    v.push(51);
    v.push(57);
    v.push(46);
    v.push(50);
    v.push(53);
    v.push(53);
    v.push(46);
    v.push(50);
    v.push(53);
    v.push(53);
    v.push(46);
    v.push(50);
    v.push(53);
    v.push(48);
    v.push(58);
    v.push(49);
    v.push(57);
    v.push(48);
    v.push(48);
    v.push(13);
    v.push(10);
    v.push(77);
    v.push(65);
    v.push(78);
    v.push(58);
    v.push(34);
    v.push(115);
    v.push(115);
    v.push(100);
    v.push(112);
    v.push(58);
    v.push(100);
    v.push(105);
    v.push(115);
    v.push(99);
    v.push(111);
    v.push(118);
    v.push(101);
    v.push(114);
    v.push(34);
    v.push(13);
    v.push(10);
    v.push(77);
    v.push(88);
    v.push(58);
    v.push(51);
    v.push(13);
    v.push(10);
    v.push(83);
    v.push(84);
    v.push(58);
    v.push(117);
    v.push(112);
    v.push(110);
    v.push(112);
    v.push(58);
    v.push(114);
    v.push(111);
    v.push(111);
    v.push(116);
    v.push(100);
    v.push(101);
    v.push(118);
    v.push(105);
    v.push(99);
    v.push(101);
    v.push(13);
    v.push(10);
    v.push(13);
    v.push(10);
    proof {
        assert(v@ =~= search_request_text());
    }
    v
}

} // verus!
