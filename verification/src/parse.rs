//! Parsing of one SSDP response datagram into a `DeviceRecord`.
//!
//! A datagram is interpreted as UTF-8 text; bytes that are not valid UTF-8
//! decode to empty text.  The first line is an HTTP-style status line whose
//! second space-delimited token is the status code; the remaining lines are
//! headers.  Parsing succeeds exactly when the status code is `200`.

use vstd::prelude::*;
use vstd::utf8::valid_utf8;
use crate::headers::{
    header_entry, headers_of, lemma_header_entry_case_insensitive, lemma_headers_of_pointwise,
    parse_headers,
};
use crate::record::{
    location_display, no_location_text, no_usn_text, server_display, usn_display, DeviceRecord,
    DeviceRecordModel,
};
use crate::text::{
    ascii_lower, copy_range, find_byte, lemma_split_first_delim, lemma_split_no_delim,
    lemma_split_on_len, lines_of, split_on, contains_byte, COLON, SP,
};

verus! {

/// A response that could not be parsed: not valid UTF-8, no status line,
/// or a status code other than `200`.  No further detail is recorded.
#[derive(Debug, PartialEq, Eq)]
pub struct ParseError;

/// The bytes of the header name `location`.
pub open spec fn location_key() -> Seq<u8> {
    seq![108u8, 111u8, 99u8, 97u8, 116u8, 105u8, 111u8, 110u8]
}

/// The bytes of the header name `usn`.
pub open spec fn usn_key() -> Seq<u8> {
    seq![117u8, 115u8, 110u8]
}

/// The bytes of the header name `server`.
pub open spec fn server_key() -> Seq<u8> {
    seq![115u8, 101u8, 114u8, 118u8, 101u8, 114u8]
}

/// The bytes of the status code `200`.
pub open spec fn ok_code() -> Seq<u8> {
    seq![50u8, 48u8, 48u8]
}

/// The text a datagram decodes to: itself when valid UTF-8, otherwise
/// empty.
pub open spec fn effective_text(buf: Seq<u8>) -> Seq<u8> {
    if valid_utf8(buf) {
        buf
    } else {
        Seq::empty()
    }
}

/// The status code of a status line: its second space-delimited token, or
/// empty when the line has no second token.
pub open spec fn status_code_of(line: Seq<u8>) -> Seq<u8> {
    let toks = split_on(line, SP);
    if toks.len() >= 2 {
        toks[1]
    } else {
        Seq::empty()
    }
}

/// The field bound to `key` in the header map `h`, when present.
pub open spec fn field_of(h: Map<Seq<u8>, Seq<u8>>, key: Seq<u8>) -> Option<Seq<u8>> {
    if h.contains_key(key) {
        Some(h[key])
    } else {
        None
    }
}

/// What parsing one datagram yields: a device record exactly when the
/// decoded text has a first line whose status code is `200`, with each
/// field taken from the headers on the remaining lines; `None` otherwise.
pub open spec fn parse_model(buf: Seq<u8>) -> Option<DeviceRecordModel> {
    let ls = lines_of(effective_text(buf));
    if ls.len() == 0 {
        None
    } else if status_code_of(ls[0]) == ok_code() {
        let h = headers_of(ls.drop_first());
        Some(
            DeviceRecordModel {
                location: field_of(h, location_key()),
                server: field_of(h, server_key()),
                usn: field_of(h, usn_key()),
            },
        )
    } else {
        None
    }
}

/// The bytes of the header name `location`.
fn location_key_vec() -> (v: Vec<u8>)
    ensures
        v@ == location_key(),
{
    let mut v: Vec<u8> = Vec::new();
    v.push(108);
    v.push(111);
    v.push(99);
    v.push(97);
    v.push(116);
    v.push(105);
    v.push(111);
    v.push(110);
    proof {
        assert(v@ =~= location_key());
    }
    v
}

/// The bytes of the header name `usn`.
fn usn_key_vec() -> (v: Vec<u8>)
    ensures
        v@ == usn_key(),
{
    let mut v: Vec<u8> = Vec::new();
    v.push(117);
    v.push(115);
    v.push(110);
    proof {
        assert(v@ =~= usn_key());
    }
    v
}

/// The bytes of the header name `server`.
fn server_key_vec() -> (v: Vec<u8>)
    ensures
        v@ == server_key(),
{
    let mut v: Vec<u8> = Vec::new();
    v.push(115);
    v.push(101);
    v.push(114);
    v.push(118);
    v.push(101);
    v.push(114);
    proof {
        assert(v@ =~= server_key());
    }
    v
}

/// True exactly when `v` is the status code `200`.
fn is_ok_code(v: &[u8]) -> (r: bool)
    ensures
        r == (v@ == ok_code()),
{
    if v.len() == 3 && v[0] == 50 && v[1] == 48 && v[2] == 48 {
        proof {
            assert(v@ =~= ok_code());
        }
        true
    } else {
        false
    }
}

/// The status code of the given status line, as `status_code_of` describes
/// it.
fn status_code(line: &[u8]) -> (v: Vec<u8>)
    ensures
        v@ == status_code_of(line@),
{
    let n: usize = line.len();
    match find_byte(line, 0, SP) {
        None => {
            proof {
                lemma_split_no_delim(line@, SP);
            }
            Vec::new()
        },
        Some(i) => {
            proof {
                lemma_split_first_delim(line@, SP, i as int);
                lemma_split_on_len(line@.subrange(i + 1, line@.len() as int), SP);
            }
            let ghost rest = line@.subrange(i + 1, line@.len() as int);
            match find_byte(line, i + 1, SP) {
                Some(j) => {
                    proof {
                        assert(rest[j - i - 1] == SP);
                        assert(forall|q: int|
                            0 <= q < j - i - 1 ==> rest[q] == line@[q + i + 1] && line@[q + i + 1]
                                != SP);
                        lemma_split_first_delim(rest, SP, j - i - 1);
                        assert(rest.subrange(0, j - i - 1) =~= line@.subrange(i + 1, j as int));
                    }
                    copy_range(line, i + 1, j)
                },
                None => {
                    proof {
                        assert(!contains_byte(rest, SP)) by {
                            assert(forall|q: int|
                                0 <= q < rest.len() ==> rest[q] == line@[q + i + 1] && line@[q + i
                                    + 1] != SP);
                        }
                        lemma_split_no_delim(rest, SP);
                    }
                    copy_range(line, i + 1, n)
                },
            }
        },
    }
}

/// One datagram parsed into a device record, exactly as `parse_model`
/// describes: `Ok` with the record's fields drawn from the `location`,
/// `server` and `usn` headers when the decoded text's status code is
/// `200`, and `Err` otherwise — for bytes that are not valid UTF-8, for
/// empty text, and for any other status code.
pub fn parse_response(buf: &[u8]) -> (r: Result<DeviceRecord, ParseError>)
    ensures
        match r {
            Ok(rec) => parse_model(buf@) == Some(rec@),
            Err(_) => parse_model(buf@) is None,
        },
{
    if !crate::utf8::is_utf8(buf) {
        proof {
            assert(lines_of(effective_text(buf@)).len() == 0);
        }
        return Err(ParseError);
    }
    let lines = crate::text::lines_vec(buf);
    if lines.len() == 0 {
        return Err(ParseError);
    }
    let ghost ls = lines.deep_view();
    let status = status_code(lines[0].as_slice());
    proof {
        assert(effective_text(buf@) == buf@);
        assert(ls[0] =~= lines@[0]@);
        assert(status@ == status_code_of(ls[0]));
    }
    let header_lines = vstd::slice::slice_subrange(lines.as_slice(), 1, lines.len());
    proof {
        assert(header_lines.deep_view() =~~= ls.drop_first());
    }
    let headers = parse_headers(header_lines);
    let ghost h = headers_of(ls.drop_first());
    let location = match headers.get(location_key_vec().as_slice()) {
        Some(v) => Some(vstd::slice::slice_to_vec(v.as_slice())),
        None => None,
    };
    let server = match headers.get(server_key_vec().as_slice()) {
        Some(v) => Some(vstd::slice::slice_to_vec(v.as_slice())),
        None => None,
    };
    let usn = match headers.get(usn_key_vec().as_slice()) {
        Some(v) => Some(vstd::slice::slice_to_vec(v.as_slice())),
        None => None,
    };
    let rec = DeviceRecord { location, server, usn };
    proof {
        assert(rec@.location == field_of(h, location_key()));
        assert(rec@.server == field_of(h, server_key()));
        assert(rec@.usn == field_of(h, usn_key()));
    }
    if is_ok_code(status.as_slice()) {
        Ok(rec)
    } else {
        Err(ParseError)
    }
}

/// A valid response whose status code is `200` and whose headers bind
/// `location`, `server` and `usn` parses to a record holding exactly
/// those values, case preserved.
pub proof fn lemma_ok_response_extracts_fields(buf: Seq<u8>)
    requires
        valid_utf8(buf),
        lines_of(buf).len() >= 1,
        status_code_of(lines_of(buf)[0]) == ok_code(),
        headers_of(lines_of(buf).drop_first()).contains_key(location_key()),
        headers_of(lines_of(buf).drop_first()).contains_key(server_key()),
        headers_of(lines_of(buf).drop_first()).contains_key(usn_key()),
    ensures
        parse_model(buf) == Some(
            (DeviceRecordModel {
                location: Some(headers_of(lines_of(buf).drop_first())[location_key()]),
                server: Some(headers_of(lines_of(buf).drop_first())[server_key()]),
                usn: Some(headers_of(lines_of(buf).drop_first())[usn_key()]),
            }),
        ),
{
}

/// A response whose decoded text has no lines, or whose status code is
/// anything but `200`, fails to parse, whatever its headers hold.
pub proof fn lemma_non_ok_status_fails(buf: Seq<u8>)
    requires
        lines_of(effective_text(buf)).len() == 0 || status_code_of(
            lines_of(effective_text(buf))[0],
        ) != ok_code(),
    ensures
        parse_model(buf) is None,
{
}

/// A `200` response missing any of the three headers still parses; the
/// missing field is absent, and is shown with its fallback text.
pub proof fn lemma_missing_headers_default(buf: Seq<u8>)
    requires
        valid_utf8(buf),
        lines_of(buf).len() >= 1,
        status_code_of(lines_of(buf)[0]) == ok_code(),
    ensures
        parse_model(buf) is Some,
        !headers_of(lines_of(buf).drop_first()).contains_key(location_key()) ==> (
        parse_model(buf)->Some_0.location is None && location_display(parse_model(buf)->Some_0)
            == no_location_text()),
        !headers_of(lines_of(buf).drop_first()).contains_key(server_key()) ==> (
        parse_model(buf)->Some_0.server is None && server_display(parse_model(buf)->Some_0)
            == no_usn_text()),
        !headers_of(lines_of(buf).drop_first()).contains_key(usn_key()) ==> (
        parse_model(buf)->Some_0.usn is None && usn_display(parse_model(buf)->Some_0)
            == no_usn_text()),
{
}

/// Header names are matched without regard to ASCII case, end to end:
/// two responses whose decoded texts carry the same lines, except that
/// one header line's name differs in ASCII case only, parse to the same
/// result.
pub proof fn lemma_parse_header_name_case(
    buf1: Seq<u8>,
    buf2: Seq<u8>,
    i: int,
    n1: Seq<u8>,
    n2: Seq<u8>,
    v: Seq<u8>,
)
    requires
        valid_utf8(buf1),
        valid_utf8(buf2),
        lines_of(buf1).len() == lines_of(buf2).len(),
        1 <= i < lines_of(buf1).len(),
        forall|j: int|
            0 <= j < lines_of(buf1).len() && j != i ==> lines_of(buf1)[j] == lines_of(buf2)[j],
        lines_of(buf1)[i] == n1 + seq![COLON] + v,
        lines_of(buf2)[i] == n2 + seq![COLON] + v,
        !contains_byte(n1, COLON),
        !contains_byte(n2, COLON),
        ascii_lower(n1) == ascii_lower(n2),
    ensures
        parse_model(buf1) == parse_model(buf2),
{
    let ls1 = lines_of(buf1);
    let ls2 = lines_of(buf2);
    assert(ls1[0] == ls2[0]);
    assert forall|j: int| 0 <= j < ls1.drop_first().len() implies header_entry(
        ls1.drop_first()[j],
    ) == header_entry(ls2.drop_first()[j]) by {
        if j + 1 == i {
            lemma_header_entry_case_insensitive(n1, n2, v);
        }
    }
    lemma_headers_of_pointwise(ls1.drop_first(), ls2.drop_first());
}

/// Parsing is a pure function of the datagram's bytes: buffers holding
/// equal bytes parse to equal results, so re-parsing the same buffer
/// yields the same record.
pub proof fn lemma_parse_deterministic(b1: Seq<u8>, b2: Seq<u8>)
    requires
        b1 == b2,
    ensures
        parse_model(b1) == parse_model(b2),
{
}

} // verus!
