//! Parsing of `Name: Value` header lines into a map from lower-cased
//! header name to raw header value, where a later occurrence of a name
//! overwrites an earlier one.

use vstd::prelude::*;
use crate::text::{
    ascii_lower, bytes_eq, contains_byte, copy_range, find_byte, first_index_of,
    lemma_first_index_of, to_lower, COLON,
};

verus! {

/// The entry a header line contributes: the name before the first colon,
/// lower-cased, and the value after it, case preserved.  A line without a
/// colon contributes nothing.
pub open spec fn header_entry(line: Seq<u8>) -> Option<(Seq<u8>, Seq<u8>)> {
    if contains_byte(line, COLON) {
        let i = first_index_of(line, COLON);
        Some((ascii_lower(line.take(i)), line.skip(i + 1)))
    } else {
        None
    }
}

/// The map the given header lines build up, one entry per line holding a
/// colon, later lines overwriting earlier ones of the same name.
pub open spec fn headers_of(lines: Seq<Seq<u8>>) -> Map<Seq<u8>, Seq<u8>>
    decreases lines.len(),
{
    if lines.len() == 0 {
        Map::empty()
    } else {
        let m = headers_of(lines.drop_last());
        match header_entry(lines.last()) {
            Some(e) => m.insert(e.0, e.1),
            None => m,
        }
    }
}

/// A header line made of a name, a colon and a value contributes its
/// name lower-cased and its value unchanged.
pub proof fn lemma_header_entry_structure(name: Seq<u8>, value: Seq<u8>)
    requires
        !contains_byte(name, COLON),
    ensures
        header_entry(name + seq![COLON] + value) == Some((ascii_lower(name), value)),
{
    let line = name + seq![COLON] + value;
    assert(line[name.len() as int] == COLON);
    assert(forall|j: int| 0 <= j < name.len() ==> line[j] == name[j] && name[j] != COLON);
    lemma_first_index_of(line, COLON, name.len() as int);
    assert(line.take(name.len() as int) =~= name);
    assert(line.skip(name.len() as int + 1) =~= value);
}

/// Header names are matched without regard to ASCII case: two header
/// lines carrying the same value under names that differ only in case
/// contribute the same entry.
pub proof fn lemma_header_entry_case_insensitive(n1: Seq<u8>, n2: Seq<u8>, v: Seq<u8>)
    requires
        !contains_byte(n1, COLON),
        !contains_byte(n2, COLON),
        ascii_lower(n1) == ascii_lower(n2),
    ensures
        header_entry(n1 + seq![COLON] + v) == header_entry(n2 + seq![COLON] + v),
{
    lemma_header_entry_structure(n1, v);
    lemma_header_entry_structure(n2, v);
}

/// Lines contributing equal entries build equal header maps.
pub proof fn lemma_headers_of_pointwise(ls1: Seq<Seq<u8>>, ls2: Seq<Seq<u8>>)
    requires
        ls1.len() == ls2.len(),
        forall|j: int| 0 <= j < ls1.len() ==> header_entry(ls1[j]) == header_entry(ls2[j]),
    ensures
        headers_of(ls1) == headers_of(ls2),
    decreases ls1.len(),
{
    if ls1.len() > 0 {
        assert(forall|j: int|
            0 <= j < ls1.drop_last().len() ==> header_entry(ls1.drop_last()[j]) == header_entry(
                ls2.drop_last()[j],
            ));
        lemma_headers_of_pointwise(ls1.drop_last(), ls2.drop_last());
        assert(header_entry(ls1.last()) == header_entry(ls2.last()));
    }
}

/// A transient map from lower-cased header name to raw header value,
/// scoped to the parsing of one response.
pub struct HeaderMap {
    entries: Vec<(Vec<u8>, Vec<u8>)>,
}

/// The map the given name/value pairs build up in order, later pairs
/// overwriting earlier ones of the same name.
pub open spec fn entries_map(es: Seq<(Vec<u8>, Vec<u8>)>) -> Map<Seq<u8>, Seq<u8>>
    decreases es.len(),
{
    if es.len() == 0 {
        Map::empty()
    } else {
        entries_map(es.drop_last()).insert(es.last().0@, es.last().1@)
    }
}

impl View for HeaderMap {
    type V = Map<Seq<u8>, Seq<u8>>;

    closed spec fn view(&self) -> Map<Seq<u8>, Seq<u8>> {
        entries_map(self.entries@)
    }
}

impl HeaderMap {
    /// The empty map.
    pub fn new() -> (m: HeaderMap)
        ensures
            m@ == Map::<Seq<u8>, Seq<u8>>::empty(),
    {
        HeaderMap { entries: Vec::new() }
    }

    /// Binds `name` to `value`, replacing any earlier binding of `name`.
    pub fn insert(&mut self, name: Vec<u8>, value: Vec<u8>)
        ensures
            final(self)@ == old(self)@.insert(name@, value@),
    {
        let ghost old_entries = self.entries@;
        self.entries.push((name, value));
        proof {
            assert(self.entries@.drop_last() =~= old_entries);
        }
    }

    /// The value bound to `name`, if any.
    pub fn get(&self, name: &[u8]) -> (r: Option<&Vec<u8>>)
        ensures
            match r {
                Some(v) => self@.contains_key(name@) && v@ == self@[name@],
                None => !self@.contains_key(name@),
            },
    {
        let ghost full = self.entries@;
        let mut i: usize = self.entries.len();
        proof {
            assert(full.take(i as int) =~= full);
        }
        while i > 0
            invariant
                i <= full.len(),
                full == self.entries@,
                entries_map(full).contains_key(name@) == entries_map(
                    full.take(i as int),
                ).contains_key(name@),
                entries_map(full).contains_key(name@) ==> entries_map(full)[name@]
                    == entries_map(full.take(i as int))[name@],
            decreases i,
        {
            i = i - 1;
            let e = &self.entries[i];
            proof {
                assert(full.take(i + 1).drop_last() =~= full.take(i as int));
                assert(full.take(i + 1).last() == full[i as int]);
            }
            if bytes_eq(e.0.as_slice(), name) {
                return Some(&e.1);
            }
        }
        proof {
            assert(full.take(0) =~= Seq::<(Vec<u8>, Vec<u8>)>::empty());
        }
        None
    }
}

/// One header map built from the given lines: names matched
/// case-insensitively by lower-casing, values kept as sent, later
/// duplicates overwriting earlier ones, lines without a colon skipped.
pub fn parse_headers(lines: &[Vec<u8>]) -> (m: HeaderMap)
    ensures
        m@ == headers_of(lines.deep_view()),
{
    let ghost lv = lines.deep_view();
    let mut m = HeaderMap::new();
    let n: usize = lines.len();
    let mut i: usize = 0;
    proof {
        assert(lv.take(0) =~~= Seq::<Seq<u8>>::empty());
    }
    while i < n
        invariant
            n == lines@.len(),
            lv == lines.deep_view(),
            i <= n,
            m@ == headers_of(lv.take(i as int)),
        decreases n - i,
    {
        let line: &Vec<u8> = &lines[i];
        let llen: usize = line.len();
        proof {
            assert(lv[i as int] == line@);
            assert(lv.take(i + 1).drop_last() =~~= lv.take(i as int));
            assert(lv.take(i + 1).last() == lv[i as int]);
        }
        match find_byte(line.as_slice(), 0, COLON) {
            Some(k) => {
                let name = to_lower(vstd::slice::slice_subrange(line.as_slice(), 0, k));
                let value = copy_range(line.as_slice(), k + 1, llen);
                proof {
                    lemma_first_index_of(line@, COLON, k as int);
                    assert(line@.subrange(0, k as int) =~= line@.take(k as int));
                    assert(line@.subrange(k + 1, line@.len() as int) =~= line@.skip(k + 1));
                }
                m.insert(name, value);
            },
            None => {
                proof {
                    assert(!contains_byte(line@, COLON));
                }
            },
        }
        i = i + 1;
    }
    proof {
        assert(lv.take(n as int) =~~= lv);
    }
    m
}

} // verus!
