//! The device registry: a mapping from Unique Service Name to the record
//! first seen under it.  It grows monotonically and never overwrites — the
//! first record inserted under a USN wins, and later duplicates are
//! discarded.

use vstd::prelude::*;
use crate::record::{DeviceRecord, DeviceRecordModel};
use crate::text::bytes_eq;

verus! {

/// Equality of two optional byte strings.
fn opt_bytes_eq(a: &Option<Vec<u8>>, b: &Option<Vec<u8>>) -> (r: bool)
    ensures
        r == (a.deep_view() == b.deep_view()),
{
    match (a, b) {
        (Some(x), Some(y)) => {
            proof {
                assert(x.deep_view() =~= x@);
                assert(y.deep_view() =~= y@);
            }
            bytes_eq(x.as_slice(), y.as_slice())
        },
        (None, None) => true,
        _ => false,
    }
}

/// The registry of devices discovered so far, keyed by the `usn` field of
/// their records.
pub struct DeviceRegistry {
    records: Vec<DeviceRecord>,
}

/// The map the given records build up when each is kept under its USN.
/// Meaningful for the registry's contents, whose USNs are distinct, so
/// that no insertion overwrites.
pub open spec fn records_map(s: Seq<DeviceRecord>) -> Map<Option<Seq<u8>>, DeviceRecordModel>
    decreases s.len(),
{
    if s.len() == 0 {
        Map::empty()
    } else {
        records_map(s.drop_last()).insert(s.last()@.usn, s.last()@)
    }
}

/// A key is in the map exactly when some record carries it.
proof fn lemma_records_map_contains(s: Seq<DeviceRecord>, k: Option<Seq<u8>>)
    ensures
        records_map(s).contains_key(k) <==> exists|i: int| 0 <= i < s.len() && s[i]@.usn == k,
    decreases s.len(),
{
    if s.len() > 0 {
        lemma_records_map_contains(s.drop_last(), k);
        if records_map(s).contains_key(k) {
            if s.last()@.usn == k {
                assert(s[s.len() - 1]@.usn == k);
            } else {
                let i = choose|i: int| 0 <= i < s.drop_last().len() && s.drop_last()[i]@.usn == k;
                assert(s[i]@.usn == k);
            }
        }
        if exists|i: int| 0 <= i < s.len() && s[i]@.usn == k {
            let i = choose|i: int| 0 <= i < s.len() && s[i]@.usn == k;
            if i < s.len() - 1 {
                assert(s.drop_last()[i]@.usn == k);
            }
        }
    }
}

/// Under distinct USNs, the record stored at any index is the one the map
/// holds under its key.
proof fn lemma_records_map_get(s: Seq<DeviceRecord>, i: int)
    requires
        forall|p: int, q: int| 0 <= p < q < s.len() ==> s[p]@.usn != s[q]@.usn,
        0 <= i < s.len(),
    ensures
        records_map(s).contains_key(s[i]@.usn),
        records_map(s)[s[i]@.usn] == s[i]@,
    decreases s.len(),
{
    if i == s.len() - 1 {
    } else {
        assert(s[i]@.usn != s[s.len() - 1]@.usn);
        assert(forall|p: int, q: int|
            0 <= p < q < s.drop_last().len() ==> s.drop_last()[p]@.usn != s.drop_last()[q]@.usn);
        assert(s.drop_last()[i] == s[i]);
        lemma_records_map_get(s.drop_last(), i);
    }
}

impl View for DeviceRegistry {
    type V = Map<Option<Seq<u8>>, DeviceRecordModel>;

    closed spec fn view(&self) -> Map<Option<Seq<u8>>, DeviceRecordModel> {
        records_map(self.records@)
    }
}

impl DeviceRegistry {
    /// No two retained records share a USN, so each key of the map holds
    /// the record first inserted under it.
    pub closed spec fn wf(&self) -> bool {
        forall|p: int, q: int|
            0 <= p < q < self.records@.len() ==> self.records@[p]@.usn != self.records@[q]@.usn
    }

    /// The empty registry.
    pub fn new() -> (r: DeviceRegistry)
        ensures
            r.wf(),
            r@ == Map::<Option<Seq<u8>>, DeviceRecordModel>::empty(),
    {
        DeviceRegistry { records: Vec::new() }
    }

    /// How many devices have been discovered.
    pub fn len(&self) -> (n: usize)
        requires
            self.wf(),
        ensures
            n == self@.dom().len(),
    {
        proof {
            self.lemma_map_len();
        }
        self.records.len()
    }

    /// Under distinct USNs the map has exactly one entry per record.
    proof fn lemma_map_len(&self)
        requires
            self.wf(),
        ensures
            self@.dom().len() == self.records@.len(),
        decreases self.records@.len(),
    {
        lemma_records_map_len(self.records@);
    }

    /// The record stored under `usn`, if any device with that USN has been
    /// seen.
    pub fn get(&self, usn: &Option<Vec<u8>>) -> (r: Option<&DeviceRecord>)
        requires
            self.wf(),
        ensures
            match r {
                Some(rec) => self@.contains_key(usn.deep_view()) && rec@ == self@[usn.deep_view()],
                None => !self@.contains_key(usn.deep_view()),
            },
    {
        let n: usize = self.records.len();
        let mut i: usize = 0;
        while i < n
            invariant
                self.wf(),
                n == self.records@.len(),
                i <= n,
                forall|j: int| 0 <= j < i ==> self.records@[j]@.usn != usn.deep_view(),
            decreases n - i,
        {
            let rec = &self.records[i];
            if opt_bytes_eq(&rec.usn, usn) {
                proof {
                    lemma_records_map_get(self.records@, i as int);
                }
                return Some(rec);
            }
            i = i + 1;
        }
        proof {
            lemma_records_map_contains(self.records@, usn.deep_view());
        }
        None
    }

    /// True when a device with this USN has already been seen.
    pub fn contains_usn(&self, usn: &Option<Vec<u8>>) -> (r: bool)
        requires
            self.wf(),
        ensures
            r == self@.contains_key(usn.deep_view()),
    {
        match self.get(usn) {
            Some(_) => true,
            None => false,
        }
    }

    /// Offers a record to the registry.  A record under a fresh USN is
    /// kept, and the call returns true: the caller should announce the new
    /// device.  A record under a USN already present is discarded whatever
    /// its other fields hold — the first record wins — and the call
    /// returns false: nothing is announced.
    pub fn insert(&mut self, rec: DeviceRecord) -> (fresh: bool)
        requires
            old(self).wf(),
        ensures
            final(self).wf(),
            fresh == !old(self)@.contains_key(rec@.usn),
            fresh ==> final(self)@ == old(self)@.insert(rec@.usn, rec@),
            !fresh ==> final(self)@ == old(self)@,
    {
        if self.contains_usn(&rec.usn) {
            return false;
        }
        proof {
            lemma_records_map_contains(self.records@, rec@.usn);
        }
        let ghost old_records = self.records@;
        self.records.push(rec);
        proof {
            assert(self.records@.drop_last() =~= old_records);
            assert(forall|j: int| 0 <= j < old_records.len() ==> old_records[j]@.usn != rec@.usn);
        }
        true
    }
}

/// Two records under one USN, offered in turn to a registry that had not
/// seen that USN: after the first is kept, the map holds the first record
/// under the shared key, so by `insert`'s contract the second offer
/// changes nothing and announces nothing, whatever its other fields hold.
pub proof fn lemma_first_record_wins(
    m: Map<Option<Seq<u8>>, DeviceRecordModel>,
    r1: DeviceRecordModel,
    r2: DeviceRecordModel,
)
    requires
        r1.usn == r2.usn,
        !m.contains_key(r1.usn),
    ensures
        m.insert(r1.usn, r1).contains_key(r2.usn),
        m.insert(r1.usn, r1)[r2.usn] == r1,
{
}

/// Under distinct USNs the map has exactly one entry per record.
proof fn lemma_records_map_len(s: Seq<DeviceRecord>)
    requires
        forall|p: int, q: int| 0 <= p < q < s.len() ==> s[p]@.usn != s[q]@.usn,
    ensures
        records_map(s).dom().finite(),
        records_map(s).dom().len() == s.len(),
    decreases s.len(),
{
    if s.len() == 0 {
        broadcast use vstd::set::axiom_set_empty_len;

        assert(records_map(s).dom() =~= Set::<Option<Seq<u8>>>::empty());
    } else {
        let init = s.drop_last();
        assert(forall|p: int, q: int| 0 <= p < q < init.len() ==> init[p]@.usn != init[q]@.usn);
        lemma_records_map_len(init);
        lemma_records_map_contains(init, s.last()@.usn);
        assert(forall|j: int| 0 <= j < init.len() ==> init[j] == s[j]);
        assert(!records_map(init).contains_key(s.last()@.usn));
        assert(records_map(s).dom() =~= records_map(init).dom().insert(s.last()@.usn));
        vstd::set::axiom_set_insert_len(records_map(init).dom(), s.last()@.usn);
    }
}

} // verus!
