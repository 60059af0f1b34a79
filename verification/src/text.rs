//! Byte-level text utilities: searching, slicing, splitting on a delimiter,
//! line splitting in the manner of HTTP header text, and ASCII lowercasing.

use vstd::prelude::*;

verus! {

/// The line feed byte, which ends each line of the response format.
pub const NL: u8 = 10;

/// The carriage return byte, stripped where a line feed follows it.
pub const CR: u8 = 13;

/// The space byte, which delimits the tokens of a status line.
pub const SP: u8 = 32;

/// The colon byte, which separates a header's name from its value.
pub const COLON: u8 = 58;

/// True when `d` occurs somewhere in `s`.
pub open spec fn contains_byte(s: Seq<u8>, d: u8) -> bool {
    exists|i: int| 0 <= i < s.len() && s[i] == d
}

/// The pieces of `s` between occurrences of the delimiter `d`, in order.
/// There is always at least one piece; a delimiter at either end or two in a
/// row contribute empty pieces, as `str::split` does.
pub open spec fn split_on(s: Seq<u8>, d: u8) -> Seq<Seq<u8>>
    decreases s.len(),
{
    if s.len() == 0 {
        seq![Seq::<u8>::empty()]
    } else if s[0] == d {
        seq![Seq::<u8>::empty()] + split_on(s.drop_first(), d)
    } else {
        let rest = split_on(s.drop_first(), d);
        seq![seq![s[0]] + rest[0]] + rest.drop_first()
    }
}

/// A split always yields at least one piece.
pub proof fn lemma_split_on_len(s: Seq<u8>, d: u8)
    ensures
        split_on(s, d).len() >= 1,
    decreases s.len(),
{
    if s.len() != 0 {
        lemma_split_on_len(s.drop_first(), d);
    }
}

/// A sequence free of the delimiter splits into itself alone.
pub proof fn lemma_split_no_delim(s: Seq<u8>, d: u8)
    requires
        !contains_byte(s, d),
    ensures
        split_on(s, d) =~~= seq![s],
    decreases s.len(),
{
    if s.len() != 0 {
        assert(s[0] != d);
        assert(!contains_byte(s.drop_first(), d)) by {
            assert(forall|i: int|
                0 <= i < s.drop_first().len() ==> s.drop_first()[i] == s[i + 1]);
        }
        lemma_split_no_delim(s.drop_first(), d);
        assert(seq![s[0]] + s.drop_first() =~= s);
    }
}

/// Splitting at the first occurrence of the delimiter: the piece before it,
/// then the split of what follows it.
pub proof fn lemma_split_first_delim(s: Seq<u8>, d: u8, i: int)
    requires
        0 <= i < s.len(),
        s[i] == d,
        forall|j: int| 0 <= j < i ==> s[j] != d,
    ensures
        split_on(s, d) =~~= seq![s.subrange(0, i)] + split_on(
            s.subrange(i + 1, s.len() as int),
            d,
        ),
    decreases i,
{
    if i == 0 {
        assert(s.subrange(0, 0) =~= Seq::<u8>::empty());
        assert(s.subrange(1, s.len() as int) =~= s.drop_first());
    } else {
        let t = s.drop_first();
        assert(t[i - 1] == d);
        assert(forall|j: int| 0 <= j < i - 1 ==> t[j] == s[j + 1] && s[j + 1] != d);
        lemma_split_first_delim(t, d, i - 1);
        lemma_split_on_len(t.subrange(i, t.len() as int), d);
        assert(seq![s[0]] + t.subrange(0, i - 1) =~= s.subrange(0, i));
        assert(t.subrange(i, t.len() as int) =~= s.subrange(i + 1, s.len() as int));
    }
}

/// Index of the first occurrence of `d` in `s`; `s.len()` when there is
/// none.
pub open spec fn first_index_of(s: Seq<u8>, d: u8) -> int
    decreases s.len(),
{
    if s.len() == 0 {
        0
    } else if s[0] == d {
        0
    } else {
        1 + first_index_of(s.drop_first(), d)
    }
}

/// An index before which `d` does not occur, and at which it does, is the
/// first index of `d`.
pub proof fn lemma_first_index_of(s: Seq<u8>, d: u8, k: int)
    requires
        0 <= k < s.len(),
        s[k] == d,
        forall|j: int| 0 <= j < k ==> s[j] != d,
    ensures
        first_index_of(s, d) == k,
    decreases k,
{
    if k > 0 {
        let t = s.drop_first();
        assert(forall|j: int| 0 <= j < k - 1 ==> t[j] == s[j + 1] && s[j + 1] != d);
        assert(t[k - 1] == d);
        lemma_first_index_of(t, d, k - 1);
    }
}

/// First index of byte `d` at or after `from` in `s`, if any.
pub fn find_byte(s: &[u8], from: usize, d: u8) -> (r: Option<usize>)
    requires
        from <= s@.len(),
    ensures
        match r {
            Some(k) => from <= k < s@.len() && s@[k as int] == d && (forall|j: int|
                from <= j < k ==> s@[j] != d),
            None => forall|j: int| from <= j < s@.len() ==> s@[j] != d,
        },
{
    let mut i: usize = from;
    while i < s.len()
        invariant
            from <= i <= s@.len(),
            forall|j: int| from <= j < i ==> s@[j] != d,
        decreases s@.len() - i,
    {
        if s[i] == d {
            return Some(i);
        }
        i = i + 1;
    }
    None
}

/// Copy of the bytes of `s` from `i` (inclusive) to `j` (exclusive).
pub fn copy_range(s: &[u8], i: usize, j: usize) -> (v: Vec<u8>)
    requires
        i <= j <= s@.len(),
    ensures
        v@ == s@.subrange(i as int, j as int),
{
    vstd::slice::slice_to_vec(vstd::slice::slice_subrange(s, i, j))
}

/// The pieces of `s` between occurrences of `d`, as `split_on` describes them.
pub fn split_bytes(s: &[u8], d: u8) -> (parts: Vec<Vec<u8>>)
    ensures
        parts.deep_view() == split_on(s@, d),
{
    let n: usize = s.len();
    let mut parts: Vec<Vec<u8>> = Vec::new();
    let mut start: usize = 0;
    proof {
        assert(s@.subrange(0, s@.len() as int) =~= s@);
        assert(parts.deep_view() + split_on(s@, d) =~~= split_on(s@, d));
    }
    loop
        invariant
            n == s@.len(),
            start <= s@.len(),
            split_on(s@, d) =~~= parts.deep_view() + split_on(
                s@.subrange(start as int, s@.len() as int),
                d,
            ),
        decreases s@.len() - start,
    {
        let ghost old_parts = parts.deep_view();
        let ghost tail = s@.subrange(start as int, s@.len() as int);
        match find_byte(s, start, d) {
            Some(k) => {
                let piece = copy_range(s, start, k);
                parts.push(piece);
                proof {
                    assert(tail[k - start] == d);
                    assert(forall|j: int| 0 <= j < k - start ==> tail[j] == s@[j + start]);
                    lemma_split_first_delim(tail, d, k - start);
                    assert(tail.subrange(0, k - start) =~= s@.subrange(start as int, k as int));
                    assert(tail.subrange(k - start + 1, tail.len() as int) =~= s@.subrange(
                        k + 1,
                        s@.len() as int,
                    ));
                    assert(parts.deep_view() =~~= old_parts.push(piece@));
                    assert(old_parts.push(piece@) + split_on(
                        s@.subrange(k + 1, s@.len() as int),
                        d,
                    ) =~~= old_parts + (seq![piece@] + split_on(
                        s@.subrange(k + 1, s@.len() as int),
                        d,
                    )));
                }
                start = k + 1;
            },
            None => {
                let piece = copy_range(s, start, s.len());
                parts.push(piece);
                proof {
                    assert(!contains_byte(tail, d)) by {
                        assert(forall|j: int|
                            0 <= j < tail.len() ==> tail[j] == s@[j + start] && s@[j + start]
                                != d);
                    }
                    lemma_split_no_delim(tail, d);
                    assert(parts.deep_view() =~~= old_parts.push(piece@));
                    assert(old_parts.push(piece@) =~~= old_parts + seq![tail]);
                }
                return parts;
            },
        }
    }
}

/// One trailing carriage return removed, if present.
pub open spec fn strip_cr(s: Seq<u8>) -> Seq<u8> {
    if s.len() > 0 && s.last() == CR {
        s.drop_last()
    } else {
        s
    }
}

/// The lines of `text`, as `str::lines` yields them: terminated by a line
/// feed or by a carriage return and line feed, with the final terminator
/// optional.  A carriage return is stripped only where a line feed follows
/// it, so a final line without a terminator keeps any trailing carriage
/// return.
pub open spec fn lines_of(text: Seq<u8>) -> Seq<Seq<u8>> {
    if text.len() == 0 {
        Seq::empty()
    } else {
        let parts = split_on(text, NL);
        let head = parts.drop_last().map_values(|p: Seq<u8>| strip_cr(p));
        if parts.last().len() == 0 {
            head
        } else {
            head.push(parts.last())
        }
    }
}

/// The lines of `text`, as `lines_of` describes them.
pub fn lines_vec(text: &[u8]) -> (lines: Vec<Vec<u8>>)
    ensures
        lines.deep_view() == lines_of(text@),
{
    if text.len() == 0 {
        let lines: Vec<Vec<u8>> = Vec::new();
        proof {
            assert(lines.deep_view() =~~= lines_of(text@));
        }
        return lines;
    }
    let mut parts = split_bytes(text, NL);
    proof {
        lemma_split_on_len(text@, NL);
    }
    let ghost full = parts.deep_view();
    let last = parts.pop().unwrap();
    proof {
        assert(parts.deep_view() =~~= full.drop_last());
        assert(last.deep_view() == full.last());
    }
    let mut lines: Vec<Vec<u8>> = Vec::new();
    let n: usize = parts.len();
    let mut i: usize = 0;
    while i < n
        invariant
            n == parts@.len(),
            i <= n,
            parts.deep_view() == full.drop_last(),
            lines.deep_view() =~~= full.drop_last().map_values(|p: Seq<u8>| strip_cr(p)).take(
                i as int,
            ),
        decreases n - i,
    {
        let ghost old_lines = lines.deep_view();
        let p: &Vec<u8> = &parts[i];
        let plen: usize = p.len();
        let stripped: Vec<u8> = if plen > 0 && p[plen - 1] == CR {
            copy_range(p.as_slice(), 0, plen - 1)
        } else {
            copy_range(p.as_slice(), 0, plen)
        };
        proof {
            assert(p@.subrange(0, p@.len() as int) =~= p@);
            assert(p@.drop_last() =~= p@.subrange(0, p@.len() - 1));
            assert(p.deep_view() =~= p@);
            assert(stripped@ == strip_cr(full.drop_last()[i as int]));
        }
        lines.push(stripped);
        proof {
            assert(lines.deep_view() =~~= old_lines.push(stripped@));
            assert(lines.deep_view() =~~= full.drop_last().map_values(
                |p: Seq<u8>| strip_cr(p),
            ).take(i + 1));
        }
        i = i + 1;
    }
    proof {
        assert(full.drop_last().map_values(|p: Seq<u8>| strip_cr(p)).take(n as int) =~~=
            full.drop_last().map_values(|p: Seq<u8>| strip_cr(p)));
    }
    if last.len() > 0 {
        let ghost old_lines = lines.deep_view();
        lines.push(last);
        proof {
            assert(lines.deep_view() =~~= old_lines.push(full.last()));
        }
    }
    proof {
        assert(lines.deep_view() =~~= lines_of(text@));
    }
    lines
}

/// An upper-case ASCII letter mapped to lower case; any other byte unchanged.
pub open spec fn lower_byte(b: u8) -> u8 {
    if 65 <= b <= 90 {
        (b + 32) as u8
    } else {
        b
    }
}

/// Every byte of `s` mapped through `lower_byte`.
pub open spec fn ascii_lower(s: Seq<u8>) -> Seq<u8> {
    s.map_values(|b: u8| lower_byte(b))
}

/// Copy of `s` with upper-case ASCII letters lowered.
pub fn to_lower(s: &[u8]) -> (v: Vec<u8>)
    ensures
        v@ == ascii_lower(s@),
{
    let mut v: Vec<u8> = Vec::new();
    let n: usize = s.len();
    let mut i: usize = 0;
    while i < n
        invariant
            n == s@.len(),
            i <= n,
            v@ =~= ascii_lower(s@).take(i as int),
        decreases n - i,
    {
        let b = s[i];
        if 65 <= b && b <= 90 {
            v.push(b + 32);
        } else {
            v.push(b);
        }
        proof {
            assert(v@ =~= ascii_lower(s@).take(i + 1));
        }
        i = i + 1;
    }
    proof {
        assert(ascii_lower(s@).take(n as int) =~= ascii_lower(s@));
    }
    v
}

/// Byte-for-byte equality of two slices.
pub fn bytes_eq(a: &[u8], b: &[u8]) -> (r: bool)
    ensures
        r == (a@ == b@),
{
    let n: usize = a.len();
    if n != b.len() {
        return false;
    }
    let mut i: usize = 0;
    while i < n
        invariant
            n == a@.len() == b@.len(),
            i <= n,
            forall|j: int| 0 <= j < i ==> a@[j] == b@[j],
        decreases n - i,
    {
        if a[i] != b[i] {
            return false;
        }
        i = i + 1;
    }
    proof {
        assert(a@ =~= b@);
    }
    true
}

} // verus!
