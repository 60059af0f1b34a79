//! An executable UTF-8 validity check, proved against vstd's `valid_utf8`
//! specification.  The parser treats a datagram that is not valid UTF-8 as
//! decoding to empty text, so validity decides whether a parse can succeed.

use vstd::prelude::*;
use vstd::utf8::*;

verus! {

/// Width of the well-formed scalar encoding starting at `i` in `s`, or
/// `None` when no scalar encoding starts there.
fn scalar_width(s: &[u8], i: usize) -> (r: Option<usize>)
    requires
        i < s@.len(),
    ensures
        match r {
            Some(w) => valid_first_scalar(s@.skip(i as int)) && w == length_of_first_scalar(
                s@.skip(i as int),
            ) && 1 <= w && i + w <= s@.len(),
            None => !valid_first_scalar(s@.skip(i as int)),
        },
{
    let ghost t = s@.skip(i as int);
    let n: usize = s.len();
    let b0 = s[i];
    proof {
        assert(t.len() == s@.len() - i);
        assert(t[0] == b0);
    }
    if b0 < 0x80 {
        proof {
            assert(b0 < 0x80 ==> (b0 & 0x7f) == b0) by (bit_vector);
        }
        Some(1)
    } else if b0 < 0xc2 {
        // A continuation byte in leading position (0x80..=0xbf), or a
        // leading byte whose 2-byte encoding would be overlong (0xc0, 0xc1).
        proof {
            if 0xc0 <= b0 && t.len() >= 2 && is_continuation_byte(t[1]) {
                let b1 = t[1];
                assert(0xc0 <= b0 && b0 <= 0xc1 && 0x80 <= b1 && b1 <= 0xbf ==> ((((b0
                    & 0x1f) as u32) << 6) | ((b1 & 0x3f) as u32)) < 0x80) by (bit_vector);
            }
        }
        None
    } else if b0 <= 0xdf {
        if i + 1 >= n {
            return None;
        }
        let b1 = s[i + 1];
        proof {
            assert(t[1] == b1);
        }
        if b1 < 0x80 || b1 > 0xbf {
            return None;
        }
        proof {
            assert(0xc2 <= b0 && b0 <= 0xdf && 0x80 <= b1 && b1 <= 0xbf ==> 0x80 <= ((((b0
                & 0x1f) as u32) << 6) | ((b1 & 0x3f) as u32)) < 0x800) by (bit_vector);
        }
        Some(2)
    } else if b0 <= 0xef {
        if n - i < 3 {
            return None;
        }
        let b1 = s[i + 1];
        let b2 = s[i + 2];
        proof {
            assert(t[1] == b1 && t[2] == b2);
        }
        let lo: u8 = if b0 == 0xe0 {
            0xa0
        } else {
            0x80
        };
        let hi: u8 = if b0 == 0xed {
            0x9f
        } else {
            0xbf
        };
        if b1 < lo || b1 > hi || b2 < 0x80 || b2 > 0xbf {
            proof {
                if 0x80 <= b1 && b1 <= 0xbf && 0x80 <= b2 && b2 <= 0xbf {
                    if b0 == 0xe0 {
                        assert(b0 == 0xe0 && b1 <= 0x9f && 0x80 <= b1 && 0x80 <= b2 && b2 <= 0xbf
                            ==> ((((b0 & 0x0f) as u32) << 12) | (((b1 & 0x3f) as u32) << 6) | ((b2
                            & 0x3f) as u32)) < 0x800) by (bit_vector);
                    } else {
                        assert(b0 == 0xed && 0xa0 <= b1 && b1 <= 0xbf && 0x80 <= b2 && b2 <= 0xbf
                            ==> 0xd800 <= ((((b0 & 0x0f) as u32) << 12) | (((b1 & 0x3f) as u32)
                            << 6) | ((b2 & 0x3f) as u32)) <= 0xdfff) by (bit_vector);
                    }
                }
            }
            return None;
        }
        proof {
            assert(0xe0 <= b0 && b0 <= 0xef && 0x80 <= b1 && b1 <= 0xbf && 0x80 <= b2 && b2 <= 0xbf
                && (b0 == 0xe0 ==> b1 >= 0xa0) && (b0 == 0xed ==> b1 <= 0x9f) ==> {
                let cp = ((((b0 & 0x0f) as u32) << 12) | (((b1 & 0x3f) as u32) << 6) | ((b2
                    & 0x3f) as u32));
                0x800 <= cp && !(0xd800 <= cp <= 0xdfff)
            }) by (bit_vector);
        }
        Some(3)
    } else if b0 <= 0xf4 {
        if n - i < 4 {
            return None;
        }
        let b1 = s[i + 1];
        let b2 = s[i + 2];
        let b3 = s[i + 3];
        proof {
            assert(t[1] == b1 && t[2] == b2 && t[3] == b3);
        }
        let lo: u8 = if b0 == 0xf0 {
            0x90
        } else {
            0x80
        };
        let hi: u8 = if b0 == 0xf4 {
            0x8f
        } else {
            0xbf
        };
        if b1 < lo || b1 > hi || b2 < 0x80 || b2 > 0xbf || b3 < 0x80 || b3 > 0xbf {
            proof {
                if 0x80 <= b1 && b1 <= 0xbf && 0x80 <= b2 && b2 <= 0xbf && 0x80 <= b3 && b3 <= 0xbf {
                    if b0 == 0xf0 {
                        assert(b0 == 0xf0 && b1 <= 0x8f && 0x80 <= b1 && 0x80 <= b2 && b2 <= 0xbf
                            && 0x80 <= b3 && b3 <= 0xbf ==> ((((b0 & 0x07) as u32) << 18) | (((b1
                            & 0x3f) as u32) << 12) | (((b2 & 0x3f) as u32) << 6) | ((b3
                            & 0x3f) as u32)) < 0x10000) by (bit_vector);
                    } else {
                        assert(b0 == 0xf4 && 0x90 <= b1 && b1 <= 0xbf && 0x80 <= b2 && b2 <= 0xbf
                            && 0x80 <= b3 && b3 <= 0xbf ==> ((((b0 & 0x07) as u32) << 18) | (((b1
                            & 0x3f) as u32) << 12) | (((b2 & 0x3f) as u32) << 6) | ((b3
                            & 0x3f) as u32)) > 0x10ffff) by (bit_vector);
                    }
                }
            }
            return None;
        }
        proof {
            assert(0xf0 <= b0 && b0 <= 0xf4 && 0x80 <= b1 && b1 <= 0xbf && 0x80 <= b2 && b2 <= 0xbf
                && 0x80 <= b3 && b3 <= 0xbf && (b0 == 0xf0 ==> b1 >= 0x90) && (b0 == 0xf4 ==> b1
                <= 0x8f) ==> {
                let cp = ((((b0 & 0x07) as u32) << 18) | (((b1 & 0x3f) as u32) << 12) | (((b2
                    & 0x3f) as u32) << 6) | ((b3 & 0x3f) as u32));
                0x10000 <= cp <= 0x10ffff
            }) by (bit_vector);
        }
        Some(4)
    } else {
        // 0xf5..=0xff: either not a leading byte at all, or a 4-byte
        // encoding beyond the last Unicode scalar.
        proof {
            if b0 <= 0xf7 && t.len() >= 4 && is_continuation_byte(t[1]) && is_continuation_byte(
                t[2],
            ) && is_continuation_byte(t[3]) {
                let b1 = t[1];
                let b2 = t[2];
                let b3 = t[3];
                assert(0xf5 <= b0 && b0 <= 0xf7 && 0x80 <= b1 && b1 <= 0xbf && 0x80 <= b2 && b2
                    <= 0xbf && 0x80 <= b3 && b3 <= 0xbf ==> ((((b0 & 0x07) as u32) << 18) | (((b1
                    & 0x3f) as u32) << 12) | (((b2 & 0x3f) as u32) << 6) | ((b3
                    & 0x3f) as u32)) > 0x10ffff) by (bit_vector);
            }
        }
        None
    }
}

/// True when `s` is a valid UTF-8 encoding of some character sequence.
pub fn is_utf8(s: &[u8]) -> (r: bool)
    ensures
        r == valid_utf8(s@),
{
    let n: usize = s.len();
    let mut i: usize = 0;
    proof {
        assert(s@.skip(0) =~= s@);
    }
    while i < n
        invariant
            n == s@.len(),
            i <= n,
            valid_utf8(s@) == valid_utf8(s@.skip(i as int)),
        decreases n - i,
    {
        let ghost t = s@.skip(i as int);
        match scalar_width(s, i) {
            Some(w) => {
                proof {
                    assert(pop_first_scalar(t) =~= s@.skip(i + w));
                }
                i = i + w;
            },
            None => {
                proof {
                    assert(t.len() > 0);
                    assert(!valid_utf8(t));
                }
                return false;
            },
        }
    }
    proof {
        assert(s@.skip(n as int) =~= Seq::<u8>::empty());
    }
    true
}

} // verus!
