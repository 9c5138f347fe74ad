//! UTF-8 validation of the header text.
//!
//! The header is defined as UTF-8 text; a header whose bytes are not
//! well-formed UTF-8 is malformed.  `is_utf8` is the standard
//! definition: one-byte sequences below 0x80, and two- to four-byte
//! sequences whose lead byte fixes the admissible range of the first
//! continuation byte, excluding overlong forms, surrogates and code
//! points past 0x10FFFF.

use vstd::prelude::*;

verus! {

broadcast use vstd::seq::group_seq_axioms, vstd::std_specs::vec::group_vec_axioms;

/// Whether a byte is a UTF-8 continuation byte.
pub open spec fn is_cont(b: u8) -> bool {
    0x80 <= b <= 0xBF
}

/// Whether `s` is well-formed UTF-8.
pub open spec fn is_utf8(s: Seq<u8>) -> bool
    decreases s.len(),
{
    if s.len() == 0 {
        true
    } else if s[0] < 0x80 {
        is_utf8(s.skip(1))
    } else if 0xC2 <= s[0] <= 0xDF {
        s.len() >= 2 && is_cont(s[1]) && is_utf8(s.skip(2))
    } else if s[0] == 0xE0 {
        s.len() >= 3 && 0xA0 <= s[1] <= 0xBF && is_cont(s[2]) && is_utf8(s.skip(3))
    } else if 0xE1 <= s[0] <= 0xEC || 0xEE <= s[0] <= 0xEF {
        s.len() >= 3 && is_cont(s[1]) && is_cont(s[2]) && is_utf8(s.skip(3))
    } else if s[0] == 0xED {
        s.len() >= 3 && 0x80 <= s[1] <= 0x9F && is_cont(s[2]) && is_utf8(s.skip(3))
    } else if s[0] == 0xF0 {
        s.len() >= 4 && 0x90 <= s[1] <= 0xBF && is_cont(s[2]) && is_cont(s[3]) && is_utf8(
            s.skip(4),
        )
    } else if 0xF1 <= s[0] <= 0xF3 {
        s.len() >= 4 && is_cont(s[1]) && is_cont(s[2]) && is_cont(s[3]) && is_utf8(s.skip(4))
    } else if s[0] == 0xF4 {
        s.len() >= 4 && 0x80 <= s[1] <= 0x8F && is_cont(s[2]) && is_cont(s[3]) && is_utf8(
            s.skip(4),
        )
    } else {
        false
    }
}

/// Decides whether the bytes are well-formed UTF-8.
pub fn validate_utf8(s: &Vec<u8>) -> (r: bool)
    ensures
        r == is_utf8(s@),
{
    let n = s.len();
    let mut i: usize = 0;
    proof {
        assert(s@.skip(0) =~= s@);
    }
    while i < n
        invariant
            i <= n,
            n == s@.len(),
            is_utf8(s@) == is_utf8(s@.skip(i as int)),
        decreases n - i,
    {
        let ghost suf = s@.skip(i as int);
        proof {
            assert(forall|k: int| 0 <= k < suf.len() ==> suf[k] == s@[i + k]);
        }
        let b = s[i];
        let width: usize;
        if b < 0x80 {
            width = 1;
        } else if 0xC2 <= b && b <= 0xDF {
            if n - i < 2 || !(0x80 <= s[i + 1] && s[i + 1] <= 0xBF) {
                return false;
            }
            width = 2;
        } else if b == 0xE0 {
            if n - i < 3 || !(0xA0 <= s[i + 1] && s[i + 1] <= 0xBF) || !(0x80 <= s[i + 2] && s[i
                + 2] <= 0xBF) {
                return false;
            }
            width = 3;
        } else if (0xE1 <= b && b <= 0xEC) || (0xEE <= b && b <= 0xEF) {
            if n - i < 3 || !(0x80 <= s[i + 1] && s[i + 1] <= 0xBF) || !(0x80 <= s[i + 2] && s[i
                + 2] <= 0xBF) {
                return false;
            }
            width = 3;
        } else if b == 0xED {
            if n - i < 3 || !(0x80 <= s[i + 1] && s[i + 1] <= 0x9F) || !(0x80 <= s[i + 2] && s[i
                + 2] <= 0xBF) {
                return false;
            }
            width = 3;
        } else if b == 0xF0 {
            if n - i < 4 || !(0x90 <= s[i + 1] && s[i + 1] <= 0xBF) || !(0x80 <= s[i + 2] && s[i
                + 2] <= 0xBF) || !(0x80 <= s[i + 3] && s[i + 3] <= 0xBF) {
                return false;
            }
            width = 4;
        } else if 0xF1 <= b && b <= 0xF3 {
            if n - i < 4 || !(0x80 <= s[i + 1] && s[i + 1] <= 0xBF) || !(0x80 <= s[i + 2] && s[i
                + 2] <= 0xBF) || !(0x80 <= s[i + 3] && s[i + 3] <= 0xBF) {
                return false;
            }
            width = 4;
        } else if b == 0xF4 {
            if n - i < 4 || !(0x80 <= s[i + 1] && s[i + 1] <= 0x8F) || !(0x80 <= s[i + 2] && s[i
                + 2] <= 0xBF) || !(0x80 <= s[i + 3] && s[i + 3] <= 0xBF) {
                return false;
            }
            width = 4;
        } else {
            return false;
        }
        proof {
            assert(suf.skip(width as int) =~= s@.skip(i + width));
        }
        i = i + width;
    }
    proof {
        assert(s@.skip(n as int) =~= Seq::<u8>::empty());
    }
    true
}

} // verus!
