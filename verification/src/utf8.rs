//! UTF-8 validity, spelled out byte by byte (RFC 3629): no overlong
//! forms, no surrogates, nothing above U+10FFFF.

use vstd::prelude::*;

verus! {

/// A continuation byte.
pub open spec fn is_cont(b: u8) -> bool {
    0x80 <= b <= 0xBF
}

/// Whether a byte sequence is well-formed UTF-8.
pub open spec fn utf8_valid(s: Seq<u8>) -> bool
    decreases s.len(),
{
    if s.len() == 0 {
        true
    } else {
        let b0 = s[0];
        if b0 < 0x80 {
            utf8_valid(s.skip(1))
        } else if b0 < 0xC2 {
            false
        } else if b0 <= 0xDF {
            if s.len() < 2 {
                false
            } else {
                is_cont(s[1]) && utf8_valid(s.skip(2))
            }
        } else if b0 <= 0xEF {
            if s.len() < 3 {
                false
            } else {
                let lo: u8 = if b0 == 0xE0 {
                    0xA0
                } else {
                    0x80
                };
                let hi: u8 = if b0 == 0xED {
                    0x9F
                } else {
                    0xBF
                };
                lo <= s[1] <= hi && is_cont(s[2]) && utf8_valid(s.skip(3))
            }
        } else if b0 <= 0xF4 {
            if s.len() < 4 {
                false
            } else {
                let lo: u8 = if b0 == 0xF0 {
                    0x90
                } else {
                    0x80
                };
                let hi: u8 = if b0 == 0xF4 {
                    0x8F
                } else {
                    0xBF
                };
                lo <= s[1] <= hi && is_cont(s[2]) && is_cont(s[3]) && utf8_valid(s.skip(4))
            }
        } else {
            false
        }
    }
}

/// Check a whole buffer for UTF-8 validity.
pub fn is_utf8(s: &[u8]) -> (r: bool)
    ensures
        r == utf8_valid(s@),
{
    let len = s.len();
    let mut i: usize = 0;
    proof {
        assert(s@.skip(0) =~= s@);
    }
    while i < len
        invariant
            i <= len,
            len == s@.len(),
            utf8_valid(s@) == utf8_valid(s@.skip(i as int)),
        decreases len - i,
    {
        let ghost tail = s@.skip(i as int);
        let b0 = s[i];
        assert(tail[0] == b0);
        if b0 < 0x80 {
            proof {
                assert(tail.skip(1) =~= s@.skip(i + 1));
            }
            i = i + 1;
        } else if b0 < 0xC2 {
            return false;
        } else if b0 <= 0xDF {
            if len - i < 2 {
                return false;
            }
            let b1 = s[i + 1];
            assert(tail[1] == b1);
            if !(0x80 <= b1 && b1 <= 0xBF) {
                return false;
            }
            proof {
                assert(tail.skip(2) =~= s@.skip(i + 2));
            }
            i = i + 2;
        } else if b0 <= 0xEF {
            if len - i < 3 {
                return false;
            }
            let b1 = s[i + 1];
            let b2 = s[i + 2];
            assert(tail[1] == b1 && tail[2] == b2);
            let lo: u8 = if b0 == 0xE0 {
                0xA0
            } else {
                0x80
            };
            let hi: u8 = if b0 == 0xED {
                0x9F
            } else {
                0xBF
            };
            if !(lo <= b1 && b1 <= hi && 0x80 <= b2 && b2 <= 0xBF) {
                return false;
            }
            proof {
                assert(tail.skip(3) =~= s@.skip(i + 3));
            }
            i = i + 3;
        } else if b0 <= 0xF4 {
            if len - i < 4 {
                return false;
            }
            let b1 = s[i + 1];
            let b2 = s[i + 2];
            let b3 = s[i + 3];
            assert(tail[1] == b1 && tail[2] == b2 && tail[3] == b3);
            let lo: u8 = if b0 == 0xF0 {
                0x90
            } else {
                0x80
            };
            let hi: u8 = if b0 == 0xF4 {
                0x8F
            } else {
                0xBF
            };
            if !(lo <= b1 && b1 <= hi && 0x80 <= b2 && b2 <= 0xBF && 0x80 <= b3 && b3
                <= 0xBF) {
                return false;
            }
            proof {
                assert(tail.skip(4) =~= s@.skip(i + 4));
            }
            i = i + 4;
        } else {
            return false;
        }
    }
    proof {
        assert(s@.skip(len as int) =~= Seq::<u8>::empty());
    }
    true
}

/// Whether a byte sequence is a prefix of well-formed UTF-8: every
/// complete code point is valid, and a final truncated one has all its
/// present bytes in range.
pub open spec fn utf8_prefix_valid(s: Seq<u8>) -> bool
    decreases s.len(),
{
    if s.len() == 0 {
        true
    } else {
        let b0 = s[0];
        if b0 < 0x80 {
            utf8_prefix_valid(s.skip(1))
        } else if b0 < 0xC2 {
            false
        } else if b0 <= 0xDF {
            if s.len() < 2 {
                true
            } else {
                is_cont(s[1]) && utf8_prefix_valid(s.skip(2))
            }
        } else if b0 <= 0xEF {
            let lo: u8 = if b0 == 0xE0 {
                0xA0
            } else {
                0x80
            };
            let hi: u8 = if b0 == 0xED {
                0x9F
            } else {
                0xBF
            };
            if s.len() < 2 {
                true
            } else if !(lo <= s[1] <= hi) {
                false
            } else if s.len() < 3 {
                true
            } else {
                is_cont(s[2]) && utf8_prefix_valid(s.skip(3))
            }
        } else if b0 <= 0xF4 {
            let lo: u8 = if b0 == 0xF0 {
                0x90
            } else {
                0x80
            };
            let hi: u8 = if b0 == 0xF4 {
                0x8F
            } else {
                0xBF
            };
            if s.len() < 2 {
                true
            } else if !(lo <= s[1] <= hi) {
                false
            } else if s.len() < 3 {
                true
            } else if !is_cont(s[2]) {
                false
            } else if s.len() < 4 {
                true
            } else {
                is_cont(s[3]) && utf8_prefix_valid(s.skip(4))
            }
        } else {
            false
        }
    }
}

/// Check whether a buffer is a prefix of well-formed UTF-8.
pub fn is_utf8_prefix(s: &[u8]) -> (r: bool)
    ensures
        r == utf8_prefix_valid(s@),
{
    let len = s.len();
    let mut i: usize = 0;
    proof {
        assert(s@.skip(0) =~= s@);
    }
    while i < len
        invariant
            i <= len,
            len == s@.len(),
            utf8_prefix_valid(s@) == utf8_prefix_valid(s@.skip(i as int)),
        decreases len - i,
    {
        let ghost tail = s@.skip(i as int);
        let b0 = s[i];
        assert(tail[0] == b0);
        if b0 < 0x80 {
            proof {
                assert(tail.skip(1) =~= s@.skip(i + 1));
            }
            i = i + 1;
        } else if b0 < 0xC2 {
            return false;
        } else if b0 <= 0xDF {
            if len - i < 2 {
                return true;
            }
            let b1 = s[i + 1];
            assert(tail[1] == b1);
            if !(0x80 <= b1 && b1 <= 0xBF) {
                return false;
            }
            proof {
                assert(tail.skip(2) =~= s@.skip(i + 2));
            }
            i = i + 2;
        } else if b0 <= 0xEF {
            let lo: u8 = if b0 == 0xE0 {
                0xA0
            } else {
                0x80
            };
            let hi: u8 = if b0 == 0xED {
                0x9F
            } else {
                0xBF
            };
            if len - i < 2 {
                return true;
            }
            let b1 = s[i + 1];
            assert(tail[1] == b1);
            if !(lo <= b1 && b1 <= hi) {
                return false;
            }
            if len - i < 3 {
                return true;
            }
            let b2 = s[i + 2];
            assert(tail[2] == b2);
            if !(0x80 <= b2 && b2 <= 0xBF) {
                return false;
            }
            proof {
                assert(tail.skip(3) =~= s@.skip(i + 3));
            }
            i = i + 3;
        } else if b0 <= 0xF4 {
            let lo: u8 = if b0 == 0xF0 {
                0x90
            } else {
                0x80
            };
            let hi: u8 = if b0 == 0xF4 {
                0x8F
            } else {
                0xBF
            };
            if len - i < 2 {
                return true;
            }
            let b1 = s[i + 1];
            assert(tail[1] == b1);
            if !(lo <= b1 && b1 <= hi) {
                return false;
            }
            if len - i < 3 {
                return true;
            }
            let b2 = s[i + 2];
            assert(tail[2] == b2);
            if !(0x80 <= b2 && b2 <= 0xBF) {
                return false;
            }
            if len - i < 4 {
                return true;
            }
            let b3 = s[i + 3];
            assert(tail[3] == b3);
            if !(0x80 <= b3 && b3 <= 0xBF) {
                return false;
            }
            proof {
                assert(tail.skip(4) =~= s@.skip(i + 4));
            }
            i = i + 4;
        } else {
            return false;
        }
    }
    proof {
        assert(s@.skip(len as int) =~= Seq::<u8>::empty());
    }
    true
}

/// Every front piece of well-formed UTF-8 is a well-formed prefix.
pub proof fn lemma_utf8_take_prefix(s: Seq<u8>, i: int)
    requires
        utf8_valid(s),
        0 <= i <= s.len(),
    ensures
        utf8_prefix_valid(s.take(i)),
    decreases s.len(),
{
    if i == 0 {
        assert(s.take(0) =~= Seq::<u8>::empty());
    } else {
        let b0 = s[0];
        let t = s.take(i);
        assert(t[0] == b0);
        if b0 < 0x80 {
            lemma_utf8_take_prefix(s.skip(1), i - 1);
            assert(t.skip(1) =~= s.skip(1).take(i - 1));
        } else if b0 <= 0xDF {
            if i >= 2 {
                assert(t[1] == s[1]);
                lemma_utf8_take_prefix(s.skip(2), i - 2);
                assert(t.skip(2) =~= s.skip(2).take(i - 2));
            }
        } else if b0 <= 0xEF {
            if i >= 2 {
                assert(t[1] == s[1]);
            }
            if i >= 3 {
                assert(t[2] == s[2]);
                lemma_utf8_take_prefix(s.skip(3), i - 3);
                assert(t.skip(3) =~= s.skip(3).take(i - 3));
            }
        } else {
            if i >= 2 {
                assert(t[1] == s[1]);
            }
            if i >= 3 {
                assert(t[2] == s[2]);
            }
            if i >= 4 {
                assert(t[3] == s[3]);
                lemma_utf8_take_prefix(s.skip(4), i - 4);
                assert(t.skip(4) =~= s.skip(4).take(i - 4));
            }
        }
    }
}

} // verus!
