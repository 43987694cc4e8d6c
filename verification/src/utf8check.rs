//! A verified UTF-8 validity check over byte sequences.
//!
//! The executable scanner below is proved equivalent to `vstd::utf8::valid_utf8`,
//! the mathematical definition of UTF-8 well-formedness: one Unicode scalar at a
//! time, rejecting overlong encodings and surrogate codepoints.

use vstd::prelude::*;
use vstd::utf8::*;

verus! {

/// A byte sequence beginning with `0xxxxxxx` starts with a one-byte scalar.
proof fn lemma_scalar_width_1(s: Seq<u8>)
    requires
        s.len() >= 1,
        s[0] <= 0x7f,
    ensures
        valid_first_scalar(s),
        length_of_first_scalar(s) == 1,
{
    let b0 = s[0];
    assert(((b0 & 0x7f) as u32) <= 0x7f) by (bit_vector);
}

/// A byte sequence beginning with a two-byte leading byte in `0xC2..=0xDF`
/// followed by a continuation byte starts with a two-byte scalar.
proof fn lemma_scalar_width_2(s: Seq<u8>)
    requires
        s.len() >= 2,
        0xc2 <= s[0] <= 0xdf,
        0x80 <= s[1] <= 0xbf,
    ensures
        valid_first_scalar(s),
        length_of_first_scalar(s) == 2,
{
    let b0 = s[0];
    let b1 = s[1];
    assert(0x80 <= ((((b0 & 0x1f) as u32) << 6) | ((b1 & 0x3f) as u32)) <= 0x7ff) by (bit_vector)
        requires
            0xc2 <= b0 <= 0xdf && 0x80 <= b1 <= 0xbf,
    ;
}

/// A three-byte sequence with a leading byte in `0xE0..=0xEF`, two continuation
/// bytes, and the extra first-continuation constraints that rule out overlong
/// encodings (`0xE0`) and surrogates (`0xED`) starts with a three-byte scalar.
proof fn lemma_scalar_width_3(s: Seq<u8>)
    requires
        s.len() >= 3,
        0xe0 <= s[0] <= 0xef,
        0x80 <= s[1] <= 0xbf,
        0x80 <= s[2] <= 0xbf,
        s[0] == 0xe0 ==> s[1] >= 0xa0,
        s[0] == 0xed ==> s[1] <= 0x9f,
    ensures
        valid_first_scalar(s),
        length_of_first_scalar(s) == 3,
{
    let b0 = s[0];
    let b1 = s[1];
    let b2 = s[2];
    let cp = ((((b0 & 0x0f) as u32) << 12) | (((b1 & 0x3f) as u32) << 6)) | ((b2 & 0x3f) as u32);
    assert(0x800 <= ((((b0 & 0x0f) as u32) << 12) | (((b1 & 0x3f) as u32) << 6)) | ((b2
        & 0x3f) as u32) <= 0xffff && !(0xd800 <= ((((b0 & 0x0f) as u32) << 12) | (((b1
        & 0x3f) as u32) << 6)) | ((b2 & 0x3f) as u32) <= 0xdfff)) by (bit_vector)
        requires
            0xe0 <= b0 <= 0xef && 0x80 <= b1 <= 0xbf && 0x80 <= b2 <= 0xbf && (b0 == 0xe0 ==> b1
                >= 0xa0) && (b0 == 0xed ==> b1 <= 0x9f),
    ;
    assert(codepoint_width_3(b0, b1, b2) == cp);
}

/// A four-byte sequence with a leading byte in `0xF0..=0xF4`, three
/// continuation bytes, and the first-continuation constraints that keep the
/// codepoint inside `0x10000..=0x10FFFF` starts with a four-byte scalar.
proof fn lemma_scalar_width_4(s: Seq<u8>)
    requires
        s.len() >= 4,
        0xf0 <= s[0] <= 0xf4,
        0x80 <= s[1] <= 0xbf,
        0x80 <= s[2] <= 0xbf,
        0x80 <= s[3] <= 0xbf,
        s[0] == 0xf0 ==> s[1] >= 0x90,
        s[0] == 0xf4 ==> s[1] <= 0x8f,
    ensures
        valid_first_scalar(s),
        length_of_first_scalar(s) == 4,
{
    let b0 = s[0];
    let b1 = s[1];
    let b2 = s[2];
    let b3 = s[3];
    let cp = (((((b0 & 0x07) as u32) << 18) | (((b1 & 0x3f) as u32) << 12)) | (((b2
        & 0x3f) as u32) << 6)) | ((b3 & 0x3f) as u32);
    assert(0x10000 <= (((((b0 & 0x07) as u32) << 18) | (((b1 & 0x3f) as u32) << 12)) | (((b2
        & 0x3f) as u32) << 6)) | ((b3 & 0x3f) as u32) <= 0x10ffff) by (bit_vector)
        requires
            0xf0 <= b0 <= 0xf4 && 0x80 <= b1 <= 0xbf && 0x80 <= b2 <= 0xbf && 0x80 <= b3 <= 0xbf
                && (b0 == 0xf0 ==> b1 >= 0x90) && (b0 == 0xf4 ==> b1 <= 0x8f),
    ;
    assert(codepoint_width_4(b0, b1, b2, b3) == cp);
}

/// A sequence whose first byte is a stray continuation byte, an overlong
/// two-byte leading byte (`0xC0`/`0xC1`), or a byte above `0xF4` does not
/// start with a valid scalar.
proof fn lemma_bad_lead(s: Seq<u8>)
    requires
        s.len() >= 1,
        0x80 <= s[0] <= 0xc1 || 0xf5 <= s[0],
    ensures
        !valid_first_scalar(s),
{
    let b0 = s[0];
    if 0xc0 <= b0 <= 0xc1 {
        if s.len() >= 2 {
            let b1 = s[1];
            assert(((((b0 & 0x1f) as u32) << 6) | ((b1 & 0x3f) as u32)) <= 0x7f) by (bit_vector)
                requires
                    0xc0 <= b0 <= 0xc1,
            ;
        }
    } else if 0xf5 <= b0 <= 0xf7 {
        if s.len() >= 4 {
            let b1 = s[1];
            let b2 = s[2];
            let b3 = s[3];
            assert((((((b0 & 0x07) as u32) << 18) | (((b1 & 0x3f) as u32) << 12)) | (((b2
                & 0x3f) as u32) << 6)) | ((b3 & 0x3f) as u32) > 0x10ffff) by (bit_vector)
                requires
                    0xf5 <= b0 <= 0xf7,
            ;
        }
    }
}

/// A sequence led by `0xE0` or `0xED` whose continuation bytes fail the
/// scanner's checks does not start with a valid scalar: either the shape is
/// wrong, or the codepoint is overlong (`0xE0`) or a surrogate (`0xED`).
proof fn lemma_bad_width_3(s: Seq<u8>)
    requires
        s.len() >= 1,
        s[0] == 0xe0 || s[0] == 0xed,
        s.len() >= 3 ==> {
            ||| !(0x80 <= s[1] <= 0xbf)
            ||| !(0x80 <= s[2] <= 0xbf)
            ||| (s[0] == 0xe0 && s[1] < 0xa0)
            ||| (s[0] == 0xed && s[1] > 0x9f)
        },
    ensures
        !valid_first_scalar(s),
{
    let b0 = s[0];
    if s.len() >= 3 {
        let b1 = s[1];
        let b2 = s[2];
        if 0x80 <= b1 <= 0xbf && 0x80 <= b2 <= 0xbf {
            if b0 == 0xe0 {
                assert(((((b0 & 0x0f) as u32) << 12) | (((b1 & 0x3f) as u32) << 6)) | ((b2
                    & 0x3f) as u32) < 0x800) by (bit_vector)
                    requires
                        b0 == 0xe0 && 0x80 <= b1 <= 0x9f,
                ;
            } else {
                assert(0xd800 <= ((((b0 & 0x0f) as u32) << 12) | (((b1 & 0x3f) as u32) << 6)) | ((
                b2 & 0x3f) as u32) <= 0xdfff) by (bit_vector)
                    requires
                        b0 == 0xed && 0xa0 <= b1 <= 0xbf,
                ;
            }
        }
    }
}

/// A sequence led by `0xF0` or `0xF4` whose continuation bytes fail the
/// scanner's checks does not start with a valid scalar: either the shape is
/// wrong, or the codepoint is overlong (`0xF0`) or above `0x10FFFF` (`0xF4`).
proof fn lemma_bad_width_4(s: Seq<u8>)
    requires
        s.len() >= 1,
        s[0] == 0xf0 || s[0] == 0xf4,
        s.len() >= 4 ==> {
            ||| !(0x80 <= s[1] <= 0xbf)
            ||| !(0x80 <= s[2] <= 0xbf)
            ||| !(0x80 <= s[3] <= 0xbf)
            ||| (s[0] == 0xf0 && s[1] < 0x90)
            ||| (s[0] == 0xf4 && s[1] > 0x8f)
        },
    ensures
        !valid_first_scalar(s),
{
    let b0 = s[0];
    if s.len() >= 4 {
        let b1 = s[1];
        let b2 = s[2];
        let b3 = s[3];
        if 0x80 <= b1 <= 0xbf && 0x80 <= b2 <= 0xbf && 0x80 <= b3 <= 0xbf {
            if b0 == 0xf0 {
                assert((((((b0 & 0x07) as u32) << 18) | (((b1 & 0x3f) as u32) << 12)) | (((b2
                    & 0x3f) as u32) << 6)) | ((b3 & 0x3f) as u32) < 0x10000) by (bit_vector)
                    requires
                        b0 == 0xf0 && 0x80 <= b1 <= 0x8f,
                ;
            } else {
                assert((((((b0 & 0x07) as u32) << 18) | (((b1 & 0x3f) as u32) << 12)) | (((b2
                    & 0x3f) as u32) << 6)) | ((b3 & 0x3f) as u32) > 0x10ffff) by (bit_vector)
                    requires
                        b0 == 0xf4 && 0x90 <= b1 <= 0xbf,
                ;
            }
        }
    }
}

/// A valid prefix followed by an invalid first scalar makes the whole
/// sequence invalid.
proof fn lemma_prefix_invalid(bytes: Seq<u8>, i: int)
    requires
        partial_valid_utf8(bytes, i),
        i < bytes.len(),
        !valid_first_scalar(bytes.subrange(i, bytes.len() as int)),
    ensures
        !valid_utf8(bytes),
{
    let s = bytes.subrange(i, bytes.len() as int);
    assert(s.len() > 0);
    assert(!valid_utf8(s));
    partial_valid_partial_invalid_utf8(bytes, i);
}

/// Whether `bytes` is a well-formed UTF-8 encoding, decided by scanning one
/// scalar at a time.
pub fn check_utf8(bytes: &Vec<u8>) -> (r: bool)
    ensures
        r == valid_utf8(bytes@),
{
    let n = bytes.len();
    let mut i: usize = 0;
    while i < n
        invariant
            i <= n,
            n == bytes@.len(),
            partial_valid_utf8(bytes@, i as int),
        decreases n - i,
    {
        let ghost s = bytes@.subrange(i as int, n as int);
        let b0 = bytes[i];
        if b0 <= 0x7f {
            proof {
                lemma_scalar_width_1(s);
                partial_valid_utf8_extend(bytes@, i as int);
            }
            i = i + 1;
        } else if 0xc2 <= b0 && b0 <= 0xdf {
            if n - i < 2 || !(0x80 <= bytes[i + 1] && bytes[i + 1] <= 0xbf) {
                proof {
                    lemma_prefix_invalid(bytes@, i as int);
                }
                return false;
            }
            proof {
                lemma_scalar_width_2(s);
                partial_valid_utf8_extend(bytes@, i as int);
            }
            i = i + 2;
        } else if 0xe0 <= b0 && b0 <= 0xef {
            if n - i < 3 {
                proof {
                    if b0 == 0xe0 || b0 == 0xed {
                        lemma_bad_width_3(s);
                    }
                    lemma_prefix_invalid(bytes@, i as int);
                }
                return false;
            }
            let b1 = bytes[i + 1];
            let b2 = bytes[i + 2];
            let lo: u8 = if b0 == 0xe0 {
                0xa0
            } else {
                0x80
            };
            let hi: u8 = if b0 == 0xed {
                0x9f
            } else {
                0xbf
            };
            if !(lo <= b1 && b1 <= hi) || !(0x80 <= b2 && b2 <= 0xbf) {
                proof {
                    if b0 == 0xe0 || b0 == 0xed {
                        lemma_bad_width_3(s);
                    }
                    lemma_prefix_invalid(bytes@, i as int);
                }
                return false;
            }
            proof {
                lemma_scalar_width_3(s);
                partial_valid_utf8_extend(bytes@, i as int);
            }
            i = i + 3;
        } else if 0xf0 <= b0 && b0 <= 0xf4 {
            if n - i < 4 {
                proof {
                    if b0 == 0xf0 || b0 == 0xf4 {
                        lemma_bad_width_4(s);
                    }
                    lemma_prefix_invalid(bytes@, i as int);
                }
                return false;
            }
            let b1 = bytes[i + 1];
            let b2 = bytes[i + 2];
            let b3 = bytes[i + 3];
            let lo: u8 = if b0 == 0xf0 {
                0x90
            } else {
                0x80
            };
            let hi: u8 = if b0 == 0xf4 {
                0x8f
            } else {
                0xbf
            };
            if !(lo <= b1 && b1 <= hi) || !(0x80 <= b2 && b2 <= 0xbf) || !(0x80 <= b3 && b3
                <= 0xbf) {
                proof {
                    if b0 == 0xf0 || b0 == 0xf4 {
                        lemma_bad_width_4(s);
                    }
                    lemma_prefix_invalid(bytes@, i as int);
                }
                return false;
            }
            proof {
                lemma_scalar_width_4(s);
                partial_valid_utf8_extend(bytes@, i as int);
            }
            i = i + 4;
        } else {
            proof {
                lemma_bad_lead(s);
                lemma_prefix_invalid(bytes@, i as int);
            }
            return false;
        }
    }
    proof {
        assert(bytes@.subrange(0, n as int) =~= bytes@);
    }
    true
}

} // verus!
