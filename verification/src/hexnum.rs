//! Base-16 rendering of 32-bit words: strict parsing of hex tokens
//! from the wire and fixed-width lowercase formatting of responses.

use vstd::prelude::*;

verus! {

/// ASCII `0`.
pub const ASCII_ZERO: u8 = 48;

/// ASCII `9`.
pub const ASCII_NINE: u8 = 57;

/// ASCII `a`.
pub const ASCII_LOWER_A: u8 = 97;

/// ASCII `f`.
pub const ASCII_LOWER_F: u8 = 102;

/// ASCII `A`.
pub const ASCII_UPPER_A: u8 = 65;

/// ASCII `F`.
pub const ASCII_UPPER_F: u8 = 70;

/// ASCII `+`.
pub const ASCII_PLUS: u8 = 43;

/// Whether a byte is an ASCII hexadecimal digit, either case.
pub open spec fn is_hex_digit(b: u8) -> bool {
    (ASCII_ZERO <= b && b <= ASCII_NINE) || (ASCII_LOWER_A <= b && b <= ASCII_LOWER_F) || (ASCII_UPPER_A <= b && b <= ASCII_UPPER_F)
}

/// The value of one hexadecimal digit byte.
pub open spec fn hex_digit_val(b: u8) -> nat {
    if ASCII_ZERO <= b && b <= ASCII_NINE {
        (b - ASCII_ZERO) as nat
    } else if ASCII_LOWER_A <= b && b <= ASCII_LOWER_F {
        (b - ASCII_LOWER_A + 10) as nat
    } else {
        (b - ASCII_UPPER_A + 10) as nat
    }
}

/// The value of a run of hexadecimal digit bytes, most significant
/// digit first.
pub open spec fn hex_digits_val(t: Seq<u8>) -> nat
    decreases t.len(),
{
    if t.len() == 0 {
        0
    } else {
        hex_digits_val(t.drop_last()) * 16 + hex_digit_val(t.last())
    }
}

/// The digits of a hex token after the one optional leading plus sign.
pub open spec fn hex_body(t: Seq<u8>) -> Seq<u8> {
    if t.len() > 0 && t[0] == ASCII_PLUS {
        t.drop_first()
    } else {
        t
    }
}

/// Whether a token is a well-formed base-16 rendering of a `u32`: an
/// optional leading plus sign, then one or more hexadecimal digits of
/// either case (no `0x` prefix, nothing else), with a value that fits
/// in 32 bits.
pub open spec fn is_hex_u32(t: Seq<u8>) -> bool {
    let body = hex_body(t);
    body.len() > 0 && (forall|i: int| 0 <= i < body.len() ==> is_hex_digit(body[i]))
        && hex_digits_val(body) < 0x100000000
}

/// The value of a well-formed hex token.
pub open spec fn hex_u32_val(t: Seq<u8>) -> u32 {
    hex_digits_val(hex_body(t)) as u32
}

/// Dropping trailing digits never increases the value, and each
/// dropped digit scales the rest by at least 16.
proof fn lemma_hex_prefix_bound(t: Seq<u8>, k: int)
    requires
        0 <= k <= t.len(),
    ensures
        hex_digits_val(t) >= hex_digits_val(t.take(k)),
        k < t.len() ==> hex_digits_val(t) >= 16 * hex_digits_val(t.take(k)),
    decreases t.len(),
{
    if k == t.len() {
        assert(t.take(k) =~= t);
    } else {
        lemma_hex_prefix_bound(t.drop_last(), k);
        assert(t.drop_last().take(k) =~= t.take(k));
    }
}

/// The value of one hexadecimal digit byte, or `None` for any other
/// byte.
fn hex_digit_of(b: u8) -> (r: Option<u8>)
    ensures
        r is Some <==> is_hex_digit(b),
        is_hex_digit(b) ==> r == Some((hex_digit_val(b) as u8)),
{
    if ASCII_ZERO <= b && b <= ASCII_NINE {
        Some(b - ASCII_ZERO)
    } else if ASCII_LOWER_A <= b && b <= ASCII_LOWER_F {
        Some(b - ASCII_LOWER_A + 10)
    } else if ASCII_UPPER_A <= b && b <= ASCII_UPPER_F {
        Some(b - ASCII_UPPER_A + 10)
    } else {
        None
    }
}

/// Parses a whole token as a base-16 `u32`, mirroring strict unsigned
/// radix parsing: an optional plus sign, then only hexadecimal digits,
/// at least one, value below 2^32; anything else is rejected.
pub fn parse_hex_u32(t: &[u8]) -> (r: Option<u32>)
    ensures
        r is Some <==> is_hex_u32(t@),
        is_hex_u32(t@) ==> r == Some(hex_u32_val(t@)),
{
    let start: usize = if t.len() > 0 && t[0] == ASCII_PLUS {
        1
    } else {
        0
    };
    let ghost body = hex_body(t@);
    proof {
        assert(body =~= t@.skip(start as int));
    }
    if t.len() == start {
        return None;
    }
    let mut acc: u32 = 0;
    let mut i: usize = start;
    while i < t.len()
        invariant
            start <= i <= t@.len(),
            start <= 1,
            body == hex_body(t@),
            body == t@.skip(start as int),
            body.len() == t@.len() - start,
            forall|j: int| start <= j < t@.len() ==> body[j - start] == t@[j],
            acc as nat == hex_digits_val(body.take(i - start)),
            forall|j: int| 0 <= j < i - start ==> is_hex_digit(body[j]),
        decreases t@.len() - i,
    {
        let b = t[i];
        match hex_digit_of(b) {
            None => {
                proof {
                    let k = (i - start) as int;
                    assert(0 <= k < hex_body(t@).len());
                    assert(!is_hex_digit(hex_body(t@)[k]));
                }
                return None;
            },
            Some(d) => {
                // Another digit after this accumulator value pushes the
                // total past 32 bits, whatever the digit is.
                if acc > 0x0FFFFFFF {
                    proof {
                        lemma_hex_prefix_bound(body, i - start);
                        assert(hex_digits_val(body) >= 16 * (acc as nat));
                    }
                    return None;
                }
                proof {
                    let k = i - start;
                    assert(body.take(k + 1).drop_last() =~= body.take(k));
                    assert(body.take(k + 1).last() == body[k]);
                    assert(hex_digit_val(body[k]) == d as nat);
                    assert(hex_digit_val(body[k]) < 16);
                }
                acc = acc * 16 + (d as u32);
            },
        }
        i = i + 1;
    }
    proof {
        assert(body.take(i - start) =~= body);
    }
    Some(acc)
}

/// The lowercase ASCII digit byte for a value below 16.
pub open spec fn hex_digit_byte(n: nat) -> u8 {
    if n < 10 {
        (n + 48) as u8
    } else {
        (n + 87) as u8
    }
}

/// The eight-digit, zero-padded, lowercase hexadecimal rendering of a
/// word, most significant digit first.
pub open spec fn hex8_spec(w: u32) -> Seq<u8> {
    Seq::new(8, |i: int| hex_digit_byte((((w >> ((28 - 4 * i) as u32)) & 0xf) as nat)))
}

/// Formats a word as eight lowercase hexadecimal digits, zero padded.
pub fn format_hex8(w: u32) -> (r: Vec<u8>)
    ensures
        r@ == hex8_spec(w),
{
    let mut r: Vec<u8> = Vec::new();
    let mut i: usize = 0;
    while i < 8
        invariant
            i <= 8,
            r@.len() == i,
            forall|j: int| 0 <= j < i ==> r@[j] == hex8_spec(w)[j],
        decreases 8 - i,
    {
        let sh: u32 = 28 - 4 * (i as u32);
        let d: u32 = (w >> sh) & 0xf;
        assert((w >> sh) & 0xf < 16) by (bit_vector);
        let byte: u8 = if d < 10 {
            (d + 48) as u8
        } else {
            (d + 87) as u8
        };
        r.push(byte);
        assert(byte == hex8_spec(w)[i as int]);
        i = i + 1;
    }
    assert(r@ =~= hex8_spec(w));
    r
}

} // verus!
