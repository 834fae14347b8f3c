//! Codec between 32-bit words and 32-element multi-valued logic vectors.
//!
//! A logic vector stores one signal per element, most-significant bit
//! first, using the simulator's numeric encoding of the nine logic
//! states.  Only four states carry a value for the conversion: low,
//! high, weak low and weak high; every other state decodes as a zero
//! bit (the caller may report it as a diagnostic, see
//! [`std_vec_has_undefined`]).

use vstd::prelude::*;
use vstd::arithmetic::power2::{pow2, lemma_pow2_adds, lemma2_to64};
use vstd::arithmetic::div_mod::{
    lemma_fundamental_div_mod,
    lemma_div_denominator,
    lemma_div_is_ordered,
    lemma_basic_div,
};
use vstd::bits::lemma_u32_shr_is_div;

verus! {

/// Numeric encoding of the `low` logic state.
pub const STD_LOGIC_LOW: u8 = 2;

/// Numeric encoding of the `high` logic state.
pub const STD_LOGIC_HIGH: u8 = 3;

/// Numeric encoding of the `weak low` logic state.
pub const STD_LOGIC_WEAK_LOW: u8 = 6;

/// Numeric encoding of the `weak high` logic state.
pub const STD_LOGIC_WEAK_HIGH: u8 = 7;

/// The bit a single logic element contributes when decoding: 1 for
/// high or weak high, 0 for everything else.
pub open spec fn bit_of(e: u8) -> u32 {
    if e == STD_LOGIC_HIGH || e == STD_LOGIC_WEAK_HIGH {
        1u32
    } else {
        0u32
    }
}

/// A logic element whose state is neither high, low, weak high nor
/// weak low; such an element decodes as 0 but deserves a diagnostic.
pub open spec fn is_undefined(e: u8) -> bool {
    e != STD_LOGIC_LOW && e != STD_LOGIC_HIGH && e != STD_LOGIC_WEAK_LOW
        && e != STD_LOGIC_WEAK_HIGH
}

/// Decoding a logic vector, folding from the most significant element:
/// each step shifts the accumulator left and ors the element's bit in.
pub open spec fn decode_acc(v: Seq<u8>, acc: u32) -> u32
    decreases v.len(),
{
    if v.len() == 0 {
        acc
    } else {
        decode_acc(v.drop_first(), (acc << 1u32) | bit_of(v.first()))
    }
}

/// The word a logic vector decodes to.
pub open spec fn decode_spec(v: Seq<u8>) -> u32 {
    decode_acc(v, 0)
}

/// The 32-element logic vector a word encodes to, most significant
/// bit first: element `i` is high when bit `31 - i` of the word is 1,
/// else low.
pub open spec fn encode_spec(w: u32) -> Seq<u8> {
    Seq::new(32, |i: int| if (w >> ((31 - i) as u32)) & 1 == 1 {
        STD_LOGIC_HIGH
    } else {
        STD_LOGIC_LOW
    })
}

/// Converts a 32-bit word to a logic vector, most significant bit
/// first, using only the strong `low`/`high` states.
pub fn u32_to_std_vec(num: u32, std_vec: &mut [u8; 32])
    ensures
        final(std_vec)@ == encode_spec(num),
{
    let mut shifted: u32 = num;
    let mut i: usize = 0;
    assert(num << 0u32 == num) by (bit_vector);
    while i < 32
        invariant
            i <= 32,
            shifted == num << (i as u32),
            forall|j: int| 0 <= j < i ==> std_vec@[j] == encode_spec(num)[j],
        decreases 32 - i,
    {
        assert(((num << (i as u32)) & 0x80000000) != 0 <==> (num >> ((31 - i) as u32)) & 1 == 1)
            by (bit_vector)
            requires
                i < 32,
        ;
        if shifted & 0x80000000 == 0 {
            std_vec[i] = STD_LOGIC_LOW;
        } else {
            std_vec[i] = STD_LOGIC_HIGH;
        }
        assert((num << (i as u32)) << 1u32 == num << ((i + 1) as u32)) by (bit_vector)
            requires
                i < 32,
        ;
        shifted = shifted << 1u32;
        i = i + 1;
    }
    assert(std_vec@ =~= encode_spec(num));
}

/// Converts a logic vector to a 32-bit word, most significant element
/// first; high and weak high elements contribute a 1 bit, every other
/// state a 0 bit.
pub fn std_vec_to_u32(std_vec: &[u8; 32]) -> (num: u32)
    ensures
        num == decode_spec(std_vec@),
{
    let mut num: u32 = 0;
    let mut i: usize = 0;
    assert(std_vec@.skip(0) =~= std_vec@);
    while i < 32
        invariant
            i <= 32,
            decode_acc(std_vec@, 0) == decode_acc(std_vec@.skip(i as int), num),
        decreases 32 - i,
    {
        let ghost num0 = num;
        let e = std_vec[i];
        num = num << 1u32;
        if e == STD_LOGIC_HIGH || e == STD_LOGIC_WEAK_HIGH {
            num = num | 1;
        }
        proof {
            let pre = std_vec@.skip(i as int);
            assert(pre.first() == std_vec@[i as int]);
            assert(pre.drop_first() =~= std_vec@.skip(i + 1));
            assert((num0 << 1u32) | 0u32 == num0 << 1u32) by (bit_vector);
            assert(num == (num0 << 1u32) | bit_of(std_vec@[i as int]));
            assert(decode_acc(pre, num0) == decode_acc(std_vec@.skip(i + 1), num));
        }
        i = i + 1;
    }
    assert(std_vec@.skip(32) =~= Seq::<u8>::empty());
    num
}

/// Whether any element of the vector is in an undefined state, so
/// that the caller can emit the diagnostic that decoding folds such
/// elements to 0.
pub fn std_vec_has_undefined(std_vec: &[u8; 32]) -> (b: bool)
    ensures
        b == exists|j: int| 0 <= j < 32 && is_undefined(std_vec@[j]),
{
    let mut i: usize = 0;
    while i < 32
        invariant
            i <= 32,
            forall|j: int| 0 <= j < i ==> !is_undefined(std_vec@[j]),
        decreases 32 - i,
    {
        let e = std_vec[i];
        if e != STD_LOGIC_LOW && e != STD_LOGIC_HIGH && e != STD_LOGIC_WEAK_LOW
            && e != STD_LOGIC_WEAK_HIGH {
            assert(is_undefined(std_vec@[i as int]));
            return true;
        }
        i = i + 1;
    }
    false
}

/// Decoding the suffix of an encoded word extends an accumulator that
/// already holds the word's leading bits back to the whole word.
proof fn lemma_decode_encode_from(w: u32, i: int, acc: u32)
    requires
        0 <= i <= 32,
        acc as nat == (w as nat) / pow2((32 - i) as nat),
    ensures
        decode_acc(encode_spec(w).skip(i), acc) == w,
    decreases 32 - i,
{
    lemma2_to64();
    if i == 32 {
        assert(encode_spec(w).skip(32) =~= Seq::<u8>::empty());
        assert(acc as nat == (w as nat) / 1nat);
    } else {
        let s = encode_spec(w).skip(i);
        let sh: u32 = (31 - i) as u32;
        let e = encode_spec(w)[i];
        let b = bit_of(e);
        let x = (w as nat) / pow2(sh as nat);
        lemma_u32_shr_is_div(w, sh);
        assert((w >> sh) & 1 == (w >> sh) % 2 && (w >> sh) % 2 <= 1) by (bit_vector);
        assert(b == (w >> sh) & 1);
        assert(b as nat == x % 2);
        // `acc` holds one bit fewer than `x`: acc == x / 2.
        lemma_pow2_adds(sh as nat, 1);
        lemma_div_denominator(w as int, pow2(sh as nat) as int, 2);
        assert(acc as nat == x / 2);
        // No truncation in the shift: x fits in 32 bits, so acc in 31.
        lemma_div_is_ordered(w as int, u32::MAX as int, pow2(sh as nat) as int);
        lemma_div_is_ordered(x as int, u32::MAX as int, 2);
        assert(acc < 0x80000000);
        let acc2 = (acc << 1u32) | b;
        assert((acc << 1u32) | b == 2 * acc + b) by (bit_vector)
            requires
                acc < 0x80000000u32,
                b <= 1u32,
        ;
        lemma_fundamental_div_mod(x as int, 2);
        assert(acc2 as nat == x);
        assert(s.first() == e);
        assert(s.drop_first() =~= encode_spec(w).skip(i + 1));
        lemma_decode_encode_from(w, i + 1, acc2);
        assert(decode_acc(s, acc) == decode_acc(encode_spec(w).skip(i + 1), acc2));
    }
}

/// Round trip: decoding an encoded word gives the word back, for every
/// 32-bit word.  (The opposite direction is lossy by design: weak and
/// undefined states are folded to plain bits.)
pub proof fn lemma_codec_round_trip(w: u32)
    ensures
        decode_spec(encode_spec(w)) == w,
{
    lemma2_to64();
    lemma_basic_div(w as int, pow2(32) as int);
    assert(encode_spec(w).skip(0) =~= encode_spec(w));
    lemma_decode_encode_from(w, 0, 0);
}

} // verus!
