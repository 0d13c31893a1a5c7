//! Numbers with a fraction, carried as their bits.
use vstd::arithmetic::power2::{
    lemma2_to64, lemma2_to64_rest, lemma_pow2_strictly_increases, lemma_pow2_unfold, pow2,
};
use vstd::prelude::*;

verus! {

/// The bits of a single-precision number without its sign.
pub open spec fn magnitude(bits: u32) -> int {
    bits as int % 0x8000_0000
}

/// Whether the bits are those of no number.
pub open spec fn not_a_number(bits: u32) -> bool {
    magnitude(bits) > 0x7f80_0000
}

pub(crate) fn is_not_a_number(bits: u32) -> (r: bool)
    ensures
        r == not_a_number(bits),
{
    bits % 0x8000_0000 > 0x7f80_0000
}

/// Whether the bits of a double-precision number are those of no number.
pub open spec fn not_a_real(bits: u64) -> bool {
    bits as int % 0x8000_0000_0000_0000 > 0x7ff0_0000_0000_0000
}

/// A number as it is stored: nothing in place of what is no number.
pub open spec fn stored_real(bits: Option<u64>) -> Option<u64> {
    match bits {
        Some(b) => if not_a_real(b) {
            None
        } else {
            Some(b)
        },
        None => None,
    }
}

pub(crate) fn to_store(bits: Option<u64>) -> (r: Option<u64>)
    ensures
        r == stored_real(bits),
{
    match bits {
        Some(b) => if b % 0x8000_0000_0000_0000 > 0x7ff0_0000_0000_0000 {
            None
        } else {
            Some(b)
        },
        None => None,
    }
}

/// The size of a whole number.
pub open spec fn size_of_i32(n: i32) -> int {
    if n < 0 {
        -n
    } else {
        n as int
    }
}

/// Whether a double-precision number, given by its bits, is the whole number
/// `n`. The number is `2^52 + fraction`, shifted by the exponent; a whole one
/// of the size of `n` has an exponent from 0 to 31.
pub open spec fn real_is(bits: u64, n: i32) -> bool {
    let negative = bits >= 0x8000_0000_0000_0000;
    let exponent = bits as int / 0x10_0000_0000_0000 % 0x800 - 1023;
    let fraction = bits as int % 0x10_0000_0000_0000;
    if exponent == -1023 && fraction == 0 {
        n == 0
    } else {
        &&& 0 <= exponent <= 31
        &&& n != 0 && negative == (n < 0)
        &&& 0x10_0000_0000_0000 + fraction == size_of_i32(n) * pow2((52 - exponent) as nat)
    }
}

fn power(k: u64) -> (p: u64)
    requires
        k <= 52,
    ensures
        p == pow2(k as nat),
        p <= 0x10_0000_0000_0000,
{
    let mut p: u64 = 1;
    let mut i: u64 = 0;
    proof {
        lemma2_to64();
        lemma2_to64_rest();
    }
    while i < k
        invariant
            i <= k,
            k <= 52,
            p == pow2(i as nat),
            pow2(52) == 0x10_0000_0000_0000,
        decreases k - i,
    {
        proof {
            lemma_pow2_unfold((i + 1) as nat);
            if i + 1 < 52 {
                lemma_pow2_strictly_increases((i + 1) as nat, 52);
            }
        }
        p = p * 2;
        i += 1;
    }
    proof {
        if k < 52 {
            lemma_pow2_strictly_increases(k as nat, 52);
        }
    }
    p
}

/// Whether a double-precision number, given by its bits, is a whole number.
pub(crate) fn real_equals(bits: u64, n: i32) -> (r: bool)
    ensures
        r == real_is(bits, n),
{
    let exponent: u64 = bits / 0x10_0000_0000_0000 % 0x800;
    let fraction: u64 = bits % 0x10_0000_0000_0000;
    if exponent == 0 && fraction == 0 {
        return n == 0;
    }
    if exponent < 1023 || exponent > 1054 || n == 0 || (bits >= 0x8000_0000_0000_0000) != (n < 0) {
        return false;
    }
    let size: u64 = if n < 0 {
        (-(n as i64)) as u64
    } else {
        n as u64
    };
    let p: u64 = power(1075 - exponent);
    proof {
        assert(0 <= size * p <= 0x8000_0000 * 0x10_0000_0000_0000) by (nonlinear_arith)
            requires
                0 <= size <= 0x8000_0000,
                0 <= p <= 0x10_0000_0000_0000,
        ;
    }
    0x10_0000_0000_0000u128 + fraction as u128 == size as u128 * p as u128
}

/// A pattern of bits is no number where the exponent is all ones and the
/// fraction is not all noughts, whatever the sign.
pub proof fn no_number_has_a_full_exponent_and_a_fraction(bits: u32, wide: u64)
    ensures
        not_a_number(bits) <==> bits as int / 0x80_0000 % 0x100 == 0xff && bits as int % 0x80_0000
            != 0,
        not_a_real(wide) <==> wide as int / 0x10_0000_0000_0000 % 0x800 == 0x7ff && wide as int
            % 0x10_0000_0000_0000 != 0,
{
}

/// What is stored of a number is the number itself; what is no number is left
/// out.
pub proof fn a_number_is_stored_as_it_is(bits: u64)
    ensures
        stored_real(None) is None,
        not_a_real(bits) ==> stored_real(Some(bits)) is None,
        !not_a_real(bits) ==> stored_real(Some(bits)) == Some(bits),
{
}

/// A pattern of bits stands for one whole number at most; both zeros stand for
/// nought.
pub proof fn a_real_is_one_whole_number(bits: u64, a: i32, b: i32)
    ensures
        real_is(bits, a) && real_is(bits, b) ==> a == b,
        real_is(0, a) <==> a == 0,
        real_is(0x8000_0000_0000_0000, a) <==> a == 0,
{
    let exponent = bits as int / 0x10_0000_0000_0000 % 0x800 - 1023;
    if real_is(bits, a) && real_is(bits, b) && 0 <= exponent <= 31 {
        let p = pow2((52 - exponent) as nat);
        vstd::arithmetic::power2::lemma_pow2_pos((52 - exponent) as nat);
        let x = size_of_i32(a);
        let y = size_of_i32(b);
        assert(x == y) by (nonlinear_arith)
            requires
                x * p == y * p,
                p > 0,
        ;
    }
}

/// The bits of a whole number stand for it: the exponent says between which
/// powers of two its size lies, the fraction how far it is from the lower one,
/// and the first bit whether it is negative.
pub proof fn the_bits_of_a_whole_number_stand_for_it(bits: u64, n: i32, e: int)
    requires
        n > 0,
        0 <= e <= 30,
        pow2(e as nat) <= n < 2 * pow2(e as nat),
        bits == (1023 + e) * 0x10_0000_0000_0000 + (n * pow2((52 - e) as nat)
            - 0x10_0000_0000_0000),
    ensures
        real_is(bits, n),
        real_is((bits + 0x8000_0000_0000_0000) as u64, (-n) as i32),
        !real_is(bits, (-n) as i32),
{
    let p = pow2(e as nat) as int;
    let q = pow2((52 - e) as nat) as int;
    let f = n * q - 0x10_0000_0000_0000;
    vstd::arithmetic::power2::lemma_pow2_pos(e as nat);
    vstd::arithmetic::power2::lemma_pow2_pos((52 - e) as nat);
    vstd::arithmetic::power2::lemma_pow2_adds(e as nat, (52 - e) as nat);
    assert(pow2(52) == 0x10_0000_0000_0000) by {
        vstd::arithmetic::power2::lemma2_to64_rest();
    }
    assert(p * q == 0x10_0000_0000_0000);
    assert(0 <= f < 0x10_0000_0000_0000) by (nonlinear_arith)
        requires
            p * q == 0x10_0000_0000_0000,
            p <= n < 2 * p,
            q > 0,
            f == n * q - 0x10_0000_0000_0000,
    ;
    assert(bits as int / 0x10_0000_0000_0000 == 1023 + e);
    assert(bits as int % 0x10_0000_0000_0000 == f);
    assert(bits < 0x8000_0000_0000_0000);
    let w = (bits + 0x8000_0000_0000_0000) as u64;
    assert(w == bits + 0x8000_0000_0000_0000);
    assert(w as int / 0x10_0000_0000_0000 == 1023 + e + 0x800);
    assert(w as int % 0x10_0000_0000_0000 == f);
}

} // verus!
