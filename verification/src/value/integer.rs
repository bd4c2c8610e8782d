//! Integer arithmetic that wraps around at 64 bits.

use vstd::arithmetic::div_mod::{
    lemma_mod_add_multiples_vanish, lemma_mod_bound, lemma_mod_sub_multiples_vanish,
    lemma_mod_twice, lemma_mul_mod_noop_general, lemma_small_mod,
};
use vstd::arithmetic::power::{
    lemma_pow0, lemma_pow1, lemma_pow_adds, lemma_pow_mod_noop, lemma_pow_multiplies,
    lemma_square_is_pow2, pow,
};
use vstd::prelude::*;
use vstd::wrapping::i64_specs::signed_crop;

verus! {

/// Two to the power 64: the number of 64-bit integers.
pub open spec fn range64() -> int {
    0x1_0000_0000_0000_0000
}

/// `base` to the power `exponent`, wrapped to 64 bits in two's complement.
pub open spec fn integer_power(base: int, exponent: nat) -> i64 {
    signed_crop(pow(base, exponent))
}

/// A 64-bit integer is what any integer congruent to it wraps to.
proof fn lemma_crop_is_the_congruent(r: i64, x: int)
    requires
        r as int % range64() == x % range64(),
    ensures
        r == signed_crop(x),
{
    let m = range64();
    if r >= 0 {
        lemma_small_mod(r as nat, m as nat);
    } else {
        lemma_mod_add_multiples_vanish(r as int, m);
        lemma_small_mod((m + r) as nat, m as nat);
    }
}

/// Wrapping leaves an integer in its class modulo two to the power 64.
proof fn lemma_crop_congruent(x: int)
    ensures
        signed_crop(x) as int % range64() == x % range64(),
{
    let m = range64();
    lemma_mod_bound(x, m);
    if x % m > i64::MAX {
        lemma_mod_sub_multiples_vanish(x % m, m);
    }
    lemma_mod_twice(x, m);
}

/// Congruent factors give congruent products.
proof fn lemma_mul_congruent(a: int, a2: int, b: int, b2: int)
    requires
        a % range64() == a2 % range64(),
        b % range64() == b2 % range64(),
    ensures
        (a * b) % range64() == (a2 * b2) % range64(),
{
    lemma_mul_mod_noop_general(a, b, range64());
    lemma_mul_mod_noop_general(a2, b2, range64());
}

/// `base` to the power `exponent`, wrapped to 64 bits, by repeated
/// squaring.
pub fn wrapping_power(base: i64, exponent: u64) -> (r: i64)
    ensures
        r == integer_power(base as int, exponent as nat),
{
    let mut result: i64 = 1;
    let mut b: i64 = base;
    let mut e: u64 = exponent;
    proof {
        assert(1 * pow(base as int, exponent as nat) == pow(base as int, exponent as nat));
    }
    while e > 0
        invariant
            (result * pow(b as int, e as nat)) % range64() == pow(base as int, exponent as nat)
                % range64(),
        decreases e,
    {
        let ghost half = (e / 2) as nat;
        let ghost square = b * b;
        let next = b.wrapping_mul(b);
        proof {
            lemma_crop_congruent(square);
            lemma_pow_mod_noop(next as int, half, range64());
            lemma_pow_mod_noop(square, half, range64());
            assert(pow(next as int, half) % range64() == pow(square, half) % range64());
            lemma_square_is_pow2(b as int);
            lemma_pow_multiplies(b as int, 2, half);
            assert(pow(square, half) == pow(b as int, 2 * half));
        }
        if e % 2 == 1 {
            let ghost before = result as int;
            result = result.wrapping_mul(b);
            proof {
                lemma_crop_congruent(before * b);
                lemma_mul_congruent(
                    result as int,
                    before * b,
                    pow(next as int, half),
                    pow(b as int, 2 * half),
                );
                lemma_pow_adds(b as int, 1, 2 * half);
                lemma_pow1(b as int);
                assert(before * b * pow(b as int, 2 * half) == before * pow(b as int, e as nat))
                    by (nonlinear_arith)
                    requires
                        pow(b as int, e as nat) == b * pow(b as int, 2 * half),
                ;
            }
        } else {
            proof {
                lemma_mul_congruent(
                    result as int,
                    result as int,
                    pow(next as int, half),
                    pow(b as int, 2 * half),
                );
            }
        }
        b = next;
        e = e / 2;
    }
    proof {
        lemma_pow0(b as int);
        lemma_crop_is_the_congruent(result, pow(base as int, exponent as nat));
    }
    result
}

} // verus!
