//! Rounding of byte offsets to alignment boundaries.
//!
//! Every layout computation in this crate reduces to one question: given a
//! running byte offset and an alignment, how many bytes must be skipped so
//! that the next value starts on a boundary? The answer is [`padding_for`];
//! the boundary itself is [`round_up`].

use vstd::arithmetic::div_mod::{lemma_fundamental_div_mod, lemma_mod_multiples_basic};
use vstd::prelude::*;

verus! {

/// Number of bytes to skip so that `offset` becomes a multiple of `alignment`.
pub open spec fn padding_for(offset: nat, alignment: nat) -> nat
    recommends
        alignment > 0,
{
    if offset % alignment == 0 {
        0
    } else {
        (alignment - offset % alignment) as nat
    }
}

/// The first multiple of `alignment` that is not below `offset`.
pub open spec fn round_up(offset: nat, alignment: nat) -> nat
    recommends
        alignment > 0,
{
    offset + padding_for(offset, alignment)
}

/// Whether `n` is a power of two: 1, 2, 4, 8, ...
pub open spec fn is_pow2(n: nat) -> bool
    decreases n,
{
    if n <= 1 {
        n == 1
    } else {
        n % 2 == 0 && is_pow2(n / 2)
    }
}

/// `round_up(offset, alignment)` is a multiple of `alignment` and lies in
/// `offset .. offset + alignment`.
pub proof fn lemma_round_up_bounds(offset: nat, alignment: nat)
    requires
        alignment > 0,
    ensures
        round_up(offset, alignment) % alignment == 0,
        offset <= round_up(offset, alignment) < offset + alignment,
{
    let a = alignment as int;
    let o = offset as int;
    let q = o / a;
    let r = o % a;
    assert(o == a * q + r && 0 <= r < a) by (nonlinear_arith)
        requires
            a > 0,
            q == o / a,
            r == o % a,
    ;
    let up = round_up(offset, alignment) as int;
    assert(up % a == 0) by (nonlinear_arith)
        requires
            a > 0,
            o == a * q + r,
            up == if r == 0 {
                o
            } else {
                o + a - r
            },
    ;
}

/// No multiple of `alignment` lies between `offset` and
/// `round_up(offset, alignment)`: the rounded offset is the least one.
pub proof fn lemma_round_up_least(offset: nat, alignment: nat, multiple: nat)
    requires
        alignment > 0,
        multiple >= offset,
        multiple % alignment == 0,
    ensures
        multiple >= round_up(offset, alignment),
{
    let a = alignment as int;
    let o = offset as int;
    let m = multiple as int;
    let up = round_up(offset, alignment) as int;
    lemma_round_up_bounds(offset, alignment);
    assert(m >= up) by (nonlinear_arith)
        requires
            a > 0,
            m % a == 0,
            up % a == 0,
            m >= o,
            o <= up < o + a,
    ;
}

/// An offset that is already a multiple of `alignment` needs no padding.
pub proof fn lemma_round_up_of_multiple(offset: nat, alignment: nat)
    requires
        alignment > 0,
        offset % alignment == 0,
    ensures
        padding_for(offset, alignment) == 0,
        round_up(offset, alignment) == offset,
{
}

/// Divisibility is transitive: a multiple of a multiple of `divisor` is a
/// multiple of `divisor`.
proof fn lemma_multiple_of_multiple(n: nat, middle: nat, divisor: nat)
    requires
        divisor > 0,
        middle > 0,
        n % middle == 0,
        middle % divisor == 0,
    ensures
        n % divisor == 0,
{
    let d = divisor as int;
    let k = (n as int) / (middle as int);
    let j = (middle as int) / d;
    lemma_fundamental_div_mod(n as int, middle as int);
    lemma_fundamental_div_mod(middle as int, d);
    assert(n == (k * j) * d) by (nonlinear_arith)
        requires
            n == middle * k,
            middle == d * j,
    ;
    lemma_mod_multiples_basic(k * j, d);
}

/// Doubling both sides keeps divisibility.
proof fn lemma_doubles_divide(n: nat, divisor: nat)
    requires
        divisor > 0,
        n % divisor == 0,
    ensures
        (2 * n) % (2 * divisor) == 0,
{
    let d = divisor as int;
    let k = (n as int) / d;
    lemma_fundamental_div_mod(n as int, d);
    assert(2 * n == k * (2 * d)) by (nonlinear_arith)
        requires
            n == d * k,
    ;
    lemma_mod_multiples_basic(k, 2 * d);
}

/// A power of two is positive.
pub proof fn lemma_pow2_positive(n: nat)
    requires
        is_pow2(n),
    ensures
        n >= 1,
{
}

/// The powers of two that layout rules use.
pub proof fn lemma_small_pow2()
    ensures
        is_pow2(1),
        is_pow2(2),
        is_pow2(4),
        is_pow2(8),
        is_pow2(16),
        is_pow2(32),
{
    reveal_with_fuel(is_pow2, 6);
}

/// Of two powers of two, the smaller divides the larger.
pub proof fn lemma_pow2_divides(small: nat, large: nat)
    requires
        is_pow2(small),
        is_pow2(large),
        small <= large,
    ensures
        large % small == 0,
    decreases large,
{
    if small == 1 {
        assert(large % 1 == 0);
    } else if small == large {
        assert(large % large == 0) by (nonlinear_arith)
            requires
                large > 0,
        ;
    } else {
        let s = (small / 2) as nat;
        let l = (large / 2) as nat;
        assert(small == 2 * s && large == 2 * l);
        lemma_pow2_divides(s, l);
        lemma_doubles_divide(l, s);
    }
}

/// A multiple of a power of two is a multiple of every smaller power of two.
pub proof fn lemma_multiple_of_larger_pow2(offset: nat, small: nat, large: nat)
    requires
        is_pow2(small),
        is_pow2(large),
        small <= large,
        offset % large == 0,
    ensures
        offset % small == 0,
{
    lemma_pow2_divides(small, large);
    lemma_multiple_of_multiple(offset, large, small);
}

/// Gives the number of bytes needed to make `offset` be aligned to `alignment`.
pub fn align_offset(offset: usize, alignment: usize) -> (padding: usize)
    requires
        alignment > 0,
    ensures
        padding == padding_for(offset as nat, alignment as nat),
        padding < alignment,
{
    let rem: usize = offset % alignment;
    if rem == 0 {
        0
    } else {
        alignment - rem
    }
}

/// Rounds `offset` up to the next multiple of `alignment`, or returns `None`
/// when that multiple does not fit in a `usize`.
pub fn checked_round_up(offset: usize, alignment: usize) -> (rounded: Option<usize>)
    requires
        alignment > 0,
    ensures
        match rounded {
            Some(r) => r == round_up(offset as nat, alignment as nat),
            None => round_up(offset as nat, alignment as nat) > usize::MAX,
        },
{
    let padding: usize = align_offset(offset, alignment);
    offset.checked_add(padding)
}

/// Tells whether `n` is a power of two.
pub fn is_power_of_two(n: usize) -> (answer: bool)
    ensures
        answer == is_pow2(n as nat),
{
    if n == 0 {
        return false;
    }
    let mut rest: usize = n;
    while rest % 2 == 0
        invariant
            rest >= 1,
            is_pow2(rest as nat) == is_pow2(n as nat),
        decreases rest,
    {
        rest = rest / 2;
    }
    rest == 1
}

} // verus!
