//! Rounding an offset up to an alignment boundary.

use vstd::prelude::*;
use vstd::arithmetic::div_mod::{lemma_fundamental_div_mod, lemma_mod_multiples_vanish};

verus! {

/// The smallest multiple of `a` that is not below `x`.
/// An alignment of zero constrains nothing and leaves `x` as it is.
pub open spec fn round_up(x: nat, a: nat) -> nat {
    if a == 0 || x % a == 0 {
        x
    } else {
        (x + a - x % a) as nat
    }
}

/// `round_up(x, a)` lies in `x .. x + a` and is a multiple of `a`.
pub proof fn lemma_round_up_bounds(x: nat, a: nat)
    requires
        a > 0,
    ensures
        x <= round_up(x, a) < x + a,
        round_up(x, a) % a == 0,
{
    let r = x % a;
    assert(0 <= r < a) by (nonlinear_arith)
        requires
            r == x % a,
            a > 0,
    ;
    if r != 0 {
        let xi = x as int;
        let ai = a as int;
        assert((xi + ai - xi % ai) % ai == 0) by (nonlinear_arith)
            requires
                ai > 0,
        ;
    }
}

/// Rounding up never moves an offset down, whatever the alignment.
pub proof fn lemma_round_up_ge(x: nat, a: nat)
    ensures
        x <= round_up(x, a),
{
    if a > 0 {
        lemma_round_up_bounds(x, a);
    }
}

/// No multiple of `a` lies strictly between `x` and `round_up(x, a)`:
/// every multiple of `a` that is at least `x` is at least `round_up(x, a)`.
pub proof fn lemma_round_up_least(x: nat, a: nat, m: nat)
    requires
        a > 0,
        m % a == 0,
        x <= m,
    ensures
        round_up(x, a) <= m,
{
    lemma_round_up_bounds(x, a);
    let r = round_up(x, a);
    if m < r {
        // Two multiples of `a` less than `a` apart are equal.
        assert(false) by (nonlinear_arith)
            requires
                a > 0,
                m % a == 0,
                r % a == 0,
                m < r,
                r < m + a,
        ;
    }
}

/// Rounding up keeps the order of offsets.
pub proof fn lemma_round_up_monotonic(x: nat, y: nat, a: nat)
    requires
        x <= y,
    ensures
        round_up(x, a) <= round_up(y, a),
{
    if a > 0 {
        lemma_round_up_bounds(y, a);
        lemma_round_up_least(x, a, round_up(y, a));
    }
}

/// Adding a multiple of `a` to a number, or taking one away, leaves its
/// remainder modulo `a` as it was.
pub proof fn lemma_remainder_ignores_multiples(x: int, d: int, a: int)
    requires
        a > 0,
        d % a == 0,
    ensures
        (x + d) % a == x % a,
        (x - d) % a == x % a,
{
    let q = d / a;
    lemma_fundamental_div_mod(d, a);
    assert(a * q == d);
    assert(a * (-q) == -d) by (nonlinear_arith)
        requires
            a * q == d,
    ;
    lemma_mod_multiples_vanish(q, x, a);
    lemma_mod_multiples_vanish(-q, x, a);
    assert(a * q + x == x + d);
    assert(a * (-q) + x == x - d);
}

/// Moving an offset by a multiple of the alignment moves its rounding by the
/// same amount.
pub proof fn lemma_round_up_shift(x: nat, d: nat, a: nat)
    requires
        a > 0,
        d % a == 0,
    ensures
        round_up(x + d, a) == round_up(x, a) + d,
{
    let low = round_up(x, a);
    let high = round_up(x + d, a);
    lemma_round_up_bounds(x, a);
    lemma_round_up_bounds(x + d, a);
    lemma_remainder_ignores_multiples(low as int, d as int, a as int);
    lemma_round_up_least(x + d, a, low + d);
    let back = (high - d) as nat;
    lemma_remainder_ignores_multiples(high as int, d as int, a as int);
    lemma_round_up_least(x, a, back);
}

/// Rounds `x` up to the next multiple of `a`, or reports that the result
/// does not fit in a `usize`.
pub fn round_up_checked(x: usize, a: usize) -> (r: Option<usize>)
    ensures
        r == (if round_up(x as nat, a as nat) <= usize::MAX {
            Some(round_up(x as nat, a as nat) as usize)
        } else {
            None::<usize>
        }),
{
    if a == 0 {
        return Some(x);
    }
    let rem: usize = x % a;
    if rem == 0 {
        Some(x)
    } else {
        proof {
            lemma_round_up_bounds(x as nat, a as nat);
        }
        x.checked_add(a - rem)
    }
}

} // verus!
