//! The mathematics behind the evaluator: the textbook two-argument
//! recursion, the closed forms that replace it for a first argument below
//! four, and the laws that tie the two together.

use vstd::arithmetic::power2::{lemma2_to64, lemma_pow2_pos, lemma_pow2_unfold, pow2};
use vstd::prelude::*;

verus! {

/// The Ackermann–Péter function, by its defining recursion.
pub open spec fn ack(m: nat, n: nat) -> nat
    decreases m, n,
{
    if m == 0 {
        n + 1
    } else if n == 0 {
        ack((m - 1) as nat, 1)
    } else {
        let inner = ack(m, (n - 1) as nat);
        ack((m - 1) as nat, inner)
    }
}

/// The closed forms used for a first argument of 0, 1, 2 or 3.
pub open spec fn closed(m: nat, n: nat) -> nat
    recommends
        m <= 3,
{
    if m == 0 {
        n + 1
    } else if m == 1 {
        n + 2
    } else if m == 2 {
        2 * n + 3
    } else {
        (pow2(n + 3) - 3) as nat
    }
}

/// Whether every exponent met while evaluating `ack(m, n)` fits in a `u128`.
/// An exponent `k + 3` arises at each step whose first argument is 3 and
/// whose second is `k`; below 3 no exponent is taken.
pub open spec fn exponent_fits(m: nat, n: nat) -> bool
    decreases m, n,
{
    if m <= 2 {
        true
    } else if m == 3 {
        n + 3 <= u128::MAX
    } else if n == 0 {
        exponent_fits((m - 1) as nat, 1)
    } else {
        let inner = ack(m, (n - 1) as nat);
        exponent_fits(m, (n - 1) as nat) && exponent_fits((m - 1) as nat, inner)
    }
}

/// `pow2(e + 2) >= 4`, so the closed form for 3 never goes below zero.
pub proof fn lemma_pow2_at_least_four(e: nat)
    ensures
        pow2(e + 2) >= 4,
{
    lemma_pow2_unfold(e + 2);
    lemma_pow2_unfold(e + 1);
    lemma_pow2_pos(e);
}

/// The closed forms agree with the defining recursion.
pub proof fn lemma_closed_form(m: nat, n: nat)
    requires
        m <= 3,
    ensures
        ack(m, n) == closed(m, n),
    decreases m, n,
{
    if m == 0 {
    } else if n == 0 {
        lemma_closed_form((m - 1) as nat, 1);
        if m == 3 {
            lemma2_to64();
        }
    } else {
        let k = (n - 1) as nat;
        lemma_closed_form(m, k);
        lemma_closed_form((m - 1) as nat, ack(m, k));
        if m == 3 {
            lemma_pow2_at_least_four(n);
            lemma_pow2_unfold(n + 3);
        }
    }
}

/// For `m >= 1` and `n >= 1`, `A(m, n) = A(m − 1, A(m, n − 1))`; the closed
/// forms for `m` of 1, 2 and 3 obey the same step over those of `m − 1`.
pub proof fn lemma_recursive_step(m: nat, n: nat)
    requires
        m >= 1,
        n >= 1,
    ensures
        ack(m, n) == ack((m - 1) as nat, ack(m, (n - 1) as nat)),
        m <= 3 ==> closed(m, n) == closed((m - 1) as nat, closed(m, (n - 1) as nat)),
{
    if m <= 3 {
        let k = (n - 1) as nat;
        lemma_closed_form(m, n);
        lemma_closed_form(m, k);
        lemma_closed_form((m - 1) as nat, ack(m, k));
    }
}

/// For `m >= 1`, `A(m, 0) = A(m − 1, 1)`; the closed forms for `m` of 1, 2
/// and 3 meet those of `m − 1` at the same boundary.
pub proof fn lemma_boundary(m: nat)
    requires
        m >= 1,
    ensures
        ack(m, 0) == ack((m - 1) as nat, 1),
        m <= 3 ==> closed(m, 0) == closed((m - 1) as nat, 1),
{
    if m <= 3 {
        lemma_closed_form(m, 0);
        lemma_closed_form((m - 1) as nat, 1);
    }
}

} // verus!
