//! The evaluator: closed forms for a first argument below four, and an
//! explicit work stack for the general recursion above that, so that the
//! depth of the computation is bounded by the heap rather than the call stack.

use num_bigint::BigUint;
use vstd::arithmetic::power2::lemma_pow2;
use vstd::prelude::*;

use crate::bignum::{
    big_add, big_clone, big_eq, big_mul, big_pow, big_sub, big_to_u128, big_to_u32, from_u32,
    value_of,
};
use crate::model::{ack, closed, exponent_fits, lemma_closed_form, lemma_pow2_at_least_four};

verus! {

/// Why an evaluation could not be carried out.
#[derive(Debug, Clone, Copy, PartialEq, Eq)]
pub enum AckError {
    /// The exponent `n + 3` of the closed form for a first argument of 3
    /// does not fit in a `u128`.
    ExponentOverflow,
}

/// The arbitrary-precision integer holding `v`.
pub fn b(v: u32) -> (r: BigUint)
    ensures
        value_of(r) == v,
{
    from_u32(v)
}

/// Evaluates the closed form for a first argument `m` of 0, 1, 2 or 3:
/// `n + 1`, `n + 2`, `2n + 3` and `2^(n+3) − 3`. The last fails when the
/// exponent `n + 3` does not fit in a `u128`.
pub fn closed_form(m: u32, n: BigUint) -> (r: Result<BigUint, AckError>)
    requires
        m <= 3,
    ensures
        r is Ok <==> exponent_fits(m as nat, value_of(n)),
        r matches Ok(v) ==> value_of(v) == closed(m as nat, value_of(n)),
        r matches Ok(v) ==> value_of(v) == ack(m as nat, value_of(n)),
        r matches Err(e) ==> e == AckError::ExponentOverflow,
{
    let ghost nv = value_of(n);
    proof {
        lemma_closed_form(m as nat, nv);
    }
    if m == 0 {
        Ok(big_add(n, from_u32(1)))
    } else if m == 1 {
        Ok(big_add(n, from_u32(2)))
    } else if m == 2 {
        Ok(big_add(big_mul(from_u32(2), n), from_u32(3)))
    } else {
        match big_to_u128(&big_add(n, from_u32(3))) {
            Some(e) => {
                let p = big_pow(&from_u32(2), e);
                proof {
                    lemma_pow2(e as nat);
                    lemma_pow2_at_least_four(nv + 1);
                }
                Ok(big_sub(p, from_u32(3)))
            },
            None => Err(AckError::ExponentOverflow),
        }
    }
}

/// How many turns of the work-stack loop evaluating `ack(m, n)` takes: one
/// for a closed form, and one plus those of the calls it pushes otherwise.
spec fn steps(m: nat, n: nat) -> nat
    decreases m, n,
{
    if m <= 3 {
        1
    } else if n == 0 {
        1 + steps((m - 1) as nat, 1)
    } else {
        let inner = ack(m, (n - 1) as nat);
        1 + steps(m, (n - 1) as nat) + steps((m - 1) as nat, inner)
    }
}

/// The result of applying the pending first arguments `s` to `n`, the last
/// of `s` first.
spec fn pending_value(s: Seq<nat>, n: nat) -> nat
    decreases s.len(),
{
    if s.len() == 0 {
        n
    } else {
        pending_value(s.drop_last(), ack(s.last(), n))
    }
}

/// Whether every exponent met while applying the pending first arguments
/// `s` to `n` fits in a `u128`.
spec fn pending_fits(s: Seq<nat>, n: nat) -> bool
    decreases s.len(),
{
    if s.len() == 0 {
        true
    } else {
        exponent_fits(s.last(), n) && pending_fits(s.drop_last(), ack(s.last(), n))
    }
}

/// The turns of the loop still needed to apply the pending first arguments
/// `s` to `n`.
spec fn pending_steps(s: Seq<nat>, n: nat) -> nat
    decreases s.len(),
{
    if s.len() == 0 {
        0
    } else {
        steps(s.last(), n) + pending_steps(s.drop_last(), ack(s.last(), n))
    }
}

/// The numbers that a stack of `BigUint`s holds.
spec fn values(s: Seq<BigUint>) -> Seq<nat> {
    s.map_values(|x: BigUint| value_of(x))
}

/// Evaluates the Ackermann–Péter function `A(m, n)`. It fails, with
/// `ExponentOverflow`, exactly when some step of the evaluation has a first
/// argument of 3 and a second argument `k` with `k + 3` beyond `u128::MAX`.
pub fn evaluate(m: BigUint, n: BigUint) -> (r: Result<BigUint, AckError>)
    ensures
        r is Ok <==> exponent_fits(value_of(m), value_of(n)),
        r matches Ok(v) ==> value_of(v) == ack(value_of(m), value_of(n)),
        r matches Err(e) ==> e == AckError::ExponentOverflow,
{
    let ghost m0 = value_of(m);
    let ghost n0 = value_of(n);
    let mut stack: Vec<BigUint> = Vec::new();
    stack.push(m);
    let mut cur = n;
    proof {
        assert(values(stack@).drop_last() =~= Seq::<nat>::empty());
        assert(values(stack@).last() == m0);
        assert(pending_fits(Seq::<nat>::empty(), ack(m0, n0)));
        assert(pending_value(Seq::<nat>::empty(), ack(m0, n0)) == ack(m0, n0));
    }
    while stack.len() > 0
        invariant
            m0 == value_of(m),
            n0 == value_of(n),
            pending_fits(values(stack@), value_of(cur)) == exponent_fits(m0, n0),
            pending_value(values(stack@), value_of(cur)) == ack(m0, n0),
        decreases pending_steps(values(stack@), value_of(cur)),
    {
        let ghost before = values(stack@);
        let ghost nv = value_of(cur);
        let top = stack.pop().unwrap();
        let ghost mv = value_of(top);
        let ghost rest = values(stack@);
        proof {
            assert(before.drop_last() =~= rest);
        }
        let small = match big_to_u32(&top) {
            Some(k) => if k <= 3 { Some(k) } else { None },
            None => None,
        };
        if let Some(k) = small {
            match closed_form(k, cur) {
                Ok(v) => {
                    cur = v;
                },
                Err(e) => {
                    return Err(e);
                },
            }
        } else {
            let lower = big_sub(big_clone(&top), from_u32(1));
            if big_eq(&cur, &from_u32(0)) {
                stack.push(lower);
                cur = from_u32(1);
                proof {
                    assert(values(stack@).drop_last() =~= rest);
                }
            } else {
                stack.push(lower);
                let ghost mid = values(stack@);
                stack.push(top);
                cur = big_sub(cur, from_u32(1));
                proof {
                    assert(mid.drop_last() =~= rest);
                    assert(values(stack@).drop_last() =~= mid);
                    // The popped call A(mv, nv) becomes A(mv − 1, A(mv, nv − 1)):
                    // unfold each pending measure once more at the middle entry.
                    let inner = ack(mv, (nv - 1) as nat);
                    assert(pending_value(mid, inner) == pending_value(rest, ack(mv, nv)));
                    assert(pending_steps(mid, inner) == steps((mv - 1) as nat, inner)
                        + pending_steps(rest, ack(mv, nv)));
                    assert(pending_fits(mid, inner) == (exponent_fits((mv - 1) as nat, inner)
                        && pending_fits(rest, ack(mv, nv))));
                }
            }
        }
    }
    Ok(cur)
}

/// Evaluates `A(m, n)` for native arguments.
pub fn ackermann(m: u32, n: u32) -> (r: Result<BigUint, AckError>)
    ensures
        r is Ok <==> exponent_fits(m as nat, n as nat),
        r matches Ok(v) ==> value_of(v) == ack(m as nat, n as nat),
        r matches Err(e) ==> e == AckError::ExponentOverflow,
{
    evaluate(b(m), b(n))
}

} // verus!
