//! The Ackermann–Péter function over arbitrary-precision naturals, with
//! closed forms for the first argument below four and an explicit work
//! stack for the general recursion.

pub mod bignum;
pub mod model;
pub mod eval;
