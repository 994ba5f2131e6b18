use std::convert::TryInto;

use ackermann::eval::{ackermann, b, closed_form, evaluate, AckError};
use num_bigint::BigUint;

#[test]
fn a0() {
    for i in 0..10 {
        assert_eq!(ackermann(0, i), Ok(b(i + 1)));
    }
}

#[test]
fn a1() {
    for i in 0..10 {
        assert_eq!(ackermann(1, i), Ok(b(i + 2)));
    }
}

#[test]
fn a2() {
    for i in 0..10 {
        assert_eq!(ackermann(2, i), Ok(b(2 * i + 3)));
    }
}

#[test]
fn a3() {
    for i in 0..10 {
        let ui: u32 = i.try_into().unwrap();
        assert_eq!(
            ackermann(3, i),
            Ok(b((2_i32.pow(ui + 3) - 3).try_into().unwrap()))
        );
    }
}

#[test]
fn a4() {
    assert_eq!(ackermann(4, 0), Ok(b(13)));
    assert_eq!(ackermann(4, 1), Ok(b(65533)));
}

#[test]
fn conv_from_u32_biguint() {
    assert_eq!(b(5), BigUint::new(vec![5]));
}

#[test]
fn closed_form_each_case() {
    assert_eq!(closed_form(0, b(7)), Ok(b(8)));
    assert_eq!(closed_form(1, b(7)), Ok(b(9)));
    assert_eq!(closed_form(2, b(7)), Ok(b(17)));
    assert_eq!(closed_form(3, b(7)), Ok(b(1021)));
    assert_eq!(closed_form(0, b(0)), Ok(b(1)));
    assert_eq!(closed_form(3, b(0)), Ok(b(5)));
}

#[test]
fn closed_form_large_argument() {
    let n = BigUint::from(u64::MAX);
    assert_eq!(closed_form(0, n.clone()), Ok(n.clone() + 1u32));
    assert_eq!(closed_form(2, n.clone()), Ok(n * 2u32 + 3u32));
    let big = closed_form(3, b(100)).unwrap();
    assert_eq!(big, BigUint::from(1u128 << 103) - 3u32);
}

#[test]
fn closed_form_exponent_overflow() {
    let n = BigUint::from(u128::MAX);
    assert_eq!(closed_form(3, n), Err(AckError::ExponentOverflow));
    let m = BigUint::from(u128::MAX - 2);
    assert_eq!(closed_form(3, m), Err(AckError::ExponentOverflow));
}

#[test]
fn general_recursion_overflows_on_four_three() {
    assert_eq!(ackermann(4, 3), Err(AckError::ExponentOverflow));
}

#[test]
fn four_two_is_two_to_the_65536_minus_three() {
    let expected = num_traits::pow::Pow::pow(b(2), 65536u32) - 3u32;
    assert_eq!(ackermann(4, 2), Ok(expected));
}

#[test]
fn five_zero_equals_four_one() {
    assert_eq!(ackermann(5, 0), Ok(b(65533)));
}

#[test]
fn recursive_step_holds_for_small_arguments() {
    for m in 1..4u32 {
        for n in 1..8u32 {
            let inner = ackermann(m, n - 1).unwrap();
            let stepped = evaluate(b(m - 1), inner).unwrap();
            assert_eq!(ackermann(m, n).unwrap(), stepped);
        }
    }
}

#[test]
fn boundary_holds_for_small_arguments() {
    for m in 1..6u32 {
        assert_eq!(ackermann(m, 0), ackermann(m - 1, 1));
    }
}

#[test]
fn evaluate_matches_native_entry() {
    assert_eq!(evaluate(b(2), b(4)), Ok(b(11)));
    assert_eq!(evaluate(b(4), b(0)), ackermann(4, 0));
}
