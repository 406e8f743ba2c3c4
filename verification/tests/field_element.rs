use finite_element::{FieldElement, FieldError};

fn fe(num: usize, prime: usize) -> FieldElement {
    FieldElement::new(num, prime).unwrap()
}

#[test]
fn it_works() {
    let a = FieldElement::new(7, 13).unwrap();
    assert_eq!(&a, &a);
}

#[test]
fn ne_works() {
    let a = FieldElement::new(7, 13).unwrap();
    let b = FieldElement::new(7, 17).unwrap();
    assert_ne!(&a, &b);
}

#[test]
fn test_add() {
    let a = FieldElement::new(7, 13).unwrap();
    let b = FieldElement::new(12, 13).unwrap();
    let c = FieldElement::new(6, 13).unwrap();
    assert_eq!((a + b).unwrap(), c);
}

#[test]
fn test_sub() {
    let a = FieldElement::new(7, 13).unwrap();
    let b = FieldElement::new(12, 13).unwrap();
    let c = FieldElement::new(8, 13).unwrap();
    assert_eq!((a - b).unwrap(), c);
}

#[test]
fn test_mul() {
    let a = FieldElement::new(3, 13).unwrap();
    let b = FieldElement::new(12, 13).unwrap();
    let c = FieldElement::new(10, 13).unwrap();
    assert_eq!((a * b).unwrap(), c);
}

#[test]
fn test_pow() {
    let a = FieldElement::new(3, 13).unwrap();
    let c = FieldElement::new(1, 13).unwrap();
    assert_eq!(a.pow(3).unwrap(), c);
    let d = FieldElement::new(7, 13).unwrap();
    let e = FieldElement::new(8, 13).unwrap();
    assert_eq!(d.pow(-3).unwrap(), e);
}

#[test]
fn test_div() {
    let a = FieldElement::new(3, 31).unwrap();
    let b = FieldElement::new(4, 31).unwrap();
    let c = FieldElement::new(24, 31).unwrap();
    assert_eq!((a / c).unwrap(), b);
}

#[test]
fn new_accepts_every_residue_below_the_modulus() {
    for num in 0..13usize {
        assert!(FieldElement::new(num, 13).is_ok());
    }
    assert!(FieldElement::new(0, 1).is_ok());
    assert!(FieldElement::new(usize::MAX - 1, usize::MAX).is_ok());
}

#[test]
fn new_refuses_residue_equal_to_modulus() {
    assert_eq!(
        FieldElement::new(13, 13),
        Err(FieldError::Range { num: 13, prime: 13 })
    );
}

#[test]
fn new_refuses_residue_above_modulus() {
    assert_eq!(
        FieldElement::new(20, 13),
        Err(FieldError::Range { num: 20, prime: 13 })
    );
    assert_eq!(
        FieldElement::new(usize::MAX, 2),
        Err(FieldError::Range { num: usize::MAX, prime: 2 })
    );
}

#[test]
fn new_refuses_everything_for_modulus_zero() {
    assert_eq!(
        FieldElement::new(0, 0),
        Err(FieldError::Range { num: 0, prime: 0 })
    );
}

#[test]
fn equality_is_reflexive() {
    for num in 0..17usize {
        let a = fe(num, 17);
        assert!(a == a);
    }
}

#[test]
fn equality_tells_fields_apart() {
    for num in 0..13usize {
        assert!(fe(num, 13) != fe(num, 17));
    }
    assert!(fe(3, 13) != fe(4, 13));
    assert!(fe(3, 13) == fe(3, 13));
}

#[test]
fn sums_differences_and_products_stay_in_the_field() {
    let p: usize = 13;
    for x in 0..p {
        for y in 0..p {
            let a = fe(x, p);
            let b = fe(y, p);
            assert_eq!((a + b).unwrap(), fe((x + y) % p, p));
            assert_eq!((a - b).unwrap(), fe((x + p - y) % p, p));
            assert_eq!((a * b).unwrap(), fe((x * y) % p, p));
        }
    }
}

#[test]
fn mismatched_fields_are_refused_by_every_operator() {
    let a = fe(7, 13);
    let b = fe(7, 17);
    assert_eq!(a + b, Err(FieldError::FieldMismatch));
    assert_eq!(a - b, Err(FieldError::FieldMismatch));
    assert_eq!(a * b, Err(FieldError::FieldMismatch));
    assert_eq!(a / b, Err(FieldError::FieldMismatch));
    assert_eq!(b + a, Err(FieldError::FieldMismatch));
}

#[test]
fn mismatch_comes_before_a_zero_divisor() {
    let a = fe(7, 13);
    let zero = fe(0, 17);
    assert_eq!(a / zero, Err(FieldError::FieldMismatch));
}

#[test]
fn element_minus_itself_is_zero() {
    for p in [2usize, 3, 13, 31] {
        for x in 0..p {
            let a = fe(x, p);
            assert_eq!((a - a).unwrap(), fe(0, p));
        }
    }
    let big = fe(usize::MAX - 1, usize::MAX);
    assert_eq!((big - big).unwrap(), fe(0, usize::MAX));
}

#[test]
fn quotient_times_divisor_gives_dividend_back() {
    for p in [2usize, 3, 5, 13, 31] {
        for x in 0..p {
            for y in 1..p {
                let a = fe(x, p);
                let b = fe(y, p);
                let q = (a / b).unwrap();
                assert_eq!((q * b).unwrap(), a);
            }
        }
    }
}

#[test]
fn division_by_zero_is_refused() {
    let a = fe(3, 31);
    let zero = fe(0, 31);
    assert_eq!(a / zero, Err(FieldError::DivisionByZero));
    assert_eq!(zero / zero, Err(FieldError::DivisionByZero));
}

#[test]
fn division_in_the_field_of_two() {
    assert_eq!((fe(1, 2) / fe(1, 2)).unwrap(), fe(1, 2));
    assert_eq!((fe(0, 2) / fe(1, 2)).unwrap(), fe(0, 2));
}

#[test]
fn power_of_field_order_is_one() {
    for p in [2usize, 3, 13, 31] {
        for x in 1..p {
            let a = fe(x, p);
            assert_eq!(a.pow((p - 1) as i64).unwrap(), fe(1, p));
        }
    }
}

#[test]
fn exponent_is_taken_modulo_field_order() {
    let p: usize = 13;
    for x in 0..p {
        let a = fe(x, p);
        for k in -40i64..40 {
            let reduced = k.rem_euclid(12);
            assert_eq!(a.pow(k).unwrap(), a.pow(reduced).unwrap());
        }
    }
}

#[test]
fn pow_exact_values() {
    assert_eq!(fe(2, 13).pow(5).unwrap(), fe(6, 13));
    assert_eq!(fe(2, 13).pow(0).unwrap(), fe(1, 13));
    assert_eq!(fe(2, 13).pow(-1).unwrap(), fe(7, 13));
    assert_eq!(fe(5, 31).pow(-2).unwrap(), fe(5, 31));
    assert_eq!(fe(0, 13).pow(5).unwrap(), fe(0, 13));
    assert_eq!(fe(0, 13).pow(12).unwrap(), fe(1, 13));
    assert_eq!(fe(1, 2).pow(i64::MIN).unwrap(), fe(1, 2));
    assert_eq!(fe(3, 7).pow(i64::MAX).unwrap(), fe(3, 7));
    assert_eq!(fe(3, 7).pow(i64::MIN).unwrap(), fe(4, 7));
}

#[test]
fn pow_with_a_modulus_beyond_the_exponent_range() {
    let p = usize::MAX;
    let a = fe(p - 1, p);
    assert_eq!(a.pow(2).unwrap(), fe(1, p));
    assert_eq!(a.pow(3).unwrap(), fe(p - 1, p));
    assert_eq!(a.pow(-2).unwrap(), fe(1, p));
    assert_eq!(a.pow(-1).unwrap(), fe(p - 1, p));
}

#[test]
fn arithmetic_does_not_wrap_near_the_word_limit() {
    let p = usize::MAX;
    let a = fe(p - 1, p);
    let b = fe(p - 2, p);
    assert_eq!((a + a).unwrap(), fe(p - 2, p));
    assert_eq!((a + b).unwrap(), fe(p - 3, p));
    assert_eq!((a * a).unwrap(), fe(1, p));
    assert_eq!((a * b).unwrap(), fe(2, p));
    assert_eq!((b - a).unwrap(), fe(p - 1, p));
    assert_eq!((fe(0, p) - a).unwrap(), fe(1, p));
}

#[test]
fn range_error_message_names_the_valid_range() {
    let e = FieldElement::new(13, 13).unwrap_err();
    assert_eq!(e.message(), "Num 13 not in field range 0 to 12");
    let e = FieldElement::new(1234567890, 1000).unwrap_err();
    assert_eq!(e.message(), "Num 1234567890 not in field range 0 to 999");
    let e = FieldElement::new(5, 1).unwrap_err();
    assert_eq!(e.message(), "Num 5 not in field range 0 to 0");
    let e = FieldElement::new(usize::MAX, 11).unwrap_err();
    assert_eq!(
        e.message(),
        format!("Num {} not in field range 0 to {}", usize::MAX, 10)
    );
}

#[test]
fn range_error_message_for_modulus_zero() {
    let e = FieldElement::new(0, 0).unwrap_err();
    assert_eq!(e.message(), "Num 0 not in field range, which is empty");
}

#[test]
fn mismatch_and_zero_divisor_messages() {
    assert_eq!(
        FieldError::FieldMismatch.message(),
        "Cannot add two nums in different fields"
    );
    assert_eq!(
        FieldError::DivisionByZero.message(),
        "Cannot divide by zero in a field"
    );
    let e = (fe(1, 13) + fe(1, 17)).unwrap_err();
    assert_eq!(e.message(), "Cannot add two nums in different fields");
}

#[test]
fn power_by_negated_exponent_is_the_inverse() {
    for p in [2usize, 3, 13, 31] {
        for x in 1..p {
            let a = fe(x, p);
            for k in -20i64..20 {
                let u = a.pow(k).unwrap();
                let v = a.pow(-k).unwrap();
                assert_eq!((u * v).unwrap(), fe(1, p));
            }
        }
    }
}

#[test]
fn power_agrees_with_repeated_multiplication() {
    for p in [3usize, 13, 31] {
        for x in 1..p {
            let a = fe(x, p);
            let mut expected = fe(1, p);
            for k in 0..70i64 {
                assert_eq!(a.pow(k).unwrap(), expected);
                expected = (expected * a).unwrap();
            }
        }
    }
}
