use finite_element::{mul_mod, pow_mod, rem_euclid};

#[test]
fn pow_mod_exact_values() {
    assert_eq!(pow_mod(2, 10, 1000), 24);
    assert_eq!(pow_mod(3, 3, 13), 1);
    assert_eq!(pow_mod(24, 29, 31), 22);
    assert_eq!(pow_mod(7, 1, 13), 7);
    assert_eq!(pow_mod(0, 5, 13), 0);
    assert_eq!(pow_mod(20, 2, 13), 10);
}

#[test]
fn pow_mod_with_exponent_zero_is_one() {
    assert_eq!(pow_mod(5, 0, 13), 1);
    assert_eq!(pow_mod(0, 0, 13), 1);
    assert_eq!(pow_mod(5, 0, 1), 1);
}

#[test]
fn pow_mod_with_modulus_one_is_zero_for_positive_exponents() {
    assert_eq!(pow_mod(5, 1, 1), 0);
    assert_eq!(pow_mod(5, 6, 1), 0);
}

#[test]
fn pow_mod_does_not_wrap_near_the_word_limit() {
    let m = usize::MAX;
    assert_eq!(pow_mod(m - 1, 2, m), 1);
    assert_eq!(pow_mod(m - 1, usize::MAX, m), m - 1);
    assert_eq!(pow_mod(usize::MAX, 3, m), 0);
}

#[test]
fn pow_mod_agrees_with_repeated_multiplication() {
    for m in 1..20usize {
        for base in 0..20usize {
            let mut expected = 1 % m;
            for exponent in 1..12usize {
                expected = (expected * base) % m;
                assert_eq!(pow_mod(base, exponent, m), expected);
            }
        }
    }
}

#[test]
fn mul_mod_exact_values() {
    assert_eq!(mul_mod(3, 12, 13), 10);
    assert_eq!(mul_mod(0, 12, 13), 0);
    assert_eq!(mul_mod(5, 7, 1), 0);
    assert_eq!(mul_mod(usize::MAX, usize::MAX, usize::MAX), 0);
    assert_eq!(mul_mod(usize::MAX - 1, usize::MAX - 1, usize::MAX), 1);
}

#[test]
fn rem_euclid_is_never_negative() {
    assert_eq!(rem_euclid(-3, 12), 9);
    assert_eq!(rem_euclid(-12, 12), 0);
    assert_eq!(rem_euclid(-5, 13), 8);
    assert_eq!(rem_euclid(15, 12), 3);
    assert_eq!(rem_euclid(0, 1), 0);
    assert_eq!(rem_euclid(i128::MIN, 1), 0);
    assert_eq!(rem_euclid(-1, i128::MAX), i128::MAX - 1);
}
