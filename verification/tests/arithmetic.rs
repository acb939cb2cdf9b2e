use multiprocessor::lcm::{gcd, lcm, multiple_lcm};

#[test]
fn gcd_of_positive_numbers() {
    assert_eq!(gcd(12, 18), 6);
    assert_eq!(gcd(18, 12), 6);
    assert_eq!(gcd(7, 13), 1);
}

#[test]
fn gcd_ignores_signs() {
    assert_eq!(gcd(-12, 18), 6);
    assert_eq!(gcd(12, -18), 6);
    assert_eq!(gcd(-12, -18), 6);
}

#[test]
fn gcd_with_zero() {
    assert_eq!(gcd(0, 5), 5);
    assert_eq!(gcd(-5, 0), 5);
    assert_eq!(gcd(0, 0), 0);
}

#[test]
fn gcd_with_smallest_isize() {
    assert_eq!(gcd(isize::MIN, 6), 2);
    assert_eq!(gcd(3, isize::MIN), 1);
}

#[test]
fn lcm_of_two_numbers() {
    assert_eq!(lcm(4, 6), 12);
    assert_eq!(lcm(-4, 6), 12);
    assert_eq!(lcm(5, 7), 35);
    assert_eq!(lcm(6, 6), 6);
}

#[test]
fn lcm_with_zero_is_zero() {
    assert_eq!(lcm(0, 5), 0);
    assert_eq!(lcm(5, 0), 0);
}

#[test]
fn lcm_is_a_common_multiple() {
    for a in 1..20isize {
        for b in 1..20isize {
            let l = lcm(a, b);
            assert_eq!(l % a, 0);
            assert_eq!(l % b, 0);
            assert_eq!(lcm(b, a), l);
        }
    }
}

#[test]
fn multiple_lcm_of_several_numbers() {
    assert_eq!(multiple_lcm(vec![4, 6, 10]), 60);
    assert_eq!(multiple_lcm(vec![2, 3, 4, 5, 6]), 60);
    assert_eq!(multiple_lcm(vec![7]), 7);
}

#[test]
fn multiple_lcm_of_nothing_is_zero() {
    assert_eq!(multiple_lcm(vec![]), 0);
}

#[test]
fn multiple_lcm_keeps_a_single_negative_number() {
    assert_eq!(multiple_lcm(vec![-3]), -3);
    assert_eq!(multiple_lcm(vec![-3, 2]), 6);
}

#[test]
fn multiple_lcm_with_a_zero_is_zero() {
    assert_eq!(multiple_lcm(vec![4, 0, 6]), 0);
}

#[test]
fn checked_lcm_matches_lcm_and_detects_overflow() {
    assert_eq!(multiprocessor::lcm::checked_lcm(4, 6), Some(12));
    assert_eq!(multiprocessor::lcm::checked_lcm(0, 6), Some(0));
    assert_eq!(multiprocessor::lcm::checked_lcm(isize::MIN, 6), None);
    assert_eq!(multiprocessor::lcm::checked_lcm(isize::MAX, isize::MAX - 1), None);
    assert_eq!(multiprocessor::lcm::checked_multiple_lcm(&vec![2, 3, 4]), Some(12));
    assert_eq!(multiprocessor::lcm::checked_multiple_lcm(&vec![isize::MAX, 2]), None);
}
