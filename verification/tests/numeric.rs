use tree_growth::expo::exp_neg_fixed;
use tree_growth::log::natural_log;

#[test]
fn exponential_at_zero_is_one() {
    assert_eq!(exp_neg_fixed(0), 1_000_000);
    assert_eq!(exp_neg_fixed(-5), 1_000_000);
}

#[test]
fn exponential_exact_values() {
    assert_eq!(exp_neg_fixed(1), 999_999);
    assert_eq!(exp_neg_fixed(416_666), 659_241);
    assert_eq!(exp_neg_fixed(500_000), 606_531);
    assert_eq!(exp_neg_fixed(1_000_000), 367_879);
    assert_eq!(exp_neg_fixed(2_000_000), 135_335);
    assert_eq!(exp_neg_fixed(5_000_000), 6_738);
}

#[test]
fn exponential_vanishes_for_large_arguments() {
    assert_eq!(exp_neg_fixed(15_000_000), 0);
    assert_eq!(exp_neg_fixed(47_000_000), 0);
    assert_eq!(exp_neg_fixed(i64::MAX), 0);
}

#[test]
fn exponential_is_close_to_the_real_one() {
    let mut t: i64 = 0;
    while t < 14_000_000 {
        let exact = (-(t as f64) / 1e6).exp() * 1e6;
        let got = exp_neg_fixed(t) as f64;
        assert!((got - exact).abs() < 3.0, "t = {}", t);
        t += 12_345;
    }
}

#[test]
fn logarithm_exact_values() {
    assert_eq!(natural_log(1_000_000), 0);
    assert_eq!(natural_log(1_640_001), 494_696);
    assert_eq!(natural_log(2_000_000), 693_147);
    assert_eq!(natural_log(2_718_282), 999_999);
    assert_eq!(natural_log(10_000_000), 2_302_584);
}

#[test]
fn logarithm_is_close_to_the_real_one() {
    let mut x: i64 = 1_000_000;
    while x < 4_000_000_000_000 {
        let exact = ((x as f64) / 1e6).ln() * 1e6;
        let got = natural_log(x) as f64;
        assert!((got - exact).abs() < 4.0, "x = {}", x);
        x = x + x / 7 + 1;
    }
}

#[test]
fn logarithm_of_the_largest_argument() {
    let got = natural_log(i64::MAX) as f64;
    let exact = ((i64::MAX as f64) / 1e6).ln() * 1e6;
    assert!((got - exact).abs() < 4.0);
}

#[test]
fn logarithm_does_not_decrease() {
    let mut previous = natural_log(1_000_000);
    let mut x: i64 = 1_000_000;
    while x < 3_000_000 {
        let next = natural_log(x);
        assert!(previous <= next);
        previous = next;
        x += 997;
    }
}
