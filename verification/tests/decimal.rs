use trading_bot::decimal::Decimal;
use trading_bot::text::{
    count_text, cut_text, fixed_text, hex_text, id_text, int_text, join, plain_text, read_number,
    signed_text,
};

fn most() -> Decimal {
    Decimal::from_parts(79228162514264337593543950335, 0).unwrap()
}

#[test]
fn parts_out_of_range_make_no_decimal() {
    assert!(Decimal::from_parts(79228162514264337593543950336, 0).is_none());
    assert!(Decimal::from_parts(-79228162514264337593543950336, 0).is_none());
    assert!(Decimal::from_parts(1, 29).is_none());
    let x = Decimal::from_parts(-5, 28).unwrap();
    assert_eq!((x.mantissa(), x.scale()), (-5, 28));
}

#[test]
fn decimals_are_compared_by_value() {
    assert_eq!(Decimal::new(10, 1), Decimal::new(1, 0));
    assert!(Decimal::new(-2, 0).less(Decimal::new(-199, 2)));
    assert!(!Decimal::new(2, 0).less(Decimal::new(200, 2)));
    assert!(Decimal::new(2, 0).at_most(Decimal::new(200, 2)));
    assert!(Decimal::new(0, 5).is_zero());
    assert_eq!(Decimal::new(-3, 1).abs(), Decimal::new(3, 1));
    assert_eq!(Decimal::new(-3, 1).negated(), Decimal::new(3, 1));
    assert_eq!(Decimal::new(1, 0).larger(Decimal::new(2, 0)), Decimal::new(2, 0));
    assert_eq!(Decimal::new(1, 0).smaller(Decimal::new(2, 0)), Decimal::new(1, 0));
}

#[test]
fn arithmetic_is_exact_where_it_fits() {
    let a = Decimal::new(125, 2);
    let b = Decimal::new(5, 1);
    assert_eq!(a.checked_add(b), Some(Decimal::new(175, 2)));
    assert_eq!(a.checked_sub(b), Some(Decimal::new(75, 2)));
    assert_eq!(a.checked_mul(b), Some(Decimal::new(625, 3)));
    assert_eq!(a.checked_div(b), Some(Decimal::new(25, 1)));
    assert_eq!(a.checked_add(Decimal::zero()), Some(a));
    assert_eq!(a.checked_mul(Decimal::one()), Some(a));
    assert_eq!(a.checked_sub(a), Some(Decimal::zero()));
}

#[test]
fn quotients_are_rounded_to_the_nearest() {
    let third = Decimal::new(1, 0).checked_div(Decimal::new(3, 0)).unwrap();
    assert_eq!((third.mantissa(), third.scale()), (3333333333333333333333333333, 28));
    let two = Decimal::new(2, 0).checked_div(Decimal::new(3, 0)).unwrap();
    assert_eq!(two.mantissa(), 6666666666666666666666666667);
    let minus = Decimal::new(-2, 0).checked_div(Decimal::new(3, 0)).unwrap();
    assert_eq!(minus.mantissa(), -6666666666666666666666666667);
    assert_eq!(Decimal::one().checked_div(Decimal::zero()), None);
}

#[test]
fn halves_go_to_the_even_neighbour() {
    // 5·10⁻¹⁵ · 10⁻¹⁴ is half a unit of 10⁻²⁸.
    let half = Decimal::new(5, 15).checked_mul(Decimal::new(1, 14)).unwrap();
    assert!(half.is_zero());
    let three = Decimal::new(15, 15).checked_mul(Decimal::new(1, 14)).unwrap();
    assert_eq!(three, Decimal::from_parts(2, 28).unwrap());
    // A sum that needs 97 bits loses its decimal.
    let tenth = most().checked_add(Decimal::new(4, 1)).unwrap();
    assert_eq!(tenth, most());
    let odd = Decimal::from_parts(79228162514264337593543950334, 0).unwrap();
    assert_eq!(odd.checked_add(Decimal::new(5, 1)), Some(odd));
}

#[test]
fn what_does_not_fit_is_none() {
    assert_eq!(most().checked_add(Decimal::one()), None);
    assert_eq!(most().checked_add(Decimal::new(5, 1)), None);
    assert_eq!(most().negated().checked_sub(Decimal::one()), None);
    assert_eq!(most().checked_mul(Decimal::new(2, 0)), None);
    assert_eq!(most().checked_div(Decimal::new(1, 1)), None);
}

#[test]
fn rounding_keeps_the_scale_down() {
    let x = Decimal::new(12345, 3).round_dp(2);
    assert_eq!((x.mantissa(), x.scale()), (1234, 2));
    let y = Decimal::new(12355, 3).round_dp(2);
    assert_eq!((y.mantissa(), y.scale()), (1236, 2));
    let z = Decimal::new(5, 0).round_dp(2);
    assert_eq!((z.mantissa(), z.scale()), (5, 0));
    assert_eq!(Decimal::new(-25, 1).round_dp(0), Decimal::new(-2, 0));
}

#[test]
fn shares_of_counts() {
    assert_eq!(Decimal::ratio(1, 4), Decimal::new(25, 2));
    assert_eq!(Decimal::ratio(0, 4), Decimal::zero());
    assert_eq!(Decimal::ratio(4, 0), Decimal::zero());
    assert_eq!(Decimal::ratio(usize::MAX, 1), Decimal::from_count(usize::MAX));
}

#[test]
fn texts_are_read_as_decimals() {
    assert_eq!(Decimal::parse("0.015").unwrap(), Decimal::new(15, 3));
    assert_eq!(Decimal::parse("-12").unwrap(), Decimal::new(-12, 0));
    assert!(Decimal::parse("twelve").is_err());
    assert_eq!(read_number("1.5"), Some(Decimal::new(15, 1)));
    assert_eq!(read_number("1_5"), None);
    assert_eq!(read_number("x"), None);
}

#[test]
fn numbers_are_written_out() {
    assert_eq!(fixed_text(Decimal::new(12345, 3), 2), "12.34");
    assert_eq!(fixed_text(Decimal::new(12355, 3), 2), "12.36");
    assert_eq!(fixed_text(Decimal::new(5, 0), 4), "5.0000");
    assert_eq!(fixed_text(Decimal::new(-5, 3), 1), "-0.0");
    assert_eq!(fixed_text(Decimal::new(75, 1), 0), "8");
    assert_eq!(signed_text(Decimal::new(5, 1), 4), "+0.5000");
    assert_eq!(signed_text(Decimal::new(-5, 1), 4), "-0.5000");
    assert_eq!(signed_text(Decimal::zero(), 1), "+0.0");
    assert_eq!(cut_text(Decimal::new(19999, 4), 2), "1.99");
    assert_eq!(cut_text(Decimal::new(-19999, 4), 2), "-1.99");
    assert_eq!(cut_text(Decimal::new(2, 0), 2), "2.00");
    assert_eq!(plain_text(Decimal::new(-1050, 2)), "-10.50");
    assert_eq!(plain_text(Decimal::new(7, 0)), "7");
    assert_eq!(count_text(1024), "1024");
    assert_eq!(int_text(i64::MIN), "-9223372036854775808");
    assert_eq!(int_text(0), "0");
}

#[test]
fn decimals_are_written_as_rust_decimal_writes_them() {
    for (m, s) in [(0i64, 0u32), (0, 2), (-1, 3), (123456, 4), (-99995, 4), (7, 9)] {
        let theirs = rust_decimal::Decimal::new(m, s);
        let ours = Decimal::new(m, s);
        assert_eq!(plain_text(ours), theirs.to_string());
        assert_eq!(cut_text(ours, 6), format!("{:.6}", theirs));
        assert_eq!(cut_text(ours, 2), format!("{:.2}", theirs));
    }
}

#[test]
fn ids_are_written_as_uuids() {
    let id: u128 = 0x0123456789ab4def8123456789abcdef;
    assert_eq!(id_text(id), "01234567-89ab-4def-8123-456789abcdef");
    assert_eq!(id_text(id), uuid::Uuid::from_u128(id).to_string());
    assert_eq!(hex_text(0xff0a, 2), "0a");
}

#[test]
fn lists_are_joined() {
    assert_eq!(join(&vec![], "|"), "");
    assert_eq!(join(&vec!["a".to_string()], "|"), "a");
    assert_eq!(join(&vec!["a".to_string(), "b".to_string(), "c".to_string()], ", "), "a, b, c");
}

#[test]
fn exact_results_are_not_rounded() {
    let d = |t: &str| Decimal::parse(t).unwrap();
    assert_eq!(d("0.1").checked_add(d("0.2")), Some(d("0.3")));
    assert_eq!(d("1").checked_sub(d("0.9")), Some(d("0.1")));
    assert_eq!(d("1.1").checked_mul(d("1.1")), Some(d("1.21")));
    assert_eq!(d("-0.3").checked_div(d("0.1")), Some(d("-3")));
}

#[test]
fn rounded_steps_keep_their_side() {
    let d = |t: &str| Decimal::parse(t).unwrap();
    // The small part is lost, and nothing more.
    let big = d("79228162514264337593543950334");
    assert_eq!(big.checked_add(d("0.4")), Some(big));
    assert_eq!(big.checked_sub(d("0.4")), Some(big));
    assert_eq!(big.negated().checked_sub(d("0.4")), Some(big.negated()));
    assert_eq!(big.checked_add(d("0.6")), big.checked_add(d("1")));
}

#[test]
fn halfway_quotients_are_rounded_to_even() {
    // Divisors of more than 64 bits, and quotients of 2^96 + 9, which lose a
    // decimal and then lie halfway: 79.228162514264337593543950345.
    let a = 15845632502852867518708790069;
    let b = 200000000000000000000000000;
    let even = Decimal::from_parts(7922816251426433759354395034, 26).unwrap();
    for (n, d, q) in [(a, b, even), (-a, b, even.negated()), (a, -b, even.negated()), (-a, -b, even)] {
        let x = Decimal::from_parts(n, 0).unwrap();
        let y = Decimal::from_parts(d, 0).unwrap();
        assert_eq!(x.checked_div(y), Some(q));
    }
    // The same quotient of other scales, and of a divisor of few bits.
    let x = Decimal::from_parts(a, 3).unwrap();
    let y = Decimal::from_parts(b, 3).unwrap();
    assert_eq!(x.checked_div(y), Some(even));
    let y = Decimal::from_parts(2, 0).unwrap();
    let x = Decimal::from_parts(a, 26).unwrap();
    assert_eq!(x.checked_div(y), Some(even));
    // Halfway above an odd number: 2^96 + 19, which goes up to the even one.
    let x = Decimal::from_parts(15845632502852867518708790071, 0).unwrap();
    let y = Decimal::from_parts(b, 0).unwrap();
    let up = Decimal::from_parts(7922816251426433759354395036, 26).unwrap();
    assert_eq!(x.checked_div(y), Some(up));
    // Just above halfway is rounded up, though the number is odd.
    let y = Decimal::from_parts(b - 1, 0).unwrap();
    let x = Decimal::from_parts(a, 0).unwrap();
    let near = x.checked_div(y).unwrap();
    assert!(even.less(near));
}
