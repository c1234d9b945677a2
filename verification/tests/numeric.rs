use num_bigint::BigInt;
use num_rational::Ratio;
use patina::heap::numeric::NumericError;
use patina::heap::Heap;
use patina::tagged_value::{TaggedValue, FIXNUM_MAX, FIXNUM_MIN};

fn fx(n: i64) -> TaggedValue {
    TaggedValue::fixnum(n)
}

#[test]
fn test_fixnum_add() {
    let mut heap = Heap::new();
    let result = heap.numeric_add(fx(10), fx(20)).unwrap().unwrap();
    assert!(result.is_fixnum());
    assert_eq!(result.as_fixnum_unchecked(), 30);
}

#[test]
fn test_fixnum_add_overflow() {
    let mut heap = Heap::new();
    let result = heap.numeric_add(fx(FIXNUM_MAX), fx(100)).unwrap().unwrap();
    assert!(result.is_object());
    assert!(heap.is_bigint(result));
}

#[test]
fn test_fixnum_sub() {
    let mut heap = Heap::new();
    let result = heap.numeric_sub(fx(30), fx(20)).unwrap().unwrap();
    assert!(result.is_fixnum());
    assert_eq!(result.as_fixnum_unchecked(), 10);
}

#[test]
fn test_fixnum_mul() {
    let mut heap = Heap::new();
    let result = heap.numeric_mul(fx(6), fx(7)).unwrap().unwrap();
    assert!(result.is_fixnum());
    assert_eq!(result.as_fixnum_unchecked(), 42);
}

#[test]
fn test_fixnum_quotient() {
    let mut heap = Heap::new();
    let result = heap.numeric_quotient(fx(13), fx(4)).unwrap().unwrap();
    assert!(result.is_fixnum());
    assert_eq!(result.as_fixnum_unchecked(), 3);
}

#[test]
fn test_fixnum_remainder() {
    let mut heap = Heap::new();
    let result = heap.numeric_remainder(fx(13), fx(4)).unwrap().unwrap();
    assert!(result.is_fixnum());
    assert_eq!(result.as_fixnum_unchecked(), 1);
}

#[test]
fn test_fixnum_modulo() {
    let mut heap = Heap::new();
    let result = heap.numeric_modulo(fx(-13), fx(4)).unwrap().unwrap();
    assert!(result.is_fixnum());
    assert_eq!(result.as_fixnum_unchecked(), 3);
}

fn big_of(heap: &Heap, tv: TaggedValue) -> BigInt {
    heap.get_bigint(tv).unwrap().clone()
}

#[test]
fn big_results_come_back_to_fixnums_when_they_fit() {
    let mut heap = Heap::new();
    let big = heap.numeric_mul(fx(FIXNUM_MAX), fx(4)).unwrap().unwrap();
    assert_eq!(big_of(&heap, big), BigInt::from(FIXNUM_MAX) * 4);
    let back = heap.numeric_quotient(big, fx(4)).unwrap().unwrap();
    assert_eq!(back, fx(FIXNUM_MAX));
    let zero = heap.numeric_sub(big, big).unwrap().unwrap();
    assert_eq!(zero, fx(0));
    let sq = heap.numeric_mul(big, big).unwrap().unwrap();
    let expect = (BigInt::from(FIXNUM_MAX) * 4) * (BigInt::from(FIXNUM_MAX) * 4);
    assert_eq!(big_of(&heap, sq), expect);
}

#[test]
fn truncating_and_flooring_divisions_differ_by_sign() {
    let mut heap = Heap::new();
    assert_eq!(heap.numeric_quotient(fx(-13), fx(4)).unwrap(), Some(fx(-3)));
    assert_eq!(heap.numeric_remainder(fx(-13), fx(4)).unwrap(), Some(fx(-1)));
    assert_eq!(heap.numeric_modulo(fx(13), fx(-4)).unwrap(), Some(fx(-3)));
    assert_eq!(heap.numeric_modulo(fx(12), fx(-4)).unwrap(), Some(fx(0)));
    let q = heap.numeric_quotient(fx(FIXNUM_MIN), fx(-1)).unwrap().unwrap();
    assert_eq!(big_of(&heap, q), -BigInt::from(FIXNUM_MIN));
    let big = heap.alloc_bigint(BigInt::from(-1) * BigInt::from(1u64 << 62) - 1);
    let m = heap.numeric_modulo(big, fx(10)).unwrap().unwrap();
    assert_eq!(m, fx(5));
}

#[test]
fn dividing_by_zero_and_odd_operands_are_reported() {
    let mut heap = Heap::new();
    assert_eq!(heap.numeric_quotient(fx(1), fx(0)), Err(NumericError::DivisionByZero));
    let zero = heap.alloc_bigint(BigInt::from(0));
    assert_eq!(heap.numeric_modulo(fx(1), zero), Err(NumericError::DivisionByZero));
    let s = heap.intern_symbol("x");
    assert!(matches!(heap.numeric_add(s, fx(1)), Err(NumericError::NotANumber { .. })));
    assert!(matches!(heap.numeric_remainder(fx(1), s), Err(NumericError::NotInteger { .. })));
    let r = heap.alloc_real(1.5_f64.to_bits());
    assert_eq!(heap.numeric_mul(fx(2), r), Ok(None));
}

#[test]
fn gcd_of_magnitudes() {
    let mut heap = Heap::new();
    assert_eq!(heap.gcd_many(&[]).unwrap(), Some(fx(0)));
    assert_eq!(heap.gcd_many(&[fx(-12), fx(18), fx(30)]).unwrap(), Some(fx(6)));
    assert_eq!(heap.gcd_many(&[fx(0), fx(-7)]).unwrap(), Some(fx(7)));
    let big = heap.alloc_bigint(BigInt::from(1u64 << 62) * 3);
    assert_eq!(heap.gcd_many(&[big, fx(9)]).unwrap(), Some(fx(3)));
    let g = heap.gcd_many(&[fx(FIXNUM_MIN)]).unwrap().unwrap();
    assert_eq!(big_of(&heap, g), BigInt::from(1u64 << 60));
    let s = heap.intern_symbol("x");
    assert!(matches!(heap.gcd_many(&[fx(2), s]), Err(NumericError::NotInteger { .. })));
}

#[test]
fn negation_crosses_the_fixnum_boundary() {
    let mut heap = Heap::new();
    assert_eq!(heap.numeric_neg(fx(5)).unwrap(), Some(fx(-5)));
    let n = heap.numeric_neg(fx(FIXNUM_MIN)).unwrap().unwrap();
    assert_eq!(big_of(&heap, n), -BigInt::from(FIXNUM_MIN));
    let back = heap.numeric_neg(n).unwrap().unwrap();
    assert_eq!(back, fx(FIXNUM_MIN));
}

#[test]
fn floor_division_rounds_toward_negative_infinity() {
    let mut heap = Heap::new();
    assert_eq!(heap.numeric_floor_quotient(fx(-13), fx(4)).unwrap(), Some(fx(-4)));
    assert_eq!(heap.numeric_floor_remainder(fx(-13), fx(4)).unwrap(), Some(fx(3)));
    assert_eq!(heap.numeric_floor_quotient(fx(13), fx(4)).unwrap(), Some(fx(3)));
    assert_eq!(heap.numeric_floor_remainder(fx(13), fx(-4)).unwrap(), Some(fx(-3)));
    assert_eq!(heap.numeric_floor_quotient(fx(12), fx(-4)).unwrap(), Some(fx(-3)));
    assert_eq!(heap.numeric_floor_quotient(fx(1), fx(0)), Err(NumericError::DivisionByZero));
}

#[test]
fn exact_powers() {
    let mut heap = Heap::new();
    assert_eq!(heap.numeric_expt(fx(2), fx(10)).unwrap(), Some(fx(1024)));
    assert_eq!(heap.numeric_expt(fx(-3), fx(3)).unwrap(), Some(fx(-27)));
    assert_eq!(heap.numeric_expt(fx(0), fx(0)).unwrap(), Some(fx(1)));
    assert_eq!(heap.numeric_expt(fx(7), fx(1)).unwrap(), Some(fx(7)));
    let s = heap.intern_symbol("x");
    assert_eq!(heap.numeric_expt(fx(1), s).unwrap(), Some(fx(1)));
    assert!(matches!(heap.numeric_expt(fx(2), s), Err(NumericError::NotReal { .. })));
    let half = heap.numeric_expt(fx(2), fx(-1)).unwrap().unwrap();
    assert_eq!(ratio_of(&heap, half), Ratio::new(BigInt::from(1), BigInt::from(2)));
    let p = heap.numeric_expt(fx(2), fx(100)).unwrap().unwrap();
    assert_eq!(big_of(&heap, p), BigInt::from(2).pow(100));
    let p = heap.numeric_expt(fx(-2), fx(63)).unwrap().unwrap();
    assert_eq!(big_of(&heap, p), BigInt::from(-2).pow(63));
    let p = heap.numeric_expt(fx(3), fx(40)).unwrap().unwrap();
    assert_eq!(big_of(&heap, p), BigInt::from(3).pow(40));
}

#[test]
fn exact_integers_compare_across_sizes() {
    let mut heap = Heap::new();
    let big = heap.alloc_bigint(BigInt::from(1u64 << 62));
    let neg = heap.alloc_bigint(-BigInt::from(1u64 << 62));
    assert_eq!(heap.numeric_lt(fx(5), big).unwrap(), Some(true));
    assert_eq!(heap.numeric_lt(neg, fx(-5)).unwrap(), Some(true));
    assert_eq!(heap.numeric_ge(big, big).unwrap(), Some(true));
    assert_eq!(heap.numeric_gt(fx(3), fx(3)).unwrap(), Some(false));
    assert_eq!(heap.numeric_le(fx(3), fx(3)).unwrap(), Some(true));
    assert_eq!(heap.numeric_eq_cmp(fx(3), fx(4)).unwrap(), Some(false));
    let s = heap.intern_symbol("x");
    assert!(matches!(heap.numeric_eq_cmp(s, fx(1)), Err(NumericError::NotANumber { .. })));
    assert!(matches!(heap.numeric_lt(s, fx(1)), Err(NumericError::NotReal { .. })));
    let r = heap.alloc_real(0.5_f64.to_bits());
    assert_eq!(heap.numeric_lt(r, fx(1)).unwrap(), None);
}

#[test]
fn absolute_values_of_exact_integers() {
    let mut heap = Heap::new();
    assert_eq!(heap.numeric_abs(fx(-5)).unwrap().unwrap(), fx(5));
    assert_eq!(heap.numeric_abs(fx(5)).unwrap().unwrap(), fx(5));
    let below = heap.numeric_abs(fx(FIXNUM_MIN)).unwrap().unwrap();
    assert_eq!(big_of(&heap, below), -BigInt::from(FIXNUM_MIN));
    let small_big = heap.alloc_bigint(BigInt::from(-7));
    assert_eq!(heap.numeric_abs(small_big).unwrap().unwrap(), fx(7));
    let q = heap.alloc_rational(Ratio::new(BigInt::from(-1), BigInt::from(2)));
    let half = heap.numeric_abs(q).unwrap().unwrap();
    assert_eq!(ratio_of(&heap, half), Ratio::new(BigInt::from(1), BigInt::from(2)));
    assert!(matches!(
        heap.numeric_abs(TaggedValue::boolean(true)),
        Err(NumericError::NotANumber { .. })
    ));
}

#[test]
fn squares_grow_past_the_fixnum_range() {
    let mut heap = Heap::new();
    assert_eq!(heap.numeric_square(fx(-12)).unwrap().unwrap(), fx(144));
    let sq = heap.numeric_square(fx(FIXNUM_MAX)).unwrap().unwrap();
    assert_eq!(big_of(&heap, sq), BigInt::from(FIXNUM_MAX) * BigInt::from(FIXNUM_MAX));
}

#[test]
fn max_and_min_pick_an_operand() {
    let mut heap = Heap::new();
    let big = heap.alloc_bigint(BigInt::from(1u64 << 62));
    assert_eq!(heap.numeric_max(fx(3), big).unwrap().unwrap(), big);
    assert_eq!(heap.numeric_min(fx(3), big).unwrap().unwrap(), fx(3));
    assert_eq!(heap.numeric_max(fx(-1), fx(-2)).unwrap().unwrap(), fx(-1));
    let r = heap.alloc_real(0.5_f64.to_bits());
    assert_eq!(heap.numeric_max(fx(1), r).unwrap(), None);
    assert!(matches!(
        heap.numeric_min(fx(1), TaggedValue::boolean(false)),
        Err(NumericError::NotReal { .. })
    ));
}

#[test]
fn rounding_an_exact_integer_gives_it_back() {
    let mut heap = Heap::new();
    assert_eq!(heap.numeric_floor(fx(-3)).unwrap().unwrap(), fx(-3));
    assert_eq!(heap.numeric_ceiling(fx(4)).unwrap().unwrap(), fx(4));
    let big = heap.alloc_bigint(BigInt::from(1u64 << 62));
    assert_eq!(heap.numeric_truncate(big).unwrap().unwrap(), big);
    assert_eq!(heap.numeric_round(big).unwrap().unwrap(), big);
    let q = heap.alloc_rational(Ratio::new(BigInt::from(5), BigInt::from(2)));
    assert_eq!(heap.numeric_round(q).unwrap().unwrap(), fx(2));
    assert!(matches!(
        heap.numeric_floor(TaggedValue::boolean(false)),
        Err(NumericError::NotANumber { .. })
    ));
}

#[test]
fn least_common_multiples() {
    let mut heap = Heap::new();
    assert_eq!(heap.lcm_many(&[]).unwrap().unwrap(), fx(1));
    assert_eq!(heap.lcm_many(&[fx(-7)]).unwrap().unwrap(), fx(7));
    assert_eq!(heap.lcm_many(&[fx(4), fx(6)]).unwrap().unwrap(), fx(12));
    assert_eq!(heap.lcm_many(&[fx(-4), fx(6)]).unwrap().unwrap(), fx(12));
    assert_eq!(heap.lcm_many(&[fx(2), fx(3), fx(4), fx(3)]).unwrap().unwrap(), fx(12));
    let big = heap.alloc_bigint(BigInt::from(1u64 << 62));
    let m = heap.lcm_many(&[big, fx(3)]).unwrap().unwrap();
    assert_eq!(big_of(&heap, m), BigInt::from(1u64 << 62) * 3);
}

#[test]
fn lcm_stops_at_zero_and_reports_odd_arguments() {
    let mut heap = Heap::new();
    let s = heap.intern_symbol("x");
    assert_eq!(heap.lcm_many(&[fx(0), fx(2), s]).unwrap().unwrap(), fx(0));
    assert!(matches!(heap.lcm_many(&[fx(0), s]), Err(NumericError::NotInteger { .. })));
    assert!(matches!(heap.lcm_many(&[s]), Err(NumericError::NotInteger { .. })));
    let q = heap.alloc_rational(Ratio::new(BigInt::from(1), BigInt::from(2)));
    assert!(matches!(heap.lcm_many(&[fx(2), q]), Err(NumericError::NotInteger { .. })));
    let r = heap.alloc_real(2.0_f64.to_bits());
    assert_eq!(heap.lcm_many(&[fx(2), r]), Ok(None));
}

fn ratio_of(heap: &Heap, tv: TaggedValue) -> Ratio<BigInt> {
    heap.get_rational(tv).unwrap().clone()
}

fn q(heap: &mut Heap, n: i64, d: i64) -> TaggedValue {
    heap.alloc_rational(Ratio::new(BigInt::from(n), BigInt::from(d)))
}

#[test]
fn exact_division_gives_rationals_and_integers() {
    let mut heap = Heap::new();
    let half = heap.numeric_div(fx(1), fx(2)).unwrap().unwrap();
    assert_eq!(ratio_of(&heap, half), Ratio::new(BigInt::from(1), BigInt::from(2)));
    assert_eq!(heap.numeric_div(fx(6), fx(3)).unwrap().unwrap(), fx(2));
    let neg = heap.numeric_div(fx(2), fx(-4)).unwrap().unwrap();
    assert_eq!(ratio_of(&heap, neg), Ratio::new(BigInt::from(-1), BigInt::from(2)));
    let third = q(&mut heap, 1, 3);
    assert_eq!(heap.numeric_div(third, third).unwrap().unwrap(), fx(1));
    assert_eq!(heap.numeric_div(fx(1), fx(0)), Err(NumericError::DivisionByZero));
    let r = heap.alloc_real(2.0_f64.to_bits());
    assert_eq!(heap.numeric_div(r, fx(0)), Ok(None));
    assert_eq!(heap.numeric_div(fx(1), r), Ok(None));
    let s = heap.intern_symbol("x");
    assert!(matches!(heap.numeric_div(s, fx(2)), Err(NumericError::NotANumber { .. })));
}

#[test]
fn rational_sums_products_and_negation() {
    let mut heap = Heap::new();
    let half = q(&mut heap, 1, 2);
    let third = q(&mut heap, 1, 3);
    let sum = heap.numeric_add(half, third).unwrap().unwrap();
    assert_eq!(ratio_of(&heap, sum), Ratio::new(BigInt::from(5), BigInt::from(6)));
    assert_eq!(heap.numeric_add(half, half).unwrap().unwrap(), fx(1));
    let three_halves = heap.numeric_add(half, fx(1)).unwrap().unwrap();
    assert_eq!(ratio_of(&heap, three_halves), Ratio::new(BigInt::from(3), BigInt::from(2)));
    let diff = heap.numeric_sub(fx(1), third).unwrap().unwrap();
    assert_eq!(ratio_of(&heap, diff), Ratio::new(BigInt::from(2), BigInt::from(3)));
    let six = heap.numeric_mul(third, fx(18)).unwrap().unwrap();
    assert_eq!(six, fx(6));
    let sixth = heap.numeric_mul(half, third).unwrap().unwrap();
    assert_eq!(ratio_of(&heap, sixth), Ratio::new(BigInt::from(1), BigInt::from(6)));
    let neg = heap.numeric_neg(half).unwrap().unwrap();
    assert_eq!(ratio_of(&heap, neg), Ratio::new(BigInt::from(-1), BigInt::from(2)));
    let quarter = heap.numeric_square(half).unwrap().unwrap();
    assert_eq!(ratio_of(&heap, quarter), Ratio::new(BigInt::from(1), BigInt::from(4)));
    let s = heap.intern_symbol("x");
    assert!(matches!(heap.numeric_add(half, s), Err(NumericError::NotANumber { .. })));
    let r = heap.alloc_real(0.25_f64.to_bits());
    assert_eq!(heap.numeric_add(half, r), Ok(None));
}

#[test]
fn rationals_compare_by_value() {
    let mut heap = Heap::new();
    let half = q(&mut heap, 1, 2);
    let other_half = q(&mut heap, 2, 4);
    let third = q(&mut heap, 1, 3);
    assert_eq!(heap.numeric_eq_cmp(half, other_half).unwrap(), Some(true));
    assert_eq!(heap.numeric_lt(third, half).unwrap(), Some(true));
    assert_eq!(heap.numeric_gt(third, fx(0)).unwrap(), Some(true));
    assert_eq!(heap.numeric_le(fx(1), half).unwrap(), Some(false));
    assert_eq!(heap.numeric_ge(half, other_half).unwrap(), Some(true));
    assert_eq!(heap.numeric_max(half, third).unwrap().unwrap(), half);
    assert_eq!(heap.numeric_min(half, fx(-1)).unwrap().unwrap(), fx(-1));
    let s = heap.intern_symbol("x");
    assert!(matches!(heap.numeric_lt(half, s), Err(NumericError::NotReal { .. })));
}

#[test]
fn rational_and_negative_powers() {
    let mut heap = Heap::new();
    let two_thirds = q(&mut heap, 2, 3);
    let p = heap.numeric_expt(two_thirds, fx(3)).unwrap().unwrap();
    assert_eq!(ratio_of(&heap, p), Ratio::new(BigInt::from(8), BigInt::from(27)));
    let p = heap.numeric_expt(two_thirds, fx(-2)).unwrap().unwrap();
    assert_eq!(ratio_of(&heap, p), Ratio::new(BigInt::from(9), BigInt::from(4)));
    let neg_half = q(&mut heap, -1, 2);
    assert_eq!(heap.numeric_expt(neg_half, fx(-3)).unwrap().unwrap(), fx(-8));
    assert_eq!(heap.numeric_expt(two_thirds, fx(0)).unwrap().unwrap(), fx(1));
    assert_eq!(heap.numeric_expt(two_thirds, fx(1)).unwrap().unwrap(), two_thirds);
    let tenth = heap.numeric_expt(fx(-10), fx(-1)).unwrap().unwrap();
    assert_eq!(ratio_of(&heap, tenth), Ratio::new(BigInt::from(-1), BigInt::from(10)));
    assert_eq!(heap.numeric_expt(fx(0), fx(-2)), Err(NumericError::DivisionByZero));
    assert_eq!(heap.numeric_expt(fx(2), two_thirds), Ok(None));
}

#[test]
fn rationals_round_to_integers() {
    let mut heap = Heap::new();
    let neg = q(&mut heap, -7, 2);
    assert_eq!(heap.numeric_floor(neg).unwrap().unwrap(), fx(-4));
    assert_eq!(heap.numeric_ceiling(neg).unwrap().unwrap(), fx(-3));
    assert_eq!(heap.numeric_truncate(neg).unwrap().unwrap(), fx(-3));
    assert_eq!(heap.numeric_round(neg).unwrap().unwrap(), fx(-4));
    let pos = q(&mut heap, 7, 3);
    assert_eq!(heap.numeric_floor(pos).unwrap().unwrap(), fx(2));
    assert_eq!(heap.numeric_ceiling(pos).unwrap().unwrap(), fx(3));
    assert_eq!(heap.numeric_round(pos).unwrap().unwrap(), fx(2));
    let r = heap.alloc_real(2.5_f64.to_bits());
    assert_eq!(heap.numeric_round(r), Ok(None));
}

#[test]
fn numerators_and_denominators() {
    let mut heap = Heap::new();
    let q6 = q(&mut heap, 6, 4);
    assert_eq!(heap.numerator(q6).unwrap().unwrap(), fx(3));
    assert_eq!(heap.denominator(q6).unwrap().unwrap(), fx(2));
    let neg = q(&mut heap, -1, 3);
    assert_eq!(heap.numerator(neg).unwrap().unwrap(), fx(-1));
    assert_eq!(heap.denominator(neg).unwrap().unwrap(), fx(3));
    assert_eq!(heap.numerator(fx(7)).unwrap().unwrap(), fx(7));
    assert_eq!(heap.denominator(fx(7)).unwrap().unwrap(), fx(1));
    let r = heap.alloc_real(0.5_f64.to_bits());
    assert_eq!(heap.numerator(r), Ok(None));
    let s = heap.intern_symbol("x");
    assert!(matches!(heap.denominator(s), Err(NumericError::NotANumber { .. })));
}

#[test]
fn integer_operations_take_rationals_over_one_and_reject_others() {
    let mut heap = Heap::new();
    let whole = heap.alloc_rational(Ratio::new_raw(BigInt::from(6), BigInt::from(1)));
    assert_eq!(heap.numeric_quotient(whole, fx(4)).unwrap().unwrap(), fx(1));
    assert_eq!(heap.gcd_many(&[whole, fx(4)]).unwrap().unwrap(), fx(2));
    let half = q(&mut heap, 1, 2);
    assert!(matches!(heap.numeric_modulo(half, fx(2)), Err(NumericError::NotInteger { .. })));
    assert!(matches!(heap.gcd_many(&[fx(2), half]), Err(NumericError::NotInteger { .. })));
    let r = heap.alloc_real(1.0_f64.to_bits());
    assert_eq!(heap.numeric_quotient(r, fx(2)), Ok(None));
}
