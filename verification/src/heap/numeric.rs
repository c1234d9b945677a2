//! Exact numbers beyond the fixnum range, as the heap holds them (the big
//! integers and big rationals of the num crates), and arithmetic on exact
//! integers.
use vstd::prelude::*;
use num_bigint::BigInt;
use num_rational::Ratio;
use crate::heap::{Heap, HeapObjectData};
use crate::tagged_value::{TaggedValue, spec_fits_fixnum};
use vstd::arithmetic::power::{pow, lemma_pow0, lemma_pow1, lemma1_pow, lemma_pow_adds, lemma_square_is_pow2, lemma_pow_multiplies, lemma_pow_positive, lemma_pow_increases};

verus! {

#[verifier::external_type_specification]
#[verifier::external_body]
pub struct ExBigInt(BigInt);

#[verifier::external_type_specification]
#[verifier::external_body]
#[verifier::reject_recursive_types(T)]
pub struct ExRatio<T>(Ratio<T>);

/// An arithmetic error.
#[derive(Debug, Clone, PartialEq, Eq)]
pub enum NumericError {
    /// Division of an exact number by exact zero.
    DivisionByZero,
    /// An argument that is not a number.
    NotANumber { got: String },
    /// An argument that is not an integer where one is needed.
    NotInteger { got: String },
    /// An argument that is not a real number where one is needed.
    NotReal { got: String },
}

/// The integer a big integer holds.
pub uninterp spec fn bigint_value(n: BigInt) -> int;

/// The numerator a rational holds, as `Ratio::numer` gives it.
pub uninterp spec fn ratio_numer(q: Ratio<BigInt>) -> int;

/// The denominator a rational holds, as `Ratio::denom` gives it.
pub uninterp spec fn ratio_denom(q: Ratio<BigInt>) -> int;

/// `q` is in lowest terms with a positive denominator, as `Ratio::new`
/// leaves every ratio it makes.
pub open spec fn ratio_reduced(q: Ratio<BigInt>) -> bool {
    &&& ratio_denom(q) > 0
    &&& gcd(magnitude(ratio_numer(q)), ratio_denom(q) as nat) == 1
}

/// `x / y` rounded toward zero, as Rust's and num-bigint's `/` round.
pub open spec fn trunc_quot(x: int, y: int) -> int {
    let q = (if x < 0 { -x } else { x }) / (if y < 0 { -y } else { y });
    if (x < 0) == (y < 0) { q } else { -q }
}

/// The remainder of `trunc_quot`: the sign of `x`.
pub open spec fn trunc_rem(x: int, y: int) -> int {
    let r = (if x < 0 { -x } else { x }) % (if y < 0 { -y } else { y });
    if x < 0 { -r } else { r }
}

/// `modulo`: the remainder with the sign of `y`.
pub open spec fn floor_mod(x: int, y: int) -> int {
    let r = trunc_rem(x, y);
    if r == 0 || (r > 0) == (y > 0) { r } else { r + y }
}

/// Calls `Add for &BigInt`.
#[verifier::external_body]
fn bigint_sum(a: &BigInt, b: &BigInt) -> (r: BigInt)
    ensures
        bigint_value(r) == bigint_value(*a) + bigint_value(*b),
{
    a + b
}

/// Calls `Sub for &BigInt`.
#[verifier::external_body]
fn bigint_difference(a: &BigInt, b: &BigInt) -> (r: BigInt)
    ensures
        bigint_value(r) == bigint_value(*a) - bigint_value(*b),
{
    a - b
}

/// Calls `Mul for &BigInt`.
#[verifier::external_body]
fn bigint_product(a: &BigInt, b: &BigInt) -> (r: BigInt)
    ensures
        bigint_value(r) == bigint_value(*a) * bigint_value(*b),
{
    a * b
}

/// Calls `Neg for &BigInt`.
#[verifier::external_body]
fn bigint_negation(a: &BigInt) -> (r: BigInt)
    ensures
        bigint_value(r) == -bigint_value(*a),
{
    -a
}

/// Calls `Div for &BigInt`, which rounds toward zero; it panics on a zero
/// divisor, which `requires` leaves out.
#[verifier::external_body]
fn bigint_quotient(a: &BigInt, b: &BigInt) -> (r: BigInt)
    requires
        bigint_value(*b) != 0,
    ensures
        bigint_value(r) == trunc_quot(bigint_value(*a), bigint_value(*b)),
{
    a / b
}

/// Calls `Rem for &BigInt`, whose result has the sign of `a`; it panics on
/// a zero divisor, which `requires` leaves out.
#[verifier::external_body]
fn bigint_remainder(a: &BigInt, b: &BigInt) -> (r: BigInt)
    requires
        bigint_value(*b) != 0,
    ensures
        bigint_value(r) == trunc_rem(bigint_value(*a), bigint_value(*b)),
{
    a % b
}

/// Calls `Ratio::numer` and clones what it gives: the numerator.
#[verifier::external_body]
fn rational_numer(q: &Ratio<BigInt>) -> (r: BigInt)
    ensures
        bigint_value(r) == ratio_numer(*q),
{
    q.numer().clone()
}

/// Calls `Ratio::denom` and clones what it gives: the denominator.
#[verifier::external_body]
fn rational_denom(q: &Ratio<BigInt>) -> (r: BigInt)
    ensures
        bigint_value(r) == ratio_denom(*q),
{
    q.denom().clone()
}

/// Calls `Ratio::new`, which reduces `n / d` to lowest terms with a
/// positive denominator. `d` must not be zero (it panics on zero).
#[verifier::external_body]
fn rational_new(n: BigInt, d: BigInt) -> (r: Ratio<BigInt>)
    requires
        bigint_value(d) != 0,
    ensures
        ratio_reduced(r),
        ratio_numer(r) * bigint_value(d) == bigint_value(n) * ratio_denom(r),
{
    Ratio::new(n, d)
}

/// Calls `Ratio::from_integer`: the ratio `n/1`.
#[verifier::external_body]
fn rational_from_integer(n: BigInt) -> (r: Ratio<BigInt>)
    ensures
        ratio_numer(r) == bigint_value(n),
        ratio_denom(r) == 1,
{
    Ratio::from_integer(n)
}

/// Calls `Clone for Ratio`, which clones numerator and denominator.
#[verifier::external_body]
fn rational_copy(q: &Ratio<BigInt>) -> (r: Ratio<BigInt>)
    ensures
        ratio_numer(r) == ratio_numer(*q),
        ratio_denom(r) == ratio_denom(*q),
{
    q.clone()
}

/// Calls `Add for &Ratio`, which brings both to a common denominator, adds
/// the numerators and builds the sum with `Ratio::new`, which reduces it.
/// Neither denominator may be zero (`Ratio::new` panics on one).
#[verifier::external_body]
fn rational_sum(a: &Ratio<BigInt>, b: &Ratio<BigInt>) -> (r: Ratio<BigInt>)
    requires
        ratio_denom(*a) != 0,
        ratio_denom(*b) != 0,
    ensures
        ratio_reduced(r),
        ratio_numer(r) * (ratio_denom(*a) * ratio_denom(*b)) == (ratio_numer(*a) * ratio_denom(*b)
            + ratio_numer(*b) * ratio_denom(*a)) * ratio_denom(r),
{
    a + b
}

/// Calls `Sub for &Ratio`, as `rational_sum` does `Add`.
#[verifier::external_body]
fn rational_difference(a: &Ratio<BigInt>, b: &Ratio<BigInt>) -> (r: Ratio<BigInt>)
    requires
        ratio_denom(*a) != 0,
        ratio_denom(*b) != 0,
    ensures
        ratio_reduced(r),
        ratio_numer(r) * (ratio_denom(*a) * ratio_denom(*b)) == (ratio_numer(*a) * ratio_denom(*b)
            - ratio_numer(*b) * ratio_denom(*a)) * ratio_denom(r),
{
    a - b
}

/// Calls `Mul for &Ratio`, which cancels common factors crosswise and builds
/// the product with `Ratio::new`, which reduces it.
#[verifier::external_body]
fn rational_product(a: &Ratio<BigInt>, b: &Ratio<BigInt>) -> (r: Ratio<BigInt>)
    requires
        ratio_denom(*a) != 0,
        ratio_denom(*b) != 0,
    ensures
        ratio_reduced(r),
        ratio_numer(r) * (ratio_denom(*a) * ratio_denom(*b)) == (ratio_numer(*a) * ratio_numer(*b))
            * ratio_denom(r),
{
    a * b
}

/// Calls `Div for &Ratio`, which cancels common factors and builds the
/// quotient with `Ratio::new`, which reduces it. The divisor must not be
/// zero.
#[verifier::external_body]
fn rational_quotient(a: &Ratio<BigInt>, b: &Ratio<BigInt>) -> (r: Ratio<BigInt>)
    requires
        ratio_denom(*a) != 0,
        ratio_denom(*b) != 0,
        ratio_numer(*b) != 0,
    ensures
        ratio_reduced(r),
        ratio_numer(r) * (ratio_denom(*a) * ratio_numer(*b)) == (ratio_numer(*a) * ratio_denom(*b))
            * ratio_denom(r),
{
    a / b
}

/// Calls `PartialOrd for Ratio`: whether `a` stands for a smaller number
/// than `b`. With positive denominators that is the cross products' order.
#[verifier::external_body]
fn rational_less(a: &Ratio<BigInt>, b: &Ratio<BigInt>) -> (r: bool)
    requires
        ratio_denom(*a) > 0,
        ratio_denom(*b) > 0,
    ensures
        r == (ratio_numer(*a) * ratio_denom(*b) < ratio_numer(*b) * ratio_denom(*a)),
{
    a < b
}

/// Calls `Clone for BigInt`.
#[verifier::external_body]
fn bigint_copy(a: &BigInt) -> (r: BigInt)
    ensures
        bigint_value(r) == bigint_value(*a),
{
    a.clone()
}

/// Calls `ToPrimitive::to_i64` for `BigInt`: the value when an `i64`
/// holds it.
#[verifier::external_body]
fn bigint_to_i64(a: &BigInt) -> (r: Option<i64>)
    ensures
        r == (if i64::MIN <= bigint_value(*a) <= i64::MAX {
            Some(bigint_value(*a) as i64)
        } else {
            None::<i64>
        }),
{
    num_traits::ToPrimitive::to_i64(a)
}

/// The arithmetic operations on exact integers.
#[derive(Clone, Copy, PartialEq, Eq, Structural)]
pub enum IntOp {
    Add,
    Sub,
    Mul,
}

/// What `op` makes of `x` and `y`.
pub open spec fn int_op(op: IntOp, x: int, y: int) -> int {
    match op {
        IntOp::Add => x + y,
        IntOp::Sub => x - y,
        IntOp::Mul => x * y,
    }
}

/// `op` on big integers.
fn bigint_op(op: IntOp, a: &BigInt, b: &BigInt) -> (r: BigInt)
    ensures
        bigint_value(r) == int_op(op, bigint_value(*a), bigint_value(*b)),
{
    match op {
        IntOp::Add => bigint_sum(a, b),
        IntOp::Sub => bigint_difference(a, b),
        IntOp::Mul => bigint_product(a, b),
    }
}

/// `op` on `i64`s, when the result is an `i64`.
fn checked_op(op: IntOp, x: i64, y: i64) -> (r: Option<i64>)
    ensures
        r == (if i64::MIN <= int_op(op, x as int, y as int) <= i64::MAX {
            Some(int_op(op, x as int, y as int) as i64)
        } else {
            None::<i64>
        }),
{
    match op {
        IntOp::Add => x.checked_add(y),
        IntOp::Sub => x.checked_sub(y),
        IntOp::Mul => x.checked_mul(y),
    }
}

impl Heap {
    /// The exact integer `tv` is: a fixnum, or a big integer's value.
    pub open spec fn exact_integer_of(&self, tv: TaggedValue) -> Option<int> {
        match tv {
            TaggedValue::Fixnum(n) => Some(n as int),
            TaggedValue::Object(i) => match self.object_slots()[i as int] {
                HeapObjectData::BigInt(b) => Some(bigint_value(b)),
                _ => None,
            },
            _ => None,
        }
    }

    /// Whether `tv` is a number other than an exact integer: a rational, an
    /// inexact real or a complex number. Arithmetic on those is floating
    /// point or rational, which this library leaves to its caller.
    pub open spec fn is_other_number(&self, tv: TaggedValue) -> bool {
        match tv {
            TaggedValue::Object(i) => match self.object_slots()[i as int] {
                HeapObjectData::Rational(_) => true,
                HeapObjectData::Real(_) => true,
                HeapObjectData::Complex { .. } => true,
                _ => false,
            },
            _ => false,
        }
    }

    /// `tv` holds the integer `v` as the heap normalizes integers: a fixnum
    /// when `v` fits one, a big integer otherwise.
    pub open spec fn holds_integer(&self, tv: TaggedValue, v: int) -> bool {
        if spec_fits_fixnum(v) {
            tv == TaggedValue::Fixnum(v as i64)
        } else {
            tv is Object && match self.object_slots()[tv.spec_heap_index() as int] {
                HeapObjectData::BigInt(b) => bigint_value(b) == v,
                _ => false,
            }
        }
    }

    /// `self` is `old`, or `old` with one big integer allocated as `r`.
    pub open spec fn grew_by_integer(&self, old: &Heap, r: TaggedValue) -> bool {
        ||| *self == *old
        ||| exists|n: BigInt| self.object_allocated(old, r, HeapObjectData::BigInt(n))
    }

    /// The heap's value for the integer `n`: a fixnum when it fits one, a
    /// new big integer otherwise.
    fn bigint_to_tagged(&mut self, n: BigInt) -> (r: TaggedValue)
        requires
            old(self).wf(),
            old(self).can_alloc_object(),
        ensures
            final(self).wf(),
            final(self).arenas_extend(old(self)),
            final(self).holds_integer(r, bigint_value(n)),
            final(self).grew_by_integer(old(self), r),
    {
        match bigint_to_i64(&n) {
            Some(i) => {
                if TaggedValue::fits_fixnum(i) {
                    return TaggedValue::fixnum(i);
                }
            },
            None => {},
        }
        let ghost nn = n;
        let r = self.alloc_bigint(n);
        proof {
            assert(self.object_slots()[r.spec_heap_index() as int] == HeapObjectData::BigInt(nn));
        }
        r
    }

    /// The big integer an exact integer `tv` is, or, when it is none,
    /// whether it is another number.
    fn integer_operand(&self, tv: TaggedValue) -> (r: Result<BigInt, bool>)
        requires
            self.valid_value(tv),
        ensures
            match r {
                Ok(b) => self.exact_integer_of(tv) == Some(bigint_value(b)),
                Err(other) => self.exact_integer_of(tv) is None && other == self.is_other_number(tv),
            },
    {
        match tv {
            TaggedValue::Fixnum(n) => Ok(crate::heap::equality::bigint_from(n)),
            TaggedValue::Object(_) => match self.get_object(tv) {
                HeapObjectData::BigInt(b) => Ok(bigint_copy(b)),
                HeapObjectData::Rational(_) => Err(true),
                HeapObjectData::Real(_) => Err(true),
                HeapObjectData::Complex { .. } => Err(true),
                _ => Err(false),
            },
            _ => Err(false),
        }
    }

    /// `op` on two exact integers: the result normalized, a fixnum when it
    /// fits one; `Ok(None)` when an operand is another number, left to the
    /// caller; `NotANumber` when an operand is no number.
    pub fn integer_arith(&mut self, op: IntOp, a: TaggedValue, b: TaggedValue) -> (r: Result<Option<TaggedValue>, NumericError>)
        requires
            old(self).wf(),
            old(self).valid_value(a),
            old(self).valid_value(b),
            old(self).can_alloc_object(),
        ensures
            final(self).wf(),
            final(self).arenas_extend(old(self)),
            match (old(self).exact_integer_of(a), old(self).exact_integer_of(b)) {
                (Some(x), Some(y)) => r matches Ok(Some(t)) && final(self).holds_integer(t, int_op(op, x, y))
                    && final(self).grew_by_integer(old(self), t),
                _ => *final(self) == *old(self) && if old(self).is_other_number(a) || old(self).is_other_number(b) {
                    r == Ok::<Option<TaggedValue>, NumericError>(None)
                } else {
                    r matches Err(NumericError::NotANumber { .. })
                },
            },
    {
        match (a, b) {
            (TaggedValue::Fixnum(x), TaggedValue::Fixnum(y)) => {
                match checked_op(op, x, y) {
                    Some(v) => {
                        if TaggedValue::fits_fixnum(v) {
                            return Ok(Some(TaggedValue::fixnum(v)));
                        }
                        let n = crate::heap::equality::bigint_from(v);
                        return Ok(Some(self.bigint_to_tagged(n)));
                    },
                    None => {
                        let bx = crate::heap::equality::bigint_from(x);
                        let by = crate::heap::equality::bigint_from(y);
                        let n = bigint_op(op, &bx, &by);
                        return Ok(Some(self.bigint_to_tagged(n)));
                    },
                }
            },
            _ => {},
        }
        let xa = self.integer_operand(a);
        let xb = self.integer_operand(b);
        match (xa, xb) {
            (Ok(x), Ok(y)) => {
                let n = bigint_op(op, &x, &y);
                Ok(Some(self.bigint_to_tagged(n)))
            },
            (Err(true), _) => Ok(None),
            (_, Err(true)) => Ok(None),
            _ => Err(NumericError::NotANumber { got: "non-numeric".to_string() }),
        }
    }

}

/// Calls `Signed::is_negative` for `BigInt`.
#[verifier::external_body]
fn bigint_negative(a: &BigInt) -> (r: bool)
    ensures
        r == (bigint_value(*a) < 0),
{
    num_traits::Signed::is_negative(a)
}

/// The integer divisions.
#[derive(Clone, Copy, PartialEq, Eq, Structural)]
pub enum DivOp {
    Quotient,
    Remainder,
    Modulo,
    FloorQuotient,
    FloorRemainder,
}

/// `x / y` rounded toward negative infinity.
pub open spec fn floor_quot(x: int, y: int) -> int {
    let q = trunc_quot(x, y);
    let r = trunc_rem(x, y);
    if r != 0 && (r < 0) != (y < 0) { q - 1 } else { q }
}

/// The remainder of `floor_quot`.
pub open spec fn floor_rem(x: int, y: int) -> int {
    x - floor_quot(x, y) * y
}

/// What `op` makes of `x` and a nonzero `y`.
pub open spec fn div_op(op: DivOp, x: int, y: int) -> int {
    match op {
        DivOp::Quotient => trunc_quot(x, y),
        DivOp::Remainder => trunc_rem(x, y),
        DivOp::Modulo => floor_mod(x, y),
        DivOp::FloorQuotient => floor_quot(x, y),
        DivOp::FloorRemainder => floor_rem(x, y),
    }
}

impl Heap {
    /// The integer `tv` stands for: an exact integer, or a rational whose
    /// denominator is one.
    pub open spec fn integral_value_of(&self, tv: TaggedValue) -> Option<int> {
        match self.exact_integer_of(tv) {
            Some(x) => Some(x),
            None => match tv {
                TaggedValue::Object(i) => match self.object_slots()[i as int] {
                    HeapObjectData::Rational(q) => if ratio_denom(q) == 1 {
                        Some(ratio_numer(q))
                    } else {
                        None
                    },
                    _ => None,
                },
                _ => None,
            },
        }
    }

    /// Whether `tv` is an inexact real.
    pub open spec fn is_inexact_real(&self, tv: TaggedValue) -> bool {
        match tv {
            TaggedValue::Object(i) => self.object_slots()[i as int] is Real,
            _ => false,
        }
    }

    /// The big integer `tv` stands for, as `integral_value_of` says, or,
    /// when it stands for none, whether it is an inexact real.
    fn integral_operand(&self, tv: TaggedValue) -> (r: Result<BigInt, bool>)
        requires
            self.valid_value(tv),
        ensures
            match r {
                Ok(b) => self.integral_value_of(tv) == Some(bigint_value(b)),
                Err(inexact) => self.integral_value_of(tv) is None && inexact == self.is_inexact_real(tv),
            },
    {
        match self.integer_operand(tv) {
            Ok(b) => Ok(b),
            Err(_) => match tv {
                TaggedValue::Object(_) => match self.get_object(tv) {
                    HeapObjectData::Rational(q) => {
                        if crate::heap::equality::rational_integer(q) {
                            Ok(rational_numer(q))
                        } else {
                            Err(false)
                        }
                    },
                    HeapObjectData::Real(_) => Err(true),
                    _ => Err(false),
                },
                _ => Err(false),
            },
        }
    }

    /// `op` on two integers (exact, or rationals over one), the result
    /// normalized; `DivisionByZero` for a zero divisor; `Ok(None)` when an
    /// operand is an inexact real, left to the caller; `NotInteger` when an
    /// operand is no integer.
    pub fn integer_division(&mut self, op: DivOp, a: TaggedValue, b: TaggedValue) -> (r: Result<Option<TaggedValue>, NumericError>)
        requires
            old(self).wf(),
            old(self).valid_value(a),
            old(self).valid_value(b),
            old(self).can_alloc_object(),
        ensures
            final(self).wf(),
            final(self).arenas_extend(old(self)),
            match (old(self).integral_value_of(a), old(self).integral_value_of(b)) {
                (Some(x), Some(y)) => if y == 0 {
                    *final(self) == *old(self) && r == Err::<Option<TaggedValue>, NumericError>(
                        NumericError::DivisionByZero,
                    )
                } else {
                    r matches Ok(Some(t)) && final(self).holds_integer(t, div_op(op, x, y)) && final(self).grew_by_integer(old(self), t)
                },
                _ => *final(self) == *old(self) && if old(self).is_inexact_real(a) || old(self).is_inexact_real(b) {
                    r == Ok::<Option<TaggedValue>, NumericError>(None)
                } else {
                    r matches Err(NumericError::NotInteger { .. })
                },
            },
    {
        match (a, b) {
            (TaggedValue::Fixnum(x), TaggedValue::Fixnum(y)) if TaggedValue::fits_fixnum(x)
                && TaggedValue::fits_fixnum(y) && (op == DivOp::Quotient || op == DivOp::Remainder || op
                == DivOp::Modulo) => {
                if y == 0 {
                    return Err(NumericError::DivisionByZero);
                }
                let ax: u64 = if x < 0 { (-x) as u64 } else { x as u64 };
                let ay: u64 = if y < 0 { (-y) as u64 } else { y as u64 };
                let q: u64 = ax / ay;
                let rm: u64 = ax % ay;
                proof {
                    assert(ax as int == (if x < 0 { -(x as int) } else { x as int }));
                    assert(ay as int == (if y < 0 { -(y as int) } else { y as int }));
                    assert(q <= ax) by (nonlinear_arith)
                        requires ay >= 1, q == ax / ay;
                    assert(rm < ay);
                }
                let v: i64 = match op {
                    DivOp::Quotient => if (x < 0) == (y < 0) {
                        q as i64
                    } else {
                        -(q as i64)
                    },
                    DivOp::Remainder => if x < 0 {
                        -(rm as i64)
                    } else {
                        rm as i64
                    },
                    _ => {
                        let rv: i64 = if x < 0 { -(rm as i64) } else { rm as i64 };
                        if rv == 0 || (rv > 0) == (y > 0) {
                            rv
                        } else {
                            rv + y
                        }
                    },
                };
                if TaggedValue::fits_fixnum(v) {
                    return Ok(Some(TaggedValue::fixnum(v)));
                }
                let n = crate::heap::equality::bigint_from(v);
                return Ok(Some(self.bigint_to_tagged(n)));
            },
            _ => {},
        }
        let xa = self.integral_operand(a);
        let xb = self.integral_operand(b);
        match (xa, xb) {
            (Ok(x), Ok(y)) => {
                if crate::heap::equality::bigint_zero(&y) {
                    return Err(NumericError::DivisionByZero);
                }
                let n = match op {
                    DivOp::Quotient => bigint_quotient(&x, &y),
                    DivOp::Remainder => bigint_remainder(&x, &y),
                    DivOp::Modulo => {
                        let rm = bigint_remainder(&x, &y);
                        if crate::heap::equality::bigint_zero(&rm) || bigint_negative(&rm) == bigint_negative(&y) {
                            rm
                        } else {
                            bigint_sum(&rm, &y)
                        }
                    },
                    _ => {
                        let q = bigint_quotient(&x, &y);
                        let rm = bigint_remainder(&x, &y);
                        let fq = if !crate::heap::equality::bigint_zero(&rm) && bigint_negative(&rm)
                            != bigint_negative(&y) {
                            bigint_difference(&q, &crate::heap::equality::bigint_from(1))
                        } else {
                            q
                        };
                        if op == DivOp::FloorQuotient {
                            fq
                        } else {
                            bigint_difference(&x, &bigint_product(&fq, &y))
                        }
                    },
                };
                Ok(Some(self.bigint_to_tagged(n)))
            },
            (Err(true), _) => Ok(None),
            (_, Err(true)) => Ok(None),
            _ => Err(NumericError::NotInteger { got: "non-integer".to_string() }),
        }
    }

    /// `quotient`: `a / b` rounded toward zero; see `integer_division`.
    pub fn numeric_quotient(&mut self, a: TaggedValue, b: TaggedValue) -> (r: Result<Option<TaggedValue>, NumericError>)
        requires
            old(self).wf(),
            old(self).valid_value(a),
            old(self).valid_value(b),
            old(self).can_alloc_object(),
        ensures
            final(self).wf(),
            final(self).arenas_extend(old(self)),
            match (old(self).integral_value_of(a), old(self).integral_value_of(b)) {
                (Some(x), Some(y)) => if y == 0 {
                    *final(self) == *old(self) && r == Err::<Option<TaggedValue>, NumericError>(
                        NumericError::DivisionByZero,
                    )
                } else {
                    r matches Ok(Some(t)) && final(self).holds_integer(t, trunc_quot(x, y)) && final(self).grew_by_integer(old(self), t)
                },
                _ => *final(self) == *old(self) && if old(self).is_inexact_real(a) || old(self).is_inexact_real(b) {
                    r == Ok::<Option<TaggedValue>, NumericError>(None)
                } else {
                    r matches Err(NumericError::NotInteger { .. })
                },
            },
    {
        self.integer_division(DivOp::Quotient, a, b)
    }

    /// `remainder`: the remainder of `quotient`, with the sign of `a`; see
    /// `integer_division`.
    pub fn numeric_remainder(&mut self, a: TaggedValue, b: TaggedValue) -> (r: Result<Option<TaggedValue>, NumericError>)
        requires
            old(self).wf(),
            old(self).valid_value(a),
            old(self).valid_value(b),
            old(self).can_alloc_object(),
        ensures
            final(self).wf(),
            final(self).arenas_extend(old(self)),
            match (old(self).integral_value_of(a), old(self).integral_value_of(b)) {
                (Some(x), Some(y)) => if y == 0 {
                    *final(self) == *old(self) && r == Err::<Option<TaggedValue>, NumericError>(
                        NumericError::DivisionByZero,
                    )
                } else {
                    r matches Ok(Some(t)) && final(self).holds_integer(t, trunc_rem(x, y)) && final(self).grew_by_integer(old(self), t)
                },
                _ => *final(self) == *old(self) && if old(self).is_inexact_real(a) || old(self).is_inexact_real(b) {
                    r == Ok::<Option<TaggedValue>, NumericError>(None)
                } else {
                    r matches Err(NumericError::NotInteger { .. })
                },
            },
    {
        self.integer_division(DivOp::Remainder, a, b)
    }

    /// `modulo`: the remainder with the sign of `b`; see
    /// `integer_division`.
    pub fn numeric_modulo(&mut self, a: TaggedValue, b: TaggedValue) -> (r: Result<Option<TaggedValue>, NumericError>)
        requires
            old(self).wf(),
            old(self).valid_value(a),
            old(self).valid_value(b),
            old(self).can_alloc_object(),
        ensures
            final(self).wf(),
            final(self).arenas_extend(old(self)),
            match (old(self).integral_value_of(a), old(self).integral_value_of(b)) {
                (Some(x), Some(y)) => if y == 0 {
                    *final(self) == *old(self) && r == Err::<Option<TaggedValue>, NumericError>(
                        NumericError::DivisionByZero,
                    )
                } else {
                    r matches Ok(Some(t)) && final(self).holds_integer(t, floor_mod(x, y)) && final(self).grew_by_integer(old(self), t)
                },
                _ => *final(self) == *old(self) && if old(self).is_inexact_real(a) || old(self).is_inexact_real(b) {
                    r == Ok::<Option<TaggedValue>, NumericError>(None)
                } else {
                    r matches Err(NumericError::NotInteger { .. })
                },
            },
    {
        self.integer_division(DivOp::Modulo, a, b)
    }

    /// `floor-quotient`: `a / b` rounded toward negative infinity; see
    /// `integer_division`.
    pub fn numeric_floor_quotient(&mut self, a: TaggedValue, b: TaggedValue) -> (r: Result<Option<TaggedValue>, NumericError>)
        requires
            old(self).wf(),
            old(self).valid_value(a),
            old(self).valid_value(b),
            old(self).can_alloc_object(),
        ensures
            final(self).wf(),
            final(self).arenas_extend(old(self)),
            match (old(self).integral_value_of(a), old(self).integral_value_of(b)) {
                (Some(x), Some(y)) => if y == 0 {
                    *final(self) == *old(self) && r == Err::<Option<TaggedValue>, NumericError>(
                        NumericError::DivisionByZero,
                    )
                } else {
                    r matches Ok(Some(t)) && final(self).holds_integer(t, floor_quot(x, y)) && final(self).grew_by_integer(old(self), t)
                },
                _ => *final(self) == *old(self) && if old(self).is_inexact_real(a) || old(self).is_inexact_real(b) {
                    r == Ok::<Option<TaggedValue>, NumericError>(None)
                } else {
                    r matches Err(NumericError::NotInteger { .. })
                },
            },
    {
        self.integer_division(DivOp::FloorQuotient, a, b)
    }

    /// `floor-remainder`: `a` less `b` times `floor-quotient`; see
    /// `integer_division`.
    pub fn numeric_floor_remainder(&mut self, a: TaggedValue, b: TaggedValue) -> (r: Result<Option<TaggedValue>, NumericError>)
        requires
            old(self).wf(),
            old(self).valid_value(a),
            old(self).valid_value(b),
            old(self).can_alloc_object(),
        ensures
            final(self).wf(),
            final(self).arenas_extend(old(self)),
            match (old(self).integral_value_of(a), old(self).integral_value_of(b)) {
                (Some(x), Some(y)) => if y == 0 {
                    *final(self) == *old(self) && r == Err::<Option<TaggedValue>, NumericError>(
                        NumericError::DivisionByZero,
                    )
                } else {
                    r matches Ok(Some(t)) && final(self).holds_integer(t, floor_rem(x, y)) && final(self).grew_by_integer(old(self), t)
                },
                _ => *final(self) == *old(self) && if old(self).is_inexact_real(a) || old(self).is_inexact_real(b) {
                    r == Ok::<Option<TaggedValue>, NumericError>(None)
                } else {
                    r matches Err(NumericError::NotInteger { .. })
                },
            },
    {
        self.integer_division(DivOp::FloorRemainder, a, b)
    }
}

/// The magnitude of `x`.
pub open spec fn magnitude(x: int) -> nat {
    if x < 0 { (-x) as nat } else { x as nat }
}

/// The greatest common divisor of `a` and `b`, by Euclid's algorithm.
pub open spec fn gcd(a: nat, b: nat) -> nat
    decreases b,
{
    if b == 0 {
        a
    } else {
        gcd(b, a % b)
    }
}

/// The greatest common divisor of the magnitudes in `s`, taken left to
/// right from zero.
pub open spec fn gcd_fold(s: Seq<int>) -> nat
    decreases s.len(),
{
    if s.len() == 0 {
        0
    } else {
        gcd(gcd_fold(s.drop_last()), magnitude(s.last()))
    }
}

/// `gcd` of two magnitudes held in `u64`s.
fn gcd_u64(a: u64, b: u64) -> (r: u64)
    ensures
        r == gcd(a as nat, b as nat),
{
    let mut x = a;
    let mut y = b;
    while y != 0
        invariant
            gcd(x as nat, y as nat) == gcd(a as nat, b as nat),
        decreases y,
    {
        let t = y;
        y = x % y;
        x = t;
    }
    x
}

/// The greatest common divisor of two fixnums' magnitudes.
fn gcd_i64(a: i64, b: i64) -> (r: i64)
    requires
        -0x1000_0000_0000_0000 <= a <= 0x1000_0000_0000_0000,
        -0x1000_0000_0000_0000 <= b <= 0x1000_0000_0000_0000,
    ensures
        r == gcd(magnitude(a as int), magnitude(b as int)),
        0 <= r <= 0x1000_0000_0000_0000,
{
    let ax: u64 = if a < 0 { (-a) as u64 } else { a as u64 };
    let bx: u64 = if b < 0 { (-b) as u64 } else { b as u64 };
    let g = gcd_u64(ax, bx);
    proof {
        lemma_gcd_bounded(ax as nat, bx as nat);
    }
    g as i64
}

/// A gcd is no larger than the larger of its arguments.
proof fn lemma_gcd_bounded(a: nat, b: nat)
    ensures
        gcd(a, b) <= (if a < b { b } else { a }),
    decreases b,
{
    if b > 0 {
        lemma_gcd_bounded(b, a % b);
    }
}

/// The magnitude of a big integer.
fn bigint_magnitude(a: &BigInt) -> (r: BigInt)
    ensures
        bigint_value(r) == magnitude(bigint_value(*a)),
{
    if bigint_negative(a) {
        bigint_negation(a)
    } else {
        bigint_copy(a)
    }
}

/// `gcd` of two big integers' magnitudes.
fn gcd_bigint(a: &BigInt, b: &BigInt) -> (r: BigInt)
    ensures
        bigint_value(r) == gcd(magnitude(bigint_value(*a)), magnitude(bigint_value(*b))),
{
    let mut x = bigint_magnitude(a);
    let mut y = bigint_magnitude(b);
    while !crate::heap::equality::bigint_zero(&y)
        invariant
            bigint_value(x) >= 0,
            bigint_value(y) >= 0,
            gcd(bigint_value(x) as nat, bigint_value(y) as nat) == gcd(
                magnitude(bigint_value(*a)),
                magnitude(bigint_value(*b)),
            ),
        decreases bigint_value(y),
    {
        let t = bigint_copy(&y);
        y = bigint_remainder(&x, &y);
        x = t;
    }
    x
}

impl Heap {
    /// The integers `args` stand for, as `integral_value_of` says, when each
    /// stands for one.
    pub open spec fn integral_values_of(&self, args: Seq<TaggedValue>) -> Option<Seq<int>> {
        if forall|k: int| 0 <= k < args.len() ==> (#[trigger] self.integral_value_of(args[k])) is Some {
            Some(Seq::new(args.len(), |k: int| self.integral_value_of(args[k]).unwrap()))
        } else {
            None
        }
    }

    /// `gcd` of integers (exact, or rationals over one): the greatest common
    /// divisor of their magnitudes, zero for none; `Ok(None)` when an
    /// argument is an inexact real, left to the caller; `NotInteger` when one
    /// is no integer.
    pub fn gcd_many(&mut self, args: &[TaggedValue]) -> (r: Result<Option<TaggedValue>, NumericError>)
        requires
            old(self).wf(),
            old(self).all_valid(args@),
            old(self).can_alloc_object(),
        ensures
            final(self).wf(),
            final(self).arenas_extend(old(self)),
            match old(self).integral_values_of(args@) {
                Some(vs) => r matches Ok(Some(t)) && final(self).holds_integer(t, gcd_fold(vs) as int)
                    && final(self).grew_by_integer(old(self), t),
                None => *final(self) == *old(self) && if exists|k: int|
                    0 <= k < args@.len() && old(self).is_inexact_real(#[trigger] args@[k]) {
                    r == Ok::<Option<TaggedValue>, NumericError>(None)
                } else {
                    r matches Err(NumericError::NotInteger { .. })
                },
            },
    {
        let ghost h0 = *self;
        let mut acc = crate::heap::equality::bigint_from(0);
        let mut small: u64 = 0;
        let mut all_small = true;
        let mut other = false;
        let mut bad = false;
        let ghost mut vs: Seq<int> = Seq::empty();
        let mut k: usize = 0;
        while k < args.len()
            invariant
                *self == h0,
                self.wf(),
                self.all_valid(args@),
                k <= args@.len(),
                !bad && !other ==> vs.len() == k && forall|j: int| 0 <= j < k ==> self.integral_value_of(
                    #[trigger] args@[j],
                ) == Some(vs[j]),
                !bad && !other ==> bigint_value(acc) == gcd_fold(vs),
                !bad && !other && all_small ==> small as int == gcd_fold(vs) && forall|j: int|
                    0 <= j < k ==> #[trigger] args@[j] is Fixnum && spec_fits_fixnum(vs[j]),
                other == exists|j: int| 0 <= j < k && self.is_inexact_real(#[trigger] args@[j]),
                bad ==> exists|j: int| 0 <= j < k && self.integral_value_of(#[trigger] args@[j]) is None,
                !bad ==> forall|j: int| 0 <= j < k && !self.is_inexact_real(#[trigger] args@[j]) ==> self.integral_value_of(args@[j]) is Some,
                small <= 0x1000_0000_0000_0000,
            decreases args@.len() - k,
        {
            assert(self.valid_value(args@[k as int]));
            match self.integral_operand(args[k]) {
                Ok(n) => {
                    if !bad && !other {
                        proof {
                            assert(vs.push(bigint_value(n)).drop_last() =~= vs);
                        }
                        if all_small {
                            match args[k] {
                                TaggedValue::Fixnum(x) => {
                                    if TaggedValue::fits_fixnum(x) {
                                        let g = gcd_i64(small as i64, x);
                                        small = g as u64;
                                    } else {
                                        all_small = false;
                                    }
                                },
                                _ => {
                                    all_small = false;
                                },
                            }
                        }
                        acc = gcd_bigint(&acc, &n);
                        proof {
                            vs = vs.push(bigint_value(n));
                        }
                    }
                },
                Err(o) => {
                    if o {
                        other = true;
                    } else {
                        bad = true;
                    }
                },
            }
            k = k + 1;
        }
        if other {
            proof {
                let j = choose|j: int| 0 <= j < k && self.is_inexact_real(#[trigger] args@[j]);
                assert(self.integral_value_of(args@[j]) is None);
            }
            return Ok(None);
        }
        if bad {
            proof {
                let j = choose|j: int| 0 <= j < k && self.integral_value_of(#[trigger] args@[j]) is None;
                assert(self.integral_value_of(args@[j]) is None);
            }
            return Err(NumericError::NotInteger { got: "non-integer".to_string() });
        }
        proof {
            assert(vs =~= Seq::new(args@.len(), |j: int| self.integral_value_of(args@[j]).unwrap()));
        }
        if all_small && small <= 0x0fff_ffff_ffff_ffff {
            return Ok(Some(TaggedValue::fixnum(small as i64)));
        }
        Ok(Some(self.bigint_to_tagged(acc)))
    }
}

/// No integer squares to 2^63.
proof fn lemma_square_not_two_pow_63(b: int)
    ensures
        b * b != 0x8000_0000_0000_0000,
{
    if -3037000499 <= b <= 3037000499 {
        assert(b * b <= 9223372030926249001) by (nonlinear_arith)
            requires
                -3037000499 <= b <= 3037000499,
        ;
    } else {
        assert(b * b >= 9223372037000250000) by (nonlinear_arith)
            requires
                b < -3037000499 || b > 3037000499,
        ;
    }
}

/// A value outside the `i64` range stays outside it when multiplied by a
/// positive integer.
proof fn lemma_scaled_out_of_range(x: int, p: int)
    requires
        x > i64::MAX || x < i64::MIN,
        p >= 1,
    ensures
        x * p > i64::MAX || x * p < i64::MIN,
{
    if x > i64::MAX {
        assert(x * p >= x) by (nonlinear_arith)
            requires
                x > 0,
                p >= 1,
        ;
    } else {
        assert(x * p <= x) by (nonlinear_arith)
            requires
                x < 0,
                p >= 1,
        ;
    }
}

/// `base` to the power `exp`, when `exp` is at most 62 and the power is an
/// `i64`; `None` otherwise.
fn checked_pow_i64(base: i64, exp: u64) -> (r: Option<i64>)
    ensures
        r == (if exp <= 62 && i64::MIN <= pow(base as int, exp as nat) <= i64::MAX {
            Some(pow(base as int, exp as nat) as i64)
        } else {
            None::<i64>
        }),
{
    if exp > 62 {
        return None;
    }
    let ghost target = pow(base as int, exp as nat);
    let mut result: i64 = 1;
    let mut b = base;
    let mut e = exp;
    proof {
        lemma_pow1(base as int);
        broadcast use vstd::arithmetic::power::lemma_pow0;
    }
    while e > 0
        invariant
            target == pow(base as int, exp as nat),
            exp <= 62,
            result * pow(b as int, e as nat) == target,
            (b == 0) == (base == 0),
            base != 0 ==> result != 0,
        decreases e,
    {
        let ghost r0 = result;
        let ghost b0 = b;
        let ghost e0 = e;
        proof {
            lemma_pow_adds(b0 as int, (e0 % 2) as nat, (2 * (e0 / 2)) as nat);
            lemma_square_is_pow2(b0 as int);
            lemma_pow_multiplies(b0 as int, 2, (e0 / 2) as nat);
            assert(pow(b0 as int, (2 * (e0 / 2)) as nat) == pow(b0 * b0, (e0 / 2) as nat));
            lemma_pow_positive_square(b0 as int, (e0 / 2) as nat);
        }
        if e % 2 == 1 {
            proof {
                lemma_pow1(b0 as int);
                assert(target == (r0 * b0) * pow(b0 * b0, (e0 / 2) as nat)) by (nonlinear_arith)
                    requires
                        r0 * pow(b0 as int, e0 as nat) == target,
                        pow(b0 as int, e0 as nat) == pow(b0 as int, 1) * pow(b0 as int, (2 * (e0 / 2)) as nat),
                        pow(b0 as int, 1) == b0,
                        pow(b0 as int, (2 * (e0 / 2)) as nat) == pow(b0 * b0, (e0 / 2) as nat),
                ;
            }
            match result.checked_mul(b) {
                Some(v) => {
                    proof {
                        if base != 0 {
                            assert(r0 * b0 != 0) by (nonlinear_arith)
                                requires
                                    r0 != 0,
                                    b0 != 0,
                            ;
                        }
                    }
                    result = v;
                },
                None => {
                    proof {
                        lemma_scaled_out_of_range(r0 * b0, pow(b0 * b0, (e0 / 2) as nat));
                    }
                    return None;
                },
            }
        } else {
            proof {
                lemma_pow0(b0 as int);
                assert(target == r0 * pow(b0 * b0, (e0 / 2) as nat)) by (nonlinear_arith)
                    requires
                        r0 * pow(b0 as int, e0 as nat) == target,
                        pow(b0 as int, e0 as nat) == pow(b0 as int, 0) * pow(b0 as int, (2 * (e0 / 2)) as nat),
                        pow(b0 as int, 0) == 1,
                        pow(b0 as int, (2 * (e0 / 2)) as nat) == pow(b0 * b0, (e0 / 2) as nat),
                ;
            }
        }
        let ghost r1 = result;
        e = e / 2;
        if e > 0 {
            match b.checked_mul(b) {
                Some(v) => {
                    proof {
                        if b0 != 0 {
                            assert(b0 * b0 != 0) by (nonlinear_arith)
                                requires
                                    b0 != 0,
                            ;
                        }
                    }
                    b = v;
                },
                None => {
                    proof {
                        assert(b0 != 0) by {
                            if b0 == 0 {
                                assert(b0 * b0 == 0);
                            }
                        }
                        assert(r1 != 0);
                        assert(b0 * b0 > 0) by (nonlinear_arith)
                            requires
                                b0 != 0,
                        ;
                        lemma_square_not_two_pow_63(b0 as int);
                        lemma_pow_increases((b0 * b0) as nat, 1, e as nat);
                        lemma_pow1(b0 * b0);
                        let p = pow(b0 * b0, e as nat);
                        assert(p >= b0 * b0);
                        assert(b0 * b0 > 0x8000_0000_0000_0000) by (nonlinear_arith)
                            requires
                                b0 * b0 > i64::MAX,
                                b0 * b0 != 0x8000_0000_0000_0000,
                        ;
                        assert(r1 * p > i64::MAX || r1 * p < i64::MIN) by (nonlinear_arith)
                            requires
                                r1 != 0,
                                p > 0x8000_0000_0000_0000,
                        ;
                    }
                    return None;
                },
            }
        } else {
            proof {
                lemma_pow0(b0 * b0);
                assert(r1 * pow(b0 as int, 0) == r1) by {
                    lemma_pow0(b0 as int);
                }
            }
        }
    }
    proof {
        lemma_pow0(b as int);
    }
    Some(result)
}

/// An even power is positive when the base is not zero.
proof fn lemma_pow_positive_square(b: int, k: nat)
    ensures
        b != 0 ==> pow(b * b, k) >= 1,
{
    if b != 0 {
        assert(b * b > 0) by (nonlinear_arith)
            requires
                b != 0,
        ;
        lemma_pow_positive(b * b, k);
    }
}

/// Calls `BigInt::pow`.
#[verifier::external_body]
fn bigint_power(a: &BigInt, e: u32) -> (r: BigInt)
    ensures
        bigint_value(r) == pow(bigint_value(*a), e as nat),
{
    a.pow(e)
}

impl Heap {
    /// Whether `tv` is an inexact real or a complex number.
    pub open spec fn is_real_or_complex(&self, tv: TaggedValue) -> bool {
        match tv {
            TaggedValue::Object(i) => match self.object_slots()[i as int] {
                HeapObjectData::Real(_) => true,
                HeapObjectData::Complex { .. } => true,
                _ => false,
            },
            _ => false,
        }
    }

    /// `base`, the exact number `bq` is, to the power `m`: one for zero,
    /// `base` itself for one, otherwise the power normalized, taken with
    /// `m`'s low 32 bits (a fixnum base's power up to the 62nd is exact).
    fn exact_power(&mut self, base: TaggedValue, bq: Ratio<BigInt>, m: u64) -> (t: TaggedValue)
        requires
            old(self).wf(),
            old(self).valid_value(base),
            old(self).can_alloc_object(),
            old(self).exact_value_of(base) == Some((ratio_numer(bq), ratio_denom(bq))),
            ratio_denom(bq) > 0,
        ensures
            final(self).wf(),
            final(self).arenas_extend(old(self)),
            final(self).grew_by_number(old(self), t),
            m == 1 ==> t == base && *final(self) == *old(self),
            m != 1 ==> final(self).holds_exact(
                t,
                pow(ratio_numer(bq), (m % 0x1_0000_0000) as nat),
                pow(ratio_denom(bq), (m % 0x1_0000_0000) as nat),
            ),
    {
        proof {
            lemma_pow0(ratio_numer(bq));
            lemma_pow0(ratio_denom(bq));
        }
        if m == 0 {
            let one = TaggedValue::fixnum(1);
            proof {
                self.lemma_integer_is_exact(one, 1);
            }
            return one;
        }
        if m == 1 {
            return base;
        }
        let e32: u32 = m as u32;
        proof {
            assert(e32 as int == m % 0x1_0000_0000) by (bit_vector)
                requires
                    e32 == m as u32,
            ;
            lemma1_pow((m % 0x1_0000_0000) as nat);
        }
        match self.integer_operand(base) {
            Ok(x) => {
                let t = match base {
                    TaggedValue::Fixnum(b) => {
                        match checked_pow_i64(b, m) {
                            Some(v) => {
                                let n = crate::heap::equality::bigint_from(v);
                                self.bigint_to_tagged(n)
                            },
                            None => {
                                let big = bigint_power(&x, e32);
                                self.bigint_to_tagged(big)
                            },
                        }
                    },
                    _ => {
                        let big = bigint_power(&x, e32);
                        self.bigint_to_tagged(big)
                    },
                };
                proof {
                    self.lemma_integer_is_exact(t, pow(bigint_value(x), (m % 0x1_0000_0000) as nat));
                }
                t
            },
            Err(_) => {
                let nn = bigint_power(&rational_numer(&bq), e32);
                let dd = bigint_power(&rational_denom(&bq), e32);
                proof {
                    lemma_pow_positive(ratio_denom(bq), e32 as nat);
                }
                let q = rational_new(nn, dd);
                self.rational_to_tagged(q, Ghost(bigint_value(nn)), Ghost(bigint_value(dd)))
            },
        }
    }

    /// `expt` on exact numbers: one to any power that is not inexact is
    /// one; an exact base to an exact integer power that an `i64` holds is
    /// that power, normalized, taken with the exponent's magnitude's low 32
    /// bits (a fixnum base's power up to the 62nd is exact), and a negative
    /// power is one over it, `DivisionByZero` when that is zero. `Ok(None)`
    /// when an operand is an inexact real, a complex number or a rational
    /// power, or the exponent is larger, left to the caller; `NotReal` when
    /// an operand is no number.
    pub fn numeric_expt(&mut self, base: TaggedValue, power: TaggedValue) -> (r: Result<Option<TaggedValue>, NumericError>)
        requires
            old(self).wf(),
            old(self).valid_value(base),
            old(self).valid_value(power),
            old(self).can_alloc_object(),
        ensures
            final(self).wf(),
            final(self).arenas_extend(old(self)),
            if base == TaggedValue::Fixnum(1) {
                *final(self) == *old(self) && r == if old(self).is_real_or_complex(power) {
                    Ok::<Option<TaggedValue>, NumericError>(None)
                } else {
                    Ok(Some(TaggedValue::Fixnum(1)))
                }
            } else {
                match (old(self).exact_value_of(base), old(self).exact_integer_of(power)) {
                    (Some(p), Some(n)) => if i64::MIN <= n <= i64::MAX {
                        let e = (magnitude(n) % 0x1_0000_0000) as nat;
                        if n == 1 {
                            *final(self) == *old(self) && r == Ok::<Option<TaggedValue>, NumericError>(Some(base))
                        } else if n >= 0 {
                            r matches Ok(Some(t)) && final(self).holds_exact(t, pow(p.0, e), pow(p.1, e))
                                && final(self).grew_by_number(old(self), t)
                        } else if pow(p.0, e) == 0 {
                            r == Err::<Option<TaggedValue>, NumericError>(NumericError::DivisionByZero)
                        } else {
                            r matches Ok(Some(t)) && final(self).holds_exact(
                                t,
                                frac_div((1, 1), (pow(p.0, e), pow(p.1, e))).0,
                                frac_div((1, 1), (pow(p.0, e), pow(p.1, e))).1,
                            )
                        }
                    } else {
                        *final(self) == *old(self) && r == Ok::<Option<TaggedValue>, NumericError>(None)
                    },
                    _ => *final(self) == *old(self) && if (old(self).exact_value_of(base) is None
                        && !old(self).is_other_number(base)) || (old(self).exact_integer_of(power) is None
                        && !old(self).is_other_number(power)) {
                        r matches Err(NumericError::NotReal { .. })
                    } else {
                        r == Ok::<Option<TaggedValue>, NumericError>(None)
                    },
                }
            },
    {
        if base == TaggedValue::fixnum(1) {
            let inexact = match power {
                TaggedValue::Object(_) => match self.get_object(power) {
                    HeapObjectData::Real(_) => true,
                    HeapObjectData::Complex { .. } => true,
                    _ => false,
                },
                _ => false,
            };
            if inexact {
                return Ok(None);
            }
            return Ok(Some(TaggedValue::fixnum(1)));
        }
        let pb = self.rational_operand(base);
        let xp = self.integer_operand(power);
        match (pb, xp) {
            (Ok(bq), Ok(n)) => {
                let e = match bigint_to_i64(&n) {
                    Some(e) => e,
                    None => {
                        return Ok(None);
                    },
                };
                if e >= 0 {
                    let t = self.exact_power(base, bq, e as u64);
                    return Ok(Some(t));
                }
                let m: u64 = if e == i64::MIN {
                    0x8000_0000_0000_0000u64
                } else {
                    (-e) as u64
                };
                let e32: u32 = m as u32;
                proof {
                    assert(e32 as int == m % 0x1_0000_0000) by (bit_vector)
                        requires
                            e32 == m as u32,
                    ;
                    assert(m as int == magnitude(e as int));
                }
                let nn = bigint_power(&rational_numer(&bq), e32);
                let dd = bigint_power(&rational_denom(&bq), e32);
                if crate::heap::equality::bigint_zero(&nn) {
                    return Err(NumericError::DivisionByZero);
                }
                let ghost pp = (bigint_value(nn), bigint_value(dd));
                let ghost fd = frac_div((1, 1), pp);
                let q = rational_new(dd, nn);
                proof {
                    let nq = ratio_numer(q);
                    let dq = ratio_denom(q);
                    assert(nq * pp.0 == pp.1 * dq);
                    if pp.0 < 0 {
                        assert(nq * (-(1 * pp.0)) == (-(1 * pp.1)) * dq) by (nonlinear_arith)
                            requires
                                nq * pp.0 == pp.1 * dq,
                        ;
                    } else {
                        assert(nq * (1 * pp.0) == (1 * pp.1) * dq) by (nonlinear_arith)
                            requires
                                nq * pp.0 == pp.1 * dq,
                        ;
                    }
                }
                let t = self.rational_to_tagged(q, Ghost(fd.0), Ghost(fd.1));
                Ok(Some(t))
            },
            (Err(false), _) => Err(NumericError::NotReal { got: "non-numeric".to_string() }),
            (_, Err(false)) => Err(NumericError::NotReal { got: "non-numeric".to_string() }),
            _ => Ok(None),
        }
    }
}

/// Calls `PartialOrd for BigInt`: whether `a` is less than `b`.
#[verifier::external_body]
fn bigint_less(a: &BigInt, b: &BigInt) -> (r: bool)
    ensures
        r == (bigint_value(*a) < bigint_value(*b)),
{
    a < b
}

/// The numeric relations.
#[derive(Clone, Copy, PartialEq, Eq, Structural)]
pub enum Relation {
    Equal,
    Less,
    LessOrEqual,
    Greater,
    GreaterOrEqual,
}

/// Whether `x` and `y` stand in `rel`.
pub open spec fn relates(rel: Relation, x: int, y: int) -> bool {
    match rel {
        Relation::Equal => x == y,
        Relation::Less => x < y,
        Relation::LessOrEqual => x <= y,
        Relation::Greater => x > y,
        Relation::GreaterOrEqual => x >= y,
    }
}

impl Heap {
    /// `rel` between two exact integers; `Ok(None)` when an operand is
    /// another number, left to the caller; for an operand that is no
    /// number, `NotANumber` from `=` and `NotReal` from the orderings.
    pub fn integer_relation(&self, rel: Relation, a: TaggedValue, b: TaggedValue) -> (r: Result<Option<bool>, NumericError>)
        requires
            self.wf(),
            self.valid_value(a),
            self.valid_value(b),
        ensures
            match (self.exact_integer_of(a), self.exact_integer_of(b)) {
                (Some(x), Some(y)) => r == Ok::<Option<bool>, NumericError>(Some(relates(rel, x, y))),
                _ => if self.is_other_number(a) || self.is_other_number(b) {
                    r == Ok::<Option<bool>, NumericError>(None)
                } else if rel == Relation::Equal {
                    r matches Err(NumericError::NotANumber { .. })
                } else {
                    r matches Err(NumericError::NotReal { .. })
                },
            },
    {
        let xa = self.integer_operand(a);
        let xb = self.integer_operand(b);
        match (xa, xb) {
            (Ok(x), Ok(y)) => {
                let lt = bigint_less(&x, &y);
                let gt = bigint_less(&y, &x);
                Ok(Some(match rel {
                    Relation::Equal => !lt && !gt,
                    Relation::Less => lt,
                    Relation::LessOrEqual => !gt,
                    Relation::Greater => gt,
                    Relation::GreaterOrEqual => !lt,
                }))
            },
            (Err(true), _) => Ok(None),
            (_, Err(true)) => Ok(None),
            _ => if rel == Relation::Equal {
                Err(NumericError::NotANumber { got: "non-numeric".to_string() })
            } else {
                Err(NumericError::NotReal { got: "non-numeric".to_string() })
            },
        }
    }
}


impl Heap {
    /// Whether `tv` is a rational or an inexact real: a number that rounds
    /// by fraction or floating point, which this library leaves to its
    /// caller.
    pub open spec fn is_ratio_or_real(&self, tv: TaggedValue) -> bool {
        match tv {
            TaggedValue::Object(i) => match self.object_slots()[i as int] {
                HeapObjectData::Rational(_) => true,
                HeapObjectData::Real(_) => true,
                _ => false,
            },
            _ => false,
        }
    }

}

/// The least common multiple of `a` and `b`: zero when either is zero.
pub open spec fn lcm(a: nat, b: nat) -> nat {
    if a == 0 || b == 0 {
        0
    } else {
        (a / gcd(a, b)) * b
    }
}

/// A positive argument keeps the greatest common divisor positive.
proof fn lemma_gcd_positive(a: nat, b: nat)
    requires
        a > 0 || b > 0,
    ensures
        gcd(a, b) > 0,
    decreases b,
{
    if b > 0 {
        lemma_gcd_positive(b, a % b);
    }
}

/// How `lcm_many` ends: with a value, leaving the arguments to the caller,
/// or rejecting a non-integer.
pub enum LcmEnd {
    Value(nat),
    LeftToCaller,
    NotInteger,
}

impl Heap {
    /// What `lcm_many` makes of `args` from position `k` on, the multiple
    /// so far being `acc`: arguments are taken left to right, and a zero,
    /// so far or in the next integer, ends the scan at zero.
    pub open spec fn lcm_scan(&self, args: Seq<TaggedValue>, k: int, acc: nat) -> LcmEnd
        decreases args.len() - k,
    {
        if k < 0 || k >= args.len() {
            LcmEnd::Value(acc)
        } else {
            match self.integral_value_of(args[k]) {
                Some(x) => if acc == 0 || x == 0 {
                    LcmEnd::Value(0)
                } else {
                    self.lcm_scan(args, k + 1, lcm(acc, magnitude(x)))
                },
                None => if self.is_inexact_real(args[k]) {
                    LcmEnd::LeftToCaller
                } else {
                    LcmEnd::NotInteger
                },
            }
        }
    }

    /// What `lcm_many` makes of `args`: one for none, else the scan from
    /// the first argument's magnitude.
    pub open spec fn lcm_of(&self, args: Seq<TaggedValue>) -> LcmEnd {
        if args.len() == 0 {
            LcmEnd::Value(1)
        } else {
            match self.integral_value_of(args[0]) {
                Some(x) => self.lcm_scan(args, 1, magnitude(x)),
                None => if self.is_inexact_real(args[0]) {
                    LcmEnd::LeftToCaller
                } else {
                    LcmEnd::NotInteger
                },
            }
        }
    }

    /// `lcm` of integers (exact, or rationals over one): the least common
    /// multiple of their magnitudes, one for none, zero as soon as a zero is
    /// met; `Ok(None)` when an argument reached is an inexact real, left to
    /// the caller; `NotInteger` when one reached is no integer.
    pub fn lcm_many(&mut self, args: &[TaggedValue]) -> (r: Result<Option<TaggedValue>, NumericError>)
        requires
            old(self).wf(),
            old(self).all_valid(args@),
            old(self).can_alloc_object(),
        ensures
            final(self).wf(),
            final(self).arenas_extend(old(self)),
            match old(self).lcm_of(args@) {
                LcmEnd::Value(v) => r matches Ok(Some(t)) && final(self).holds_integer(t, v as int)
                    && final(self).grew_by_integer(old(self), t),
                LcmEnd::LeftToCaller => *final(self) == *old(self) && r == Ok::<
                    Option<TaggedValue>,
                    NumericError,
                >(None),
                LcmEnd::NotInteger => *final(self) == *old(self) && r matches Err(
                    NumericError::NotInteger { .. },
                ),
            },
    {
        if args.len() == 0 {
            return Ok(Some(TaggedValue::fixnum(1)));
        }
        assert(self.valid_value(args@[0]));
        let first = match self.integral_operand(args[0]) {
            Ok(b) => b,
            Err(other) => {
                if other {
                    return Ok(None);
                }
                return Err(NumericError::NotInteger { got: "non-integer".to_string() });
            },
        };
        let ghost h0 = *self;
        let mut acc = bigint_magnitude(&first);
        let mut k: usize = 1;
        while k < args.len()
            invariant
                *self == h0,
                self.wf(),
                self.all_valid(args@),
                1 <= k <= args@.len(),
                bigint_value(acc) >= 0,
                self.lcm_of(args@) == self.lcm_scan(args@, k as int, bigint_value(acc) as nat),
            decreases args@.len() - k,
        {
            assert(self.valid_value(args@[k as int]));
            match self.integral_operand(args[k]) {
                Ok(x) => {
                    if crate::heap::equality::bigint_zero(&acc) || crate::heap::equality::bigint_zero(&x) {
                        return Ok(Some(TaggedValue::fixnum(0)));
                    }
                    let m = bigint_magnitude(&x);
                    let g = gcd_bigint(&acc, &m);
                    proof {
                        lemma_gcd_positive(bigint_value(acc) as nat, bigint_value(m) as nat);
                    }
                    let q = bigint_quotient(&acc, &g);
                    let next = bigint_product(&q, &m);
                    proof {
                        let a = bigint_value(acc) as nat;
                        let b = bigint_value(m) as nat;
                        assert(bigint_value(q) == a / gcd(a, b));
                        assert(lcm(a, b) == (a / gcd(a, b)) * b);
                        assert(bigint_value(next) == lcm(a, b));
                    }
                    acc = next;
                },
                Err(other) => {
                    if other {
                        return Ok(None);
                    }
                    return Err(NumericError::NotInteger { got: "non-integer".to_string() });
                },
            }
            k = k + 1;
        }
        Ok(Some(self.bigint_to_tagged(acc)))
    }
}


/// `p op q` for exact numbers given as numerator and denominator: over the
/// product of the denominators.
pub open spec fn frac_op(op: IntOp, p: (int, int), q: (int, int)) -> (int, int) {
    match op {
        IntOp::Add => (p.0 * q.1 + q.0 * p.1, p.1 * q.1),
        IntOp::Sub => (p.0 * q.1 - q.0 * p.1, p.1 * q.1),
        IntOp::Mul => (p.0 * q.0, p.1 * q.1),
    }
}

/// `p / q` for exact numbers given as numerator and denominator, `q` not
/// zero; the denominator keeps the sign of the given ones.
pub open spec fn frac_div(p: (int, int), q: (int, int)) -> (int, int) {
    if q.0 < 0 {
        (-(p.0 * q.1), -(p.1 * q.0))
    } else {
        (p.0 * q.1, p.1 * q.0)
    }
}

impl Heap {
    /// The exact number `tv` is, as numerator and denominator: an exact
    /// integer over one, or a rational's own terms (whose denominator the
    /// heap keeps positive).
    pub open spec fn exact_value_of(&self, tv: TaggedValue) -> Option<(int, int)> {
        match self.exact_integer_of(tv) {
            Some(x) => Some((x, 1)),
            None => match tv {
                TaggedValue::Object(i) => match self.object_slots()[i as int] {
                    HeapObjectData::Rational(q) => Some((ratio_numer(q), ratio_denom(q))),
                    _ => None,
                },
                _ => None,
            },
        }
    }

    /// `tv` is an exact number as the heap normalizes them: an integer as
    /// `holds_integer` says, any other as a rational in lowest terms with a
    /// denominator above one.
    pub open spec fn exact_normalized(&self, tv: TaggedValue) -> bool {
        match self.exact_integer_of(tv) {
            Some(x) => self.holds_integer(tv, x),
            None => match tv {
                TaggedValue::Object(i) => match self.object_slots()[i as int] {
                    HeapObjectData::Rational(q) => ratio_reduced(q) && ratio_denom(q) > 1,
                    _ => false,
                },
                _ => false,
            },
        }
    }

    /// `tv` holds the exact number `n / d`, normalized.
    pub open spec fn holds_exact(&self, tv: TaggedValue, n: int, d: int) -> bool {
        &&& self.exact_normalized(tv)
        &&& match self.exact_value_of(tv) {
            Some(v) => v.0 * d == n * v.1,
            None => false,
        }
    }

    /// `self` is `old`, or `old` with one big integer or one rational
    /// allocated as `r`.
    pub open spec fn grew_by_number(&self, old: &Heap, r: TaggedValue) -> bool {
        ||| *self == *old
        ||| exists|n: BigInt| self.object_allocated(old, r, HeapObjectData::BigInt(n))
        ||| exists|q: Ratio<BigInt>| self.object_allocated(old, r, HeapObjectData::Rational(q))
    }

    /// An integer the heap holds normalized is the exact number it is.
    proof fn lemma_integer_is_exact(&self, t: TaggedValue, v: int)
        requires
            self.holds_integer(t, v),
        ensures
            self.exact_integer_of(t) == Some(v),
            self.exact_value_of(t) == Some((v, 1int)),
            self.holds_exact(t, v, 1),
    {
    }

    /// The rational an exact number `tv` is, or, when it is none, whether
    /// it is an inexact real or a complex number.
    fn rational_operand(&self, tv: TaggedValue) -> (r: Result<Ratio<BigInt>, bool>)
        requires
            self.wf(),
            self.valid_value(tv),
        ensures
            match r {
                Ok(q) => self.exact_value_of(tv) == Some((ratio_numer(q), ratio_denom(q))) && ratio_denom(q) > 0,
                Err(inexact) => self.exact_value_of(tv) is None && inexact == self.is_real_or_complex(tv),
            },
    {
        match self.integer_operand(tv) {
            Ok(b) => Ok(rational_from_integer(b)),
            Err(_) => match tv {
                TaggedValue::Object(_) => {
                    proof {
                        assert(crate::heap::object_sound(self.object_slots()[tv.spec_heap_index() as int]));
                    }
                    match self.get_object(tv) {
                        HeapObjectData::Rational(q) => Ok(rational_copy(q)),
                        HeapObjectData::Real(_) => Err(true),
                        HeapObjectData::Complex { .. } => Err(true),
                        _ => Err(false),
                    }
                },
                _ => Err(false),
            },
        }
    }

    /// The heap's value for the reduced ratio `q`, which stands for `n / d`:
    /// an integer when the denominator is one, `q` itself otherwise.
    fn rational_to_tagged(&mut self, q: Ratio<BigInt>, Ghost(n): Ghost<int>, Ghost(d): Ghost<int>) -> (r: TaggedValue)
        requires
            old(self).wf(),
            old(self).can_alloc_object(),
            ratio_reduced(q),
            ratio_numer(q) * d == n * ratio_denom(q),
        ensures
            final(self).wf(),
            final(self).arenas_extend(old(self)),
            final(self).holds_exact(r, n, d),
            final(self).grew_by_number(old(self), r),
    {
        if crate::heap::equality::rational_integer(&q) {
            let k = rational_numer(&q);
            let t = self.bigint_to_tagged(k);
            proof {
                self.lemma_integer_is_exact(t, bigint_value(k));
            }
            t
        } else {
            let ghost qq = q;
            let t = self.alloc_rational(q);
            proof {
                assert(self.object_slots()[t.spec_heap_index() as int] == HeapObjectData::Rational(qq));
            }
            t
        }
    }

    /// `op` on two exact numbers, integers or rationals: the result
    /// normalized; `Ok(None)` when an operand is an inexact real or a
    /// complex number, whose arithmetic is floating point, left to the
    /// caller; `NotANumber` when an operand is no number.
    pub fn exact_arith(&mut self, op: IntOp, a: TaggedValue, b: TaggedValue) -> (r: Result<Option<TaggedValue>, NumericError>)
        requires
            old(self).wf(),
            old(self).valid_value(a),
            old(self).valid_value(b),
            old(self).can_alloc_object(),
        ensures
            (old(self).object_of(a) matches Some(HeapObjectData::Complex { .. }) || old(self).object_of(b) matches Some(
                HeapObjectData::Complex { .. },
            )) ==> *final(self) == *old(self) && r == Ok::<Option<TaggedValue>, NumericError>(None),
            final(self).wf(),
            final(self).arenas_extend(old(self)),
            match (old(self).exact_value_of(a), old(self).exact_value_of(b)) {
                (Some(p), Some(q)) => r matches Ok(Some(t)) && final(self).holds_exact(t, frac_op(op, p, q).0, frac_op(op, p, q).1)
                    && final(self).grew_by_number(old(self), t),
                _ => *final(self) == *old(self) && if old(self).is_real_or_complex(a) || old(self).is_real_or_complex(b) {
                    r == Ok::<Option<TaggedValue>, NumericError>(None)
                } else {
                    r matches Err(NumericError::NotANumber { .. })
                },
            },
    {
        let ghost h0 = *self;
        match self.integer_arith(op, a, b) {
            Ok(Some(t)) => {
                proof {
                    let x = h0.exact_integer_of(a).unwrap();
                    let y = h0.exact_integer_of(b).unwrap();
                    self.lemma_integer_is_exact(t, int_op(op, x, y));
                    assert(x * 1 == x && y * 1 == y && 1int * 1int == 1int);
                }
                return Ok(Some(t));
            },
            Ok(None) => {},
            Err(e) => {
                return Err(e);
            },
        }
        let pa = self.rational_operand(a);
        let pb = self.rational_operand(b);
        match (pa, pb) {
            (Ok(x), Ok(y)) => {
                let q = match op {
                    IntOp::Add => rational_sum(&x, &y),
                    IntOp::Sub => rational_difference(&x, &y),
                    IntOp::Mul => rational_product(&x, &y),
                };
                let ghost f = frac_op(op, (ratio_numer(x), ratio_denom(x)), (ratio_numer(y), ratio_denom(y)));
                let t = self.rational_to_tagged(q, Ghost(f.0), Ghost(f.1));
                Ok(Some(t))
            },
            (Err(true), _) => Ok(None),
            (_, Err(true)) => Ok(None),
            _ => Err(NumericError::NotANumber { got: "non-numeric".to_string() }),
        }
    }

    /// `rel` between two exact numbers, integers or rationals, compared by
    /// cross products over their positive denominators; `Ok(None)` when an
    /// operand is an inexact real or a complex number, left to the caller;
    /// for an operand that is no number, `NotANumber` from `=` and
    /// `NotReal` from the orderings.
    pub fn exact_relation(&self, rel: Relation, a: TaggedValue, b: TaggedValue) -> (r: Result<Option<bool>, NumericError>)
        requires
            self.wf(),
            self.valid_value(a),
            self.valid_value(b),
        ensures
            match (self.exact_value_of(a), self.exact_value_of(b)) {
                (Some(p), Some(q)) => r == Ok::<Option<bool>, NumericError>(Some(relates(rel, p.0 * q.1, q.0 * p.1))),
                _ => if self.is_real_or_complex(a) || self.is_real_or_complex(b) {
                    r == Ok::<Option<bool>, NumericError>(None)
                } else if rel == Relation::Equal {
                    r matches Err(NumericError::NotANumber { .. })
                } else {
                    r matches Err(NumericError::NotReal { .. })
                },
            },
    {
        match self.integer_relation(rel, a, b) {
            Ok(Some(v)) => {
                proof {
                    let x = self.exact_integer_of(a).unwrap();
                    let y = self.exact_integer_of(b).unwrap();
                    assert(x * 1 == x && y * 1 == y);
                }
                return Ok(Some(v));
            },
            Ok(None) => {},
            Err(e) => {
                return Err(e);
            },
        }
        let pa = self.rational_operand(a);
        let pb = self.rational_operand(b);
        match (pa, pb) {
            (Ok(x), Ok(y)) => {
                let v = match rel {
                    Relation::Equal => crate::heap::equality::rationals_eq(&x, &y),
                    Relation::Less => rational_less(&x, &y),
                    Relation::LessOrEqual => !rational_less(&y, &x),
                    Relation::Greater => rational_less(&y, &x),
                    Relation::GreaterOrEqual => !rational_less(&x, &y),
                };
                Ok(Some(v))
            },
            (Err(true), _) => Ok(None),
            (_, Err(true)) => Ok(None),
            _ => if rel == Relation::Equal {
                Err(NumericError::NotANumber { got: "non-numeric".to_string() })
            } else {
                Err(NumericError::NotReal { got: "non-numeric".to_string() })
            },
        }
    }
}

impl Heap {
    /// `a + b` on exact numbers; see `exact_arith`.
    pub fn numeric_add(&mut self, a: TaggedValue, b: TaggedValue) -> (r: Result<Option<TaggedValue>, NumericError>)
        requires
            old(self).wf(),
            old(self).valid_value(a),
            old(self).valid_value(b),
            old(self).can_alloc_object(),
        ensures
            (old(self).object_of(a) matches Some(HeapObjectData::Complex { .. }) || old(self).object_of(b) matches Some(
                HeapObjectData::Complex { .. },
            )) ==> *final(self) == *old(self) && r == Ok::<Option<TaggedValue>, NumericError>(None),
            final(self).wf(),
            final(self).arenas_extend(old(self)),
            match (old(self).exact_value_of(a), old(self).exact_value_of(b)) {
                (Some(p), Some(q)) => r matches Ok(Some(t)) && final(self).holds_exact(t, p.0 * q.1 + q.0 * p.1, p.1 * q.1)
                    && final(self).grew_by_number(old(self), t),
                _ => *final(self) == *old(self) && if old(self).is_real_or_complex(a) || old(self).is_real_or_complex(b) {
                    r == Ok::<Option<TaggedValue>, NumericError>(None)
                } else {
                    r matches Err(NumericError::NotANumber { .. })
                },
            },
    {
        self.exact_arith(IntOp::Add, a, b)
    }

    /// `a - b` on exact numbers; see `exact_arith`.
    pub fn numeric_sub(&mut self, a: TaggedValue, b: TaggedValue) -> (r: Result<Option<TaggedValue>, NumericError>)
        requires
            old(self).wf(),
            old(self).valid_value(a),
            old(self).valid_value(b),
            old(self).can_alloc_object(),
        ensures
            (old(self).object_of(a) matches Some(HeapObjectData::Complex { .. }) || old(self).object_of(b) matches Some(
                HeapObjectData::Complex { .. },
            )) ==> *final(self) == *old(self) && r == Ok::<Option<TaggedValue>, NumericError>(None),
            final(self).wf(),
            final(self).arenas_extend(old(self)),
            match (old(self).exact_value_of(a), old(self).exact_value_of(b)) {
                (Some(p), Some(q)) => r matches Ok(Some(t)) && final(self).holds_exact(t, p.0 * q.1 - q.0 * p.1, p.1 * q.1)
                    && final(self).grew_by_number(old(self), t),
                _ => *final(self) == *old(self) && if old(self).is_real_or_complex(a) || old(self).is_real_or_complex(b) {
                    r == Ok::<Option<TaggedValue>, NumericError>(None)
                } else {
                    r matches Err(NumericError::NotANumber { .. })
                },
            },
    {
        self.exact_arith(IntOp::Sub, a, b)
    }

    /// `a * b` on exact numbers; see `exact_arith`.
    pub fn numeric_mul(&mut self, a: TaggedValue, b: TaggedValue) -> (r: Result<Option<TaggedValue>, NumericError>)
        requires
            old(self).wf(),
            old(self).valid_value(a),
            old(self).valid_value(b),
            old(self).can_alloc_object(),
        ensures
            (old(self).object_of(a) matches Some(HeapObjectData::Complex { .. }) || old(self).object_of(b) matches Some(
                HeapObjectData::Complex { .. },
            )) ==> *final(self) == *old(self) && r == Ok::<Option<TaggedValue>, NumericError>(None),
            final(self).wf(),
            final(self).arenas_extend(old(self)),
            match (old(self).exact_value_of(a), old(self).exact_value_of(b)) {
                (Some(p), Some(q)) => r matches Ok(Some(t)) && final(self).holds_exact(t, p.0 * q.0, p.1 * q.1)
                    && final(self).grew_by_number(old(self), t),
                _ => *final(self) == *old(self) && if old(self).is_real_or_complex(a) || old(self).is_real_or_complex(b) {
                    r == Ok::<Option<TaggedValue>, NumericError>(None)
                } else {
                    r matches Err(NumericError::NotANumber { .. })
                },
            },
    {
        self.exact_arith(IntOp::Mul, a, b)
    }

    /// `=` on exact numbers; see `exact_relation`.
    pub fn numeric_eq_cmp(&self, a: TaggedValue, b: TaggedValue) -> (r: Result<Option<bool>, NumericError>)
        requires
            self.wf(),
            self.valid_value(a),
            self.valid_value(b),
        ensures
            match (self.exact_value_of(a), self.exact_value_of(b)) {
                (Some(p), Some(q)) => r == Ok::<Option<bool>, NumericError>(Some(p.0 * q.1 == q.0 * p.1)),
                _ => if self.is_real_or_complex(a) || self.is_real_or_complex(b) {
                    r == Ok::<Option<bool>, NumericError>(None)
                } else {
                    r matches Err(NumericError::NotANumber { .. })
                },
            },
    {
        self.exact_relation(Relation::Equal, a, b)
    }

    /// `<` on exact numbers; see `exact_relation`.
    pub fn numeric_lt(&self, a: TaggedValue, b: TaggedValue) -> (r: Result<Option<bool>, NumericError>)
        requires
            self.wf(),
            self.valid_value(a),
            self.valid_value(b),
        ensures
            match (self.exact_value_of(a), self.exact_value_of(b)) {
                (Some(p), Some(q)) => r == Ok::<Option<bool>, NumericError>(Some(p.0 * q.1 < q.0 * p.1)),
                _ => if self.is_real_or_complex(a) || self.is_real_or_complex(b) {
                    r == Ok::<Option<bool>, NumericError>(None)
                } else {
                    r matches Err(NumericError::NotReal { .. })
                },
            },
    {
        self.exact_relation(Relation::Less, a, b)
    }

    /// `<=` on exact numbers; see `exact_relation`.
    pub fn numeric_le(&self, a: TaggedValue, b: TaggedValue) -> (r: Result<Option<bool>, NumericError>)
        requires
            self.wf(),
            self.valid_value(a),
            self.valid_value(b),
        ensures
            match (self.exact_value_of(a), self.exact_value_of(b)) {
                (Some(p), Some(q)) => r == Ok::<Option<bool>, NumericError>(Some(p.0 * q.1 <= q.0 * p.1)),
                _ => if self.is_real_or_complex(a) || self.is_real_or_complex(b) {
                    r == Ok::<Option<bool>, NumericError>(None)
                } else {
                    r matches Err(NumericError::NotReal { .. })
                },
            },
    {
        self.exact_relation(Relation::LessOrEqual, a, b)
    }

    /// `>` on exact numbers; see `exact_relation`.
    pub fn numeric_gt(&self, a: TaggedValue, b: TaggedValue) -> (r: Result<Option<bool>, NumericError>)
        requires
            self.wf(),
            self.valid_value(a),
            self.valid_value(b),
        ensures
            match (self.exact_value_of(a), self.exact_value_of(b)) {
                (Some(p), Some(q)) => r == Ok::<Option<bool>, NumericError>(Some(p.0 * q.1 > q.0 * p.1)),
                _ => if self.is_real_or_complex(a) || self.is_real_or_complex(b) {
                    r == Ok::<Option<bool>, NumericError>(None)
                } else {
                    r matches Err(NumericError::NotReal { .. })
                },
            },
    {
        self.exact_relation(Relation::Greater, a, b)
    }

    /// `>=` on exact numbers; see `exact_relation`.
    pub fn numeric_ge(&self, a: TaggedValue, b: TaggedValue) -> (r: Result<Option<bool>, NumericError>)
        requires
            self.wf(),
            self.valid_value(a),
            self.valid_value(b),
        ensures
            match (self.exact_value_of(a), self.exact_value_of(b)) {
                (Some(p), Some(q)) => r == Ok::<Option<bool>, NumericError>(Some(p.0 * q.1 >= q.0 * p.1)),
                _ => if self.is_real_or_complex(a) || self.is_real_or_complex(b) {
                    r == Ok::<Option<bool>, NumericError>(None)
                } else {
                    r matches Err(NumericError::NotReal { .. })
                },
            },
    {
        self.exact_relation(Relation::GreaterOrEqual, a, b)
    }

    /// `-a` on an exact number, the result normalized; `Ok(None)` for an inexact real or a complex number, left to the caller; `NotANumber` for no number.
    pub fn numeric_neg(&mut self, a: TaggedValue) -> (r: Result<Option<TaggedValue>, NumericError>)
        requires
            old(self).wf(),
            old(self).valid_value(a),
            old(self).can_alloc_object(),
        ensures
            old(self).object_of(a) matches Some(HeapObjectData::Complex { .. }) ==> *final(self) == *old(self) && r
                == Ok::<Option<TaggedValue>, NumericError>(None),
            final(self).wf(),
            final(self).arenas_extend(old(self)),
            match old(self).exact_value_of(a) {
                Some(p) => r matches Ok(Some(t)) && final(self).holds_exact(t, -p.0, p.1)
                    && final(self).grew_by_number(old(self), t),
                None => *final(self) == *old(self) && if old(self).is_real_or_complex(a) {
                    r == Ok::<Option<TaggedValue>, NumericError>(None)
                } else {
                    r matches Err(NumericError::NotANumber { .. })
                },
            },
    {
        self.exact_arith(IntOp::Sub, TaggedValue::fixnum(0), a)
    }

    /// `|a|` on an exact number, the result normalized; `Ok(None)` for an inexact real or a complex number, left to the caller; `NotANumber` for no number.
    pub fn numeric_abs(&mut self, a: TaggedValue) -> (r: Result<Option<TaggedValue>, NumericError>)
        requires
            old(self).wf(),
            old(self).valid_value(a),
            old(self).can_alloc_object(),
        ensures
            old(self).object_of(a) matches Some(HeapObjectData::Complex { .. }) ==> *final(self) == *old(self) && r
                == Ok::<Option<TaggedValue>, NumericError>(None),
            final(self).wf(),
            final(self).arenas_extend(old(self)),
            match old(self).exact_value_of(a) {
                Some(p) => r matches Ok(Some(t)) && final(self).holds_exact(t, magnitude(p.0) as int, p.1)
                    && final(self).grew_by_number(old(self), t),
                None => *final(self) == *old(self) && if old(self).is_real_or_complex(a) {
                    r == Ok::<Option<TaggedValue>, NumericError>(None)
                } else {
                    r matches Err(NumericError::NotANumber { .. })
                },
            },
    {
        let ghost h0 = *self;
        let zero = TaggedValue::fixnum(0);
        assert(h0.exact_value_of(zero) == Some((0int, 1int)));
        match self.exact_relation(Relation::Less, a, zero) {
            Ok(Some(true)) => {
                let r = self.exact_arith(IntOp::Sub, zero, a);
                proof {
                    let p = h0.exact_value_of(a).unwrap();
                    if let Ok(Some(t)) = r {
                        let v = self.exact_value_of(t).unwrap();
                        assert(v.0 * p.1 == (magnitude(p.0) as int) * v.1) by (nonlinear_arith)
                            requires
                                v.0 * (1 * p.1) == (0 * p.1 - p.0 * 1) * v.1,
                                p.0 * 1 < 0 * p.1,
                        ;
                    }
                }
                r
            },
            Ok(Some(false)) => {
                let r = self.exact_arith(IntOp::Add, a, zero);
                proof {
                    let p = h0.exact_value_of(a).unwrap();
                    if let Ok(Some(t)) = r {
                        let v = self.exact_value_of(t).unwrap();
                        assert(v.0 * p.1 == (magnitude(p.0) as int) * v.1) by (nonlinear_arith)
                            requires
                                v.0 * (p.1 * 1) == (p.0 * 1 + 0 * p.1) * v.1,
                                !(p.0 * 1 < 0 * p.1),
                        ;
                    }
                }
                r
            },
            Ok(None) => Ok(None),
            Err(_) => Err(NumericError::NotANumber { got: "non-numeric".to_string() }),
        }
    }

    /// `a * a` on an exact number, the result normalized; `Ok(None)` for an inexact real or a complex number, left to the caller; `NotANumber` for no number.
    pub fn numeric_square(&mut self, a: TaggedValue) -> (r: Result<Option<TaggedValue>, NumericError>)
        requires
            old(self).wf(),
            old(self).valid_value(a),
            old(self).can_alloc_object(),
        ensures
            old(self).object_of(a) matches Some(HeapObjectData::Complex { .. }) ==> *final(self) == *old(self) && r
                == Ok::<Option<TaggedValue>, NumericError>(None),
            final(self).wf(),
            final(self).arenas_extend(old(self)),
            match old(self).exact_value_of(a) {
                Some(p) => r matches Ok(Some(t)) && final(self).holds_exact(t, p.0 * p.0, p.1 * p.1)
                    && final(self).grew_by_number(old(self), t),
                None => *final(self) == *old(self) && if old(self).is_real_or_complex(a) {
                    r == Ok::<Option<TaggedValue>, NumericError>(None)
                } else {
                    r matches Err(NumericError::NotANumber { .. })
                },
            },
    {
        self.exact_arith(IntOp::Mul, a, a)
    }

    /// The larger of two exact numbers, `b` when they are equal; `Ok(None)` when an operand is an inexact real or a complex number, left to the caller; `NotReal` when an operand is no number.
    pub fn numeric_max(&mut self, a: TaggedValue, b: TaggedValue) -> (r: Result<Option<TaggedValue>, NumericError>)
        requires
            old(self).wf(),
            old(self).valid_value(a),
            old(self).valid_value(b),
        ensures
            *final(self) == *old(self),
            match (old(self).exact_value_of(a), old(self).exact_value_of(b)) {
                (Some(p), Some(q)) => r == Ok::<Option<TaggedValue>, NumericError>(
                    Some(if p.0 * q.1 > q.0 * p.1 { a } else { b }),
                ),
                _ => if old(self).is_real_or_complex(a) || old(self).is_real_or_complex(b) {
                    r == Ok::<Option<TaggedValue>, NumericError>(None)
                } else {
                    r matches Err(NumericError::NotReal { .. })
                },
            },
    {
        match self.exact_relation(Relation::Greater, a, b) {
            Ok(Some(true)) => Ok(Some(a)),
            Ok(Some(false)) => Ok(Some(b)),
            Ok(None) => Ok(None),
            Err(e) => Err(e),
        }
    }

    /// The smaller of two exact numbers, `b` when they are equal; `Ok(None)` when an operand is an inexact real or a complex number, left to the caller; `NotReal` when an operand is no number.
    pub fn numeric_min(&mut self, a: TaggedValue, b: TaggedValue) -> (r: Result<Option<TaggedValue>, NumericError>)
        requires
            old(self).wf(),
            old(self).valid_value(a),
            old(self).valid_value(b),
        ensures
            *final(self) == *old(self),
            match (old(self).exact_value_of(a), old(self).exact_value_of(b)) {
                (Some(p), Some(q)) => r == Ok::<Option<TaggedValue>, NumericError>(
                    Some(if p.0 * q.1 < q.0 * p.1 { a } else { b }),
                ),
                _ => if old(self).is_real_or_complex(a) || old(self).is_real_or_complex(b) {
                    r == Ok::<Option<TaggedValue>, NumericError>(None)
                } else {
                    r matches Err(NumericError::NotReal { .. })
                },
            },
    {
        match self.exact_relation(Relation::Less, a, b) {
            Ok(Some(true)) => Ok(Some(a)),
            Ok(Some(false)) => Ok(Some(b)),
            Ok(None) => Ok(None),
            Err(e) => Err(e),
        }
    }

    /// `a / b` on exact numbers, the result normalized (`(/ 1 2)` is the
    /// rational one half); `DivisionByZero` when `b` is exact zero and `a`
    /// exact. `Ok(None)` when an operand is an inexact real or a complex
    /// number, or `b` is exact zero and `a` inexact or no number (the answer
    /// there is an inexact real), left to the caller; `NotANumber` when an
    /// operand is no number otherwise.
    pub fn numeric_div(&mut self, a: TaggedValue, b: TaggedValue) -> (r: Result<Option<TaggedValue>, NumericError>)
        requires
            old(self).wf(),
            old(self).valid_value(a),
            old(self).valid_value(b),
            old(self).can_alloc_object(),
        ensures
            (old(self).object_of(a) matches Some(HeapObjectData::Complex { .. }) || old(self).object_of(b) matches Some(
                HeapObjectData::Complex { .. },
            )) ==> *final(self) == *old(self) && r == Ok::<Option<TaggedValue>, NumericError>(None),
            final(self).wf(),
            final(self).arenas_extend(old(self)),
            match (old(self).exact_value_of(a), old(self).exact_value_of(b)) {
                (Some(p), Some(q)) => if q.0 == 0 {
                    *final(self) == *old(self) && r == Err::<Option<TaggedValue>, NumericError>(NumericError::DivisionByZero)
                } else {
                    r matches Ok(Some(t)) && final(self).holds_exact(t, frac_div(p, q).0, frac_div(p, q).1)
                        && final(self).grew_by_number(old(self), t)
                },
                _ => *final(self) == *old(self) && if old(self).is_real_or_complex(a) || old(self).is_real_or_complex(b)
                    || (old(self).exact_value_of(b) matches Some(q) && q.0 == 0) {
                    r == Ok::<Option<TaggedValue>, NumericError>(None)
                } else {
                    r matches Err(NumericError::NotANumber { .. })
                },
            },
    {
        let pa = self.rational_operand(a);
        let pb = self.rational_operand(b);
        match pb {
            Ok(y) => {
                let yn = rational_numer(&y);
                if crate::heap::equality::bigint_zero(&yn) {
                    return match pa {
                        Ok(_) => Err(NumericError::DivisionByZero),
                        Err(_) => Ok(None),
                    };
                }
                match pa {
                    Ok(x) => {
                        let q = rational_quotient(&x, &y);
                        let ghost f = frac_div((ratio_numer(x), ratio_denom(x)), (ratio_numer(y), ratio_denom(y)));
                        proof {
                            let nr = ratio_numer(q);
                            let dr = ratio_denom(q);
                            let u = ratio_denom(x) * ratio_numer(y);
                            let v = ratio_numer(x) * ratio_denom(y);
                            assert(nr * (-u) == (-v) * dr) by (nonlinear_arith)
                                requires
                                    nr * u == v * dr,
                            ;
                        }
                        let t = self.rational_to_tagged(q, Ghost(f.0), Ghost(f.1));
                        Ok(Some(t))
                    },
                    Err(true) => Ok(None),
                    Err(false) => Err(NumericError::NotANumber { got: "non-numeric".to_string() }),
                }
            },
            Err(true) => Ok(None),
            Err(false) => match pa {
                Err(true) => Ok(None),
                _ => Err(NumericError::NotANumber { got: "non-numeric".to_string() }),
            },
        }
    }
}




/// The ways to round a number to an integer.
#[derive(Clone, Copy, PartialEq, Eq, Structural)]
pub enum Rounding {
    Floor,
    Ceiling,
    Truncate,
    Round,
}

/// The floor of the ratio `n / d` (`d > 0`): `n` itself over one, else the
/// quotient toward zero, one less for a negative ratio.
pub open spec fn ratio_floor(n: int, d: int) -> int {
    if d == 1 {
        n
    } else if n < 0 {
        trunc_quot(n, d) - 1
    } else {
        trunc_quot(n, d)
    }
}

/// The ceiling of the ratio `n / d` (`d > 0`): `n` itself over one, else
/// the quotient toward zero, one more for a positive ratio.
pub open spec fn ratio_ceiling(n: int, d: int) -> int {
    if d == 1 {
        n
    } else if n > 0 {
        trunc_quot(n, d) + 1
    } else {
        trunc_quot(n, d)
    }
}

/// The ratio `n / d` (`d > 0`) rounded to the nearest integer, a tie to the
/// even one: the floor, or one more when the fraction left, `(n - f d) / d`,
/// is above a half, or is a half and the floor is odd.
pub open spec fn ratio_round(n: int, d: int) -> int {
    let f = ratio_floor(n, d);
    let twice = 2 * (n - f * d);
    if twice < d {
        f
    } else if twice > d {
        f + 1
    } else if trunc_rem(f, 2) == 0 {
        f
    } else {
        f + 1
    }
}

/// The ratio `n / d` rounded by `mode`.
pub open spec fn rounded(mode: Rounding, n: int, d: int) -> int {
    match mode {
        Rounding::Floor => ratio_floor(n, d),
        Rounding::Ceiling => ratio_ceiling(n, d),
        Rounding::Truncate => trunc_quot(n, d),
        Rounding::Round => ratio_round(n, d),
    }
}

/// The ratio `n / d` rounded by `mode`, `is_int` telling whether `d` is one.
fn rounded_bigint(mode: Rounding, n: &BigInt, d: &BigInt, is_int: bool) -> (k: BigInt)
    requires
        bigint_value(*d) > 0,
        is_int == (bigint_value(*d) == 1),
    ensures
        bigint_value(k) == rounded(mode, bigint_value(*n), bigint_value(*d)),
{
    let zero = crate::heap::equality::bigint_from(0);
    let one = crate::heap::equality::bigint_from(1);
    let two = crate::heap::equality::bigint_from(2);
    let t = bigint_quotient(n, d);
    let fl = if is_int {
        bigint_copy(n)
    } else if bigint_less(n, &zero) {
        bigint_difference(&t, &one)
    } else {
        bigint_copy(&t)
    };
    match mode {
        Rounding::Truncate => t,
        Rounding::Floor => fl,
        Rounding::Ceiling => if is_int {
            bigint_copy(n)
        } else if bigint_less(&zero, n) {
            bigint_sum(&t, &one)
        } else {
            t
        },
        Rounding::Round => {
            let prod = bigint_product(&fl, d);
            let rest = bigint_difference(n, &prod);
            let twice = bigint_product(&two, &rest);
            if bigint_less(&twice, d) {
                fl
            } else if bigint_less(d, &twice) {
                bigint_sum(&fl, &one)
            } else {
                let m = bigint_remainder(&fl, &two);
                if crate::heap::equality::bigint_zero(&m) {
                    fl
                } else {
                    bigint_sum(&fl, &one)
                }
            }
        },
    }
}

impl Heap {
    /// An exact number rounded by `mode`: an exact integer is itself, a
    /// rational's rounding is normalized. `Ok(None)` for an inexact real,
    /// whose rounding is floating point, left to the caller; `NotANumber`
    /// for anything else.
    fn round_exact(&mut self, mode: Rounding, a: TaggedValue) -> (r: Result<Option<TaggedValue>, NumericError>)
        requires
            old(self).wf(),
            old(self).valid_value(a),
            old(self).can_alloc_object(),
        ensures
            final(self).wf(),
            final(self).arenas_extend(old(self)),
            match old(self).exact_value_of(a) {
                Some(p) => if old(self).exact_integer_of(a) is Some {
                    *final(self) == *old(self) && r == Ok::<Option<TaggedValue>, NumericError>(Some(a))
                } else {
                    r matches Ok(Some(t)) && final(self).holds_integer(t, rounded(mode, p.0, p.1))
                        && final(self).grew_by_integer(old(self), t)
                },
                None => *final(self) == *old(self) && if old(self).is_ratio_or_real(a) {
                    r == Ok::<Option<TaggedValue>, NumericError>(None)
                } else {
                    r matches Err(NumericError::NotANumber { .. })
                },
            },
    {
        let terms = match a {
            TaggedValue::Fixnum(_) => {
                return Ok(Some(a));
            },
            TaggedValue::Object(_) => {
                proof {
                    assert(crate::heap::object_sound(self.object_slots()[a.spec_heap_index() as int]));
                }
                match self.get_object(a) {
                    HeapObjectData::BigInt(_) => {
                        return Ok(Some(a));
                    },
                    HeapObjectData::Rational(q) => {
                        let is_int = crate::heap::equality::rational_integer(q);
                        (rational_numer(q), rational_denom(q), is_int)
                    },
                    HeapObjectData::Real(_) => {
                        return Ok(None);
                    },
                    _ => {
                        return Err(NumericError::NotANumber { got: "non-numeric".to_string() });
                    },
                }
            },
            _ => {
                return Err(NumericError::NotANumber { got: "non-numeric".to_string() });
            },
        };
        let (n, d, is_int) = terms;
        let k = rounded_bigint(mode, &n, &d, is_int);
        Ok(Some(self.bigint_to_tagged(k)))
    }

    /// Round toward negative infinity; see `round_exact`.
    pub fn numeric_floor(&mut self, a: TaggedValue) -> (r: Result<Option<TaggedValue>, NumericError>)
        requires
            old(self).wf(),
            old(self).valid_value(a),
            old(self).can_alloc_object(),
        ensures
            final(self).wf(),
            final(self).arenas_extend(old(self)),
            match old(self).exact_value_of(a) {
                Some(p) => if old(self).exact_integer_of(a) is Some {
                    *final(self) == *old(self) && r == Ok::<Option<TaggedValue>, NumericError>(Some(a))
                } else {
                    r matches Ok(Some(t)) && final(self).holds_integer(t, rounded(Rounding::Floor, p.0, p.1))
                        && final(self).grew_by_integer(old(self), t)
                },
                None => *final(self) == *old(self) && if old(self).is_ratio_or_real(a) {
                    r == Ok::<Option<TaggedValue>, NumericError>(None)
                } else {
                    r matches Err(NumericError::NotANumber { .. })
                },
            },
    {
        self.round_exact(Rounding::Floor, a)
    }

    /// Round toward positive infinity; see `round_exact`.
    pub fn numeric_ceiling(&mut self, a: TaggedValue) -> (r: Result<Option<TaggedValue>, NumericError>)
        requires
            old(self).wf(),
            old(self).valid_value(a),
            old(self).can_alloc_object(),
        ensures
            final(self).wf(),
            final(self).arenas_extend(old(self)),
            match old(self).exact_value_of(a) {
                Some(p) => if old(self).exact_integer_of(a) is Some {
                    *final(self) == *old(self) && r == Ok::<Option<TaggedValue>, NumericError>(Some(a))
                } else {
                    r matches Ok(Some(t)) && final(self).holds_integer(t, rounded(Rounding::Ceiling, p.0, p.1))
                        && final(self).grew_by_integer(old(self), t)
                },
                None => *final(self) == *old(self) && if old(self).is_ratio_or_real(a) {
                    r == Ok::<Option<TaggedValue>, NumericError>(None)
                } else {
                    r matches Err(NumericError::NotANumber { .. })
                },
            },
    {
        self.round_exact(Rounding::Ceiling, a)
    }

    /// Round toward zero; see `round_exact`.
    pub fn numeric_truncate(&mut self, a: TaggedValue) -> (r: Result<Option<TaggedValue>, NumericError>)
        requires
            old(self).wf(),
            old(self).valid_value(a),
            old(self).can_alloc_object(),
        ensures
            final(self).wf(),
            final(self).arenas_extend(old(self)),
            match old(self).exact_value_of(a) {
                Some(p) => if old(self).exact_integer_of(a) is Some {
                    *final(self) == *old(self) && r == Ok::<Option<TaggedValue>, NumericError>(Some(a))
                } else {
                    r matches Ok(Some(t)) && final(self).holds_integer(t, rounded(Rounding::Truncate, p.0, p.1))
                        && final(self).grew_by_integer(old(self), t)
                },
                None => *final(self) == *old(self) && if old(self).is_ratio_or_real(a) {
                    r == Ok::<Option<TaggedValue>, NumericError>(None)
                } else {
                    r matches Err(NumericError::NotANumber { .. })
                },
            },
    {
        self.round_exact(Rounding::Truncate, a)
    }

    /// Round to nearest, ties to even; see `round_exact`.
    pub fn numeric_round(&mut self, a: TaggedValue) -> (r: Result<Option<TaggedValue>, NumericError>)
        requires
            old(self).wf(),
            old(self).valid_value(a),
            old(self).can_alloc_object(),
        ensures
            final(self).wf(),
            final(self).arenas_extend(old(self)),
            match old(self).exact_value_of(a) {
                Some(p) => if old(self).exact_integer_of(a) is Some {
                    *final(self) == *old(self) && r == Ok::<Option<TaggedValue>, NumericError>(Some(a))
                } else {
                    r matches Ok(Some(t)) && final(self).holds_integer(t, rounded(Rounding::Round, p.0, p.1))
                        && final(self).grew_by_integer(old(self), t)
                },
                None => *final(self) == *old(self) && if old(self).is_ratio_or_real(a) {
                    r == Ok::<Option<TaggedValue>, NumericError>(None)
                } else {
                    r matches Err(NumericError::NotANumber { .. })
                },
            },
    {
        self.round_exact(Rounding::Round, a)
    }

}

impl Heap {
    /// The numerator of an exact number: an exact integer is its own, a rational's is normalized. `Ok(None)` for an inexact real, left to the caller; `NotANumber` for anything else.
    pub fn numerator(&mut self, a: TaggedValue) -> (r: Result<Option<TaggedValue>, NumericError>)
        requires
            old(self).wf(),
            old(self).valid_value(a),
            old(self).can_alloc_object(),
        ensures
            final(self).wf(),
            final(self).arenas_extend(old(self)),
            match old(self).exact_value_of(a) {
                Some(p) => if old(self).exact_integer_of(a) is Some {
                    *final(self) == *old(self) && r == Ok::<Option<TaggedValue>, NumericError>(Some(a))
                } else {
                    r matches Ok(Some(t)) && final(self).holds_integer(t, p.0)
                        && final(self).grew_by_integer(old(self), t)
                },
                None => *final(self) == *old(self) && if old(self).is_ratio_or_real(a) {
                    r == Ok::<Option<TaggedValue>, NumericError>(None)
                } else {
                    r matches Err(NumericError::NotANumber { .. })
                },
            },
    {
        let part = match a {
            TaggedValue::Fixnum(_) => {
                return Ok(Some(a));
            },
            TaggedValue::Object(_) => match self.get_object(a) {
                HeapObjectData::BigInt(_) => {
                    return Ok(Some(a));
                },
                HeapObjectData::Rational(q) => rational_numer(q),
                HeapObjectData::Real(_) => {
                    return Ok(None);
                },
                _ => {
                    return Err(NumericError::NotANumber { got: "non-numeric".to_string() });
                },
            },
            _ => {
                return Err(NumericError::NotANumber { got: "non-numeric".to_string() });
            },
        };
        Ok(Some(self.bigint_to_tagged(part)))
    }

    /// The denominator of an exact number: one for an exact integer, a rational's normalized. `Ok(None)` for an inexact real, left to the caller; `NotANumber` for anything else.
    pub fn denominator(&mut self, a: TaggedValue) -> (r: Result<Option<TaggedValue>, NumericError>)
        requires
            old(self).wf(),
            old(self).valid_value(a),
            old(self).can_alloc_object(),
        ensures
            final(self).wf(),
            final(self).arenas_extend(old(self)),
            match old(self).exact_value_of(a) {
                Some(p) => if old(self).exact_integer_of(a) is Some {
                    *final(self) == *old(self) && r == Ok::<Option<TaggedValue>, NumericError>(Some(TaggedValue::Fixnum(1)))
                } else {
                    r matches Ok(Some(t)) && final(self).holds_integer(t, p.1)
                        && final(self).grew_by_integer(old(self), t)
                },
                None => *final(self) == *old(self) && if old(self).is_ratio_or_real(a) {
                    r == Ok::<Option<TaggedValue>, NumericError>(None)
                } else {
                    r matches Err(NumericError::NotANumber { .. })
                },
            },
    {
        let part = match a {
            TaggedValue::Fixnum(_) => {
                return Ok(Some(TaggedValue::fixnum(1)));
            },
            TaggedValue::Object(_) => match self.get_object(a) {
                HeapObjectData::BigInt(_) => {
                    return Ok(Some(TaggedValue::fixnum(1)));
                },
                HeapObjectData::Rational(q) => rational_denom(q),
                HeapObjectData::Real(_) => {
                    return Ok(None);
                },
                _ => {
                    return Err(NumericError::NotANumber { got: "non-numeric".to_string() });
                },
            },
            _ => {
                return Err(NumericError::NotANumber { got: "non-numeric".to_string() });
            },
        };
        Ok(Some(self.bigint_to_tagged(part)))
    }

}


/// A complex number is a number this library leaves to its caller's
/// floating-point arithmetic: it has no exact value, and the arithmetic
/// functions answer `Ok(None)` for it rather than rejecting it.
pub proof fn lemma_complex_is_left_to_the_caller(h: &Heap, tv: TaggedValue)
    requires
        h.object_of(tv) matches Some(HeapObjectData::Complex { .. }),
    ensures
        h.exact_value_of(tv) is None,
        h.exact_integer_of(tv) is None,
        h.is_real_or_complex(tv),
        h.is_other_number(tv),
{
}

/// `p` and `q`, given as numerator over a nonzero denominator, stand for
/// the same number.
pub open spec fn same_number(p: (int, int), q: (int, int)) -> bool {
    p.0 * q.1 == q.0 * p.1
}

/// The laws of exact arithmetic, over numbers given as numerator and
/// positive denominator: sums and products do not depend on the order of
/// their operands, zero and one leave a number unchanged, subtracting
/// what was added gives back the number, dividing by what multiplied
/// gives it back, and a number is less than another exactly when their
/// difference is positive.
pub proof fn lemma_exact_arithmetic_laws(p: (int, int), q: (int, int))
    requires
        p.1 > 0,
        q.1 > 0,
    ensures
        same_number(frac_op(IntOp::Add, p, q), frac_op(IntOp::Add, q, p)),
        same_number(frac_op(IntOp::Mul, p, q), frac_op(IntOp::Mul, q, p)),
        same_number(frac_op(IntOp::Add, p, (0, 1)), p),
        same_number(frac_op(IntOp::Mul, p, (1, 1)), p),
        same_number(frac_op(IntOp::Sub, frac_op(IntOp::Add, p, q), q), p),
        same_number(frac_op(IntOp::Sub, p, p), (0, 1)),
        q.0 != 0 ==> same_number(frac_div(frac_op(IntOp::Mul, p, q), q), p),
        (p.0 * q.1 < q.0 * p.1) <==> frac_op(IntOp::Sub, q, p).0 > 0,
        frac_op(IntOp::Add, p, q).1 > 0 && frac_op(IntOp::Mul, p, q).1 > 0,
{
    let (a, b) = p;
    let (c, d) = q;
    assert((a * d + c * b) * (d * b) == (c * b + a * d) * (b * d)) by (nonlinear_arith);
    assert((a * c) * (d * b) == (c * a) * (b * d)) by (nonlinear_arith);
    assert((a * 1 + 0 * b) * b == a * (b * 1)) by (nonlinear_arith);
    assert((a * 1) * b == a * (b * 1)) by (nonlinear_arith);
    assert(((a * d + c * b) * d - c * (b * d)) * b == a * ((b * d) * d)) by (nonlinear_arith);
    assert((a * b - a * b) * 1 == 0 * (b * b)) by (nonlinear_arith);
    if c != 0 {
        let m0 = a * c;
        let m1 = b * d;
        if c < 0 {
            assert((-(m0 * d)) * b == a * (-(m1 * c))) by (nonlinear_arith)
                requires
                    m0 == a * c,
                    m1 == b * d,
            ;
        } else {
            assert((m0 * d) * b == a * (m1 * c)) by (nonlinear_arith)
                requires
                    m0 == a * c,
                    m1 == b * d,
            ;
        }
    }
    assert((a * d < c * b) <==> (c * b - a * d > 0));
    assert(b * d > 0) by (nonlinear_arith)
        requires
            b > 0,
            d > 0,
    ;
}
} // verus!
