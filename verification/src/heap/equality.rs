//! Number predicates and the three equivalences of the language — `eq?`,
//! `eqv?` and `equal?` — over the heap.
//!
//! A complex number's parts, and the elements of pairs, vectors and records,
//! are followed recursively. The heap does not forbid a structure that
//! reaches itself, so each recursion carries a budget: one step per slot the
//! heap holds, which is enough for every structure that ends. A walk that
//! runs out of budget has met a cycle, and answers as a mismatch does.
use vstd::prelude::*;
use num_bigint::BigInt;
use num_rational::BigRational;
use crate::heap::{Heap, HeapObjectData};
use crate::tagged_value::TaggedValue;

verus! {

// ---------------------------------------------------------------------------
// Doubles, by their bits
// ---------------------------------------------------------------------------

/// The biased exponent field of a double.
pub open spec fn real_exponent(bits: u64) -> u64 {
    (bits >> 52u64) & 0x7ffu64
}

/// The fraction field of a double.
pub open spec fn real_fraction(bits: u64) -> u64 {
    bits & 0xf_ffff_ffff_ffffu64
}

/// The double is neither infinite nor a NaN.
pub open spec fn real_bits_finite(bits: u64) -> bool {
    real_exponent(bits) != 0x7ffu64
}

/// The double is an infinity.
pub open spec fn real_bits_infinite(bits: u64) -> bool {
    real_exponent(bits) == 0x7ffu64 && real_fraction(bits) == 0
}

/// The double is a NaN.
pub open spec fn real_bits_nan(bits: u64) -> bool {
    real_exponent(bits) == 0x7ffu64 && real_fraction(bits) != 0
}

/// The double is finite and has no fractional part: a zero, or a normal
/// number whose fraction bits below the binary point are all clear.
pub open spec fn real_bits_integral(bits: u64) -> bool {
    let e = real_exponent(bits);
    let m = real_fraction(bits);
    if e == 0x7ffu64 {
        false
    } else if e == 0 {
        m == 0
    } else if e < 1023 {
        false
    } else if e >= 1075 {
        true
    } else {
        m & (((1u64 << ((1075 - e) as u64)) - 1) as u64) == 0
    }
}

fn exponent_of(bits: u64) -> (r: u64)
    ensures
        r == real_exponent(bits),
        r <= 0x7ff,
{
    let r = (bits >> 52u64) & 0x7ffu64;
    assert(r <= 0x7ff) by (bit_vector)
        requires
            r == (bits >> 52u64) & 0x7ffu64,
    ;
    r
}

fn real_is_finite(bits: u64) -> (r: bool)
    ensures
        r == real_bits_finite(bits),
{
    exponent_of(bits) != 0x7ff
}

fn real_is_infinite(bits: u64) -> (r: bool)
    ensures
        r == real_bits_infinite(bits),
{
    exponent_of(bits) == 0x7ff && bits & 0xf_ffff_ffff_ffffu64 == 0
}

pub(crate) fn real_is_nan(bits: u64) -> (r: bool)
    ensures
        r == real_bits_nan(bits),
{
    exponent_of(bits) == 0x7ff && bits & 0xf_ffff_ffff_ffffu64 != 0
}

fn real_is_integral(bits: u64) -> (r: bool)
    ensures
        r == real_bits_integral(bits),
{
    let e = exponent_of(bits);
    let m = bits & 0xf_ffff_ffff_ffffu64;
    if e == 0x7ff {
        false
    } else if e == 0 {
        m == 0
    } else if e < 1023 {
        false
    } else if e >= 1075 {
        true
    } else {
        let sh: u64 = 1075 - e;
        assert(1u64 << sh >= 1) by (bit_vector)
            requires
                sh < 64,
        ;
        let mask: u64 = (1u64 << sh) - 1;
        m & mask == 0
    }
}

// ---------------------------------------------------------------------------
// What the num crates answer
// ---------------------------------------------------------------------------

/// The big integer `BigInt::from` makes of `n`.
pub uninterp spec fn bigint_from_i64(n: i64) -> BigInt;

/// Whether two rationals compare equal by `PartialEq for Ratio`.
pub uninterp spec fn rationals_equal(a: BigRational, b: BigRational) -> bool;

/// Whether `Zero::is_zero` holds of a big integer.
pub uninterp spec fn bigint_is_zero(n: BigInt) -> bool;

/// Whether `Zero::is_zero` holds of a rational.
pub uninterp spec fn rational_is_zero(q: BigRational) -> bool;

/// Whether `Ratio::is_integer` holds: the denominator is one.
pub uninterp spec fn rational_is_integer(q: BigRational) -> bool;

/// Calls `BigInt::from(i64)`, which makes the big integer of value `n`.
/// The contract names the result, which depends on `n` alone, and says
/// the integer it holds.
#[verifier::external_body]
pub(crate) fn bigint_from(n: i64) -> (r: BigInt)
    ensures
        r == bigint_from_i64(n),
        crate::heap::numeric::bigint_value(r) == n,
{
    BigInt::from(n)
}

/// Calls `PartialEq for BigInt`. num-bigint keeps a big integer normalized
/// (no zero high digits, and the zero sign exactly for zero) and compares
/// sign and digits, so the answer is whether the two values are the same
/// integer: the contract reads that as the values being equal.
#[verifier::external_body]
fn bigints_equal(a: &BigInt, b: &BigInt) -> (r: bool)
    ensures
        r == (*a == *b),
{
    a == b
}

/// Calls `PartialEq for Ratio<BigInt>`, which compares the numbers the two
/// ratios stand for (through `Ord::cmp`, which divides by the denominators,
/// so neither may be zero). The contract names the answer, and says it:
/// the cross products agree.
#[verifier::external_body]
pub(crate) fn rationals_eq(a: &BigRational, b: &BigRational) -> (r: bool)
    requires
        crate::heap::numeric::ratio_denom(*a) != 0,
        crate::heap::numeric::ratio_denom(*b) != 0,
    ensures
        r == rationals_equal(*a, *b),
        r == (crate::heap::numeric::ratio_numer(*a) * crate::heap::numeric::ratio_denom(*b)
            == crate::heap::numeric::ratio_numer(*b) * crate::heap::numeric::ratio_denom(*a)),
{
    a == b
}

/// Calls `Zero::is_zero` for `BigInt`: whether it is zero. The contract names
/// the answer and says it.
#[verifier::external_body]
pub(crate) fn bigint_zero(n: &BigInt) -> (r: bool)
    ensures
        r == bigint_is_zero(*n),
        r == (crate::heap::numeric::bigint_value(*n) == 0),
{
    num_traits::Zero::is_zero(n)
}

/// Calls `Zero::is_zero` for `Ratio<BigInt>`. The contract names the answer.
#[verifier::external_body]
fn rational_zero(q: &BigRational) -> (r: bool)
    ensures
        r == rational_is_zero(*q),
{
    num_traits::Zero::is_zero(q)
}

/// Calls `Ratio::is_integer`, which asks whether the denominator is one.
/// The contract names the answer and says it.
#[verifier::external_body]
pub(crate) fn rational_integer(q: &BigRational) -> (r: bool)
    ensures
        r == rational_is_integer(*q),
        r == (crate::heap::numeric::ratio_denom(*q) == 1),
{
    q.is_integer()
}

// ---------------------------------------------------------------------------
// Number predicates
// ---------------------------------------------------------------------------

impl Heap {
    /// The budget a recursion through complex parts gets.
    pub open spec fn number_budget(&self) -> nat {
        self.object_slots().len()
    }

    /// The budget a recursion through pairs, vectors, records and complex
    /// parts gets.
    pub open spec fn structure_budget(&self) -> nat {
        self.slot_total()
    }

    /// `tv` is a number: a fixnum, or a big integer, rational, real or
    /// complex object.
    pub open spec fn spec_is_number(&self, tv: TaggedValue) -> bool {
        ||| tv is Fixnum
        ||| match self.object_of(tv) {
            Some(HeapObjectData::BigInt(_)) => true,
            Some(HeapObjectData::Rational(_)) => true,
            Some(HeapObjectData::Real(_)) => true,
            Some(HeapObjectData::Complex { .. }) => true,
            _ => false,
        }
    }

    /// `tv` is an exact zero: fixnum zero, or a zero big integer or rational.
    pub open spec fn spec_is_exact_zero(&self, tv: TaggedValue) -> bool {
        match tv {
            TaggedValue::Fixnum(n) => n == 0,
            TaggedValue::Object(_) => match self.object_of(tv) {
                Some(HeapObjectData::BigInt(n)) => bigint_is_zero(n),
                Some(HeapObjectData::Rational(q)) => rational_is_zero(q),
                _ => false,
            },
            _ => false,
        }
    }

    /// `tv` is an inexact number: a real, or a complex with an inexact part,
    /// within `fuel` steps into complex parts.
    pub open spec fn inexact_within(&self, tv: TaggedValue, fuel: nat) -> bool
        decreases fuel,
    {
        match self.object_of(tv) {
            Some(HeapObjectData::Real(_)) => true,
            Some(HeapObjectData::Complex { real: re, imag: im }) => fuel > 0 && (self.inexact_within(
                re,
                (fuel - 1) as nat,
            ) || self.inexact_within(im, (fuel - 1) as nat)),
            _ => false,
        }
    }

    /// `numeric_is_finite`'s answer, within `fuel` steps into complex parts.
    pub open spec fn finite_within(&self, tv: TaggedValue, fuel: nat) -> Option<bool>
        decreases fuel,
    {
        if tv is Fixnum {
            Some(true)
        } else {
            match self.object_of(tv) {
                Some(HeapObjectData::BigInt(_)) => Some(true),
                Some(HeapObjectData::Rational(_)) => Some(true),
                Some(HeapObjectData::Real(bits)) => Some(real_bits_finite(bits)),
                Some(HeapObjectData::Complex { real: re, imag: im }) => Some(
                    fuel > 0 && self.finite_within(re, (fuel - 1) as nat) == Some(true)
                        && self.finite_within(im, (fuel - 1) as nat) == Some(true),
                ),
                _ => None,
            }
        }
    }

    /// `numeric_is_infinite`'s answer, within `fuel` steps into complex
    /// parts.
    pub open spec fn infinite_within(&self, tv: TaggedValue, fuel: nat) -> Option<bool>
        decreases fuel,
    {
        if tv is Fixnum {
            Some(false)
        } else {
            match self.object_of(tv) {
                Some(HeapObjectData::BigInt(_)) => Some(false),
                Some(HeapObjectData::Rational(_)) => Some(false),
                Some(HeapObjectData::Real(bits)) => Some(real_bits_infinite(bits)),
                Some(HeapObjectData::Complex { real: re, imag: im }) => Some(
                    fuel > 0 && (self.infinite_within(re, (fuel - 1) as nat) == Some(true)
                        || self.infinite_within(im, (fuel - 1) as nat) == Some(true)),
                ),
                _ => None,
            }
        }
    }

    /// `numeric_is_nan`'s answer, within `fuel` steps into complex parts.
    pub open spec fn nan_within(&self, tv: TaggedValue, fuel: nat) -> Option<bool>
        decreases fuel,
    {
        if tv is Fixnum {
            Some(false)
        } else {
            match self.object_of(tv) {
                Some(HeapObjectData::BigInt(_)) => Some(false),
                Some(HeapObjectData::Rational(_)) => Some(false),
                Some(HeapObjectData::Real(bits)) => Some(real_bits_nan(bits)),
                Some(HeapObjectData::Complex { real: re, imag: im }) => Some(
                    fuel > 0 && (self.nan_within(re, (fuel - 1) as nat) == Some(true)
                        || self.nan_within(im, (fuel - 1) as nat) == Some(true)),
                ),
                _ => None,
            }
        }
    }

    /// The `integer?` of R7RS, within `fuel` steps into complex parts.
    pub open spec fn integer_r7rs_within(&self, tv: TaggedValue, fuel: nat) -> bool
        decreases fuel,
    {
        if tv is Fixnum {
            true
        } else {
            match self.object_of(tv) {
                Some(HeapObjectData::BigInt(_)) => true,
                Some(HeapObjectData::Rational(q)) => rational_is_integer(q),
                Some(HeapObjectData::Real(bits)) => real_bits_integral(bits),
                Some(HeapObjectData::Complex { real: re, imag: im }) => self.spec_is_exact_zero(im)
                    && fuel > 0 && self.integer_r7rs_within(re, (fuel - 1) as nat),
                _ => false,
            }
        }
    }

    /// Whether `tv` is a number.
    pub fn is_number(&self, tv: TaggedValue) -> (r: bool)
        requires
            self.valid_value(tv),
        ensures
            r == self.spec_is_number(tv),
    {
        if tv.is_fixnum() {
            return true;
        }
        if !tv.is_object() {
            return false;
        }
        match self.get_object(tv) {
            HeapObjectData::BigInt(_) => true,
            HeapObjectData::Rational(_) => true,
            HeapObjectData::Real(_) => true,
            HeapObjectData::Complex { .. } => true,
            _ => false,
        }
    }

    /// Whether `tv` is an exact integer: a fixnum or a big integer.
    pub fn is_integer(&self, tv: TaggedValue) -> (r: bool)
        requires
            self.valid_value(tv),
        ensures
            r == (tv is Fixnum || self.object_of(tv) matches Some(HeapObjectData::BigInt(_))),
    {
        if tv.is_fixnum() {
            return true;
        }
        tv.is_object() && match self.get_object(tv) {
            HeapObjectData::BigInt(_) => true,
            _ => false,
        }
    }

    /// Whether `tv` is an exact number: a fixnum, big integer or rational.
    pub fn is_exact_number(&self, tv: TaggedValue) -> (r: bool)
        requires
            self.valid_value(tv),
        ensures
            r == (tv is Fixnum || self.object_of(tv) matches Some(HeapObjectData::BigInt(_))
                || self.object_of(tv) matches Some(HeapObjectData::Rational(_))),
    {
        if tv.is_fixnum() {
            return true;
        }
        if !tv.is_object() {
            return false;
        }
        match self.get_object(tv) {
            HeapObjectData::BigInt(_) => true,
            HeapObjectData::Rational(_) => true,
            _ => false,
        }
    }

    fn inexact_fuel(&self, tv: TaggedValue, fuel: u64) -> (r: bool)
        requires
            self.wf(),
            self.valid_value(tv),
        ensures
            r == self.inexact_within(tv, fuel as nat),
        decreases fuel,
    {
        if !tv.is_object() {
            return false;
        }
        match self.get_object(tv) {
            HeapObjectData::Real(_) => true,
            HeapObjectData::Complex { real: re, imag: im } => {
                proof {
                    self.lemma_children_valid(tv);
                }
                fuel > 0 && (self.inexact_fuel(*re, fuel - 1) || self.inexact_fuel(*im, fuel - 1))
            },
            _ => false,
        }
    }

    /// Whether `tv` is an inexact number: a real, or a complex with an
    /// inexact part.
    pub fn is_inexact_number(&self, tv: TaggedValue) -> (r: bool)
        requires
            self.wf(),
            self.valid_value(tv),
        ensures
            r == self.inexact_within(tv, self.number_budget()),
    {
        self.inexact_fuel(tv, self.objects.len() as u64)
    }

    /// Whether `tv` is an exact zero.
    pub fn is_exact_zero(&self, tv: TaggedValue) -> (r: bool)
        requires
            self.valid_value(tv),
        ensures
            r == self.spec_is_exact_zero(tv),
    {
        match tv {
            TaggedValue::Fixnum(n) => n == 0,
            TaggedValue::Object(_) => match self.get_object(tv) {
                HeapObjectData::BigInt(n) => bigint_zero(n),
                HeapObjectData::Rational(q) => rational_zero(q),
                _ => false,
            },
            _ => false,
        }
    }

    /// The `real?` of R7RS: any number but a complex whose imaginary part is
    /// not an exact zero.
    pub fn is_real_r7rs(&self, tv: TaggedValue) -> (r: bool)
        requires
            self.wf(),
            self.valid_value(tv),
        ensures
            r == (tv is Fixnum || match self.object_of(tv) {
                Some(HeapObjectData::BigInt(_)) => true,
                Some(HeapObjectData::Rational(_)) => true,
                Some(HeapObjectData::Real(_)) => true,
                Some(HeapObjectData::Complex { imag: im, .. }) => self.spec_is_exact_zero(im),
                _ => false,
            }),
    {
        if tv.is_fixnum() {
            return true;
        }
        if !tv.is_object() {
            return false;
        }
        proof {
            self.lemma_children_valid(tv);
        }
        match self.get_object(tv) {
            HeapObjectData::BigInt(_) => true,
            HeapObjectData::Rational(_) => true,
            HeapObjectData::Real(_) => true,
            HeapObjectData::Complex { imag: im, .. } => self.is_exact_zero(*im),
            _ => false,
        }
    }

    /// The `rational?` of R7RS: exact numbers, finite reals, and complexes
    /// with an exact zero imaginary part and a finite real part.
    pub fn is_rational_r7rs(&self, tv: TaggedValue) -> (r: bool)
        requires
            self.wf(),
            self.valid_value(tv),
        ensures
            r == (tv is Fixnum || match self.object_of(tv) {
                Some(HeapObjectData::BigInt(_)) => true,
                Some(HeapObjectData::Rational(_)) => true,
                Some(HeapObjectData::Real(bits)) => real_bits_finite(bits),
                Some(HeapObjectData::Complex { real: re, imag: im }) => self.spec_is_exact_zero(im)
                    && self.finite_within(re, self.number_budget()) == Some(true),
                _ => false,
            }),
    {
        if tv.is_fixnum() {
            return true;
        }
        if !tv.is_object() {
            return false;
        }
        proof {
            self.lemma_children_valid(tv);
        }
        match self.get_object(tv) {
            HeapObjectData::BigInt(_) => true,
            HeapObjectData::Rational(_) => true,
            HeapObjectData::Real(bits) => real_is_finite(*bits),
            HeapObjectData::Complex { real: re, imag: im } => self.is_exact_zero(*im) && match self.numeric_is_finite(*re) {
                Some(b) => b,
                None => false,
            },
            _ => false,
        }
    }

    fn integer_r7rs_fuel(&self, tv: TaggedValue, fuel: u64) -> (r: bool)
        requires
            self.wf(),
            self.valid_value(tv),
        ensures
            r == self.integer_r7rs_within(tv, fuel as nat),
        decreases fuel,
    {
        if tv.is_fixnum() {
            return true;
        }
        if !tv.is_object() {
            return false;
        }
        proof {
            self.lemma_children_valid(tv);
        }
        match self.get_object(tv) {
            HeapObjectData::BigInt(_) => true,
            HeapObjectData::Rational(q) => rational_integer(q),
            HeapObjectData::Real(bits) => real_is_integral(*bits),
            HeapObjectData::Complex { real: re, imag: im } => self.is_exact_zero(*im) && fuel > 0
                && self.integer_r7rs_fuel(*re, fuel - 1),
            _ => false,
        }
    }

    /// The `integer?` of R7RS: exact integers, rationals with denominator
    /// one, integral reals, and complexes with an exact zero imaginary part
    /// and an integral real part.
    pub fn is_integer_r7rs(&self, tv: TaggedValue) -> (r: bool)
        requires
            self.wf(),
            self.valid_value(tv),
        ensures
            r == self.integer_r7rs_within(tv, self.number_budget()),
    {
        self.integer_r7rs_fuel(tv, self.objects.len() as u64)
    }

    fn finite_fuel(&self, tv: TaggedValue, fuel: u64) -> (r: Option<bool>)
        requires
            self.wf(),
            self.valid_value(tv),
        ensures
            r == self.finite_within(tv, fuel as nat),
        decreases fuel,
    {
        if tv.is_fixnum() {
            return Some(true);
        }
        if !tv.is_object() {
            return None;
        }
        proof {
            self.lemma_children_valid(tv);
        }
        match self.get_object(tv) {
            HeapObjectData::BigInt(_) => Some(true),
            HeapObjectData::Rational(_) => Some(true),
            HeapObjectData::Real(bits) => Some(real_is_finite(*bits)),
            HeapObjectData::Complex { real: re, imag: im } => {
                if fuel == 0 {
                    return Some(false);
                }
                let a = match self.finite_fuel(*re, fuel - 1) {
                    Some(b) => b,
                    None => false,
                };
                let b = match self.finite_fuel(*im, fuel - 1) {
                    Some(b) => b,
                    None => false,
                };
                Some(a && b)
            },
            _ => None,
        }
    }

    /// Whether a number is finite; `None` for anything but a number.
    pub fn numeric_is_finite(&self, tv: TaggedValue) -> (r: Option<bool>)
        requires
            self.wf(),
            self.valid_value(tv),
        ensures
            r == self.finite_within(tv, self.number_budget()),
    {
        self.finite_fuel(tv, self.objects.len() as u64)
    }

    fn infinite_fuel(&self, tv: TaggedValue, fuel: u64) -> (r: Option<bool>)
        requires
            self.wf(),
            self.valid_value(tv),
        ensures
            r == self.infinite_within(tv, fuel as nat),
        decreases fuel,
    {
        if tv.is_fixnum() {
            return Some(false);
        }
        if !tv.is_object() {
            return None;
        }
        proof {
            self.lemma_children_valid(tv);
        }
        match self.get_object(tv) {
            HeapObjectData::BigInt(_) => Some(false),
            HeapObjectData::Rational(_) => Some(false),
            HeapObjectData::Real(bits) => Some(real_is_infinite(*bits)),
            HeapObjectData::Complex { real: re, imag: im } => {
                if fuel == 0 {
                    return Some(false);
                }
                let a = match self.infinite_fuel(*re, fuel - 1) {
                    Some(b) => b,
                    None => false,
                };
                let b = match self.infinite_fuel(*im, fuel - 1) {
                    Some(b) => b,
                    None => false,
                };
                Some(a || b)
            },
            _ => None,
        }
    }

    /// Whether a number is infinite; `None` for anything but a number.
    pub fn numeric_is_infinite(&self, tv: TaggedValue) -> (r: Option<bool>)
        requires
            self.wf(),
            self.valid_value(tv),
        ensures
            r == self.infinite_within(tv, self.number_budget()),
    {
        self.infinite_fuel(tv, self.objects.len() as u64)
    }

    fn nan_fuel(&self, tv: TaggedValue, fuel: u64) -> (r: Option<bool>)
        requires
            self.wf(),
            self.valid_value(tv),
        ensures
            r == self.nan_within(tv, fuel as nat),
        decreases fuel,
    {
        if tv.is_fixnum() {
            return Some(false);
        }
        if !tv.is_object() {
            return None;
        }
        proof {
            self.lemma_children_valid(tv);
        }
        match self.get_object(tv) {
            HeapObjectData::BigInt(_) => Some(false),
            HeapObjectData::Rational(_) => Some(false),
            HeapObjectData::Real(bits) => Some(real_is_nan(*bits)),
            HeapObjectData::Complex { real: re, imag: im } => {
                if fuel == 0 {
                    return Some(false);
                }
                let a = match self.nan_fuel(*re, fuel - 1) {
                    Some(b) => b,
                    None => false,
                };
                let b = match self.nan_fuel(*im, fuel - 1) {
                    Some(b) => b,
                    None => false,
                };
                Some(a || b)
            },
            _ => None,
        }
    }

    /// Whether a number is a NaN; `None` for anything but a number.
    pub fn numeric_is_nan(&self, tv: TaggedValue) -> (r: Option<bool>)
        requires
            self.wf(),
            self.valid_value(tv),
        ensures
            r == self.nan_within(tv, self.number_budget()),
    {
        self.nan_fuel(tv, self.objects.len() as u64)
    }
}


// ---------------------------------------------------------------------------
// eq?, eqv? and equal?
// ---------------------------------------------------------------------------

/// Whether two objects answer `eqv?` as numbers, names or record types,
/// given how their parts compare.
pub open spec fn objects_eqv(h: &Heap, x: HeapObjectData, y: HeapObjectData, fuel: nat) -> bool
    decreases fuel, 0nat,
{
    match (x, y) {
        (HeapObjectData::BigInt(m), HeapObjectData::BigInt(n)) => m == n,
        (HeapObjectData::Rational(p), HeapObjectData::Rational(q)) => rationals_equal(p, q),
        (HeapObjectData::Real(u), HeapObjectData::Real(v)) => u == v,
        (
            HeapObjectData::Complex { real: ar, imag: ai },
            HeapObjectData::Complex { real: br, imag: bi },
        ) => fuel > 0 && eqv_within(h, ar, br, (fuel - 1) as nat) && eqv_within(
            h,
            ai,
            bi,
            (fuel - 1) as nat,
        ),
        (HeapObjectData::Symbol(p), HeapObjectData::Symbol(q)) => p@ == q@,
        (HeapObjectData::Identifier { name: p, .. }, HeapObjectData::Identifier { name: q, .. }) => p@
            == q@,
        (HeapObjectData::Symbol(p), HeapObjectData::Identifier { name: q, .. }) => p@ == q@,
        (HeapObjectData::Identifier { name: p, .. }, HeapObjectData::Symbol(q)) => p@ == q@,
        (HeapObjectData::RecordType(p), HeapObjectData::RecordType(q)) => p.id == q.id,
        _ => false,
    }
}

/// `eqv?`, within `fuel` steps into complex parts: the same value, a
/// fixnum and a big integer of the same value, or two objects that
/// `objects_eqv` relates.
pub open spec fn eqv_within(h: &Heap, a: TaggedValue, b: TaggedValue, fuel: nat) -> bool
    decreases fuel, 1nat,
{
    if a == b {
        true
    } else {
        match (a, b) {
            (TaggedValue::Fixnum(n), TaggedValue::Object(_)) => match h.object_of(b) {
                Some(HeapObjectData::BigInt(m)) => bigint_from_i64(n) == m,
                _ => false,
            },
            (TaggedValue::Object(_), TaggedValue::Fixnum(n)) => match h.object_of(a) {
                Some(HeapObjectData::BigInt(m)) => m == bigint_from_i64(n),
                _ => false,
            },
            (TaggedValue::Object(i), TaggedValue::Object(j)) => objects_eqv(
                h,
                h.object_slots()[i as int],
                h.object_slots()[j as int],
                fuel,
            ),
            _ => false,
        }
    }
}

/// Whether two objects answer `equal?`, given how their parts compare.
pub open spec fn objects_equal(h: &Heap, x: HeapObjectData, y: HeapObjectData, fuel: nat) -> bool
    decreases fuel, 0nat, 0nat,
{
    match (x, y) {
        (HeapObjectData::BigInt(m), HeapObjectData::BigInt(n)) => m == n,
        (HeapObjectData::Rational(p), HeapObjectData::Rational(q)) => rationals_equal(p, q),
        (HeapObjectData::Real(u), HeapObjectData::Real(v)) => u == v,
        (
            HeapObjectData::Complex { real: ar, imag: ai },
            HeapObjectData::Complex { real: br, imag: bi },
        ) => fuel > 0 && values_equal_within(h, ar, br, (fuel - 1) as nat) && values_equal_within(
            h,
            ai,
            bi,
            (fuel - 1) as nat,
        ),
        (HeapObjectData::Symbol(p), HeapObjectData::Symbol(q)) => p@ == q@,
        (HeapObjectData::Bytevector(p), HeapObjectData::Bytevector(q)) => p@ == q@,
        (HeapObjectData::RecordType(p), HeapObjectData::RecordType(q)) => p.id == q.id,
        (
            HeapObjectData::Record { record_type: rp, fields: fp },
            HeapObjectData::Record { record_type: rq, fields: fq },
        ) => {
            &&& rp.id == rq.id
            &&& fp@.len() == fq@.len()
            &&& fuel > 0
            &&& elements_equal_within(h, fp@, fq@, fp@.len(), (fuel - 1) as nat)
        },
        _ => false,
    }
}

/// `values_equal`'s answer, within `fuel` steps into parts: numbers as
/// `eqv?` compares them, symbols by name, bytevectors by contents, and
/// records of one type field by field.
pub open spec fn values_equal_within(h: &Heap, a: TaggedValue, b: TaggedValue, fuel: nat) -> bool
    decreases fuel, 1nat, 0nat,
{
    if a == b {
        true
    } else {
        match (a, b) {
            (TaggedValue::Fixnum(_), TaggedValue::Fixnum(_)) => false,
            (TaggedValue::Fixnum(n), TaggedValue::Object(_)) => match h.object_of(b) {
                Some(HeapObjectData::BigInt(m)) => bigint_from_i64(n) == m,
                _ => false,
            },
            (TaggedValue::Object(_), TaggedValue::Fixnum(n)) => match h.object_of(a) {
                Some(HeapObjectData::BigInt(m)) => m == bigint_from_i64(n),
                _ => false,
            },
            (TaggedValue::Object(i), TaggedValue::Object(j)) => objects_equal(
                h,
                h.object_slots()[i as int],
                h.object_slots()[j as int],
                fuel,
            ),
            _ => false,
        }
    }
}

/// `equal?`, within `fuel` steps into parts: pairs by car and cdr, vectors
/// element by element, strings and bytevectors by contents, and everything
/// else as `values_equal_within` has it.
pub open spec fn equal_within(h: &Heap, a: TaggedValue, b: TaggedValue, fuel: nat) -> bool
    decreases fuel, 2nat, 0nat,
{
    if a == b {
        true
    } else if a is Null || b is Null {
        false
    } else if a is Pair && b is Pair {
        let pa = h.pair_slots()[a.spec_heap_index() as int];
        let pb = h.pair_slots()[b.spec_heap_index() as int];
        fuel > 0 && equal_within(h, pa.0, pb.0, (fuel - 1) as nat) && equal_within(
            h,
            pa.1,
            pb.1,
            (fuel - 1) as nat,
        )
    } else if a is Vector && b is Vector {
        let va = h.vector_slots()[a.spec_heap_index() as int];
        let vb = h.vector_slots()[b.spec_heap_index() as int];
        &&& va.len() == vb.len()
        &&& fuel > 0
        &&& elements_equal_within(h, va, vb, va.len(), (fuel - 1) as nat)
    } else if h.object_of(a) matches Some(HeapObjectData::Bytevector(_)) && h.object_of(
        b,
    ) matches Some(HeapObjectData::Bytevector(_)) {
        h.bytes_of(a) == h.bytes_of(b)
    } else if a is Str && b is Str {
        h.string_slots()[a.spec_heap_index() as int] == h.string_slots()[b.spec_heap_index() as int]
    } else if (a is Char && b is Char) || (a is Boolean && b is Boolean) || (a is Fixnum
        && b is Fixnum) {
        false
    } else {
        values_equal_within(h, a, b, fuel)
    }
}

/// The first `n` elements of `xs` and `ys` are `equal?` pairwise, within
/// `fuel` steps.
pub open spec fn elements_equal_within(
    h: &Heap,
    xs: Seq<TaggedValue>,
    ys: Seq<TaggedValue>,
    n: nat,
    fuel: nat,
) -> bool
    decreases fuel, 3nat, n,
{
    if n == 0 {
        true
    } else {
        elements_equal_within(h, xs, ys, (n - 1) as nat, fuel) && equal_within(
            h,
            xs[n - 1],
            ys[n - 1],
            fuel,
        )
    }
}

/// Pairwise equality of a prefix covers each element in it.
pub proof fn lemma_elements_equal_each(
    h: &Heap,
    xs: Seq<TaggedValue>,
    ys: Seq<TaggedValue>,
    n: nat,
    fuel: nat,
    k: int,
)
    requires
        elements_equal_within(h, xs, ys, n, fuel),
        0 <= k < n,
    ensures
        equal_within(h, xs[k], ys[k], fuel),
    decreases n,
{
    if k < n - 1 {
        lemma_elements_equal_each(h, xs, ys, (n - 1) as nat, fuel, k);
    }
}

/// Whether two slices of bytes hold the same bytes.
fn same_bytes(a: &[u8], b: &[u8]) -> (r: bool)
    ensures
        r == (a@ == b@),
{
    if a.len() != b.len() {
        return false;
    }
    let mut k: usize = 0;
    while k < a.len()
        invariant
            a@.len() == b@.len(),
            k <= a@.len(),
            forall|j: int| 0 <= j < k ==> a@[j] == b@[j],
        decreases a@.len() - k,
    {
        if a[k] != b[k] {
            return false;
        }
        k = k + 1;
    }
    assert(a@ =~= b@);
    true
}

/// Whether two slices of characters hold the same characters.
fn same_chars(a: &[char], b: &[char]) -> (r: bool)
    ensures
        r == (a@ == b@),
{
    if a.len() != b.len() {
        return false;
    }
    let mut k: usize = 0;
    while k < a.len()
        invariant
            a@.len() == b@.len(),
            k <= a@.len(),
            forall|j: int| 0 <= j < k ==> a@[j] == b@[j],
        decreases a@.len() - k,
    {
        if a[k] != b[k] {
            return false;
        }
        k = k + 1;
    }
    assert(a@ =~= b@);
    true
}

impl Heap {
    /// `eq?`: the same value. Every object lives in a slot of its own, so
    /// two references are the same object exactly when they are equal.
    pub fn values_eq(&self, a: TaggedValue, b: TaggedValue) -> (r: bool)
        ensures
            r == (a == b),
    {
        a == b
    }

    fn objects_eqv_fuel(&self, a: TaggedValue, b: TaggedValue, fuel: u64) -> (r: bool)
        requires
            self.wf(),
            a is Object,
            b is Object,
            self.valid_value(a),
            self.valid_value(b),
        ensures
            r == objects_eqv(
                self,
                self.object_slots()[a.spec_heap_index() as int],
                self.object_slots()[b.spec_heap_index() as int],
                fuel as nat,
            ),
        decreases fuel, 0nat,
    {
        proof {
            self.lemma_children_valid(a);
            self.lemma_children_valid(b);
        }
        match (self.get_object(a), self.get_object(b)) {
            (HeapObjectData::BigInt(m), HeapObjectData::BigInt(n)) => bigints_equal(m, n),
            (HeapObjectData::Rational(p), HeapObjectData::Rational(q)) => rationals_eq(p, q),
            (HeapObjectData::Real(u), HeapObjectData::Real(v)) => *u == *v,
            (
                HeapObjectData::Complex { real: ar, imag: ai },
                HeapObjectData::Complex { real: br, imag: bi },
            ) => fuel > 0 && self.eqv_fuel(*ar, *br, fuel - 1) && self.eqv_fuel(*ai, *bi, fuel - 1),
            (HeapObjectData::Symbol(p), HeapObjectData::Symbol(q)) => *p == *q,
            (
                HeapObjectData::Identifier { name: p, .. },
                HeapObjectData::Identifier { name: q, .. },
            ) => *p == *q,
            (HeapObjectData::Symbol(p), HeapObjectData::Identifier { name: q, .. }) => *p == *q,
            (HeapObjectData::Identifier { name: p, .. }, HeapObjectData::Symbol(q)) => *p == *q,
            (HeapObjectData::RecordType(p), HeapObjectData::RecordType(q)) => p.id == q.id,
            _ => false,
        }
    }

    fn eqv_fuel(&self, a: TaggedValue, b: TaggedValue, fuel: u64) -> (r: bool)
        requires
            self.wf(),
            self.valid_value(a),
            self.valid_value(b),
        ensures
            r == eqv_within(self, a, b, fuel as nat),
        decreases fuel, 1nat,
    {
        if a == b {
            return true;
        }
        match (a, b) {
            (TaggedValue::Fixnum(n), TaggedValue::Object(_)) => match self.get_bigint(b) {
                Some(m) => {
                    let big = bigint_from(n);
                    bigints_equal(&big, m)
                },
                None => false,
            },
            (TaggedValue::Object(_), TaggedValue::Fixnum(n)) => match self.get_bigint(a) {
                Some(m) => {
                    let big = bigint_from(n);
                    bigints_equal(m, &big)
                },
                None => false,
            },
            (TaggedValue::Object(_), TaggedValue::Object(_)) => self.objects_eqv_fuel(a, b, fuel),
            _ => false,
        }
    }

    /// `eqv?`: the same value; a fixnum and a big integer of equal value;
    /// two big integers, rationals or complexes of equal value; two reals
    /// with the same bits; two symbols or identifiers of one name; or two
    /// record-type objects of one type.
    pub fn values_eqv(&self, a: TaggedValue, b: TaggedValue) -> (r: bool)
        requires
            self.wf(),
            self.valid_value(a),
            self.valid_value(b),
        ensures
            r == eqv_within(self, a, b, self.structure_budget()),
    {
        self.eqv_fuel(a, b, self.slot_count())
    }

    #[verifier::loop_isolation(false)]
    fn objects_equal_fuel(&self, a: TaggedValue, b: TaggedValue, fuel: u64) -> (r: bool)
        requires
            self.wf(),
            a is Object,
            b is Object,
            self.valid_value(a),
            self.valid_value(b),
        ensures
            r == objects_equal(
                self,
                self.object_slots()[a.spec_heap_index() as int],
                self.object_slots()[b.spec_heap_index() as int],
                fuel as nat,
            ),
        decreases fuel, 0nat, 0nat,
    {
        proof {
            self.lemma_children_valid(a);
            self.lemma_children_valid(b);
        }
        match (self.get_object(a), self.get_object(b)) {
            (HeapObjectData::BigInt(m), HeapObjectData::BigInt(n)) => bigints_equal(m, n),
            (HeapObjectData::Rational(p), HeapObjectData::Rational(q)) => rationals_eq(p, q),
            (HeapObjectData::Real(u), HeapObjectData::Real(v)) => *u == *v,
            (
                HeapObjectData::Complex { real: ar, imag: ai },
                HeapObjectData::Complex { real: br, imag: bi },
            ) => fuel > 0 && self.values_equal_fuel(*ar, *br, fuel - 1) && self.values_equal_fuel(
                *ai,
                *bi,
                fuel - 1,
            ),
            (HeapObjectData::Symbol(p), HeapObjectData::Symbol(q)) => *p == *q,
            (HeapObjectData::Bytevector(p), HeapObjectData::Bytevector(q)) => same_bytes(
                p.as_slice(),
                q.as_slice(),
            ),
            (HeapObjectData::RecordType(p), HeapObjectData::RecordType(q)) => p.id == q.id,
            (
                HeapObjectData::Record { record_type: rp, fields: fp },
                HeapObjectData::Record { record_type: rq, fields: fq },
            ) => {
                if rp.id != rq.id || fp.len() != fq.len() || fuel == 0 {
                    return false;
                }
                let mut k: usize = 0;
                while k < fp.len()
                    invariant
                        self.wf(),
                        fuel > 0,
                        fp@.len() == fq@.len(),
                        k <= fp@.len(),
                        self.all_valid(fp@),
                        self.all_valid(fq@),
                        elements_equal_within(self, fp@, fq@, k as nat, (fuel - 1) as nat),
                    decreases fp@.len() - k,
                {
                    if !self.equal_fuel(fp[k], fq[k], fuel - 1) {
                        proof {
                            if elements_equal_within(self, fp@, fq@, fp@.len(), (fuel - 1) as nat) {
                                lemma_elements_equal_each(
                                    self,
                                    fp@,
                                    fq@,
                                    fp@.len(),
                                    (fuel - 1) as nat,
                                    k as int,
                                );
                            }
                        }
                        return false;
                    }
                    k = k + 1;
                }
                true
            },
            _ => false,
        }
    }

    fn values_equal_fuel(&self, a: TaggedValue, b: TaggedValue, fuel: u64) -> (r: bool)
        requires
            self.wf(),
            self.valid_value(a),
            self.valid_value(b),
        ensures
            r == values_equal_within(self, a, b, fuel as nat),
        decreases fuel, 1nat, 0nat,
    {
        if a == b {
            return true;
        }
        match (a, b) {
            (TaggedValue::Fixnum(_), TaggedValue::Fixnum(_)) => false,
            (TaggedValue::Fixnum(n), TaggedValue::Object(_)) => match self.get_bigint(b) {
                Some(m) => {
                    let big = bigint_from(n);
                    bigints_equal(&big, m)
                },
                None => false,
            },
            (TaggedValue::Object(_), TaggedValue::Fixnum(n)) => match self.get_bigint(a) {
                Some(m) => {
                    let big = bigint_from(n);
                    bigints_equal(m, &big)
                },
                None => false,
            },
            (TaggedValue::Object(_), TaggedValue::Object(_)) => self.objects_equal_fuel(a, b, fuel),
            _ => false,
        }
    }

    #[verifier::loop_isolation(false)]
    fn equal_fuel(&self, a: TaggedValue, b: TaggedValue, fuel: u64) -> (r: bool)
        requires
            self.wf(),
            self.valid_value(a),
            self.valid_value(b),
        ensures
            r == equal_within(self, a, b, fuel as nat),
        decreases fuel, 2nat, 0nat,
    {
        if a == b {
            return true;
        }
        if a.is_null() || b.is_null() {
            return false;
        }
        if a.is_pair() && b.is_pair() {
            proof {
                self.lemma_children_valid(a);
                self.lemma_children_valid(b);
            }
            if fuel == 0 {
                return false;
            }
            let (ca, da) = self.get_pair(a);
            let (cb, db) = self.get_pair(b);
            return self.equal_fuel(ca, cb, fuel - 1) && self.equal_fuel(da, db, fuel - 1);
        }
        if a.is_vector() && b.is_vector() {
            proof {
                self.lemma_children_valid(a);
                self.lemma_children_valid(b);
            }
            let va = self.vector_slice(a);
            let vb = self.vector_slice(b);
            if va.len() != vb.len() || fuel == 0 {
                return false;
            }
            let mut k: usize = 0;
            while k < va.len()
                invariant
                    self.wf(),
                    fuel > 0,
                    va@.len() == vb@.len(),
                    k <= va@.len(),
                    self.all_valid(va@),
                    self.all_valid(vb@),
                    elements_equal_within(self, va@, vb@, k as nat, (fuel - 1) as nat),
                decreases va@.len() - k,
            {
                if !self.equal_fuel(va[k], vb[k], fuel - 1) {
                    proof {
                        if elements_equal_within(self, va@, vb@, va@.len(), (fuel - 1) as nat) {
                            lemma_elements_equal_each(
                                self,
                                va@,
                                vb@,
                                va@.len(),
                                (fuel - 1) as nat,
                                k as int,
                            );
                        }
                    }
                    return false;
                }
                k = k + 1;
            }
            return true;
        }
        match (self.get_bytevector(a), self.get_bytevector(b)) {
            (Some(p), Some(q)) => {
                return same_bytes(p, q);
            },
            _ => {},
        }
        if a.is_string() && b.is_string() {
            return same_chars(self.get_string_chars(a), self.get_string_chars(b));
        }
        match (a, b) {
            (TaggedValue::Char(_), TaggedValue::Char(_)) => false,
            (TaggedValue::Boolean(_), TaggedValue::Boolean(_)) => false,
            (TaggedValue::Fixnum(_), TaggedValue::Fixnum(_)) => false,
            _ => self.values_equal_fuel(a, b, fuel),
        }
    }

    /// The object-level part of `equal?`: numbers as `eqv?` compares them,
    /// symbols by name, bytevectors by contents, record types by identity,
    /// and records of one type field by field with `equal?`.
    pub fn values_equal(&self, a: TaggedValue, b: TaggedValue) -> (r: bool)
        requires
            self.wf(),
            self.valid_value(a),
            self.valid_value(b),
        ensures
            r == values_equal_within(self, a, b, self.structure_budget()),
    {
        self.values_equal_fuel(a, b, self.slot_count())
    }

    /// `equal?`: structural equality of pairs, vectors, strings, bytevectors
    /// and records, and `values_equal` for the rest.
    pub fn tagged_values_equal(&self, a: TaggedValue, b: TaggedValue) -> (r: bool)
        requires
            self.wf(),
            self.valid_value(a),
            self.valid_value(b),
        ensures
            r == equal_within(self, a, b, self.structure_budget()),
    {
        self.equal_fuel(a, b, self.slot_count())
    }

    /// Two pairs whose cars and cdrs are `equal?`; `false` unless both are
    /// pairs.
    pub fn pairs_equal(&self, a: TaggedValue, b: TaggedValue) -> (r: bool)
        requires
            self.wf(),
            self.valid_value(a),
            self.valid_value(b),
        ensures
            r == (a is Pair && b is Pair && equal_within(
                self,
                self.pair_slots()[a.spec_heap_index() as int].0,
                self.pair_slots()[b.spec_heap_index() as int].0,
                self.structure_budget(),
            ) && equal_within(
                self,
                self.pair_slots()[a.spec_heap_index() as int].1,
                self.pair_slots()[b.spec_heap_index() as int].1,
                self.structure_budget(),
            )),
    {
        if !a.is_pair() || !b.is_pair() {
            return false;
        }
        proof {
            self.lemma_children_valid(a);
            self.lemma_children_valid(b);
        }
        let (ca, da) = self.get_pair(a);
        let (cb, db) = self.get_pair(b);
        self.tagged_values_equal(ca, cb) && self.tagged_values_equal(da, db)
    }

    /// Two vectors of one length whose elements are `equal?` pairwise;
    /// `false` unless both are vectors.
    #[verifier::loop_isolation(false)]
    pub fn vectors_equal(&self, a: TaggedValue, b: TaggedValue) -> (r: bool)
        requires
            self.wf(),
            self.valid_value(a),
            self.valid_value(b),
        ensures
            r == (a is Vector && b is Vector && {
                let va = self.vector_slots()[a.spec_heap_index() as int];
                let vb = self.vector_slots()[b.spec_heap_index() as int];
                &&& va.len() == vb.len()
                &&& forall|k: int|
                    0 <= k < va.len() ==> #[trigger] equal_within(
                        self,
                        va[k],
                        vb[k],
                        self.structure_budget(),
                    )
            }),
    {
        if !a.is_vector() || !b.is_vector() {
            return false;
        }
        proof {
            self.lemma_children_valid(a);
            self.lemma_children_valid(b);
        }
        let va = self.vector_slice(a);
        let vb = self.vector_slice(b);
        if va.len() != vb.len() {
            return false;
        }
        let mut k: usize = 0;
        while k < va.len()
            invariant
                self.wf(),
                va@.len() == vb@.len(),
                k <= va@.len(),
                self.all_valid(va@),
                self.all_valid(vb@),
                forall|j: int|
                    0 <= j < k ==> #[trigger] equal_within(self, va@[j], vb@[j], self.structure_budget()),
            decreases va@.len() - k,
        {
            if !self.tagged_values_equal(va[k], vb[k]) {
                return false;
            }
            k = k + 1;
        }
        true
    }

    /// The number of slots in the four arenas together.
    fn slot_count(&self) -> (r: u64)
        requires
            self.wf(),
        ensures
            r == self.structure_budget(),
    {
        self.pairs.len() as u64 + self.vectors.len() as u64 + self.strings.len() as u64
            + self.objects.len() as u64
    }
}


// ---------------------------------------------------------------------------
// Laws
// ---------------------------------------------------------------------------

/// `tv` is a number, and so are the parts of every complex met within
/// `fuel` steps.
pub open spec fn number_within(h: &Heap, tv: TaggedValue, fuel: nat) -> bool
    decreases fuel,
{
    ||| tv is Fixnum
    ||| match h.object_of(tv) {
        Some(HeapObjectData::BigInt(_)) => true,
        Some(HeapObjectData::Rational(_)) => true,
        Some(HeapObjectData::Real(_)) => true,
        Some(HeapObjectData::Complex { real: re, imag: im }) => fuel > 0 && number_within(
            h,
            re,
            (fuel - 1) as nat,
        ) && number_within(h, im, (fuel - 1) as nat),
        _ => false,
    }
}

/// A value is `eq?`, `eqv?` and `equal?` to itself, and what is `eq?` is
/// `eqv?` and `equal?`.
pub proof fn lemma_eq_implies_eqv_and_equal(h: &Heap, a: TaggedValue, b: TaggedValue, fuel: nat)
    requires
        a == b,
    ensures
        eqv_within(h, a, b, fuel),
        values_equal_within(h, a, b, fuel),
        equal_within(h, a, b, fuel),
{
}

/// On numbers, `equal?` and the object-level comparison both answer what
/// `eqv?` answers.
pub proof fn lemma_numbers_equal_is_eqv(h: &Heap, a: TaggedValue, b: TaggedValue, fuel: nat)
    requires
        number_within(h, a, fuel),
        number_within(h, b, fuel),
    ensures
        equal_within(h, a, b, fuel) == eqv_within(h, a, b, fuel),
        values_equal_within(h, a, b, fuel) == eqv_within(h, a, b, fuel),
    decreases fuel,
{
    if a == b {
        return;
    }
    assert(!(h.object_of(a) matches Some(HeapObjectData::Bytevector(_))));
    assert(equal_within(h, a, b, fuel) == values_equal_within(h, a, b, fuel));
    match (a, b) {
        (TaggedValue::Object(i), TaggedValue::Object(j)) => {
            let x = h.object_slots()[i as int];
            let y = h.object_slots()[j as int];
            match (x, y) {
                (
                    HeapObjectData::Complex { real: ar, imag: ai },
                    HeapObjectData::Complex { real: br, imag: bi },
                ) => {
                    if fuel > 0 {
                        lemma_numbers_equal_is_eqv(h, ar, br, (fuel - 1) as nat);
                        lemma_numbers_equal_is_eqv(h, ai, bi, (fuel - 1) as nat);
                    }
                },
                _ => {},
            }
        },
        _ => {},
    }
}

/// The law for the heap's own comparisons: on two numbers,
/// `tagged_values_equal` and `values_equal` answer what `values_eqv`
/// answers.
pub proof fn lemma_equal_on_numbers_is_eqv(h: &Heap, a: TaggedValue, b: TaggedValue)
    requires
        number_within(h, a, h.structure_budget()),
        number_within(h, b, h.structure_budget()),
    ensures
        equal_within(h, a, b, h.structure_budget()) == eqv_within(h, a, b, h.structure_budget()),
        values_equal_within(h, a, b, h.structure_budget()) == eqv_within(
            h,
            a,
            b,
            h.structure_budget(),
        ),
{
    lemma_numbers_equal_is_eqv(h, a, b, h.structure_budget());
}


/// Two strings are `equal?` exactly when they hold the same characters, in
/// the same order, whatever the budget.
pub proof fn lemma_strings_equal_by_contents(h: &Heap, a: TaggedValue, b: TaggedValue, fuel: nat)
    requires
        a is Str,
        b is Str,
    ensures
        equal_within(h, a, b, fuel) <==> h.string_slots()[a.spec_heap_index() as int]
            == h.string_slots()[b.spec_heap_index() as int],
{
}

/// Two strings are `eqv?` only when they are the same string: two
/// strings with the same characters in different slots are not.
pub proof fn lemma_strings_eqv_by_identity(h: &Heap, a: TaggedValue, b: TaggedValue, fuel: nat)
    requires
        a is Str,
        b is Str,
    ensures
        eqv_within(h, a, b, fuel) <==> a == b,
        values_equal_within(h, a, b, fuel) <==> a == b,
{
}

/// Numbers, characters and booleans held in the value itself are `eqv?`,
/// and `equal?`, exactly when they are the same: the same fixnum, the same
/// character, the same truth value.
pub proof fn lemma_immediates_by_value(h: &Heap, a: TaggedValue, b: TaggedValue, fuel: nat)
    requires
        (a is Fixnum && b is Fixnum) || (a is Char && b is Char) || (a is Boolean && b is Boolean),
    ensures
        eqv_within(h, a, b, fuel) <==> a == b,
        values_equal_within(h, a, b, fuel) <==> a == b,
        equal_within(h, a, b, fuel) <==> a == b,
{
}

/// `equal?` on the heap's lists: two pairs are `equal?` exactly when their
/// cars are and their cdrs are, one step further in.
pub proof fn lemma_pairs_equal_by_parts(h: &Heap, a: TaggedValue, b: TaggedValue, fuel: nat)
    requires
        a is Pair,
        b is Pair,
        a != b,
    ensures
        equal_within(h, a, b, fuel) <==> fuel > 0 && equal_within(
            h,
            h.pair_slots()[a.spec_heap_index() as int].0,
            h.pair_slots()[b.spec_heap_index() as int].0,
            (fuel - 1) as nat,
        ) && equal_within(
            h,
            h.pair_slots()[a.spec_heap_index() as int].1,
            h.pair_slots()[b.spec_heap_index() as int].1,
            (fuel - 1) as nat,
        ),
{
}

/// The first `n` elements agree pairwise exactly when each of them does.
proof fn lemma_elements_equal_iff(h: &Heap, xs: Seq<TaggedValue>, ys: Seq<TaggedValue>, n: nat, fuel: nat)
    ensures
        elements_equal_within(h, xs, ys, n, fuel) <==> forall|k: int|
            0 <= k < n ==> #[trigger] equal_within(h, xs[k], ys[k], fuel),
    decreases n,
{
    if n > 0 {
        lemma_elements_equal_iff(h, xs, ys, (n - 1) as nat, fuel);
        if elements_equal_within(h, xs, ys, n, fuel) {
            assert forall|k: int| 0 <= k < n implies #[trigger] equal_within(h, xs[k], ys[k], fuel) by {
                if k < n - 1 {
                }
            }
        }
        if forall|k: int| 0 <= k < n ==> #[trigger] equal_within(h, xs[k], ys[k], fuel) {
            assert(equal_within(h, xs[n - 1], ys[n - 1], fuel));
            assert forall|k: int| 0 <= k < n - 1 implies #[trigger] equal_within(h, xs[k], ys[k], fuel) by {
                assert(equal_within(h, xs[k], ys[k], fuel));
            }
        }
    }
}

/// Two vectors are `equal?` exactly when they have the same length and
/// their elements are `equal?` position by position, one step further in.
pub proof fn lemma_vectors_equal_by_elements(h: &Heap, a: TaggedValue, b: TaggedValue, fuel: nat)
    requires
        a is Vector,
        b is Vector,
        a != b,
    ensures
        equal_within(h, a, b, fuel) <==> {
            let va = h.vector_slots()[a.spec_heap_index() as int];
            let vb = h.vector_slots()[b.spec_heap_index() as int];
            &&& va.len() == vb.len()
            &&& fuel > 0
            &&& forall|k: int| 0 <= k < va.len() ==> #[trigger] equal_within(h, va[k], vb[k], (fuel - 1) as nat)
        },
{
    let va = h.vector_slots()[a.spec_heap_index() as int];
    let vb = h.vector_slots()[b.spec_heap_index() as int];
    if fuel > 0 {
        lemma_elements_equal_iff(h, va, vb, va.len(), (fuel - 1) as nat);
    }
}

/// Two big integers are `eqv?`, or `equal?`, only when they hold the same
/// integer.
pub proof fn lemma_bigints_eqv_by_value(h: &Heap, a: TaggedValue, b: TaggedValue, m: BigInt, n: BigInt, fuel: nat)
    requires
        a is Object,
        b is Object,
        a != b,
        h.object_of(a) == Some(HeapObjectData::BigInt(m)),
        h.object_of(b) == Some(HeapObjectData::BigInt(n)),
    ensures
        eqv_within(h, a, b, fuel) ==> crate::heap::numeric::bigint_value(m) == crate::heap::numeric::bigint_value(n),
        values_equal_within(h, a, b, fuel) ==> crate::heap::numeric::bigint_value(m)
            == crate::heap::numeric::bigint_value(n),
{
}

/// Two inexact reals are `eqv?`, and `equal?`, exactly when they have the
/// same bits.
pub proof fn lemma_reals_eqv_by_bits(h: &Heap, a: TaggedValue, b: TaggedValue, u: u64, v: u64, fuel: nat)
    requires
        a is Object,
        b is Object,
        a != b,
        h.object_of(a) == Some(HeapObjectData::Real(u)),
        h.object_of(b) == Some(HeapObjectData::Real(v)),
    ensures
        eqv_within(h, a, b, fuel) <==> u == v,
        values_equal_within(h, a, b, fuel) <==> u == v,
{
}

/// Two symbols are `eqv?`, and `equal?`, exactly when they have the same
/// name.
pub proof fn lemma_symbols_eqv_by_name(h: &Heap, a: TaggedValue, b: TaggedValue, p: String, q: String, fuel: nat)
    requires
        a is Object,
        b is Object,
        a != b,
        h.object_of(a) == Some(HeapObjectData::Symbol(p)),
        h.object_of(b) == Some(HeapObjectData::Symbol(q)),
    ensures
        eqv_within(h, a, b, fuel) <==> p@ == q@,
        values_equal_within(h, a, b, fuel) <==> p@ == q@,
{
}

} // verus!
