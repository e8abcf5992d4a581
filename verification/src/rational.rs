//! Exact rational scalars.
//!
//! A [`Rat`] is a fraction of two arbitrary-precision integers with a
//! positive denominator.  Fractions are not reduced: every operation builds
//! its result by the textbook formula, and the ghost model [`Ratio`] mirrors
//! those formulas exactly, so each executable operation has a structural
//! functional contract.  Equality and order of fractions are the usual
//! cross-multiplied comparisons.

use vstd::prelude::*;
use crate::bigint::{big_val, big_from_i64, big_clone, big_add, big_sub, big_mul, big_neg,
    big_eq, big_le, big_lt, big_half};

verus! {

/// Ghost model of a fraction: an integer numerator and denominator.
pub ghost struct Ratio {
    pub num: int,
    pub den: int,
}

/// A well-formed fraction keeps its denominator positive.
pub open spec fn rat_wf(r: Ratio) -> bool {
    r.den > 0
}

/// The fraction with value `n`.
pub open spec fn rat_int(n: int) -> Ratio {
    Ratio { num: n, den: 1 }
}

pub open spec fn rat_add_s(a: Ratio, b: Ratio) -> Ratio {
    Ratio { num: a.num * b.den + b.num * a.den, den: a.den * b.den }
}

pub open spec fn rat_sub_s(a: Ratio, b: Ratio) -> Ratio {
    Ratio { num: a.num * b.den - b.num * a.den, den: a.den * b.den }
}

pub open spec fn rat_mul_s(a: Ratio, b: Ratio) -> Ratio {
    Ratio { num: a.num * b.num, den: a.den * b.den }
}

pub open spec fn rat_neg_s(a: Ratio) -> Ratio {
    Ratio { num: -a.num, den: a.den }
}

/// Division inverts the divisor, moving its sign into the numerator so that
/// the denominator stays positive.
pub open spec fn rat_div_s(a: Ratio, b: Ratio) -> Ratio {
    if b.num >= 0 {
        Ratio { num: a.num * b.den, den: a.den * b.num }
    } else {
        Ratio { num: -(a.num * b.den), den: -(a.den * b.num) }
    }
}

/// Two fractions stand for the same value: cross-multiplied equality.
pub open spec fn rat_eq_s(a: Ratio, b: Ratio) -> bool {
    a.num * b.den == b.num * a.den
}

/// Cross-multiplied order; meaningful for well-formed fractions.
pub open spec fn rat_le_s(a: Ratio, b: Ratio) -> bool {
    a.num * b.den <= b.num * a.den
}

pub open spec fn rat_lt_s(a: Ratio, b: Ratio) -> bool {
    a.num * b.den < b.num * a.den
}

/// An exact rational scalar.
#[derive(Debug)]
pub struct Rat {
    num: num_bigint::BigInt,
    den: num_bigint::BigInt,
}

impl View for Rat {
    type V = Ratio;

    closed spec fn view(&self) -> Ratio {
        Ratio { num: big_val(self.num), den: big_val(self.den) }
    }
}

impl Rat {
    /// A fraction is valid when its denominator is positive.
    pub open spec fn valid(&self) -> bool {
        rat_wf(self@)
    }

    pub fn new(num: i64, den: i64) -> (r: Rat)
        requires
            den > 0,
        ensures
            r@ == (Ratio { num: num as int, den: den as int }),
            r.valid(),
    {
        Rat { num: big_from_i64(num), den: big_from_i64(den) }
    }

    pub fn from_i64(x: i64) -> (r: Rat)
        ensures
            r@ == rat_int(x as int),
            r.valid(),
    {
        Rat { num: big_from_i64(x), den: big_from_i64(1) }
    }

    /// A copy of the numerator, for callers that leave the library.
    pub fn numer(&self) -> (r: num_bigint::BigInt)
        ensures
            big_val(r) == self@.num,
    {
        big_clone(&self.num)
    }

    /// A copy of the denominator, for callers that leave the library.
    pub fn denom(&self) -> (r: num_bigint::BigInt)
        ensures
            big_val(r) == self@.den,
    {
        big_clone(&self.den)
    }

    pub fn dup(&self) -> (r: Rat)
        ensures
            r@ == self@,
    {
        Rat { num: big_clone(&self.num), den: big_clone(&self.den) }
    }

    pub fn add(&self, other: &Rat) -> (r: Rat)
        ensures
            r@ == rat_add_s(self@, other@),
            self.valid() && other.valid() ==> r.valid(),
    {
        proof {
            if self.valid() && other.valid() {
                lemma_pos_mul(self@.den, other@.den);
            }
        }
        Rat {
            num: big_add(&big_mul(&self.num, &other.den), &big_mul(&other.num, &self.den)),
            den: big_mul(&self.den, &other.den),
        }
    }

    pub fn sub(&self, other: &Rat) -> (r: Rat)
        ensures
            r@ == rat_sub_s(self@, other@),
            self.valid() && other.valid() ==> r.valid(),
    {
        proof {
            if self.valid() && other.valid() {
                lemma_pos_mul(self@.den, other@.den);
            }
        }
        Rat {
            num: big_sub(&big_mul(&self.num, &other.den), &big_mul(&other.num, &self.den)),
            den: big_mul(&self.den, &other.den),
        }
    }

    pub fn mul(&self, other: &Rat) -> (r: Rat)
        ensures
            r@ == rat_mul_s(self@, other@),
            self.valid() && other.valid() ==> r.valid(),
    {
        proof {
            if self.valid() && other.valid() {
                lemma_pos_mul(self@.den, other@.den);
            }
        }
        Rat {
            num: big_mul(&self.num, &other.num),
            den: big_mul(&self.den, &other.den),
        }
    }

    pub fn neg(&self) -> (r: Rat)
        ensures
            r@ == rat_neg_s(self@),
            self.valid() ==> r.valid(),
    {
        Rat { num: big_neg(&self.num), den: big_clone(&self.den) }
    }

    pub fn div(&self, other: &Rat) -> (r: Rat)
        ensures
            r@ == rat_div_s(self@, other@),
            self.valid() && other.valid() && other@.num != 0 ==> r.valid(),
    {
        let zero = big_from_i64(0);
        if big_le(&zero, &other.num) {
            proof {
                if self.valid() && other.valid() && other@.num != 0 {
                    lemma_pos_mul(self@.den, other@.num);
                }
            }
            Rat {
                num: big_mul(&self.num, &other.den),
                den: big_mul(&self.den, &other.num),
            }
        } else {
            proof {
                if self.valid() && other.valid() {
                    lemma_pos_mul(self@.den, -other@.num);
                }
                assert(self@.den * -other@.num == -(self@.den * other@.num))
                    by (nonlinear_arith);
            }
            Rat {
                num: big_neg(&big_mul(&self.num, &other.den)),
                den: big_neg(&big_mul(&self.den, &other.num)),
            }
        }
    }

    pub fn le(&self, other: &Rat) -> (r: bool)
        ensures
            r == rat_le_s(self@, other@),
    {
        big_le(&big_mul(&self.num, &other.den), &big_mul(&other.num, &self.den))
    }

    pub fn lt(&self, other: &Rat) -> (r: bool)
        ensures
            r == rat_lt_s(self@, other@),
    {
        big_lt(&big_mul(&self.num, &other.den), &big_mul(&other.num, &self.den))
    }

    pub fn is_zero(&self) -> (r: bool)
        ensures
            r <==> self@.num == 0,
    {
        let zero = big_from_i64(0);
        big_eq(&self.num, &zero)
    }
}

impl PartialEq for Rat {
    fn eq(&self, other: &Rat) -> bool {
        big_eq(&big_mul(&self.num, &other.den), &big_mul(&other.num, &self.den))
    }
}

impl vstd::std_specs::cmp::PartialEqSpecImpl for Rat {
    open spec fn obeys_eq_spec() -> bool {
        true
    }

    open spec fn eq_spec(&self, other: &Rat) -> bool {
        rat_eq_s(self@, other@)
    }
}

/// The product of two positive integers is positive.
pub proof fn lemma_pos_mul(a: int, b: int)
    by (nonlinear_arith)
    requires
        a > 0,
        b > 0,
    ensures
        a * b > 0,
{
}

/// Value equality of fractions is transitive across a well-formed middle
/// fraction.
pub proof fn lemma_req_trans(a: Ratio, b: Ratio, c: Ratio)
    by (nonlinear_arith)
    requires
        rat_wf(b),
        rat_eq_s(a, b),
        rat_eq_s(b, c),
    ensures
        rat_eq_s(a, c),
{
}

/// Sums of equal values are equal.
pub proof fn lemma_add_congr(a: Ratio, a2: Ratio, b: Ratio, b2: Ratio)
    by (nonlinear_arith)
    requires
        rat_wf(a),
        rat_wf(a2),
        rat_wf(b),
        rat_wf(b2),
        rat_eq_s(a, a2),
        rat_eq_s(b, b2),
    ensures
        rat_eq_s(rat_add_s(a, b), rat_add_s(a2, b2)),
{
}

/// Differences of equal values are equal.
pub proof fn lemma_sub_congr(a: Ratio, a2: Ratio, b: Ratio, b2: Ratio)
    by (nonlinear_arith)
    requires
        rat_wf(a),
        rat_wf(a2),
        rat_wf(b),
        rat_wf(b2),
        rat_eq_s(a, a2),
        rat_eq_s(b, b2),
    ensures
        rat_eq_s(rat_sub_s(a, b), rat_sub_s(a2, b2)),
{
}

/// Products of equal values are equal.
pub proof fn lemma_mul_congr(a: Ratio, a2: Ratio, b: Ratio, b2: Ratio)
    by (nonlinear_arith)
    requires
        rat_wf(a),
        rat_wf(a2),
        rat_wf(b),
        rat_wf(b2),
        rat_eq_s(a, a2),
        rat_eq_s(b, b2),
    ensures
        rat_eq_s(rat_mul_s(a, b), rat_mul_s(a2, b2)),
{
}

/// Order of fractions depends only on their values.
pub proof fn lemma_le_congr(a: Ratio, a2: Ratio, b: Ratio, b2: Ratio)
    by (nonlinear_arith)
    requires
        rat_wf(a),
        rat_wf(a2),
        rat_wf(b),
        rat_wf(b2),
        rat_eq_s(a, a2),
        rat_eq_s(b, b2),
    ensures
        rat_le_s(a, b) <==> rat_le_s(a2, b2),
        rat_lt_s(a, b) <==> rat_lt_s(a2, b2),
{
}

/// Well-formedness of the arithmetic results.
pub proof fn lemma_ops_wf(a: Ratio, b: Ratio)
    by (nonlinear_arith)
    requires
        rat_wf(a),
        rat_wf(b),
    ensures
        rat_wf(rat_add_s(a, b)),
        rat_wf(rat_sub_s(a, b)),
        rat_wf(rat_mul_s(a, b)),
        rat_wf(rat_neg_s(a)),
        b.num != 0 ==> rat_wf(rat_div_s(a, b)),
{
}

/// Subtracting twice is subtracting the sum.
pub proof fn lemma_sub_sub(x: Ratio, y: Ratio, z: Ratio)
    requires
        rat_wf(x),
        rat_wf(y),
        rat_wf(z),
    ensures
        rat_eq_s(rat_sub_s(rat_sub_s(x, y), z), rat_sub_s(x, rat_add_s(y, z))),
{
    assert((x.num * y.den - y.num * x.den) * z.den - z.num * (x.den * y.den)
        == x.num * (y.den * z.den) - (y.num * z.den + z.num * y.den) * x.den)
        by (nonlinear_arith);
    assert((x.den * y.den) * z.den == x.den * (y.den * z.den)) by (nonlinear_arith);
}

/// Adding back a difference restores the value.
pub proof fn lemma_add_sub(x: Ratio, y: Ratio)
    by (nonlinear_arith)
    requires
        rat_wf(x),
        rat_wf(y),
    ensures
        rat_eq_s(rat_add_s(y, rat_sub_s(x, y)), x),
        rat_eq_s(rat_add_s(rat_sub_s(x, y), y), x),
{
}

/// Zero is neutral for addition.
pub proof fn lemma_add_zero(x: Ratio)
    by (nonlinear_arith)
    requires
        rat_wf(x),
    ensures
        rat_eq_s(rat_add_s(x, rat_int(0)), x),
        rat_eq_s(rat_add_s(rat_int(0), x), x),
{
}

/// Addition of fractions is associative up to value equality.
pub proof fn lemma_add_assoc(a: Ratio, b: Ratio, c: Ratio)
    requires
        rat_wf(a),
        rat_wf(b),
        rat_wf(c),
    ensures
        rat_eq_s(rat_add_s(rat_add_s(a, b), c), rat_add_s(a, rat_add_s(b, c))),
{
    broadcast use vstd::arithmetic::mul::group_mul_properties;

    assert((a.num * b.den + b.num * a.den) * c.den + c.num * (a.den * b.den)
        == a.num * (b.den * c.den) + (b.num * c.den + c.num * b.den) * a.den);
    assert((a.den * b.den) * c.den == a.den * (b.den * c.den));
}

/// A summand can move across a subtraction.
pub proof fn lemma_add_sub_swap(x: Ratio, y: Ratio, z: Ratio)
    requires
        rat_wf(x),
        rat_wf(y),
        rat_wf(z),
    ensures
        rat_eq_s(rat_add_s(rat_sub_s(x, y), z), rat_sub_s(rat_add_s(x, z), y)),
{
    broadcast use vstd::arithmetic::mul::group_mul_properties;

    let l = rat_add_s(rat_sub_s(x, y), z);
    let r = rat_sub_s(rat_add_s(x, z), y);
    assert(l.num == (x.num * y.den - y.num * x.den) * z.den + z.num * (x.den * y.den));
    assert(r.num == (x.num * z.den + z.num * x.den) * y.den - y.num * (x.den * z.den));
    assert(l.num == r.num);
    assert(l.den == r.den);
}

/// A difference has value zero exactly when the operands share a value.
pub proof fn lemma_sub_zero(x: Ratio, y: Ratio)
    by (nonlinear_arith)
    requires
        rat_wf(x),
        rat_wf(y),
    ensures
        rat_eq_s(rat_sub_s(x, y), rat_int(0)) <==> rat_eq_s(x, y),
        rat_le_s(rat_int(0), rat_sub_s(x, y)) <==> rat_le_s(y, x),
        rat_lt_s(rat_int(0), rat_sub_s(x, y)) <==> rat_lt_s(y, x),
{
}

/// Splitting a sum: if `s` has the value of `a + b`, then `b` has the value
/// of `s - a`.
pub proof fn lemma_add_to_sub(s: Ratio, a: Ratio, b: Ratio)
    by (nonlinear_arith)
    requires
        rat_wf(s),
        rat_wf(a),
        rat_wf(b),
        rat_eq_s(s, rat_add_s(a, b)),
    ensures
        rat_eq_s(b, rat_sub_s(s, a)),
{
}

/// Anything above a positive fraction is positive.
pub proof fn lemma_lt_pos(a: Ratio, b: Ratio)
    by (nonlinear_arith)
    requires
        rat_wf(a),
        rat_wf(b),
        a.num > 0,
        rat_lt_s(a, b),
    ensures
        b.num > 0,
{
}

/// Order of fraction values is transitive.
pub proof fn lemma_le_trans(a: Ratio, b: Ratio, c: Ratio)
    by (nonlinear_arith)
    requires
        rat_wf(a),
        rat_wf(b),
        rat_wf(c),
        rat_le_s(a, b),
        rat_le_s(b, c),
    ensures
        rat_le_s(a, c),
{
}

/// Strict order of fraction values is transitive.
pub proof fn lemma_lt_trans(a: Ratio, b: Ratio, c: Ratio)
    by (nonlinear_arith)
    requires
        rat_wf(a),
        rat_wf(b),
        rat_wf(c),
        rat_lt_s(a, b),
        rat_lt_s(b, c),
    ensures
        rat_lt_s(a, c),
{
}

/// A product of positive values is positive.
pub proof fn lemma_mul_pos_pos(a: Ratio, b: Ratio)
    by (nonlinear_arith)
    requires
        rat_wf(a),
        rat_wf(b),
        rat_lt_s(rat_int(0), a),
        rat_lt_s(rat_int(0), b),
    ensures
        rat_lt_s(rat_int(0), rat_mul_s(a, b)),
{
}

/// Scaling a positive value by a fraction below one shrinks it.
pub proof fn lemma_mul_lt_one(m: Ratio, f: Ratio)
    by (nonlinear_arith)
    requires
        rat_wf(m),
        rat_wf(f),
        rat_lt_s(rat_int(0), m),
        rat_lt_s(f, rat_int(1)),
    ensures
        rat_lt_s(rat_mul_s(m, f), m),
{
}

/// Multiplying by a value of zero gives a value of zero.
pub proof fn lemma_mul_zero_right(x: Ratio, z: Ratio)
    by (nonlinear_arith)
    requires
        rat_wf(x),
        rat_wf(z),
        rat_eq_s(z, rat_int(0)),
    ensures
        rat_eq_s(rat_mul_s(x, z), rat_int(0)),
{
}

/// Subtracting a value of zero changes nothing.
pub proof fn lemma_sub_val_zero(x: Ratio, z: Ratio)
    by (nonlinear_arith)
    requires
        rat_wf(x),
        rat_wf(z),
        rat_eq_s(z, rat_int(0)),
    ensures
        rat_eq_s(rat_sub_s(x, z), x),
{
}

/// Adding a positive value grows a fraction.
pub proof fn lemma_add_pos(s: Ratio, m: Ratio)
    by (nonlinear_arith)
    requires
        rat_wf(s),
        rat_wf(m),
        m.num > 0,
    ensures
        rat_lt_s(s, rat_add_s(s, m)),
{
}

/// Subtraction from a fixed value reverses order.
pub proof fn lemma_sub_antitone(acc: Ratio, d1: Ratio, d2: Ratio)
    by (nonlinear_arith)
    requires
        rat_wf(acc),
        rat_wf(d1),
        rat_wf(d2),
        rat_le_s(d1, d2),
    ensures
        rat_le_s(rat_sub_s(acc, d2), rat_sub_s(acc, d1)),
{
}

/// Scaling by a non-negative value keeps order.
pub proof fn lemma_mul_mono_left(m: Ratio, f1: Ratio, f2: Ratio)
    by (nonlinear_arith)
    requires
        rat_wf(m),
        rat_wf(f1),
        rat_wf(f2),
        m.num >= 0,
        rat_le_s(f1, f2),
    ensures
        rat_le_s(rat_mul_s(m, f1), rat_mul_s(m, f2)),
{
}

/// Multiplication of fractions is commutative, fraction for fraction.
pub proof fn lemma_mul_comm(a: Ratio, b: Ratio)
    ensures
        rat_mul_s(a, b) == rat_mul_s(b, a),
{
    assert(a.num * b.num == b.num * a.num) by (nonlinear_arith);
    assert(a.den * b.den == b.den * a.den) by (nonlinear_arith);
}

/// The first two factors of a triple product can swap places.
pub proof fn lemma_mul_rotate(a: Ratio, b: Ratio, c: Ratio)
    ensures
        rat_mul_s(a, rat_mul_s(b, c)) == rat_mul_s(b, rat_mul_s(a, c)),
{
    assert(a.num * (b.num * c.num) == b.num * (a.num * c.num)) by (nonlinear_arith);
    assert(a.den * (b.den * c.den) == b.den * (a.den * c.den)) by (nonlinear_arith);
}

/// Negating a factor negates the product, fraction for fraction.
pub proof fn lemma_mul_neg_right(a: Ratio, b: Ratio)
    ensures
        rat_mul_s(a, rat_neg_s(b)) == rat_neg_s(rat_mul_s(a, b)),
{
    assert(a.num * -b.num == -(a.num * b.num)) by (nonlinear_arith);
}

/// Multiplication of integers distributes over sums and differences.
proof fn lemma_i_distrib(m: int, u: int, v: int)
    by (nonlinear_arith)
    ensures
        m * (u - v) == m * u - m * v,
        m * (u + v) == m * u + m * v,
{
}

/// Permutations of a four-factor integer product.
proof fn lemma_i_perm4(w: int, x: int, y: int, z: int)
    by (nonlinear_arith)
    ensures
        (w * x) * (y * z) == y * (w * (x * z)),
        (w * x) * (y * z) == z * (w * (x * y)),
        (w * x) * (y * z) == (x * y) * (w * z),
        (w * x) * (y * z) == (w * z) * (x * y),
{
}

/// Rotations of a three-factor integer product.
proof fn lemma_i_rot3(a: int, b: int, c: int)
    by (nonlinear_arith)
    ensures
        a * (b * c) == (a * b) * c,
        a * (b * c) == b * (a * c),
{
}

/// Multiplication distributes over subtraction up to value equality.
pub proof fn lemma_mul_distrib_sub(a: Ratio, b: Ratio, c: Ratio)
    requires
        rat_wf(a),
        rat_wf(b),
        rat_wf(c),
    ensures
        rat_eq_s(rat_mul_s(a, rat_sub_s(b, c)), rat_sub_s(rat_mul_s(a, b), rat_mul_s(a, c))),
{
    let l = rat_mul_s(a, rat_sub_s(b, c));
    let r = rat_sub_s(rat_mul_s(a, b), rat_mul_s(a, c));
    let k = a.num * (b.num * c.den - c.num * b.den);
    assert(l.num == k);
    lemma_i_perm4(a.num, b.num, a.den, c.den);
    lemma_i_perm4(a.num, c.num, a.den, b.den);
    lemma_i_distrib(a.num, b.num * c.den, c.num * b.den);
    lemma_i_distrib(a.den, a.num * (b.num * c.den), a.num * (c.num * b.den));
    assert(r.num == a.den * k);
    lemma_i_perm4(a.den, b.den, a.den, c.den);
    assert(r.den == a.den * l.den);
    lemma_i_rot3(k, a.den, l.den);
    lemma_i_rot3(a.den, k, l.den);
    assert(l.num * r.den == r.num * l.den);
}

/// A sum times a factor is the sum of the products, up to value equality.
pub proof fn lemma_mul_distrib_add_right(a: Ratio, b: Ratio, c: Ratio)
    requires
        rat_wf(a),
        rat_wf(b),
        rat_wf(c),
    ensures
        rat_eq_s(rat_mul_s(rat_add_s(a, b), c), rat_add_s(rat_mul_s(a, c), rat_mul_s(b, c))),
{
    let l = rat_mul_s(rat_add_s(a, b), c);
    let r = rat_add_s(rat_mul_s(a, c), rat_mul_s(b, c));
    let k = (a.num * b.den + b.num * a.den) * c.num;
    assert(l.num == k);
    lemma_i_perm4(a.num, c.num, b.den, c.den);
    lemma_i_perm4(b.num, c.num, a.den, c.den);
    assert((a.num * c.num) * (b.den * c.den) == c.den * (a.num * (c.num * b.den)));
    assert((b.num * c.num) * (a.den * c.den) == c.den * (b.num * (c.num * a.den)));
    lemma_i_distrib2(a.num * b.den, b.num * a.den, c.num);
    lemma_i_rot3(a.num, b.den, c.num);
    lemma_i_rot3(a.num, c.num, b.den);
    lemma_i_rot3(b.num, a.den, c.num);
    lemma_i_rot3(b.num, c.num, a.den);
    lemma_i_distrib(c.den, a.num * (c.num * b.den), b.num * (c.num * a.den));
    assert(r.num == c.den * ((a.num * b.den) * c.num + (b.num * a.den) * c.num)) by {
        assert(a.num * (c.num * b.den) == (a.num * b.den) * c.num) by {
            assert(a.num * (c.num * b.den) == a.num * (b.den * c.num));
            assert(a.num * (b.den * c.num) == (a.num * b.den) * c.num);
        }
        assert(b.num * (c.num * a.den) == (b.num * a.den) * c.num) by {
            assert(b.num * (c.num * a.den) == b.num * (a.den * c.num));
            assert(b.num * (a.den * c.num) == (b.num * a.den) * c.num);
        }
    }
    lemma_i_distrib(c.num, a.num * b.den, b.num * a.den);
    assert(k == (a.num * b.den) * c.num + (b.num * a.den) * c.num);
    assert(r.num == c.den * k);
    lemma_i_perm4(a.den, c.den, b.den, c.den);
    assert(r.den == c.den * l.den) by {
        assert((a.den * c.den) * (b.den * c.den) == c.den * (a.den * (c.den * b.den)))
            by (nonlinear_arith);
        assert(l.den == (a.den * b.den) * c.den);
        assert(c.den * (a.den * (c.den * b.den)) == c.den * ((a.den * b.den) * c.den))
            by (nonlinear_arith);
    }
    lemma_i_rot3(k, c.den, l.den);
    lemma_i_rot3(c.den, k, l.den);
    assert(l.num * r.den == r.num * l.den);
}

/// Multiplication of fractions is associative, fraction for fraction.
pub proof fn lemma_mul_assoc(a: Ratio, b: Ratio, c: Ratio)
    ensures
        rat_mul_s(rat_mul_s(a, b), c) == rat_mul_s(a, rat_mul_s(b, c)),
{
    lemma_i_rot3(a.num, b.num, c.num);
    lemma_i_rot3(a.den, b.den, c.den);
}

/// Addition of fractions is commutative, fraction for fraction.
pub proof fn lemma_add_comm(a: Ratio, b: Ratio)
    ensures
        rat_add_s(a, b) == rat_add_s(b, a),
{
    assert(a.den * b.den == b.den * a.den) by (nonlinear_arith);
}

/// A difference times a factor is the difference of the products, up to
/// value equality.
pub proof fn lemma_mul_distrib_sub_right(a: Ratio, b: Ratio, c: Ratio)
    requires
        rat_wf(a),
        rat_wf(b),
        rat_wf(c),
    ensures
        rat_eq_s(rat_mul_s(rat_sub_s(a, b), c), rat_sub_s(rat_mul_s(a, c), rat_mul_s(b, c))),
{
    let l = rat_mul_s(rat_sub_s(a, b), c);
    let r = rat_sub_s(rat_mul_s(a, c), rat_mul_s(b, c));
    let k = (a.num * b.den - b.num * a.den) * c.num;
    assert(l.num == k);
    lemma_i_perm4(a.num, c.num, b.den, c.den);
    lemma_i_perm4(b.num, c.num, a.den, c.den);
    assert((a.num * c.num) * (b.den * c.den) == c.den * (a.num * (c.num * b.den)));
    assert((b.num * c.num) * (a.den * c.den) == c.den * (b.num * (c.num * a.den)));
    lemma_i_distrib2(a.num * b.den, b.num * a.den, c.num);
    lemma_i_rot3(a.num, b.den, c.num);
    lemma_i_rot3(a.num, c.num, b.den);
    lemma_i_rot3(b.num, a.den, c.num);
    lemma_i_rot3(b.num, c.num, a.den);
    lemma_i_distrib(c.den, a.num * (c.num * b.den), b.num * (c.num * a.den));
    assert(r.num == c.den * k) by {
        assert(a.num * (c.num * b.den) == (a.num * b.den) * c.num) by {
            assert(a.num * (c.num * b.den) == a.num * (b.den * c.num));
            assert(a.num * (b.den * c.num) == (a.num * b.den) * c.num);
        }
        assert(b.num * (c.num * a.den) == (b.num * a.den) * c.num) by {
            assert(b.num * (c.num * a.den) == b.num * (a.den * c.num));
            assert(b.num * (a.den * c.num) == (b.num * a.den) * c.num);
        }
    }
    lemma_i_perm4(a.den, c.den, b.den, c.den);
    assert(r.den == c.den * l.den) by {
        assert((a.den * c.den) * (b.den * c.den) == c.den * (a.den * (c.den * b.den)))
            by (nonlinear_arith);
        assert(l.den == (a.den * b.den) * c.den);
        assert(c.den * (a.den * (c.den * b.den)) == c.den * ((a.den * b.den) * c.den))
            by (nonlinear_arith);
    }
    lemma_i_rot3(k, c.den, l.den);
    lemma_i_rot3(c.den, k, l.den);
    assert(l.num * r.den == r.num * l.den);
}

/// Solving a difference for the other operand: if `y` has the value of
/// `c - w`, then `w` has the value of `c - y`.
pub proof fn lemma_sub_flip(c: Ratio, w: Ratio, y: Ratio)
    by (nonlinear_arith)
    requires
        rat_wf(c),
        rat_wf(w),
        rat_wf(y),
        rat_eq_s(y, rat_sub_s(c, w)),
    ensures
        rat_eq_s(w, rat_sub_s(c, y)),
{
}

/// Multiplying a quotient by its non-zero divisor restores the dividend's
/// value.
pub proof fn lemma_div_mul(y: Ratio, z: Ratio)
    requires
        rat_wf(y),
        rat_wf(z),
        z.num != 0,
    ensures
        rat_eq_s(rat_mul_s(rat_div_s(y, z), z), y),
{
    let q = rat_div_s(y, z);
    let m = rat_mul_s(q, z);
    if z.num >= 0 {
        assert(m.num * y.den == y.num * m.den) by (nonlinear_arith)
            requires
                m.num == (y.num * z.den) * z.num,
                m.den == (y.den * z.num) * z.den,
    ;
    } else {
        assert(m.num * y.den == y.num * m.den) by (nonlinear_arith)
            requires
                m.num == -(y.num * z.den) * z.num,
                m.den == -(y.den * z.num) * z.den,
    ;
    }
}

/// Equal products with a non-zero common factor have equal co-factors.
pub proof fn lemma_mul_cancel(x: Ratio, y: Ratio, z: Ratio)
    requires
        rat_wf(x),
        rat_wf(y),
        rat_wf(z),
        z.num != 0,
        rat_eq_s(rat_mul_s(x, z), rat_mul_s(y, z)),
    ensures
        rat_eq_s(x, y),
{
    let u = x.num * y.den;
    let v = y.num * x.den;
    let w = z.num * z.den;
    assert(w != 0) by (nonlinear_arith)
        requires
            z.num != 0,
            z.den > 0,
            w == z.num * z.den,
    ;
    assert(u * w == v * w) by (nonlinear_arith)
        requires
            (x.num * z.num) * (y.den * z.den) == (y.num * z.num) * (x.den * z.den),
            u == x.num * y.den,
            v == y.num * x.den,
            w == z.num * z.den,
    ;
    assert(u == v) by (nonlinear_arith)
        requires
            u * w == v * w,
            w != 0,
    ;
}

/// Two chained differences telescope.
pub proof fn lemma_sub_chain(x: Ratio, y: Ratio, z: Ratio)
    requires
        rat_wf(x),
        rat_wf(y),
        rat_wf(z),
    ensures
        rat_eq_s(rat_add_s(rat_sub_s(x, y), rat_sub_s(y, z)), rat_sub_s(x, z)),
{
    let l = rat_add_s(rat_sub_s(x, y), rat_sub_s(y, z));
    let r = rat_sub_s(x, z);
    let yd2 = y.den * y.den;
    assert(l.num == yd2 * r.num) by {
        lemma_i_distrib2(x.num * y.den, y.num * x.den, y.den * z.den);
        lemma_i_distrib2(y.num * z.den, z.num * y.den, x.den * y.den);
        lemma_i_perm4(x.num, y.den, y.den, z.den);
        lemma_i_perm4(y.num, x.den, y.den, z.den);
        lemma_i_perm4(y.num, z.den, x.den, y.den);
        lemma_i_perm4(z.num, y.den, x.den, y.den);
        assert((y.num * x.den) * (y.den * z.den) == (y.num * z.den) * (x.den * y.den))
            by (nonlinear_arith);
        assert((x.num * y.den) * (y.den * z.den) == (y.den * y.den) * (x.num * z.den))
            by (nonlinear_arith);
        assert((z.num * y.den) * (x.den * y.den) == (y.den * y.den) * (z.num * x.den))
            by (nonlinear_arith);
        lemma_i_distrib(yd2, x.num * z.den, z.num * x.den);
    }
    assert(l.den == yd2 * r.den) by {
        assert((x.den * y.den) * (y.den * z.den) == (y.den * y.den) * (x.den * z.den))
            by (nonlinear_arith);
    }
    lemma_i_rot3(yd2, r.num, r.den);
    lemma_i_rot3(r.num, yd2, r.den);
    assert(l.num * r.den == (yd2 * r.num) * r.den);
    assert(r.num * l.den == r.num * (yd2 * r.den));
    assert((yd2 * r.num) * r.den == r.num * (yd2 * r.den)) by (nonlinear_arith);
}

/// A difference times a factor is the difference of the products, over the
/// integers.
proof fn lemma_i_distrib2(u: int, v: int, m: int)
    by (nonlinear_arith)
    ensures
        (u - v) * m == u * m - v * m,
        (u + v) * m == u * m + v * m,
{
}

/// The largest integer whose square does not exceed `n` (0 for negative `n`).
pub open spec fn sqrt_floor(n: int) -> int
    decreases n,
{
    if n <= 0 {
        0
    } else {
        let r = sqrt_floor(n - 1);
        if (r + 1) * (r + 1) <= n {
            r + 1
        } else {
            r
        }
    }
}

pub proof fn lemma_sqrt_floor_bounds(n: int)
    requires
        n >= 0,
    ensures
        sqrt_floor(n) >= 0,
        sqrt_floor(n) * sqrt_floor(n) <= n,
        n < (sqrt_floor(n) + 1) * (sqrt_floor(n) + 1),
    decreases n,
{
    if n == 0 {
        assert(sqrt_floor(0) == 0);
    } else {
        lemma_sqrt_floor_bounds(n - 1);
        let r = sqrt_floor(n - 1);
        if (r + 1) * (r + 1) <= n {
            assert(n < (r + 1 + 1) * (r + 1 + 1)) by (nonlinear_arith)
                requires
                    r >= 0,
                    n - 1 < (r + 1) * (r + 1),
            ;
        }
    }
}

pub proof fn lemma_sqrt_floor_unique(n: int, r: int)
    requires
        n >= 0,
        r >= 0,
        r * r <= n,
        n < (r + 1) * (r + 1),
    ensures
        r == sqrt_floor(n),
{
    lemma_sqrt_floor_bounds(n);
    let s = sqrt_floor(n);
    assert(r == s) by (nonlinear_arith)
        requires
            r >= 0,
            s >= 0,
            r * r <= n,
            n < (r + 1) * (r + 1),
            s * s <= n,
            n < (s + 1) * (s + 1),
    ;
}

/// Computes the floor square root of a non-negative integer by binary
/// search.
pub(crate) fn isqrt(n: &num_bigint::BigInt) -> (r: num_bigint::BigInt)
    requires
        big_val(*n) >= 0,
    ensures
        big_val(r) == sqrt_floor(big_val(*n)),
{
    let one = big_from_i64(1);
    let mut lo = big_from_i64(0);
    let mut hi = big_add(n, &one);
    proof {
        assert(big_val(*n) < (big_val(*n) + 1) * (big_val(*n) + 1)) by (nonlinear_arith)
            requires
                big_val(*n) >= 0,
        ;
    }
    let mut wide = big_lt(&one, &big_sub(&hi, &lo));
    while wide
        invariant
            0 <= big_val(lo) < big_val(hi),
            big_val(lo) * big_val(lo) <= big_val(*n),
            big_val(*n) < big_val(hi) * big_val(hi),
            big_val(one) == 1,
            wide <==> 1 < big_val(hi) - big_val(lo),
        decreases big_val(hi) - big_val(lo),
    {
        let mid = big_half(&big_add(&lo, &hi));
        proof {
            assert(big_val(lo) < big_val(mid) < big_val(hi)) by {
                assert(big_val(lo) + big_val(hi) >= 2 * big_val(lo) + 2);
                assert(big_val(lo) + big_val(hi) <= 2 * big_val(hi) - 2);
            };
        }
        let mid_sq = big_mul(&mid, &mid);
        if big_le(&mid_sq, n) {
            lo = mid;
        } else {
            hi = mid;
        }
        wide = big_lt(&one, &big_sub(&hi, &lo));
    }
    proof {
        assert(big_val(hi) == big_val(lo) + 1);
        lemma_sqrt_floor_unique(big_val(*n), big_val(lo));
    }
    lo
}

/// Denominator scale of the square-root approximation: ten to the
/// fifteenth.
pub open spec fn sqrt_scale() -> int {
    1000000000000000
}

/// The canonical square-root approximation of a fraction `q`: the floor
/// square root of `q` scaled by [`sqrt_scale`], so the result is below the
/// true root by less than one part in `q.den * sqrt_scale()`.  Exact
/// whenever `q.num * q.den` is a perfect square.
pub open spec fn rat_sqrt_s(q: Ratio) -> Ratio {
    Ratio {
        num: sqrt_floor(q.num * q.den * sqrt_scale() * sqrt_scale()),
        den: q.den * sqrt_scale(),
    }
}

impl Rat {
    /// The canonical square-root approximation [`rat_sqrt_s`] of a
    /// non-negative fraction.
    pub fn sqrt(&self) -> (r: Rat)
        requires
            self.valid(),
            self@.num >= 0,
        ensures
            r@ == rat_sqrt_s(self@),
            r.valid(),
            r@.num >= 0,
    {
        let scale = big_from_i64(1000000000000000);
        let scaled = big_mul(&big_mul(&big_mul(&self.num, &self.den), &scale), &scale);
        proof {
            assert(big_val(scaled) >= 0) by (nonlinear_arith)
                requires
                    big_val(scaled) == big_val(self.num) * big_val(self.den)
                        * 1000000000000000 * 1000000000000000,
                    big_val(self.num) >= 0,
                    big_val(self.den) > 0,
            ;
            lemma_sqrt_floor_bounds(big_val(scaled));
            lemma_pos_mul(big_val(self.den), sqrt_scale());
        }
        let root = isqrt(&scaled);
        Rat { num: root, den: big_mul(&self.den, &scale) }
    }
}

/// The square-root approximation of a non-negative fraction is a
/// well-formed, non-negative fraction.
pub proof fn lemma_rat_sqrt_shape(q: Ratio)
    requires
        rat_wf(q),
        q.num >= 0,
    ensures
        rat_wf(rat_sqrt_s(q)),
        rat_sqrt_s(q).num >= 0,
{
    let m = q.num * q.den * sqrt_scale() * sqrt_scale();
    assert(m >= 0) by (nonlinear_arith)
        requires
            q.num >= 0,
            q.den > 0,
            m == q.num * q.den * sqrt_scale() * sqrt_scale(),
    ;
    lemma_sqrt_floor_bounds(m);
    lemma_pos_mul(q.den, sqrt_scale());
}

/// The square-root approximation of a positive fraction is positive: the
/// scaled radicand is at least the square of the scale, so its floor root
/// is at least the scale.
pub proof fn lemma_rat_sqrt_pos(q: Ratio)
    requires
        rat_wf(q),
        q.num > 0,
    ensures
        rat_sqrt_s(q).num > 0,
        rat_sqrt_s(q).den > 0,
{
    let m = q.num * q.den * sqrt_scale() * sqrt_scale();
    assert(m >= sqrt_scale() * sqrt_scale()) by (nonlinear_arith)
        requires
            q.num >= 1,
            q.den >= 1,
            m == q.num * q.den * sqrt_scale() * sqrt_scale(),
    ;
    lemma_sqrt_floor_bounds(m);
    let r = sqrt_floor(m);
    assert(r > 0) by (nonlinear_arith)
        requires
            r >= 0,
            m < (r + 1) * (r + 1),
            m >= sqrt_scale() * sqrt_scale(),
    ;
    lemma_pos_mul(q.den, sqrt_scale());
}

} // verus!
