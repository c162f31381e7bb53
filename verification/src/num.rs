//! Exact decimal numbers: the runtime number domain of the language.
//!
//! A number is a mantissa over a power of ten, kept in lowest decimal form:
//! the value of `Num { m, s }` is `m / 10^s`.  The mantissa is bounded by
//! `i64::MAX` in magnitude, so a number carries at most nineteen significant
//! digits; operations whose exact result cannot be represented report `None`
//! and the evaluator turns that into an overflow error.  Division truncates
//! the quotient toward zero at nine fractional digits.

use vstd::prelude::*;
use vstd::arithmetic::power::{pow, lemma_pow0, lemma_pow1, lemma_pow_adds, lemma_pow_positive, lemma_pow_increases};
use vstd::arithmetic::mul::{lemma_mul_equality_converse};
use vstd::arithmetic::div_mod::{lemma_div_multiples_vanish, lemma_mod_multiples_basic};
use vstd::math::abs;

verus! {

/// Mathematical view of a number: the value `m / 10^s`.
pub struct NumV {
    pub m: int,
    pub s: nat,
}

/// `10^e`.
pub open spec fn p10(e: nat) -> int {
    pow(10, e)
}

/// A view is in canonical form: mantissa bounded symmetrically by `i64::MAX`,
/// and no trailing zero digit while a fractional scale remains.
pub open spec fn normal(v: NumV) -> bool {
    &&& -(i64::MAX as int) <= v.m <= i64::MAX as int
    &&& (v.s > 0 ==> v.m % 10 != 0)
}

/// Value order: `a.m / 10^a.s < b.m / 10^b.s`, cross-multiplied.
pub open spec fn num_lt_v(a: NumV, b: NumV) -> bool {
    a.m * p10(b.s) < b.m * p10(a.s)
}

/// Value order, non-strict.
pub open spec fn num_le_v(a: NumV, b: NumV) -> bool {
    a.m * p10(b.s) <= b.m * p10(a.s)
}

/// Value equality, cross-multiplied.
pub open spec fn num_eq_v(a: NumV, b: NumV) -> bool {
    a.m * p10(b.s) == b.m * p10(a.s)
}

/// Strip factors of ten from the mantissa while a fractional scale remains.
pub open spec fn norm_v(m: int, s: nat) -> NumV
    decreases s,
{
    if s > 0 && m % 10 == 0 {
        norm_v(m / 10, (s - 1) as nat)
    } else {
        NumV { m, s }
    }
}

/// Canonical form if the mantissa fits, `None` otherwise.
pub open spec fn norm_fit_v(m: int, s: nat) -> Option<NumV> {
    let n = norm_v(m, s);
    if -(i64::MAX as int) <= n.m <= i64::MAX as int {
        Some(n)
    } else {
        None
    }
}

/// Exact decimal sum, `None` when the result has no canonical form within
/// nineteen significant digits.
pub open spec fn add_v(a: NumV, b: NumV) -> Option<NumV> {
    if a.m == 0 {
        Some(b)
    } else if b.m == 0 {
        Some(a)
    } else {
        let lo = if a.s <= b.s { a } else { b };
        let hi = if a.s <= b.s { b } else { a };
        let d = (hi.s - lo.s) as nat;
        if d > 19 {
            None
        } else {
            norm_fit_v(lo.m * p10(d) + hi.m, hi.s)
        }
    }
}

/// The number with the mantissa negated: the additive inverse.
pub open spec fn neg_v(a: NumV) -> NumV {
    NumV { m: -a.m, s: a.s }
}

/// Exact decimal difference: `a + (-b)`.
pub open spec fn sub_v(a: NumV, b: NumV) -> Option<NumV> {
    add_v(a, neg_v(b))
}

/// Exact decimal product, `None` when out of range.
pub open spec fn mul_v(a: NumV, b: NumV) -> Option<NumV> {
    if a.s + b.s > u32::MAX {
        None
    } else {
        norm_fit_v(a.m * b.m, a.s + b.s)
    }
}

/// Decimal quotient truncated toward zero at nine fractional digits,
/// `None` when an intermediate leaves the 128-bit range.
pub open spec fn div_v(a: NumV, b: NumV) -> Option<NumV>
    recommends
        b.m != 0,
{
    if a.m == 0 {
        Some(NumV { m: 0, s: 0 })
    } else {
        let e = b.s + 9 - a.s;
        let num = if e >= 0 { abs(a.m) * p10(e as nat) } else { abs(a.m) as int };
        let den = if e >= 0 { abs(b.m) as int } else { abs(b.m) * p10((-e) as nat) };
        if num > u128::MAX as int || den > u128::MAX as int {
            None
        } else {
            let q = num / den;
            if q > i128::MAX as int {
                None
            } else {
                let sq: int = if (a.m < 0) != (b.m < 0) { -q } else { q };
                norm_fit_v(sq, 9)
            }
        }
    }
}

/// The view of an optional number.
pub open spec fn opt_view(r: Option<Num>) -> Option<NumV> {
    match r {
        Some(n) => Some(n@),
        None => None,
    }
}

/// A runtime number in canonical form.
#[derive(Clone, Copy, PartialEq, Eq, Structural, Debug)]
pub struct Num {
    m: i64,
    s: u32,
}

impl View for Num {
    type V = NumV;

    closed spec fn view(&self) -> NumV {
        NumV { m: self.m as int, s: self.s as nat }
    }
}

pub proof fn lemma_p10_vals()
    ensures
        p10(0) == 1,
        p10(1) == 10,
        p10(2) == 100,
        p10(4) == 10000,
        p10(8) == 100000000,
        p10(9) == 1000000000,
        p10(16) == 0x2386f26fc10000,
        p10(19) == 10000000000000000000,
        p10(20) == 100000000000000000000,
        p10(32) == 100000000000000000000000000000000,
        p10(38) == 100000000000000000000000000000000000000,
        p10(39) == 1000000000000000000000000000000000000000,
{
    lemma_pow0(10);
    lemma_pow1(10);
    lemma_pow_adds(10, 1, 1);
    assert((10 as int) * 10 == 100) by (nonlinear_arith);
    lemma_pow_adds(10, 2, 2);
    assert((100 as int) * 100 == 10000) by (nonlinear_arith);
    lemma_pow_adds(10, 4, 4);
    assert((10000 as int) * 10000 == 100000000) by (nonlinear_arith);
    lemma_pow_adds(10, 8, 8);
    assert((100000000 as int) * 100000000 == 0x2386f26fc10000) by (nonlinear_arith);
    lemma_pow_adds(10, 8, 1);
    assert((100000000 as int) * 10 == 1000000000) by (nonlinear_arith);
    lemma_pow_adds(10, 16, 2);
    assert((0x2386f26fc10000 as int) * 100 == 1000000000000000000) by (nonlinear_arith);
    lemma_pow_adds(10, 18, 1);
    assert((1000000000000000000 as int) * 10 == 10000000000000000000) by (nonlinear_arith);
    lemma_pow_adds(10, 19, 1);
    assert((10000000000000000000 as int) * 10 == 100000000000000000000) by (nonlinear_arith);
    lemma_pow_adds(10, 16, 16);
    assert((0x2386f26fc10000 as int) * 0x2386f26fc10000 == 100000000000000000000000000000000)
        by (nonlinear_arith);
    lemma_pow_adds(10, 32, 4);
    assert((100000000000000000000000000000000 as int) * 10000
        == 1000000000000000000000000000000000000) by (nonlinear_arith);
    lemma_pow_adds(10, 36, 2);
    assert((1000000000000000000000000000000000000 as int) * 100
        == 100000000000000000000000000000000000000) by (nonlinear_arith);
    lemma_pow_adds(10, 38, 1);
    assert((100000000000000000000000000000000000000 as int) * 10
        == 1000000000000000000000000000000000000000) by (nonlinear_arith);
}

pub proof fn lemma_p10_pos(e: nat)
    ensures
        p10(e) >= 1,
{
    lemma_pow_positive(10, e);
}

pub proof fn lemma_p10_mono(e1: nat, e2: nat)
    requires
        e1 <= e2,
    ensures
        p10(e1) <= p10(e2),
{
    lemma_pow_increases(10, e1, e2);
}

/// `10^d` for `d <= 19`.
fn pow10_small(d: u32) -> (r: i128)
    requires
        d <= 19,
    ensures
        r == p10(d as nat),
        1 <= r <= 10000000000000000000,
{
    proof {
        lemma_p10_vals();
        lemma_p10_pos(d as nat);
        lemma_p10_mono(d as nat, 19);
    }
    let mut i: u32 = 0;
    let mut acc: i128 = 1;
    proof {
        lemma_pow0(10);
    }
    while i < d
        invariant
            i <= d <= 19,
            acc == p10(i as nat),
            1 <= acc <= 10000000000000000000,
        decreases d - i,
    {
        proof {
            lemma_pow_adds(10, i as nat, 1);
            lemma_pow1(10);
            lemma_p10_vals();
            lemma_p10_mono((i + 1) as nat, 19);
            lemma_p10_pos(i as nat);
        }
        acc = acc * 10;
        i = i + 1;
    }
    acc
}

/// `10^d` as an unsigned 128-bit value, `None` for `d > 38`.
fn pow10_u128(d: u32) -> (r: Option<u128>)
    ensures
        d <= 38 ==> r == Some::<u128>(p10(d as nat) as u128) && r.unwrap() == p10(d as nat),
        d > 38 ==> r is None,
{
    if d > 38 {
        return None;
    }
    proof {
        lemma_p10_vals();
        lemma_p10_pos(d as nat);
        lemma_p10_mono(d as nat, 38);
    }
    let mut i: u32 = 0;
    let mut acc: u128 = 1;
    proof {
        lemma_pow0(10);
    }
    while i < d
        invariant
            i <= d <= 38,
            acc == p10(i as nat),
            1 <= acc <= 100000000000000000000000000000000000000,
        decreases d - i,
    {
        proof {
            lemma_pow_adds(10, i as nat, 1);
            lemma_pow1(10);
            lemma_p10_vals();
            lemma_p10_mono((i + 1) as nat, 38);
            lemma_p10_pos(i as nat);
        }
        acc = acc * 10;
        i = i + 1;
    }
    Some(acc)
}

/// Strip trailing zero digits and box the mantissa into its bound.
fn norm_fit(m0: i128, s0: u32) -> (r: Option<Num>)
    requires
        -0x7fffffffffffffffffffffffffffffff <= m0 <= 0x7fffffffffffffffffffffffffffffff,
    ensures
        opt_view(r) == norm_fit_v(m0 as int, s0 as nat),
        r matches Some(n) ==> normal(n@),
{
    let neg: bool = m0 < 0;
    let mut mag: u128 = if m0 < 0 { (-m0) as u128 } else { m0 as u128 };
    let mut sc: u32 = s0;
    proof {
        assert(cur_val(neg, mag as nat) == m0 as int);
    }
    while sc > 0 && mag % 10 == 0
        invariant
            mag <= 0x7fffffffffffffffffffffffffffffff,
            neg ==> mag > 0 || mag == 0,
            norm_v(cur_val(neg, mag as nat), sc as nat) == norm_v(m0 as int, s0 as nat),
        decreases sc,
    {
        proof {
            let v = cur_val(neg, mag as nat);
            assert(mag == 10 * (mag as nat / 10)) by {
                assert(mag % 10 == 0);
            };
            lemma_div_multiples_vanish(mag as int / 10, 10);
            assert(v % 10 == 0) by {
                if neg {
                    assert(v == (-10) * (mag as int / 10));
                    lemma_mod_multiples_basic(-(mag as int / 10), 10);
                    assert((10 * (-(mag as int / 10))) % 10 == 0);
                    assert(v == 10 * (-(mag as int / 10)));
                } else {
                    lemma_mod_multiples_basic(mag as int / 10, 10);
                }
            };
            assert(v / 10 == cur_val(neg, (mag / 10) as nat)) by {
                if neg {
                    assert(v == 10 * (-(mag as int / 10)));
                    lemma_div_multiples_vanish(-(mag as int / 10), 10);
                } else {
                    assert(v == 10 * (mag as int / 10));
                    lemma_div_multiples_vanish(mag as int / 10, 10);
                }
            };
        }
        mag = mag / 10;
        sc = sc - 1;
    }
    if mag <= 0x7fffffffffffffff {
        let m: i64 = if neg { -(mag as i64) } else { mag as i64 };
        proof {
            assert(cur_val(neg, mag as nat) == m as int);
        }
        Some(Num { m, s: sc })
    } else {
        None
    }
}

/// The signed value carried through the normalization loop.
pub open spec fn cur_val(neg: bool, mag: nat) -> int {
    if neg {
        -(mag as int)
    } else {
        mag as int
    }
}

impl Num {
    /// The canonical-form invariant of a runtime number.
    pub open spec fn inv(&self) -> bool {
        normal(self@)
    }

    /// Build a number worth `m / 10^s`, normalizing the representation.
    pub fn new(m: i64, s: u32) -> (r: Num)
        requires
            m != i64::MIN,
        ensures
            r.inv(),
            r@ == norm_v(m as int, s as nat),
    {
        let r = norm_fit(m as i128, s);
        proof {
            lemma_norm_small(m as int, s as nat);
        }
        match r {
            Some(n) => n,
            None => Num { m: 0, s: 0 },
        }
    }

    /// The whole number `m`.
    pub fn from_int(m: i64) -> (r: Num)
        requires
            m != i64::MIN,
        ensures
            r.inv(),
            r@ == (NumV { m: m as int, s: 0 }),
    {
        Num::new(m, 0)
    }

    /// Whether the number is zero.
    pub fn is_zero(&self) -> (r: bool)
        ensures
            r == (self@.m == 0),
    {
        self.m == 0
    }

    /// Whether two numbers have the same representation.
    pub fn same_repr(&self, other: &Num) -> (r: bool)
        ensures
            r == (self@ == other@),
    {
        self.m == other.m && self.s == other.s
    }

    /// Whether the representation is canonical.
    pub fn is_normal(&self) -> (r: bool)
        ensures
            r == normal(self@),
    {
        if self.m == i64::MIN {
            return false;
        }
        if self.s == 0 {
            return true;
        }
        let mag: u64 = if self.m < 0 { (-self.m) as u64 } else { self.m as u64 };
        let rem: u64 = mag % 10;
        proof {
            let m = self.m as int;
            let g = mag as int;
            if rem == 0 {
                let q = g / 10;
                assert(g == 10 * q + g % 10) by {
                    vstd::arithmetic::div_mod::lemma_fundamental_div_mod(g, 10);
                };
                if m < 0 {
                    assert(m == 10 * (-q));
                    lemma_mod_multiples_basic(-q, 10);
                } else {
                    assert(m == 10 * q);
                    lemma_mod_multiples_basic(q, 10);
                }
            } else {
                if m % 10 == 0 {
                    let k = m / 10;
                    assert(m == 10 * k + m % 10) by {
                        vstd::arithmetic::div_mod::lemma_fundamental_div_mod(m, 10);
                    };
                    if m < 0 {
                        assert(g == 10 * (-k));
                        lemma_mod_multiples_basic(-k, 10);
                    } else {
                        assert(g == 10 * k);
                        lemma_mod_multiples_basic(k, 10);
                    }
                    assert(g % 10 == 0);
                    assert(false);
                }
            }
        }
        rem != 0
    }

    /// The additive inverse.
    pub fn neg(&self) -> (r: Num)
        requires
            self.inv(),
        ensures
            r.inv(),
            r@ == neg_v(self@),
    {
        Num { m: -self.m, s: self.s }
    }

    /// Exact sum; `None` when the result leaves the representable range.
    pub fn add(&self, other: &Num) -> (r: Option<Num>)
        requires
            self.inv(),
            other.inv(),
        ensures
            opt_view(r) == add_v(self@, other@),
            r matches Some(n) ==> n.inv(),
    {
        if self.m == 0 {
            return Some(*other);
        }
        if other.m == 0 {
            return Some(*self);
        }
        let (lo, hi) = if self.s <= other.s { (*self, *other) } else { (*other, *self) };
        let d: u32 = hi.s - lo.s;
        if d > 19 {
            return None;
        }
        let f: i128 = pow10_small(d);
        proof {
            lemma_p10_vals();
            assert(-(10000000000000000000 as int) * 10000000000000000000 <= (lo.m as int) * f
                <= (10000000000000000000 as int) * 10000000000000000000) by (nonlinear_arith)
                requires
                    -10000000000000000000 <= lo.m as int <= 10000000000000000000,
                    1 <= f <= 10000000000000000000,
            ;
        }
        let aligned: i128 = (lo.m as i128) * f;
        let sum: i128 = aligned + (hi.m as i128);
        norm_fit(sum, hi.s)
    }

    /// Exact difference; `None` when the result leaves the representable range.
    pub fn sub(&self, other: &Num) -> (r: Option<Num>)
        requires
            self.inv(),
            other.inv(),
        ensures
            opt_view(r) == sub_v(self@, other@),
            r matches Some(n) ==> n.inv(),
    {
        let negated = other.neg();
        self.add(&negated)
    }

    /// Exact product; `None` when the result leaves the representable range.
    pub fn mul(&self, other: &Num) -> (r: Option<Num>)
        requires
            self.inv(),
            other.inv(),
        ensures
            opt_view(r) == mul_v(self@, other@),
            r matches Some(n) ==> n.inv(),
    {
        let s: Option<u32> = self.s.checked_add(other.s);
        match s {
            None => None,
            Some(sc) => {
                proof {
                    assert(-0x7fffffffffffffffffffffffffffffff <= (self.m as int) * (other.m as int)
                        <= 0x7fffffffffffffffffffffffffffffff) by (nonlinear_arith)
                        requires
                            -0x7fffffffffffffff <= self.m as int <= 0x7fffffffffffffff,
                            -0x7fffffffffffffff <= other.m as int <= 0x7fffffffffffffff,
                    ;
                }
                let prod: i128 = (self.m as i128) * (other.m as i128);
                norm_fit(prod, sc)
            },
        }
    }

    /// Quotient truncated toward zero at nine fractional digits; `None` when
    /// the result leaves the representable range.  The divisor must not be
    /// zero: the evaluator reports that case separately.
    pub fn div(&self, other: &Num) -> (r: Option<Num>)
        requires
            self.inv(),
            other.inv(),
            other@.m != 0,
        ensures
            opt_view(r) == div_v(self@, other@),
            r matches Some(n) ==> n.inv(),
    {
        if self.m == 0 {
            return Some(Num { m: 0, s: 0 });
        }
        let ghost e: int = other@.s + 9 - self@.s;
        let a_mag: u128 = if self.m < 0 { (-(self.m as i128)) as u128 } else { self.m as u128 };
        let b_mag: u128 = if other.m < 0 { (-(other.m as i128)) as u128 } else { other.m as u128 };
        let neg: bool = (self.m < 0) != (other.m < 0);
        let es: i64 = other.s as i64 + 9 - self.s as i64;
        proof {
            assert(a_mag as int == abs(self@.m));
            assert(b_mag as int == abs(other@.m));
            assert(a_mag >= 1 && b_mag >= 1);
            assert(es as int == e);
        }
        let num: Option<u128>;
        let den: u128;
        if es >= 0 {
            let f = pow10_u128_abs(es as u64);
            num = checked_mul_u128(a_mag, f);
            den = b_mag;
            proof {
                if f is None {
                    lemma_p10_vals();
                    lemma_p10_mono(39, e as nat);
                    assert(abs(self@.m) * p10(e as nat) > u128::MAX) by (nonlinear_arith)
                        requires
                            abs(self@.m) >= 1,
                            p10(e as nat) >= 1000000000000000000000000000000000000000,
                    ;
                }
            }
        } else {
            let f = pow10_u128_abs((-es) as u64);
            num = Some(a_mag);
            let d = checked_mul_u128(b_mag, f);
            proof {
                if f is None {
                    lemma_p10_vals();
                    lemma_p10_mono(39, (-e) as nat);
                    assert(abs(other@.m) * p10((-e) as nat) > u128::MAX) by (nonlinear_arith)
                        requires
                            abs(other@.m) >= 1,
                            p10((-e) as nat) >= 1000000000000000000000000000000000000000,
                    ;
                }
            }
            match d {
                Some(dd) => {
                    proof {
                        lemma_p10_pos((-e) as nat);
                        assert(abs(other@.m) * p10((-e) as nat) >= 1) by (nonlinear_arith)
                            requires
                                abs(other@.m) >= 1,
                                p10((-e) as nat) >= 1,
                        ;
                    }
                    den = dd;
                },
                None => {
                    return None;
                },
            }
        }
        match num {
            Some(n) => {
                let q: u128 = n / den;
                if q > 0x7fffffffffffffffffffffffffffffff {
                    None
                } else {
                    let sq: i128 = if neg { -(q as i128) } else { q as i128 };
                    norm_fit(sq, 9)
                }
            },
            None => None,
        }
    }
}

/// Normalization does not change the value: `m / 10^s` equals
/// `norm_v(m, s).m / 10^norm_v(m, s).s`, cross-multiplied.
pub proof fn lemma_norm_keeps_value(m: int, s: nat)
    ensures
        norm_v(m, s).m * p10(s) == m * p10(norm_v(m, s).s),
    decreases s,
{
    if s > 0 && m % 10 == 0 {
        let k = m / 10;
        assert(m == 10 * k + m % 10) by {
            vstd::arithmetic::div_mod::lemma_fundamental_div_mod(m, 10);
        };
        lemma_norm_keeps_value(k, (s - 1) as nat);
        let n = norm_v(k, (s - 1) as nat);
        lemma_pow_adds(10, 1, (s - 1) as nat);
        lemma_pow1(10);
        assert(n.m * p10(s) == m * p10(n.s)) by (nonlinear_arith)
            requires
                n.m * p10((s - 1) as nat) == k * p10(n.s),
                p10(s) == 10 * p10((s - 1) as nat),
                m == 10 * k,
        ;
    }
}

/// When the sum is representable, its value is exactly the sum of the
/// operands' values: `r = a + b` cross-multiplied over the powers of ten.
pub proof fn lemma_add_v_is_sum(a: NumV, b: NumV)
    requires
        add_v(a, b) matches Some(r),
    ensures
        ({
            let r = add_v(a, b).unwrap();
            r.m * (p10(a.s) * p10(b.s)) == (a.m * p10(b.s) + b.m * p10(a.s)) * p10(r.s)
        }),
{
    let r = add_v(a, b).unwrap();
    if a.m == 0 {
        lemma_p10_pos(a.s);
        assert(r.m * (p10(a.s) * p10(b.s)) == (a.m * p10(b.s) + b.m * p10(a.s)) * p10(r.s))
            by (nonlinear_arith)
            requires
                r == b,
                a.m == 0,
        ;
    } else if b.m == 0 {
        assert(r.m * (p10(a.s) * p10(b.s)) == (a.m * p10(b.s) + b.m * p10(a.s)) * p10(r.s))
            by (nonlinear_arith)
            requires
                r == a,
                b.m == 0,
        ;
    } else {
        let lo = if a.s <= b.s { a } else { b };
        let hi = if a.s <= b.s { b } else { a };
        let d = (hi.s - lo.s) as nat;
        let sum = lo.m * p10(d) + hi.m;
        lemma_norm_keeps_value(sum, hi.s);
        lemma_pow_adds(10, lo.s, d);
        lemma_p10_pos(hi.s);
        // value of the aligned sum at scale hi.s is the sum of the values
        assert(sum * (p10(lo.s) * p10(hi.s)) == (lo.m * p10(hi.s) + hi.m * p10(lo.s)) * p10(
            hi.s,
        )) by (nonlinear_arith)
            requires
                p10(hi.s) == p10(lo.s) * p10(d),
                sum == lo.m * p10(d) + hi.m,
        ;
        assert(r.m * (p10(lo.s) * p10(hi.s)) == (lo.m * p10(hi.s) + hi.m * p10(lo.s)) * p10(r.s))
            by (nonlinear_arith)
            requires
                r.m * p10(hi.s) == sum * p10(r.s),
                sum * (p10(lo.s) * p10(hi.s)) == (lo.m * p10(hi.s) + hi.m * p10(lo.s)) * p10(hi.s),
                p10(hi.s) >= 1,
        ;
        assert(r.m * (p10(a.s) * p10(b.s)) == (a.m * p10(b.s) + b.m * p10(a.s)) * p10(r.s))
            by (nonlinear_arith)
            requires
                r.m * (p10(lo.s) * p10(hi.s)) == (lo.m * p10(hi.s) + hi.m * p10(lo.s)) * p10(r.s),
                (lo == a && hi == b) || (lo == b && hi == a),
        ;
    }
}

/// When the difference is representable, its value is exactly the
/// difference of the operands' values.
pub proof fn lemma_sub_v_is_difference(a: NumV, b: NumV)
    requires
        sub_v(a, b) matches Some(r),
    ensures
        ({
            let r = sub_v(a, b).unwrap();
            r.m * (p10(a.s) * p10(b.s)) == (a.m * p10(b.s) - b.m * p10(a.s)) * p10(r.s)
        }),
{
    let nb = neg_v(b);
    lemma_add_v_is_sum(a, nb);
    let r = sub_v(a, b).unwrap();
    assert(r.m * (p10(a.s) * p10(b.s)) == (a.m * p10(b.s) - b.m * p10(a.s)) * p10(r.s))
        by (nonlinear_arith)
        requires
            r.m * (p10(a.s) * p10(nb.s)) == (a.m * p10(nb.s) + nb.m * p10(a.s)) * p10(r.s),
            nb.s == b.s,
            nb.m == -b.m,
    ;
}

/// When the product is representable, its value is exactly the product of
/// the operands' values.
pub proof fn lemma_mul_v_is_product(a: NumV, b: NumV)
    requires
        mul_v(a, b) matches Some(r),
    ensures
        ({
            let r = mul_v(a, b).unwrap();
            r.m * (p10(a.s) * p10(b.s)) == (a.m * b.m) * p10(r.s)
        }),
{
    let r = mul_v(a, b).unwrap();
    lemma_norm_keeps_value(a.m * b.m, a.s + b.s);
    lemma_pow_adds(10, a.s, b.s);
}

/// Two canonical forms with the same value are the same representation.
pub proof fn lemma_canon(a: NumV, b: NumV)
    requires
        normal(a),
        normal(b),
        num_eq_v(a, b),
    ensures
        a == b,
{
    if a.s == b.s {
        lemma_p10_pos(a.s);
        assert(p10(a.s) * a.m == a.m * p10(b.s)) by (nonlinear_arith)
            requires a.s == b.s;
        assert(p10(a.s) * b.m == b.m * p10(a.s)) by (nonlinear_arith);
        lemma_mul_equality_converse(p10(a.s), a.m, b.m);
    } else if a.s < b.s {
        lemma_canon_absurd(a, b);
    } else {
        lemma_canon_absurd(b, a);
    }
}

/// No two canonical forms of distinct scales share a value.
proof fn lemma_canon_absurd(a: NumV, b: NumV)
    requires
        normal(a),
        normal(b),
        a.s < b.s,
    ensures
        !num_eq_v(a, b),
{
    let d = (b.s - a.s) as nat;
    lemma_p10_pos(a.s);
    lemma_p10_pos(d);
    lemma_pow_adds(10, a.s, d);
    if num_eq_v(a, b) {
        // a.m * (p10(a.s) * p10(d)) == b.m * p10(a.s), so a.m * p10(d) == b.m
        assert(p10(a.s) * (a.m * p10(d)) == p10(a.s) * b.m) by (nonlinear_arith)
            requires
                a.m * (p10(a.s) * p10(d)) == b.m * p10(a.s),
        ;
        lemma_mul_equality_converse(p10(a.s), a.m * p10(d), b.m);
        // p10(d) == 10 * p10(d - 1), so b.m is a multiple of ten
        lemma_pow_adds(10, 1, (d - 1) as nat);
        lemma_pow1(10);
        assert(a.m * p10(d) == 10 * (a.m * p10((d - 1) as nat))) by (nonlinear_arith)
            requires
                p10(d) == 10 * p10((d - 1) as nat),
        ;
        lemma_mod_multiples_basic(a.m * p10((d - 1) as nat), 10);
        assert(b.m % 10 == 0);
        assert(false);
    }
}

impl Num {
    /// Strict value order.
    pub fn lt(&self, other: &Num) -> (r: bool)
        requires
            self.inv(),
            other.inv(),
        ensures
            r == num_lt_v(self@, other@),
    {
        let ghost a = self@;
        let ghost b = other@;
        proof {
            lemma_p10_pos(a.s);
            lemma_p10_pos(b.s);
        }
        if self.m == 0 {
            proof {
                assert(num_lt_v(a, b) == (0 < b.m * p10(a.s))) by (nonlinear_arith)
                    requires a.m == 0;
                assert((0 < b.m * p10(a.s)) == (0 < b.m)) by (nonlinear_arith)
                    requires p10(a.s) >= 1;
            }
            other.m > 0
        } else if other.m == 0 {
            proof {
                assert(num_lt_v(a, b) == (a.m * p10(b.s) < 0)) by (nonlinear_arith)
                    requires b.m == 0;
                assert((a.m * p10(b.s) < 0) == (a.m < 0)) by (nonlinear_arith)
                    requires p10(b.s) >= 1;
            }
            self.m < 0
        } else if self.s <= other.s {
            let d: u32 = other.s - self.s;
            proof {
                lemma_pow_adds(10, a.s, d as nat);
                lemma_p10_pos(d as nat);
                assert(num_lt_v(a, b) == (a.m * p10(d as nat) < b.m)) by (nonlinear_arith)
                    requires
                        p10(b.s) == p10(a.s) * p10(d as nat),
                        p10(a.s) >= 1,
                        num_lt_v(a, b) == (a.m * p10(b.s) < b.m * p10(a.s)),
                ;
            }
            if d > 19 {
                proof {
                    lemma_p10_vals();
                    lemma_p10_mono(20, d as nat);
                    assert((a.m * p10(d as nat) < b.m) == (a.m < 0)) by (nonlinear_arith)
                        requires
                            p10(d as nat) >= 100000000000000000000,
                            a.m != 0,
                            -0x7fffffffffffffff <= a.m <= 0x7fffffffffffffff,
                            -0x7fffffffffffffff <= b.m <= 0x7fffffffffffffff,
                    ;
                }
                self.m < 0
            } else {
                let f = pow10_small(d);
                proof {
                    assert(-0x7fffffffffffffffffffffffffffffff <= (a.m) * f
                        <= 0x7fffffffffffffffffffffffffffffff) by (nonlinear_arith)
                        requires
                            -0x7fffffffffffffff <= a.m <= 0x7fffffffffffffff,
                            1 <= f <= 10000000000000000000,
                    ;
                }
                (self.m as i128) * f < other.m as i128
            }
        } else {
            let d: u32 = self.s - other.s;
            proof {
                lemma_pow_adds(10, b.s, d as nat);
                lemma_p10_pos(d as nat);
                assert(num_lt_v(a, b) == (a.m < b.m * p10(d as nat))) by (nonlinear_arith)
                    requires
                        p10(a.s) == p10(b.s) * p10(d as nat),
                        p10(b.s) >= 1,
                        num_lt_v(a, b) == (a.m * p10(b.s) < b.m * p10(a.s)),
                ;
            }
            if d > 19 {
                proof {
                    lemma_p10_vals();
                    lemma_p10_mono(20, d as nat);
                    assert((a.m < b.m * p10(d as nat)) == (0 < b.m)) by (nonlinear_arith)
                        requires
                            p10(d as nat) >= 100000000000000000000,
                            b.m != 0,
                            -0x7fffffffffffffff <= a.m <= 0x7fffffffffffffff,
                            -0x7fffffffffffffff <= b.m <= 0x7fffffffffffffff,
                    ;
                }
                other.m > 0
            } else {
                let f = pow10_small(d);
                proof {
                    assert(-0x7fffffffffffffffffffffffffffffff <= (b.m) * f
                        <= 0x7fffffffffffffffffffffffffffffff) by (nonlinear_arith)
                        requires
                            -0x7fffffffffffffff <= b.m <= 0x7fffffffffffffff,
                            1 <= f <= 10000000000000000000,
                    ;
                }
                (self.m as i128) < (other.m as i128) * f
            }
        }
    }

    /// Non-strict value order.
    pub fn le(&self, other: &Num) -> (r: bool)
        requires
            self.inv(),
            other.inv(),
        ensures
            r == num_le_v(self@, other@),
    {
        !other.lt(self)
    }

    /// Value equality.  In canonical form it is representation equality.
    pub fn eq_num(&self, other: &Num) -> (r: bool)
        requires
            self.inv(),
            other.inv(),
        ensures
            r == num_eq_v(self@, other@),
    {
        proof {
            if num_eq_v(self@, other@) {
                lemma_canon(self@, other@);
            }
        }
        self.m == other.m && self.s == other.s
    }
}

/// The character for one decimal digit.
pub open spec fn digit_char(d: nat) -> char {
    ((48 + d) as u8) as char
}

/// The decimal digits of `n`, most significant first, no leading zero
/// except for `n == 0` itself.
pub open spec fn dec_digits(n: nat) -> Seq<char>
    decreases n,
{
    if n < 10 {
        seq![digit_char(n)]
    } else {
        dec_digits(n / 10).push(digit_char(n % 10))
    }
}

/// `k` zero characters.
pub open spec fn zeros(k: nat) -> Seq<char> {
    Seq::new(k, |i: int| '0')
}

/// The decimal text of a number: sign, integer digits, and a point with the
/// fractional digits when the scale is positive.
pub open spec fn num_chars_v(v: NumV) -> Seq<char> {
    let ds = dec_digits(abs(v.m));
    let body = if v.s == 0 {
        ds
    } else if ds.len() > v.s {
        ds.subrange(0, ds.len() - v.s) + seq!['.'] + ds.subrange(ds.len() - v.s, ds.len() as int)
    } else {
        seq!['0', '.'] + zeros((v.s - ds.len()) as nat) + ds
    };
    if v.m < 0 {
        seq!['-'] + body
    } else {
        body
    }
}

/// One decimal digit as a character.
fn to_digit_char(d: u64) -> (c: char)
    requires
        d < 10,
    ensures
        c == digit_char(d as nat),
{
    (48 + d as u8) as char
}

/// Append the decimal digits of `n`.
pub(crate) fn push_digits(n: u64, out: &mut Vec<char>)
    ensures
        final(out)@ == old(out)@ + dec_digits(n as nat),
    decreases n,
{
    if n < 10 {
        out.push(to_digit_char(n));
        proof {
            assert(final(out)@ =~= old(out)@ + dec_digits(n as nat));
        }
    } else {
        push_digits(n / 10, out);
        out.push(to_digit_char(n % 10));
        proof {
            assert(final(out)@ =~= old(out)@ + dec_digits(n as nat));
        }
    }
}

/// Append `v[from..to]`.
fn push_range(out: &mut Vec<char>, v: &Vec<char>, from: usize, to: usize)
    requires
        from <= to <= v@.len(),
    ensures
        final(out)@ == old(out)@ + v@.subrange(from as int, to as int),
{
    let mut i: usize = from;
    while i < to
        invariant
            from <= i <= to <= v@.len(),
            out@ == old(out)@ + v@.subrange(from as int, i as int),
        decreases to - i,
    {
        let c = v[i];
        out.push(c);
        proof {
            assert(out@ =~= old(out)@ + v@.subrange(from as int, (i + 1) as int));
        }
        i = i + 1;
    }
    proof {
        assert(out@ =~= old(out)@ + v@.subrange(from as int, to as int));
    }
}

impl Num {
    /// The decimal text of the number.
    pub fn to_chars(&self) -> (r: Vec<char>)
        requires
            self.inv(),
        ensures
            r@ == num_chars_v(self@),
    {
        let mag: u64 = if self.m < 0 { (-self.m) as u64 } else { self.m as u64 };
        proof {
            assert(mag as nat == abs(self@.m));
        }
        let mut ds: Vec<char> = Vec::new();
        push_digits(mag, &mut ds);
        let mut out: Vec<char> = Vec::new();
        if self.m < 0 {
            out.push('-');
        }
        let ghost head = out@;
        if self.s == 0 {
            push_range(&mut out, &ds, 0, ds.len());
            proof {
                assert(ds@.subrange(0, ds@.len() as int) =~= ds@);
                assert(out@ =~= num_chars_v(self@));
            }
        } else if ds.len() > self.s as usize {
            let cut: usize = ds.len() - self.s as usize;
            push_range(&mut out, &ds, 0, cut);
            out.push('.');
            push_range(&mut out, &ds, cut, ds.len());
            proof {
                assert(out@ =~= head + ds@.subrange(0, cut as int) + seq!['.']
                    + ds@.subrange(cut as int, ds@.len() as int));
                assert(out@ =~= num_chars_v(self@));
            }
        } else {
            out.push('0');
            out.push('.');
            let ghost zhead = out@;
            let pad: usize = self.s as usize - ds.len();
            let mut k: usize = 0;
            while k < pad
                invariant
                    k <= pad,
                    out@ == zhead + zeros(k as nat),
                decreases pad - k,
            {
                out.push('0');
                proof {
                    assert(out@ =~= zhead + zeros((k + 1) as nat));
                }
                k = k + 1;
            }
            push_range(&mut out, &ds, 0, ds.len());
            proof {
                assert(ds@.subrange(0, ds@.len() as int) =~= ds@);
                assert(out@ =~= head + (seq!['0', '.'] + zeros(pad as nat) + ds@));
                assert(out@ =~= num_chars_v(self@));
            }
        }
        out
    }
}

/// `x * y` unless it overflows.
fn checked_mul_u128(x: u128, y: Option<u128>) -> (r: Option<u128>)
    ensures
        r matches Some(p) ==> y matches Some(f) && p == x * f,
        r is None <==> (y is None || x * y.unwrap() > u128::MAX),
{
    match y {
        Some(f) => x.checked_mul(f),
        None => None,
    }
}

/// `10^d`, `None` beyond `10^38`.
fn pow10_u128_abs(d: u64) -> (r: Option<u128>)
    ensures
        d <= 38 ==> r == Some::<u128>(p10(d as nat) as u128) && r.unwrap() == p10(d as nat),
        d > 38 ==> r is None,
{
    if d > 38 {
        None
    } else {
        pow10_u128(d as u32)
    }
}

/// Normalizing a mantissa already within bounds keeps it within bounds.
proof fn lemma_norm_small(m: int, s: nat)
    requires
        -(i64::MAX as int) <= m <= i64::MAX as int,
    ensures
        norm_fit_v(m, s) == Some(norm_v(m, s)),
        -(i64::MAX as int) <= norm_v(m, s).m <= i64::MAX as int,
        normal(norm_v(m, s)),
    decreases s,
{
    if s > 0 && m % 10 == 0 {
        lemma_norm_small(m / 10, (s - 1) as nat);
    }
}

} // verus!
