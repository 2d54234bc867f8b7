//! Exact rational numbers with `i64` components.
//!
//! The interpreter computes on [`Value`], a fraction `num / den` with
//! `den >= 1` and both components within the symmetric range
//! `-i64::MAX ..= i64::MAX`.  The mathematical model is [`Rat`], a pair of
//! unbounded integers; every operation states exactly which rational it
//! produces and fails (returns `None`) precisely when the unreduced result
//! leaves the representable range.

use vstd::prelude::*;

verus! {

use vstd::arithmetic::power::pow;

/// Mathematical model of a value: the rational `n / d` (`d >= 1`).
pub ghost struct Rat {
    pub n: int,
    pub d: int,
}

/// Shorthand for building a model rational.
pub open spec fn rat(n: int, d: int) -> Rat {
    Rat { n: n, d: d }
}

/// The rational `i / 1`.
pub open spec fn rat_int(i: int) -> Rat {
    Rat { n: i, d: 1 }
}

/// Both components of the unreduced fraction stay in the symmetric
/// `i64` range and the denominator is positive.  This is the exact
/// machine limit of the representation: an operation whose unreduced
/// result leaves this range is reported as unrepresentable.
pub open spec fn rat_in_range(a: Rat) -> bool {
    &&& -(i64::MAX as int) <= a.n <= i64::MAX as int
    &&& 1 <= a.d <= i64::MAX as int
}

pub open spec fn rat_add(a: Rat, b: Rat) -> Rat {
    Rat { n: a.n * b.d + b.n * a.d, d: a.d * b.d }
}

pub open spec fn rat_sub(a: Rat, b: Rat) -> Rat {
    Rat { n: a.n * b.d - b.n * a.d, d: a.d * b.d }
}

pub open spec fn rat_mul(a: Rat, b: Rat) -> Rat {
    Rat { n: a.n * b.n, d: a.d * b.d }
}

/// Division, with the sign moved into the numerator so that the
/// denominator stays positive.  Meaningful only for `b.n != 0`.
pub open spec fn rat_div(a: Rat, b: Rat) -> Rat {
    if b.n >= 0 {
        Rat { n: a.n * b.d, d: a.d * b.n }
    } else {
        Rat { n: -(a.n * b.d), d: -(a.d * b.n) }
    }
}

pub open spec fn rat_neg(a: Rat) -> Rat {
    Rat { n: -a.n, d: a.d }
}

pub open spec fn rat_abs(a: Rat) -> Rat {
    if a.n < 0 {
        Rat { n: -a.n, d: a.d }
    } else {
        a
    }
}

/// The largest integer not above `a` (`a.d >= 1`; `/` is Euclidean).
pub open spec fn rat_floor(a: Rat) -> int {
    a.n / a.d
}

/// The smallest integer not below `a`.
pub open spec fn rat_ceil(a: Rat) -> int {
    -((-a.n) / a.d)
}

/// The nearest integer to `a`, ties rounded away from zero.
pub open spec fn rat_round(a: Rat) -> int {
    let q = a.n / a.d;
    let r = a.n % a.d;
    if r == 0 {
        q
    } else if 2 * r > a.d {
        q + 1
    } else if 2 * r < a.d {
        q
    } else if a.n >= 0 {
        q + 1
    } else {
        q
    }
}

/// An exact rational number: `num / den`, not necessarily reduced.
#[derive(Clone, Copy, Debug, PartialEq, Eq, Structural)]
pub struct Value {
    pub num: i64,
    pub den: i64,
}

impl View for Value {
    type V = Rat;

    open spec fn view(&self) -> Rat {
        Rat { n: self.num as int, d: self.den as int }
    }
}

impl Value {
    /// Well-formedness: the components lie in the representable range.
    pub open spec fn wf(self) -> bool {
        rat_in_range(self@)
    }
}

/// `|x| <= bx` and `|y| <= by` bound the product by `bx * by`.
proof fn lemma_mul_bound(x: int, y: int, bx: int, by: int)
    by (nonlinear_arith)
    requires
        -bx <= x <= bx,
        -by <= y <= by,
        0 <= bx,
        0 <= by,
    ensures
        -(bx * by) <= x * y <= bx * by,
{
}

/// Products of two in-range components fit comfortably in `i128`.
proof fn lemma_i64_products_fit(x: int, y: int)
    requires
        -(i64::MAX as int) <= x <= i64::MAX as int,
        -(i64::MAX as int) <= y <= i64::MAX as int,
    ensures
        -(i128::MAX as int) <= x * y <= i128::MAX as int,
        2 * (x * y) <= i128::MAX as int,
        -(i128::MAX as int) <= 2 * (x * y),
{
    lemma_mul_bound(x, y, i64::MAX as int, i64::MAX as int);
    assert((i64::MAX as int) * (i64::MAX as int) * 2 < i128::MAX as int) by (nonlinear_arith);
}

/// The sum of the two cross products in an addition fits in `i128`.
proof fn lemma_add_fits(a: Rat, b: Rat)
    requires
        rat_in_range(a),
        rat_in_range(b),
    ensures
        -(i128::MAX as int) <= a.n * b.d + b.n * a.d <= i128::MAX as int,
        -(i128::MAX as int) <= a.n * b.d - b.n * a.d <= i128::MAX as int,
{
    lemma_i64_products_fit(a.n, b.d);
    lemma_i64_products_fit(b.n, a.d);
}

/// Exact addition; `None` exactly when the result leaves the range.
pub fn value_add(a: Value, b: Value) -> (r: Option<Value>)
    requires
        a.wf(),
        b.wf(),
    ensures
        match r {
            Some(v) => v.wf() && v@ == rat_add(a@, b@),
            None => !rat_in_range(rat_add(a@, b@)),
        },
{
    proof {
        lemma_add_fits(a@, b@);
        lemma_i64_products_fit(a@.d, b@.d);
        lemma_mul_bound(a@.d, b@.d, i64::MAX as int, i64::MAX as int);
        assert(a@.d * b@.d >= 1) by (nonlinear_arith)
            requires a@.d >= 1 && b@.d >= 1;
    }
    let n: i128 = (a.num as i128) * (b.den as i128) + (b.num as i128) * (a.den as i128);
    let d: i128 = (a.den as i128) * (b.den as i128);
    if -(i64::MAX as i128) <= n && n <= i64::MAX as i128 && d <= i64::MAX as i128 {
        Some(Value { num: n as i64, den: d as i64 })
    } else {
        None
    }
}

/// Exact subtraction; `None` exactly when the result leaves the range.
pub fn value_sub(a: Value, b: Value) -> (r: Option<Value>)
    requires
        a.wf(),
        b.wf(),
    ensures
        match r {
            Some(v) => v.wf() && v@ == rat_sub(a@, b@),
            None => !rat_in_range(rat_sub(a@, b@)),
        },
{
    proof {
        lemma_add_fits(a@, b@);
        lemma_i64_products_fit(a@.d, b@.d);
        assert(a@.d * b@.d >= 1) by (nonlinear_arith)
            requires a@.d >= 1 && b@.d >= 1;
    }
    let n: i128 = (a.num as i128) * (b.den as i128) - (b.num as i128) * (a.den as i128);
    let d: i128 = (a.den as i128) * (b.den as i128);
    if -(i64::MAX as i128) <= n && n <= i64::MAX as i128 && d <= i64::MAX as i128 {
        Some(Value { num: n as i64, den: d as i64 })
    } else {
        None
    }
}

/// Exact multiplication; `None` exactly when the result leaves the range.
pub fn value_mul(a: Value, b: Value) -> (r: Option<Value>)
    requires
        a.wf(),
        b.wf(),
    ensures
        match r {
            Some(v) => v.wf() && v@ == rat_mul(a@, b@),
            None => !rat_in_range(rat_mul(a@, b@)),
        },
{
    proof {
        lemma_i64_products_fit(a@.n, b@.n);
        lemma_i64_products_fit(a@.d, b@.d);
        assert(a@.d * b@.d >= 1) by (nonlinear_arith)
            requires a@.d >= 1 && b@.d >= 1;
    }
    let n: i128 = (a.num as i128) * (b.num as i128);
    let d: i128 = (a.den as i128) * (b.den as i128);
    if -(i64::MAX as i128) <= n && n <= i64::MAX as i128 && d <= i64::MAX as i128 {
        Some(Value { num: n as i64, den: d as i64 })
    } else {
        None
    }
}

/// Exact division by a non-zero value; `None` exactly when the result
/// leaves the range.  Division by zero is ruled out by the caller.
pub fn value_div(a: Value, b: Value) -> (r: Option<Value>)
    requires
        a.wf(),
        b.wf(),
        b@.n != 0,
    ensures
        match r {
            Some(v) => v.wf() && v@ == rat_div(a@, b@),
            None => !rat_in_range(rat_div(a@, b@)),
        },
{
    proof {
        lemma_i64_products_fit(a@.n, b@.d);
        lemma_i64_products_fit(a@.d, b@.n);
        assert(b@.n >= 1 ==> a@.d * b@.n >= 1) by (nonlinear_arith)
            requires a@.d >= 1;
        assert(b@.n <= -1 ==> -(a@.d * b@.n) >= 1) by (nonlinear_arith)
            requires a@.d >= 1;
    }
    let n0: i128 = (a.num as i128) * (b.den as i128);
    let d0: i128 = (a.den as i128) * (b.num as i128);
    let (n, d): (i128, i128) = if b.num >= 0 { (n0, d0) } else { (-n0, -d0) };
    if -(i64::MAX as i128) <= n && n <= i64::MAX as i128 && d <= i64::MAX as i128 {
        Some(Value { num: n as i64, den: d as i64 })
    } else {
        None
    }
}

/// Exact negation; always representable thanks to the symmetric range.
pub fn value_neg(a: Value) -> (r: Value)
    requires
        a.wf(),
    ensures
        r.wf(),
        r@ == rat_neg(a@),
{
    Value { num: -a.num, den: a.den }
}

/// Exact absolute value; always representable.
pub fn value_abs(a: Value) -> (r: Value)
    requires
        a.wf(),
    ensures
        r.wf(),
        r@ == rat_abs(a@),
{
    if a.num < 0 {
        Value { num: -a.num, den: a.den }
    } else {
        a
    }
}

/// The Euclidean quotient of in-range components stays in range.
pub(crate) proof fn lemma_floor_in_range(a: Rat)
    requires
        rat_in_range(a),
    ensures
        -(i64::MAX as int) <= a.n / a.d <= i64::MAX as int,
        a.n >= 0 ==> 0 <= a.n / a.d <= a.n,
        a.n < 0 ==> a.n <= a.n / a.d <= 0,
{
    vstd::arithmetic::div_mod::lemma_fundamental_div_mod(a.n, a.d);
    let q = a.n / a.d;
    let r = a.n % a.d;
    vstd::arithmetic::div_mod::lemma_mod_bound(a.n, a.d);
    assert(a.n == a.d * q + r);
    if a.n >= 0 {
        assert(q >= 0 && q <= a.n) by (nonlinear_arith)
            requires a.n == a.d * q + r && a.d >= 1 && 0 <= r < a.d && a.n >= 0;
    } else {
        assert(q <= 0 && q >= a.n) by (nonlinear_arith)
            requires a.n == a.d * q + r && a.d >= 1 && 0 <= r < a.d && a.n < 0;
    }
}

/// The floor of `a`, as a value; always representable.
pub fn value_floor(a: Value) -> (r: Value)
    requires
        a.wf(),
    ensures
        r.wf(),
        r@ == rat_int(rat_floor(a@)),
{
    proof {
        lemma_floor_in_range(a@);
    }
    let q = a.num.checked_div_euclid(a.den).unwrap();
    Value { num: q, den: 1 }
}

/// The ceiling of `a`, as a value; always representable.
pub fn value_ceil(a: Value) -> (r: Value)
    requires
        a.wf(),
    ensures
        r.wf(),
        r@ == rat_int(rat_ceil(a@)),
{
    proof {
        lemma_floor_in_range(rat(-(a@.n), a@.d));
    }
    let q = (-a.num).checked_div_euclid(a.den).unwrap();
    Value { num: -q, den: 1 }
}

/// Rounding stays within one of the floor, hence in range.
proof fn lemma_round_in_range(a: Rat)
    requires
        rat_in_range(a),
    ensures
        -(i64::MAX as int) <= rat_round(a) <= i64::MAX as int,
{
    lemma_floor_in_range(a);
    let q = a.n / a.d;
    let r = a.n % a.d;
    vstd::arithmetic::div_mod::lemma_fundamental_div_mod(a.n, a.d);
    vstd::arithmetic::div_mod::lemma_mod_bound(a.n, a.d);
    if r != 0 && rat_round(a) == q + 1 {
        assert(q + 1 <= i64::MAX as int) by (nonlinear_arith)
            requires
                a.n == a.d * q + r && a.d >= 1 && 1 <= r < a.d && a.n <= i64::MAX as int;
    }
}

/// The nearest integer to `a` (ties away from zero), as a value.
pub fn value_round(a: Value) -> (r: Value)
    requires
        a.wf(),
    ensures
        r.wf(),
        r@ == rat_int(rat_round(a@)),
{
    proof {
        lemma_floor_in_range(a@);
        lemma_round_in_range(a@);
    }
    let q = a.num.checked_div_euclid(a.den).unwrap();
    let r = a.num.checked_rem_euclid(a.den).unwrap();
    if r == 0 {
        Value { num: q, den: 1 }
    } else if r > i64::MAX / 2 {
        // Doubling `r` would overflow, but then `2 * r` certainly
        // exceeds the denominator, so the value rounds up.
        Value { num: q + 1, den: 1 }
    } else if 2 * r > a.den {
        Value { num: q + 1, den: 1 }
    } else if 2 * r < a.den {
        Value { num: q, den: 1 }
    } else if a.num >= 0 {
        Value { num: q + 1, den: 1 }
    } else {
        Value { num: q, den: 1 }
    }
}

/// `pow(b, k)` for `b >= 0` is non-negative.
proof fn lemma_pow_nonneg(b: int, k: nat)
    ensures
        b >= 0 ==> pow(b, k) >= 0,
        b >= 1 ==> pow(b, k) >= 1,
    decreases k,
{
    reveal(pow);
    if k > 0 {
        lemma_pow_nonneg(b, (k - 1) as nat);
        let p = pow(b, (k - 1) as nat);
        assert(b >= 0 && p >= 0 ==> b * p >= 0) by (nonlinear_arith);
        assert(b >= 1 && p >= 1 ==> b * p >= 1) by (nonlinear_arith);
    }
}

/// `pow` restricted to non-negative bases is monotone in the base.
proof fn lemma_pow_base_monotone(b1: int, b2: int, k: nat)
    requires
        0 <= b1 <= b2,
    ensures
        pow(b1, k) <= pow(b2, k),
    decreases k,
{
    reveal(pow);
    if k > 0 {
        lemma_pow_base_monotone(b1, b2, (k - 1) as nat);
        lemma_pow_nonneg(b1, (k - 1) as nat);
        lemma_pow_nonneg(b2, (k - 1) as nat);
        assert(b1 * pow(b1, (k - 1) as nat) <= b2 * pow(b2, (k - 1) as nat)) by (nonlinear_arith)
            requires
                0 <= b1 <= b2 && 0 <= pow(b1, (k - 1) as nat) <= pow(b2, (k - 1) as nat);
    }
}

/// A power of a negative base is the power of its magnitude, with the
/// sign given by the parity of the exponent.
proof fn lemma_pow_neg_base(n: int, k: nat)
    requires
        n < 0,
    ensures
        k % 2 == 0 ==> pow(n, k) == pow(-n, k),
        k % 2 == 1 ==> pow(n, k) == -pow(-n, k),
    decreases k,
{
    reveal(pow);
    if k > 0 {
        lemma_pow_neg_base(n, (k - 1) as nat);
        let p = pow(-n, (k - 1) as nat);
        assert(n * p == -((-n) * p)) by (nonlinear_arith);
        assert(n * (-p) == (-n) * p) by (nonlinear_arith);
    }
}

/// `pow(2, 63)` exceeds `i64::MAX`.
proof fn lemma_pow2_63_large()
    ensures
        pow(2, 63) > i64::MAX as int,
{
    vstd::arithmetic::power2::lemma_pow2(63);
    vstd::arithmetic::power2::lemma2_to64_rest();
}

/// The magnitude of a power, as computed by repeated multiplication.
/// `None` exactly when the power exceeds `i64::MAX`.
fn pow_mag(b: u64, k: u64) -> (r: Option<u64>)
    ensures
        match r {
            Some(x) => x as int == pow(b as int, k as nat) && x <= i64::MAX as u64,
            None => pow(b as int, k as nat) > i64::MAX as int,
        },
{
    if k == 0 {
        proof {
            vstd::arithmetic::power::lemma_pow0(b as int);
        }
        return Some(1);
    }
    if b == 0 {
        proof {
            vstd::arithmetic::power::lemma0_pow(k as nat);
        }
        return Some(0);
    }
    if b == 1 {
        proof {
            vstd::arithmetic::power::lemma1_pow(k as nat);
        }
        return Some(1);
    }
    if k >= 63 {
        proof {
            lemma_pow_base_monotone(2, b as int, k as nat);
            vstd::arithmetic::power::lemma_pow_increases(2, 63, k as nat);
            lemma_pow2_63_large();
        }
        return None;
    }
    proof {
        vstd::arithmetic::power::lemma_pow0(b as int);
    }
    let mut acc: u64 = 1;
    let mut i: u64 = 0;
    while i < k
        invariant
            b >= 2,
            0 < k < 63,
            i <= k,
            acc as int == pow(b as int, i as nat),
            acc <= i64::MAX as u64,
        decreases k - i,
    {
        proof {
            lemma_mul_bound(acc as int, b as int, i64::MAX as int, u64::MAX as int);
            assert((i64::MAX as int) * (u64::MAX as int) <= u128::MAX as int) by (nonlinear_arith);
        }
        let next: u128 = (acc as u128) * (b as u128);
        if next > i64::MAX as u128 {
            proof {
                vstd::arithmetic::power::lemma_pow_adds(b as int, i as nat, 1);
                vstd::arithmetic::power::lemma_pow1(b as int);
                assert(pow(b as int, i as nat) * (b as int) == next as int) by (nonlinear_arith)
                    requires acc as int == pow(b as int, i as nat)
                        && next as int == (acc as int) * (b as int);
                vstd::arithmetic::power::lemma_pow_increases(b as nat, (i + 1) as nat, k as nat);
            }
            return None;
        }
        proof {
            vstd::arithmetic::power::lemma_pow_adds(b as int, i as nat, 1);
            vstd::arithmetic::power::lemma_pow1(b as int);
            assert(pow(b as int, i as nat) * (b as int) == next as int) by (nonlinear_arith)
                requires acc as int == pow(b as int, i as nat)
                    && next as int == (acc as int) * (b as int);
        }
        acc = next as u64;
        i = i + 1;
    }
    Some(acc)
}

/// Exponentiation with an integral exponent.  `None` when the exponent
/// is not an integer, when a negative power of zero is asked for, or
/// when the unreduced result leaves the representable range; otherwise
/// the exact rational power.
pub open spec fn rat_pow_checked(a: Rat, b: Rat) -> Option<Rat> {
    if b.n % b.d != 0 {
        None
    } else {
        let e = b.n / b.d;
        if e >= 0 {
            let r = Rat { n: pow(a.n, e as nat), d: pow(a.d, e as nat) };
            if rat_in_range(r) {
                Some(r)
            } else {
                None
            }
        } else if a.n == 0 {
            None
        } else {
            let pn = pow(a.n, (-e) as nat);
            let pd = pow(a.d, (-e) as nat);
            let r = if pn >= 1 {
                Rat { n: pd, d: pn }
            } else {
                Rat { n: -pd, d: -pn }
            };
            if rat_in_range(r) {
                Some(r)
            } else {
                None
            }
        }
    }
}

/// `a` raised to the value `b`, following [`rat_pow_checked`].
pub fn value_pow(a: Value, b: Value) -> (r: Option<Value>)
    requires
        a.wf(),
        b.wf(),
    ensures
        match r {
            Some(v) => v.wf() && rat_pow_checked(a@, b@) == Some(v@),
            None => rat_pow_checked(a@, b@) is None,
        },
{
    let er = b.num.checked_rem_euclid(b.den).unwrap();
    if er != 0 {
        return None;
    }
    proof {
        lemma_floor_in_range(b@);
    }
    let e = b.num.checked_div_euclid(b.den).unwrap();
    let k: u64 = if e >= 0 {
        e as u64
    } else {
        (-e) as u64
    };
    let neg_base = a.num < 0;
    let bn_mag: u64 = if a.num < 0 {
        (-a.num) as u64
    } else {
        a.num as u64
    };
    let bd: u64 = a.den as u64;
    let odd = k % 2 == 1;
    proof {
        if neg_base {
            lemma_pow_neg_base(a@.n, k as nat);
        }
        lemma_pow_nonneg(bn_mag as int, k as nat);
        lemma_pow_nonneg(bd as int, k as nat);
    }
    if e >= 0 {
        let pn = match pow_mag(bn_mag, k) {
            Some(x) => x,
            None => {
                return None;
            },
        };
        let pd = match pow_mag(bd, k) {
            Some(x) => x,
            None => {
                return None;
            },
        };
        let num: i64 = if neg_base && odd {
            -(pn as i64)
        } else {
            pn as i64
        };
        Some(Value { num: num, den: pd as i64 })
    } else {
        if a.num == 0 {
            return None;
        }
        let pn = match pow_mag(bn_mag, k) {
            Some(x) => x,
            None => {
                return None;
            },
        };
        let pd = match pow_mag(bd, k) {
            Some(x) => x,
            None => {
                return None;
            },
        };
        let num: i64 = if neg_base && odd {
            -(pd as i64)
        } else {
            pd as i64
        };
        Some(Value { num: num, den: pn as i64 })
    }
}

/// The largest `r` with `r * r <= x`.
pub open spec fn floor_sqrt(x: nat) -> nat
    decreases x,
{
    if x == 0 {
        0
    } else {
        let r = floor_sqrt((x - 1) as nat);
        if (r + 1) * (r + 1) <= x {
            r + 1
        } else {
            r
        }
    }
}

/// `floor_sqrt` is characterised by bracketing `x` between two squares.
proof fn lemma_floor_sqrt(x: nat)
    ensures
        (floor_sqrt(x) as int) * (floor_sqrt(x) as int) <= x as int,
        (x as int) < ((floor_sqrt(x) as int) + 1) * ((floor_sqrt(x) as int) + 1),
    decreases x,
{
    if x > 0 {
        lemma_floor_sqrt((x - 1) as nat);
        let r: int = floor_sqrt((x - 1) as nat) as int;
        assert(floor_sqrt(x) == if (r + 1) * (r + 1) <= (x as int) {
            (r + 1) as nat
        } else {
            r as nat
        });
        if (r + 1) * (r + 1) <= (x as int) {
            assert(floor_sqrt(x) as int == r + 1);
            assert((x as int) < ((r + 1) + 1) * ((r + 1) + 1)) by (nonlinear_arith)
                requires ((x as int) - 1) < (r + 1) * (r + 1) && r >= 0;
        } else {
            assert(floor_sqrt(x) as int == r);
            assert(r * r <= (x as int) - 1 <= (x as int));
        }
    } else {
        assert(floor_sqrt(x) == 0);
    }
}

/// Two brackets around the same `x` name the same root.
proof fn lemma_floor_sqrt_unique(x: nat, r: nat)
    requires
        (r as int) * (r as int) <= x as int,
        (x as int) < ((r as int) + 1) * ((r as int) + 1),
    ensures
        r == floor_sqrt(x),
{
    lemma_floor_sqrt(x);
    let f: int = floor_sqrt(x) as int;
    let ri: int = r as int;
    assert(ri == f) by (nonlinear_arith)
        requires
            ri * ri <= x as int && (x as int) < (ri + 1) * (ri + 1) && f * f <= x as int
                && (x as int) < (f + 1) * (f + 1) && ri >= 0 && f >= 0;
}

/// Integer square root by bisection.
fn isqrt(x: u128) -> (r: u64)
    requires
        x < 0x4000_0000_0000_0000_0000_0000_0000_0000u128,
    ensures
        r as nat == floor_sqrt(x as nat),
{
    proof {
        assert(0x8000_0000_0000_0000i128 * 0x8000_0000_0000_0000i128
            == 0x4000_0000_0000_0000_0000_0000_0000_0000i128 as int) by (nonlinear_arith);
    }
    let mut lo: u128 = 0;
    let mut hi: u128 = 0x8000_0000_0000_0000u128;
    while hi - lo > 1
        invariant
            lo < hi <= 0x8000_0000_0000_0000u128,
            (lo * lo) as int <= x as int,
            (x as int) < (hi * hi) as int,
        decreases hi - lo,
    {
        let mid = lo + (hi - lo) / 2;
        proof {
            assert(mid * mid <= 0x8000_0000_0000_0000u128 * 0x8000_0000_0000_0000u128)
                by (nonlinear_arith)
                requires 0 <= mid <= 0x8000_0000_0000_0000u128;
            assert(0x8000_0000_0000_0000i128 * 0x8000_0000_0000_0000i128
                == 0x4000_0000_0000_0000_0000_0000_0000_0000i128 as int) by (nonlinear_arith);
        }
        let sq: u128 = mid * mid;
        if sq <= x {
            lo = mid;
        } else {
            hi = mid;
        }
    }
    proof {
        lemma_floor_sqrt_unique(x as nat, lo as nat);
    }
    lo as u64
}

/// `pow(10, 10)` and `pow(10, 20)` as machine constants.
proof fn lemma_pow10_constants()
    ensures
        pow(10, 10) == 10_000_000_000int,
        pow(10, 20) == 100_000_000_000_000_000_000int,
{
    reveal_with_fuel(pow, 11);
    assert(pow(10, 10) == 10_000_000_000int);
    vstd::arithmetic::power::lemma_pow_adds(10, 10, 10);
    assert(10_000_000_000int * 10_000_000_000int == 100_000_000_000_000_000_000int)
        by (nonlinear_arith);
}

/// `pow(2, 124)` as a machine constant.
proof fn lemma_pow2_124_constant()
    ensures
        pow(2, 124) == 0x1000_0000_0000_0000_0000_0000_0000_0000int,
{
    vstd::arithmetic::power2::lemma_pow2(124);
    vstd::arithmetic::power2::lemma_pow2_adds(62, 62);
    vstd::arithmetic::power2::lemma2_to64_rest();
    assert(0x4000_0000_0000_0000int * 0x4000_0000_0000_0000int
        == 0x1000_0000_0000_0000_0000_0000_0000_0000int) by (nonlinear_arith);
}

/// For `k >= 1` and `n, m >= 0`: `n * k <= m` exactly when `n <= m / k`.
proof fn lemma_mul_le_via_div(n: int, k: int, m: int)
    requires
        n >= 0,
        k >= 1,
        m >= 0,
    ensures
        (n * k <= m) <==> (n <= m / k),
{
    vstd::arithmetic::div_mod::lemma_fundamental_div_mod(m, k);
    vstd::arithmetic::div_mod::lemma_mod_bound(m, k);
    let q = m / k;
    let r = m % k;
    assert(n <= q ==> n * k <= q * k) by (nonlinear_arith)
        requires k >= 1;
    assert(q * k <= m) by (nonlinear_arith)
        requires m == k * q + r && r >= 0;
    assert(n >= q + 1 ==> n * k >= (q + 1) * k) by (nonlinear_arith)
        requires k >= 1;
    assert((q + 1) * k > m) by (nonlinear_arith)
        requires m == k * q + r && r < k;
}

/// Common factors of ten removed from an unreduced fraction, so that
/// an exact root comes out with the smallest power-of-ten denominator.
pub open spec fn reduce10(n: int, d: int) -> Rat
    decreases d,
    when d >= 1
{
    if d >= 10 && d % 10 == 0 && n % 10 == 0 {
        reduce10(n / 10, d / 10)
    } else {
        Rat { n: n, d: d }
    }
}

/// The square root of `a`, rounded to the nearest multiple of
/// `1 / pow(10, 10)` and stripped of common factors of ten.  `None`
/// for negative values and for values whose scaled numerator leaves
/// the machine's 128-bit range.
pub open spec fn rat_sqrt_checked(a: Rat) -> Option<Rat> {
    if a.n < 0 {
        None
    } else if a.n * pow(10, 20) > u128::MAX as int {
        None
    } else {
        let x = (a.n * pow(10, 20)) / a.d;
        if x >= pow(2, 124) {
            None
        } else {
            let s = (floor_sqrt((4 * x) as nat) + 1) / 2;
            Some(reduce10(s as int, pow(10, 10)))
        }
    }
}

/// The square root of `a`, following [`rat_sqrt_checked`].
pub fn value_sqrt(a: Value) -> (r: Option<Value>)
    requires
        a.wf(),
    ensures
        match r {
            Some(v) => v.wf() && rat_sqrt_checked(a@) == Some(v@),
            None => rat_sqrt_checked(a@) is None,
        },
{
    proof {
        lemma_pow10_constants();
        lemma_pow2_124_constant();
    }
    if a.num < 0 {
        return None;
    }
    let nn: u128 = a.num as u128;
    let ten20: u128 = 100_000_000_000_000_000_000u128;
    proof {
        lemma_mul_le_via_div(nn as int, ten20 as int, u128::MAX as int);
    }
    if nn > u128::MAX / ten20 {
        return None;
    }
    let p: u128 = nn * ten20;
    let x: u128 = p / (a.den as u128);
    if x >= 0x1000_0000_0000_0000_0000_0000_0000_0000u128 {
        return None;
    }
    let r4 = isqrt(4 * x);
    proof {
        lemma_floor_sqrt((4 * x) as nat);
        assert(r4 < 0x8000_0000_0000_0000u64) by (nonlinear_arith)
            requires
                (r4 as int) * (r4 as int) <= 4 * (x as int)
                    && 4 * (x as int) < 0x4000_0000_0000_0000_0000_0000_0000_0000int
                    && r4 >= 0;
    }
    let mut num: u64 = (r4 + 1) / 2;
    let mut den: u64 = 10_000_000_000u64;
    let ghost s0: int = num as int;
    let ghost d0: int = den as int;
    while den >= 10 && den % 10 == 0 && num % 10 == 0
        invariant
            1 <= den <= d0,
            num <= s0,
            num <= 0x4000_0000_0000_0000u64,
            reduce10(s0, d0) == reduce10(num as int, den as int),
        decreases den,
    {
        num = num / 10;
        den = den / 10;
    }
    Some(Value { num: num as i64, den: den as i64 })
}

} // verus!

