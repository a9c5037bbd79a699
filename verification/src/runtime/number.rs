//! The integer arithmetic of the runtime's numbers, with Rust's division and remainder:
//! the integer operations of a number, `pow(number, power, modulus)` by squaring, and
//! `math.gcd` by Euclid's algorithm.
use vstd::prelude::*;
use vstd::arithmetic::power::pow;
use vstd::arithmetic::div_mod::{lemma_div_is_ordered_by_denominator, lemma_div_nonincreasing, lemma_mul_mod_noop_right};
use vstd::arithmetic::power::lemma_pow_increases;

verus! {

/// A number of the runtime, as far as this library holds it: a 64-bit integer.  The
/// runtime's other kind of number holds an `f64`, which this library does not hold.
#[derive(Clone, Copy, Debug)]
pub enum Number {
    Int64(i64),
}

impl Number {
    /// The integer.
    pub open spec fn value(self) -> i64 {
        match self {
            Number::Int64(i) => i,
        }
    }

    fn as_i64(&self) -> (r: i64)
        ensures
            r == self.value(),
    {
        match self {
            Number::Int64(i) => *i,
        }
    }

    /// Rust's integer division `self / rhs`, which rounds towards zero.
    pub fn floor_div(&self, rhs: &Number) -> (r: Number)
        requires
            rhs.value() != 0,
            !(self.value() == i64::MIN && rhs.value() == -1),
        ensures
            r.value() == trunc_div(self.value() as int, rhs.value() as int),
    {
        let x = self.as_i64();
        let d = rhs.as_i64();
        proof {
            lemma_trunc_div_fits(x as int, d as int);
        }
        Number::Int64(x.checked_div(d).unwrap())
    }

    /// `self` to the power `rhs`, the exponent read as a `u32` (as Rust's `as u32` reads it).
    pub fn pow(&self, rhs: Number) -> (r: Number)
        requires
            i64::MIN <= pow(self.value() as int, (#[verifier::truncate] (rhs.value() as u32)) as nat) <= i64::MAX,
        ensures
            r.value() == pow(self.value() as int, (#[verifier::truncate] (rhs.value() as u32)) as nat),
    {
        let b = self.as_i64();
        let e: u32 = #[verifier::truncate] (rhs.as_i64() as u32);
        proof {
            lemma_pow_small_base(b as int, e as nat);
        }
        if b == 0 {
            return if e == 0 { Number::Int64(1) } else { Number::Int64(0) };
        }
        if b == 1 {
            return Number::Int64(1);
        }
        if b == -1 {
            return if e % 2 == 0 { Number::Int64(1) } else { Number::Int64(-1) };
        }
        let mut acc: i64 = 1;
        let mut k: u32 = 0;
        proof {
            reveal(pow);
        }
        while k < e
            invariant
                k <= e,
                abs_int(b as int) >= 2,
                acc == pow(b as int, k as nat),
                i64::MIN <= pow(b as int, e as nat) <= i64::MAX,
            decreases e - k,
        {
            proof {
                lemma_pow_step_fits(b as int, k as nat, e as nat);
                reveal(pow);
            }
            acc = acc * b;
            k += 1;
        }
        Number::Int64(acc)
    }

    /// The size of the number.
    pub fn abs(&self) -> (r: Number)
        requires
            self.value() != i64::MIN,
        ensures
            r.value() == abs_int(self.value() as int),
    {
        let x = self.as_i64();
        if x < 0 {
            Number::Int64(-x)
        } else {
            Number::Int64(x)
        }
    }

    /// The number is not zero.
    pub fn test(&self) -> (r: bool)
        ensures
            r == (self.value() != 0),
    {
        self.as_i64() != 0
    }
}

/// Rust's integer division, rounding towards zero.
pub open spec fn trunc_div(x: int, d: int) -> int {
    if (x < 0) == (d < 0) {
        abs_int(x) / abs_int(d)
    } else {
        -(abs_int(x) / abs_int(d))
    }
}

/// The quotient fits in an `i64`, and `checked_div` gives it.
proof fn lemma_trunc_div_fits(x: int, d: int)
    requires
        i64::MIN <= x <= i64::MAX,
        i64::MIN <= d <= i64::MAX,
        d != 0,
        !(x == i64::MIN && d == -1),
    ensures
        i64::MIN <= trunc_div(x, d) <= i64::MAX,
        (x as i64).checked_div(d as i64) == Some(trunc_div(x, d) as i64),
{
    let ax = abs_int(x);
    let ad = abs_int(d);
    lemma_div_nonincreasing(ax, ad);
    assert(ax / ad >= 0) by (nonlinear_arith)
        requires ax >= 0, ad > 0;
    if ad >= 2 {
        lemma_div_is_ordered_by_denominator(ax, 2, ad);
        assert(ax / 2 <= 0x4000_0000_0000_0000);
    }
}

/// The powers of 0, 1 and -1.
proof fn lemma_pow_small_base(b: int, e: nat)
    ensures
        b == 0 ==> pow(b, e) == (if e == 0 { 1int } else { 0int }),
        b == 1 ==> pow(b, e) == 1,
        b == -1 ==> pow(b, e) == (if e % 2 == 0 { 1int } else { -1int }),
    decreases e,
{
    reveal(pow);
    if e > 0 {
        lemma_pow_small_base(b, (e - 1) as nat);
    }
}

/// The size of a power is the power of the size.
proof fn lemma_pow_abs(b: int, e: nat)
    ensures
        abs_int(pow(b, e)) == pow(abs_int(b), e),
    decreases e,
{
    reveal(pow);
    if e > 0 {
        lemma_pow_abs(b, (e - 1) as nat);
        let p = pow(b, (e - 1) as nat);
        assert(abs_int(b * p) == abs_int(b) * abs_int(p)) by (nonlinear_arith);
    }
}

/// Where the power of `b` with `e` fits in an `i64`, so does each power up to it.
proof fn lemma_pow_step_fits(b: int, k: nat, e: nat)
    requires
        abs_int(b) >= 2,
        k < e,
        i64::MIN <= pow(b, e) <= i64::MAX,
    ensures
        i64::MIN <= b * pow(b, k) <= i64::MAX,
{
    reveal(pow);
    let a = abs_int(b);
    lemma_pow_abs(b, (k + 1) as nat);
    lemma_pow_abs(b, e);
    assert(pow(b, (k + 1) as nat) == b * pow(b, k));
    lemma_pow_increases(a as nat, (k + 1) as nat, e);
    if k + 1 < e {
        lemma_pow_increases(a as nat, (k + 2) as nat, e);
        assert(pow(a, (k + 2) as nat) == a * pow(a, (k + 1) as nat));
        let q = pow(a, (k + 1) as nat);
        assert(q >= 0) by {
            lemma_pow_abs(b, (k + 1) as nat);
        }
        assert(a * q >= 2 * q) by (nonlinear_arith)
            requires a >= 2, q >= 0;
    }
}


/// The size of `x`.
pub open spec fn abs_int(x: int) -> int {
    if x < 0 {
        -x
    } else {
        x
    }
}

/// Rust's remainder `x % m`: the sign of `x`, and smaller than `m` in size.
pub open spec fn trunc_rem(x: int, m: int) -> int {
    if x >= 0 {
        x % abs_int(m)
    } else {
        -((-x) % abs_int(m))
    }
}

/// `x` is an `i64` of which the remainder by `m` does not overflow.
pub open spec fn rem_fits(x: int, m: int) -> bool {
    &&& i64::MIN <= x <= i64::MAX
    &&& !(x == i64::MIN && m == -1)
}

/// The loop of `pow_mod` from the state (`result`, `cur`, `e`) multiplies and squares
/// without overflow.
pub open spec fn pow_mod_runs(result: int, cur: int, e: int, m: int) -> bool
    decreases e,
{
    if e <= 0 {
        true
    } else {
        &&& (e % 2 == 1 ==> rem_fits(result * cur, m))
        &&& rem_fits(cur * cur, m)
        &&& pow_mod_runs(
            if e % 2 == 1 { trunc_rem(result * cur, m) } else { result },
            trunc_rem(cur * cur, m),
            e / 2,
            m,
        )
    }
}

/// `pow(number, power, modulus)` as the runtime computes it: 1 for a power below 1, else
/// the remainder of `number` to the `power` by `modulus`.
pub open spec fn pow_mod_spec(number: int, power: int, modulus: int) -> int {
    if power <= 0 {
        1
    } else {
        trunc_rem(pow(number, power as nat), modulus)
    }
}

/// The remainder of a product by `m` is that of the product with the second factor reduced.
pub proof fn lemma_rem_mul(a: int, b: int, m: int)
    requires
        m != 0,
    ensures
        trunc_rem(a * trunc_rem(b, m), m) == trunc_rem(a * b, m),
        trunc_rem(trunc_rem(b, m) * a, m) == trunc_rem(b * a, m),
{
    let mm = abs_int(m);
    let na = abs_int(a);
    let nb = abs_int(b);
    let p = na * (nb % mm);
    let q = na * nb;
    lemma_mul_mod_noop_right(na, nb, mm);
    vstd::arithmetic::div_mod::lemma_mod_bound(nb, mm);
    assert(0int % mm == 0) by (nonlinear_arith)
        requires mm > 0;
    assert(p % mm == q % mm);
    assert(p >= 0 && q >= 0) by (nonlinear_arith)
        requires na >= 0, nb >= 0, nb % mm >= 0, p == na * (nb % mm), q == na * nb;
    assert(p > 0 ==> q > 0) by (nonlinear_arith)
        requires na >= 0, nb >= 0, p == na * (nb % mm), q == na * nb, nb == 0 ==> nb % mm == 0;
    let t = trunc_rem(b, m);
    assert(t == if b >= 0 { nb % mm } else { -(nb % mm) });
    if (a >= 0) == (b >= 0) {
        assert(a * t == p && a * b == q) by (nonlinear_arith)
            requires
                na == (if a < 0 { -a } else { a }),
                nb == (if b < 0 { -b } else { b }),
                t == (if b >= 0 { nb % mm } else { -(nb % mm) }),
                (a >= 0) == (b >= 0),
                p == na * (nb % mm),
                q == na * nb;
        assert(trunc_rem(a * t, m) == p % mm);
        assert(trunc_rem(a * b, m) == q % mm);
    } else {
        assert(a * t == -p && a * b == -q) by (nonlinear_arith)
            requires
                na == (if a < 0 { -a } else { a }),
                nb == (if b < 0 { -b } else { b }),
                t == (if b >= 0 { nb % mm } else { -(nb % mm) }),
                (a >= 0) != (b >= 0),
                p == na * (nb % mm),
                q == na * nb;
        if p == 0 {
            assert(trunc_rem(a * t, m) == 0);
            assert(trunc_rem(a * b, m) == 0);
        } else {
            assert(trunc_rem(a * t, m) == -(p % mm));
            assert(trunc_rem(a * b, m) == -(q % mm));
        }
    }
    assert(t * a == a * t) by (nonlinear_arith);
    assert(b * a == a * b) by (nonlinear_arith);
}

/// Reducing a remainder again changes nothing.
pub proof fn lemma_rem_rem(x: int, m: int)
    requires
        m != 0,
    ensures
        trunc_rem(trunc_rem(x, m), m) == trunc_rem(x, m),
{
    let mm = abs_int(m);
    vstd::arithmetic::div_mod::lemma_mod_twice(if x >= 0 { x } else { -x }, mm);
    vstd::arithmetic::div_mod::lemma_mod_bound(if x >= 0 { x } else { -x }, mm);
}

/// Reducing the base of a power does not change the remainder of a product with it.
pub proof fn lemma_rem_pow(x: int, y: int, k: nat, m: int)
    requires
        m != 0,
    ensures
        trunc_rem(x * pow(trunc_rem(y, m), k), m) == trunc_rem(x * pow(y, k), m),
    decreases k,
{
    reveal(pow);
    if k == 0 {
    } else {
        let ty = trunc_rem(y, m);
        let k1 = (k - 1) as nat;
        lemma_rem_pow(x * ty, y, k1, m);
        // x * ty^k == (x * ty) * ty^(k-1)
        assert(x * pow(ty, k) == (x * ty) * pow(ty, k1)) by (nonlinear_arith)
            requires pow(ty, k) == ty * pow(ty, k1);
        // (x * ty) * y^(k-1) == ty * (x * y^(k-1))
        assert((x * ty) * pow(y, k1) == ty * (x * pow(y, k1))) by (nonlinear_arith);
        lemma_rem_mul(x * pow(y, k1), y, m);
        assert(y * (x * pow(y, k1)) == x * pow(y, k)) by (nonlinear_arith)
            requires pow(y, k) == y * pow(y, k1);
    }
}

/// A power by an odd or even exponent, through the square of the base.
proof fn lemma_pow_halves(c: int, e: nat)
    ensures
        e % 2 == 1 ==> pow(c, e) == c * pow(c * c, e / 2),
        e % 2 == 0 ==> pow(c, e) == pow(c * c, e / 2),
{
    let h = e / 2;
    vstd::arithmetic::power::lemma_pow_multiplies(c, 2, h);
    vstd::arithmetic::power::lemma_pow_adds(c, 1, 2 * h);
    reveal(pow);
    assert(pow(c, 2) == c * c) by {
        reveal_with_fuel(pow, 3);
    }
    assert(pow(c, 1) == c) by {
        reveal_with_fuel(pow, 2);
    }
    assert(2 * h == e || 2 * h + 1 == e);
    if e % 2 == 1 {
        assert(e == 1 + 2 * h);
    } else {
        assert(e == 2 * h);
    }
}

/// The remainder of `x` by `m`, as Rust computes it.
fn rem(x: i64, m: i64) -> (r: i64)
    requires
        m != 0,
        !(x == i64::MIN && m == -1),
    ensures
        r == trunc_rem(x as int, m as int),
{
    match x.checked_rem(m) {
        Some(r) => r,
        None => 0,
    }
}

/// `pow(number, power, modulus)`: the power by squaring, each product reduced by `modulus`
/// with Rust's remainder.
pub fn pow_mod(number: i64, power: i64, modulus: i64) -> (r: i64)
    requires
        modulus != 0,
        pow_mod_runs(1, number as int, power as int, modulus as int),
    ensures
        r == pow_mod_spec(number as int, power as int, modulus as int),
{
    let ghost m = modulus as int;
    let mut result: i64 = 1;
    let mut cur = number;
    let mut e = power;
    while e > 0
        invariant
            m == modulus as int,
            m != 0,
            power > 0 ==> e >= 0,
            power <= 0 ==> e == power && result == 1,
            pow_mod_runs(result as int, cur as int, e as int, m),
            power > 0 ==> trunc_rem(result * pow(cur as int, e as nat), m)
                == trunc_rem(pow(number as int, power as nat), m),
            power > 0 ==> (e > 0 || result as int == trunc_rem(result as int, m)),
        decreases e,
    {
        let ghost (r0, c0, e0) = (result as int, cur as int, e as int);
        proof {
            assert((e & 1 == 1) == (e % 2 == 1)) by (bit_vector)
                requires e > 0;
            assert(e >> 1 == e / 2) by (bit_vector)
                requires e > 0;
        }
        if e & 1 == 1 {
            result = rem(result * cur, modulus);
        }
        cur = rem(cur * cur, modulus);
        e >>= 1;
        proof {
            let h = (e0 / 2) as nat;
            assert(e as int == h);
            lemma_pow_halves(c0, e0 as nat);
            lemma_rem_pow(result as int, c0 * c0, h, m);
            if e0 % 2 == 1 {
                lemma_rem_mul(pow(c0 * c0, h), r0 * c0, m);
                assert(pow(c0 * c0, h) * trunc_rem(r0 * c0, m) == trunc_rem(r0 * c0, m) * pow(c0 * c0, h))
                    by (nonlinear_arith);
                assert(pow(c0 * c0, h) * (r0 * c0) == r0 * (c0 * pow(c0 * c0, h))) by (nonlinear_arith);
                lemma_rem_rem(r0 * c0, m);
            }
        }
    }
    proof {
        if power > 0 {
            assert(e == 0);
            assert(pow(cur as int, 0) == 1) by {
                reveal(pow);
            }
            assert(result * pow(cur as int, e as nat) == result as int);
        }
    }
    result
}

/// The remainder of `x` by `m` differs from `x` by a multiple of `m`, and is smaller than
/// `m` in size.
pub proof fn lemma_rem_multiple(x: int, m: int)
    requires
        m != 0,
    ensures
        exists|k: int| #[trigger] (m * k) == x - trunc_rem(x, m),
        abs_int(trunc_rem(x, m)) < abs_int(m),
{
    let mm = abs_int(m);
    let y = if x >= 0 { x } else { -x };
    vstd::arithmetic::div_mod::lemma_fundamental_div_mod(y, mm);
    vstd::arithmetic::div_mod::lemma_mod_bound(y, mm);
    let q = y / mm;
    let k = if (x >= 0) == (m >= 0) { q } else { -q };
    assert(m * k == x - trunc_rem(x, m)) by (nonlinear_arith)
        requires
            y == mm * q + y % mm,
            mm == (if m < 0 { -m } else { m }),
            y == (if x >= 0 { x } else { -x }),
            trunc_rem(x, m) == (if x >= 0 { y % mm } else { -(y % mm) }),
            k == (if (x >= 0) == (m >= 0) { q } else { -q });
}

/// `d` divides `x`.
pub open spec fn divides(d: int, x: int) -> bool {
    exists|c: int| #[trigger] (d * c) == x
}

/// Euclid's algorithm as the runtime runs it: the last remainder that is not zero, each
/// taken with Rust's remainder, so that its sign follows the steps.
pub open spec fn gcd_spec(a: int, b: int) -> int
    decreases abs_int(b),
{
    if b == 0 {
        a
    } else {
        proof {
            lemma_rem_multiple(a, b);
        }
        gcd_spec(b, trunc_rem(a, b))
    }
}

/// The remainders of Euclid's algorithm from `a` and `b` do not overflow.
pub open spec fn gcd_runs(a: int, b: int) -> bool
    decreases abs_int(b),
{
    if b == 0 {
        true
    } else {
        proof {
            lemma_rem_multiple(a, b);
        }
        !(a == i64::MIN && b == -1) && gcd_runs(b, trunc_rem(a, b))
    }
}

/// A common divisor of `x` and `m` divides the remainder of `x` by `m`, and a common
/// divisor of `m` and the remainder divides `x`.
proof fn lemma_divides_rem(d: int, x: int, m: int)
    requires
        m != 0,
    ensures
        divides(d, x) && divides(d, m) ==> divides(d, trunc_rem(x, m)),
        divides(d, m) && divides(d, trunc_rem(x, m)) ==> divides(d, x),
{
    lemma_rem_multiple(x, m);
    let k = choose|k: int| #[trigger] (m * k) == x - trunc_rem(x, m);
    let t = trunc_rem(x, m);
    if divides(d, x) && divides(d, m) {
        let c1 = choose|c: int| #[trigger] (d * c) == x;
        let c2 = choose|c: int| #[trigger] (d * c) == m;
        assert(d * (c1 - c2 * k) == t) by (nonlinear_arith)
            requires d * c1 == x, d * c2 == m, m * k == x - t;
    }
    if divides(d, m) && divides(d, t) {
        let c2 = choose|c: int| #[trigger] (d * c) == m;
        let c3 = choose|c: int| #[trigger] (d * c) == t;
        assert(d * (c3 + c2 * k) == x) by (nonlinear_arith)
            requires d * c3 == t, d * c2 == m, m * k == x - t;
    }
}

/// What Euclid's algorithm gives divides both numbers, and every common divisor of them
/// divides it: it is their greatest common divisor, up to its sign.
pub proof fn lemma_gcd_divides(a: int, b: int)
    ensures
        divides(gcd_spec(a, b), a),
        divides(gcd_spec(a, b), b),
        forall|d: int| divides(d, a) && divides(d, b) ==> #[trigger] divides(d, gcd_spec(a, b)),
    decreases abs_int(b),
{
    if b == 0 {
        assert(a * 1 == a);
        assert(a * 0 == 0);
    } else {
        let t = trunc_rem(a, b);
        lemma_rem_multiple(a, b);
        lemma_gcd_divides(b, t);
        let g = gcd_spec(b, t);
        assert(gcd_spec(a, b) == g);
        lemma_divides_rem(g, a, b);
        assert forall|d: int| divides(d, a) && divides(d, b) implies #[trigger] divides(d, g) by {
            lemma_divides_rem(d, a, b);
        }
    }
}

/// `math.gcd(a, b)` as the runtime computes it: Euclid's algorithm with Rust's remainder.
pub fn gcd(a: i64, b: i64) -> (r: i64)
    requires
        gcd_runs(a as int, b as int),
    ensures
        r == gcd_spec(a as int, b as int),
        divides(r as int, a as int),
        divides(r as int, b as int),
        forall|d: int| divides(d, a as int) && divides(d, b as int) ==> #[trigger] divides(d, r as int),
    decreases abs_int(b as int),
{
    proof {
        lemma_gcd_divides(a as int, b as int);
    }
    if b == 0 {
        a
    } else {
        proof {
            lemma_rem_multiple(a as int, b as int);
        }
        gcd(b, rem(a, b))
    }
}

} // verus!
