//! Exact rational numbers, and the rounding that turns them into whole counts.

use crate::text::{dec_int, push_char, push_int};
use vstd::arithmetic::div_mod::{
    lemma_fundamental_div_mod, lemma_fundamental_div_mod_converse, lemma_truncate_middle,
};
use vstd::prelude::*;

verus! {

/// A rational number in lowest terms with a positive denominator.
#[derive(Clone, Copy, Debug, PartialEq, Eq, Structural)]
pub struct Rat {
    pub num: i64,
    pub den: i64,
}

pub open spec fn abs(i: int) -> nat {
    if i < 0 {
        (-i) as nat
    } else {
        i as nat
    }
}

/// The greatest common divisor, by Euclid's algorithm.
pub open spec fn gcd(a: nat, b: nat) -> nat
    decreases b,
{
    if b == 0 {
        a
    } else {
        gcd(b, a % b)
    }
}

/// The quotient rounded to the nearest whole number, halves away from zero.
pub open spec fn round_half_away(n: int, d: int) -> int {
    if n >= 0 {
        (2 * n + d) / (2 * d)
    } else {
        -((2 * (-n) + d) / (2 * d))
    }
}

/// The quotient rounded down.
pub open spec fn floor(n: int, d: int) -> int {
    n / d
}

/// The quotient rounded up.
pub open spec fn ceil(n: int, d: int) -> int {
    -((-n) / d)
}

// ---------------------------------------------------------------------------
// Divisibility
// ---------------------------------------------------------------------------

pub open spec fn divides(d: nat, n: nat) -> bool {
    exists|k: nat| n == #[trigger] (d * k)
}

proof fn lemma_divides_sum(d: nat, a: nat, b: nat, q: nat)
    requires
        divides(d, a),
        divides(d, b),
    ensures
        divides(d, a * q + b),
{
    let i = choose|k: nat| a == #[trigger] (d * k);
    let j = choose|k: nat| b == #[trigger] (d * k);
    assert(a * q + b == d * (i * q + j)) by (nonlinear_arith)
        requires
            a == d * i,
            b == d * j,
    ;
}

proof fn lemma_divides_rest(d: nat, a: nat, b: nat, q: nat, r: nat)
    requires
        divides(d, a),
        divides(d, b),
        b == a * q + r,
    ensures
        divides(d, r),
{
    let i = choose|k: nat| a == #[trigger] (d * k);
    let j = choose|k: nat| b == #[trigger] (d * k);
    assert(r == d * (j - i * q)) by (nonlinear_arith)
        requires
            a == d * i,
            b == d * j,
            b == a * q + r,
    ;
    if d == 0 {
        assert(r == 0) by (nonlinear_arith)
            requires
                d == 0,
                r == d * (j - i * q),
        ;
        assert(r == d * 0nat) by (nonlinear_arith)
            requires
                r == 0,
        ;
    } else {
        assert(j - i * q >= 0) by (nonlinear_arith)
            requires
                d > 0,
                r >= 0,
                r == d * (j - i * q),
        ;
        let k = (j - i * q) as nat;
        assert(r == d * k);
    }
}

/// The greatest common divisor divides both numbers and is positive unless both are zero.
pub proof fn lemma_gcd_divides(a: nat, b: nat)
    ensures
        divides(gcd(a, b), a),
        divides(gcd(a, b), b),
        a > 0 || b > 0 ==> gcd(a, b) > 0,
    decreases b,
{
    if b == 0 {
        assert(a == a * 1nat) by (nonlinear_arith);
        assert(0 == a * 0nat) by (nonlinear_arith);
    } else {
        let r = a % b;
        lemma_gcd_divides(b, r);
        let g = gcd(b, r);
        lemma_fundamental_div_mod(a as int, b as int);
        let q = a / b;
        assert(a == b * q + r);
        lemma_divides_sum(g, b, r, q);
    }
}

/// Every common divisor divides the greatest one.
pub proof fn lemma_gcd_greatest(a: nat, b: nat, d: nat)
    requires
        divides(d, a),
        divides(d, b),
    ensures
        divides(d, gcd(a, b)),
    decreases b,
{
    if b != 0 {
        let r = a % b;
        lemma_fundamental_div_mod(a as int, b as int);
        let q = a / b;
        assert(a == b * q + r);
        lemma_divides_rest(d, b, a, q, r);
        lemma_gcd_greatest(b, r, d);
    }
}

pub proof fn lemma_exact_division(n: nat, d: nat)
    requires
        d > 0,
        divides(d, n),
    ensures
        n == d * (n / d),
        n > 0 ==> n / d > 0,
{
    let k = choose|k: nat| n == #[trigger] (d * k);
    lemma_fundamental_div_mod_converse(n as int, d as int, k as int, 0);
    if n > 0 {
        assert(k > 0) by (nonlinear_arith)
            requires
                n == d * k,
                n > 0,
        ;
    }
}

/// Dividing both numbers by their greatest common divisor leaves nothing in common.
pub proof fn lemma_lowest_terms(a: nat, b: nat)
    requires
        b > 0,
    ensures
        gcd(a / gcd(a, b), b / gcd(a, b)) == 1,
{
    let g = gcd(a, b);
    lemma_gcd_divides(a, b);
    lemma_exact_division(a, g);
    lemma_exact_division(b, g);
    let x = a / g;
    let y = b / g;
    let h = gcd(x, y);
    lemma_gcd_divides(x, y);
    lemma_exact_division(x, h);
    lemma_exact_division(y, h);
    let gh = g * h;
    assert(a == gh * (x / h)) by (nonlinear_arith)
        requires
            a == g * x,
            x == h * (x / h),
            gh == g * h,
    ;
    assert(b == gh * (y / h)) by (nonlinear_arith)
        requires
            b == g * y,
            y == h * (y / h),
            gh == g * h,
    ;
    lemma_gcd_greatest(a, b, gh);
    let k = choose|k: nat| g == #[trigger] (gh * k);
    assert(h == 1) by (nonlinear_arith)
        requires
            g > 0,
            h > 0,
            gh == g * h,
            g == gh * k,
    ;
}

proof fn lemma_gcd_scaled(k: nat, a: nat, b: nat)
    requires
        k > 0,
    ensures
        gcd(k * a, k * b) == k * gcd(a, b),
    decreases b,
{
    if b == 0 {
        assert(k * b == 0) by (nonlinear_arith)
            requires
                b == 0,
        ;
    } else {
        lemma_product_positive(k as int, b as int);
        lemma_truncate_middle(a as int, k as int, b as int);
        lemma_gcd_scaled(k, b, a % b);
        assert((k * a) % (k * b) == k * (a % b));
    }
}

// ---------------------------------------------------------------------------
// The type
// ---------------------------------------------------------------------------

impl Rat {
    /// Positive denominator: what every operation needs and keeps.
    pub open spec fn wf(self) -> bool {
        self.den > 0
    }

    /// Whether `n / d` in lowest terms can be stored.
    pub open spec fn fits(n: int, d: int) -> bool {
        let g = gcd(abs(n), abs(d));
        &&& abs(n) / g <= i64::MAX
        &&& abs(d) / g <= i64::MAX
    }

    /// `n / d` in lowest terms, for `d > 0`.
    pub open spec fn of(n: int, d: int) -> Rat {
        let g = gcd(abs(n), abs(d));
        Rat {
            num: if n < 0 {
                (-(abs(n) / g)) as i64
            } else {
                (abs(n) / g) as i64
            },
            den: (abs(d) / g) as i64,
        }
    }

    /// Whether this is the number `n / d`.
    pub open spec fn is(self, n: int, d: int) -> bool {
        self.num * d == n * self.den
    }

    pub open spec fn spec_lt(self, other: Rat) -> bool {
        self.num * other.den < other.num * self.den
    }

    pub open spec fn spec_le(self, other: Rat) -> bool {
        self.num * other.den <= other.num * self.den
    }

    pub open spec fn text(self) -> Seq<char> {
        dec_int(self.num as int) + seq!['/'] + dec_int(self.den as int)
    }

    /// Reduction keeps the value, gives a positive denominator and leaves numerator and
    /// denominator without a common divisor.
    pub proof fn lemma_of(n: int, d: int)
        requires
            d > 0,
            Rat::fits(n, d),
        ensures
            Rat::of(n, d).wf(),
            Rat::of(n, d).is(n, d),
            gcd(abs(Rat::of(n, d).num as int), abs(Rat::of(n, d).den as int)) == 1,
    {
        let a = abs(n);
        let b = abs(d);
        let g = gcd(a, b);
        lemma_gcd_divides(a, b);
        lemma_exact_division(a, g);
        lemma_exact_division(b, g);
        lemma_lowest_terms(a, b);
        let x = a / g;
        let y = b / g;
        assert(x * b == a * y) by (nonlinear_arith)
            requires
                a == g * x,
                b == g * y,
        ;
        let r = Rat::of(n, d);
        if n < 0 {
            assert(r.num == -(x as int));
            assert(-(x as int) * d == n * y) by (nonlinear_arith)
                requires
                    x * b == a * y,
                    b == d,
                    a == -n,
            ;
        } else {
            assert(r.num == x);
        }
    }

    pub fn one() -> (r: Rat)
        ensures
            r == (Rat { num: 1, den: 1 }),
    {
        Rat { num: 1, den: 1 }
    }

    /// `n / d` in lowest terms, where it can be stored.
    pub fn try_of(n: i128, d: i128) -> (r: Option<Rat>)
        requires
            d > 0,
            n > i128::MIN,
        ensures
            r == (if Rat::fits(n as int, d as int) {
                Some(Rat::of(n as int, d as int))
            } else {
                None::<Rat>
            }),
            r is Some ==> r->0.wf(),
    {
        let a: u128 = if n < 0 {
            (-n) as u128
        } else {
            n as u128
        };
        let b: u128 = d as u128;
        let g: u128 = common_divisor(a, b);
        proof {
            lemma_gcd_divides(a as nat, b as nat);
            lemma_exact_division(b as nat, g as nat);
        }
        let x: u128 = a / g;
        let y: u128 = b / g;
        let limit: u128 = i64::MAX as u128;
        if x > limit || y > limit {
            return None;
        }
        let top: i64 = x as i64;
        Some(
            Rat {
                num: if n < 0 {
                    -top
                } else {
                    top
                },
                den: y as i64,
            },
        )
    }

    /// A rational from two integers; `None` for a zero denominator, or where the lowest
    /// terms do not fit.
    pub fn new(num: i64, den: i64) -> (r: Option<Rat>)
        ensures
            r is Some ==> r->0.wf(),
            den == 0 ==> r is None,
            den > 0 ==> r == (if Rat::fits(num as int, den as int) {
                Some(Rat::of(num as int, den as int))
            } else {
                None::<Rat>
            }),
            den < 0 ==> r == (if Rat::fits(-num, -den) {
                Some(Rat::of(-num, -den))
            } else {
                None::<Rat>
            }),
    {
        if den == 0 {
            None
        } else if den > 0 {
            Rat::try_of(num as i128, den as i128)
        } else {
            Rat::try_of(-(num as i128), -(den as i128))
        }
    }

    pub fn is_one(&self) -> (r: bool)
        ensures
            r == (self.num == self.den),
    {
        self.num == self.den
    }

    pub fn before(&self, other: &Rat) -> (r: bool)
        ensures
            r == self.spec_lt(*other),
    {
        proof {
            lemma_wide(self.num as int, other.den as int);
            lemma_wide(other.num as int, self.den as int);
        }
        (self.num as i128) * (other.den as i128) < (other.num as i128) * (self.den as i128)
    }

    pub fn to_text(&self) -> (r: String)
        ensures
            r@ == self.text(),
    {
        let mut out = String::new();
        push_int(&mut out, self.num as i128);
        push_char(&mut out, '/');
        push_int(&mut out, self.den as i128);
        assert(out@ =~= self.text());
        out
    }
}

/// The product of two 64-bit numbers fits in 128 bits, with room to add two of them.
pub proof fn lemma_wide(a: int, b: int)
    requires
        i64::MIN <= a <= i64::MAX,
        i64::MIN <= b <= i64::MAX,
    ensures
        -0x4000_0000_0000_0000_0000_0000_0000_0000 <= a * b
            <= 0x4000_0000_0000_0000_0000_0000_0000_0000,
{
    assert(-0x4000_0000_0000_0000_0000_0000_0000_0000 <= a * b
        <= 0x4000_0000_0000_0000_0000_0000_0000_0000) by (nonlinear_arith)
        requires
            -0x8000_0000_0000_0000 <= a <= 0x7fff_ffff_ffff_ffff,
            -0x8000_0000_0000_0000 <= b <= 0x7fff_ffff_ffff_ffff,
    ;
}

pub proof fn lemma_product_positive(a: int, b: int)
    requires
        a > 0,
        b > 0,
    ensures
        a * b > 0,
{
    assert(a * b > 0) by (nonlinear_arith)
        requires
            a > 0,
            b > 0,
    ;
}

/// Euclid's algorithm on machine numbers.
pub fn common_divisor(a: u128, b: u128) -> (r: u128)
    ensures
        r == gcd(a as nat, b as nat),
{
    let mut x: u128 = a;
    let mut y: u128 = b;
    while y != 0
        invariant
            gcd(x as nat, y as nat) == gcd(a as nat, b as nat),
        decreases y,
    {
        let rest: u128 = x % y;
        x = y;
        y = rest;
    }
    x
}

/// The two numbers divided by what they have in common.
pub fn reduce(num: i64, den: i64) -> (r: (i64, i64))
    requires
        num > 0,
        den > 0,
    ensures
        r.0 == num as nat / gcd(num as nat, den as nat),
        r.1 == den as nat / gcd(num as nat, den as nat),
        r.0 > 0,
        r.1 > 0,
        r.0 * den == num * r.1,
{
    let g: u128 = common_divisor(num as u128, den as u128);
    proof {
        lemma_gcd_divides(num as nat, den as nat);
        lemma_exact_division(num as nat, g as nat);
        lemma_exact_division(den as nat, g as nat);
        let x = num as nat / g as nat;
        let y = den as nat / g as nat;
        assert(x * den == num * y) by (nonlinear_arith)
            requires
                num == g * x,
                den == g * y,
        ;
    }
    let x: u128 = num as u128 / g;
    let y: u128 = den as u128 / g;
    proof {
        assert(x <= num) by (nonlinear_arith)
            requires
                num == g * x,
                g > 0,
                x >= 0,
        ;
        assert(y <= den) by (nonlinear_arith)
            requires
                den == g * y,
                g > 0,
                y >= 0,
        ;
    }
    (x as i64, y as i64)
}

// ---------------------------------------------------------------------------
// Rounding
// ---------------------------------------------------------------------------

proof fn lemma_round(n: int, d: int, q: int, r: int)
    requires
        n >= 0,
        d > 0,
        n == q * d + r,
        0 <= r < d,
    ensures
        round_half_away(n, d) == if r >= d - r {
            q + 1
        } else {
            q
        },
{
    let top = 2 * n + d;
    let base = 2 * d;
    if r >= d - r {
        assert(top == base * (q + 1) + (2 * r - d)) by (nonlinear_arith)
            requires
                n == q * d + r,
                top == 2 * n + d,
                base == 2 * d,
        ;
        lemma_fundamental_div_mod_converse(top, base, q + 1, 2 * r - d);
    } else {
        assert(top == base * q + (2 * r + d)) by (nonlinear_arith)
            requires
                n == q * d + r,
                top == 2 * n + d,
                base == 2 * d,
        ;
        lemma_fundamental_div_mod_converse(top, base, q, 2 * r + d);
    }
}

/// Rounds to the nearest whole number, halves away from zero.
pub fn rounded(n: i128, d: i128) -> (r: i128)
    requires
        d > 0,
        -0x4000_0000_0000_0000_0000_0000_0000_0000 <= n
            <= 0x4000_0000_0000_0000_0000_0000_0000_0000,
    ensures
        r == round_half_away(n as int, d as int),
        -0x4000_0000_0000_0000_0000_0000_0000_0000 - 1 <= r
            <= 0x4000_0000_0000_0000_0000_0000_0000_0000 + 1,
{
    let a: i128 = if n < 0 {
        -n
    } else {
        n
    };
    let q: i128 = a / d;
    let rest: i128 = a % d;
    proof {
        lemma_fundamental_div_mod(a as int, d as int);
        assert(q * d == d * q) by (nonlinear_arith);
        lemma_round(a as int, d as int, q as int, rest as int);
        assert(q <= a) by (nonlinear_arith)
            requires
                a == d * q + rest,
                d > 0,
                rest >= 0,
                a >= 0,
        ;
    }
    let up: i128 = if rest >= d - rest {
        q + 1
    } else {
        q
    };
    if n < 0 {
        -up
    } else {
        up
    }
}

/// `n / d` to the nearest whole number, halves to the even one.
pub open spec fn round_half_even(n: int, d: int) -> int {
    let a = abs(n) as int;
    let q = a / d;
    let rest = a % d;
    let up = if 2 * rest > d || (2 * rest == d && q % 2 == 1) {
        q + 1
    } else {
        q
    };
    if n < 0 {
        -up
    } else {
        up
    }
}

/// Rounds to the nearest whole number, halves to the even one: as decimal text is rounded.
pub fn rounded_even(n: i128, d: i128) -> (r: i128)
    requires
        d > 0,
        -0x4000_0000_0000_0000_0000_0000_0000_0000 <= n
            <= 0x4000_0000_0000_0000_0000_0000_0000_0000,
    ensures
        r == round_half_even(n as int, d as int),
        -0x4000_0000_0000_0000_0000_0000_0000_0000 - 1 <= r
            <= 0x4000_0000_0000_0000_0000_0000_0000_0000 + 1,
{
    let a: i128 = if n < 0 {
        -n
    } else {
        n
    };
    let q: i128 = a / d;
    let rest: i128 = a % d;
    proof {
        lemma_fundamental_div_mod(a as int, d as int);
        assert(q <= a) by (nonlinear_arith)
            requires
                a == d * q + rest,
                d > 0,
                rest >= 0,
                a >= 0,
        ;
    }
    let up: i128 = if rest > d - rest || (rest == d - rest && q % 2 == 1) {
        q + 1
    } else {
        q
    };
    if n < 0 {
        -up
    } else {
        up
    }
}

/// Rounds down.
pub fn floored(n: i128, d: i128) -> (r: i128)
    requires
        d > 0,
        -0x4000_0000_0000_0000_0000_0000_0000_0000 <= n
            <= 0x4000_0000_0000_0000_0000_0000_0000_0000,
    ensures
        r == floor(n as int, d as int),
{
    if n >= 0 {
        n / d
    } else {
        let a: i128 = -n;
        let q: i128 = a / d;
        let rest: i128 = a % d;
        proof {
            lemma_fundamental_div_mod(a as int, d as int);
            assert(q <= a) by (nonlinear_arith)
                requires
                    a == d * q + rest,
                    d > 0,
                    rest >= 0,
                    a >= 0,
            ;
            if rest == 0 {
                assert(n == d * (-q)) by (nonlinear_arith)
                    requires
                        a == d * q + rest,
                        rest == 0,
                        a == -n,
                ;
                lemma_fundamental_div_mod_converse(n as int, d as int, -q, 0);
            } else {
                assert(n == d * (-q - 1) + (d - rest)) by (nonlinear_arith)
                    requires
                        a == d * q + rest,
                        a == -n,
                ;
                lemma_fundamental_div_mod_converse(n as int, d as int, -q - 1, d - rest);
            }
        }
        if rest == 0 {
            -q
        } else {
            -q - 1
        }
    }
}

/// Rounds up.
pub fn ceiled(n: i128, d: i128) -> (r: i128)
    requires
        d > 0,
        -0x4000_0000_0000_0000_0000_0000_0000_0000 <= n
            <= 0x4000_0000_0000_0000_0000_0000_0000_0000,
    ensures
        r == ceil(n as int, d as int),
{
    let low: i128 = floored(-n, d);
    proof {
        lemma_fundamental_div_mod(-n as int, d as int);
        assert(low > -0x7000_0000_0000_0000_0000_0000_0000_0000) by (nonlinear_arith)
            requires
                -n == d * low + (-n) % (d as int),
                0 <= (-n) % (d as int) < d,
                d > 0,
                -n >= -0x4000_0000_0000_0000_0000_0000_0000_0000,
        ;
    }
    -low
}

// ---------------------------------------------------------------------------
// Equal fractions
// ---------------------------------------------------------------------------

proof fn lemma_same_quotients(n: nat, d: nat, m: nat, e: nat)
    requires
        d > 0,
        e > 0,
        n * e == m * d,
    ensures
        n / gcd(n, d) == m / gcd(m, e),
        d / gcd(n, d) == e / gcd(m, e),
{
    let g = gcd(n, d);
    let h = gcd(m, e);
    lemma_gcd_scaled(e, n, d);
    lemma_gcd_scaled(d, m, e);
    assert(e * n == d * m && e * d == d * e) by (nonlinear_arith)
        requires
            n * e == m * d,
    ;
    assert(e * g == d * h);
    lemma_gcd_divides(n, d);
    lemma_gcd_divides(m, e);
    lemma_exact_division(n, g);
    lemma_exact_division(d, g);
    lemma_exact_division(m, h);
    lemma_exact_division(e, h);
    let x = n / g;
    let y = d / g;
    let w = m / h;
    let z = e / h;
    assert(z == y) by (nonlinear_arith)
        requires
            e * g == d * h,
            d == g * y,
            e == h * z,
            g > 0,
            h > 0,
    ;
    assert(x == w) by (nonlinear_arith)
        requires
            n * e == m * d,
            n == g * x,
            d == g * y,
            m == h * w,
            e == h * z,
            z == y,
            y > 0,
            g > 0,
            h > 0,
    ;
}

/// Fractions of one value reduce to one number.
pub proof fn lemma_same_fraction(n: int, d: int, m: int, e: int)
    requires
        d > 0,
        e > 0,
        n * e == m * d,
    ensures
        Rat::fits(n, d) == Rat::fits(m, e),
        Rat::of(n, d) == Rat::of(m, e),
{
    assert((n < 0 <==> m < 0) && abs(n) * e == abs(m) * d) by (nonlinear_arith)
        requires
            d > 0,
            e > 0,
            n * e == m * d,
    ;
    lemma_same_quotients(abs(n), abs(d), abs(m), abs(e));
}

} // verus!
