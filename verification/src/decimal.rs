//! Fixed-precision decimal numbers, as `rust_decimal` represents them: a
//! mantissa `m` with `-2^96 < m < 2^96` and a scale `e` with `0 <= e <= 28`,
//! standing for `m / 10^e`.

use std::str::FromStr;
use vstd::arithmetic::div_mod::lemma_fundamental_div_mod_converse;
use vstd::prelude::*;

verus! {

/// The largest scale that a decimal can carry.
pub const MAX_SCALE: u32 = 28;

/// `2^96`: every mantissa lies strictly between `-MANTISSA_BOUND` and `MANTISSA_BOUND`.
pub const MANTISSA_BOUND: i128 = 0x1_0000_0000_0000_0000_0000_0000;

/// `10^n`.
pub open spec fn pow10(n: nat) -> nat
    decreases n,
{
    if n == 0 {
        1
    } else {
        10 * pow10((n - 1) as nat)
    }
}

/// The position of a price in the order of prices: the whole part of its value
/// (rounded down) and the rest in units of `10^-28`.
pub type PriceKey = (i128, u128);

/// Whether key `a` comes strictly before key `b` (the order of tuples in std).
pub open spec fn key_lt(a: PriceKey, b: PriceKey) -> bool {
    a.0 < b.0 || (a.0 == b.0 && a.1 < b.1)
}

/// What `rust_decimal::Decimal::from_str` makes of a text: the mantissa and
/// scale of the decimal it parses, or the text of the error it reports.
pub uninterp spec fn decimal_from_str(text: Seq<char>) -> Result<(i128, u32), Seq<char>>;

/// The text that `rust_decimal` displays for the decimal with this mantissa and scale.
pub uninterp spec fn decimal_text(mantissa: i128, scale: u32) -> Seq<char>;

/// A decimal number `mantissa / 10^scale`.
#[derive(Clone, Copy, Debug)]
pub struct Decimal {
    pub mantissa: i128,
    pub scale: u32,
}

impl Decimal {
    /// The bounds that every `rust_decimal::Decimal` keeps.
    pub open spec fn valid(self) -> bool {
        &&& self.scale <= MAX_SCALE
        &&& -MANTISSA_BOUND < self.mantissa < MANTISSA_BOUND
    }

    /// The value in units of `10^-28`; exact for every valid decimal.
    pub open spec fn units(self) -> int {
        self.mantissa * pow10((MAX_SCALE - self.scale) as nat)
    }

    /// `self < other` as numbers: `m1 / 10^e1 < m2 / 10^e2`.
    pub open spec fn value_lt(self, other: Decimal) -> bool {
        self.mantissa * pow10(other.scale as nat) < other.mantissa * pow10(self.scale as nat)
    }

    /// `self == other` as numbers (`1.0` equals `1.00`).
    pub open spec fn value_eq(self, other: Decimal) -> bool {
        self.mantissa * pow10(other.scale as nat) == other.mantissa * pow10(self.scale as nat)
    }

    /// The price key of this value.
    pub open spec fn key_spec(self) -> PriceKey {
        ((self.units() / (pow10(28) as int)) as i128, (self.units() % (pow10(28) as int)) as u128)
    }

    /// Whether the value is zero.
    pub open spec fn is_zero_spec(self) -> bool {
        self.mantissa == 0
    }

    /// The decimal with the given parts, as a parse result describes it.
    pub open spec fn from_parts(parts: (i128, u32)) -> Decimal {
        Decimal { mantissa: parts.0, scale: parts.1 }
    }

    /// The mantissa `m` of `m / 10^scale`.
    pub fn mantissa(&self) -> (m: i128)
        ensures
            m == self.mantissa,
    {
        self.mantissa
    }

    /// The scale `e` of `mantissa / 10^e`.
    pub fn scale(&self) -> (e: u32)
        ensures
            e == self.scale,
    {
        self.scale
    }

    /// Whether the value is zero (of either sign).
    pub fn is_zero(&self) -> (z: bool)
        ensures
            z == self.is_zero_spec(),
    {
        self.mantissa == 0
    }

    /// Parses a decimal as `rust_decimal::Decimal::from_str` does; an error
    /// carries the text of the error that it reports.
    pub fn parse(text: &str) -> (r: Result<Decimal, String>)
        ensures
            match r {
                Ok(d) => {
                    &&& decimal_from_str(text@) == Ok::<(i128, u32), Seq<char>>((d.mantissa, d.scale))
                    &&& d.valid()
                },
                Err(msg) => decimal_from_str(text@) == Err::<(i128, u32), Seq<char>>(msg@),
            },
    {
        match parse_decimal_parts(text) {
            Ok(parts) => Ok(Decimal { mantissa: parts.0, scale: parts.1 }),
            Err(msg) => Err(msg),
        }
    }

    /// The text by which `rust_decimal` displays this value.
    pub fn to_text(&self) -> (s: String)
        requires
            self.valid(),
        ensures
            s@ == decimal_text(self.mantissa, self.scale),
    {
        format_decimal_parts(self.mantissa, self.scale)
    }

    /// The price key of this value: equal keys are equal values, and keys
    /// are ordered as the values are (see `lemma_key_order`).
    pub fn key(&self) -> (k: PriceKey)
        requires
            self.valid(),
        ensures
            k == self.key_spec(),
    {
        let s = self.scale;
        let p = pow10_u128(s);
        let up = pow10_u128(MAX_SCALE - s);
        proof {
            lemma_pow10_add(s as nat, (MAX_SCALE - s) as nat);
            lemma_pow10_28();
            lemma_pow10_positive(s as nat);
            lemma_pow10_positive((MAX_SCALE - s) as nat);
        }
        let ghost full: int = pow10(28) as int;
        let ghost u: int = self.units();
        if self.mantissa >= 0 {
            let a = self.mantissa as u128;
            let q = a / p;
            let r = a % p;
            proof {
                lemma_split(a as int, p as int, up as int, q as int, r as int);
            }
            let frac = r * up;
            proof {
                lemma_fundamental_div_mod_converse(u, full, q as int, frac as int);
            }
            (q as i128, frac)
        } else {
            let a = (-self.mantissa) as u128;
            let q = a / p;
            let r = a % p;
            proof {
                lemma_split(a as int, p as int, up as int, q as int, r as int);
            }
            if r == 0 {
                proof {
                    assert(u == (-(q as int)) * full + 0) by (nonlinear_arith)
                        requires
                            u == self.mantissa * (up as int),
                            self.mantissa == -(a as int),
                            a as int == q * p + r,
                            r == 0,
                            full == p * up,
                    ;
                    lemma_fundamental_div_mod_converse(u, full, -(q as int), 0);
                }
                (-(q as i128), 0)
            } else {
                proof {
                    assert(0 <= (p - r) * up < full) by (nonlinear_arith)
                        requires
                            0 < r < p,
                            up > 0,
                            full == p * up,
                    ;
                }
                let frac = (p - r) * up;
                proof {
                    assert(u == (-(q as int) - 1) * full + frac) by (nonlinear_arith)
                        requires
                            u == self.mantissa * (up as int),
                            self.mantissa == -(a as int),
                            a as int == q * p + r,
                            full == p * up,
                            frac == (p - r) * up,
                    ;
                    lemma_fundamental_div_mod_converse(u, full, -(q as int) - 1, frac as int);
                }
                (-(q as i128) - 1, frac)
            }
        }
    }
}

/// Keys order decimals as their values are ordered: the key of `a` comes
/// before the key of `b` exactly when `a < b`, and the keys are equal exactly
/// when the values are (so `1.0` and `1.00` share a key).
pub proof fn lemma_key_order(a: Decimal, b: Decimal)
    requires
        a.valid(),
        b.valid(),
    ensures
        key_lt(a.key_spec(), b.key_spec()) <==> a.value_lt(b),
        (a.key_spec() == b.key_spec()) <==> a.value_eq(b),
{
    lemma_key_exact(a);
    lemma_key_exact(b);
    lemma_pow10_28();
    let full = pow10(28) as int;
    lemma_div_mod_order(a.units(), b.units(), full);
    lemma_units_order(a, b);
}

/// The key's parts are exactly the quotient and remainder of the value in
/// units of `10^-28` by `10^28`: the casts lose nothing.
pub proof fn lemma_key_exact(d: Decimal)
    requires
        d.valid(),
    ensures
        d.key_spec().0 as int == d.units() / (pow10(28) as int),
        d.key_spec().1 as int == d.units() % (pow10(28) as int),
{
    lemma_pow10_28();
    let full = pow10(28) as int;
    let e = (MAX_SCALE - d.scale) as nat;
    lemma_pow10_monotone(e, 28);
    lemma_pow10_positive(e);
    let pe = pow10(e) as int;
    let m = d.mantissa as int;
    let bound = MANTISSA_BOUND as int;
    assert(-bound * full < d.units() < bound * full) by (nonlinear_arith)
        requires
            d.units() == m * pe,
            -bound < m < bound,
            0 < pe <= full,
            bound > 0,
    ;
    let q = d.units() / full;
    vstd::arithmetic::div_mod::lemma_fundamental_div_mod(d.units(), full);
    assert(-bound <= q < bound) by (nonlinear_arith)
        requires
            d.units() == full * q + d.units() % full,
            0 <= d.units() % full < full,
            -bound * full < d.units() < bound * full,
            full > 0,
    ;
}

proof fn lemma_div_mod_order(x: int, y: int, d: int)
    requires
        d > 0,
    ensures
        (x / d < y / d || (x / d == y / d && x % d < y % d)) <==> x < y,
        (x / d == y / d && x % d == y % d) <==> x == y,
{
    vstd::arithmetic::div_mod::lemma_fundamental_div_mod(x, d);
    vstd::arithmetic::div_mod::lemma_fundamental_div_mod(y, d);
    let qx = x / d;
    let qy = y / d;
    let rx = x % d;
    let ry = y % d;
    assert(qx < qy ==> x < y) by (nonlinear_arith)
        requires
            x == d * qx + rx,
            y == d * qy + ry,
            0 <= rx < d,
            0 <= ry < d,
    ;
    assert(qy < qx ==> y < x) by (nonlinear_arith)
        requires
            x == d * qx + rx,
            y == d * qy + ry,
            0 <= rx < d,
            0 <= ry < d,
    ;
}

proof fn lemma_units_order(a: Decimal, b: Decimal)
    requires
        a.valid(),
        b.valid(),
    ensures
        a.units() < b.units() <==> a.value_lt(b),
        a.units() == b.units() <==> a.value_eq(b),
{
    let ea = (MAX_SCALE - a.scale) as nat;
    let eb = (MAX_SCALE - b.scale) as nat;
    lemma_pow10_add(a.scale as nat, ea);
    lemma_pow10_add(b.scale as nat, eb);
    lemma_pow10_positive(a.scale as nat);
    lemma_pow10_positive(b.scale as nat);
    lemma_pow10_positive(28);
    let pa = pow10(a.scale as nat) as int;
    let pb = pow10(b.scale as nat) as int;
    let full = pow10(28) as int;
    let ua = a.units();
    let ub = b.units();
    let ma = a.mantissa as int;
    let mb = b.mantissa as int;
    assert(ua * pa == ma * full) by (nonlinear_arith)
        requires
            ua == ma * pow10(ea),
            pa * pow10(ea) == full,
    ;
    assert(ub * pb == mb * full) by (nonlinear_arith)
        requires
            ub == mb * pow10(eb),
            pb * pow10(eb) == full,
    ;
    assert(ua < ub <==> ma * pb < mb * pa) by (nonlinear_arith)
        requires
            ua * pa == ma * full,
            ub * pb == mb * full,
            pa > 0,
            pb > 0,
            full > 0,
    ;
    assert(ua == ub <==> ma * pb == mb * pa) by (nonlinear_arith)
        requires
            ua * pa == ma * full,
            ub * pb == mb * full,
            pa > 0,
            pb > 0,
            full > 0,
    ;
}

/// `10^a * 10^b == 10^(a + b)`.
pub proof fn lemma_pow10_add(a: nat, b: nat)
    ensures
        pow10(a) * pow10(b) == pow10(a + b),
    decreases a,
{
    if a > 0 {
        lemma_pow10_add((a - 1) as nat, b);
        let c = pow10((a - 1) as nat);
        let d = pow10(b);
        assert(pow10(a + b) == 10 * pow10((a - 1 + b) as nat));
        assert(pow10(a) * d == 10 * (c * d)) by (nonlinear_arith)
            requires
                pow10(a) == 10 * c,
        ;
        assert(c * d == pow10((a - 1 + b) as nat));
        assert(pow10(a) * pow10(b) == pow10(a + b));
    } else {
        let d = pow10(b);
        assert(pow10(a) == 1);
        assert(pow10(a) * d == d) by (nonlinear_arith)
            requires
                pow10(a) == 1,
        ;
    }
}

/// Powers of ten are positive.
pub proof fn lemma_pow10_positive(n: nat)
    ensures
        pow10(n) > 0,
    decreases n,
{
    if n > 0 {
        lemma_pow10_positive((n - 1) as nat);
    }
}

/// Powers of ten grow with the exponent.
pub proof fn lemma_pow10_monotone(a: nat, b: nat)
    requires
        a <= b,
    ensures
        pow10(a) <= pow10(b),
    decreases b,
{
    if a < b {
        lemma_pow10_monotone(a, (b - 1) as nat);
        lemma_pow10_positive((b - 1) as nat);
    }
}

/// The value of `10^28`.
pub proof fn lemma_pow10_28()
    ensures
        pow10(28) == 10_000_000_000_000_000_000_000_000_000,
{
    reveal_with_fuel(pow10, 29);
}

proof fn lemma_split(a: int, p: int, up: int, q: int, r: int)
    requires
        p > 0,
        up > 0,
        0 <= a,
        q == a / p,
        r == a % p,
    ensures
        a == q * p + r,
        0 <= r < p,
        0 <= r * up < p * up,
        a * up == q * (p * up) + r * up,
{
    vstd::arithmetic::div_mod::lemma_fundamental_div_mod(a, p);
    assert(0 <= r * up < p * up) by (nonlinear_arith)
        requires
            0 <= r < p,
            up > 0,
    ;
    assert(a * up == q * (p * up) + r * up) by (nonlinear_arith)
        requires
            a == p * q + r,
    ;
}

/// `10^n` for `n <= 28`.
fn pow10_u128(n: u32) -> (p: u128)
    requires
        n <= MAX_SCALE,
    ensures
        p == pow10(n as nat),
{
    proof {
        lemma_pow10_28();
    }
    let mut p: u128 = 1;
    let mut i: u32 = 0;
    while i < n
        invariant
            i <= n <= MAX_SCALE,
            p == pow10(i as nat),
            pow10(28) == 10_000_000_000_000_000_000_000_000_000,
        decreases n - i,
    {
        proof {
            lemma_pow10_monotone((i + 1) as nat, 28);
        }
        p = p * 10;
        i = i + 1;
    }
    p
}

/// Calls `rust_decimal::Decimal::from_str` on the text and hands back the
/// mantissa and scale of the result, or the error's text. The contract names
/// the result `decimal_from_str(text)` and claims of a success the bounds that
/// `rust_decimal` documents for every decimal (scale at most 28, mantissa
/// strictly between `-2^96` and `2^96`). What the grammar accepts is not stated.
#[verifier::external_body]
fn parse_decimal_parts(text: &str) -> (r: Result<(i128, u32), String>)
    ensures
        match r {
            Ok(parts) => {
                &&& decimal_from_str(text@) == Ok::<(i128, u32), Seq<char>>(parts)
                &&& parts.1 <= MAX_SCALE
                &&& -MANTISSA_BOUND < parts.0 < MANTISSA_BOUND
            },
            Err(msg) => decimal_from_str(text@) == Err::<(i128, u32), Seq<char>>(msg@),
        },
{
    match rust_decimal::Decimal::from_str(text) {
        Ok(d) => Ok((d.mantissa(), d.scale())),
        Err(e) => Err(e.to_string()),
    }
}

/// Builds the `rust_decimal::Decimal` with these parts
/// (`from_i128_with_scale`, which panics outside the documented bounds, hence
/// the `requires`) and returns its `Display` text, named `decimal_text`.
#[verifier::external_body]
fn format_decimal_parts(mantissa: i128, scale: u32) -> (s: String)
    requires
        scale <= MAX_SCALE,
        -MANTISSA_BOUND < mantissa < MANTISSA_BOUND,
    ensures
        s@ == decimal_text(mantissa, scale),
{
    rust_decimal::Decimal::from_i128_with_scale(mantissa, scale).to_string()
}

} // verus!
