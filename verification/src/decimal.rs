//! Decimal numbers.
//!
//! A [`Decimal`] is a whole number of at most 96 bits, its mantissa, over a
//! power of ten of at most 28 decimals, its scale.  Its view is the number it
//! stands for, counted in units of 10^-28: every decimal is a whole number of
//! these units, so that comparing decimals is comparing integers.
//!
//! The arithmetic is that of the `rust_decimal` crate.  Each operation gives
//! the exact result where 96 bits hold it, and otherwise the nearest number
//! with as many decimals as fit, the even one of two equally near.  It gives
//! `None` where not even the whole part fits, or where the divisor is zero.
//! The crate's division rounds some quotients that lie halfway between two
//! numbers away from zero; [`Decimal::checked_div`] sets these right.

use vstd::prelude::*;
use vstd::std_specs::cmp::PartialEqSpecImpl;

verus! {

/// The largest number of decimals.
pub const MAX_SCALE: u32 = 28;

/// The largest mantissa, 2^96 - 1.
pub const MAX_MANTISSA: i128 = 79228162514264337593543950335;

/// The least mantissa that takes more than 64 bits, 2^64.
pub const WIDE: i128 = 18446744073709551616;

/// Ten to the power `n`.
pub open spec fn pow10(n: nat) -> int
    decreases n,
{
    if n == 0 {
        1
    } else {
        10 * pow10((n - 1) as nat)
    }
}

/// One, in units of 10^-28.
pub open spec fn one() -> int {
    10_000_000_000_000_000_000_000_000_000
}

/// The number `m / 10^s`, in units of 10^-28.
pub open spec fn dec(m: int, s: nat) -> int {
    m * pow10((28 - s) as nat)
}

pub open spec fn magnitude(x: int) -> int {
    if x < 0 {
        -x
    } else {
        x
    }
}

/// The whole number nearest to `n / d`, the even one of two equally near.
pub open spec fn half_even(n: int, d: int) -> int {
    let q = n / d;
    let r = n % d;
    if 2 * r > d || (2 * r == d && q % 2 == 1) {
        q + 1
    } else {
        q
    }
}

/// The most decimals, at most `k`, with which the magnitude `n / d` can be
/// held: rounded to so many decimals, its mantissa fits in 96 bits.
pub open spec fn fit_scale(n: int, d: int, k: nat) -> Option<nat>
    decreases k,
{
    if half_even(n * pow10(k), d) <= MAX_MANTISSA {
        Some(k)
    } else if k == 0 {
        None
    } else {
        fit_scale(n, d, (k - 1) as nat)
    }
}

/// The decimal nearest to `num / den` units (`den` is positive), with as many
/// decimals as fit.  `None` where no decimal is near.
#[verifier::opaque]
pub open spec fn nearest(num: int, den: int) -> Option<int> {
    // `num / den` units are `num / (den * one())` wholes.
    let d = den * one();
    match fit_scale(magnitude(num), d, 28) {
        Some(k) => {
            let m = half_even(magnitude(num) * pow10(k), d) * pow10((28 - k) as nat);
            Some(
                if num < 0 {
                    -m
                } else {
                    m
                },
            )
        },
        None => None,
    }
}

/// What `a + b` gives.
pub open spec fn sum(a: int, b: int) -> Option<int> {
    nearest(a + b, 1)
}

/// What `a - b` gives.
pub open spec fn difference(a: int, b: int) -> Option<int> {
    nearest(a - b, 1)
}

/// What `a * b` gives.
pub open spec fn product(a: int, b: int) -> Option<int> {
    nearest(a * b, one())
}

/// What `a / b` gives.
pub open spec fn quotient(a: int, b: int) -> Option<int> {
    if b == 0 {
        None
    } else if b < 0 {
        nearest(-a * one(), -b)
    } else {
        nearest(a * one(), b)
    }
}

/// Does the exact `a / b` lie halfway between two numbers with as many decimals
/// as fit?
pub open spec fn halfway(a: int, b: int) -> bool {
    let n = magnitude(a) * one();
    let d = magnitude(b) * one();
    fit_scale(n, d, 28) matches Some(k) && 2 * ((n * pow10(k)) % d) == d
}

/// The next number after `a / b` away from zero, with as many decimals as fit.
pub open spec fn away_from_zero(a: int, b: int) -> int {
    let n = magnitude(a) * one();
    let d = magnitude(b) * one();
    let k = fit_scale(n, d, 28)->0;
    let m = ((n * pow10(k)) / d + 1) * pow10((28 - k) as nat);
    if (a < 0) == (b < 0) {
        m
    } else {
        -m
    }
}

/// The share that `part` is of `whole`, zero where `whole` is zero.
pub open spec fn share(part: int, whole: int) -> int {
    if whole == 0 {
        0
    } else {
        quotient(part * one(), whole * one())->0
    }
}

/// A decimal number.
#[derive(Debug, Clone, Copy)]
pub struct Decimal {
    mantissa: i128,
    scale: u32,
}

impl View for Decimal {
    type V = int;

    closed spec fn view(&self) -> int {
        self.mantissa * pow10((28 - self.scale) as nat)
    }
}

/// The number that a checked operation gave, if it gave one.
pub open spec fn val(x: Option<Decimal>) -> Option<int> {
    match x {
        Some(d) => Some(d@),
        None => None,
    }
}

impl Decimal {
    pub closed spec fn spec_mantissa(self) -> int {
        self.mantissa as int
    }

    pub closed spec fn spec_scale(self) -> nat {
        self.scale as nat
    }

    #[verifier::type_invariant]
    closed spec fn wf(self) -> bool {
        &&& -MAX_MANTISSA <= self.mantissa <= MAX_MANTISSA
        &&& self.scale <= MAX_SCALE
    }

    /// The number `mantissa / 10^scale`.
    pub fn new(mantissa: i64, scale: u32) -> (r: Decimal)
        requires
            scale <= MAX_SCALE,
        ensures
            r.spec_mantissa() == mantissa,
            r.spec_scale() == scale,
            r@ == dec(mantissa as int, scale as nat),
    {
        Decimal { mantissa: mantissa as i128, scale }
    }

    /// The number `mantissa / 10^scale`, where both are in range.
    pub fn from_parts(mantissa: i128, scale: u32) -> (r: Option<Decimal>)
        ensures
            r is Some <==> (-MAX_MANTISSA <= mantissa <= MAX_MANTISSA && scale <= MAX_SCALE),
            r matches Some(d) ==> {
                &&& d.spec_mantissa() == mantissa
                &&& d.spec_scale() == scale
                &&& d@ == dec(mantissa as int, scale as nat)
            },
    {
        if -MAX_MANTISSA <= mantissa && mantissa <= MAX_MANTISSA && scale <= MAX_SCALE {
            Some(Decimal { mantissa, scale })
        } else {
            None
        }
    }

    pub fn mantissa(&self) -> (r: i128)
        ensures
            r == self.spec_mantissa(),
            -MAX_MANTISSA <= r <= MAX_MANTISSA,
    {
        proof {
            use_type_invariant(self);
        }
        self.mantissa
    }

    pub fn scale(&self) -> (r: u32)
        ensures
            r == self.spec_scale(),
            r <= MAX_SCALE,
    {
        proof {
            use_type_invariant(self);
        }
        self.scale
    }

    /// A decimal is its mantissa over its power of ten.
    pub proof fn lemma_view(self)
        ensures
            self@ == dec(self.spec_mantissa(), self.spec_scale()),
    {
    }

    pub fn zero() -> (r: Decimal)
        ensures
            r@ == 0,
            r.spec_scale() == 0,
    {
        Decimal { mantissa: 0, scale: 0 }
    }

    pub fn one() -> (r: Decimal)
        ensures
            r@ == one(),
            r.spec_scale() == 0,
    {
        proof {
            lemma_pow10_28();
        }
        Decimal { mantissa: 1, scale: 0 }
    }

    /// The whole number `n`.
    pub fn from_count(n: usize) -> (r: Decimal)
        ensures
            r@ == n * one(),
            r.spec_scale() == 0,
    {
        proof {
            lemma_pow10_28();
        }
        Decimal { mantissa: n as i128, scale: 0 }
    }

    /// The share that `part` is of `whole`, zero where `whole` is zero.
    pub fn ratio(part: usize, whole: usize) -> (r: Decimal)
        ensures
            r@ == share(part as int, whole as int),
            part <= whole ==> 0 <= r@ <= one(),
    {
        if whole == 0 {
            return Decimal::zero();
        }
        proof {
            let e = one();
            let a = part * e;
            let b = whole * e;
            assert(0 <= a * e <= (part * e) * b) by (nonlinear_arith)
                requires
                    a == part * e,
                    b == whole * e,
                    part >= 0,
                    whole >= 1,
                    e > 0,
            ;
            assert(b > 0);
            nearest_is_there(a * e, b, part as int);
            if part <= whole {
                assert(a * e <= (1 * e) * b) by (nonlinear_arith)
                    requires
                        a <= b,
                        e > 0,
                ;
                nearest_keeps_bounds(a * e, b, 1);
            }
        }
        match Decimal::from_count(part).checked_div(Decimal::from_count(whole)) {
            Some(r) => r,
            None => Decimal::zero(),
        }
    }

    pub fn is_zero(&self) -> (r: bool)
        ensures
            r == (self@ == 0),
    {
        proof {
            lemma_pow10_positive((28 - self.scale) as nat);
            let p = pow10((28 - self.scale) as nat);
            assert(self.mantissa != 0 ==> self.mantissa * p != 0) by (nonlinear_arith)
                requires
                    p > 0,
            ;
        }
        self.mantissa == 0
    }

    pub fn less(self, other: Decimal) -> (r: bool)
        ensures
            r == (self@ < other@),
    {
        proof {
            use_type_invariant(&self);
            use_type_invariant(&other);
        }
        outside_less(self, other)
    }

    pub fn at_most(self, other: Decimal) -> (r: bool)
        ensures
            r == (self@ <= other@),
    {
        !other.less(self)
    }

    pub fn same(self, other: Decimal) -> (r: bool)
        ensures
            r == (self@ == other@),
    {
        self.at_most(other) && other.at_most(self)
    }

    /// The distance from zero.
    pub fn abs(self) -> (r: Decimal)
        ensures
            r@ == magnitude(self@),
            r.spec_scale() == self.spec_scale(),
    {
        proof {
            use_type_invariant(&self);
            lemma_pow10_positive((28 - self.scale) as nat);
            let p = pow10((28 - self.scale) as nat);
            assert(self.mantissa < 0 ==> self.mantissa * p < 0 && (-self.mantissa) * p == -(
            self.mantissa * p)) by (nonlinear_arith)
                requires
                    p > 0,
            ;
            assert(self.mantissa >= 0 ==> self.mantissa * p >= 0) by (nonlinear_arith)
                requires
                    p > 0,
            ;
        }
        if self.mantissa < 0 {
            Decimal { mantissa: -self.mantissa, scale: self.scale }
        } else {
            self
        }
    }

    /// The number with the other sign.
    pub fn negated(self) -> (r: Decimal)
        ensures
            r@ == -self@,
            r.spec_scale() == self.spec_scale(),
    {
        proof {
            use_type_invariant(&self);
            let p = pow10((28 - self.scale) as nat);
            assert((-self.mantissa) * p == -(self.mantissa * p)) by (nonlinear_arith);
        }
        Decimal { mantissa: -self.mantissa, scale: self.scale }
    }

    pub fn smaller(self, other: Decimal) -> (r: Decimal)
        ensures
            r == self || r == other,
            r@ == min_of(self@, other@),
    {
        if other.less(self) {
            other
        } else {
            self
        }
    }

    pub fn larger(self, other: Decimal) -> (r: Decimal)
        ensures
            r == self || r == other,
            r@ == max_of(self@, other@),
    {
        if self.less(other) {
            other
        } else {
            self
        }
    }

    pub fn checked_add(self, other: Decimal) -> (r: Option<Decimal>)
        ensures
            val(r) == sum(self@, other@),
    {
        proof {
            use_type_invariant(&self);
            use_type_invariant(&other);
        }
        outside_sum(self, other)
    }

    pub fn checked_sub(self, other: Decimal) -> (r: Option<Decimal>)
        ensures
            val(r) == difference(self@, other@),
    {
        proof {
            use_type_invariant(&self);
            use_type_invariant(&other);
        }
        outside_difference(self, other)
    }

    pub fn checked_mul(self, other: Decimal) -> (r: Option<Decimal>)
        ensures
            val(r) == product(self@, other@),
    {
        proof {
            use_type_invariant(&self);
            use_type_invariant(&other);
        }
        outside_product(self, other)
    }

    /// `None` also where `other` is zero.
    pub fn checked_div(self, other: Decimal) -> (r: Option<Decimal>)
        ensures
            val(r) == quotient(self@, other@),
    {
        proof {
            use_type_invariant(&self);
            use_type_invariant(&other);
        }
        match outside_quotient(self, other) {
            Some(z) => Some(half_to_even(self, other, z)),
            None => None,
        }
    }

    /// The number rounded half to even to at most `dp` decimals.
    pub fn round_dp(self, dp: u32) -> (r: Decimal)
        ensures
            r@ == rounded(self@, dp as nat),
            r.spec_scale() == min_of(self.spec_scale() as int, dp as int),
    {
        proof {
            use_type_invariant(&self);
        }
        outside_round_dp(self, dp)
    }

    /// Reads a number in decimal or scientific notation.  The error is the
    /// reader's message.
    pub fn parse(text: &str) -> (r: Result<Decimal, String>)
        ensures
            parsed(r) == decimal_of_text(text@),
    {
        outside_parse(text)
    }
}

impl PartialEq for Decimal {
    fn eq(&self, other: &Decimal) -> (r: bool) {
        self.same(*other)
    }
}

impl PartialEqSpecImpl for Decimal {
    open spec fn obeys_eq_spec() -> bool {
        true
    }

    open spec fn eq_spec(&self, other: &Decimal) -> bool {
        self@ == other@
    }
}

pub open spec fn min_of(a: int, b: int) -> int {
    if b < a {
        b
    } else {
        a
    }
}

pub open spec fn max_of(a: int, b: int) -> int {
    if a < b {
        b
    } else {
        a
    }
}

/// `x` rounded half to even to `dp` decimals.
pub open spec fn rounded(x: int, dp: nat) -> int {
    if dp >= 28 {
        x
    } else {
        let m = half_even(magnitude(x), pow10((28 - dp) as nat)) * pow10((28 - dp) as nat);
        if x < 0 {
            -m
        } else {
            m
        }
    }
}

pub open spec fn parsed(r: Result<Decimal, String>) -> Result<int, Seq<char>> {
    match r {
        Ok(d) => Ok(d@),
        Err(e) => Err(e@),
    }
}

// ── Chains of checked steps ───────────────────────────────────────

/// `a + b`, where both are there.
pub open spec fn o_sum(a: Option<int>, b: Option<int>) -> Option<int> {
    match (a, b) {
        (Some(x), Some(y)) => sum(x, y),
        _ => None,
    }
}

/// `a - b`, where both are there.
pub open spec fn o_difference(a: Option<int>, b: Option<int>) -> Option<int> {
    match (a, b) {
        (Some(x), Some(y)) => difference(x, y),
        _ => None,
    }
}

/// `a * b`, where both are there.
pub open spec fn o_product(a: Option<int>, b: Option<int>) -> Option<int> {
    match (a, b) {
        (Some(x), Some(y)) => product(x, y),
        _ => None,
    }
}

/// `a / b`, where both are there.
pub open spec fn o_quotient(a: Option<int>, b: Option<int>) -> Option<int> {
    match (a, b) {
        (Some(x), Some(y)) => quotient(x, y),
        _ => None,
    }
}

pub open spec fn o_magnitude(a: Option<int>) -> Option<int> {
    match a {
        Some(x) => Some(magnitude(x)),
        None => None,
    }
}

pub open spec fn o_max(a: Option<int>, b: Option<int>) -> Option<int> {
    match (a, b) {
        (Some(x), Some(y)) => Some(max_of(x, y)),
        _ => None,
    }
}

pub open spec fn o_min(a: Option<int>, b: Option<int>) -> Option<int> {
    match (a, b) {
        (Some(x), Some(y)) => Some(min_of(x, y)),
        _ => None,
    }
}

pub fn try_sum(a: Option<Decimal>, b: Option<Decimal>) -> (r: Option<Decimal>)
    ensures
        val(r) == o_sum(val(a), val(b)),
{
    match (a, b) {
        (Some(x), Some(y)) => x.checked_add(y),
        _ => None,
    }
}

pub fn try_difference(a: Option<Decimal>, b: Option<Decimal>) -> (r: Option<Decimal>)
    ensures
        val(r) == o_difference(val(a), val(b)),
{
    match (a, b) {
        (Some(x), Some(y)) => x.checked_sub(y),
        _ => None,
    }
}

pub fn try_product(a: Option<Decimal>, b: Option<Decimal>) -> (r: Option<Decimal>)
    ensures
        val(r) == o_product(val(a), val(b)),
{
    match (a, b) {
        (Some(x), Some(y)) => x.checked_mul(y),
        _ => None,
    }
}

pub fn try_quotient(a: Option<Decimal>, b: Option<Decimal>) -> (r: Option<Decimal>)
    ensures
        val(r) == o_quotient(val(a), val(b)),
{
    match (a, b) {
        (Some(x), Some(y)) => x.checked_div(y),
        _ => None,
    }
}

pub fn try_abs(a: Option<Decimal>) -> (r: Option<Decimal>)
    ensures
        val(r) == o_magnitude(val(a)),
{
    match a {
        Some(x) => Some(x.abs()),
        None => None,
    }
}

pub fn try_larger(a: Option<Decimal>, b: Option<Decimal>) -> (r: Option<Decimal>)
    ensures
        val(r) == o_max(val(a), val(b)),
{
    match (a, b) {
        (Some(x), Some(y)) => Some(x.larger(y)),
        _ => None,
    }
}

pub fn try_smaller(a: Option<Decimal>, b: Option<Decimal>) -> (r: Option<Decimal>)
    ensures
        val(r) == o_min(val(a), val(b)),
{
    match (a, b) {
        (Some(x), Some(y)) => Some(x.smaller(y)),
        _ => None,
    }
}

// ── Halfway quotients ─────────────────────────────────────────────

/// 2^128.
spec fn two_to_128() -> int {
    u128::MAX + 1
}

/// Is `2 * n * 10^e` the same as `odd * d`, up to a multiple of 2^128?
fn same_low_bits(n: u128, e: u32, odd: u128, d: u128) -> (r: bool)
    requires
        2 * n <= u128::MAX,
    ensures
        r == ((2 * n * pow10(e as nat)) % two_to_128() == (odd * d) % two_to_128()),
{
    let mut p: u128 = 2 * n;
    let mut i: u32 = 0;
    proof {
        vstd::arithmetic::div_mod::lemma_small_mod((2 * n) as nat, two_to_128() as nat);
    }
    while i < e
        invariant
            i <= e,
            p == (2 * n * pow10(i as nat)) % two_to_128(),
        decreases e - i,
    {
        let ghost x = 2 * n * pow10(i as nat);
        p = p.wrapping_mul(10);
        i = i + 1;
        proof {
            vstd::arithmetic::div_mod::lemma_mul_mod_noop_left(x, 10, two_to_128());
            let y = pow10((i - 1) as nat);
            assert(x * 10 == 2 * n * (10 * y)) by (nonlinear_arith)
                requires
                    x == 2 * n * y,
            ;
        }
    }
    p == odd.wrapping_mul(d)
}

fn size(x: i128) -> (r: u128)
    requires
        -MAX_MANTISSA <= x <= MAX_MANTISSA,
    ensures
        r == magnitude(x as int),
{
    if x < 0 {
        (-x) as u128
    } else {
        x as u128
    }
}

/// The quotient of `a` and `b`, where the crate gave `z`.  Only a number whose
/// mantissa is odd can come of rounding a halfway quotient the wrong way.
/// Whether it did is seen in the low bits, since the exact quotient is near.
fn half_to_even(a: Decimal, b: Decimal, z: Decimal) -> (r: Decimal)
    requires
        quotient(a@, b@) is Some,
        Some(z@) == quotient(a@, b@) || (magnitude(b.spec_mantissa()) >= WIDE && halfway(a@, b@)
            && z@ == away_from_zero(a@, b@)),
    ensures
        Some(r@) == quotient(a@, b@),
{
    proof {
        use_type_invariant(&a);
        use_type_invariant(&b);
        use_type_invariant(&z);
    }
    let n = size(a.mantissa);
    let d = size(b.mantissa);
    let m = size(z.mantissa);
    let up = z.scale + b.scale;
    proof {
        if Some(z@) != quotient(a@, b@) {
            lemma_rounded_away(a, b, z);
        }
    }
    if d < WIDE as u128 || m % 2 == 0 || up < a.scale {
        return z;
    }
    let odd = 2 * m - 1;
    if !same_low_bits(n, up - a.scale, odd, d) {
        return z;
    }
    proof {
        if Some(z@) == quotient(a@, b@) {
            lemma_rounded_well(a, b, z);
        }
    }
    Decimal {
        mantissa: if z.mantissa < 0 {
            z.mantissa + 1
        } else {
            z.mantissa - 1
        },
        scale: z.scale,
    }
}

proof fn lemma_magnitude_times(x: int, p: int)
    requires
        p > 0,
    ensures
        magnitude(x * p) == magnitude(x) * p,
        x > 0 <==> x * p > 0,
        x < 0 <==> x * p < 0,
{
    assert((-x) * p == -(x * p)) by (nonlinear_arith);
    assert(x > 0 ==> x * p > 0) by (nonlinear_arith)
        requires
            p > 0,
    ;
    assert(x < 0 ==> x * p < 0) by (nonlinear_arith)
        requires
            p > 0,
    ;
}

/// The exact quotient of two decimals, counted in units of 10^-s, is a fraction
/// over the mantissa of the divisor.
proof fn lemma_fraction(a: Decimal, b: Decimal, s: nat) -> (u: int)
    requires
        a.wf(),
        b.wf(),
        s <= 28,
        s + b.scale >= a.scale,
    ensures
        u > 0,
        (magnitude(a@) * one()) * pow10(s) == (magnitude(a.mantissa as int) * pow10(
            (s + b.scale - a.scale) as nat,
        )) * u,
        magnitude(b@) * one() == magnitude(b.mantissa as int) * u,
{
    let ma = magnitude(a.mantissa as int);
    let mb = magnitude(b.mantissa as int);
    let pa = pow10((28 - a.scale) as nat);
    let pb = pow10((28 - b.scale) as nat);
    let pe = pow10((s + b.scale - a.scale) as nat);
    let ps = pow10(s);
    lemma_pow10_positive((28 - a.scale) as nat);
    lemma_pow10_positive((28 - b.scale) as nat);
    lemma_pow10_adds((28 - a.scale) as nat, s);
    lemma_pow10_adds((s + b.scale - a.scale) as nat, (28 - b.scale) as nat);
    lemma_magnitude_times(a.mantissa as int, pa);
    lemma_magnitude_times(b.mantissa as int, pb);
    let e = one();
    let u = pb * e;
    assert(u > 0) by (nonlinear_arith)
        requires
            u == pb * e,
            pb > 0,
            e > 0,
    ;
    assert(((ma * pa) * e) * ps == (ma * pe) * u) by (nonlinear_arith)
        requires
            pa * ps == pe * pb,
            u == pb * e,
    ;
    assert((mb * pb) * e == mb * u) by (nonlinear_arith)
        requires
            u == pb * e,
    ;
    u
}

/// A quotient, by its size at the fitting scale and its sign.
proof fn lemma_quotient_parts(a: int, b: int) -> (k: nat)
    requires
        quotient(a, b) is Some,
    ensures
        b != 0,
        fit_scale(magnitude(a) * one(), magnitude(b) * one(), 28) == Some(k),
        k <= 28,
        ({
            let h = half_even((magnitude(a) * one()) * pow10(k), magnitude(b) * one()) * pow10(
                (28 - k) as nat,
            );
            h >= 0 && quotient(a, b)->0 == if (a < 0) == (b < 0) {
                h
            } else {
                -h
            }
        }),
        magnitude(b) * one() > 0,
        (magnitude(a) * one()) * pow10(k) >= 0,
{
    reveal(nearest);
    let e = one();
    let n = magnitude(a) * e;
    let d = magnitude(b) * e;
    assert(-a * e == -(a * e)) by (nonlinear_arith);
    lemma_magnitude_times(a, e);
    lemma_magnitude_times(b, e);
    lemma_fit_scale(n, d, 28);
    let k = fit_scale(n, d, 28)->0;
    let p = pow10(k);
    let q = pow10((28 - k) as nat);
    lemma_pow10_positive(k);
    lemma_pow10_positive((28 - k) as nat);
    assert(n * p >= 0) by (nonlinear_arith)
        requires
            n >= 0,
            p > 0,
    ;
    lemma_half_even_bounds(n * p, d, 0);
    let h = half_even(n * p, d);
    assert(h * q >= 0) by (nonlinear_arith)
        requires
            h >= 0,
            q > 0,
    ;
    if a == 0 {
        assert(n * p == 0) by (nonlinear_arith)
            requires
                n == 0,
        ;
        lemma_half_even_bounds(0, d, 0);
        assert(h * q == 0) by (nonlinear_arith)
            requires
                h == 0,
        ;
    }
    k
}

/// A power of ten is even, but for the first.
proof fn lemma_even_power(n: nat)
    requires
        n > 0,
    ensures
        pow10(n) == 2 * (5 * pow10((n - 1) as nat)),
        pow10(n) >= 10,
{
    lemma_pow10_positive((n - 1) as nat);
}

/// Two ways to write a number, of which one has an odd mantissa and more
/// decimals or as many: the other mantissa is it with zeros.
proof fn lemma_same_number(m: int, s: nat, h: int, k: nat)
    requires
        m * pow10((28 - s) as nat) == h * pow10((28 - k) as nat),
        s <= k <= 28,
    ensures
        h == m * pow10((k - s) as nat),
{
    let p = pow10((28 - k) as nat);
    let t = pow10((k - s) as nat);
    lemma_pow10_positive((28 - k) as nat);
    lemma_pow10_adds((k - s) as nat, (28 - k) as nat);
    assert(h == m * t) by (nonlinear_arith)
        requires
            m * (t * p) == h * p,
            p > 0,
    ;
}

proof fn lemma_times_even(x: int, y: int)
    ensures
        (x * (2 * y)) % 2 == 0,
{
    assert(x * (2 * y) == 2 * (x * y)) by (nonlinear_arith);
}

/// What is known of a quotient that the crate rounded the wrong way.
proof fn lemma_rounded_away(a: Decimal, b: Decimal, z: Decimal)
    requires
        a.wf(),
        b.wf(),
        z.wf(),
        quotient(a@, b@) is Some,
        Some(z@) != quotient(a@, b@),
        halfway(a@, b@),
        z@ == away_from_zero(a@, b@),
    ensures
        magnitude(z.mantissa as int) % 2 == 1,
        z.scale + b.scale >= a.scale,
        2 * magnitude(a.mantissa as int) * pow10((z.scale + b.scale - a.scale) as nat) == (2
            * magnitude(z.mantissa as int) - 1) * magnitude(b.mantissa as int),
        quotient(a@, b@) == Some(
            (if z.mantissa < 0 {
                z.mantissa + 1
            } else {
                z.mantissa - 1
            }) * pow10((28 - z.scale) as nat),
        ),
{
    let k = lemma_quotient_parts(a@, b@);
    let s = z.scale as nat;
    let n = magnitude(a@) * one();
    let d = magnitude(b@) * one();
    let x = n * pow10(k);
    let q = x / d;
    let m = magnitude(z.mantissa as int);
    let p = pow10((28 - k) as nat);
    vstd::arithmetic::div_mod::lemma_fundamental_div_mod(x, d);
    vstd::arithmetic::div_mod::lemma_div_pos_is_pos(x, d);
    lemma_pow10_positive((28 - k) as nat);
    lemma_pow10_positive((28 - s) as nat);
    lemma_magnitude_times(z.mantissa as int, pow10((28 - s) as nat));
    lemma_magnitude_times(q + 1, p);
    // The even neighbour is the lower one.
    assert(half_even(x, d) == q && q % 2 == 0);
    assert(2 * x == (2 * q + 1) * d) by (nonlinear_arith)
        requires
            x == d * q + x % d,
            2 * (x % d) == d,
    ;
    assert(m * pow10((28 - s) as nat) == (q + 1) * p);
    // The crate's number has the fitting scale.
    if s < k {
        lemma_same_number(m, s, q + 1, k);
        lemma_even_power((k - s) as nat);
        lemma_times_even(m, 5 * pow10((k - s - 1) as nat));
    }
    if s > k {
        lemma_same_number(q + 1, k, m, s);
        lemma_even_power((s - k) as nat);
        assert(m >= 10 * (q + 1)) by (nonlinear_arith)
            requires
                m == (q + 1) * pow10((s - k) as nat),
                pow10((s - k) as nat) >= 10,
                q >= 0,
        ;
        lemma_fit_tight(n, d, 28);
        let y = n * pow10(k + 1);
        assert(y == 10 * x) by (nonlinear_arith)
            requires
                y == n * (10 * pow10(k)),
                x == n * pow10(k),
        ;
        assert(y <= (10 * q + 5) * d && y >= 0) by (nonlinear_arith)
            requires
                y == 10 * x,
                2 * x == (2 * q + 1) * d,
                x >= 0,
        ;
        lemma_half_even_bounds(y, d, 10 * q + 5);
    }
    assert(s == k && m == q + 1) by {
        assert(m == q + 1) by (nonlinear_arith)
            requires
                m * p == (q + 1) * p,
                p > 0,
        ;
    }
    lemma_scales_fit(a, b, k);
    let u = lemma_fraction(a, b, k);
    let pe = magnitude(a.mantissa as int) * pow10((k + b.scale - a.scale) as nat);
    let mb = magnitude(b.mantissa as int);
    assert(2 * pe == (2 * m - 1) * mb) by (nonlinear_arith)
        requires
            2 * (pe * u) == (2 * q + 1) * (mb * u),
            m == q + 1,
            u > 0,
    ;
    assert(2 * magnitude(a.mantissa as int) * pow10((k + b.scale - a.scale) as nat) == 2 * pe)
        by (nonlinear_arith)
        requires
            pe == magnitude(a.mantissa as int) * pow10((k + b.scale - a.scale) as nat),
    ;
    assert((-q) * p == -(q * p)) by (nonlinear_arith);
}

/// A quotient has at least as many decimals as the dividend has more than the
/// divisor.
proof fn lemma_scales_fit(a: Decimal, b: Decimal, k: nat)
    requires
        a.wf(),
        b.wf(),
        b@ != 0,
        fit_scale(magnitude(a@) * one(), magnitude(b@) * one(), 28) == Some(k),
        k <= 28,
    ensures
        k + b.scale >= a.scale,
{
    if k + b.scale < a.scale {
        let e = one();
        let n = magnitude(a@) * e;
        let d = magnitude(b@) * e;
        lemma_fit_tight(n, d, 28);
        let ma = magnitude(a.mantissa as int);
        let mb = magnitude(b.mantissa as int);
        let pa = pow10((28 - a.scale) as nat);
        let pb = pow10((28 - b.scale) as nat);
        let pk = pow10(k + 1);
        lemma_pow10_positive((28 - a.scale) as nat);
        lemma_pow10_positive((28 - b.scale) as nat);
        lemma_pow10_positive(k + 1);
        lemma_magnitude_times(a.mantissa as int, pa);
        lemma_magnitude_times(b.mantissa as int, pb);
        lemma_pow10_adds((28 - a.scale) as nat, k + 1);
        lemma_pow10_positive((28 - a.scale + k + 1) as nat);
        lemma_pow10_monotone((28 - a.scale + k + 1) as nat, (28 - b.scale) as nat);
        assert(mb != 0) by {
            assert(mb == 0 ==> mb * pb == 0) by (nonlinear_arith);
        }
        let y = ((ma * pa) * e) * pk;
        assert(0 <= y <= MAX_MANTISSA * ((mb * pb) * e) && (mb * pb) * e > 0) by (nonlinear_arith)
            requires
                y == ((ma * pa) * e) * pk,
                0 <= ma <= MAX_MANTISSA,
                mb >= 1,
                0 < pa * pk <= pb,
                e > 0,
                pa > 0,
                pk > 0,
        {
            assert(y == ma * (pa * pk) * e);
            assert(ma * (pa * pk) <= MAX_MANTISSA * pb);
            assert(MAX_MANTISSA * pb <= MAX_MANTISSA * (mb * pb));
        }
        lemma_half_even_bounds(y, d, MAX_MANTISSA as int);
    }
}

/// What is known of a quotient with an odd mantissa that was rounded well: it is
/// near, and not the upper one of two that are equally near.
proof fn lemma_rounded_well(a: Decimal, b: Decimal, z: Decimal)
    requires
        a.wf(),
        b.wf(),
        z.wf(),
        Some(z@) == quotient(a@, b@),
        magnitude(z.mantissa as int) % 2 == 1,
        z.scale + b.scale >= a.scale,
    ensures
        (2 * magnitude(a.mantissa as int) * pow10((z.scale + b.scale - a.scale) as nat))
            % two_to_128() != ((2 * magnitude(z.mantissa as int) - 1) * magnitude(
            b.mantissa as int,
        )) % two_to_128(),
{
    let k = lemma_quotient_parts(a@, b@);
    let s = z.scale as nat;
    let n = magnitude(a@) * one();
    let d = magnitude(b@) * one();
    let x = n * pow10(k);
    let h = half_even(x, d);
    let m = magnitude(z.mantissa as int);
    lemma_pow10_positive((28 - s) as nat);
    lemma_magnitude_times(z.mantissa as int, pow10((28 - s) as nat));
    assert(m * pow10((28 - s) as nat) == h * pow10((28 - k) as nat));
    if s > k {
        lemma_same_number(h, k, m, s);
        lemma_even_power((s - k) as nat);
        lemma_times_even(h, 5 * pow10((s - k - 1) as nat));
    }
    lemma_same_number(m, s, h, k);
    let t = pow10((k - s) as nat);
    lemma_pow10_positive((k - s) as nat);
    lemma_pow10_adds(s, (k - s) as nat);
    let v = n * pow10(s);
    assert(x == v * t) by (nonlinear_arith)
        requires
            x == n * (pow10(s) * t),
            v == n * pow10(s),
    ;
    lemma_half_even_near(x, d);
    assert(-d <= 2 * v - 2 * (m * d) <= d) by (nonlinear_arith)
        requires
            -d <= 2 * x - 2 * (h * d) <= d,
            x == v * t,
            h == m * t,
            t >= 1,
            d > 0,
    ;
    let u = lemma_fraction(a, b, s);
    let pe = magnitude(a.mantissa as int) * pow10((s + b.scale - a.scale) as nat);
    let mb = magnitude(b.mantissa as int);
    assert(2 * magnitude(a.mantissa as int) * pow10((s + b.scale - a.scale) as nat) == 2 * pe)
        by (nonlinear_arith)
        requires
            pe == magnitude(a.mantissa as int) * pow10((s + b.scale - a.scale) as nat),
    ;
    assert(-mb <= 2 * pe - 2 * (m * mb) <= mb) by (nonlinear_arith)
        requires
            v == pe * u,
            d == mb * u,
            u > 0,
            -d <= 2 * v - 2 * (m * d) <= d,
    ;
    let low = (2 * m - 1) * mb;
    assert(low == 2 * (m * mb) - mb) by (nonlinear_arith)
        requires
            low == (2 * m - 1) * mb,
    ;
    if (2 * pe) % two_to_128() == low % two_to_128() {
        lemma_close_and_congruent(2 * pe, low, two_to_128());
        // So the quotient is halfway, where the odd number is not chosen.
        assert(2 * v == (2 * m - 1) * d) by (nonlinear_arith)
            requires
                v == pe * u,
                d == mb * u,
                2 * pe == (2 * m - 1) * mb,
        ;
        assert(t == 1) by (nonlinear_arith)
            requires
                -d <= 2 * x - 2 * (h * d) <= d,
                x == v * t,
                h == m * t,
                2 * v == (2 * m - 1) * d,
                t >= 1,
                d > 0,
        ;
        assert(v * 1 == v && m * 1 == m);
        lemma_halfway_is_even(x, d, m);
    }
}

/// Numbers that differ by less than a modulus and leave the same rest are equal.
proof fn lemma_close_and_congruent(x: int, y: int, w: int)
    requires
        w > 0,
        0 <= x - y < w,
        x % w == y % w,
    ensures
        x == y,
{
    vstd::arithmetic::div_mod::lemma_fundamental_div_mod(x, w);
    vstd::arithmetic::div_mod::lemma_fundamental_div_mod(y, w);
    let i = x / w;
    let j = y / w;
    assert(i == j) by (nonlinear_arith)
        requires
            x == w * i + x % w,
            y == w * j + y % w,
            x % w == y % w,
            0 <= x - y < w,
            w > 0,
    ;
}

proof fn lemma_half_even_near(x: int, d: int)
    requires
        d > 0,
    ensures
        -d <= 2 * x - 2 * (half_even(x, d) * d) <= d,
{
    vstd::arithmetic::div_mod::lemma_fundamental_div_mod(x, d);
    let q = x / d;
    assert(q * d == d * q && (q + 1) * d == d * q + d) by (nonlinear_arith);
}

proof fn lemma_halfway_is_even(x: int, d: int, m: int)
    requires
        d > 0,
        2 * x == (2 * m - 1) * d,
    ensures
        half_even(x, d) % 2 == 0,
{
    vstd::arithmetic::div_mod::lemma_fundamental_div_mod(x, d);
    let q = x / d;
    let r = x % d;
    assert(q == m - 1 && 2 * r == d) by (nonlinear_arith)
        requires
            x == d * q + r,
            0 <= r < d,
            2 * x == (2 * m - 1) * d,
            d > 0,
    ;
}

// ── The outside crate ─────────────────────────────────────────────

/// What `rust_decimal` reads in a text: the number, or the message of its
/// error.
pub uninterp spec fn decimal_of_text(text: Seq<char>) -> Result<int, Seq<char>>;

/// `rust_decimal::Decimal`'s `<`: both sides are brought to one scale, so
/// that the numbers themselves are compared.
#[verifier::external_body]
fn outside_less(a: Decimal, b: Decimal) -> (r: bool)
    requires
        a.wf(),
        b.wf(),
    ensures
        r == (a@ < b@),
{
    let x = rust_decimal::Decimal::from_i128_with_scale(a.mantissa, a.scale);
    let y = rust_decimal::Decimal::from_i128_with_scale(b.mantissa, b.scale);
    x < y
}

/// `rust_decimal::Decimal::checked_add`: the sum, rounded half to even to as
/// many decimals as fit in 96 bits; `None` where its whole part does not fit.
#[verifier::external_body]
fn outside_sum(a: Decimal, b: Decimal) -> (r: Option<Decimal>)
    requires
        a.wf(),
        b.wf(),
    ensures
        val(r) == sum(a@, b@),
{
    let x = rust_decimal::Decimal::from_i128_with_scale(a.mantissa, a.scale);
    let y = rust_decimal::Decimal::from_i128_with_scale(b.mantissa, b.scale);
    x.checked_add(y).map(|z| Decimal { mantissa: z.mantissa(), scale: z.scale() })
}

/// `rust_decimal::Decimal::checked_sub`: the difference, rounded as a sum is.
#[verifier::external_body]
fn outside_difference(a: Decimal, b: Decimal) -> (r: Option<Decimal>)
    requires
        a.wf(),
        b.wf(),
    ensures
        val(r) == difference(a@, b@),
{
    let x = rust_decimal::Decimal::from_i128_with_scale(a.mantissa, a.scale);
    let y = rust_decimal::Decimal::from_i128_with_scale(b.mantissa, b.scale);
    x.checked_sub(y).map(|z| Decimal { mantissa: z.mantissa(), scale: z.scale() })
}

/// `rust_decimal::Decimal::checked_mul`: the product, rounded half to even to
/// as many decimals as fit, 28 at most; `None` where its whole part does not
/// fit.
#[verifier::external_body]
fn outside_product(a: Decimal, b: Decimal) -> (r: Option<Decimal>)
    requires
        a.wf(),
        b.wf(),
    ensures
        val(r) == product(a@, b@),
{
    let x = rust_decimal::Decimal::from_i128_with_scale(a.mantissa, a.scale);
    let y = rust_decimal::Decimal::from_i128_with_scale(b.mantissa, b.scale);
    x.checked_mul(y).map(|z| Decimal { mantissa: z.mantissa(), scale: z.scale() })
}

/// `rust_decimal::Decimal::checked_div`: the quotient, rounded to as many
/// decimals as fit, 28 at most; `None` where the divisor is zero or the whole
/// part does not fit.  It is rounded half to even, but for one case: where the
/// mantissa of the divisor takes more than 64 bits, a quotient that lies
/// halfway between two numbers may be rounded away from zero, because a word
/// that is left over from an earlier step counts as a remainder.  In which of
/// these cases it is so is left unsaid.
#[verifier::external_body]
fn outside_quotient(a: Decimal, b: Decimal) -> (r: Option<Decimal>)
    requires
        a.wf(),
        b.wf(),
    ensures
        r is None <==> quotient(a@, b@) is None,
        r matches Some(z) ==> (Some(z@) == quotient(a@, b@) || (magnitude(
            b.spec_mantissa(),
        ) >= WIDE && halfway(a@, b@) && z@ == away_from_zero(a@, b@))),
{
    let x = rust_decimal::Decimal::from_i128_with_scale(a.mantissa, a.scale);
    let y = rust_decimal::Decimal::from_i128_with_scale(b.mantissa, b.scale);
    x.checked_div(y).map(|z| Decimal { mantissa: z.mantissa(), scale: z.scale() })
}

/// `rust_decimal::Decimal::round_dp`: a number with more than `dp` decimals is
/// rounded half to even to `dp` of them; any other is left as it is.
#[verifier::external_body]
fn outside_round_dp(a: Decimal, dp: u32) -> (r: Decimal)
    requires
        a.wf(),
    ensures
        r@ == rounded(a@, dp as nat),
        r.spec_scale() == min_of(a.spec_scale() as int, dp as int),
{
    let x = rust_decimal::Decimal::from_i128_with_scale(a.mantissa, a.scale);
    let z = x.round_dp(dp);
    Decimal { mantissa: z.mantissa(), scale: z.scale() }
}

/// `rust_decimal`'s `FromStr`: the number that the text holds, or the text of
/// the error.  Which texts hold a number is left to the crate.
#[verifier::external_body]
fn outside_parse(text: &str) -> (r: Result<Decimal, String>)
    ensures
        parsed(r) == decimal_of_text(text@),
{
    match text.parse::<rust_decimal::Decimal>() {
        Ok(z) => Ok(Decimal { mantissa: z.mantissa(), scale: z.scale() }),
        Err(e) => Err(e.to_string()),
    }
}

// ── Powers of ten ─────────────────────────────────────────────────

pub proof fn lemma_pow10_positive(n: nat)
    ensures
        pow10(n) > 0,
    decreases n,
{
    if n > 0 {
        lemma_pow10_positive((n - 1) as nat);
    }
}

pub proof fn lemma_pow10_monotone(m: nat, n: nat)
    requires
        m <= n,
    ensures
        pow10(m) <= pow10(n),
    decreases n,
{
    lemma_pow10_positive(m);
    if m < n {
        lemma_pow10_monotone(m, (n - 1) as nat);
    }
}

pub proof fn lemma_pow10_adds(m: nat, n: nat)
    ensures
        pow10(m + n) == pow10(m) * pow10(n),
    decreases m,
{
    if m > 0 {
        lemma_pow10_adds((m - 1) as nat, n);
        let p = pow10((m - 1) as nat);
        let q = pow10(n);
        assert(10 * (p * q) == (10 * p) * q) by (nonlinear_arith);
    }
}

pub proof fn lemma_pow10_28()
    ensures
        pow10(28) == one(),
{
    reveal_with_fuel(pow10, 29);
}

/// Trailing zeros change nothing.
pub proof fn lemma_dec_zeros(m: int, s: nat, z: nat)
    requires
        s + z <= 28,
    ensures
        dec(m * pow10(z), s + z) == dec(m, s),
{
    lemma_pow10_adds(z, (28 - s - z) as nat);
    assert((28 - s) as nat == z + (28 - s - z) as nat);
    let p = pow10(z);
    let q = pow10((28 - s - z) as nat);
    assert((m * p) * q == m * (p * q)) by (nonlinear_arith);
}

/// At one scale, decimals are ordered as their mantissas are.
pub proof fn lemma_dec_monotone(m: int, n: int, s: nat)
    requires
        m <= n,
    ensures
        dec(m, s) <= dec(n, s),
{
    lemma_pow10_positive((28 - s) as nat);
    let p = pow10((28 - s) as nat);
    assert(m * p <= n * p) by (nonlinear_arith)
        requires
            m <= n,
            p > 0,
    ;
}

// ── Laws of the arithmetic ────────────────────────────────────────

/// Is `x` a number that a decimal can stand for?
pub open spec fn representable(x: int) -> bool {
    exists|m: int, s: nat|
        -MAX_MANTISSA <= m <= MAX_MANTISSA && s <= 28 && x == #[trigger] dec(m, s)
}

/// Rounding does not cross a whole number.
proof fn lemma_half_even_bounds(n: int, d: int, w: int)
    requires
        n >= 0,
        d > 0,
    ensures
        n <= w * d ==> half_even(n, d) <= w,
        n >= w * d ==> half_even(n, d) >= w,
        half_even(n, d) >= 0,
{
    let q = n / d;
    let r = n % d;
    vstd::arithmetic::div_mod::lemma_fundamental_div_mod(n, d);
    vstd::arithmetic::div_mod::lemma_div_pos_is_pos(n, d);
    if n <= w * d {
        assert(q <= w && (q == w ==> r == 0)) by (nonlinear_arith)
            requires
                n == d * q + r,
                0 <= r < d,
                n <= w * d,
        ;
    }
    if n >= w * d {
        assert(q >= w) by (nonlinear_arith)
            requires
                n == d * q + r,
                0 <= r < d,
                n >= w * d,
        ;
    }
}

proof fn lemma_fit_scale(n: int, d: int, k: nat)
    ensures
        fit_scale(n, d, k) matches Some(j) ==> j <= k && half_even(n * pow10(j), d)
            <= MAX_MANTISSA,
    decreases k,
{
    if half_even(n * pow10(k), d) > MAX_MANTISSA && k > 0 {
        lemma_fit_scale(n, d, (k - 1) as nat);
    }
}

/// A rounded number is on the same side of a whole number `w` as the exact
/// one, and has its sign.
pub proof fn nearest_keeps_bounds(num: int, den: int, w: int)
    requires
        den > 0,
        num >= 0,
    ensures
        nearest(num, den) matches Some(r) ==> {
            &&& r >= 0
            &&& num <= (w * one()) * den ==> r <= w * one()
            &&& num >= (w * one()) * den ==> r >= w * one()
        },
{
    reveal(nearest);
    lemma_pow10_28();
    let d = den * one();
    lemma_fit_scale(num, d, 28);
    if let Some(k) = fit_scale(num, d, 28) {
        let p = pow10(k);
        let q = pow10((28 - k) as nat);
        lemma_pow10_positive(k);
        lemma_pow10_positive((28 - k) as nat);
        lemma_pow10_adds(k, (28 - k) as nat);
        assert(k + (28 - k) as nat == 28);
        assert(d > 0) by (nonlinear_arith)
            requires
                d == den * one(),
                den > 0,
                one() > 0,
        ;
        assert(num * p >= 0) by (nonlinear_arith)
            requires
                num >= 0,
                p > 0,
        ;
        lemma_half_even_bounds(num * p, d, w * p);
        let m = half_even(num * p, d);
        let e = one();
        assert((w * p) * q == w * e) by (nonlinear_arith)
            requires
                p * q == e,
        ;
        assert(m * q >= 0) by (nonlinear_arith)
            requires
                m >= 0,
                q > 0,
        ;
        assert(((w * e) * den) * p == (w * p) * d) by (nonlinear_arith)
            requires
                d == den * e,
        ;
        if num <= (w * e) * den {
            assert(num * p <= ((w * e) * den) * p) by (nonlinear_arith)
                requires
                    num <= (w * e) * den,
                    p > 0,
            ;
            assert(m * q <= (w * p) * q) by (nonlinear_arith)
                requires
                    m <= w * p,
                    q > 0,
            ;
        }
        if num >= (w * e) * den {
            assert(num * p >= ((w * e) * den) * p) by (nonlinear_arith)
                requires
                    num >= (w * e) * den,
                    p > 0,
            ;
            assert(m * q >= (w * p) * q) by (nonlinear_arith)
                requires
                    m >= w * p,
                    q > 0,
            ;
        }
    }
}

proof fn lemma_half_even_monotone(a: int, b: int, d: int)
    requires
        0 <= a <= b,
        d > 0,
    ensures
        half_even(a, d) <= half_even(b, d),
{
    vstd::arithmetic::div_mod::lemma_fundamental_div_mod(a, d);
    vstd::arithmetic::div_mod::lemma_fundamental_div_mod(b, d);
    let q = a / d;
    let t = b / d;
    assert(q <= t && (q == t ==> a % d <= b % d)) by (nonlinear_arith)
        requires
            a == d * q + a % d,
            b == d * t + b % d,
            0 <= a % d < d,
            0 <= b % d < d,
            a <= b,
    ;
}

/// A smaller number keeps at least as many decimals.
proof fn lemma_fit_monotone(a: int, b: int, d: int, k: nat)
    requires
        0 <= a <= b,
        d > 0,
    ensures
        fit_scale(b, d, k) matches Some(j) ==> (fit_scale(a, d, k) matches Some(i) && j <= i <= k),
    decreases k,
{
    lemma_pow10_positive(k);
    let p = pow10(k);
    assert(0 <= a * p <= b * p) by (nonlinear_arith)
        requires
            0 <= a <= b,
            p > 0,
    ;
    lemma_half_even_monotone(a * p, b * p, d);
    lemma_fit_scale(a, d, k);
    lemma_fit_scale(b, d, k);
    if half_even(b * p, d) > MAX_MANTISSA && k > 0 {
        lemma_fit_monotone(a, b, d, (k - 1) as nat);
    }
}

/// A number that lost decimals did not fit with one more.
proof fn lemma_fit_tight(n: int, d: int, k: nat)
    ensures
        fit_scale(n, d, k) matches Some(j) ==> j < k ==> half_even(n * pow10(j + 1), d)
            > MAX_MANTISSA,
    decreases k,
{
    if half_even(n * pow10(k), d) > MAX_MANTISSA && k > 0 {
        lemma_fit_tight(n, d, (k - 1) as nat);
        lemma_fit_scale(n, d, (k - 1) as nat);
    }
}

/// Where `n` does not fit with one more decimal, its mantissa is large.
proof fn lemma_lost_decimal(n: int, d: int)
    requires
        n >= 0,
        d > 0,
        half_even(10 * n, d) > MAX_MANTISSA,
    ensures
        10 * half_even(n, d) >= MAX_MANTISSA,
{
    // MAX_MANTISSA is 10 * w - 5.
    let w: int = 7922816251426433759354395034;
    vstd::arithmetic::div_mod::lemma_fundamental_div_mod(n, d);
    vstd::arithmetic::div_mod::lemma_fundamental_div_mod(10 * n, d);
    let q = n / d;
    let r = n % d;
    let t = (10 * n) / d;
    let u = (10 * n) % d;
    if half_even(n, d) < w {
        assert(q < w);
        assert(t <= 10 * q + 9) by (nonlinear_arith)
            requires
                n == d * q + r,
                10 * n == d * t + u,
                0 <= r < d,
                0 <= u < d,
        ;
        assert(q == w - 1);
        assert(2 * r <= d);
        assert(t <= 10 * q + 5 && (t == 10 * q + 5 ==> u == 0)) by (nonlinear_arith)
            requires
                n == d * q + r,
                10 * n == d * t + u,
                0 <= 2 * r <= d,
                0 <= u < d,
        ;
        assert(false);
    }
}

/// Rounding keeps the order.
pub proof fn nearest_is_monotone(a: int, b: int, den: int)
    requires
        0 <= a <= b,
        den > 0,
    ensures
        nearest(b, den) matches Some(y) ==> (nearest(a, den) matches Some(x) && x <= y),
{
    reveal(nearest);
    let d = den * one();
    assert(d > 0) by (nonlinear_arith)
        requires
            d == den * one(),
            den > 0,
            one() > 0,
    ;
    lemma_fit_monotone(a, b, d, 28);
    lemma_fit_scale(a, d, 28);
    lemma_fit_tight(b, d, 28);
    if let Some(j) = fit_scale(b, d, 28) {
        let i = fit_scale(a, d, 28)->0;
        let pi = pow10(i);
        let pj = pow10(j);
        let qi = pow10((28 - i) as nat);
        let qj = pow10((28 - j) as nat);
        lemma_pow10_positive(i);
        lemma_pow10_positive(j);
        lemma_pow10_positive((28 - i) as nat);
        lemma_pow10_positive((28 - j) as nat);
        let x = half_even(a * pi, d);
        let y = half_even(b * pj, d);
        assert(0 <= a * pi && 0 <= b * pj) by (nonlinear_arith)
            requires
                0 <= a,
                0 <= b,
                pi > 0,
                pj > 0,
        ;
        if i == j {
            assert(a * pi <= b * pi) by (nonlinear_arith)
                requires
                    a <= b,
                    pi > 0,
            ;
            lemma_half_even_monotone(a * pi, b * pi, d);
            assert(x * qi <= y * qi) by (nonlinear_arith)
                requires
                    x <= y,
                    qi > 0,
            ;
        } else {
            assert(b * (10 * pj) == 10 * (b * pj)) by (nonlinear_arith);
            lemma_lost_decimal(b * pj, d);
            let z = pow10((28 - j - 1) as nat);
            lemma_pow10_monotone((28 - i) as nat, (28 - j - 1) as nat);
            lemma_half_even_bounds(a * pi, d, 0);
            assert(x * qi <= MAX_MANTISSA * z) by (nonlinear_arith)
                requires
                    0 <= x <= MAX_MANTISSA,
                    0 < qi <= z,
            ;
            assert(MAX_MANTISSA * z <= y * qj) by (nonlinear_arith)
                requires
                    qj == 10 * z,
                    10 * y >= MAX_MANTISSA,
                    z > 0,
            ;
        }
    }
}

/// Every rounded number is one that a decimal can stand for.
pub proof fn nearest_is_representable(num: int, den: int)
    requires
        den > 0,
    ensures
        nearest(num, den) matches Some(r) ==> representable(r),
{
    reveal(nearest);
    let d = den * one();
    let n = magnitude(num);
    lemma_fit_scale(n, d, 28);
    if let Some(k) = fit_scale(n, d, 28) {
        let p = pow10(k);
        lemma_pow10_positive(k);
        assert(d > 0) by (nonlinear_arith)
            requires
                d == den * one(),
                den > 0,
                one() > 0,
        ;
        assert(n * p >= 0) by (nonlinear_arith)
            requires
                n >= 0,
                p > 0,
        ;
        lemma_half_even_bounds(n * p, d, 0);
        let m = half_even(n * p, d);
        let q = pow10((28 - k) as nat);
        assert((-m) * q == -(m * q)) by (nonlinear_arith);
        assert(dec(m, k) == m * q);
        assert(dec(-m, k) == -(m * q));
    }
}

/// A result that a decimal can stand for is given exactly.
pub proof fn nearest_is_exact(x: int, den: int)
    requires
        den > 0,
        representable(x),
    ensures
        nearest(x * den, den) == Some(x),
{
    let (m, s) = choose|m: int, s: nat|
        -MAX_MANTISSA <= m <= MAX_MANTISSA && s <= 28 && x == #[trigger] dec(m, s);
    let a = magnitude(m);
    let u = pow10((28 - s) as nat);
    lemma_pow10_positive((28 - s) as nat);
    assert((-m) * u == -(m * u)) by (nonlinear_arith);
    assert(m >= 0 ==> m * u >= 0) by (nonlinear_arith)
        requires
            u > 0,
    ;
    assert(m < 0 ==> m * u < 0) by (nonlinear_arith)
        requires
            u > 0,
    ;
    assert(magnitude(x) == a * u);
    let d = den * one();
    let n = (a * u) * den;
    assert(magnitude(x * den) == magnitude(x) * den) by (nonlinear_arith)
        requires
            den > 0,
    ;
    assert(x < 0 <==> x * den < 0) by (nonlinear_arith)
        requires
            den > 0,
    ;
    lemma_exact_fit(a, s, den, 28);
    reveal(nearest);
    let k = fit_scale(n, d, 28)->0;
    lemma_exact_step(a, s, den, k);
    let p = pow10((k - s) as nat);
    let q = pow10((28 - k) as nat);
    lemma_pow10_adds((k - s) as nat, (28 - k) as nat);
    assert((k - s) as nat + (28 - k) as nat == (28 - s) as nat);
    assert((a * p) * q == a * (p * q)) by (nonlinear_arith);
}

proof fn lemma_exact_step(a: int, s: nat, den: int, k: nat)
    requires
        den > 0,
        s <= k <= 28,
    ensures
        half_even((a * pow10((28 - s) as nat)) * den * pow10(k), den * one()) == a * pow10(
            (k - s) as nat,
        ),
{
    let u = pow10((28 - s) as nat);
    let p = pow10((k - s) as nat);
    let e = one();
    let d = den * e;
    lemma_pow10_28();
    // u * 10^k == 10^(k - s) * 10^28
    lemma_pow10_adds((28 - s) as nat, k);
    lemma_pow10_adds((k - s) as nat, 28);
    assert((28 - s) as nat + k == (k - s) as nat + 28);
    let pk = pow10(k);
    assert((a * u) * den * pk == (a * p) * d) by (nonlinear_arith)
        requires
            u * pk == p * e,
            d == den * e,
    ;
    assert(d > 0) by (nonlinear_arith)
        requires
            d == den * e,
            den > 0,
            e > 0,
    ;
    let w = a * p;
    vstd::arithmetic::div_mod::lemma_fundamental_div_mod_converse(w * d, d, w, 0);
}

proof fn lemma_exact_fit(a: int, s: nat, den: int, k: nat)
    requires
        0 <= a <= MAX_MANTISSA,
        den > 0,
        s <= k <= 28,
    ensures
        fit_scale((a * pow10((28 - s) as nat)) * den, den * one(), k) matches Some(j) && s <= j
            <= k,
    decreases k,
{
    lemma_exact_step(a, s, den, k);
    if k == s {
        assert(pow10(0) == 1);
        assert(a * 1 == a);
    } else {
        lemma_exact_fit(a, s, den, (k - 1) as nat);
    }
}

proof fn lemma_fit_some(n: int, d: int, k: nat)
    requires
        half_even(n, d) <= MAX_MANTISSA,
    ensures
        fit_scale(n, d, k) is Some,
    decreases k,
{
    assert(pow10(0) == 1);
    assert(n * 1 == n);
    if k > 0 {
        lemma_fit_some(n, d, (k - 1) as nat);
    }
}

/// A number that is at most a whole number in range is in range.
pub proof fn nearest_is_there(num: int, den: int, w: int)
    requires
        den > 0,
        0 <= num <= (w * one()) * den,
        w <= MAX_MANTISSA,
    ensures
        nearest(num, den) is Some,
{
    reveal(nearest);
    let d = den * one();
    let e = one();
    assert(d > 0 && (w * e) * den == w * d) by (nonlinear_arith)
        requires
            d == den * e,
            den > 0,
            e > 0,
    ;
    lemma_half_even_bounds(num, d, w);
    lemma_fit_some(num, d, 28);
}

/// Rounding a number and its opposite gives opposite numbers.
pub proof fn nearest_is_odd(num: int, den: int)
    requires
        den > 0,
    ensures
        nearest(-num, den) == (match nearest(num, den) {
            Some(r) => Some(-r),
            None => None,
        }),
{
    if num == 0 {
        assert(representable(0)) by {
            assert(dec(0, 0) == 0);
        }
        nearest_is_exact(0, den);
        assert(0 * den == 0);
    } else {
        reveal(nearest);
    }
}

/// `a + 0`, `a - 0`, `a * 1` and `a / 1` are `a`, and `a - a` is zero.
pub proof fn neutral_elements(a: int)
    requires
        representable(a),
    ensures
        sum(a, 0) == Some(a),
        sum(0, a) == Some(a),
        difference(a, 0) == Some(a),
        difference(a, a) == Some(0int),
        product(a, one()) == Some(a),
        product(one(), a) == Some(a),
        quotient(a, one()) == Some(a),
{
    nearest_is_exact(a, 1);
    nearest_is_exact(a, one());
    assert(representable(0)) by {
        assert(dec(0, 0) == 0);
    }
    nearest_is_exact(0, 1);
}

/// A result that is a decimal is given as it is, without rounding.
pub proof fn exact_results_stand(a: int, b: int, c: int)
    requires
        representable(c),
    ensures
        a + b == c ==> sum(a, b) == Some(c),
        a - b == c ==> difference(a, b) == Some(c),
        a * b == c * one() ==> product(a, b) == Some(c),
        b != 0 && a * one() == c * b ==> quotient(a, b) == Some(c),
{
    nearest_is_exact(c, 1);
    nearest_is_exact(c, one());
    if b > 0 {
        nearest_is_exact(c, b);
    } else if b < 0 {
        nearest_is_exact(c, -b);
        assert(-a * one() == -(a * one())) by (nonlinear_arith);
        assert(c * (-b) == -(c * b)) by (nonlinear_arith);
    }
}

/// Sums, products and quotients of numbers that are not negative are not
/// negative.
pub proof fn sign_is_kept(a: int, b: int)
    requires
        a >= 0,
        b >= 0,
    ensures
        sum(a, b) matches Some(r) ==> r >= 0,
        product(a, b) matches Some(r) ==> r >= 0,
        quotient(a, b) matches Some(r) ==> r >= 0,
{
    assert(a * b >= 0) by (nonlinear_arith)
        requires
            a >= 0,
            b >= 0,
    ;
    nearest_keeps_bounds(a + b, 1, 0);
    nearest_keeps_bounds(a * b, one(), 0);
    if b > 0 {
        nearest_keeps_bounds(a * one(), b, 0);
    }
}

/// A part of `w`, by a weight within 0 and 1, is within 0 and `w`.
pub proof fn part_is_bounded(a: int, w: int)
    requires
        0 <= a <= one(),
        w >= 0,
        representable(w),
    ensures
        product(a, w) matches Some(r) && 0 <= r <= w,
{
    assert(0 <= a * w <= w * one()) by (nonlinear_arith)
        requires
            0 <= a <= one(),
            w >= 0,
    ;
    nearest_is_exact(w, one());
    nearest_is_monotone(a * w, w * one(), one());
    nearest_keeps_bounds(a * w, one(), 0);
}

/// A number that is within a decimal of zero is in range, and rounding keeps
/// it there.
pub proof fn rounding_stays_within(num: int, den: int, bound: int)
    requires
        den > 0,
        representable(bound),
        -(bound * den) <= num <= bound * den,
    ensures
        nearest(num, den) matches Some(r) && -bound <= r <= bound,
{
    nearest_is_exact(bound, den);
    nearest_is_odd(num, den);
    assert(bound * den >= 0);
    nearest_is_monotone(magnitude(num), bound * den, den);
    nearest_keeps_bounds(magnitude(num), den, 0);
}

/// A number of more than half the last unit is not rounded to zero.
pub proof fn rounding_shows(num: int, den: int)
    requires
        den > 0,
        2 * num > den,
    ensures
        nearest(num, den) matches Some(r) ==> r > 0,
{
    lemma_pow10_28();
    if num >= den {
        assert(representable(1)) by {
            assert(pow10(0) == 1);
            assert(dec(1, 28) == 1);
        }
        nearest_is_exact(1, den);
        nearest_is_monotone(den, num, den);
    } else {
        reveal(nearest);
        let e = one();
        let n = num * e;
        let d = den * e;
        assert(0 <= n < d && 2 * n > d) by (nonlinear_arith)
            requires
                n == num * e,
                d == den * e,
                0 < num < den < 2 * num,
                e > 0,
        ;
        assert(n / d == 0 && n % d == n) by (nonlinear_arith)
            requires
                0 <= n < d,
        ;
        assert(half_even(n, d) == 1);
        assert(pow10(0) == 1);
        assert(fit_scale(num, d, 28) == Some(28nat));
    }
}

/// Rounding moves a number by no more than one unit and the 10^27th part of it.
pub proof fn rounding_is_close(num: int, den: int)
    requires
        num >= 0,
        den > 0,
    ensures
        nearest(num, den) matches Some(r) ==> magnitude(r * den - num)
            * 1_000_000_000_000_000_000_000_000_000 <= num + den
            * 1_000_000_000_000_000_000_000_000_000,
{
    reveal(nearest);
    lemma_pow10_28();
    let e = one();
    let d = den * e;
    assert(d > 0) by (nonlinear_arith)
        requires
            d == den * e,
            den > 0,
            e > 0,
    ;
    lemma_fit_scale(num, d, 28);
    if let Some(k) = fit_scale(num, d, 28) {
        let p = pow10(k);
        let q = pow10((28 - k) as nat);
        lemma_pow10_positive(k);
        lemma_pow10_positive((28 - k) as nat);
        lemma_pow10_adds(k, (28 - k) as nat);
        let x = num * p;
        let m = half_even(x, d);
        let r = m * q;
        assert(x >= 0) by (nonlinear_arith)
            requires
                x == num * p,
                num >= 0,
                p > 0,
        ;
        lemma_half_even_near(x, d);
        lemma_half_even_bounds(x, d, 0);
        assert(-(den * q) <= 2 * (r * den - num) <= den * q) by (nonlinear_arith)
            requires
                -d <= 2 * x - 2 * (m * d) <= d,
                x == num * p,
                d == den * e,
                r == m * q,
                p * q == e,
                e > 0,
                q > 0,
        {
            assert((2 * x - 2 * (m * d)) * q == e * (2 * num - 2 * (r * den)));
            assert(d * q == e * (den * q));
            assert(-(d * q) <= (2 * x - 2 * (m * d)) * q <= d * q);
        }
        if k == 28 {
            assert(q == 1);
            assert(den * 1 == den);
        } else {
            lemma_fit_tight(num, d, 28);
            assert(num * pow10(k + 1) == 10 * x) by (nonlinear_arith)
                requires
                    pow10(k + 1) == 10 * p,
                    x == num * p,
            ;
            lemma_lost_decimal(x, d);
            assert(7_000_000_000_000_000_000_000_000_000 * (den * q) <= r * den)
                by (nonlinear_arith)
                requires
                    10 * m >= 79_228_162_514_264_337_593_543_950_335,
                    r == m * q,
                    q > 0,
                    den > 0,
            {
                assert(m >= 7_000_000_000_000_000_000_000_000_000);
                assert(m * (den * q) == r * den);
                assert(den * q > 0);
            }
        }
    }
}

/// A difference of two decimals is zero only where they are the same.
pub proof fn a_difference_shows(a: int, b: int)
    requires
        a > b,
    ensures
        difference(a, b) matches Some(r) ==> r > 0,
{
    rounding_shows(a - b, 1);
}

/// A share within 0 and 1 of any decimal is in range, and no further from zero.
pub proof fn shares_are_there(a: int, share: int)
    requires
        representable(a),
        0 <= share <= one(),
    ensures
        product(a, share) matches Some(r) && -magnitude(a) <= r <= magnitude(a),
{
    let m = magnitude(a);
    assert(representable(m)) by {
        let (k, s) = choose|k: int, s: nat|
            -MAX_MANTISSA <= k <= MAX_MANTISSA && s <= 28 && a == #[trigger] dec(k, s);
        let p = pow10((28 - s) as nat);
        assert((-k) * p == -(k * p)) by (nonlinear_arith);
        assert(dec(-k, s) == -a);
    }
    assert(-(m * one()) <= a * share <= m * one()) by (nonlinear_arith)
        requires
            -m <= a <= m,
            0 <= share <= one(),
    ;
    rounding_stays_within(a * share, one(), m);
}

/// A sum of numbers within 0 and bounds is within 0 and the sum of the bounds.
pub proof fn sum_is_bounded(a: int, b: int, x: int, y: int)
    requires
        0 <= a <= x,
        0 <= b <= y,
        representable(x + y),
    ensures
        sum(a, b) matches Some(r) && 0 <= r <= x + y,
{
    nearest_is_exact(x + y, 1);
    nearest_is_monotone(a + b, x + y, 1);
    nearest_keeps_bounds(a + b, 1, 0);
}

/// Rounding keeps the order of numbers, whatever their signs.
pub proof fn rounding_keeps_order(a: int, b: int, den: int)
    requires
        a <= b,
        den > 0,
    ensures
        match (nearest(a, den), nearest(b, den)) {
            (Some(x), Some(y)) => x <= y,
            _ => true,
        },
{
    nearest_is_odd(a, den);
    nearest_is_odd(b, den);
    if a >= 0 {
        nearest_is_monotone(a, b, den);
    } else if b < 0 {
        nearest_is_monotone(-b, -a, den);
    } else {
        nearest_keeps_bounds(-a, den, 0);
        nearest_keeps_bounds(b, den, 0);
    }
}

/// Rounding a number that is not positive gives none that is.
pub proof fn rounding_stays_below_zero(num: int, den: int)
    requires
        num <= 0,
        den > 0,
    ensures
        nearest(num, den) matches Some(r) ==> r <= 0,
{
    assert(representable(0)) by {
        assert(dec(0, 0) == 0);
    }
    nearest_is_exact(0, den);
    assert(0 * den == 0);
    rounding_keeps_order(num, 0, den);
}

/// Adding a number that is not negative lowers nothing, and subtracting it
/// raises nothing.
pub proof fn steps_keep_their_side(a: int, b: int)
    requires
        representable(a),
        b >= 0,
    ensures
        sum(a, b) matches Some(r) ==> r >= a,
        difference(a, b) matches Some(r) ==> r <= a,
{
    nearest_is_exact(a, 1);
    rounding_keeps_order(a, a + b, 1);
    rounding_keeps_order(a - b, a, 1);
}

/// Addition and multiplication do not depend on the order.
pub proof fn commutative(a: int, b: int)
    ensures
        sum(a, b) == sum(b, a),
        product(a, b) == product(b, a),
{
    assert(a * b == b * a) by (nonlinear_arith);
}

} // verus!
