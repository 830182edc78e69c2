//! Texts can be read back: what [`crate::text`] writes says the number that was
//! written.

use vstd::prelude::*;
use vstd::string::*;

use crate::binance::{hex_of, order_quantity};
use crate::decimal::{half_even, lemma_pow10_positive, magnitude, pow10, rounded};
use crate::text::{
    cut, digit, digits, fixed, hex_digit, hex_padded, id_form, int_form, joined, padded, plain,
    pointed, signed_fixed,
};

verus! {

// ── Decimal digits ────────────────────────────────────────────────

/// The number that the digits of a text write, whatever stands between them.
pub open spec fn written(s: Seq<char>) -> int
    decreases s.len(),
{
    if s.len() == 0 {
        0
    } else if '0' <= s.last() && s.last() <= '9' {
        10 * written(s.drop_last()) + (s.last() as u32 - '0' as u32)
    } else {
        written(s.drop_last())
    }
}

/// Are all characters digits?
pub open spec fn all_digits(s: Seq<char>) -> bool {
    forall|i: int| 0 <= i < s.len() ==> '0' <= #[trigger] s[i] && s[i] <= '9'
}

proof fn lemma_push(s: Seq<char>, d: int)
    requires
        0 <= d < 10,
    ensures
        written(s.push(digit(d))) == 10 * written(s) + d,
        all_digits(s) ==> all_digits(s.push(digit(d))),
{
    assert(s.push(digit(d)).drop_last() =~= s);
    assert('0' <= digit(d) && digit(d) <= '9');
}

/// A whole number is written in digits that say it, the first of which is zero
/// for zero alone.
pub proof fn whole_numbers_are_written(n: int)
    requires
        n >= 0,
    ensures
        written(digits(n)) == n,
        all_digits(digits(n)),
        digits(n).len() >= 1,
        n > 0 ==> digits(n)[0] != '0',
        n < 10 ==> digits(n).len() == 1,
    decreases n,
{
    if n < 10 {
        assert(digits(n) =~= Seq::<char>::empty().push(digit(n)));
        lemma_push(Seq::empty(), n);
    } else {
        whole_numbers_are_written(n / 10);
        lemma_push(digits(n / 10), n % 10);
    }
}

/// With leading zeros, just as many digits are written as asked for, and they
/// say the number where it has no more.
pub proof fn padded_numbers_are_written(n: int, w: nat)
    requires
        0 <= n < pow10(w),
    ensures
        padded(n, w).len() == w,
        written(padded(n, w)) == n,
        all_digits(padded(n, w)),
    decreases w,
{
    if w > 0 {
        assert(0 <= n / 10 < pow10((w - 1) as nat));
        padded_numbers_are_written(n / 10, (w - 1) as nat);
        lemma_push(padded(n / 10, (w - 1) as nat), n % 10);
    }
}

proof fn lemma_joined(a: Seq<char>, b: Seq<char>)
    requires
        all_digits(b),
    ensures
        written(a + b) == written(a) * pow10(b.len()) + written(b),
    decreases b.len(),
{
    if b.len() == 0 {
        assert(a + b =~= a);
    } else {
        let c = b.drop_last();
        lemma_joined(a, c);
        assert((a + b).drop_last() =~= a + c);
        assert((a + b).last() == b.last());
        let x = written(a);
        let p = pow10(c.len());
        assert('0' <= b[b.len() - 1] && b[b.len() - 1] <= '9');
        assert(10 * (x * p) == x * (10 * p)) by (nonlinear_arith);
    }
}

/// A number with a point in it has the point before the last places asked for,
/// at least one digit before it, and its digits say the number.
pub proof fn pointed_numbers_are_written(n: int, s: nat)
    requires
        n >= 0,
    ensures
        written(pointed(n, s)) == n,
        s == 0 ==> all_digits(pointed(n, s)),
        s > 0 ==> {
            let t = pointed(n, s);
            &&& t.len() >= s + 2
            &&& t[t.len() - s - 1] == '.'
            &&& all_digits(t.take(t.len() - s - 1))
            &&& all_digits(t.skip(t.len() - s))
        },
{
    if s == 0 {
        whole_numbers_are_written(n);
    } else {
        lemma_pow10_positive(s);
        let p = pow10(s);
        let w = n / p;
        let f = n % p;
        assert(w >= 0 && 0 <= f < p && n == w * p + f) by (nonlinear_arith)
            requires
                w == n / p,
                f == n % p,
                p > 0,
                n >= 0,
        ;
        whole_numbers_are_written(w);
        padded_numbers_are_written(f, s);
        let a = digits(w) + seq!['.'];
        lemma_joined(a, padded(f, s));
        assert(a.drop_last() =~= digits(w));
        assert(a.last() == '.');
        let t = pointed(n, s);
        assert(t =~= a + padded(f, s));
        assert(t.take(t.len() - s - 1) =~= digits(w));
        assert(t.skip(t.len() - s) =~= padded(f, s));
    }
}

/// A whole number that a quotient is rounded to is within a half of it, and
/// even where it is just a half away.
pub proof fn rounding_is_to_the_nearest(n: int, d: int)
    requires
        n >= 0,
        d > 0,
    ensures
        ({
            let q = half_even(n, d);
            &&& q >= 0
            &&& -d <= 2 * (q * d - n) <= d
            &&& 2 * (q * d - n) == d || 2 * (q * d - n) == -d ==> q % 2 == 0
        }),
{
    let q = n / d;
    let r = n % d;
    assert(n == q * d + r && 0 <= r < d && q >= 0) by (nonlinear_arith)
        requires
            q == n / d,
            r == n % d,
            d > 0,
            n >= 0,
    ;
    assert((q + 1) * d == q * d + d) by (nonlinear_arith);
}

proof fn lemma_sign(t: Seq<char>)
    ensures
        written(seq!['-'] + t) == written(t),
        written(seq!['+'] + t) == written(t),
        written(Seq::<char>::empty() + t) == written(t),
    decreases t.len(),
{
    assert(Seq::<char>::empty() + t =~= t);
    if t.len() == 0 {
        assert((seq!['-'] + t).drop_last() =~= t);
        assert((seq!['+'] + t).drop_last() =~= t);
        assert((seq!['-'] + t).last() == '-');
        assert((seq!['+'] + t).last() == '+');
    } else {
        lemma_sign(t.drop_last());
        assert((seq!['-'] + t).drop_last() =~= seq!['-'] + t.drop_last());
        assert((seq!['+'] + t).drop_last() =~= seq!['+'] + t.drop_last());
        assert((seq!['-'] + t).last() == t.last());
        assert((seq!['+'] + t).last() == t.last());
    }
}

/// A number with fixed decimals says, in units of its last place, the magnitude
/// within a half; a minus sign stands before it just where it is below zero, and
/// the signed form has a plus sign else.  Cut off, it says the magnitude
/// rounded down.
pub proof fn fixed_numbers_are_written(x: int, dp: nat)
    requires
        dp <= 28,
    ensures
        ({
            let unit = pow10((28 - dp) as nat);
            let m = written(fixed(x, dp));
            let c = written(cut(x, dp));
            &&& -unit <= 2 * (m * unit - magnitude(x)) <= unit
            &&& c * unit <= magnitude(x) < (c + 1) * unit
            &&& written(signed_fixed(x, dp)) == m
        }),
        x < 0 <==> fixed(x, dp)[0] == '-',
        x < 0 <==> signed_fixed(x, dp)[0] == '-',
        x >= 0 <==> signed_fixed(x, dp)[0] == '+',
        x < 0 <==> cut(x, dp)[0] == '-',
{
    let unit = pow10((28 - dp) as nat);
    lemma_pow10_positive((28 - dp) as nat);
    let a = magnitude(x);
    let m = half_even(a, unit);
    rounding_is_to_the_nearest(a, unit);
    pointed_numbers_are_written(m, dp);
    lemma_first(m, dp);
    lemma_sign(pointed(m, dp));
    lemma_sign(fixed(x, dp));
    let c = a / unit;
    assert(c >= 0 && c * unit <= a < (c + 1) * unit) by (nonlinear_arith)
        requires
            c == a / unit,
            a >= 0,
            unit > 0,
    ;
    pointed_numbers_are_written(c, dp);
    lemma_first(c, dp);
    lemma_sign(pointed(c, dp));
}

proof fn lemma_first(n: int, s: nat)
    requires
        n >= 0,
    ensures
        pointed(n, s).len() >= 1,
        '0' <= pointed(n, s)[0] && pointed(n, s)[0] <= '9',
{
    pointed_numbers_are_written(n, s);
    whole_numbers_are_written(n);
    if s > 0 {
        let t = pointed(n, s);
        let h = t.take(t.len() - s - 1);
        assert(h[0] == t[0]);
        assert('0' <= h[0] && h[0] <= '9');
    } else {
        assert('0' <= digits(n)[0] && digits(n)[0] <= '9');
    }
}

/// A whole number of either sign is written as its magnitude, with a minus sign
/// just where it is below zero.
pub proof fn signed_numbers_are_written(n: int)
    ensures
        written(int_form(n)) == magnitude(n),
        n < 0 <==> int_form(n)[0] == '-',
{
    whole_numbers_are_written(magnitude(n));
    lemma_sign(digits(magnitude(n)));
    let d = digits(magnitude(n));
    assert('0' <= d[0] && d[0] <= '9');
    if n >= 0 {
        assert(int_form(n) =~= d);
    }
}

// ── Identifiers ───────────────────────────────────────────────────

/// The value of a hexadecimal digit.
pub open spec fn hex_value(c: char) -> int {
    if '0' <= c && c <= '9' {
        c as u32 - '0' as u32
    } else {
        c as u32 - 'a' as u32 + 10
    }
}

/// The number that the hexadecimal digits of a text write, whatever stands
/// between them.
pub open spec fn hex_written(s: Seq<char>) -> int
    decreases s.len(),
{
    if s.len() == 0 {
        0
    } else if s.last() == '-' {
        hex_written(s.drop_last())
    } else {
        16 * hex_written(s.drop_last()) + hex_value(s.last())
    }
}

proof fn lemma_hex(n: int, w: nat, a: Seq<char>)
    requires
        n >= 0,
    ensures
        hex_padded(n, w).len() == w,
        hex_written(a + hex_padded(n, w)) == hex_written(a) * pow16(w) + n % pow16(w),
        forall|i: int| 0 <= i < w ==> #[trigger] hex_padded(n, w)[i] != '-',
    decreases w,
{
    if w == 0 {
        assert(a + hex_padded(n, w) =~= a);
    } else {
        let v = (w - 1) as nat;
        lemma_hex(n / 16, v, a);
        lemma_pow16(v);
        let t = a + hex_padded(n, w);
        assert(t.drop_last() =~= a + hex_padded(n / 16, v));
        assert(t.last() == hex_digit(n % 16));
        assert(hex_digit(n % 16) != '-' && hex_value(hex_digit(n % 16)) == n % 16);
        let x = hex_written(a);
        let p = pow16(v);
        vstd::arithmetic::div_mod::lemma_mod_breakdown(n, 16, p);
        assert(16 * (x * p) == x * (16 * p)) by (nonlinear_arith);
    }
}

/// The powers of 16.
pub open spec fn pow16(n: nat) -> int
    decreases n,
{
    if n == 0 {
        1
    } else {
        16 * pow16((n - 1) as nat)
    }
}

proof fn lemma_pow16(n: nat)
    ensures
        pow16(n) > 0,
    decreases n,
{
    if n > 0 {
        lemma_pow16((n - 1) as nat);
    }
}

proof fn lemma_hex_dash(a: Seq<char>)
    ensures
        hex_written(a + "-"@) == hex_written(a),
        (a + "-"@).len() == a.len() + 1,
{
    reveal_strlit("-");
    assert((a + "-"@).drop_last() =~= a);
    assert((a + "-"@).last() == '-');
}

proof fn lemma_groups(n: int)
    requires
        0 <= n < 0x100000000000000000000000000000000,
    ensures
        ({
            let a = n / 0x1000000000000000000000000;
            let b = n / 0x100000000000000000000;
            let c = n / 0x10000000000000000;
            let d = n / 0x1000000000000;
            &&& 0 <= a < 0x100000000
            &&& b >= 0 && c >= 0 && d >= 0
            &&& a * 0x10000 + b % 0x10000 == b
            &&& b * 0x10000 + c % 0x10000 == c
            &&& c * 0x10000 + d % 0x10000 == d
            &&& d * 0x1000000000000 + n % 0x1000000000000 == n
        }),
{
}

/// The last digits of `n` behind a dash.
spec fn group(n: int, w: nat) -> Seq<char> {
    "-"@ + hex_padded(n, w)
}

proof fn lemma_group(s: Seq<char>, n: int, w: nat)
    requires
        n >= 0,
    ensures
        hex_written(s + group(n, w)) == hex_written(s) * pow16(w) + n % pow16(w),
        (s + group(n, w)).len() == s.len() + 1 + w,
        (s + group(n, w))[s.len() as int] == '-',
        s + group(n, w) == s + "-"@ + hex_padded(n, w),
        forall|i: int| 0 <= i < s.len() ==> #[trigger] (s + group(n, w))[i] == s[i],
{
    reveal_strlit("-");
    lemma_hex_dash(s);
    lemma_hex(n, w, s + "-"@);
    assert(s + group(n, w) =~= s + "-"@ + hex_padded(n, w));
}

/// An identifier is written in 36 characters with dashes after the 8th, the
/// 12th, the 16th and the 20th digit, and its digits say it.  So two different
/// ones are written differently.
pub proof fn identifiers_are_written(id: u128)
    ensures
        id_form(id).len() == 36,
        id_form(id)[8] == '-' && id_form(id)[13] == '-' && id_form(id)[18] == '-' && id_form(id)[23]
            == '-',
        hex_written(id_form(id)) == id,
{
    let n = id as int;
    lemma_groups(n);
    let a = n / 0x1000000000000000000000000;
    let b = n / 0x100000000000000000000;
    let c = n / 0x10000000000000000;
    let d = n / 0x1000000000000;
    assert(pow16(4) == 0x10000 && pow16(8) == 0x100000000 && pow16(12) == 0x1000000000000) by {
        reveal_with_fuel(pow16, 13);
    }
    let e = Seq::<char>::empty();
    let s1 = hex_padded(a, 8);
    lemma_hex(a, 8, e);
    assert(e + s1 =~= s1);
    assert(hex_written(s1) == a);
    let s2 = s1 + group(b, 4);
    lemma_group(s1, b, 4);
    assert(hex_written(s2) == b);
    let s3 = s2 + group(c, 4);
    lemma_group(s2, c, 4);
    assert(hex_written(s3) == c);
    let s4 = s3 + group(d, 4);
    lemma_group(s3, d, 4);
    assert(hex_written(s4) == d);
    let s5 = s4 + group(n, 12);
    lemma_group(s4, n, 12);
    assert(hex_written(s5) == n);
    assert(id_form(id) == s5);
    assert(s5[8] == s4[8] && s4[8] == s3[8] && s3[8] == s2[8]);
    assert(s5[13] == s4[13] && s4[13] == s3[13]);
    assert(s5[18] == s4[18]);
}

// ── Lists ─────────────────────────────────────────────────────────

/// Joined texts are the first alone, and each further one behind a separator.
pub proof fn joining_puts_separators_between(list: Seq<Seq<char>>, x: Seq<char>, sep: Seq<char>)
    ensures
        joined(Seq::empty(), sep, 0) == Seq::<char>::empty(),
        joined(list.push(x), sep, list.len() as int + 1) == if list.len() == 0 {
            x
        } else {
            joined(list, sep, list.len() as int) + sep + x
        },
{
    lemma_joined_prefix(list, x, sep, list.len() as int);
}

proof fn lemma_joined_prefix(list: Seq<Seq<char>>, x: Seq<char>, sep: Seq<char>, n: int)
    requires
        n <= list.len(),
    ensures
        joined(list.push(x), sep, n) == joined(list, sep, n),
    decreases n,
{
    if n > 1 {
        lemma_joined_prefix(list, x, sep, n - 1);
    }
}

// ── Rounding ──────────────────────────────────────────────────────

/// Rounded to some decimals, a number is a multiple of the last place, within a
/// half of one of what it was, and of the same sign or zero.
pub proof fn rounded_numbers_are_near(x: int, dp: nat)
    requires
        dp <= 28,
    ensures
        ({
            let unit = pow10((28 - dp) as nat);
            let r = rounded(x, dp);
            &&& r % unit == 0
            &&& -unit <= 2 * (r - x) <= unit
            &&& x >= 0 ==> r >= 0
            &&& x <= 0 ==> r <= 0
        }),
{
    let unit = pow10((28 - dp) as nat);
    lemma_pow10_positive((28 - dp) as nat);
    if dp < 28 {
        rounding_is_to_the_nearest(magnitude(x), unit);
        let q = half_even(magnitude(x), unit);
        assert(q * unit >= 0) by (nonlinear_arith)
            requires
                q >= 0,
                unit > 0,
        ;
        assert(x == 0 ==> q == 0) by (nonlinear_arith)
            requires
                2 * (q * unit - magnitude(x)) <= unit,
                q >= 0,
                unit > 0,
        ;
        vstd::arithmetic::div_mod::lemma_mod_multiples_basic(q, unit);
        vstd::arithmetic::div_mod::lemma_mod_multiples_basic(-q, unit);
        assert((-q) * unit == -(q * unit)) by (nonlinear_arith);
    } else {
        assert(unit == 1);
    }
}

/// A mantissa is written with its point, and its digits say its magnitude.
pub proof fn mantissas_are_written(m: int, s: nat)
    ensures
        written(plain(m, s)) == magnitude(m),
        m < 0 <==> plain(m, s)[0] == '-',
{
    pointed_numbers_are_written(magnitude(m), s);
    lemma_first(magnitude(m), s);
    lemma_sign(pointed(magnitude(m), s));
}

/// An order is for its quantity rounded to two decimals: where it has two or
/// more, the digits say the hundredths.
pub proof fn order_quantities_are_hundredths(x: int, scale: nat)
    requires
        x >= 0,
        scale >= 2,
    ensures
        ({
            let cents = written(order_quantity(x, scale));
            let cent = pow10(26);
            &&& -cent <= 2 * (cents * cent - x) <= cent
        }),
{
    let cent = pow10(26);
    lemma_pow10_positive(26);
    rounding_is_to_the_nearest(x, cent);
    let q = half_even(x, cent);
    assert(q * cent == cent * q) by (nonlinear_arith);
    vstd::arithmetic::div_mod::lemma_div_multiples_vanish(q, cent);
    assert(rounded(x, 2) == q * cent);
    mantissas_are_written(q, 2);
}

// ── Bytes ─────────────────────────────────────────────────────────

proof fn lemma_hex_prefix(bytes: Seq<u8>, x: u8, n: int)
    requires
        n <= bytes.len(),
    ensures
        hex_of(bytes.push(x), n) == hex_of(bytes, n),
    decreases n,
{
    if n > 0 {
        lemma_hex_prefix(bytes, x, n - 1);
        assert(bytes.push(x)[n - 1] == bytes[n - 1]);
    }
}

/// One more byte adds two hexadecimal digits that say it.
pub proof fn bytes_are_written(bytes: Seq<u8>, x: u8)
    ensures
        ({
            let n = bytes.len() as int;
            let before = hex_of(bytes, n);
            let after = hex_of(bytes.push(x), n + 1);
            &&& hex_of(Seq::empty(), 0) == Seq::<char>::empty()
            &&& after.len() == before.len() + 2
            &&& after.take(before.len() as int) == before
            &&& hex_written(after) == 256 * hex_written(before) + x
        }),
{
    let n = bytes.len() as int;
    lemma_hex_prefix(bytes, x, n);
    assert(bytes.push(x)[n] == x);
    let before = hex_of(bytes, n);
    lemma_hex(x as int, 2, before);
    assert(pow16(2) == 256) by {
        reveal_with_fuel(pow16, 3);
    }
    assert(hex_of(bytes.push(x), n + 1) == before + hex_padded(x as int, 2));
    assert((before + hex_padded(x as int, 2)).take(before.len() as int) =~= before);
}

} // verus!
