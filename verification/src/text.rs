//! Texts: numbers written out, and the parts of `str` that the library uses.

use vstd::prelude::*;
use vstd::string::*;

use crate::decimal::{
    decimal_of_text, half_even, lemma_pow10_adds, lemma_pow10_monotone, lemma_pow10_positive,
    magnitude, pow10, val, Decimal, MAX_SCALE,
};

verus! {

// ── Numbers written out ───────────────────────────────────────────

/// The character of a digit.
pub open spec fn digit(d: int) -> char {
    if d == 0 {
        '0'
    } else if d == 1 {
        '1'
    } else if d == 2 {
        '2'
    } else if d == 3 {
        '3'
    } else if d == 4 {
        '4'
    } else if d == 5 {
        '5'
    } else if d == 6 {
        '6'
    } else if d == 7 {
        '7'
    } else if d == 8 {
        '8'
    } else {
        '9'
    }
}

/// A whole number, written in decimal.
pub open spec fn digits(n: int) -> Seq<char>
    decreases n,
{
    if n < 10 {
        seq![digit(n)]
    } else {
        digits(n / 10).push(digit(n % 10))
    }
}

/// The last `w` decimal digits of a whole number.
pub open spec fn padded(n: int, w: nat) -> Seq<char>
    decreases w,
{
    if w == 0 {
        seq![]
    } else {
        padded(n / 10, (w - 1) as nat).push(digit(n % 10))
    }
}

/// `n / 10^s`, written with all of its `s` decimals.
pub open spec fn pointed(n: int, s: nat) -> Seq<char> {
    if s == 0 {
        digits(n)
    } else {
        digits(n / pow10(s)) + seq!['.'] + padded(n % pow10(s), s)
    }
}

pub open spec fn minus_sign(negative: bool) -> Seq<char> {
    if negative {
        seq!['-']
    } else {
        seq![]
    }
}

/// A decimal rounded half to even to `dp` decimals, and written with all of
/// them.
pub open spec fn fixed(x: int, dp: nat) -> Seq<char> {
    minus_sign(x < 0) + pointed(half_even(magnitude(x), pow10((28 - dp) as nat)), dp)
}

/// As [`fixed`], with the plus sign written too.
pub open spec fn signed_fixed(x: int, dp: nat) -> Seq<char> {
    if x < 0 {
        fixed(x, dp)
    } else {
        seq!['+'] + fixed(x, dp)
    }
}

/// A decimal cut off after `dp` decimals, and written with all of them.
pub open spec fn cut(x: int, dp: nat) -> Seq<char> {
    minus_sign(x < 0) + pointed(magnitude(x) / pow10((28 - dp) as nat), dp)
}

/// A decimal written with the decimals that it has.
pub open spec fn plain(m: int, s: nat) -> Seq<char> {
    minus_sign(m < 0) + pointed(magnitude(m), s)
}

fn digit_text(d: u128) -> (r: &'static str)
    requires
        d < 10,
    ensures
        r@ == seq![digit(d as int)],
{
    proof {
        reveal_strlit("0");
        reveal_strlit("1");
        reveal_strlit("2");
        reveal_strlit("3");
        reveal_strlit("4");
        reveal_strlit("5");
        reveal_strlit("6");
        reveal_strlit("7");
        reveal_strlit("8");
        reveal_strlit("9");
    }
    let r = match d {
        0 => "0",
        1 => "1",
        2 => "2",
        3 => "3",
        4 => "4",
        5 => "5",
        6 => "6",
        7 => "7",
        8 => "8",
        _ => "9",
    };
    assert(r@ =~= seq![digit(d as int)]);
    r
}

/// Writes a whole number in decimal.
pub fn digits_text(n: u128) -> (r: String)
    ensures
        r@ == digits(n as int),
    decreases n,
{
    if n < 10 {
        digit_text(n).to_owned()
    } else {
        let mut s = digits_text(n / 10);
        s.append(digit_text(n % 10));
        assert(s@ =~= digits(n as int));
        s
    }
}

/// Writes the last `w` decimal digits of a whole number.
fn padded_text(n: u128, w: u32) -> (r: String)
    ensures
        r@ == padded(n as int, w as nat),
    decreases w,
{
    if w == 0 {
        let s = String::new();
        assert(s@ =~= padded(n as int, 0));
        s
    } else {
        let mut s = padded_text(n / 10, w - 1);
        s.append(digit_text(n % 10));
        assert(s@ =~= padded(n as int, w as nat));
        s
    }
}

/// Writes a count.
pub fn count_text(n: usize) -> (r: String)
    ensures
        r@ == digits(n as int),
{
    digits_text(n as u128)
}

/// A whole number with its sign, written in decimal.
pub open spec fn int_form(n: int) -> Seq<char> {
    minus_sign(n < 0) + digits(magnitude(n))
}

/// Writes a whole number with its sign.
pub fn int_text(n: i64) -> (r: String)
    ensures
        r@ == int_form(n as int),
{
    if n < 0 {
        proof {
            reveal_strlit("-");
        }
        let mut r = "-".to_owned();
        assert(r@ =~= minus_sign(true));
        r.append(digits_text((-(n as i128)) as u128).as_str());
        r
    } else {
        let r = digits_text(n as u128);
        assert(r@ =~= int_form(n as int));
        r
    }
}

/// Ten to the power `n`.
fn power_of_ten(n: u32) -> (r: u128)
    requires
        n <= MAX_SCALE,
    ensures
        r == pow10(n as nat),
        0 < r <= 10_000_000_000_000_000_000_000_000_000,
{
    let mut r: u128 = 1;
    let mut i: u32 = 0;
    proof {
        crate::decimal::lemma_pow10_28();
    }
    while i < n
        invariant
            i <= n <= MAX_SCALE,
            r == pow10(i as nat),
            pow10(28) == 10_000_000_000_000_000_000_000_000_000,
            0 < r <= 10_000_000_000_000_000_000_000_000_000,
        decreases n - i,
    {
        proof {
            lemma_pow10_monotone((i + 1) as nat, 28);
        }
        r = r * 10;
        i = i + 1;
    }
    r
}

/// Writes `n / 10^s` with all of its decimals and `zeros` more.
fn pointed_text(negative: bool, n: u128, s: u32, zeros: u32) -> (r: String)
    requires
        s + zeros <= MAX_SCALE,
    ensures
        r@ == minus_sign(negative) + pointed(n * pow10(zeros as nat), (s + zeros) as nat),
{
    let p = power_of_ten(s);
    let mut r = if negative {
        proof {
            reveal_strlit("-");
        }
        let m = "-".to_owned();
        assert(m@ =~= minus_sign(true));
        m
    } else {
        let m = String::new();
        assert(m@ =~= minus_sign(false));
        m
    };
    r.append(digits_text(n / p).as_str());
    if s + zeros > 0 {
        proof {
            reveal_strlit(".");
        }
        r.append(".");
        r.append(padded_text(n % p, s).as_str());
        r.append(padded_text(0, zeros).as_str());
        proof {
            lemma_shifted(n as int, s as nat, zeros as nat);
            assert("."@ =~= seq!['.']);
            assert(r@ =~= minus_sign(negative) + pointed(
                n * pow10(zeros as nat),
                (s + zeros) as nat,
            ));
        }
    } else {
        proof {
            assert(n as int / 1 == n);
            lemma_times_one(n as int);
        }
    }
    r
}

proof fn lemma_times_one(n: int)
    ensures
        n * pow10(0) == n,
{
    assert(pow10(0) == 1);
    assert(n * 1 == n);
}

/// Zeros behind a number move its point, not its digits.
proof fn lemma_shifted(n: int, s: nat, z: nat)
    requires
        n >= 0,
    ensures
        (n * pow10(z)) / pow10(s + z) == n / pow10(s),
        padded((n * pow10(z)) % pow10(s + z), s + z) == padded(n % pow10(s), s) + padded(0, z),
{
    let ps = pow10(s);
    let pz = pow10(z);
    lemma_pow10_positive(s);
    lemma_pow10_positive(z);
    lemma_pow10_adds(s, z);
    vstd::arithmetic::div_mod::lemma_fundamental_div_mod(n, ps);
    let q = n / ps;
    let r = n % ps;
    assert(n * pz == (ps * pz) * q + r * pz) by (nonlinear_arith)
        requires
            n == ps * q + r,
    ;
    assert(0 <= r * pz < ps * pz) by (nonlinear_arith)
        requires
            0 <= r < ps,
            pz > 0,
    ;
    vstd::arithmetic::div_mod::lemma_fundamental_div_mod_converse(n * pz, ps * pz, q, r * pz);
    lemma_padded_shifted(r, s, z);
}

proof fn lemma_padded_shifted(n: int, w: nat, z: nat)
    requires
        n >= 0,
    ensures
        padded(n * pow10(z), w + z) == padded(n, w) + padded(0, z),
    decreases z,
{
    if z == 0 {
        lemma_times_one(n);
        assert(padded(n, w) =~= padded(n, w) + padded(0, 0));
    } else {
        let p = pow10((z - 1) as nat);
        assert(n * (10 * p) == 10 * (n * p)) by (nonlinear_arith);
        lemma_padded_shifted(n, w, (z - 1) as nat);
        assert((w + z - 1) as nat == w + (z - 1) as nat);
        assert(padded(n * pow10(z), w + z) =~= padded(n, w) + padded(0, z));
    }
}

/// Writes a decimal rounded half to even to `dp` decimals, with all of them.
pub fn fixed_text(x: Decimal, dp: u32) -> (r: String)
    requires
        dp <= MAX_SCALE,
    ensures
        r@ == fixed(x@, dp as nat),
{
    let y = x.round_dp(dp);
    let m = y.mantissa();
    let s = y.scale();
    let negative = x.less(Decimal::zero());
    let n: u128 = if m < 0 {
        (-m) as u128
    } else {
        m as u128
    };
    proof {
        let z = (dp - s) as nat;
        let p = pow10((28 - dp) as nat);
        y.lemma_view();
        lemma_pow10_positive((28 - dp) as nat);
        lemma_pow10_positive((28 - s) as nat);
        lemma_pow10_adds(z, (28 - dp) as nat);
        assert((28 - s) as nat == z + (28 - dp) as nat);
        let v = half_even(magnitude(x@), p);
        if dp == 28 {
            assert(v == magnitude(x@));
        }
        assert(magnitude(y@) == v * p) by {
            assert(v >= 0) by {
                vstd::arithmetic::div_mod::lemma_div_pos_is_pos(magnitude(x@), p);
            }
            assert(v * p >= 0) by (nonlinear_arith)
                requires
                    v >= 0,
                    p > 0,
            ;
        }
        let w = pow10(z);
        assert(magnitude(y@) == (n * w) * p) by {
            assert(m * (w * p) == (m * w) * p) by (nonlinear_arith);
            assert((-m) * (w * p) == -(m * (w * p))) by (nonlinear_arith);
            assert(n * (w * p) == (n * w) * p) by (nonlinear_arith);
            lemma_pow10_positive(z);
            assert(m >= 0 ==> m * (w * p) >= 0) by (nonlinear_arith)
                requires
                    w > 0,
                    p > 0,
            ;
            assert(m < 0 ==> m * (w * p) < 0) by (nonlinear_arith)
                requires
                    w > 0,
                    p > 0,
            ;
        }
        assert(v == n * w) by (nonlinear_arith)
            requires
                v * p == (n * w) * p,
                p > 0,
        ;
    }
    pointed_text(negative, n, s, dp - s)
}

/// As [`fixed_text`], with the plus sign written too.
pub fn signed_text(x: Decimal, dp: u32) -> (r: String)
    requires
        dp <= MAX_SCALE,
    ensures
        r@ == signed_fixed(x@, dp as nat),
{
    if x.less(Decimal::zero()) {
        fixed_text(x, dp)
    } else {
        proof {
            reveal_strlit("+");
            assert("+"@ =~= seq!['+']);
        }
        let mut r = "+".to_owned();
        r.append(fixed_text(x, dp).as_str());
        r
    }
}

/// Writes a decimal with the decimals that it has.
pub fn plain_text(x: Decimal) -> (r: String)
    ensures
        r@ == plain(x.spec_mantissa(), x.spec_scale()),
{
    let m = x.mantissa();
    let n: u128 = if m < 0 {
        (-m) as u128
    } else {
        m as u128
    };
    proof {
        lemma_times_one(n as int);
    }
    pointed_text(m < 0, n, x.scale(), 0)
}

/// Writes a decimal cut off after `dp` decimals, with all of them.
pub fn cut_text(x: Decimal, dp: u32) -> (r: String)
    requires
        dp <= MAX_SCALE,
    ensures
        r@ == cut(x@, dp as nat),
{
    let m = x.mantissa();
    let s = x.scale();
    let n: u128 = if m < 0 {
        (-m) as u128
    } else {
        m as u128
    };
    proof {
        let w = pow10((28 - s) as nat);
        x.lemma_view();
        lemma_pow10_positive((28 - s) as nat);
        assert((-m) * w == -(m * w)) by (nonlinear_arith);
        assert(m >= 0 ==> m * w >= 0) by (nonlinear_arith)
            requires
                w > 0,
        ;
        assert(m < 0 ==> m * w < 0) by (nonlinear_arith)
            requires
                w > 0,
        ;
        assert(magnitude(x@) == n * w);
    }
    if s <= dp {
        proof {
            let z = (dp - s) as nat;
            let p = pow10((28 - dp) as nat);
            lemma_pow10_adds(z, (28 - dp) as nat);
            lemma_pow10_positive((28 - dp) as nat);
            assert((28 - s) as nat == z + (28 - dp) as nat);
            assert(n * (pow10(z) * p) == p * (n * pow10(z))) by (nonlinear_arith);
            vstd::arithmetic::div_mod::lemma_div_multiples_vanish(n * pow10(z), p);
        }
        pointed_text(m < 0, n, s, dp - s)
    } else {
        let k = power_of_ten(s - dp);
        proof {
            lemma_shifted(n as int, (s - dp) as nat, (28 - s) as nat);
            assert((s - dp) as nat + (28 - s) as nat == (28 - dp) as nat);
            lemma_times_one((n / k) as int);
        }
        pointed_text(m < 0, n / k, dp, 0)
    }
}

// ── Hexadecimal ───────────────────────────────────────────────────

/// The character of a hexadecimal digit.
pub open spec fn hex_digit(d: int) -> char {
    if d < 10 {
        digit(d)
    } else if d == 10 {
        'a'
    } else if d == 11 {
        'b'
    } else if d == 12 {
        'c'
    } else if d == 13 {
        'd'
    } else if d == 14 {
        'e'
    } else {
        'f'
    }
}

/// The last `w` hexadecimal digits of a whole number.
pub open spec fn hex_padded(n: int, w: nat) -> Seq<char>
    decreases w,
{
    if w == 0 {
        seq![]
    } else {
        hex_padded(n / 16, (w - 1) as nat).push(hex_digit(n % 16))
    }
}

/// An id in its hyphenated form, 8-4-4-4-12 hexadecimal digits.
pub open spec fn id_form(id: u128) -> Seq<char> {
    hex_padded(id as int / 0x1000000000000000000000000, 8) + "-"@ + hex_padded(
        id as int / 0x100000000000000000000,
        4,
    ) + "-"@ + hex_padded(id as int / 0x10000000000000000, 4) + "-"@ + hex_padded(
        id as int / 0x1000000000000,
        4,
    ) + "-"@ + hex_padded(id as int, 12)
}

fn hex_digit_text(d: u128) -> (r: &'static str)
    requires
        d < 16,
    ensures
        r@ == seq![hex_digit(d as int)],
{
    proof {
        reveal_strlit("a");
        reveal_strlit("b");
        reveal_strlit("c");
        reveal_strlit("d");
        reveal_strlit("e");
        reveal_strlit("f");
    }
    if d < 10 {
        return digit_text(d);
    }
    let r = match d {
        10 => "a",
        11 => "b",
        12 => "c",
        13 => "d",
        14 => "e",
        _ => "f",
    };
    assert(r@ =~= seq![hex_digit(d as int)]);
    r
}

/// Writes the last `w` hexadecimal digits of a whole number.
pub fn hex_text(n: u128, w: u32) -> (r: String)
    ensures
        r@ == hex_padded(n as int, w as nat),
    decreases w,
{
    if w == 0 {
        let s = String::new();
        assert(s@ =~= hex_padded(n as int, 0));
        s
    } else {
        let mut s = hex_text(n / 16, w - 1);
        s.append(hex_digit_text(n % 16));
        assert(s@ =~= hex_padded(n as int, w as nat));
        s
    }
}

/// Writes an id in its hyphenated form.
pub fn id_text(id: u128) -> (r: String)
    ensures
        r@ == id_form(id),
{
    let mut s = hex_text(id / 0x1000000000000000000000000, 8);
    s.append("-");
    s.append(hex_text(id / 0x100000000000000000000, 4).as_str());
    s.append("-");
    s.append(hex_text(id / 0x10000000000000000, 4).as_str());
    s.append("-");
    s.append(hex_text(id / 0x1000000000000, 4).as_str());
    s.append("-");
    s.append(hex_text(id, 12).as_str());
    s
}

// ── Parts of `str` ────────────────────────────────────────────────

/// What `str::to_uppercase` gives.
pub uninterp spec fn unicode_upper(text: Seq<char>) -> Seq<char>;

/// What `str::to_lowercase` gives.
pub uninterp spec fn unicode_lower(text: Seq<char>) -> Seq<char>;

pub open spec fn ascii(text: Seq<char>) -> bool {
    forall|i: int| 0 <= i < text.len() ==> (#[trigger] text[i] as u32) < 128
}

pub open spec fn ascii_upper(c: char) -> char {
    if 'a' <= c && c <= 'z' {
        ((c as u32 - 32) as u32) as char
    } else {
        c
    }
}

pub open spec fn ascii_lower(c: char) -> char {
    if 'A' <= c && c <= 'Z' {
        ((c as u32 + 32) as u32) as char
    } else {
        c
    }
}

/// Is none of the characters an ASCII letter `a` to `z`?
pub open spec fn no_small_ascii(text: Seq<char>) -> bool {
    forall|i: int| 0 <= i < text.len() ==> !('a' <= #[trigger] text[i] && text[i] <= 'z')
}

/// Does `part` stand somewhere in `text`?
pub open spec fn holds(text: Seq<char>, part: Seq<char>) -> bool {
    exists|i: int|
        0 <= i && i + part.len() <= text.len() && #[trigger] text.subrange(i, i + part.len())
            == part
}

/// `str::to_uppercase`: the upper-case form by the Unicode tables, which map
/// the ASCII letters `a` to `z` to `A` to `Z` and keep every other ASCII
/// character.  None of the letters `a` to `z` stands in an upper-case form.
#[verifier::external_body]
pub(crate) fn uppercase(text: &str) -> (r: String)
    ensures
        r@ == unicode_upper(text@),
        no_small_ascii(r@),
        ascii(text@) ==> r@ == text@.map_values(|c: char| ascii_upper(c)),
{
    text.to_uppercase()
}

/// `str::to_lowercase`: the lower-case form by the Unicode tables, which map
/// the ASCII letters `A` to `Z` to `a` to `z` and keep every other ASCII
/// character.
#[verifier::external_body]
pub(crate) fn lowercase(text: &str) -> (r: String)
    ensures
        r@ == unicode_lower(text@),
        ascii(text@) ==> r@ == text@.map_values(|c: char| ascii_lower(c)),
{
    text.to_lowercase()
}

/// Does `part` stand at the place `at` of `text`?
fn stands_at(text: &str, part: &str, at: usize) -> (r: bool)
    requires
        at + part@.len() <= text@.len(),
    ensures
        r == (text@.subrange(at as int, at + part@.len()) == part@),
{
    let n = part.unicode_len();
    let total = text.unicode_len();
    let mut i: usize = 0;
    while i < n
        invariant
            i <= n == part@.len(),
            at + n <= total == text@.len(),
            forall|j: int| 0 <= j < i ==> text@[at + j] == #[trigger] part@[j],
        decreases n - i,
    {
        if text.get_char(at + i) != part.get_char(i) {
            assert(text@.subrange(at as int, at + n)[i as int] != part@[i as int]);
            return false;
        }
        i = i + 1;
    }
    assert(text@.subrange(at as int, at + n) =~= part@);
    true
}

/// Does a text start with a part?
pub(crate) fn starts_with(text: &str, part: &str) -> (r: bool)
    ensures
        r == part@.is_prefix_of(text@),
{
    if text.unicode_len() < part.unicode_len() {
        return false;
    }
    let r = stands_at(text, part, 0);
    assert(r ==> part@ =~= text@.subrange(0, part@.len() as int));
    r
}

/// Does a text end with a part?
pub(crate) fn ends_with(text: &str, part: &str) -> (r: bool)
    ensures
        r == part@.is_suffix_of(text@),
{
    let n = text.unicode_len();
    let k = part.unicode_len();
    if n < k {
        return false;
    }
    stands_at(text, part, n - k)
}

/// Does a part stand anywhere in a text?
pub(crate) fn contains(text: &str, part: &str) -> (r: bool)
    ensures
        r == holds(text@, part@),
{
    let n = text.unicode_len();
    let k = part.unicode_len();
    if n < k {
        return false;
    }
    let last = n - k;
    let mut i: usize = 0;
    while i <= last
        invariant
            n == text@.len(),
            k == part@.len(),
            last == n - k,
            i <= last + 1,
            forall|j: int|
                0 <= j < i ==> #[trigger] text@.subrange(j, j + part@.len()) != part@,
        decreases last + 1 - i,
    {
        if stands_at(text, part, i) {
            assert(text@.subrange(i as int, i + part@.len()) == part@);
            return true;
        }
        if i == last {
            return false;
        }
        i = i + 1;
    }
    false
}

/// The code of a character, of the small letter for an ASCII capital.
fn small_code(c: char) -> (r: u32)
    ensures
        r == ascii_lower(c) as u32,
{
    if 'A' <= c && c <= 'Z' {
        c as u32 + 32
    } else {
        c as u32
    }
}

/// Are two texts the same but for the case of ASCII letters?
pub(crate) fn same_ignoring_case(a: &str, b: &str) -> (r: bool)
    ensures
        r == (a@.map_values(|c: char| ascii_lower(c)) == b@.map_values(|c: char| ascii_lower(c))),
{
    let ghost x = a@.map_values(|c: char| ascii_lower(c));
    let ghost y = b@.map_values(|c: char| ascii_lower(c));
    let n = a.unicode_len();
    if n != b.unicode_len() {
        assert(x.len() != y.len());
        return false;
    }
    let mut i: usize = 0;
    while i < n
        invariant
            i <= n == a@.len() == b@.len(),
            x == a@.map_values(|c: char| ascii_lower(c)),
            y == b@.map_values(|c: char| ascii_lower(c)),
            forall|j: int| 0 <= j < i ==> #[trigger] x[j] == y[j],
        decreases n - i,
    {
        if small_code(a.get_char(i)) != small_code(b.get_char(i)) {
            assert(x[i as int] != y[i as int]);
            return false;
        }
        i = i + 1;
    }
    assert(x =~= y);
    true
}

/// What a list of texts holds.
pub open spec fn texts(list: Seq<String>) -> Seq<Seq<char>> {
    list.map_values(|s: String| s@)
}

/// The number that a text writes without underscores, if it writes one.
pub open spec fn number_in(text: Seq<char>) -> Option<int> {
    if holds(text, "_"@) {
        None
    } else {
        match decimal_of_text(text) {
            Ok(x) => Some(x),
            Err(_) => None,
        }
    }
}

/// Reads a number that is written without underscores.
pub fn read_number(text: &str) -> (r: Option<Decimal>)
    ensures
        val(r) == number_in(text@),
{
    if contains(text, "_") {
        return None;
    }
    match Decimal::parse(text) {
        Ok(x) => Some(x),
        Err(_) => None,
    }
}

/// Copies a list of texts.
pub fn copy_texts(list: &Vec<String>) -> (r: Vec<String>)
    ensures
        texts(r@) == texts(list@),
{
    let mut out: Vec<String> = Vec::new();
    let mut i: usize = 0;
    while i < list.len()
        invariant
            i <= list@.len(),
            out@.len() == i,
            forall|j: int| 0 <= j < i ==> (#[trigger] out@[j])@ == list@[j]@,
        decreases list@.len() - i,
    {
        out.push(list[i].clone());
        i = i + 1;
    }
    assert(texts(out@) =~= texts(list@));
    out
}

/// The first `n` texts of a list, with a separator between them.
pub open spec fn joined(list: Seq<Seq<char>>, sep: Seq<char>, n: int) -> Seq<char>
    decreases n,
{
    if n <= 0 {
        seq![]
    } else if n == 1 {
        list[0]
    } else {
        joined(list, sep, n - 1) + sep + list[n - 1]
    }
}

/// Joins a list of texts, with a separator between them.
pub fn join(list: &Vec<String>, sep: &str) -> (r: String)
    ensures
        r@ == joined(texts(list@), sep@, list@.len() as int),
{
    let ghost all = texts(list@);
    let mut r = String::new();
    let mut i: usize = 0;
    assert(r@ =~= seq![]);
    while i < list.len()
        invariant
            i <= list@.len(),
            all == texts(list@),
            r@ == joined(all, sep@, i as int),
        decreases list@.len() - i,
    {
        assert(all[i as int] == list@[i as int]@);
        if i > 0 {
            r.append(sep);
        }
        r.append(list[i].as_str());
        assert(r@ =~= joined(all, sep@, i + 1));
        i = i + 1;
    }
    r
}

/// Adds one text to a list.
pub fn add_text(list: &mut Vec<String>, text: String)
    ensures
        texts(final(list)@) == texts(old(list)@).push(text@),
{
    let ghost before = list@;
    list.push(text);
    assert(texts(list@) =~= texts(before).push(text@));
}

/// Writes a label and a number with `dp` decimals behind it.
pub fn labelled(label: &str, x: Decimal, dp: u32) -> (r: String)
    requires
        dp <= MAX_SCALE,
    ensures
        r@ == label@ + fixed(x@, dp as nat),
{
    let mut r = label.to_owned();
    r.append(fixed_text(x, dp).as_str());
    r
}

/// Are the two texts the same?
pub fn same_text(a: &str, b: &str) -> (r: bool)
    ensures
        r == (a@ == b@),
{
    let x = a.to_owned();
    let y = b.to_owned();
    x == y
}

} // verus!
