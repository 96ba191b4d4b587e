//! Decimal coin amounts and their smallest-unit integer form.

use vstd::prelude::*;

verus! {

/// Number of smallest units in one whole coin.
pub const UNITS_PER_COIN: u64 = 1_000_000_000;

/// Why an amount text was not accepted.
#[derive(Clone, Copy, Debug, PartialEq, Eq)]
pub enum AmountError {
    /// The text is not digits with at most one decimal point between digits.
    Malformed,
    /// The amount in smallest units does not fit in a `u64`.
    Overflow,
}

pub open spec fn is_digit(c: char) -> bool {
    '0' <= c && c <= '9'
}

pub open spec fn digit_value(c: char) -> nat {
    (c as int - '0' as int) as nat
}

pub open spec fn all_digits(s: Seq<char>) -> bool {
    forall|i: int| 0 <= i < s.len() ==> is_digit(#[trigger] s[i])
}

/// The number that a run of decimal digits denotes.
pub open spec fn digits_value(s: Seq<char>) -> nat
    decreases s.len(),
{
    if s.len() == 0 {
        0
    } else {
        digits_value(s.drop_last()) * 10 + digit_value(s.last())
    }
}

pub open spec fn pow10(k: nat) -> nat
    decreases k,
{
    if k == 0 {
        1
    } else {
        10 * pow10((k - 1) as nat)
    }
}

/// `n / d` rounded to the nearest integer, halves rounded up.
pub open spec fn round_div(n: nat, d: nat) -> nat {
    ((2 * n + d) / (2 * d)) as nat
}

/// `s` has its decimal point at `p`, with digits on both sides.
pub open spec fn point_at(s: Seq<char>, p: int) -> bool {
    0 < p < s.len() - 1 && s[p] == '.' && all_digits(s.take(p)) && all_digits(s.skip(p + 1))
}

/// A decimal amount: digits, optionally followed by a point and more digits.
pub open spec fn is_amount_text(s: Seq<char>) -> bool {
    (s.len() > 0 && all_digits(s)) || exists|p: int| point_at(s, p)
}

/// The position of the decimal point of a text that has one.
pub open spec fn point_of(s: Seq<char>) -> int {
    choose|p: int| point_at(s, p)
}

/// The digits of an amount text, without its decimal point.
pub open spec fn amount_digits(s: Seq<char>) -> Seq<char> {
    if all_digits(s) {
        s
    } else {
        s.take(point_of(s)) + s.skip(point_of(s) + 1)
    }
}

/// How many digits of an amount text follow its decimal point.
pub open spec fn fraction_len(s: Seq<char>) -> nat {
    if all_digits(s) {
        0
    } else {
        (s.len() - 1 - point_of(s)) as nat
    }
}

/// The amount `A` that the text denotes, as `round(A * 10^9)`.
pub open spec fn amount_units(s: Seq<char>) -> nat {
    round_div(digits_value(amount_digits(s)) * pow10(9), pow10(fraction_len(s)))
}

/// What parsing an amount text gives.
pub open spec fn parse_amount_spec(s: Seq<char>) -> Result<u64, AmountError> {
    if !is_amount_text(s) {
        Err(AmountError::Malformed)
    } else if amount_units(s) > u64::MAX {
        Err(AmountError::Overflow)
    } else {
        Ok(amount_units(s) as u64)
    }
}

pub proof fn lemma_digits_value_push(s: Seq<char>, c: char)
    ensures
        digits_value(s.push(c)) == digits_value(s) * 10 + digit_value(c),
{
    assert(s.push(c).drop_last() =~= s);
}

pub proof fn lemma_digits_value_bound(s: Seq<char>)
    requires
        all_digits(s),
    ensures
        digits_value(s) < pow10(s.len()),
    decreases s.len(),
{
    if s.len() > 0 {
        let t = s.drop_last();
        assert(all_digits(t)) by {
            assert forall|i: int| 0 <= i < t.len() implies is_digit(#[trigger] t[i]) by {
                assert(t[i] == s[i]);
            }
        }
        lemma_digits_value_bound(t);
        assert(is_digit(s[s.len() - 1]));
        let a = digits_value(t);
        let b = pow10(t.len());
        let d = digit_value(s.last());
        assert(a * 10 + d < 10 * b) by (nonlinear_arith)
            requires
                a < b,
                d < 10,
        ;
    }
}

pub proof fn lemma_pow10_mono(j: nat, k: nat)
    requires
        j <= k,
    ensures
        pow10(j) <= pow10(k),
    decreases k,
{
    if j < k {
        lemma_pow10_mono(j, (k - 1) as nat);
    }
}

/// The point of an amount text with one is unique.
proof fn lemma_point_unique(s: Seq<char>, p: int, q: int)
    requires
        point_at(s, p),
        point_at(s, q),
    ensures
        p == q,
{
    if p < q {
        assert(s.skip(p + 1)[q - p - 1] == s[q]);
    } else if q < p {
        assert(s.skip(q + 1)[p - q - 1] == s[p]);
    }
}

/// In a text with its point at `q`, every other character is a digit.
proof fn lemma_point_only_nondigit(s: Seq<char>, q: int, j: int)
    requires
        point_at(s, q),
        0 <= j < s.len(),
        j != q,
    ensures
        is_digit(s[j]),
{
    if j < q {
        assert(s.take(q)[j] == s[j]);
    } else {
        assert(s.skip(q + 1)[j - q - 1] == s[j]);
    }
}

/// A text with a non-digit at `j` that is not a point between digits, or with
/// two points, is no amount text.
proof fn lemma_not_amount(s: Seq<char>, j: int, p: Option<int>)
    requires
        0 <= j < s.len(),
        !is_digit(s[j]),
        s[j] != '.' || j == 0 || j == s.len() - 1 || (p is Some && p->0 != j && 0 <= p->0 < s.len()
            && s[p->0] == '.'),
    ensures
        !is_amount_text(s),
{
    if is_amount_text(s) {
        if !all_digits(s) {
            let q = point_of(s);
            assert(point_at(s, q));
            if j != q {
                lemma_point_only_nondigit(s, q, j);
            }
            if let Some(pp) = p {
                if pp != q {
                    lemma_point_only_nondigit(s, q, pp);
                }
            }
        }
    }
}

pub proof fn lemma_pow10_add(a: nat, b: nat)
    ensures
        pow10(a + b) == pow10(a) * pow10(b),
    decreases a,
{
    if a > 0 {
        lemma_pow10_add((a - 1) as nat, b);
        assert(pow10(a + b) == 10 * pow10((a - 1 + b) as nat));
        let x = pow10((a - 1) as nat);
        assert(pow10(a) == 10 * x);
        let y = pow10(b);
        assert(10 * (x * y) == (10 * x) * y) by (nonlinear_arith);
    } else {
        assert(pow10(0) == 1);
        assert(a + b == b);
    }
}

/// Rounding a fraction `f / p` of a coin to smallest units needs only its
/// first ten decimal digits, `g = f * 10^10 / p`.
proof fn lemma_round_fraction(f: int, p: int)
    requires
        f >= 0,
        p > 0,
    ensures
        (2 * f * 1_000_000_000 + p) / (2 * p) == ((f * 10_000_000_000) / p + 5) / 10,
{
    let k: int = 1_000_000_000;
    let x = f * (10 * k) + 5 * p;
    vstd::arithmetic::div_mod::lemma_hoist_over_denominator(f * (10 * k), 5, p as nat);
    vstd::arithmetic::div_mod::lemma_div_denominator(x, p, 10);
    vstd::arithmetic::div_mod::lemma_div_multiples_vanish_quotient(5, 2 * f * k + p, 2 * p);
    assert(5 * (2 * f * k + p) == x) by (nonlinear_arith)
        requires
            x == f * (10 * k) + 5 * p,
    ;
    assert(5 * (2 * p) == p * 10) by (nonlinear_arith);
    assert(f * (10 * k) == f * 10_000_000_000) by (nonlinear_arith)
        requires
            k == 1_000_000_000,
    ;
}

/// The units of `a + f / p` coins: the whole coins scaled, plus the rounded
/// fraction.
proof fn lemma_units_split(a: int, f: int, p: int)
    requires
        a >= 0,
        f >= 0,
        p > 0,
    ensures
        round_div(((a * p + f) * 1_000_000_000) as nat, p as nat) == a * 1_000_000_000 + ((f
            * 10_000_000_000) / p + 5) / 10,
{
    let k: int = 1_000_000_000;
    assert(a * p + f >= 0) by (nonlinear_arith)
        requires
            a >= 0,
            f >= 0,
            p > 0,
    ;
    assert(2 * ((a * p + f) * k) + p == (2 * f * k + p) + (a * k) * (2 * p)) by (nonlinear_arith);
    vstd::arithmetic::div_mod::lemma_hoist_over_denominator(2 * f * k + p, a * k, (2 * p) as nat);
    lemma_round_fraction(f, p);
}

/// With more than ten fraction digits, the first ten are what count.
proof fn lemma_first_ten_digits(f: int, f10: int, r: int, d: int)
    requires
        f == f10 * d + r,
        0 <= r < d,
        f10 >= 0,
    ensures
        (f * 10_000_000_000) / (10_000_000_000 * d) == f10,
{
    assert(f >= 0) by (nonlinear_arith)
        requires
            f == f10 * d + r,
            0 <= r < d,
            f10 >= 0,
    ;
    vstd::arithmetic::div_mod::lemma_div_multiples_vanish_quotient(10_000_000_000, f, d);
    assert(10_000_000_000 * f == f * 10_000_000_000);
    vstd::arithmetic::div_mod::lemma_fundamental_div_mod_converse(f, d, f10, r);
}

proof fn lemma_all_digits_sub(s: Seq<char>, i: int, j: int)
    requires
        all_digits(s),
        0 <= i <= j <= s.len(),
    ensures
        all_digits(s.subrange(i, j)),
{
    assert forall|k: int| 0 <= k < j - i implies is_digit(#[trigger] s.subrange(i, j)[k]) by {
        assert(s.subrange(i, j)[k] == s[i + k]);
    }
}

/// Whole coins from which on no amount fits in a `u64` of smallest units.
const WHOLE_COINS_LIMIT: u64 = 18_446_744_074;

/// Parses a decimal amount of coins (`"1"`, `"0.5"`, `"12.000000001"`) into
/// smallest units, rounding to the nearest unit with halves rounded up.
#[verifier::rlimit(60)]
pub fn parse_amount(s: &str) -> (r: Result<u64, AmountError>)
    ensures
        r == parse_amount_spec(s@),
{
    let n: usize = s.unicode_len();
    let ghost t = s@;
    let mut i: usize = 0;
    let mut point: Option<usize> = None;
    let mut bad = false;
    while i < n
        invariant
            n == t.len(),
            t == s@,
            i <= n,
            bad ==> !is_amount_text(t),
            !bad ==> match point {
                None => all_digits(t.take(i as int)),
                Some(p) => p < i && t[p as int] == '.' && 0 < p && all_digits(t.take(p as int))
                    && all_digits(t.subrange(p + 1, i as int)),
            },
        decreases n - i,
    {
        let c = s.get_char(i);
        if !bad {
            if '0' <= c && c <= '9' {
                proof {
                    match point {
                        None => {
                            assert(t.take(i + 1) =~= t.take(i as int).push(c));
                        },
                        Some(p) => {
                            assert(t.subrange(p + 1, i + 1) =~= t.subrange(p + 1, i as int).push(c));
                        },
                    }
                }
            } else if c == '.' && point.is_none() && i > 0 {
                point = Some(i);
                proof {
                    assert(t.subrange(i + 1, i + 1) =~= Seq::<char>::empty());
                }
            } else {
                proof {
                    let pp: Option<int> = match point {
                        Some(p) => Some(p as int),
                        None => None,
                    };
                    lemma_not_amount(t, i as int, pp);
                }
                bad = true;
            }
        }
        i = i + 1;
    }
    proof {
        assert(t.take(n as int) =~= t);
    }
    if bad {
        return Err(AmountError::Malformed);
    }
    // The whole part is `t[..wl]`, the fraction `t[fs..]`.
    let (wl, fs): (usize, usize) = match point {
        Some(p) => {
            if p + 1 == n {
                proof {
                    lemma_not_amount(t, p as int, None);
                }
                return Err(AmountError::Malformed);
            }
            (p, p + 1)
        },
        None => {
            if n == 0 {
                return Err(AmountError::Malformed);
            }
            (n, n)
        },
    };
    let f: usize = n - fs;
    let ghost a = t.take(wl as int);
    let ghost b = t.skip(fs as int);
    proof {
        if let Some(p) = point {
            assert(t.subrange(p + 1, n as int) =~= t.skip(p + 1));
            assert(point_at(t, p as int));
            lemma_point_unique(t, p as int, point_of(t));
            assert(!all_digits(t) && t[p as int] == '.');
        } else {
            assert(b =~= Seq::<char>::empty());
            assert(a =~= t);
            assert(t + b =~= t);
        }
        assert(is_amount_text(t));
        assert(amount_digits(t) == a + b);
        assert(fraction_len(t) == f);
        assert(all_digits(a));
        assert(all_digits(b));
        assert(b.len() == f);
    }
    // Whole coins, up to the limit.
    let mut w: u64 = 0;
    let mut big = false;
    let mut j: usize = 0;
    while j < wl
        invariant
            t == s@,
            wl <= n == t.len(),
            a == t.take(wl as int),
            all_digits(a),
            j <= wl,
            !big ==> w == digits_value(a.take(j as int)) && w < WHOLE_COINS_LIMIT,
            big ==> digits_value(a.take(j as int)) >= WHOLE_COINS_LIMIT,
        decreases wl - j,
    {
        let c = s.get_char(j);
        proof {
            assert(c == a[j as int]);
            assert(is_digit(a[j as int]));
            assert(a.take(j + 1) =~= a.take(j as int).push(c));
            lemma_digits_value_push(a.take(j as int), c);
        }
        if !big {
            let nw: u64 = w * 10 + (c as u64 - '0' as u64);
            if nw >= WHOLE_COINS_LIMIT {
                big = true;
            } else {
                w = nw;
            }
        }
        j = j + 1;
    }
    proof {
        assert(a.take(wl as int) =~= a);
        lemma_digits_value_concat(a, b);
        lemma_pow10_mono(0, f as nat);
        reveal_with_fuel(pow10, 11);
        lemma_units_split(digits_value(a) as int, digits_value(b) as int, pow10(f as nat) as int);
    }
    // The first ten fraction digits, as tenths of a smallest unit.
    let ten: usize = if f < 10 {
        f
    } else {
        10
    };
    let mut g: u64 = 0;
    let mut k: usize = 0;
    while k < ten
        invariant
            t == s@,
            fs + f == n == t.len(),
            b == t.skip(fs as int),
            b.len() == f,
            all_digits(b),
            ten <= f,
            ten <= 10,
            k <= ten,
            g == digits_value(b.take(k as int)),
            pow10(10) == 10_000_000_000,
        decreases ten - k,
    {
        let c = s.get_char(fs + k);
        proof {
            assert(c == b[k as int]);
            assert(is_digit(b[k as int]));
            assert(b.take(k + 1) =~= b.take(k as int).push(c));
            lemma_digits_value_push(b.take(k as int), c);
            lemma_all_digits_sub(b, 0, k as int);
            assert(b.take(k as int) == b.subrange(0, k as int));
            lemma_digits_value_bound(b.take(k as int));
            lemma_pow10_mono(k as nat, 9);
        }
        g = g * 10 + (c as u64 - '0' as u64);
        k = k + 1;
    }
    let ghost g0 = g;
    proof {
        lemma_all_digits_sub(b, 0, ten as int);
        assert(b.take(ten as int) == b.subrange(0, ten as int));
        lemma_digits_value_bound(b.take(ten as int));
        assert(pow10(0) == 1);
        assert(k == ten);
        assert(g0 * 1 == g0);
        assert(g == g0 * pow10((k - ten) as nat));
    }
    while k < 10
        invariant
            ten <= k <= 10,
            g == g0 * pow10((k - ten) as nat),
            g0 == digits_value(b.take(ten as int)),
            g0 < pow10(ten as nat),
            ten <= 10,
            pow10(10) == 10_000_000_000,
        decreases 10 - k,
    {
        proof {
            lemma_pow10_add(ten as nat, (k - ten) as nat);
            lemma_pow10_mono(0, (k - ten) as nat);
            assert(g0 * pow10((k - ten) as nat) < pow10(ten as nat) * pow10((k - ten) as nat))
                by (nonlinear_arith)
                requires
                    g0 < pow10(ten as nat),
                    pow10((k - ten) as nat) > 0,
            {
            }
            lemma_pow10_mono(k as nat, 9);
            lemma_pow10_mono(0, (k - ten) as nat);
            assert(pow10((k + 1 - ten) as nat) == 10 * pow10((k - ten) as nat));
            assert(g * 10 == g0 * pow10((k + 1 - ten) as nat)) by (nonlinear_arith)
                requires
                    g == g0 * pow10((k - ten) as nat),
                    pow10((k + 1 - ten) as nat) == 10 * pow10((k - ten) as nat),
            ;
        }
        g = g * 10;
        k = k + 1;
    }
    proof {
        let fv = digits_value(b) as int;
        if f <= 10 {
            assert(b.take(f as int) =~= b);
            lemma_pow10_add((10 - f) as nat, f as nat);
            let e = pow10((10 - f) as nat) as int;
            let p = pow10(f as nat) as int;
            vstd::arithmetic::div_mod::lemma_div_by_multiple(fv * e, p);
            assert(fv * 10_000_000_000 == fv * e * p) by (nonlinear_arith)
                requires
                    e * p == 10_000_000_000,
            ;
            assert(g as int == fv * e);
        } else {
            let b10 = b.take(10);
            let rest = b.skip(10);
            assert(b =~= b10 + rest);
            lemma_digits_value_concat(b10, rest);
            lemma_all_digits_sub(b, 10, f as int);
            assert(rest == b.subrange(10, f as int));
            lemma_digits_value_bound(rest);
            lemma_pow10_add(10, (f - 10) as nat);
            assert(pow10(0) == 1);
            assert(ten == 10 && k == 10);
            assert(pow10(0) == 1);
            assert(g == g0 * 1);
            assert(g as int == digits_value(b10));
            lemma_first_ten_digits(fv, g as int, digits_value(rest) as int, pow10((f - 10) as nat) as int);
        }
        assert(g as int == (fv * 10_000_000_000) / pow10(f as nat) as int);
        assert(amount_units(t) == digits_value(a) * 1_000_000_000 + (g + 5) / 10);
        assert(pow10(9) == 1_000_000_000);
    }
    if big {
        return Err(AmountError::Overflow);
    }
    let q: u128 = w as u128 * 1_000_000_000 + (g as u128 + 5) / 10;
    if q > u64::MAX as u128 {
        Err(AmountError::Overflow)
    } else {
        Ok(q as u64)
    }
}

pub open spec fn digit_char(d: nat) -> char {
    ('0' as int + d) as char
}

/// The decimal digits of `n`, without leading zeros (`"0"` for zero).
pub open spec fn decimal_text(n: nat) -> Seq<char>
    decreases n,
{
    if n < 10 {
        seq![digit_char(n)]
    } else {
        decimal_text(n / 10).push(digit_char(n % 10))
    }
}

/// The last `k` decimal digits of `n`, with leading zeros.
pub open spec fn padded_text(n: nat, k: nat) -> Seq<char>
    decreases k,
{
    if k == 0 {
        Seq::empty()
    } else {
        padded_text(n / 10, (k - 1) as nat).push(digit_char(n % 10))
    }
}

/// An amount of smallest units written in whole coins, with all nine
/// fraction digits: `1500000000` is `"1.500000000"`.
pub open spec fn units_text(u: nat) -> Seq<char> {
    decimal_text(u / 1_000_000_000) + seq!['.'] + padded_text(u % 1_000_000_000, 9)
}

fn digit_string(d: u64) -> (r: String)
    requires
        d < 10,
    ensures
        r@ == seq![digit_char(d as nat)],
{
    let lit: &str = if d == 0 {
        "0"
    } else if d == 1 {
        "1"
    } else if d == 2 {
        "2"
    } else if d == 3 {
        "3"
    } else if d == 4 {
        "4"
    } else if d == 5 {
        "5"
    } else if d == 6 {
        "6"
    } else if d == 7 {
        "7"
    } else if d == 8 {
        "8"
    } else {
        "9"
    };
    proof {
        reveal_strlit("0");
        reveal_strlit("1");
        reveal_strlit("2");
        reveal_strlit("3");
        reveal_strlit("4");
        reveal_strlit("5");
        reveal_strlit("6");
        reveal_strlit("7");
        reveal_strlit("8");
        reveal_strlit("9");
    }
    let r = String::from_str(lit);
    proof {
        assert(r@ =~= seq![digit_char(d as nat)]);
    }
    r
}

/// Writes an amount of smallest units in whole coins, the inverse of
/// `parse_amount`: `1500000000` gives `"1.500000000"`.
pub fn format_units(u: u64) -> (r: String)
    ensures
        r@ == units_text(u as nat),
{
    let mut frac: u64 = u % UNITS_PER_COIN;
    let mut txt = String::new();
    let mut k: u64 = 0;
    while k < 9
        invariant
            k <= 9,
            padded_text((u % 1_000_000_000) as nat, 9) == padded_text(frac as nat, (9 - k) as nat)
                + txt@,
        decreases 9 - k,
    {
        let ghost before = txt@;
        let d = digit_string(frac % 10);
        txt = d.concat(txt.as_str());
        proof {
            assert(padded_text(frac as nat, (9 - k) as nat) == padded_text((frac / 10) as nat, (8
                - k) as nat).push(digit_char((frac % 10) as nat)));
            assert(padded_text((frac / 10) as nat, (8 - k) as nat).push(
                digit_char((frac % 10) as nat),
            ) + before =~= padded_text((frac / 10) as nat, (8 - k) as nat) + txt@);
        }
        frac = frac / 10;
        k = k + 1;
    }
    proof {
        assert(padded_text(frac as nat, 0) =~= Seq::<char>::empty());
        assert(Seq::<char>::empty() + txt@ =~= txt@);
    }
    let point = String::from_str(".");
    proof {
        reveal_strlit(".");
    }
    txt = point.concat(txt.as_str());
    let mut whole: u64 = u / UNITS_PER_COIN;
    proof {
        assert(seq!['.'] + padded_text((u % 1_000_000_000) as nat, 9) =~= txt@);
    }
    while whole >= 10
        invariant
            units_text(u as nat) == decimal_text(whole as nat) + txt@,
        decreases whole,
    {
        let ghost before = txt@;
        let d = digit_string(whole % 10);
        txt = d.concat(txt.as_str());
        proof {
            assert(decimal_text(whole as nat) == decimal_text((whole / 10) as nat).push(
                digit_char((whole % 10) as nat),
            ));
            assert(decimal_text((whole / 10) as nat).push(digit_char((whole % 10) as nat)) + before
                =~= decimal_text((whole / 10) as nat) + txt@);
        }
        whole = whole / 10;
    }
    let d = digit_string(whole);
    let r = d.concat(txt.as_str());
    proof {
        assert(units_text(u as nat) =~= r@);
    }
    r
}

proof fn lemma_digit_char(d: nat)
    requires
        d < 10,
    ensures
        is_digit(digit_char(d)),
        digit_value(digit_char(d)) == d,
{
}

proof fn lemma_decimal_text_digits(n: nat)
    ensures
        all_digits(decimal_text(n)),
        digits_value(decimal_text(n)) == n,
        decimal_text(n).len() >= 1,
    decreases n,
{
    if n >= 10 {
        lemma_decimal_text_digits(n / 10);
        lemma_digit_char(n % 10);
        lemma_digits_value_push(decimal_text(n / 10), digit_char(n % 10));
        assert(n == (n / 10) * 10 + n % 10);
        let t = decimal_text(n);
        assert forall|i: int| 0 <= i < t.len() implies is_digit(#[trigger] t[i]) by {
            if i < t.len() - 1 {
                assert(t[i] == decimal_text(n / 10)[i]);
            }
        }
    } else {
        lemma_digit_char(n);
        assert(seq![digit_char(n)].drop_last() =~= Seq::<char>::empty());
        assert(digits_value(Seq::<char>::empty()) == 0);
    }
}

proof fn lemma_padded_text_digits(n: nat, k: nat)
    ensures
        all_digits(padded_text(n, k)),
        digits_value(padded_text(n, k)) == n % pow10(k),
        padded_text(n, k).len() == k,
    decreases k,
{
    if k > 0 {
        lemma_padded_text_digits(n / 10, (k - 1) as nat);
        lemma_digit_char(n % 10);
        lemma_pow10_mono(0, (k - 1) as nat);
        let t = padded_text(n, k);
        assert forall|i: int| 0 <= i < t.len() implies is_digit(#[trigger] t[i]) by {
            if i < t.len() - 1 {
                assert(t[i] == padded_text(n / 10, (k - 1) as nat)[i]);
            }
        }
        lemma_digits_value_push(padded_text(n / 10, (k - 1) as nat), digit_char(n % 10));
        vstd::arithmetic::div_mod::lemma_breakdown(n as int, 10, pow10((k - 1) as nat) as int);
    }
}

proof fn lemma_digits_value_concat(a: Seq<char>, b: Seq<char>)
    ensures
        digits_value(a + b) == digits_value(a) * pow10(b.len()) + digits_value(b),
    decreases b.len(),
{
    if b.len() > 0 {
        let b0 = b.drop_last();
        let c = b.last();
        lemma_digits_value_concat(a, b0);
        assert(a + b =~= (a + b0).push(c));
        assert(b =~= b0.push(c));
        lemma_digits_value_push(a + b0, c);
        lemma_digits_value_push(b0, c);
        let va = digits_value(a);
        let vb = digits_value(b0);
        let p = pow10(b0.len());
        let dc = digit_value(c);
        assert(pow10(b.len()) == 10 * p);
        assert((va * p + vb) * 10 + dc == va * (10 * p) + (vb * 10 + dc)) by (nonlinear_arith);
        assert(digits_value(a + b) == digits_value(a + b0) * 10 + dc);
        assert(digits_value(b) == vb * 10 + dc);
        assert(digits_value(a + b0) == va * p + vb);
    } else {
        assert(a + b =~= a);
        assert(pow10(0) == 1);
        assert(digits_value(b) == 0);
        assert(digits_value(a) * 1 == digits_value(a));
    }
}

/// Writing an amount of smallest units with `format_units` and parsing the
/// text back with `parse_amount` gives the same amount.
pub proof fn lemma_units_text_round_trip(u: u64)
    ensures
        parse_amount_spec(units_text(u as nat)) == Ok::<u64, AmountError>(u),
{
    let w: nat = (u / 1_000_000_000) as nat;
    let f: nat = (u % 1_000_000_000) as nat;
    let a = decimal_text(w);
    let b = padded_text(f, 9);
    let s = units_text(u as nat);
    reveal_with_fuel(pow10, 12);
    lemma_decimal_text_digits(w);
    lemma_padded_text_digits(f, 9);
    let l = a.len() as int;
    assert(s.take(l) =~= a);
    assert(s.skip(l + 1) =~= b);
    assert(point_at(s, l));
    lemma_point_unique(s, l, point_of(s));
    assert(!all_digits(s) && s[l] == '.');
    assert(amount_digits(s) == a + b);
    assert(fraction_len(s) == 9);
    lemma_digits_value_concat(a, b);
    vstd::arithmetic::div_mod::lemma_small_mod(f, pow10(9));
    assert(pow10(9) == 1_000_000_000);
    assert(digits_value(b) == f);
    assert(w * 1_000_000_000 + f == u);
    assert(digits_value(a + b) == u);
    let k: int = 1_000_000_000;
    vstd::arithmetic::div_mod::lemma_fundamental_div_mod_converse(
        2 * u * k + k,
        2 * k,
        u as int,
        k,
    );
}

/// Scaling an amount text, writing the units back in whole coins and
/// scaling that text again gives the same units.
pub proof fn lemma_scaling_is_idempotent(s: Seq<char>)
    requires
        parse_amount_spec(s) is Ok,
    ensures
        parse_amount_spec(units_text(parse_amount_spec(s)->Ok_0 as nat)) == parse_amount_spec(s),
{
    lemma_units_text_round_trip(parse_amount_spec(s)->Ok_0);
}

} // verus!
