//! Money amounts as integer cents, and their two-decimal text form.
use crate::text::{
    all_digits,
    chars_of,
    is_digit,
    is_white_space,
    is_whitespace,
    string_of_chars,
};
use vstd::prelude::*;

verus! {

/// Money in minor currency units: 100 cents make one unit.
pub type Cents = i64;

#[derive(Clone, Copy, Debug, PartialEq, Eq, Structural)]
pub enum ParseCentsError {
    InvalidFormat,
}

/// Saturation bound for the whole-unit part while parsing: any amount with
/// this many units is already beyond the range of `Cents`.
const UNITS_CAP: u64 = 1_000_000_000_000_000_000;

pub open spec fn abs_int(x: int) -> int {
    if x < 0 {
        -x
    } else {
        x
    }
}

pub open spec fn digit_value(c: char) -> int {
    c as int - 48
}

pub open spec fn digit_char(d: int) -> char {
    ((d + 48) as u8) as char
}

/// The number written by a string of decimal digits (0 for the empty string).
pub open spec fn digits_value(s: Seq<char>) -> int
    decreases s.len(),
{
    if s.len() == 0 {
        0
    } else {
        digits_value(s.drop_last()) * 10 + digit_value(s.last())
    }
}

/// The decimal digits of `n`, without leading zeros.
pub open spec fn decimal_digits(n: nat) -> Seq<char>
    decreases n,
{
    if n < 10 {
        seq![digit_char(n as int)]
    } else {
        decimal_digits(n / 10).push(digit_char((n % 10) as int))
    }
}

/// The canonical text of an amount: an optional `-`, the whole units, a `.`
/// and exactly two digits of cents.
pub open spec fn money_text(c: int) -> Seq<char> {
    let m = abs_int(c);
    let sign: Seq<char> = if c < 0 {
        seq!['-']
    } else {
        seq![]
    };
    sign + decimal_digits((m / 100) as nat) + seq!['.', digit_char((m % 100) / 10), digit_char(m % 10)]
}

pub open spec fn trim_start_ws(s: Seq<char>) -> Seq<char>
    decreases s.len(),
{
    if s.len() > 0 && is_white_space(s[0]) {
        trim_start_ws(s.drop_first())
    } else {
        s
    }
}

pub open spec fn trim_end_ws(s: Seq<char>) -> Seq<char>
    decreases s.len(),
{
    if s.len() > 0 && is_white_space(s.last()) {
        trim_end_ws(s.drop_last())
    } else {
        s
    }
}

/// `s` without the one `-` it may start with.
pub open spec fn strip_minus(s: Seq<char>) -> Seq<char> {
    if s.len() > 0 && s[0] == '-' {
        s.drop_first()
    } else {
        s
    }
}

/// Cents written after the decimal point: one digit counts tens of cents,
/// digits beyond the second are cut off.
pub open spec fn fraction_cents(f: Seq<char>) -> int {
    if f.len() == 0 {
        0
    } else if f.len() == 1 {
        digit_value(f[0]) * 10
    } else {
        digit_value(f[0]) * 10 + digit_value(f[1])
    }
}

/// The amount written by an unsigned money text, if it is one: digits alone,
/// or digits (possibly none), one `.` and digits.
pub open spec fn unsigned_money_amount(b: Seq<char>) -> Option<int> {
    if !b.contains('.') {
        if b.len() > 0 && all_digits(b) {
            Some(digits_value(b) * 100)
        } else {
            None
        }
    } else {
        let p = b.index_of('.');
        let whole = b.subrange(0, p);
        let frac = b.subrange(p + 1, b.len() as int);
        if all_digits(whole) && all_digits(frac) {
            Some(digits_value(whole) * 100 + fraction_cents(frac))
        } else {
            None
        }
    }
}

/// The amount in cents that a money text denotes, if it is well formed:
/// white space around it is ignored and one leading `-` makes it negative.
pub open spec fn money_amount(s: Seq<char>) -> Option<int> {
    let t = trim_end_ws(trim_start_ws(s));
    match unsigned_money_amount(strip_minus(t)) {
        Some(m) => Some(
            if t.len() > 0 && t[0] == '-' {
                -m
            } else {
                m
            },
        ),
        None => None,
    }
}

fn digit_of(d: u64) -> (c: char)
    requires
        d < 10,
    ensures
        c == digit_char(d as int),
        is_digit(c),
        digit_value(c) == d,
{
    ((d as u8) + 48) as char
}

fn push_decimal(n: u64, out: &mut Vec<char>)
    ensures
        final(out)@ == old(out)@ + decimal_digits(n as nat),
    decreases n,
{
    if n >= 10 {
        push_decimal(n / 10, out);
    }
    out.push(digit_of(n % 10));
    assert(final(out)@ =~= old(out)@ + decimal_digits(n as nat));
}

/// The canonical text of an amount, such as `"50.00"` or `"-0.01"`.
pub fn format_cents(cents: Cents) -> (r: String)
    ensures
        r@ == money_text(cents as int),
{
    let mut v: Vec<char> = Vec::new();
    if cents < 0 {
        v.push('-');
    }
    let m: u64 = if cents < 0 {
        (0 - (cents as i128)) as u64
    } else {
        cents as u64
    };
    push_decimal(m / 100, &mut v);
    v.push('.');
    let rest = m % 100;
    v.push(digit_of(rest / 10));
    v.push(digit_of(rest % 10));
    assert(v@ =~= money_text(cents as int));
    string_of_chars(&v)
}

proof fn lemma_digits_value_nonneg(s: Seq<char>)
    requires
        all_digits(s),
    ensures
        digits_value(s) >= 0,
    decreases s.len(),
{
    if s.len() > 0 {
        assert(all_digits(s.drop_last()));
        lemma_digits_value_nonneg(s.drop_last());
        assert(is_digit(s[s.len() - 1]));
    }
}

/// Reads the digits `v[lo..hi]`; the value saturates at `UNITS_CAP`.
fn read_digits(v: &Vec<char>, lo: usize, hi: usize) -> (r: Option<u64>)
    requires
        lo <= hi <= v@.len(),
    ensures
        r is Some <==> all_digits(v@.subrange(lo as int, hi as int)),
        r matches Some(x) ==> x == if digits_value(v@.subrange(lo as int, hi as int))
            < UNITS_CAP {
            digits_value(v@.subrange(lo as int, hi as int))
        } else {
            UNITS_CAP as int
        },
{
    let mut acc: u64 = 0;
    let mut i: usize = lo;
    while i < hi
        invariant
            lo <= i <= hi <= v@.len(),
            all_digits(v@.subrange(lo as int, i as int)),
            acc == if digits_value(v@.subrange(lo as int, i as int)) < UNITS_CAP {
                digits_value(v@.subrange(lo as int, i as int))
            } else {
                UNITS_CAP as int
            },
        decreases hi - i,
    {
        let c = v[i];
        let ghost prefix = v@.subrange(lo as int, i as int);
        let ghost next = v@.subrange(lo as int, i + 1);
        assert(next.drop_last() =~= prefix);
        if !('0' <= c && c <= '9') {
            assert(v@.subrange(lo as int, hi as int)[i - lo] == c);
            return None;
        }
        proof {
            lemma_digits_value_nonneg(prefix);
        }
        let d: u64 = (c as u32 - 48) as u64;
        let grown = acc * 10 + d;
        acc = if grown < UNITS_CAP {
            grown
        } else {
            UNITS_CAP
        };
        i = i + 1;
        assert(all_digits(v@.subrange(lo as int, i as int)));
    }
    Some(acc)
}

/// The bounds of `v` once white space is trimmed from both ends.
fn trimmed_range(v: &Vec<char>) -> (r: (usize, usize))
    ensures
        r.0 <= r.1 <= v@.len(),
        v@.subrange(r.0 as int, r.1 as int) == trim_end_ws(trim_start_ws(v@)),
{
    let n = v.len();
    let ghost s = v@;
    let mut lo: usize = 0;
    assert(s.subrange(0, n as int) =~= s);
    loop
        invariant
            lo <= n,
            n == s.len(),
            s == v@,
            trim_start_ws(s) == trim_start_ws(s.subrange(lo as int, n as int)),
        ensures
            lo <= n,
            trim_start_ws(s) == trim_start_ws(s.subrange(lo as int, n as int)),
            lo == n || !is_white_space(s[lo as int]),
        decreases n - lo,
    {
        if lo < n && is_whitespace(v[lo]) {
            assert(s.subrange(lo as int, n as int).drop_first() =~= s.subrange(lo + 1, n as int));
            lo = lo + 1;
        } else {
            break;
        }
    }
    let ghost after_start = s.subrange(lo as int, n as int);
    assert(trim_start_ws(after_start) == after_start);
    let mut hi: usize = n;
    loop
        invariant
            lo <= hi <= n,
            n == s.len(),
            s == v@,
            trim_end_ws(after_start) == trim_end_ws(s.subrange(lo as int, hi as int)),
        ensures
            lo <= hi <= n,
            trim_end_ws(after_start) == trim_end_ws(s.subrange(lo as int, hi as int)),
            hi == lo || !is_white_space(s[hi - 1]),
        decreases hi - lo,
    {
        if hi > lo && is_whitespace(v[hi - 1]) {
            assert(s.subrange(lo as int, hi as int).drop_last() =~= s.subrange(
                lo as int,
                hi - 1,
            ));
            hi = hi - 1;
        } else {
            break;
        }
    }
    let ghost t = s.subrange(lo as int, hi as int);
    assert(trim_end_ws(t) == t);
    (lo, hi)
}

/// Reads the unsigned money text `v[k..hi]`; amounts of `UNITS_CAP` whole
/// units or more come back as some value at least that large.
fn read_unsigned(v: &Vec<char>, k: usize, hi: usize) -> (r: Option<u128>)
    requires
        k <= hi <= v@.len(),
    ensures
        r is Some <==> unsigned_money_amount(v@.subrange(k as int, hi as int)) is Some,
        r matches Some(x) ==> {
            let a = unsigned_money_amount(v@.subrange(k as int, hi as int))->0;
            &&& a < UNITS_CAP * 100 ==> x == a
            &&& a >= UNITS_CAP * 100 ==> x >= UNITS_CAP * 100
        },
{
    let ghost s = v@;
    let ghost body = s.subrange(k as int, hi as int);
    let mut p: usize = k;
    while p < hi && v[p] != '.'
        invariant
            k <= p <= hi <= s.len(),
            s == v@,
            forall|j: int| k <= j < p ==> s[j] != '.',
        decreases hi - p,
    {
        p = p + 1;
    }
    if p == hi {
        assert(!body.contains('.')) by {
            if body.contains('.') {
                let j = choose|j: int| 0 <= j < body.len() && body[j] == '.';
                assert(s[k + j] == '.');
            }
        }
        if k == hi {
            return None;
        }
        match read_digits(v, k, hi) {
            Some(u) => {
                proof {
                    lemma_digits_value_nonneg(body);
                }
                Some(u as u128 * 100)
            },
            None => None,
        }
    } else {
        let ghost q = body.index_of('.');
        assert(body[p - k] == '.');
        assert(body.contains('.'));
        let ghost whole = s.subrange(k as int, p as int);
        let ghost frac = s.subrange(p + 1, hi as int);
        let w = read_digits(v, k, p);
        let f = read_digits(v, p + 1, hi);
        if w.is_none() || f.is_none() {
            assert(unsigned_money_amount(body) is None) by {
                if all_digits(body.subrange(0, q)) && all_digits(
                    body.subrange(q + 1, body.len() as int),
                ) {
                    if q < p - k {
                        assert(body.subrange(q + 1, body.len() as int)[p - k - q - 1] == '.');
                    } else if q > p - k {
                        assert(body.subrange(0, q)[p - k] == '.');
                    }
                    assert(body.subrange(0, q) =~= whole);
                    assert(body.subrange(q + 1, body.len() as int) =~= frac);
                }
            }
            return None;
        }
        assert(q == p - k) by {
            if q < p - k {
                assert(s[k + q] == '.');
            } else if q > p - k {
                assert(body.subrange(q + 1, body.len() as int) =~= s.subrange(
                    k + q + 1,
                    hi as int,
                ));
                assert(frac[q - (p - k) - 1] == '.');
            }
        }
        assert(body.subrange(0, q) =~= whole);
        assert(body.subrange(q + 1, body.len() as int) =~= frac);
        proof {
            lemma_digits_value_nonneg(whole);
        }
        let units = w.unwrap();
        let flen = hi - (p + 1);
        let cents_part: u64;
        if flen == 0 {
            cents_part = 0;
        } else if flen == 1 {
            assert(is_digit(frac[0]));
            cents_part = (v[p + 1] as u32 - 48) as u64 * 10;
        } else {
            assert(is_digit(frac[0]));
            assert(is_digit(frac[1]));
            cents_part = (v[p + 1] as u32 - 48) as u64 * 10 + (v[p + 2] as u32 - 48) as u64;
        }
        assert(fraction_cents(frac) == cents_part);
        Some(units as u128 * 100 + cents_part as u128)
    }
}

/// Parses a money text into cents: `"12.5"` is 1250, `"100.999"` is 10099
/// (digits beyond the second decimal are cut off, never rounded), `".50"` is
/// 50. Fails on any other character, on more than one `.`, and where the
/// amount does not fit in `Cents`.
pub fn parse_cents(input: &str) -> (r: Result<Cents, ParseCentsError>)
    ensures
        r is Ok <==> (money_amount(input@) matches Some(a) && i64::MIN <= a <= i64::MAX),
        r matches Ok(c) ==> money_amount(input@) == Some(c as int),
{
    let v = chars_of(input);
    let (lo, hi) = trimmed_range(&v);
    let ghost t = v@.subrange(lo as int, hi as int);
    let negative = hi > lo && v[lo] == '-';
    let k: usize = if negative {
        lo + 1
    } else {
        lo
    };
    assert(strip_minus(t) =~= v@.subrange(k as int, hi as int));
    match read_unsigned(&v, k, hi) {
        None => Err(ParseCentsError::InvalidFormat),
        Some(magnitude) => {
            if negative {
                if magnitude <= 9223372036854775808 {
                    Ok((0 - (magnitude as i128)) as i64)
                } else {
                    Err(ParseCentsError::InvalidFormat)
                }
            } else {
                if magnitude <= 9223372036854775807 {
                    Ok(magnitude as i64)
                } else {
                    Err(ParseCentsError::InvalidFormat)
                }
            }
        },
    }
}

proof fn lemma_digit_char(d: int)
    requires
        0 <= d < 10,
    ensures
        is_digit(digit_char(d)),
        digit_value(digit_char(d)) == d,
        !is_white_space(digit_char(d)),
        digit_char(d) != '-',
        digit_char(d) != '.',
{
}

proof fn lemma_decimal_digits(n: nat)
    ensures
        decimal_digits(n).len() >= 1,
        all_digits(decimal_digits(n)),
        digits_value(decimal_digits(n)) == n,
    decreases n,
{
    let d = decimal_digits(n);
    if n < 10 {
        lemma_digit_char(n as int);
        assert(d.drop_last() =~= Seq::<char>::empty());
        assert(digits_value(d.drop_last()) == 0);
        assert(digits_value(d) == digits_value(d.drop_last()) * 10 + digit_value(d.last()));
    } else {
        lemma_decimal_digits(n / 10);
        lemma_digit_char((n % 10) as int);
        assert(d.drop_last() =~= decimal_digits(n / 10));
        assert(d.last() == digit_char((n % 10) as int));
        assert((n / 10) * 10 + n % 10 == n);
        assert(digits_value(d) == digits_value(d.drop_last()) * 10 + digit_value(d.last()));
        assert forall|i: int| 0 <= i < d.len() implies is_digit(#[trigger] d[i]) by {
            if i < d.len() - 1 {
                assert(d[i] == decimal_digits(n / 10)[i]);
            }
        }
    }
}

/// Digits, a `.` and more digits read as whole units and cents.
proof fn lemma_fraction(digits: Seq<char>, frac: Seq<char>)
    requires
        all_digits(digits),
        all_digits(frac),
    ensures
        unsigned_money_amount(digits + seq!['.'] + frac) == Some(
            digits_value(digits) * 100 + fraction_cents(frac),
        ),
{
    let body = digits + seq!['.'] + frac;
    let dot = digits.len() as int;
    assert(body[dot] == '.');
    assert(body.contains('.'));
    let q = body.index_of('.');
    assert(q == dot) by {
        if q < dot {
            assert(body[q] == digits[q]);
        } else if q > dot {
            assert(body[q] == frac[q - dot - 1]);
        }
    }
    assert(body.subrange(0, q) =~= digits);
    assert(body.subrange(q + 1, body.len() as int) =~= frac);
}

/// Digits beyond the second decimal are cut off, never rounded: the text
/// `whole.frac` reads as `whole` units and the first two digits of `frac`.
pub proof fn lemma_parse_truncates(whole: Seq<char>, frac: Seq<char>)
    requires
        whole.len() > 0,
        all_digits(whole),
        all_digits(frac),
        frac.len() >= 2,
    ensures
        money_amount(whole + seq!['.'] + frac) == Some(
            digits_value(whole) * 100 + digit_value(frac[0]) * 10 + digit_value(frac[1]),
        ),
        money_amount(whole + seq!['.'] + frac) == money_amount(whole + seq!['.'] + frac.take(2)),
{
    lemma_truncated_amount(whole, frac);
    let two = frac.take(2);
    assert(all_digits(two));
    lemma_truncated_amount(whole, two);
}

proof fn lemma_truncated_amount(whole: Seq<char>, frac: Seq<char>)
    requires
        whole.len() > 0,
        all_digits(whole),
        all_digits(frac),
        frac.len() >= 2,
    ensures
        money_amount(whole + seq!['.'] + frac) == Some(
            digits_value(whole) * 100 + digit_value(frac[0]) * 10 + digit_value(frac[1]),
        ),
{
    let text = whole + seq!['.'] + frac;
    assert(is_digit(whole[0]));
    assert(is_digit(frac[frac.len() - 1]));
    lemma_digit_char(digit_value(whole[0]));
    lemma_digit_char(digit_value(frac[frac.len() - 1]));
    assert(text[0] == whole[0]);
    assert(text.last() == frac[frac.len() - 1]);
    assert(trim_start_ws(text) == text);
    assert(trim_end_ws(text) == text);
    assert(strip_minus(text) == text);
    lemma_fraction(whole, frac);
}

/// The canonical text of an amount has no white space at its ends and a
/// sign only where the amount is negative.
proof fn lemma_money_text_shape(c: int)
    ensures
        trim_end_ws(trim_start_ws(money_text(c))) == money_text(c),
        strip_minus(money_text(c)) == decimal_digits((abs_int(c) / 100) as nat) + seq![
            '.',
            digit_char((abs_int(c) % 100) / 10),
            digit_char(abs_int(c) % 10),
        ],
        (money_text(c)[0] == '-') == (c < 0),
{
    let m = abs_int(c);
    let u = (m / 100) as nat;
    let digits = decimal_digits(u);
    let a = digit_char((m % 100) / 10);
    let b = digit_char(m % 10);
    let body = digits + seq!['.', a, b];
    let text = money_text(c);
    lemma_decimal_digits(u);
    lemma_digit_char((m % 100) / 10);
    lemma_digit_char(m % 10);
    assert(is_digit(digits[0]));
    lemma_digit_char(digit_value(digits[0]));
    assert(body[0] == digits[0]);
    if c < 0 {
        assert(text =~= seq!['-'] + body);
        assert(text.drop_first() =~= body);
    } else {
        assert(text =~= body);
    }
    assert(text.last() == b);
    assert(trim_start_ws(text) == text);
    assert(trim_end_ws(text) == text);
    assert(strip_minus(body) == body);
}

/// Formatting an amount and parsing the text back gives the same amount.
pub proof fn lemma_format_parse_round_trip(c: Cents)
    ensures
        money_amount(money_text(c as int)) == Some(c as int),
{
    let m = abs_int(c as int);
    let u = (m / 100) as nat;
    lemma_money_text_shape(c as int);
    lemma_decimal_digits(u);
    lemma_digit_char((m % 100) / 10);
    lemma_digit_char(m % 10);
    let a = digit_char((m % 100) / 10);
    let b = digit_char(m % 10);
    assert(all_digits(seq![a, b]));
    lemma_fraction(decimal_digits(u), seq![a, b]);
    assert(decimal_digits(u) + seq!['.'] + seq![a, b] =~= decimal_digits(u) + seq!['.', a, b]);
    assert(((m % 100) / 10) * 10 + m % 10 == m % 100);
    assert(u * 100 + m % 100 == m);
}

proof fn lemma_char_of_digit(c: char)
    requires
        is_digit(c),
    ensures
        digit_char(digit_value(c)) == c,
{
    let d = digit_value(c);
    lemma_digit_char(d);
    assert((digit_char(d) as u32) == (c as u32));
}

/// Digits that start with a non-zero digit denote at least 1.
proof fn lemma_leading_digit_positive(s: Seq<char>)
    requires
        s.len() > 0,
        all_digits(s),
        s[0] != '0',
    ensures
        digits_value(s) >= 1,
    decreases s.len(),
{
    if s.len() == 1 {
        assert(s.drop_last() =~= Seq::<char>::empty());
        assert(digits_value(s.drop_last()) == 0);
    } else {
        let p = s.drop_last();
        assert(p[0] == s[0]);
        assert(all_digits(p));
        lemma_leading_digit_positive(p);
        assert(is_digit(s.last()));
    }
}

/// Writing out the value of digits without a leading zero gives them back.
proof fn lemma_decimal_digits_of_value(s: Seq<char>)
    requires
        s.len() > 0,
        all_digits(s),
        s.len() == 1 || s[0] != '0',
    ensures
        decimal_digits(digits_value(s) as nat) == s,
    decreases s.len(),
{
    let p = s.drop_last();
    let x = s.last();
    assert(is_digit(x));
    lemma_char_of_digit(x);
    if s.len() == 1 {
        assert(p =~= Seq::<char>::empty());
        assert(digits_value(p) == 0);
        assert(seq![digit_char(digit_value(x))] =~= s);
    } else {
        assert(p[0] == s[0]);
        assert(all_digits(p));
        lemma_decimal_digits_of_value(p);
        lemma_leading_digit_positive(p);
        lemma_digits_value_nonneg(p);
        let n = digits_value(s) as nat;
        assert(n / 10 == digits_value(p));
        assert(n % 10 == digit_value(x));
        assert(decimal_digits(n) =~= s);
    }
}

/// A canonical money text (an optional `-`, whole units without a leading
/// zero, a `.` and two digits, and no `-` on zero) parses to an amount whose
/// canonical text is the same string.
pub proof fn lemma_parse_format_round_trip(negative: bool, whole: Seq<char>, a: char, b: char)
    requires
        whole.len() > 0,
        all_digits(whole),
        whole.len() == 1 || whole[0] != '0',
        is_digit(a),
        is_digit(b),
        negative ==> digits_value(whole) * 100 + digit_value(a) * 10 + digit_value(b) != 0,
    ensures
        ({
            let text = (if negative {
                seq!['-']
            } else {
                seq![]
            }) + whole + seq!['.', a, b];
            let m = digits_value(whole) * 100 + digit_value(a) * 10 + digit_value(b);
            let v = if negative {
                -m
            } else {
                m
            };
            &&& money_amount(text) == Some(v)
            &&& money_text(v) == text
        }),
{
    let sign: Seq<char> = if negative {
        seq!['-']
    } else {
        seq![]
    };
    let body = whole + seq!['.', a, b];
    let text = sign + whole + seq!['.', a, b];
    let m = digits_value(whole) * 100 + digit_value(a) * 10 + digit_value(b);
    lemma_digits_value_nonneg(whole);
    lemma_char_of_digit(a);
    lemma_char_of_digit(b);
    assert(is_digit(whole[0]));
    lemma_digit_char(digit_value(whole[0]));
    lemma_char_of_digit(whole[0]);
    lemma_digit_char(digit_value(b));
    assert(body[0] == whole[0]);
    if negative {
        assert(text =~= seq!['-'] + body);
        assert(text.drop_first() =~= body);
    } else {
        assert(text =~= body);
    }
    assert(text.last() == b);
    assert(trim_start_ws(text) == text);
    assert(trim_end_ws(text) == text);
    assert(strip_minus(body) == body);
    assert(strip_minus(text) == body);
    assert(all_digits(seq![a, b]));
    lemma_fraction(whole, seq![a, b]);
    assert(whole + seq!['.'] + seq![a, b] =~= body);
    lemma_decimal_digits_of_value(whole);
    assert(m / 100 == digits_value(whole));
    assert(m % 100 == digit_value(a) * 10 + digit_value(b));
    assert((m % 100) / 10 == digit_value(a));
    assert(m % 10 == digit_value(b));
    let v = if negative {
        -m
    } else {
        m
    };
    assert(abs_int(v) == m);
    assert(money_text(v) =~= text);
}

} // verus!
