//! Raw values as decimal text, written and read.

use crate::units::{magnitude, LIMIT, ONE};
use vstd::prelude::*;
use vstd::string::*;

verus! {

/// The character of the decimal digit `d`.
pub open spec fn digit_char(d: int) -> char {
    (48 + d) as char
}

/// Decimal digits of `n`, without leading zeros.
pub open spec fn decimal(n: nat) -> Seq<char>
    decreases n,
{
    if n < 10 {
        seq![digit_char(n as int)]
    } else {
        decimal(n / 10).push(digit_char((n % 10) as int))
    }
}

/// The lowest `width` decimal digits of `n`, leading zeros included.
pub open spec fn padded(n: nat, width: nat) -> Seq<char>
    decreases width,
{
    if width == 0 {
        Seq::empty()
    } else {
        padded(n / 10, (width - 1) as nat).push(digit_char((n % 10) as int))
    }
}

/// The `width` digits of `n` without the zeros at their end.
pub open spec fn trimmed(n: nat, width: nat) -> Seq<char>
    decreases width,
{
    if width == 0 {
        Seq::empty()
    } else if n % 10 == 0 {
        trimmed(n / 10, (width - 1) as nat)
    } else {
        padded(n, width)
    }
}

/// A minus sign for a negative value, nothing otherwise.
pub open spec fn sign_text(value: int) -> Seq<char> {
    if value < 0 {
        seq!['-']
    } else {
        Seq::empty()
    }
}

/// The magnitude of `value` in hundredths, rounded to the nearest; a value
/// half way between two goes to the even one.
pub open spec fn hundredths(value: int) -> nat {
    let whole = magnitude(value) / 10_000_000;
    let rest = magnitude(value) % 10_000_000;
    if rest > 5_000_000 || (rest == 5_000_000 && whole % 2 == 1) {
        (whole + 1) as nat
    } else {
        whole as nat
    }
}

/// `value` with two decimal places.
pub open spec fn two_places(value: int) -> Seq<char> {
    sign_text(value) + decimal(hundredths(value) / 100) + seq!['.'] + padded(
        hundredths(value) % 100,
        2,
    )
}

/// `value` in full: its whole part and, unless they are all zero, a point and
/// its nine decimal places without the zeros at their end.
pub open spec fn plain_text(value: int) -> Seq<char> {
    let whole = (magnitude(value) / (ONE as int)) as nat;
    let rest = (magnitude(value) % (ONE as int)) as nat;
    if rest == 0 {
        sign_text(value) + decimal(whole)
    } else {
        sign_text(value) + decimal(whole) + seq!['.'] + trimmed(rest, 9)
    }
}

fn digit_text(d: u64) -> (text: &'static str)
    requires
        d < 10,
    ensures
        text@ == seq![digit_char(d as int)],
{
    proof {
        reveal_strlit("0");
        reveal_strlit("1");
        reveal_strlit("2");
        reveal_strlit("3");
        reveal_strlit("4");
        reveal_strlit("5");
        reveal_strlit("6");
        reveal_strlit("7");
        reveal_strlit("8");
        reveal_strlit("9");
    }
    let text = if d == 0 {
        "0"
    } else if d == 1 {
        "1"
    } else if d == 2 {
        "2"
    } else if d == 3 {
        "3"
    } else if d == 4 {
        "4"
    } else if d == 5 {
        "5"
    } else if d == 6 {
        "6"
    } else if d == 7 {
        "7"
    } else if d == 8 {
        "8"
    } else {
        "9"
    };
    assert(text@ =~= seq![digit_char(d as int)]);
    text
}

fn push_decimal(out: &mut String, n: u64)
    ensures
        final(out)@ == old(out)@ + decimal(n as nat),
    decreases n,
{
    if n >= 10 {
        push_decimal(out, n / 10);
    }
    out.append(digit_text(n % 10));
    assert(out@ =~= old(out)@ + decimal(n as nat));
}

fn push_padded(out: &mut String, n: u64, width: u32)
    ensures
        final(out)@ == old(out)@ + padded(n as nat, width as nat),
    decreases width,
{
    if width > 0 {
        push_padded(out, n / 10, width - 1);
        out.append(digit_text(n % 10));
    }
    assert(out@ =~= old(out)@ + padded(n as nat, width as nat));
}

fn push_trimmed(out: &mut String, n: u64, width: u32)
    ensures
        final(out)@ == old(out)@ + trimmed(n as nat, width as nat),
{
    let mut rest = n;
    let mut left = width;
    while left > 0 && rest % 10 == 0
        invariant
            trimmed(rest as nat, left as nat) == trimmed(n as nat, width as nat),
        decreases left,
    {
        rest = rest / 10;
        left = left - 1;
    }
    push_padded(out, rest, left);
}

fn push_sign(out: &mut String, value: i64)
    ensures
        final(out)@ == old(out)@ + sign_text(value as int),
{
    if value < 0 {
        proof {
            reveal_strlit("-");
        }
        out.append("-");
        assert("-"@ =~= seq!['-']);
    }
    assert(out@ =~= old(out)@ + sign_text(value as int));
}

fn magnitude_of(value: i64) -> (m: u64)
    ensures
        m == magnitude(value as int),
{
    if value < 0 {
        (0 - (value as i128)) as u64
    } else {
        value as u64
    }
}

/// Writes `value` with two decimal places, rounded to the nearest hundredth.
pub fn format_two_places(value: i64) -> (text: String)
    ensures
        text@ == two_places(value as int),
{
    let m = magnitude_of(value);
    let whole = m / 10_000_000;
    let rest = m % 10_000_000;
    let rounded = if rest > 5_000_000 || (rest == 5_000_000 && whole % 2 == 1) {
        whole + 1
    } else {
        whole
    };
    let mut text = String::new();
    push_sign(&mut text, value);
    push_decimal(&mut text, rounded / 100);
    proof {
        reveal_strlit(".");
    }
    text.append(".");
    push_padded(&mut text, rounded % 100, 2);
    assert("."@ =~= seq!['.']);
    assert(text@ =~= two_places(value as int));
    text
}

/// Writes `value` in full, with as many decimal places as it needs.
pub fn format_plain(value: i64) -> (text: String)
    ensures
        text@ == plain_text(value as int),
{
    let m = magnitude_of(value);
    let whole = m / (ONE as u64);
    let rest = m % (ONE as u64);
    let mut text = String::new();
    push_sign(&mut text, value);
    push_decimal(&mut text, whole);
    if rest != 0 {
        proof {
            reveal_strlit(".");
        }
        text.append(".");
        push_trimmed(&mut text, rest, 9);
        assert("."@ =~= seq!['.']);
    }
    assert(text@ =~= plain_text(value as int));
    text
}

/// Whether `b` is an ASCII decimal digit.
pub open spec fn is_digit(b: u8) -> bool {
    48 <= b <= 57
}

/// Whether `s` holds decimal digits only.
pub open spec fn all_digits(s: Seq<u8>) -> bool {
    forall|i: int| 0 <= i < s.len() ==> is_digit(#[trigger] s[i])
}

/// The number that the decimal digits `s` write.
pub open spec fn digits_value(s: Seq<u8>) -> nat
    decreases s.len(),
{
    if s.len() == 0 {
        0
    } else {
        digits_value(s.drop_last()) * 10 + (s.last() - 48) as nat
    }
}

/// Index of the first point in `s` at or after `from`, or the length of `s`.
pub open spec fn first_point(s: Seq<u8>, from: int) -> int
    decreases s.len() - from,
{
    if 0 <= from < s.len() && s[from] != 46 {
        first_point(s, from + 1)
    } else {
        from
    }
}

/// Whether `s` starts with a plus or minus sign.
pub open spec fn has_sign(s: Seq<u8>) -> bool {
    s.len() > 0 && (s[0] == 43 || s[0] == 45)
}

/// Where the digits of `s` start: behind the sign, if there is one.
pub open spec fn digits_start(s: Seq<u8>) -> int {
    if has_sign(s) {
        1
    } else {
        0
    }
}

/// What stands between the sign and the point.
pub open spec fn whole_part(s: Seq<u8>) -> Seq<u8> {
    s.subrange(digits_start(s), first_point(s, digits_start(s)))
}

/// What stands behind the point.
pub open spec fn fraction_part(s: Seq<u8>) -> Seq<u8> {
    let point = first_point(s, digits_start(s));
    if point < s.len() {
        s.subrange(point + 1, s.len() as int)
    } else {
        Seq::empty()
    }
}

/// The first nine decimal places, with zeros for places that are not written.
pub open spec fn nine_places(fraction: Seq<u8>) -> Seq<u8> {
    Seq::new(
        9,
        |k: int|
            if k < fraction.len() {
                fraction[k]
            } else {
                48u8
            },
    )
}

/// Whether `s` is a decimal number: an optional sign, digits, and optionally a
/// point and more digits, with at least one digit in all.
pub open spec fn is_decimal(s: Seq<u8>) -> bool {
    &&& all_digits(whole_part(s))
    &&& all_digits(fraction_part(s))
    &&& whole_part(s).len() + fraction_part(s).len() > 0
}

/// The raw value of the decimal number `s`: decimal places after the ninth
/// are dropped, and a magnitude above `LIMIT` counts as `LIMIT`.
pub open spec fn decimal_raw(s: Seq<u8>) -> int {
    let exact = digits_value(whole_part(s)) * ONE + digits_value(nine_places(fraction_part(s)));
    let capped = if exact > LIMIT {
        LIMIT as int
    } else {
        exact
    };
    if s.len() > 0 && s[0] == 45 {
        -capped
    } else {
        capped
    }
}

/// Ten to the power of `n`.
pub open spec fn pow10(n: nat) -> nat
    decreases n,
{
    if n == 0 {
        1
    } else {
        10 * pow10((n - 1) as nat)
    }
}

proof fn lemma_pow10_nine(n: nat)
    requires
        n <= 9,
    ensures
        pow10(n) <= 1_000_000_000,
        pow10(9) == 1_000_000_000,
{
    reveal_with_fuel(pow10, 10);
}

proof fn lemma_first_point_bounds(s: Seq<u8>, from: int)
    requires
        0 <= from <= s.len(),
    ensures
        from <= first_point(s, from) <= s.len(),
        first_point(s, from) < s.len() ==> s[first_point(s, from)] == 46,
        forall|k: int| from <= k < first_point(s, from) ==> s[k] != 46,
    decreases s.len() - from,
{
    if from < s.len() && s[from] != 46 {
        lemma_first_point_bounds(s, from + 1);
    }
}

proof fn lemma_digits_value_push(s: Seq<u8>, from: int, to: int)
    requires
        0 <= from <= to < s.len(),
    ensures
        digits_value(s.subrange(from, to + 1)) == digits_value(s.subrange(from, to)) * 10 + (s[to]
            - 48) as nat,
{
    assert(s.subrange(from, to + 1).drop_last() =~= s.subrange(from, to));
}

/// Reads a decimal number. Anything else has no value.
pub fn parse_decimal(s: &[u8]) -> (r: Option<i64>)
    ensures
        r == if is_decimal(s@) {
            Some(decimal_raw(s@) as i64)
        } else {
            None
        },
        r matches Some(v) ==> v == decimal_raw(s@) && -LIMIT <= v <= LIMIT,
{
    let len = s.len();
    let negative = len > 0 && s[0] == 45;
    let start: usize = if len > 0 && (s[0] == 43 || s[0] == 45) {
        1
    } else {
        0
    };
    let cap: i64 = ONE + 1;
    let mut whole: i64 = 0;
    let mut i: usize = start;
    assert(s@.subrange(start as int, start as int) =~= Seq::<u8>::empty());
    while i < len && 48 <= s[i] && s[i] <= 57
        invariant
            start <= i <= len,
            len == s@.len(),
            start == digits_start(s@),
            cap == ONE + 1,
            first_point(s@, start as int) == first_point(s@, i as int),
            all_digits(s@.subrange(start as int, i as int)),
            0 <= whole <= cap,
            whole == if digits_value(s@.subrange(start as int, i as int)) >= cap {
                cap as int
            } else {
                digits_value(s@.subrange(start as int, i as int)) as int
            },
        decreases len - i,
    {
        proof {
            lemma_digits_value_push(s@, start as int, i as int);
            assert forall|k: int| 0 <= k < i + 1 - start implies is_digit(
                #[trigger] s@.subrange(start as int, i + 1)[k],
            ) by {
                if k < i - start {
                    assert(s@.subrange(start as int, i as int)[k] == s@[start + k]);
                }
            }
        }
        let digit = (s[i] - 48) as i64;
        whole = if whole >= cap {
            cap
        } else if whole * 10 + digit >= cap {
            cap
        } else {
            whole * 10 + digit
        };
        i = i + 1;
    }
    proof {
        lemma_first_point_bounds(s@, i as int);
    }
    if i < len && s[i] != 46 {
        proof {
            let point = first_point(s@, start as int);
            assert(whole_part(s@)[i - start] == s@[i as int]);
        }
        return None;
    }
    let point = i;
    let first: usize = if point < len {
        point + 1
    } else {
        len
    };
    let ghost fraction = fraction_part(s@);
    assert(fraction =~= s@.subrange(first as int, len as int));
    let mut j: usize = first;
    while j < len
        invariant
            first <= j <= len,
            len == s@.len(),
            fraction == s@.subrange(first as int, len as int),
            fraction == fraction_part(s@),
            forall|k: int| 0 <= k < j - first ==> is_digit(#[trigger] fraction[k]),
        decreases len - j,
    {
        if !(48 <= s[j] && s[j] <= 57) {
            assert(fraction[j - first] == s@[j as int]);
            assert(!is_digit(fraction[j - first]));
            return None;
        }
        j = j + 1;
    }
    if point - start + (len - first) == 0 {
        return None;
    }
    let ghost places = nine_places(fraction);
    let mut rest: i64 = 0;
    let mut k: usize = 0;
    assert(places.take(0) =~= Seq::<u8>::empty());
    while k < 9
        invariant
            k <= 9,
            first <= len,
            len == s@.len(),
            fraction == s@.subrange(first as int, len as int),
            all_digits(fraction),
            places == nine_places(fraction),
            rest == digits_value(places.take(k as int)),
            0 <= rest < pow10(k as nat),
        decreases 9 - k,
    {
        proof {
            lemma_pow10_nine(k as nat);
            assert(places.take(k + 1).drop_last() =~= places.take(k as int));
            if k < len - first {
                assert(is_digit(fraction[k as int]));
                assert(fraction[k as int] == s@[first + k]);
            }
        }
        let digit: i64 = if k < len - first {
            (s[first + k] - 48) as i64
        } else {
            0
        };
        rest = rest * 10 + digit;
        k = k + 1;
    }
    proof {
        lemma_pow10_nine(9);
        assert(places.take(9) =~= places);
    }
    let size: i64 = if whole >= cap {
        LIMIT
    } else if whole * ONE + rest > LIMIT {
        LIMIT
    } else {
        whole * ONE + rest
    };
    if negative {
        Some(-size)
    } else {
        Some(size)
    }
}

} // verus!
