use vstd::prelude::*;
use crate::text::{chars_of, string_from_chars};

verus! {

/// Whether `c` is one of the ASCII digits `0` to `9`.
pub open spec fn is_digit(c: char) -> bool {
    '0' <= c && c <= '9'
}

/// The value of a decimal digit character.
pub open spec fn digit_value(c: char) -> nat {
    ((c as u32) - 48) as nat
}

/// The character of a single decimal digit.
pub open spec fn digit_char(d: nat) -> char {
    ((d + 48) as u32) as char
}

/// Whether every character of `s` is a decimal digit.
pub open spec fn all_digits(s: Seq<char>) -> bool {
    forall|i: int| 0 <= i < s.len() ==> is_digit(#[trigger] s[i])
}

/// The value of a string of decimal digits, most significant first.
pub open spec fn digits_value(s: Seq<char>) -> nat
    decreases s.len(),
{
    if s.len() == 0 {
        0
    } else {
        digits_value(s.drop_last()) * 10 + digit_value(s.last())
    }
}

/// What std's `FromStr` for an unsigned integer reads from `s` before the
/// range check: an optional `+`, then one or more digits.
pub open spec fn spec_parse_unsigned(s: Seq<char>) -> Option<nat> {
    let body = if s.len() > 0 && s[0] == '+' { s.drop_first() } else { s };
    if body.len() > 0 && all_digits(body) {
        Some(digits_value(body))
    } else {
        None
    }
}

/// What std's `FromStr` for a signed integer reads from `s` before the
/// range check: an optional `+` or `-`, then one or more digits.
pub open spec fn spec_parse_signed(s: Seq<char>) -> Option<int> {
    if s.len() > 0 && s[0] == '-' {
        let body = s.drop_first();
        if body.len() > 0 && all_digits(body) {
            Some(-(digits_value(body) as int))
        } else {
            None
        }
    } else {
        match spec_parse_unsigned(s) {
            Some(n) => Some(n as int),
            None => None,
        }
    }
}

/// The decimal digits of `n`, most significant first, without sign.
pub open spec fn decimal_digits(n: nat) -> Seq<char>
    decreases n,
{
    if n < 10 {
        seq![digit_char(n)]
    } else {
        decimal_digits(n / 10).push(digit_char(n % 10))
    }
}

/// The decimal text of an integer, with a leading `-` when it is negative.
pub open spec fn decimal_text(v: int) -> Seq<char> {
    if v < 0 {
        seq!['-'].add(decimal_digits((-v) as nat))
    } else {
        decimal_digits(v as nat)
    }
}

proof fn lemma_digits_value_prefix_monotone(s: Seq<char>, i: int)
    requires
        0 <= i <= s.len(),
    ensures
        digits_value(s.take(i)) <= digits_value(s),
    decreases s.len() - i,
{
    if i < s.len() {
        lemma_digits_value_prefix_monotone(s, i + 1);
        assert(s.take(i + 1).drop_last() =~= s.take(i));
    } else {
        assert(s.take(i) =~= s);
    }
}

proof fn lemma_decimal_digits_shape(n: nat)
    ensures
        decimal_digits(n).len() > 0,
        all_digits(decimal_digits(n)),
        digits_value(decimal_digits(n)) == n,
        decimal_digits(n)[0] != '+',
        decimal_digits(n)[0] != '-',
    decreases n,
{
    assert(digit_value(digit_char(n % 10)) == n % 10);
    if n >= 10 {
        lemma_decimal_digits_shape(n / 10);
        let s = decimal_digits(n);
        assert(s.drop_last() =~= decimal_digits(n / 10));
        assert((n / 10) * 10 + n % 10 == n) by (nonlinear_arith);
        assert(s.last() == digit_char(n % 10));
        assert(digits_value(s) == digits_value(s.drop_last()) * 10 + digit_value(s.last()));
        assert forall|i: int| 0 <= i < s.len() implies is_digit(#[trigger] s[i]) by {
            if i < s.len() - 1 {
                assert(s[i] == decimal_digits(n / 10)[i]);
            }
        }
    } else {
        assert(n % 10 == n);
        assert(decimal_digits(n).drop_last() =~= Seq::<char>::empty());
        assert(digits_value(Seq::<char>::empty()) == 0);
    }
}

/// Reading back the decimal text of an integer gives the integer.
pub proof fn lemma_parse_decimal_text(v: int)
    ensures
        spec_parse_signed(decimal_text(v)) == Some(v),
        v >= 0 ==> spec_parse_unsigned(decimal_text(v)) == Some(v as nat),
{
    if v < 0 {
        lemma_decimal_digits_shape((-v) as nat);
        assert(decimal_text(v).drop_first() =~= decimal_digits((-v) as nat));
    } else {
        lemma_decimal_digits_shape(v as nat);
    }
}

/// Reads the digits `chars[start..]` as a number no larger than `max`;
/// `None` when a character is not a digit, there are none, or the value
/// is larger than `max`.
fn parse_digits(chars: &Vec<char>, start: usize, max: u64) -> (res: Option<u64>)
    requires
        start <= chars.len(),
        max >= 9,
    ensures
        ({
            let body = chars@.skip(start as int);
            match res {
                Some(v) => body.len() > 0 && all_digits(body) && digits_value(body) == v
                    && v <= max,
                None => !(body.len() > 0 && all_digits(body) && digits_value(body) <= max),
            }
        }),
{
    let ghost body = chars@.skip(start as int);
    if start == chars.len() {
        return None;
    }
    let mut acc: u64 = 0;
    let mut i: usize = start;
    while i < chars.len()
        invariant
            start <= i <= chars.len(),
            body == chars@.skip(start as int),
            all_digits(body.take(i - start)),
            digits_value(body.take(i - start)) == acc,
            acc <= max,
            max >= 9,
        decreases chars.len() - i,
    {
        let c = chars[i];
        assert(body[i - start] == c);
        if !('0' <= c && c <= '9') {
            return None;
        }
        let d: u64 = ((c as u32) - 48) as u64;
        assert(body.take(i + 1 - start).drop_last() =~= body.take(i - start));
        if acc > (max - d) / 10 {
            proof {
                assert(acc * 10 + d > max) by (nonlinear_arith)
                    requires
                        acc > (max - d) / 10,
                        d <= max || d > max,
                        d <= 9,
                ;
                lemma_digits_value_prefix_monotone(body, i + 1 - start);
            }
            return None;
        }
        assert(acc * 10 + d <= max) by (nonlinear_arith)
            requires
                acc <= (max - d) / 10,
                d <= max,
        ;
        acc = acc * 10 + d;
        i = i + 1;
        assert forall|j: int| 0 <= j < body.take(i - start).len() implies is_digit(
            #[trigger] body.take(i - start)[j],
        ) by {
            if j < i - 1 - start {
                assert(body.take(i - start)[j] == body.take(i - 1 - start)[j]);
            }
        }
    }
    assert(body.take(i - start) =~= body);
    Some(acc)
}

/// Parses an unsigned decimal number as std's `usize::from_str` does.
pub fn parse_usize(s: &str) -> (res: Option<usize>)
    ensures
        res == (match spec_parse_unsigned(s@) {
            Some(n) => if n <= usize::MAX { Some(n as usize) } else { None },
            None => None,
        }),
{
    let chars = chars_of(s);
    let start: usize = if chars.len() > 0 && chars[0] == '+' { 1 } else { 0 };
    proof {
        if chars@.len() > 0 && chars@[0] == '+' {
            assert(chars@.skip(1) =~= s@.drop_first());
        } else {
            assert(chars@.skip(0) =~= s@);
        }
    }
    match parse_digits(&chars, start, usize::MAX as u64) {
        Some(v) => Some(v as usize),
        None => None,
    }
}

/// Parses a signed decimal number as std's `i64::from_str` does.
pub fn parse_i64(s: &str) -> (res: Option<i64>)
    ensures
        res == (match spec_parse_signed(s@) {
            Some(n) => if i64::MIN <= n <= i64::MAX { Some(n as i64) } else { None },
            None => None,
        }),
{
    let chars = chars_of(s);
    if chars.len() > 0 && chars[0] == '-' {
        assert(chars@.skip(1) =~= s@.drop_first());
        match parse_digits(&chars, 1, 9223372036854775808u64) {
            Some(v) => {
                if v == 9223372036854775808u64 {
                    Some(i64::MIN)
                } else {
                    Some(-(v as i64))
                }
            },
            None => None,
        }
    } else {
        let start: usize = if chars.len() > 0 && chars[0] == '+' { 1 } else { 0 };
        proof {
            if chars@.len() > 0 && chars@[0] == '+' {
                assert(chars@.skip(1) =~= s@.drop_first());
            } else {
                assert(chars@.skip(0) =~= s@);
            }
        }
        match parse_digits(&chars, start, 9223372036854775807u64) {
            Some(v) => Some(v as i64),
            None => None,
        }
    }
}

/// The decimal digits of `n`.
fn digits_of_u64(n: u64) -> (res: Vec<char>)
    ensures
        res@ == decimal_digits(n as nat),
{
    let mut rev: Vec<char> = Vec::new();
    let mut m: u64 = n;
    // `rev` holds the digits below `m`'s, least significant first.
    while m >= 10
        invariant
            decimal_digits(n as nat) =~= decimal_digits(m as nat) + rev@.reverse(),
        decreases m,
    {
        let d: u64 = m % 10;
        let c: char = ((d as u8) + 48) as char;
        assert(c == digit_char(d as nat));
        assert(decimal_digits(m as nat) =~= decimal_digits((m / 10) as nat).push(c));
        rev.push(c);
        assert(rev@.reverse() =~= seq![c] + rev@.drop_last().reverse());
        m = m / 10;
    }
    let c: char = ((m as u8) + 48) as char;
    assert(c == digit_char(m as nat));
    assert(decimal_digits(m as nat) =~= seq![c]);
    rev.push(c);
    assert(rev@.reverse() =~= seq![c] + rev@.drop_last().reverse());
    let mut res: Vec<char> = Vec::new();
    let len = rev.len();
    let mut i: usize = len;
    while i > 0
        invariant
            i <= len == rev@.len(),
            res@ =~= rev@.reverse().take(len - i),
        decreases i,
    {
        i = i - 1;
        res.push(rev[i]);
        assert(rev@.reverse().take(len - i) =~= rev@.reverse().take(len - i - 1).push(rev@[i as int]));
    }
    assert(rev@.reverse().take(len as int) =~= rev@.reverse());
    res
}

/// The decimal text of an unsigned number (std's `to_string`).
pub fn format_u64(n: u64) -> (res: String)
    ensures
        res@ == decimal_text(n as int),
{
    let digits = digits_of_u64(n);
    string_from_chars(&digits)
}

/// The decimal text of a signed number (std's `to_string`).
pub fn format_i64(v: i64) -> (res: String)
    ensures
        res@ == decimal_text(v as int),
{
    if v < 0 {
        let magnitude: u64 = if v == i64::MIN {
            9223372036854775808u64
        } else {
            (-v) as u64
        };
        let digits = digits_of_u64(magnitude);
        let mut chars: Vec<char> = Vec::new();
        chars.push('-');
        let mut i: usize = 0;
        while i < digits.len()
            invariant
                i <= digits.len(),
                chars@ =~= seq!['-'] + digits@.take(i as int),
            decreases digits.len() - i,
        {
            chars.push(digits[i]);
            i = i + 1;
            assert(digits@.take(i as int) =~= digits@.take(i - 1).push(digits@[i - 1]));
        }
        assert(digits@.take(i as int) =~= digits@);
        string_from_chars(&chars)
    } else {
        format_u64(v as u64)
    }
}

} // verus!
