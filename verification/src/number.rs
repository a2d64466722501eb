//! Decimal and hexadecimal text for integers: the formatting and parsing
//! the configuration, process listings and sandbox names rely on.

use vstd::prelude::*;
use crate::text::{ascii_lower_seq, chars_eq, chars_of, find_char, first_index_of, lower_ascii, slice_chars};

verus! {

/// `c` is an ASCII decimal digit.
pub open spec fn is_digit(c: char) -> bool {
    '0' <= c && c <= '9'
}

/// The value of a decimal digit.
pub open spec fn digit_value(c: char) -> nat {
    (c as int - '0' as int) as nat
}

/// The decimal digit for `d < 10`.
pub open spec fn digit_char(d: nat) -> char {
    (d + '0' as int) as char
}

/// Every character of `s` is a decimal digit.
pub open spec fn all_digits(s: Seq<char>) -> bool {
    forall|i: int| 0 <= i < s.len() ==> is_digit(#[trigger] s[i])
}

/// The number that the digits of `s` spell.
pub open spec fn digits_value(s: Seq<char>) -> nat
    decreases s.len(),
{
    if s.len() == 0 {
        0
    } else {
        digits_value(s.drop_last()) * 10 + digit_value(s.last())
    }
}

/// The decimal representation of `n`, without leading zeros.
pub open spec fn decimal(n: nat) -> Seq<char>
    decreases n,
{
    if n < 10 {
        seq![digit_char(n)]
    } else {
        decimal(n / 10).push(digit_char(n % 10))
    }
}

/// What `FromStr` for an unsigned integer type reads from `s`, before its
/// range check: an optional `+` and then one or more decimal digits.
pub open spec fn parse_unsigned(s: Seq<char>) -> Option<nat> {
    let body = if s.len() > 0 && s[0] == '+' {
        s.drop_first()
    } else {
        s
    };
    if body.len() > 0 && all_digits(body) {
        Some(digits_value(body))
    } else {
        None
    }
}

/// `FromStr` for an unsigned integer type whose largest value is `max`.
pub open spec fn parse_bounded(s: Seq<char>, max: nat) -> Option<nat> {
    match parse_unsigned(s) {
        Some(v) => if v <= max {
            Some(v)
        } else {
            None
        },
        None => None,
    }
}

/// What `FromStr` for a signed integer type reads from `s`, before its
/// range check: an optional `+` or `-` and then one or more decimal digits.
pub open spec fn parse_signed(s: Seq<char>) -> Option<int> {
    if s.len() > 0 && s[0] == '-' {
        let body = s.drop_first();
        if body.len() > 0 && all_digits(body) {
            Some(-digits_value(body))
        } else {
            None
        }
    } else {
        match parse_unsigned(s) {
            Some(v) => Some(v as int),
            None => None,
        }
    }
}

proof fn lemma_digits_value_prefix(s: Seq<char>, i: int)
    requires
        0 <= i <= s.len(),
    ensures
        digits_value(s.take(i)) <= digits_value(s),
    decreases s.len() - i,
{
    if i < s.len() {
        lemma_digits_value_prefix(s.drop_last(), i);
        assert(s.drop_last().take(i) =~= s.take(i));
    } else {
        assert(s.take(i) =~= s);
    }
}

/// Reads the digits of `s[from..]` as a number no larger than `max`.
fn read_digits(s: &Vec<char>, from: usize, max: u64) -> (r: Option<u64>)
    requires
        from <= s.len(),
    ensures
        match r {
            Some(v) => all_digits(s@.skip(from as int)) && digits_value(s@.skip(from as int))
                == v as nat && v <= max,
            None => !all_digits(s@.skip(from as int)) || digits_value(s@.skip(from as int)) > max,
        },
{
    let ghost body = s@.skip(from as int);
    let mut v: u64 = 0;
    let mut i = from;
    assert(body.take(0) =~= Seq::<char>::empty());
    while i < s.len()
        invariant
            from <= i <= s.len(),
            body == s@.skip(from as int),
            all_digits(body.take(i - from)),
            digits_value(body.take(i - from)) == v as nat,
            v <= max,
        decreases s.len() - i,
    {
        let c = s[i];
        let ghost k = i - from;
        assert(body[k] == c);
        if !('0' <= c && c <= '9') {
            assert(!is_digit(body[k]));
            return None;
        }
        let d = (c as u32 - '0' as u32) as u64;
        assert(body.take(k + 1).drop_last() =~= body.take(k));
        assert(digits_value(body.take(k + 1)) == digits_value(body.take(k)) * 10 + d);
        if d > max || v > (max - d) / 10 {
            proof {
                assert(v * 10 + d > max) by (nonlinear_arith)
                    requires
                        d > max || v > (max - d) / 10,
                        d <= 9,
                ;
                lemma_digits_value_prefix(body, k + 1);
            }
            return None;
        }
        assert(v * 10 + d <= max) by (nonlinear_arith)
            requires
                d <= max,
                v <= (max - d) / 10,
        ;
        v = v * 10 + d;
        i += 1;
        assert(all_digits(body.take(i - from))) by {
            assert forall|j: int| 0 <= j < i - from implies is_digit(#[trigger] body.take(i - from)[j]) by {
                if j < k {
                    assert(body.take(i - from)[j] == body.take(k)[j]);
                }
            }
        }
    }
    assert(body.take(s.len() - from) =~= body);
    Some(v)
}

/// `FromStr` for an unsigned integer type whose largest value is `max`.
pub fn parse_unsigned_bounded(s: &Vec<char>, max: u64) -> (r: Option<u64>)
    ensures
        match r {
            Some(v) => parse_bounded(s@, max as nat) == Some(v as nat),
            None => parse_bounded(s@, max as nat) is None,
        },
{
    let from: usize = if s.len() > 0 && s[0] == '+' {
        1
    } else {
        0
    };
    let ghost body = if s@.len() > 0 && s@[0] == '+' {
        s@.drop_first()
    } else {
        s@
    };
    assert(body =~= s@.skip(from as int));
    if from >= s.len() {
        return None;
    }
    read_digits(s, from, max)
}

/// `FromStr` for `u16`.
pub fn parse_u16(s: &Vec<char>) -> (r: Option<u16>)
    ensures
        match r {
            Some(v) => parse_bounded(s@, u16::MAX as nat) == Some(v as nat),
            None => parse_bounded(s@, u16::MAX as nat) is None,
        },
{
    match parse_unsigned_bounded(s, 0xffff) {
        Some(v) => Some(v as u16),
        None => None,
    }
}

/// `FromStr` for `u32`.
pub fn parse_u32(s: &Vec<char>) -> (r: Option<u32>)
    ensures
        match r {
            Some(v) => parse_bounded(s@, u32::MAX as nat) == Some(v as nat),
            None => parse_bounded(s@, u32::MAX as nat) is None,
        },
{
    match parse_unsigned_bounded(s, 0xffff_ffff) {
        Some(v) => Some(v as u32),
        None => None,
    }
}

/// `FromStr` for `i32`.
pub fn parse_i32(s: &Vec<char>) -> (r: Option<i32>)
    ensures
        match r {
            Some(v) => parse_signed(s@) == Some(v as int),
            None => match parse_signed(s@) {
                Some(v) => v < i32::MIN || v > i32::MAX,
                None => true,
            },
        },
{
    if s.len() > 0 && s[0] == '-' {
        assert(s@.drop_first() =~= s@.skip(1));
        if s.len() == 1 {
            return None;
        }
        match read_digits(s, 1, 0x8000_0000) {
            Some(v) => Some((0 - (v as i64)) as i32),
            None => None,
        }
    } else {
        match parse_unsigned_bounded(s, 0x7fff_ffff) {
            Some(v) => Some(v as i32),
            None => None,
        }
    }
}

fn digit_to_char(d: u64) -> (c: char)
    requires
        d < 10,
    ensures
        c == digit_char(d as nat),
{
    let b: u8 = (d as u8) + 48;
    let c = b as char;
    assert(c == digit_char(d as nat)) by {
        assert(c as int == d + 48);
    }
    c
}

/// The decimal digits of `n`.
pub fn decimal_chars(n: u64) -> (r: Vec<char>)
    ensures
        r@ == decimal(n as nat),
    decreases n,
{
    if n < 10 {
        let mut v: Vec<char> = Vec::new();
        v.push(digit_to_char(n));
        assert(v@ =~= seq![digit_char(n as nat)]);
        v
    } else {
        let mut v = decimal_chars(n / 10);
        v.push(digit_to_char(n % 10));
        v
    }
}

/// `u64::to_string`.
pub fn u64_to_string(n: u64) -> (r: String)
    ensures
        r@ == decimal(n as nat),
{
    crate::text::string_from_chars(&decimal_chars(n))
}

/// A decimal representation holds only digits and spells its number.
pub proof fn lemma_decimal_digits(n: nat)
    ensures
        all_digits(decimal(n)),
        digits_value(decimal(n)) == n,
        decimal(n).len() > 0,
    decreases n,
{
    if n < 10 {
        assert(decimal(n).drop_last() =~= Seq::<char>::empty());
        assert(digits_value(Seq::<char>::empty()) == 0);
        assert(digit_value(digit_char(n)) == n);
        assert(decimal(n).last() == digit_char(n));
    } else {
        lemma_decimal_digits(n / 10);
        let d = decimal(n / 10);
        assert(decimal(n).drop_last() =~= d);
        assert(digit_value(digit_char(n % 10)) == n % 10);
        assert(digits_value(decimal(n)) == digits_value(d) * 10 + n % 10);
        assert(n == (n / 10) * 10 + n % 10) by (nonlinear_arith);
        assert forall|i: int| 0 <= i < decimal(n).len() implies is_digit(#[trigger] decimal(n)[i]) by {
            if i < d.len() {
                assert(decimal(n)[i] == d[i]);
            }
        }
    }
}

/// Reading back the decimal text of a number gives the number: for every
/// `n`, parsing `n.to_string()` as an unsigned number yields `n`.
pub proof fn law_decimal_round_trip(n: nat)
    ensures
        parse_unsigned(decimal(n)) == Some(n),
{
    lemma_decimal_digits(n);
    assert(decimal(n)[0] != '+') by {
        assert(is_digit(decimal(n)[0]));
    }
}

/// The hexadecimal digit for `d < 16`, in lower case.
pub open spec fn hex_char(d: nat) -> char {
    if d < 10 {
        digit_char(d)
    } else {
        (d - 10 + 'a' as int) as char
    }
}

/// The last `k` hexadecimal digits of `x`, most significant first, zero-padded.
pub open spec fn hex_digits(x: nat, k: nat) -> Seq<char>
    decreases k,
{
    if k == 0 {
        Seq::empty()
    } else {
        hex_digits(x / 16, (k - 1) as nat).push(hex_char(x % 16))
    }
}

fn hex_to_char(d: u64) -> (c: char)
    requires
        d < 16,
    ensures
        c == hex_char(d as nat),
{
    if d < 10 {
        digit_to_char(d)
    } else {
        let b: u8 = (d as u8) - 10 + 97;
        let c = b as char;
        assert(c as int == d - 10 + 97);
        c
    }
}

/// The last `k` hexadecimal digits of `x`.
pub fn hex_chars(x: u64, k: u64) -> (r: Vec<char>)
    ensures
        r@ == hex_digits(x as nat, k as nat),
    decreases k,
{
    if k == 0 {
        Vec::new()
    } else {
        let mut v = hex_chars(x / 16, k - 1);
        v.push(hex_to_char(x % 16));
        v
    }
}

/// The decimal representation of a signed number: a `-` before the
/// digits of a negative one.
pub open spec fn signed_decimal(n: int) -> Seq<char> {
    if n < 0 {
        "-"@ + decimal((-n) as nat)
    } else {
        decimal(n as nat)
    }
}

/// `i64::to_string`.
pub fn i64_to_string(n: i64) -> (r: String)
    ensures
        r@ == signed_decimal(n as int),
{
    if n < 0 {
        let m: u64 = (-(n as i128)) as u64;
        let mut s = String::from_str("-");
        s.append(u64_to_string(m).as_str());
        s
    } else {
        u64_to_string(n as u64)
    }
}

/// The mantissa of a decimal float: digits with at most one `.`, holding
/// at least one digit.
pub open spec fn float_mantissa(m: Seq<char>) -> bool {
    match first_index_of(m, '.') {
        Some(i) => all_digits(m.take(i)) && all_digits(m.skip(i + 1)) && m.len() >= 2,
        None => m.len() >= 1 && all_digits(m),
    }
}

/// What follows the `e` of a decimal float: an optional sign and one or
/// more digits.
pub open spec fn float_exponent(x: Seq<char>) -> bool {
    let d = if x.len() > 0 && (x[0] == '+' || x[0] == '-') {
        x.drop_first()
    } else {
        x
    };
    d.len() >= 1 && all_digits(d)
}

/// A decimal float without its sign, lower-cased: a mantissa and, after
/// the first `e`, an exponent.
pub open spec fn float_number(b: Seq<char>) -> bool {
    match first_index_of(b, 'e') {
        Some(i) => float_mantissa(b.take(i)) && float_exponent(b.skip(i + 1)),
        None => float_mantissa(b),
    }
}

/// The text `FromStr` for `f32` accepts: lower-cased (ASCII), an optional
/// sign and then `inf`, `infinity`, `nan` or a decimal number with an
/// optional exponent.
pub open spec fn is_float_literal(s: Seq<char>) -> bool {
    let l = ascii_lower_seq(s);
    let b = if l.len() > 0 && (l[0] == '+' || l[0] == '-') {
        l.drop_first()
    } else {
        l
    };
    b == "inf"@ || b == "infinity"@ || b == "nan"@ || float_number(b)
}

/// Every character of `s` is a decimal digit.
fn digits_only(s: &Vec<char>) -> (r: bool)
    ensures
        r == all_digits(s@),
{
    let mut i: usize = 0;
    while i < s.len()
        invariant
            i <= s.len(),
            forall|j: int| 0 <= j < i ==> is_digit(#[trigger] s@[j]),
        decreases s.len() - i,
    {
        if !('0' <= s[i] && s[i] <= '9') {
            assert(!is_digit(s@[i as int]));
            return false;
        }
        i += 1;
    }
    true
}

fn float_mantissa_exec(m: &Vec<char>) -> (r: bool)
    ensures
        r == float_mantissa(m@),
{
    match find_char(m, '.') {
        Some(i) => {
            let a = slice_chars(m, 0, i);
            let b = slice_chars(m, i + 1, m.len());
            assert(a@ =~= m@.take(i as int));
            assert(b@ =~= m@.skip(i + 1));
            digits_only(&a) && digits_only(&b) && m.len() >= 2
        },
        None => m.len() >= 1 && digits_only(m),
    }
}

fn float_exponent_exec(x: &Vec<char>) -> (r: bool)
    ensures
        r == float_exponent(x@),
{
    let d = if x.len() > 0 && (x[0] == '+' || x[0] == '-') {
        let d = slice_chars(x, 1, x.len());
        assert(d@ =~= x@.drop_first());
        d
    } else {
        slice_chars(x, 0, x.len())
    };
    assert(x@.subrange(0, x@.len() as int) =~= x@);
    d.len() >= 1 && digits_only(&d)
}

/// Whether `FromStr` for `f32` accepts the text `s`.
pub fn float_literal(s: &Vec<char>) -> (r: bool)
    ensures
        r == is_float_literal(s@),
{
    let l = lower_ascii(s);
    let b = if l.len() > 0 && (l[0] == '+' || l[0] == '-') {
        let b = slice_chars(&l, 1, l.len());
        assert(b@ =~= l@.drop_first());
        b
    } else {
        let b = slice_chars(&l, 0, l.len());
        assert(b@ =~= l@);
        b
    };
    if chars_eq(&b, &chars_of("inf")) || chars_eq(&b, &chars_of("infinity")) || chars_eq(&b, &chars_of("nan")) {
        return true;
    }
    match find_char(&b, 'e') {
        Some(i) => {
            let m = slice_chars(&b, 0, i);
            let x = slice_chars(&b, i + 1, b.len());
            assert(m@ =~= b@.take(i as int));
            assert(x@ =~= b@.skip(i + 1));
            float_mantissa_exec(&m) && float_exponent_exec(&x)
        },
        None => float_mantissa_exec(&b),
    }
}

} // verus!
