//! Unsigned integer parsing with the semantics of `from_str_radix` for radixes 10 and 16,
//! and decimal numerals.
use vstd::prelude::*;
use crate::text::bytes_of;
use crate::unaligned_u16::utf16::push_char;

verus! {

/// Why a textual integer could not be parsed.
#[derive(Debug, Clone, Copy, PartialEq, Eq, Structural)]
pub enum IntErrorKind {
    /// The text was empty.
    Empty,
    /// The text held a byte that is not a digit of the radix.
    InvalidDigit,
    /// The value is too large for the target type.
    PosOverflow,
    /// The value is too small for the target type.
    NegOverflow,
    /// The value was zero where zero is not allowed.
    Zero,
}

/// An error produced while parsing an integer.
#[derive(Debug, Clone, Copy, PartialEq, Eq, Structural)]
pub struct ParseIntError {
    pub kind: IntErrorKind,
}

impl ParseIntError {
    /// The cause of the failure.
    pub fn kind(&self) -> (r: &IntErrorKind)
        ensures
            *r == self.kind,
    {
        &self.kind
    }
}

/// The value of the digit byte `b` in `radix` (10 or 16), if it is one.
pub open spec fn digit_value(b: u8, radix: nat) -> Option<nat> {
    if 48 <= b <= 57 {
        Some((b - 48) as nat)
    } else if radix == 16 && 97 <= b <= 102 {
        Some((b - 87) as nat)
    } else if radix == 16 && 65 <= b <= 70 {
        Some((b - 55) as nat)
    } else {
        None
    }
}

/// Reads the digits of `s` left to right, failing at the first bad digit or overflow past `max`.
pub open spec fn parse_digits(s: Seq<u8>, radix: nat, max: nat) -> Result<nat, IntErrorKind>
    decreases s.len(),
{
    if s.len() == 0 {
        Ok(0)
    } else {
        match parse_digits(s.drop_last(), radix, max) {
            Err(e) => Err(e),
            Ok(v) => match digit_value(s.last(), radix) {
                None => Err(IntErrorKind::InvalidDigit),
                Some(d) => if v * radix + d > max {
                    Err(IntErrorKind::PosOverflow)
                } else {
                    Ok(v * radix + d)
                },
            },
        }
    }
}

/// The unsigned integer denoted by `s`, with an optional leading `+`, bounded by `max`.
pub open spec fn parse_uint_spec(s: Seq<u8>, radix: nat, max: nat) -> Result<nat, IntErrorKind> {
    if s.len() == 0 {
        Err(IntErrorKind::Empty)
    } else if s[0] == 43u8 {
        if s.len() == 1 {
            Err(IntErrorKind::InvalidDigit)
        } else {
            parse_digits(s.drop_first(), radix, max)
        }
    } else if s[0] == 45u8 && s.len() == 1 {
        Err(IntErrorKind::InvalidDigit)
    } else {
        parse_digits(s, radix, max)
    }
}

/// The result of parsing `s` as an unsigned value of at most `max`, as an error value on failure.
pub open spec fn parse_result(s: Seq<u8>, radix: nat, max: nat) -> Result<nat, ParseIntError> {
    match parse_uint_spec(s, radix, max) {
        Ok(v) => Ok(v),
        Err(kind) => Err(ParseIntError { kind }),
    }
}

proof fn lemma_parse_digits_bound(s: Seq<u8>, radix: nat, max: nat)
    ensures
        parse_digits(s, radix, max) matches Ok(v) ==> v <= max,
    decreases s.len(),
{
    if s.len() > 0 {
        lemma_parse_digits_bound(s.drop_last(), radix, max);
    }
}

proof fn lemma_parse_digits_error_extends(s: Seq<u8>, k: int, radix: nat, max: nat)
    requires
        0 <= k <= s.len(),
        parse_digits(s.subrange(0, k), radix, max) is Err,
    ensures
        parse_digits(s, radix, max) == parse_digits(s.subrange(0, k), radix, max),
    decreases s.len(),
{
    if k < s.len() {
        assert(s.drop_last().subrange(0, k) =~= s.subrange(0, k));
        lemma_parse_digits_error_extends(s.drop_last(), k, radix, max);
    } else {
        assert(s.subrange(0, k) =~= s);
    }
}

fn digit_of(b: u8, radix: u64) -> (r: Option<u64>)
    requires
        radix == 10 || radix == 16,
    ensures
        r matches Some(d) ==> digit_value(b, radix as nat) == Some(d as nat) && d < radix,
        r is None ==> digit_value(b, radix as nat) is None,
{
    if 48 <= b && b <= 57 {
        Some((b - 48) as u64)
    } else if radix == 16 && 97 <= b && b <= 102 {
        Some((b - 87) as u64)
    } else if radix == 16 && 65 <= b && b <= 70 {
        Some((b - 55) as u64)
    } else {
        None
    }
}

fn parse_digits_exec(s: &[u8], start: usize, radix: u64, max: u64) -> (r: Result<u64, ParseIntError>)
    requires
        radix == 10 || radix == 16,
        start <= s@.len(),
    ensures
        r matches Ok(v) ==> parse_digits(s@.subrange(start as int, s@.len() as int), radix as nat, max as nat) == Ok::<nat, IntErrorKind>(v as nat),
        r matches Err(e) ==> parse_digits(s@.subrange(start as int, s@.len() as int), radix as nat, max as nat) == Err::<nat, IntErrorKind>(e.kind),
{
    let mut acc: u64 = 0;
    let mut i: usize = start;
    assert(s@.subrange(start as int, start as int) =~= Seq::<u8>::empty());
    while i < s.len()
        invariant
            radix == 10 || radix == 16,
            start <= i <= s@.len(),
            parse_digits(s@.subrange(start as int, i as int), radix as nat, max as nat) == Ok::<nat, IntErrorKind>(acc as nat),
        decreases s.len() - i,
    {
        let ghost prefix = s@.subrange(start as int, i as int);
        let ghost next = s@.subrange(start as int, i + 1);
        assert(next.drop_last() =~= prefix);
        assert(next.last() == s@[i as int]);
        let ghost whole = s@.subrange(start as int, s@.len() as int);
        assert(whole.subrange(0, i + 1 - start) =~= next);
        proof {
            lemma_parse_digits_bound(prefix, radix as nat, max as nat);
        }
        match digit_of(s[i], radix) {
            None => {
                proof { lemma_parse_digits_error_extends(whole, i + 1 - start, radix as nat, max as nat); }
                return Err(ParseIntError { kind: IntErrorKind::InvalidDigit });
            },
            Some(d) => {
                assert((acc as u128) * (radix as u128) <= 0xffff_ffff_ffff_ffffu128 * 16u128) by (nonlinear_arith)
                    requires acc <= 0xffff_ffff_ffff_ffffu64, radix <= 16;
                let wide: u128 = (acc as u128) * (radix as u128) + (d as u128);
                if wide > max as u128 {
                    proof { lemma_parse_digits_error_extends(whole, i + 1 - start, radix as nat, max as nat); }
                    return Err(ParseIntError { kind: IntErrorKind::PosOverflow });
                }
                acc = wide as u64;
            },
        }
        i = i + 1;
    }
    assert(s@.subrange(start as int, s@.len() as int) =~= s@.subrange(start as int, i as int));
    Ok(acc)
}

/// Parses `s` as an unsigned integer in `radix`, bounded by `max`.
pub fn parse_uint(s: &[u8], radix: u64, max: u64) -> (r: Result<u64, ParseIntError>)
    requires
        radix == 10 || radix == 16,
    ensures
        r matches Ok(v) ==> parse_result(s@, radix as nat, max as nat) == Ok::<nat, ParseIntError>(v as nat),
        r matches Err(e) ==> parse_result(s@, radix as nat, max as nat) == Err::<nat, ParseIntError>(e),
{
    if s.len() == 0 {
        return Err(ParseIntError { kind: IntErrorKind::Empty });
    }
    if s[0] == 43u8 {
        if s.len() == 1 {
            return Err(ParseIntError { kind: IntErrorKind::InvalidDigit });
        }
        assert(s@.subrange(1, s@.len() as int) =~= s@.drop_first());
        return parse_digits_exec(s, 1, radix, max);
    }
    if s[0] == 45u8 && s.len() == 1 {
        return Err(ParseIntError { kind: IntErrorKind::InvalidDigit });
    }
    assert(s@.subrange(0, s@.len() as int) =~= s@);
    parse_digits_exec(s, 0, radix, max)
}

/// Parses decimal text as a `u8`.
pub fn parse_u8(s: &str) -> (r: Result<u8, ParseIntError>)
    ensures
        r matches Ok(v) ==> parse_result(bytes_of(s), 10, 255) == Ok::<nat, ParseIntError>(v as nat),
        r matches Err(e) ==> parse_result(bytes_of(s), 10, 255) == Err::<nat, ParseIntError>(e),
{
    match parse_uint(s.as_bytes(), 10, 255) {
        Ok(v) => {
            proof { lemma_parse_result_bound(bytes_of(s), 10, 255); }
            Ok(v as u8)
        },
        Err(e) => Err(e),
    }
}

/// The non-zero `u8` denoted by decimal text.
pub open spec fn nonzero_u8_spec(s: Seq<u8>) -> Result<u8, ParseIntError> {
    match parse_result(s, 10, 255) {
        Ok(v) => if v == 0 {
            Err(ParseIntError { kind: IntErrorKind::Zero })
        } else {
            Ok(v as u8)
        },
        Err(e) => Err(e),
    }
}

/// Parses decimal text as a non-zero `u8`.
pub fn parse_nonzero_u8(s: &str) -> (r: Result<u8, ParseIntError>)
    ensures
        r == nonzero_u8_spec(bytes_of(s)),
{
    match parse_u8(s) {
        Ok(v) => if v == 0 {
            Err(ParseIntError { kind: IntErrorKind::Zero })
        } else {
            Ok(v)
        },
        Err(e) => Err(e),
    }
}

/// Parses decimal text as a `u16`.
pub fn parse_u16(s: &str) -> (r: Result<u16, ParseIntError>)
    ensures
        r matches Ok(v) ==> parse_result(bytes_of(s), 10, 65535) == Ok::<nat, ParseIntError>(v as nat),
        r matches Err(e) ==> parse_result(bytes_of(s), 10, 65535) == Err::<nat, ParseIntError>(e),
{
    match parse_uint(s.as_bytes(), 10, 65535) {
        Ok(v) => {
            proof { lemma_parse_result_bound(bytes_of(s), 10, 65535); }
            Ok(v as u16)
        },
        Err(e) => Err(e),
    }
}

/// Parses decimal text as a `u32`.
pub fn parse_u32(s: &str) -> (r: Result<u32, ParseIntError>)
    ensures
        r matches Ok(v) ==> parse_result(bytes_of(s), 10, 0xffff_ffff) == Ok::<nat, ParseIntError>(v as nat),
        r matches Err(e) ==> parse_result(bytes_of(s), 10, 0xffff_ffff) == Err::<nat, ParseIntError>(e),
{
    match parse_uint(s.as_bytes(), 10, 0xffff_ffff) {
        Ok(v) => {
            proof { lemma_parse_result_bound(bytes_of(s), 10, 0xffff_ffff); }
            Ok(v as u32)
        },
        Err(e) => Err(e),
    }
}

/// A parsed value never exceeds its bound.
pub proof fn lemma_parse_result_bound(s: Seq<u8>, radix: nat, max: nat)
    ensures
        parse_result(s, radix, max) matches Ok(v) ==> v <= max,
{
    if s.len() > 0 {
        lemma_parse_digits_bound(s, radix, max);
        lemma_parse_digits_bound(s.drop_first(), radix, max);
    }
}


/// The signed decimal integer denoted by `s`, with an optional sign, within 64 bits.
pub open spec fn parse_i64_spec(s: Seq<u8>) -> Result<int, ParseIntError> {
    if s.len() > 1 && s[0] == 45u8 {
        match parse_digits(s.drop_first(), 10, 0x8000_0000_0000_0000) {
            Ok(v) => Ok(-v),
            Err(IntErrorKind::PosOverflow) => Err(ParseIntError { kind: IntErrorKind::NegOverflow }),
            Err(kind) => Err(ParseIntError { kind }),
        }
    } else {
        match parse_result(s, 10, 0x7fff_ffff_ffff_ffff) {
            Ok(v) => Ok(v as int),
            Err(e) => Err(e),
        }
    }
}

/// Parses decimal text as an `i64`.
pub fn parse_i64(s: &str) -> (r: Result<i64, ParseIntError>)
    ensures
        match parse_i64_spec(bytes_of(s)) {
            Ok(v) => r == Ok::<i64, ParseIntError>(v as i64),
            Err(e) => r == Err::<i64, ParseIntError>(e),
        },
{
    let b = s.as_bytes();
    if b.len() > 1 && b[0] == 45u8 {
        proof { assert(b@.subrange(1, b@.len() as int) =~= b@.drop_first()); }
        match parse_digits_exec(b, 1, 10, 0x8000_0000_0000_0000) {
            Ok(v) => {
                proof { lemma_parse_digits_bound(b@.drop_first(), 10, 0x8000_0000_0000_0000); }
                if v == 0x8000_0000_0000_0000 {
                    Ok(i64::MIN)
                } else {
                    Ok(-(v as i64))
                }
            },
            Err(e) => {
                if e.kind == IntErrorKind::PosOverflow {
                    Err(ParseIntError { kind: IntErrorKind::NegOverflow })
                } else {
                    Err(e)
                }
            },
        }
    } else {
        match parse_uint(b, 10, 0x7fff_ffff_ffff_ffff) {
            Ok(v) => {
                proof { lemma_parse_result_bound(b@, 10, 0x7fff_ffff_ffff_ffff); }
                Ok(v as i64)
            },
            Err(e) => Err(e),
        }
    }
}

/// The character of a decimal digit.
pub open spec fn digit_char(d: nat) -> char {
    ((d + 48) as u8) as char
}

/// The decimal numeral of `n`, without leading zeros.
pub open spec fn decimal(n: nat) -> Seq<char>
    decreases n,
{
    if n < 10 {
        seq![digit_char(n)]
    } else {
        decimal(n / 10).push(digit_char(n % 10))
    }
}

/// A numeral has a digit, and two or more from ten on.
pub proof fn lemma_decimal_len(n: nat)
    ensures
        decimal(n).len() >= 1,
        n >= 10 ==> decimal(n).len() >= 2,
    decreases n,
{
    if n >= 10 {
        lemma_decimal_len(n / 10);
    }
}

/// Different numbers have different numerals.
pub proof fn lemma_decimal_injective(a: nat, b: nat)
    requires
        decimal(a) == decimal(b),
    ensures
        a == b,
    decreases a,
{
    lemma_decimal_len(a);
    lemma_decimal_len(b);
    if a < 10 && b < 10 {
        assert(decimal(a)[0] == digit_char(a));
        assert(decimal(b)[0] == digit_char(b));
        assert(((a + 48) as u8) as u32 == a + 48);
        assert(((b + 48) as u8) as u32 == b + 48);
    } else if a >= 10 && b >= 10 {
        assert(decimal(a).drop_last() =~= decimal(a / 10));
        assert(decimal(b).drop_last() =~= decimal(b / 10));
        lemma_decimal_injective(a / 10, b / 10);
        assert(decimal(a).last() == digit_char(a % 10));
        assert(decimal(b).last() == digit_char(b % 10));
        assert(((a % 10 + 48) as u8) as u32 == a % 10 + 48);
        assert(((b % 10 + 48) as u8) as u32 == b % 10 + 48);
    } else {
        assert(decimal(a).len() != decimal(b).len());
    }
}

/// Appends the decimal numeral of `n` to `out`.
pub fn push_decimal(n: u64, out: &mut String)
    ensures
        final(out)@ == old(out)@ + decimal(n as nat),
    decreases n,
{
    if n >= 10 {
        push_decimal(n / 10, out);
    }
    let d: u8 = (n % 10) as u8;
    let ghost before = out@;
    push_char(out, (d + 48) as char);
    assert(out@ =~= old(out)@ + decimal(n as nat));
}

/// The character of an upper-case hexadecimal digit.
pub open spec fn hex_char(d: nat) -> char {
    if d < 10 {
        ((d + 48) as u8) as char
    } else {
        ((d + 55) as u8) as char
    }
}

/// The upper-case hexadecimal numeral of `n`, without leading zeros.
pub open spec fn upper_hex(n: nat) -> Seq<char>
    decreases n,
{
    if n < 16 {
        seq![hex_char(n)]
    } else {
        upper_hex(n / 16).push(hex_char(n % 16))
    }
}

/// Appends the upper-case hexadecimal numeral of `n` to `out`.
pub fn push_upper_hex(n: u64, out: &mut String)
    ensures
        final(out)@ == old(out)@ + upper_hex(n as nat),
    decreases n,
{
    if n >= 16 {
        push_upper_hex(n / 16, out);
    }
    let d: u8 = (n % 16) as u8;
    if d < 10 {
        push_char(out, (d + 48) as char);
    } else {
        push_char(out, (d + 55) as char);
    }
    assert(out@ =~= old(out)@ + upper_hex(n as nat));
}

/// The decimal numeral of `v`, with a minus sign where it is negative.
pub open spec fn signed_decimal(v: int) -> Seq<char> {
    if v < 0 {
        seq!['-'] + decimal((-v) as nat)
    } else {
        decimal(v as nat)
    }
}

/// `v.to_string()` for a signed number.
pub fn to_signed_decimal(v: i64) -> (r: String)
    ensures
        r@ == signed_decimal(v as int),
{
    let mut out = String::new();
    if v < 0 {
        push_char(&mut out, '-');
        let magnitude: u64 = (0i128 - v as i128) as u64;
        push_decimal(magnitude, &mut out);
    } else {
        push_decimal(v as u64, &mut out);
    }
    out
}

/// `n` in decimal, with a leading zero below ten.
pub open spec fn pad2(n: nat) -> Seq<char> {
    if n < 10 {
        seq!['0'] + decimal(n)
    } else {
        decimal(n)
    }
}

/// Appends `n` in decimal, with a leading zero below ten.
pub fn push_pad2(n: u8, out: &mut String)
    ensures
        final(out)@ == old(out)@ + pad2(n as nat),
{
    if n < 10 {
        push_char(out, '0');
    }
    let ghost mid = out@;
    push_decimal(n as u64, out);
    assert(out@ == mid + decimal(n as nat));
    if n < 10 {
        assert(out@ =~= old(out)@ + (seq!['0'] + decimal(n as nat)));
    }
}

/// `n.to_string()`: the decimal numeral of `n`.
pub fn to_decimal(n: u64) -> (r: String)
    ensures
        r@ == decimal(n as nat),
{
    let mut out = String::new();
    push_decimal(n, &mut out);
    assert(out@ =~= decimal(n as nat));
    out
}

} // verus!
