//! Decimal integers: reading them from text and writing them out.

use vstd::prelude::*;

verus! {

pub open spec fn is_digit(c: char) -> bool {
    0x30 <= c as u32 <= 0x39
}

pub open spec fn digit_value(c: char) -> nat {
    (c as u32 - 0x30) as nat
}

pub open spec fn all_digits(s: Seq<char>) -> bool {
    forall|i: int| 0 <= i < s.len() ==> is_digit(#[trigger] s[i])
}

/// The number that a run of digits denotes, most significant digit first.
pub open spec fn digits_value(s: Seq<char>) -> nat
    decreases s.len(),
{
    if s.len() == 0 {
        0
    } else {
        digits_value(s.drop_last()) * 10 + digit_value(s.last())
    }
}

/// Why a text is not a number of the wanted type.
#[derive(Clone, Copy, Debug, PartialEq, Eq, Structural)]
pub enum NumberError {
    /// The text is empty.
    Empty,
    /// The text is not an optional sign followed by one or more digits.
    InvalidDigit,
    /// The number is above the largest value of the type.
    TooLarge,
    /// The number is below the smallest value of the type.
    TooSmall,
}

/// The digits of a literal, behind its sign if it has one. A minus sign
/// belongs to the literal only where `signed` is set.
pub open spec fn literal_body(s: Seq<char>, signed: bool) -> Seq<char> {
    if s.len() > 0 && (s[0] == '+' || (signed && s[0] == '-')) {
        s.skip(1)
    } else {
        s
    }
}

pub open spec fn literal_negative(s: Seq<char>, signed: bool) -> bool {
    signed && s.len() > 0 && s[0] == '-'
}

/// What a decimal literal denotes within the range `lo ..= hi`: an optional
/// `+` (or `-`, where `lo` is negative) and at least one digit. A text that is
/// not of this form is an invalid digit whatever its size.
pub open spec fn decimal_in_range(s: Seq<char>, lo: int, hi: int) -> Result<int, NumberError> {
    let body = literal_body(s, lo < 0);
    if s.len() == 0 {
        Err(NumberError::Empty)
    } else if body.len() == 0 || !all_digits(body) {
        Err(NumberError::InvalidDigit)
    } else if literal_negative(s, lo < 0) {
        if -digits_value(body) < lo {
            Err(NumberError::TooSmall)
        } else {
            Ok(-digits_value(body))
        }
    } else {
        if digits_value(body) > hi {
            Err(NumberError::TooLarge)
        } else {
            Ok(digits_value(body) as int)
        }
    }
}

pub open spec fn decimal_i64(s: Seq<char>) -> Result<int, NumberError> {
    decimal_in_range(s, i64::MIN as int, i64::MAX as int)
}

pub open spec fn decimal_u64(s: Seq<char>) -> Result<int, NumberError> {
    decimal_in_range(s, 0, u64::MAX as int)
}

pub open spec fn decimal_u16(s: Seq<char>) -> Result<int, NumberError> {
    decimal_in_range(s, 0, u16::MAX as int)
}

pub open spec fn decimal_i8(s: Seq<char>) -> Result<int, NumberError> {
    decimal_in_range(s, i8::MIN as int, i8::MAX as int)
}

pub fn char_is_digit(c: char) -> (b: bool)
    ensures
        b == is_digit(c),
{
    let u: u32 = c as u32;
    0x30 <= u && u <= 0x39
}

/// Reads the decimal literal at `chars[start..end]` as a number between `lo`
/// and `hi`.
pub fn parse_decimal(chars: &Vec<char>, start: usize, end: usize, lo: i128, hi: i128) -> (r: Result<
    i128,
    NumberError,
>)
    requires
        start <= end <= chars@.len(),
        -0x1_0000_0000_0000_0000 <= lo <= 0 <= hi <= 0x1_0000_0000_0000_0000,
    ensures
        r matches Ok(v) ==> decimal_in_range(
            chars@.subrange(start as int, end as int),
            lo as int,
            hi as int,
        ) == Ok::<int, NumberError>(v as int),
        r matches Err(e) ==> decimal_in_range(
            chars@.subrange(start as int, end as int),
            lo as int,
            hi as int,
        ) == Err::<int, NumberError>(e),
{
    let ghost s = chars@.subrange(start as int, end as int);
    if start == end {
        return Err(NumberError::Empty);
    }
    let first = chars[start];
    assert(s[0] == first);
    let negative = lo < 0 && first == '-';
    let from = if first == '+' || negative {
        start + 1
    } else {
        start
    };
    let ghost body = literal_body(s, lo < 0);
    assert(body == chars@.subrange(from as int, end as int));
    if from == end {
        return Err(NumberError::InvalidDigit);
    }
    let limit: u128 = 0x1_0000_0000_0000_0000;
    let mut acc: u128 = 0;
    let mut big = false;
    let mut k: usize = from;
    while k < end
        invariant
            from <= k <= end <= chars@.len(),
            start <= end,
            s == chars@.subrange(start as int, end as int),
            s.len() > 0,
            body == literal_body(s, lo < 0),
            body.len() > 0,
            body == chars@.subrange(from as int, end as int),
            limit == 0x1_0000_0000_0000_0000,
            all_digits(body.take(k - from)),
            !big ==> acc == digits_value(body.take(k - from)) && acc <= limit,
            big ==> digits_value(body.take(k - from)) > limit,
        decreases end - k,
    {
        let c = chars[k];
        assert(body[k - from] == c);
        assert(body.take(k - from + 1).drop_last() == body.take(k - from));
        if !char_is_digit(c) {
            return Err(NumberError::InvalidDigit);
        }
        if !big {
            let d: u128 = (c as u32 - 0x30) as u128;
            acc = acc * 10 + d;
            if acc > limit {
                big = true;
            }
        }
        k += 1;
    }
    assert(body.take(end - from) == body);
    if negative {
        if big || -(acc as i128) < lo {
            Err(NumberError::TooSmall)
        } else {
            Ok(-(acc as i128))
        }
    } else {
        if big || acc as i128 > hi {
            Err(NumberError::TooLarge)
        } else {
            Ok(acc as i128)
        }
    }
}

pub fn parse_i64(chars: &Vec<char>, start: usize, end: usize) -> (r: Result<i64, NumberError>)
    requires
        start <= end <= chars@.len(),
    ensures
        r matches Ok(v) ==> decimal_i64(chars@.subrange(start as int, end as int)) == Ok::<
            int,
            NumberError,
        >(v as int),
        r matches Err(e) ==> decimal_i64(chars@.subrange(start as int, end as int)) == Err::<
            int,
            NumberError,
        >(e),
{
    match parse_decimal(chars, start, end, i64::MIN as i128, i64::MAX as i128) {
        Ok(v) => Ok(v as i64),
        Err(e) => Err(e),
    }
}

pub fn parse_u64(chars: &Vec<char>, start: usize, end: usize) -> (r: Result<u64, NumberError>)
    requires
        start <= end <= chars@.len(),
    ensures
        r matches Ok(v) ==> decimal_u64(chars@.subrange(start as int, end as int)) == Ok::<
            int,
            NumberError,
        >(v as int),
        r matches Err(e) ==> decimal_u64(chars@.subrange(start as int, end as int)) == Err::<
            int,
            NumberError,
        >(e),
{
    match parse_decimal(chars, start, end, 0, u64::MAX as i128) {
        Ok(v) => Ok(v as u64),
        Err(e) => Err(e),
    }
}

pub fn parse_u16(chars: &Vec<char>, start: usize, end: usize) -> (r: Result<u16, NumberError>)
    requires
        start <= end <= chars@.len(),
    ensures
        r matches Ok(v) ==> decimal_u16(chars@.subrange(start as int, end as int)) == Ok::<
            int,
            NumberError,
        >(v as int),
        r matches Err(e) ==> decimal_u16(chars@.subrange(start as int, end as int)) == Err::<
            int,
            NumberError,
        >(e),
{
    match parse_decimal(chars, start, end, 0, u16::MAX as i128) {
        Ok(v) => Ok(v as u16),
        Err(e) => Err(e),
    }
}

pub fn parse_i8(chars: &Vec<char>, start: usize, end: usize) -> (r: Result<i8, NumberError>)
    requires
        start <= end <= chars@.len(),
    ensures
        r matches Ok(v) ==> decimal_i8(chars@.subrange(start as int, end as int)) == Ok::<
            int,
            NumberError,
        >(v as int),
        r matches Err(e) ==> decimal_i8(chars@.subrange(start as int, end as int)) == Err::<
            int,
            NumberError,
        >(e),
{
    match parse_decimal(chars, start, end, i8::MIN as i128, i8::MAX as i128) {
        Ok(v) => Ok(v as i8),
        Err(e) => Err(e),
    }
}

/// The character that writes a digit.
pub open spec fn digit_char(d: nat) -> char {
    if d == 0 {
        '0'
    } else if d == 1 {
        '1'
    } else if d == 2 {
        '2'
    } else if d == 3 {
        '3'
    } else if d == 4 {
        '4'
    } else if d == 5 {
        '5'
    } else if d == 6 {
        '6'
    } else if d == 7 {
        '7'
    } else if d == 8 {
        '8'
    } else {
        '9'
    }
}

/// A number written in decimal, without leading zeros.
pub open spec fn decimal_digits(n: nat) -> Seq<char>
    decreases n,
{
    if n < 10 {
        seq![digit_char(n)]
    } else {
        decimal_digits(n / 10).push(digit_char(n % 10))
    }
}

/// An integer written in decimal, with a minus sign where it is negative.
pub open spec fn decimal_signed(n: int) -> Seq<char> {
    if n < 0 {
        seq!['-'] + decimal_digits((-n) as nat)
    } else {
        decimal_digits(n as nat)
    }
}

pub fn digit_str(d: u8) -> (s: &'static str)
    requires
        d < 10,
    ensures
        s@ == seq![digit_char(d as nat)],
{
    proof {
        reveal_strlit("0");
        reveal_strlit("1");
        reveal_strlit("2");
        reveal_strlit("3");
        reveal_strlit("4");
        reveal_strlit("5");
        reveal_strlit("6");
        reveal_strlit("7");
        reveal_strlit("8");
        reveal_strlit("9");
    }
    let s = match d {
        0 => "0",
        1 => "1",
        2 => "2",
        3 => "3",
        4 => "4",
        5 => "5",
        6 => "6",
        7 => "7",
        8 => "8",
        _ => "9",
    };
    assert(s@ =~= seq![digit_char(d as nat)]);
    s
}

/// Appends a number in decimal to a text.
pub fn push_decimal(out: &mut String, n: u128)
    ensures
        final(out)@ == old(out)@ + decimal_digits(n as nat),
    decreases n,
{
    if n >= 10 {
        push_decimal(out, n / 10);
    }
    out.append(digit_str((n % 10) as u8));
    proof {
        let d = seq![digit_char((n % 10) as nat)];
        if n >= 10 {
            assert(old(out)@ + decimal_digits((n / 10) as nat) + d == old(out)@ + decimal_digits(
                (n / 10) as nat,
            ).push(digit_char((n % 10) as nat)));
        }
    }
}

pub fn decimal_string(n: u128) -> (s: String)
    ensures
        s@ == decimal_digits(n as nat),
{
    let mut s = String::new();
    push_decimal(&mut s, n);
    s
}

pub fn push_signed(out: &mut String, n: i64)
    ensures
        final(out)@ == old(out)@ + decimal_signed(n as int),
{
    if n < 0 {
        proof {
            reveal_strlit("-");
        }
        out.append("-");
        assert("-"@ =~= seq!['-']);
        let m: u128 = (-(n as i128)) as u128;
        push_decimal(out, m);
        assert(old(out)@ + seq!['-'] + decimal_digits(m as nat) == old(out)@ + (seq!['-']
            + decimal_digits(m as nat)));
    } else {
        push_decimal(out, n as u128);
    }
}

} // verus!
