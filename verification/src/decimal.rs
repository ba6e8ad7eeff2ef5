//! Decimal integers: how they are written and how they are read back.

use vstd::prelude::*;

use crate::text::to_chars;

verus! {

// ---------------------------------------------------------------------------
// Writing
// ---------------------------------------------------------------------------

/// The character of a decimal digit.
pub open spec fn digit_char(d: nat) -> char {
    (48 + d) as char
}

/// The decimal digits of a natural number, the most significant first.
pub open spec fn dec(n: nat) -> Seq<char>
    decreases n,
{
    if n < 10 {
        seq![digit_char(n)]
    } else {
        dec(n / 10).push(digit_char(n % 10))
    }
}

/// The decimal form of an integer, with a minus sign where it is negative.
pub open spec fn dec_int(n: int) -> Seq<char> {
    if n < 0 {
        seq!['-'] + dec((-n) as nat)
    } else {
        dec(n as nat)
    }
}

fn push_dec(out: &mut String, n: u128)
    ensures
        final(out)@ == old(out)@ + dec(n as nat),
    decreases n,
{
    if n >= 10 {
        push_dec(out, n / 10);
    }
    let d: u8 = (n % 10) as u8;
    let c: char = (48 + d) as char;
    out.push(c);
    assert(final(out)@ =~= old(out)@ + dec(n as nat));
}

/// The decimal form of a natural number.
pub fn u128_to_string(n: u128) -> (s: String)
    ensures
        s@ == dec(n as nat),
{
    let mut s = String::new();
    push_dec(&mut s, n);
    assert(s@ =~= dec(n as nat));
    s
}

/// The decimal form of a count.
pub fn usize_to_string(n: usize) -> (s: String)
    ensures
        s@ == dec(n as nat),
{
    u128_to_string(n as u128)
}

/// The decimal form of a signed integer.
pub fn i64_to_string(n: i64) -> (s: String)
    ensures
        s@ == dec_int(n as int),
{
    let mut s = String::new();
    if n < 0 {
        s.push('-');
        let m: u128 = (-(n as i128)) as u128;
        push_dec(&mut s, m);
        assert(s@ =~= dec_int(n as int));
    } else {
        push_dec(&mut s, n as u128);
        assert(s@ =~= dec_int(n as int));
    }
    s
}

/// The decimal form of a signed integer.
pub fn i32_to_string(n: i32) -> (s: String)
    ensures
        s@ == dec_int(n as int),
{
    i64_to_string(n as i64)
}

// ---------------------------------------------------------------------------
// Reading
// ---------------------------------------------------------------------------

/// Why a text is not a decimal integer of the wanted type.
#[derive(Clone, Copy, Debug, PartialEq, Eq, Structural)]
pub enum IntError {
    /// The text is empty.
    Empty,
    /// A character is no digit, or the text is a lone sign.
    InvalidDigit,
    /// The number is greater than the type's greatest value.
    PosOverflow,
    /// The number is less than the type's least value.
    NegOverflow,
}

impl IntError {
    /// The text that describes the error.
    pub open spec fn text(self) -> Seq<char> {
        match self {
            IntError::Empty => "cannot parse integer from empty string"@,
            IntError::InvalidDigit => "invalid digit found in string"@,
            IntError::PosOverflow => "number too large to fit in target type"@,
            IntError::NegOverflow => "number too small to fit in target type"@,
        }
    }

    /// The text that describes the error.
    pub fn message(&self) -> (s: String)
        ensures
            s@ == self.text(),
    {
        match self {
            IntError::Empty => "cannot parse integer from empty string".to_owned(),
            IntError::InvalidDigit => "invalid digit found in string".to_owned(),
            IntError::PosOverflow => "number too large to fit in target type".to_owned(),
            IntError::NegOverflow => "number too small to fit in target type".to_owned(),
        }
    }
}

/// Whether a character is a decimal digit.
pub open spec fn is_digit(c: char) -> bool {
    '0' <= c <= '9'
}

/// The value of a decimal digit.
pub open spec fn digit_value(c: char) -> nat {
    (c as nat - 48) as nat
}

/// The value that the digits `s` give behind the digits of `acc`, where it stays within `limit`.
/// The first character that is no digit, or the first digit that passes the limit, decides the
/// error.
pub open spec fn scan(s: Seq<char>, acc: nat, limit: nat, over: IntError) -> Result<nat, IntError>
    decreases s.len(),
{
    if s.len() == 0 {
        Ok(acc)
    } else if !is_digit(s[0]) {
        Err(IntError::InvalidDigit)
    } else {
        let v = acc * 10 + digit_value(s[0]);
        if v > limit {
            Err(over)
        } else {
            scan(s.drop_first(), v, limit, over)
        }
    }
}

/// Reads an integer of a type whose greatest value is `max`. The type has negative values, down
/// to `-neg`, where `neg` is given.
pub open spec fn parse_int(s: Seq<char>, max: nat, neg: Option<nat>) -> Result<int, IntError> {
    if s.len() == 0 {
        Err(IntError::Empty)
    } else if s.len() == 1 && (s[0] == '+' || s[0] == '-') {
        Err(IntError::InvalidDigit)
    } else if s[0] == '+' {
        match scan(s.drop_first(), 0, max, IntError::PosOverflow) {
            Ok(v) => Ok(v as int),
            Err(e) => Err(e),
        }
    } else if s[0] == '-' && neg is Some {
        match scan(s.drop_first(), 0, neg->0, IntError::NegOverflow) {
            Ok(v) => Ok(-(v as int)),
            Err(e) => Err(e),
        }
    } else {
        match scan(s, 0, max, IntError::PosOverflow) {
            Ok(v) => Ok(v as int),
            Err(e) => Err(e),
        }
    }
}

fn scan_from(v: &Vec<char>, start: usize, limit: u128, over: IntError) -> (r: Result<u128, IntError>)
    requires
        start <= v@.len(),
    ensures
        match r {
            Ok(n) => scan(v@.skip(start as int), 0, limit as nat, over) == Ok::<nat, IntError>(
                n as nat,
            ) && n <= limit,
            Err(e) => scan(v@.skip(start as int), 0, limit as nat, over) == Err::<nat, IntError>(e),
        },
{
    let mut acc: u128 = 0;
    let mut i: usize = start;
    while i < v.len()
        invariant
            start <= i <= v@.len(),
            acc <= limit,
            scan(v@.skip(i as int), acc as nat, limit as nat, over) == scan(
                v@.skip(start as int),
                0,
                limit as nat,
                over,
            ),
        decreases v.len() - i,
    {
        let c: char = v[i];
        assert(v@.skip(i as int)[0] == c);
        assert(v@.skip(i as int).drop_first() =~= v@.skip(i as int + 1));
        if !('0' <= c && c <= '9') {
            return Err(IntError::InvalidDigit);
        }
        let d: u128 = (c as u32 - 48) as u128;
        let next: u128 = match acc.checked_mul(10) {
            Some(m) => match m.checked_add(d) {
                Some(n) => n,
                None => {
                    return Err(over);
                },
            },
            None => {
                return Err(over);
            },
        };
        if next > limit {
            return Err(over);
        }
        acc = next;
        i = i + 1;
    }
    assert(v@.skip(i as int) =~= Seq::<char>::empty());
    Ok(acc)
}

/// Reads an integer whose magnitude is at most `max`, or at most `neg` behind a minus sign where
/// `neg` is given. The result is the sign (true for minus) and the magnitude.
fn parse_signed(s: &str, max: u128, neg: Option<u128>) -> (r: Result<(bool, u128), IntError>)
    ensures
        match r {
            Ok((minus, m)) => {
                let n: int = if minus {
                    -(m as int)
                } else {
                    m as int
                };
                let least: Option<nat> = match neg {
                    Some(k) => Some(k as nat),
                    None => None,
                };
                &&& parse_int(s@, max as nat, least) == Ok::<int, IntError>(n)
                &&& minus ==> (neg is Some && m <= neg->0)
                &&& !minus ==> m <= max
            },
            Err(e) => {
                let least: Option<nat> = match neg {
                    Some(k) => Some(k as nat),
                    None => None,
                };
                parse_int(s@, max as nat, least) == Err::<int, IntError>(e)
            },
        },
{
    let v = to_chars(s);
    assert(v@.skip(0) =~= v@);
    if v.len() == 0 {
        return Err(IntError::Empty);
    }
    assert(v@.skip(1) =~= v@.drop_first());
    if v.len() == 1 && (v[0] == '+' || v[0] == '-') {
        return Err(IntError::InvalidDigit);
    }
    if v[0] == '+' {
        return match scan_from(&v, 1, max, IntError::PosOverflow) {
            Ok(m) => Ok((false, m)),
            Err(e) => Err(e),
        };
    }
    if v[0] == '-' {
        if let Some(k) = neg {
            return match scan_from(&v, 1, k, IntError::NegOverflow) {
                Ok(m) => Ok((true, m)),
                Err(e) => Err(e),
            };
        }
    }
    match scan_from(&v, 0, max, IntError::PosOverflow) {
        Ok(m) => Ok((false, m)),
        Err(e) => Err(e),
    }
}

/// Reads a text as an `i32`.
pub open spec fn parse_i32_of(s: Seq<char>) -> Result<int, IntError> {
    parse_int(s, 0x7fff_ffff, Some(0x8000_0000))
}

/// Reads a text as an `i32`.
pub fn parse_i32(s: &str) -> (r: Result<i32, IntError>)
    ensures
        match r {
            Ok(n) => parse_i32_of(s@) == Ok::<int, IntError>(n as int),
            Err(e) => parse_i32_of(s@) == Err::<int, IntError>(e),
        },
{
    match parse_signed(s, 0x7fff_ffff, Some(0x8000_0000)) {
        Ok((minus, m)) => {
            let n: i64 = if minus {
                -(m as i64)
            } else {
                m as i64
            };
            Ok(n as i32)
        },
        Err(e) => Err(e),
    }
}

/// Reads a text as a `u64`.
pub open spec fn parse_u64_of(s: Seq<char>) -> Result<int, IntError> {
    parse_int(s, u64::MAX as nat, None)
}

/// Reads a text as a `u64`.
pub fn parse_u64(s: &str) -> (r: Result<u64, IntError>)
    ensures
        match r {
            Ok(n) => parse_u64_of(s@) == Ok::<int, IntError>(n as int),
            Err(e) => parse_u64_of(s@) == Err::<int, IntError>(e),
        },
{
    match parse_signed(s, u64::MAX as u128, None) {
        Ok((_, m)) => Ok(m as u64),
        Err(e) => Err(e),
    }
}

/// Reads a text as a `usize`.
pub open spec fn parse_usize_of(s: Seq<char>) -> Result<int, IntError> {
    parse_int(s, usize::MAX as nat, None)
}

/// Reads a text as a `usize`.
pub fn parse_usize(s: &str) -> (r: Result<usize, IntError>)
    ensures
        match r {
            Ok(n) => parse_usize_of(s@) == Ok::<int, IntError>(n as int),
            Err(e) => parse_usize_of(s@) == Err::<int, IntError>(e),
        },
{
    match parse_signed(s, usize::MAX as u128, None) {
        Ok((_, m)) => Ok(m as usize),
        Err(e) => Err(e),
    }
}

/// Reads a text as a `u128`.
pub open spec fn parse_u128_of(s: Seq<char>) -> Result<int, IntError> {
    parse_int(s, u128::MAX as nat, None)
}

/// Reads a text as a `u128`.
pub fn parse_u128(s: &str) -> (r: Result<u128, IntError>)
    ensures
        match r {
            Ok(n) => parse_u128_of(s@) == Ok::<int, IntError>(n as int),
            Err(e) => parse_u128_of(s@) == Err::<int, IntError>(e),
        },
{
    match parse_signed(s, u128::MAX, None) {
        Ok((_, m)) => Ok(m),
        Err(e) => Err(e),
    }
}

// ---------------------------------------------------------------------------
// What is written is read back
// ---------------------------------------------------------------------------

pub proof fn lemma_dec_digits(n: nat)
    ensures
        dec(n).len() >= 1,
        forall|i: int| 0 <= i < dec(n).len() ==> is_digit(#[trigger] dec(n)[i]),
    decreases n,
{
    if n >= 10 {
        lemma_dec_digits(n / 10);
    }
}

proof fn lemma_scan_push(s: Seq<char>, c: char, acc: nat, limit: nat, over: IntError)
    requires
        scan(s, acc, limit, over) is Ok,
        is_digit(c),
        scan(s, acc, limit, over)->Ok_0 * 10 + digit_value(c) <= limit,
    ensures
        scan(s.push(c), acc, limit, over) == Ok::<nat, IntError>(
            scan(s, acc, limit, over)->Ok_0 * 10 + digit_value(c),
        ),
    decreases s.len(),
{
    reveal_with_fuel(scan, 2);
    if s.len() == 0 {
        assert(s.push(c).drop_first() =~= Seq::<char>::empty());
    } else {
        assert(s.push(c).drop_first() =~= s.drop_first().push(c));
        lemma_scan_push(s.drop_first(), c, acc * 10 + digit_value(s[0]), limit, over);
    }
}

proof fn lemma_scan_dec(n: nat, limit: nat, over: IntError)
    requires
        n <= limit,
    ensures
        scan(dec(n), 0, limit, over) == Ok::<nat, IntError>(n),
    decreases n,
{
    reveal_with_fuel(scan, 2);
    if n < 10 {
        let s = seq![digit_char(n)];
        assert(s.drop_first() =~= Seq::<char>::empty());
    } else {
        lemma_scan_dec(n / 10, limit, over);
        lemma_scan_push(dec(n / 10), digit_char(n % 10), 0, limit, over);
    }
}

/// Reading the decimal form of an `i32` gives that `i32` back.
pub proof fn law_i32_round_trip(n: i32)
    ensures
        parse_i32_of(dec_int(n as int)) == Ok::<int, IntError>(n as int),
{
    if n < 0 {
        let m = (-(n as int)) as nat;
        lemma_dec_digits(m);
        lemma_scan_dec(m, 0x8000_0000, IntError::NegOverflow);
        assert(dec_int(n as int).drop_first() =~= dec(m));
    } else {
        lemma_dec_digits(n as nat);
        lemma_scan_dec(n as nat, 0x7fff_ffff, IntError::PosOverflow);
        assert(is_digit(dec(n as nat)[0]));
    }
}

/// The number that digits stand for.
pub open spec fn value_of(digits: Seq<char>) -> nat
    decreases digits.len(),
{
    if digits.len() == 0 {
        0
    } else {
        value_of(digits.drop_last()) * 10 + digit_value(digits.last())
    }
}

/// Whether all characters of a text are digits.
pub open spec fn all_digits(s: Seq<char>) -> bool {
    forall|i: int| 0 <= i < s.len() ==> is_digit(#[trigger] s[i])
}

proof fn lemma_value_is_monotone(s: Seq<char>, k: int)
    requires
        0 <= k <= s.len(),
    ensures
        value_of(s.take(k)) <= value_of(s),
    decreases s.len(),
{
    if k == s.len() {
        assert(s.take(k) =~= s);
    } else {
        lemma_value_is_monotone(s.drop_last(), k);
        assert(s.drop_last().take(k) =~= s.take(k));
    }
}

proof fn lemma_scan_behind(s: Seq<char>, k: int, limit: nat, over: IntError)
    requires
        0 <= k <= s.len(),
        all_digits(s.take(k)),
        value_of(s.take(k)) <= limit,
        over != IntError::InvalidDigit,
    ensures
        match scan(s.skip(k), value_of(s.take(k)), limit, over) {
            Ok(v) => all_digits(s) && v == value_of(s) && v <= limit,
            Err(e) => (e == over || e == IntError::InvalidDigit) && !(all_digits(s) && value_of(s)
                <= limit) && (e == IntError::InvalidDigit ==> !all_digits(s)),
        },
    decreases s.len() - k,
{
    let rest = s.skip(k);
    if k == s.len() {
        assert(s.take(k) =~= s);
    } else {
        assert(rest[0] == s[k]);
        if is_digit(s[k]) {
            assert(s.take(k + 1).drop_last() =~= s.take(k));
            assert(s.take(k + 1).last() == s[k]);
            lemma_value_is_monotone(s, k + 1);
            if value_of(s.take(k + 1)) <= limit {
                assert(rest.drop_first() =~= s.skip(k + 1));
                assert forall|i: int| 0 <= i < k + 1 implies is_digit(
                    #[trigger] s.take(k + 1)[i],
                ) by {
                    if i < k {
                        assert(s.take(k)[i] == s.take(k + 1)[i]);
                    }
                }
                lemma_scan_behind(s, k + 1, limit, over);
            }
        }
    }
}

/// Digits are read as the number that they stand for, exactly where it is within the limit.
pub proof fn law_digits_are_read_in_full(s: Seq<char>, limit: nat, over: IntError)
    requires
        over != IntError::InvalidDigit,
    ensures
        scan(s, 0, limit, over) is Ok <==> all_digits(s) && value_of(s) <= limit,
        scan(s, 0, limit, over) is Ok ==> scan(s, 0, limit, over) == Ok::<nat, IntError>(
            value_of(s),
        ),
        all_digits(s) && value_of(s) > limit ==> scan(s, 0, limit, over) == Err::<nat, IntError>(
            over,
        ),
{
    assert(s.take(0) =~= Seq::<char>::empty());
    assert(s.skip(0) =~= s);
    lemma_scan_behind(s, 0, limit, over);
    if all_digits(s) && value_of(s) > limit {
        match scan(s, 0, limit, over) {
            Ok(_) => {},
            Err(e) => {
                assert(e != IntError::InvalidDigit);
            },
        }
    }
}

/// Whether a text is a decimal integer: digits, at least one, behind a sign or not. A minus sign is
/// one only where there are negative numbers.
pub open spec fn is_decimal(s: Seq<char>, negative: bool) -> bool {
    let digits = if s.len() > 0 && (s[0] == '+' || (s[0] == '-' && negative)) {
        s.drop_first()
    } else {
        s
    };
    digits.len() > 0 && all_digits(digits)
}

/// The number that a decimal integer stands for.
pub open spec fn number_of(s: Seq<char>) -> int {
    if s[0] == '-' {
        -(value_of(s.drop_first()) as int)
    } else if s[0] == '+' {
        value_of(s.drop_first()) as int
    } else {
        value_of(s) as int
    }
}

proof fn lemma_parse(s: Seq<char>, max: nat, neg: Option<nat>)
    ensures
        match parse_int(s, max, neg) {
            Ok(n) => is_decimal(s, neg is Some) && n == number_of(s) && n <= max && (n >= 0 || (neg
                matches Some(k) && -n <= k)),
            Err(_) => !(is_decimal(s, neg is Some) && number_of(s) <= max && (number_of(s) >= 0 || (
            neg matches Some(k) && -number_of(s) <= k))),
        },
{
    if s.len() > 0 {
        law_digits_are_read_in_full(s, max, IntError::PosOverflow);
        law_digits_are_read_in_full(s.drop_first(), max, IntError::PosOverflow);
        if let Some(k) = neg {
            law_digits_are_read_in_full(s.drop_first(), k, IntError::NegOverflow);
        }
        if all_digits(s) {
            assert(is_digit(s[0]));
        }
    }
}

/// A text is read as an integer exactly where it is a decimal integer of the type's range, and then
/// as the number that it stands for.
pub proof fn law_numbers_are_read_exactly(s: Seq<char>)
    ensures
        parse_i32_of(s) is Ok <==> is_decimal(s, true) && i32::MIN <= number_of(s) <= i32::MAX,
        parse_i32_of(s) is Ok ==> parse_i32_of(s) == Ok::<int, IntError>(number_of(s)),
        parse_u64_of(s) is Ok <==> is_decimal(s, false) && 0 <= number_of(s) <= u64::MAX,
        parse_u64_of(s) is Ok ==> parse_u64_of(s) == Ok::<int, IntError>(number_of(s)),
        parse_usize_of(s) is Ok <==> is_decimal(s, false) && 0 <= number_of(s) <= usize::MAX,
        parse_usize_of(s) is Ok ==> parse_usize_of(s) == Ok::<int, IntError>(number_of(s)),
        parse_u128_of(s) is Ok <==> is_decimal(s, false) && 0 <= number_of(s) <= u128::MAX,
        parse_u128_of(s) is Ok ==> parse_u128_of(s) == Ok::<int, IntError>(number_of(s)),
{
    lemma_parse(s, usize::MAX as nat, None);
    lemma_parse(s, u128::MAX as nat, None);
    lemma_parse(s, 0x7fff_ffff, Some(0x8000_0000));
    lemma_parse(s, u64::MAX as nat, None);
}

/// The decimal form of a number stands for that number.
pub proof fn law_decimal_form_stands_for_the_number(n: int)
    ensures
        is_decimal(dec_int(n), true),
        number_of(dec_int(n)) == n,
        n >= 0 ==> is_decimal(dec_int(n), false),
{
    let m: nat = if n < 0 {
        (-n) as nat
    } else {
        n as nat
    };
    lemma_dec_digits(m);
    lemma_scan_dec(m, m, IntError::PosOverflow);
    law_digits_are_read_in_full(dec(m), m, IntError::PosOverflow);
    if n < 0 {
        assert(dec_int(n).drop_first() =~= dec(m));
    } else {
        assert(is_digit(dec(m)[0]));
    }
}

}
