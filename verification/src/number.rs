//! Numbers written in decimal.

use vstd::prelude::*;
use vstd::string::*;

use crate::text::{chars_of, slice};

verus! {

/// The digit of a value below ten.
pub open spec fn digit(n: nat) -> char {
    (('0' as nat) + n) as char
}

/// Whether a character is one of the ten digits.
pub open spec fn is_digit(c: char) -> bool {
    '0' <= c <= '9'
}

/// A number in decimal, without leading zeros.
pub open spec fn decimal(n: nat) -> Seq<char>
    decreases n,
{
    if n < 10 {
        seq![digit(n)]
    } else {
        decimal(n / 10).push(digit(n % 10))
    }
}

/// A signed number in decimal.
pub open spec fn decimal_int(n: int) -> Seq<char> {
    if n < 0 {
        seq!['-'] + decimal((-n) as nat)
    } else {
        decimal(n as nat)
    }
}

/// The value of a row of digits.
pub open spec fn digits_value(s: Seq<char>) -> nat
    decreases s.len(),
{
    if s.len() == 0 {
        0
    } else {
        digits_value(s.drop_last()) * 10 + (s.last() as nat - '0' as nat) as nat
    }
}

/// Whether every character is a digit.
pub open spec fn all_digits(s: Seq<char>) -> bool {
    forall|i: int| 0 <= i < s.len() ==> is_digit(#[trigger] s[i])
}

/// Whether `s` is a number: at least one digit, and nothing else.
pub open spec fn is_number(s: Seq<char>) -> bool {
    s.len() > 0 && all_digits(s)
}

/// The digits after an optional plus sign.
pub open spec fn after_plus(s: Seq<char>) -> Seq<char> {
    if s.len() > 0 && s[0] == '+' {
        s.drop_first()
    } else {
        s
    }
}

/// The number not above `max` that the text writes.
pub open spec fn unsigned_of(s: Seq<char>, max: nat) -> Option<nat> {
    let d = after_plus(s);
    if is_number(d) && digits_value(d) <= max {
        Some(digits_value(d))
    } else {
        None
    }
}

/// The signed 64-bit number that the text writes.
pub open spec fn signed_of(s: Seq<char>) -> Option<int> {
    if s.len() > 0 && s[0] == '-' {
        let d = s.drop_first();
        if is_number(d) && digits_value(d) <= 0x8000_0000_0000_0000 {
            Some(-(digits_value(d) as int))
        } else {
            None
        }
    } else {
        match unsigned_of(s, i64::MAX as nat) {
            Some(n) => Some(n as int),
            None => None,
        }
    }
}

/// What a number in decimal is made of, and that reading it gives the number back.
pub proof fn decimal_reads_back(n: nat)
    ensures
        is_number(decimal(n)),
        digits_value(decimal(n)) == n,
    decreases n,
{
    if n < 10 {
        assert(decimal(n).drop_last() =~= Seq::empty());
        assert(digits_value(Seq::<char>::empty()) == 0);
    } else {
        decimal_reads_back(n / 10);
        assert(decimal(n).drop_last() =~= decimal(n / 10));
    }
}

/// Reading a number that was written gives the number.
pub proof fn unsigned_reads_back(n: nat, max: nat)
    requires
        n <= max,
    ensures
        unsigned_of(decimal(n), max) == Some(n),
{
    decimal_reads_back(n);
    assert(is_digit(decimal(n)[0]));
}

/// Reading a signed number that was written gives the number.
pub proof fn signed_reads_back(n: i64)
    ensures
        signed_of(decimal_int(n as int)) == Some(n as int),
{
    if n < 0 {
        decimal_reads_back((-n) as nat);
        assert(decimal_int(n as int).drop_first() =~= decimal((-n) as nat));
    } else {
        decimal_reads_back(n as nat);
        assert(is_digit(decimal(n as nat)[0]));
        unsigned_reads_back(n as nat, i64::MAX as nat);
    }
}

/// The digit of a value below ten.
pub fn digit_char(n: u64) -> (r: char)
    requires
        n < 10,
    ensures
        r == digit(n as nat),
{
    if n == 0 { '0' } else if n == 1 { '1' } else if n == 2 { '2' } else if n == 3 { '3' } else if n == 4 {
        '4'
    } else if n == 5 { '5' } else if n == 6 { '6' } else if n == 7 { '7' } else if n == 8 { '8' } else {
        '9'
    }
}

/// Writes a number in decimal.
pub fn write_u64(n: u64) -> (r: String)
    ensures
        r@ == decimal(n as nat),
    decreases n,
{
    let mut out = if n < 10 { String::new() } else { write_u64(n / 10) };
    out.push(digit_char(n % 10));
    assert(n < 10 ==> out@ =~= decimal(n as nat));
    out
}

/// Writes a signed number in decimal.
pub fn write_i64(n: i64) -> (r: String)
    ensures
        r@ == decimal_int(n as int),
{
    if n < 0 {
        let size: u64 = if n == i64::MIN { 0x8000_0000_0000_0000 } else { (-n) as u64 };
        let mut out = String::new();
        out.push('-');
        let digits = write_u64(size);
        out.append(digits.as_str());
        assert(out@ =~= decimal_int(n as int));
        out
    } else {
        write_u64(n as u64)
    }
}

/// The value of a digit.
pub fn digit_value(c: char) -> (r: Option<u64>)
    ensures
        is_digit(c) ==> r == Some((c as nat - '0' as nat) as u64),
        !is_digit(c) ==> r is None,
{
    if '0' <= c && c <= '9' { Some((c as u32 - '0' as u32) as u64) } else { None }
}

/// A longer row of digits has no smaller value.
pub proof fn digits_value_grows(s: Seq<char>, i: int)
    requires
        all_digits(s),
        0 <= i <= s.len(),
    ensures
        digits_value(s.take(i)) <= digits_value(s),
    decreases s.len() - i,
{
    if i < s.len() {
        digits_value_grows(s, i + 1);
        assert(s.take(i + 1).drop_last() =~= s.take(i));
        assert(is_digit(s[i]));
    } else {
        assert(s.take(i) =~= s);
    }
}

/// The value of a row of digits, where it is not above `max`.
pub fn parse_digits(s: &[char], max: u64) -> (r: Option<u64>)
    ensures
        match r {
            Some(n) => is_number(s@) && digits_value(s@) == n && n <= max,
            None => !is_number(s@) || digits_value(s@) > max,
        },
{
    if s.len() == 0 {
        return None;
    }
    let mut total: u64 = 0;
    let mut i: usize = 0;
    assert(s@.take(0) =~= Seq::empty());
    while i < s.len()
        invariant
            i <= s@.len(),
            forall|k: int| 0 <= k < i ==> is_digit(#[trigger] s@[k]),
            digits_value(s@.take(i as int)) == total,
            total <= max,
        decreases s.len() - i,
    {
        assert(s@.take(i + 1).drop_last() =~= s@.take(i as int));
        match digit_value(s[i]) {
            None => {
                assert(!is_digit(s@[i as int]));
                return None;
            },
            Some(d) => {
                let wide: u128 = (total as u128) * 10 + (d as u128);
                if wide > max as u128 {
                    proof {
                        if all_digits(s@) {
                            digits_value_grows(s@, i + 1);
                        }
                    }
                    return None;
                }
                total = wide as u64;
            },
        }
        i += 1;
    }
    assert(s@.take(i as int) =~= s@);
    Some(total)
}

/// Reads an unsigned number that is not above `max`.
pub fn parse_unsigned(s: &str, max: u64) -> (r: Option<u64>)
    ensures
        match r {
            Some(n) => unsigned_of(s@, max as nat) == Some(n as nat),
            None => unsigned_of(s@, max as nat) is None,
        },
{
    let chars = chars_of(s);
    if chars.len() > 0 && chars[0] == '+' {
        let rest = slice(&chars, 1, chars.len());
        assert(rest@ =~= s@.drop_first());
        parse_digits(&rest, max)
    } else {
        parse_digits(&chars, max)
    }
}

/// Reads a signed number.
pub fn parse_i64(s: &str) -> (r: Option<i64>)
    ensures
        match r {
            Some(n) => signed_of(s@) == Some(n as int),
            None => signed_of(s@) is None,
        },
{
    let chars = chars_of(s);
    if chars.len() > 0 && chars[0] == '-' {
        let rest = slice(&chars, 1, chars.len());
        assert(rest@ =~= s@.drop_first());
        match parse_digits(&rest, 0x8000_0000_0000_0000) {
            Some(n) => if n == 0x8000_0000_0000_0000 {
                Some(i64::MIN)
            } else {
                Some(-(n as i64))
            },
            None => None,
        }
    } else {
        match parse_unsigned(s, i64::MAX as u64) {
            Some(n) => Some(n as i64),
            None => None,
        }
    }
}

/// A whole number reduced to 32 bits with a sign, as arithmetic that wraps around gives it.
pub open spec fn wrapped(n: int) -> int {
    (n + 0x8000_0000) % 0x1_0000_0000 - 0x8000_0000
}

/// Reduces a number to 32 bits with a sign.
pub fn wrap(n: i128) -> (r: i32)
    requires
        -0x1_0000_0000_0000_0000_0000 <= n <= 0x1_0000_0000_0000_0000_0000,
    ensures
        r == wrapped(n as int),
{
    // A multiple of two to the power of 32 above the bound, so that the sum is not negative.
    let raised: u128 = (n + 0x1_0000_0000_0000_0000_0000 + 0x8000_0000) as u128;
    let low: u128 = raised % 0x1_0000_0000;
    assert(low as int == (n + 0x8000_0000) % 0x1_0000_0000) by (nonlinear_arith)
        requires
            low as int == (n + 0x1_0000_0000_0000_0000_0000 + 0x8000_0000) % 0x1_0000_0000,
    {
        assert(0x1_0000_0000_0000_0000_0000 == 0x1_0000_0000 * 0x1_0000_0000_0000);
        vstd::arithmetic::div_mod::lemma_mod_multiples_vanish(
            0x1_0000_0000_0000,
            n + 0x8000_0000,
            0x1_0000_0000,
        );
    }
    ((low as i64) - 0x8000_0000) as i32
}

/// Adds numbers, wrapping around where the sum does not fit.
pub fn wrapping_sum(a: i32, b: i32) -> (r: i32)
    ensures
        r == wrapped(a + b),
{
    wrap((a as i128) + (b as i128))
}

/// A number that fits is kept, and one that does not is moved into reach by whole rounds.
pub proof fn wrapping_goes_round(n: int)
    ensures
        -0x8000_0000 <= wrapped(n) <= 0x7fff_ffff,
        -0x8000_0000 <= n <= 0x7fff_ffff ==> wrapped(n) == n,
        (n - wrapped(n)) % 0x1_0000_0000 == 0,
        wrapped(n + 0x1_0000_0000) == wrapped(n),
{
}

} // verus!
