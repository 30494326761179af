//! Rows of bytes, and bytes written in hexadecimal.

use vstd::prelude::*;
use vstd::string::*;
use vstd::utf8::encode_utf8;

use crate::text::chars_of;

verus! {

/// Whether `s` holds `pat` at index `i`.
pub open spec fn bytes_at(s: Seq<u8>, pat: Seq<u8>, i: int) -> bool {
    0 <= i && i + pat.len() <= s.len() && s.subrange(i, i + pat.len()) == pat
}

/// The index at which `pat` first stands in `s`.
pub open spec fn first_bytes(s: Seq<u8>, pat: Seq<u8>) -> Option<int>
    decreases s.len(),
{
    if bytes_at(s, pat, 0) {
        Some(0int)
    } else if s.len() == 0 {
        None
    } else {
        match first_bytes(s.drop_first(), pat) {
            Some(i) => Some(i + 1),
            None => None,
        }
    }
}

/// `first_bytes` gives the least index at which the pattern stands.
pub proof fn first_bytes_is_first(s: Seq<u8>, pat: Seq<u8>)
    ensures
        match first_bytes(s, pat) {
            Some(i) => bytes_at(s, pat, i) && forall|j: int| 0 <= j < i ==> !bytes_at(s, pat, j),
            None => forall|j: int| !bytes_at(s, pat, j),
        },
    decreases s.len(),
{
    if !bytes_at(s, pat, 0) && s.len() > 0 {
        let t = s.drop_first();
        first_bytes_is_first(t, pat);
        assert forall|j: int| 0 < j implies bytes_at(s, pat, j) == bytes_at(t, pat, j - 1) by {
            if 0 < j && j + pat.len() <= s.len() {
                assert(s.subrange(j, j + pat.len()) =~= t.subrange(j - 1, j - 1 + pat.len()));
            }
        }
        match first_bytes(t, pat) {
            Some(i) => {
                assert forall|j: int| 0 <= j < i + 1 implies !bytes_at(s, pat, j) by {
                    if j > 0 {
                        assert(!bytes_at(t, pat, j - 1));
                    }
                }
            },
            None => {
                assert forall|j: int| !bytes_at(s, pat, j) by {
                    if j > 0 {
                        assert(!bytes_at(t, pat, j - 1));
                    }
                }
            },
        }
    }
}

/// An index with no earlier occurrence is the first one.
pub proof fn first_bytes_is_unique(s: Seq<u8>, pat: Seq<u8>, i: int)
    requires
        bytes_at(s, pat, i),
        forall|j: int| 0 <= j < i ==> !bytes_at(s, pat, j),
    ensures
        first_bytes(s, pat) == Some(i),
{
    first_bytes_is_first(s, pat);
}

/// Whether `pat` stands in `s` at `i`.
pub fn is_at(s: &[u8], pat: &[u8], i: usize) -> (r: bool)
    ensures
        r == bytes_at(s@, pat@, i as int),
{
    let n: usize = s.len();
    if n < pat.len() || n - pat.len() < i {
        return false;
    }
    let mut k: usize = 0;
    while k < pat.len()
        invariant
            n == s@.len(),
            i + pat@.len() <= n,
            k <= pat@.len(),
            forall|j: int| 0 <= j < k ==> s@[i + j] == pat@[j],
        decreases pat.len() - k,
    {
        if s[i + k] != pat[k] {
            assert(s@.subrange(i as int, i + pat@.len())[k as int] != pat@[k as int]);
            return false;
        }
        k += 1;
    }
    assert(s@.subrange(i as int, i + pat@.len()) =~= pat@);
    true
}

/// The index at which `pat` first stands in `s`.
pub fn position(s: &[u8], pat: &[u8]) -> (r: Option<usize>)
    ensures
        match r {
            Some(i) => first_bytes(s@, pat@) == Some(i as int) && i + pat@.len() <= s@.len(),
            None => first_bytes(s@, pat@) is None,
        },
{
    proof {
        first_bytes_is_first(s@, pat@);
    }
    let mut i: usize = 0;
    while i <= s.len()
        invariant
            forall|j: int| 0 <= j < i ==> !bytes_at(s@, pat@, j),
            match first_bytes(s@, pat@) {
                Some(f) => bytes_at(s@, pat@, f),
                None => true,
            },
        decreases s.len() + 1 - i,
    {
        if is_at(s, pat, i) {
            proof {
                first_bytes_is_unique(s@, pat@, i as int);
            }
            return Some(i);
        }
        if i == s.len() {
            return None;
        }
        i += 1;
    }
    None
}

/// The bytes from `from` up to but not including `to`.
pub fn part(s: &[u8], from: usize, to: usize) -> (r: Vec<u8>)
    requires
        from <= to <= s@.len(),
    ensures
        r@ == s@.subrange(from as int, to as int),
{
    let mut out: Vec<u8> = Vec::new();
    extend(&mut out, s, from, to);
    assert(out@ =~= s@.subrange(from as int, to as int));
    out
}

/// Appends the bytes of `s` from `from` up to but not including `to`.
pub fn extend(out: &mut Vec<u8>, s: &[u8], from: usize, to: usize)
    requires
        from <= to <= s@.len(),
    ensures
        final(out)@ == old(out)@ + s@.subrange(from as int, to as int),
{
    let ghost before = out@;
    let mut i: usize = from;
    assert(before + s@.subrange(from as int, from as int) =~= before);
    while i < to
        invariant
            from <= i <= to <= s@.len(),
            out@ == before + s@.subrange(from as int, i as int),
        decreases to - i,
    {
        out.push(s[i]);
        assert((before + s@.subrange(from as int, i as int)).push(s@[i as int]) =~= before
            + s@.subrange(from as int, i + 1));
        i += 1;
    }
}

/// Appends a text in UTF-8.
pub fn extend_text(out: &mut Vec<u8>, s: &str)
    ensures
        final(out)@ == old(out)@ + encode_utf8(s@),
{
    let bytes = s.as_bytes();
    let n: usize = bytes.len();
    extend(out, bytes, 0, n);
    assert(bytes@.subrange(0, n as int) =~= bytes@);
}

/// Whether the two rows of bytes are the same.
pub fn same_bytes(a: &[u8], b: &[u8]) -> (r: bool)
    ensures
        r == (a@ == b@),
{
    let equal = a.len() == b.len() && is_at(a, b, 0);
    assert(a@.len() == b@.len() ==> a@.subrange(0, b@.len() as int) =~= a@);
    equal
}

/// The value of a hexadecimal digit, in either case.
pub open spec fn hex_value(c: char) -> Option<nat> {
    if '0' <= c <= '9' {
        Some((c as nat - '0' as nat) as nat)
    } else if 'a' <= c <= 'f' {
        Some((c as nat - 'a' as nat + 10) as nat)
    } else if 'A' <= c <= 'F' {
        Some((c as nat - 'A' as nat + 10) as nat)
    } else {
        None
    }
}

/// The value of a hexadecimal digit.
pub fn hex_digit(c: char) -> (r: Option<u8>)
    ensures
        match r {
            Some(d) => hex_value(c) == Some(d as nat) && d < 16,
            None => hex_value(c) is None,
        },
{
    if '0' <= c && c <= '9' {
        Some(c as u8 - '0' as u8)
    } else if 'a' <= c && c <= 'f' {
        Some(c as u8 - 'a' as u8 + 10)
    } else if 'A' <= c && c <= 'F' {
        Some(c as u8 - 'A' as u8 + 10)
    } else {
        None
    }
}

/// The hexadecimal digit, a capital, of a value below sixteen.
pub open spec fn hex_upper_digit(n: nat) -> char {
    if n < 10 {
        ('0' as nat + n) as char
    } else {
        ('A' as nat + n - 10) as char
    }
}

/// The hexadecimal digit, a small letter, of a value below sixteen.
pub open spec fn hex_lower_digit(n: nat) -> char {
    if n < 10 {
        ('0' as nat + n) as char
    } else {
        ('a' as nat + n - 10) as char
    }
}

/// Bytes in hexadecimal, two capitals for each.
pub open spec fn hex_upper_of(bytes: Seq<u8>) -> Seq<char> {
    Seq::new(
        2 * bytes.len(),
        |i: int|
            hex_upper_digit(
                if i % 2 == 0 {
                    bytes[i / 2] as nat / 16
                } else {
                    bytes[i / 2] as nat % 16
                },
            ),
    )
}

/// Bytes in hexadecimal, two small letters for each.
pub open spec fn hex_lower_of(bytes: Seq<u8>) -> Seq<char> {
    Seq::new(
        2 * bytes.len(),
        |i: int|
            hex_lower_digit(
                if i % 2 == 0 {
                    bytes[i / 2] as nat / 16
                } else {
                    bytes[i / 2] as nat % 16
                },
            ),
    )
}

/// Writes bytes in hexadecimal capitals.
pub fn hex_upper(bytes: &[u8]) -> (r: String)
    ensures
        r@ == hex_upper_of(bytes@),
{
    let mut out = String::new();
    let mut i: usize = 0;
    assert(bytes@.take(0) =~= Seq::empty());
    while i < bytes.len()
        invariant
            i <= bytes@.len(),
            out@ =~= hex_upper_of(bytes@.take(i as int)),
        decreases bytes.len() - i,
    {
        let high: u8 = bytes[i] / 16;
        let low: u8 = bytes[i] % 16;
        out.push(if high < 10 { ('0' as u8 + high) as char } else { ('A' as u8 + (high - 10)) as char });
        out.push(if low < 10 { ('0' as u8 + low) as char } else { ('A' as u8 + (low - 10)) as char });
        i += 1;
    }
    assert(bytes@.take(i as int) =~= bytes@);
    out
}

/// Writes bytes in hexadecimal small letters.
pub fn hex_lower(bytes: &[u8]) -> (r: String)
    ensures
        r@ == hex_lower_of(bytes@),
{
    let mut out = String::new();
    let mut i: usize = 0;
    assert(bytes@.take(0) =~= Seq::empty());
    while i < bytes.len()
        invariant
            i <= bytes@.len(),
            out@ =~= hex_lower_of(bytes@.take(i as int)),
        decreases bytes.len() - i,
    {
        let high: u8 = bytes[i] / 16;
        let low: u8 = bytes[i] % 16;
        out.push(if high < 10 { ('0' as u8 + high) as char } else { ('a' as u8 + (high - 10)) as char });
        out.push(if low < 10 { ('0' as u8 + low) as char } else { ('a' as u8 + (low - 10)) as char });
        i += 1;
    }
    assert(bytes@.take(i as int) =~= bytes@);
    out
}

/// The value of a row of hexadecimal digits.
pub open spec fn hex_digits_value(s: Seq<char>) -> Option<nat>
    decreases s.len(),
{
    if s.len() == 0 {
        Some(0nat)
    } else {
        match (hex_digits_value(s.drop_last()), hex_value(s.last())) {
            (Some(n), Some(d)) => Some(n * 16 + d),
            _ => None,
        }
    }
}

/// The number that a text writes in hexadecimal, with an optional plus sign before it.
pub open spec fn hex_number_of(s: Seq<char>) -> Option<nat> {
    let d = if s.len() > 0 && s[0] == '+' {
        s.drop_first()
    } else {
        s
    };
    if d.len() == 0 {
        None
    } else {
        hex_digits_value(d)
    }
}

/// A row of digits has a value only if each part at its start has one, which is not greater.
pub proof fn hex_digits_value_grows(s: Seq<char>, i: int)
    requires
        0 <= i <= s.len(),
    ensures
        match (hex_digits_value(s), hex_digits_value(s.take(i))) {
            (Some(n), Some(m)) => m <= n,
            (Some(_), None) => false,
            _ => true,
        },
    decreases s.len() - i,
{
    if i < s.len() {
        hex_digits_value_grows(s, i + 1);
        assert(s.take(i + 1).drop_last() =~= s.take(i));
    } else {
        assert(s.take(i) =~= s);
    }
}

/// Reads a number written in hexadecimal.
pub fn parse_hex(s: &str) -> (r: Option<usize>)
    ensures
        match r {
            Some(n) => hex_number_of(s@) == Some(n as nat),
            None => match hex_number_of(s@) {
                Some(n) => n > usize::MAX,
                None => true,
            },
        },
{
    let chars = chars_of(s);
    let from: usize = if chars.len() > 0 && chars[0] == '+' { 1 } else { 0 };
    let ghost d = s@.skip(from as int);
    assert(from == 1 ==> d =~= s@.drop_first());
    assert(from == 0 ==> d =~= s@);
    if from >= chars.len() {
        return None;
    }
    let mut total: usize = 0;
    let mut i: usize = from;
    assert(d.take(0) =~= Seq::empty());
    while i < chars.len()
        invariant
            chars@ == s@,
            from <= i <= chars@.len(),
            d == s@.skip(from as int),
            d.len() == s@.len() - from,
            hex_number_of(s@) == hex_digits_value(d),
            hex_digits_value(d.take(i - from)) == Some(total as nat),
        decreases chars.len() - i,
    {
        let ghost k = i - from;
        assert(d.take(k + 1).drop_last() =~= d.take(k));
        assert(d.take(k + 1).last() == chars@[i as int]);
        match hex_digit(chars[i]) {
            None => {
                proof {
                    hex_digits_value_grows(d, k + 1);
                }
                return None;
            },
            Some(v) => {
                let wide: u128 = (total as u128) * 16 + (v as u128);
                if wide > usize::MAX as u128 {
                    proof {
                        hex_digits_value_grows(d, k + 1);
                    }
                    return None;
                }
                total = wide as usize;
            },
        }
        i += 1;
    }
    assert(d.take(i - from) =~= d);
    Some(total)
}

/// A number in hexadecimal.
pub open spec fn hex_text(n: nat) -> Seq<char>
    decreases n,
{
    if n < 16 {
        seq![hex_lower_digit(n)]
    } else {
        hex_text(n / 16).push(hex_lower_digit(n % 16))
    }
}

/// A number in hexadecimal reads back as that number and holds only digits.
pub proof fn hex_text_reads_back(n: nat)
    ensures
        hex_text(n).len() > 0,
        hex_digits_value(hex_text(n)) == Some(n),
        forall|i: int| 0 <= i < hex_text(n).len() ==> hex_value(#[trigger] hex_text(n)[i]) is Some,
    decreases n,
{
    if n < 16 {
        assert(hex_text(n).drop_last() =~= Seq::empty());
        assert(hex_digits_value(Seq::<char>::empty()) == Some(0nat));
    } else {
        hex_text_reads_back(n / 16);
        assert(hex_text(n).drop_last() =~= hex_text(n / 16));
    }
}

/// Writes a number in hexadecimal.
pub fn write_hex(n: u64) -> (r: String)
    ensures
        r@ == hex_text(n as nat),
    decreases n,
{
    let mut out = if n < 16 { String::new() } else { write_hex(n / 16) };
    let low: u8 = (n % 16) as u8;
    out.push(if low < 10 { ('0' as u8 + low) as char } else { ('a' as u8 + (low - 10)) as char });
    assert(n < 16 ==> out@ =~= hex_text(n as nat));
    out
}

/// A byte reads back from its two digits in hexadecimal, of which the first counts sixteen times as
/// much, whether they are capitals or small letters.
pub proof fn a_byte_reads_back_from_its_digits(bytes: Seq<u8>, i: int)
    requires
        0 <= i < bytes.len(),
    ensures
        hex_lower_of(bytes).len() == 2 * bytes.len(),
        hex_upper_of(bytes).len() == 2 * bytes.len(),
        hex_value(hex_lower_of(bytes)[2 * i]) is Some,
        hex_value(hex_lower_of(bytes)[2 * i + 1]) is Some,
        hex_value(hex_lower_of(bytes)[2 * i])->0 * 16 + hex_value(hex_lower_of(bytes)[2 * i + 1])->0
            == bytes[i],
        hex_value(hex_upper_of(bytes)[2 * i]) == hex_value(hex_lower_of(bytes)[2 * i]),
        hex_value(hex_upper_of(bytes)[2 * i + 1]) == hex_value(hex_lower_of(bytes)[2 * i + 1]),
        !('A' <= hex_lower_of(bytes)[2 * i] <= 'F'),
        !('A' <= hex_lower_of(bytes)[2 * i + 1] <= 'F'),
        !('a' <= hex_upper_of(bytes)[2 * i] <= 'f'),
        !('a' <= hex_upper_of(bytes)[2 * i + 1] <= 'f'),
{
    let b = bytes[i] as nat;
    assert((2 * i) / 2 == i && (2 * i) % 2 == 0);
    assert((2 * i + 1) / 2 == i && (2 * i + 1) % 2 == 1);
    assert(b / 16 < 16 && b % 16 < 16 && (b / 16) * 16 + b % 16 == b);
    assert(hex_lower_of(bytes)[2 * i] == hex_lower_digit(b / 16));
    assert(hex_lower_of(bytes)[2 * i + 1] == hex_lower_digit(b % 16));
    assert(hex_upper_of(bytes)[2 * i] == hex_upper_digit(b / 16));
    assert(hex_upper_of(bytes)[2 * i + 1] == hex_upper_digit(b % 16));
}

/// Reading a number that was written in hexadecimal gives the number, with a plus sign before it too.
pub proof fn a_number_in_hexadecimal_reads_back(n: nat)
    ensures
        hex_number_of(hex_text(n)) == Some(n),
        hex_number_of(seq!['+'] + hex_text(n)) == Some(n),
        hex_number_of(Seq::empty()) is None,
{
    hex_text_reads_back(n);
    assert(hex_value(hex_text(n)[0]) is Some);
    assert((seq!['+'] + hex_text(n)).drop_first() =~= hex_text(n));
}

} // verus!
