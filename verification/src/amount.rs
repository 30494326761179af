//! What a number of a JSON document is worth, however it is written.

use vstd::prelude::*;
use vstd::string::*;

use crate::json::Number;
use crate::number::{
    decimal, decimal_reads_back, is_digit, is_number, parse_i64, signed_of, write_u64,
};
use crate::text::{
    after_first, before_first, chars_of, extend, first_of, first_of_is_unique, index_of, same,
    same_chars, slice, string_of,
};

verus! {

/// What a number is worth: its digits without zeros around them, times a power of ten. Zero has no
/// digits. A text that is no number is worth itself.
pub enum Amount {
    Of { negative: bool, digits: Seq<char>, exponent: int },
    Other(Seq<char>),
}

/// Digits without the zeros in front of them.
pub open spec fn without_leading(s: Seq<char>) -> Seq<char>
    decreases s.len(),
{
    if s.len() > 0 && s[0] == '0' {
        without_leading(s.drop_first())
    } else {
        s
    }
}

/// Digits without the zeros behind them.
pub open spec fn without_trailing(s: Seq<char>) -> Seq<char>
    decreases s.len(),
{
    if s.len() > 0 && s.last() == '0' {
        without_trailing(s.drop_last())
    } else {
        s
    }
}

/// What digits times a power of ten are worth.
pub open spec fn worth(negative: bool, digits: Seq<char>, exponent: int) -> Amount {
    let front = without_leading(digits);
    let kept = without_trailing(front);
    if kept.len() == 0 {
        Amount::Of { negative: false, digits: Seq::empty(), exponent: 0 }
    } else {
        Amount::Of { negative, digits: kept, exponent: exponent + front.len() - kept.len() }
    }
}

/// Where the power of ten begins, or the length where there is none.
pub open spec fn power_at(s: Seq<char>) -> int {
    if first_of(s, 'e') < s.len() {
        first_of(s, 'e')
    } else {
        first_of(s, 'E')
    }
}

/// The power of ten that a number is written with.
pub open spec fn power_of(s: Seq<char>) -> Option<int> {
    if power_at(s) < s.len() {
        signed_of(s.skip(power_at(s) + 1))
    } else {
        Some(0)
    }
}

/// The number without its sign.
pub open spec fn unsigned_part(s: Seq<char>) -> Seq<char> {
    if s.len() > 0 && s[0] == '-' {
        s.drop_first()
    } else {
        s
    }
}

/// What a text is worth as a number: digits, a part after a point, and a power of ten, the last two
/// of which it need not have.
pub open spec fn worth_of_text(s: Seq<char>) -> Amount {
    let body = unsigned_part(s);
    let mantissa = body.take(power_at(body));
    let whole = before_first(mantissa, '.');
    let part = after_first(mantissa, '.');
    let pointed = first_of(mantissa, '.') < mantissa.len();
    if is_number(whole) && (pointed ==> is_number(part)) && power_of(body) is Some {
        worth(s.len() > 0 && s[0] == '-', whole + part, power_of(body)->0 - part.len())
    } else {
        Amount::Other(s)
    }
}

/// What a number is worth.
pub open spec fn amount_of(n: Number) -> Amount {
    match n {
        Number::Unsigned(n) => worth(false, decimal(n as nat), 0),
        Number::Negative(n) => worth(
            n < 0,
            decimal(
                if n < 0 {
                    (-n) as nat
                } else {
                    n as nat
                },
            ),
            0,
        ),
        Number::Decimal(s) => worth_of_text(s@),
    }
}

/// An amount that was worked out.
enum Worth {
    Of { negative: bool, digits: Vec<char>, exponent: i128 },
    Other(String),
}

impl Worth {
    /// What was worked out.
    spec fn amount(self) -> Amount {
        match self {
            Worth::Of { negative, digits, exponent } => Amount::Of {
                negative,
                digits: digits@,
                exponent: exponent as int,
            },
            Worth::Other(s) => Amount::Other(s@),
        }
    }
}

/// Works out what digits times a power of ten are worth.
fn reduce(negative: bool, digits: &Vec<char>, exponent: i128) -> (r: Worth)
    requires
        -0x4000_0000_0000_0000_0000 <= exponent <= 0x4000_0000_0000_0000_0000,
    ensures
        r.amount() == worth(negative, digits@, exponent as int),
{
    let mut from: usize = 0;
    assert(digits@.skip(0) =~= digits@);
    while from < digits.len() && digits[from] == '0'
        invariant
            from <= digits@.len(),
            without_leading(digits@) == without_leading(digits@.skip(from as int)),
        decreases digits.len() - from,
    {
        assert(digits@.skip(from as int).drop_first() =~= digits@.skip(from + 1));
        from += 1;
    }
    let ghost front = digits@.skip(from as int);
    assert(without_leading(digits@) == front);
    let mut to: usize = digits.len();
    assert(front.take(to - from) =~= front);
    while to > from && digits[to - 1] == '0'
        invariant
            from <= to <= digits@.len(),
            front == digits@.skip(from as int),
            without_trailing(front) == without_trailing(front.take(to - from)),
        decreases to,
    {
        assert(front.take(to - from).drop_last() =~= front.take(to - from - 1));
        to -= 1;
    }
    assert(without_trailing(front) == front.take(to - from));
    let kept = slice(digits, from, to);
    assert(kept@ =~= front.take(to - from));
    if kept.len() == 0 {
        let none: Vec<char> = Vec::new();
        assert(none@ =~= Seq::empty());
        return Worth::Of { negative: false, digits: none, exponent: 0 };
    }
    let zeros: usize = digits.len() - to;
    Worth::Of { negative, digits: kept, exponent: exponent + zeros as i128 }
}

/// Works out what a text is worth.
fn read_worth(s: &str) -> (r: Worth)
    ensures
        r.amount() == worth_of_text(s@),
{
    let chars = chars_of(s);
    let negative = chars.len() > 0 && chars[0] == '-';
    let start: usize = if negative {
        1
    } else {
        0
    };
    let body = slice(&chars, start, chars.len());
    assert(body@ =~= unsigned_part(s@));
    assert(body@.skip(0) =~= body@);
    let small: usize = index_of(&body, 'e', 0);
    let at: usize = if small < body.len() {
        small
    } else {
        index_of(&body, 'E', 0)
    };
    let power: Option<i64> = if at < body.len() {
        let rest = slice(&body, at + 1, body.len());
        assert(rest@ =~= body@.skip(at + 1));
        parse_i64(string_of(&rest).as_str())
    } else {
        Some(0)
    };
    let mantissa = slice(&body, 0, at);
    assert(mantissa@ =~= body@.take(power_at(body@)));
    assert(mantissa@.skip(0) =~= mantissa@);
    let dot: usize = index_of(&mantissa, '.', 0);
    let whole = slice(&mantissa, 0, dot);
    assert(whole@ =~= before_first(mantissa@, '.'));
    let pointed = dot < mantissa.len();
    let part = if pointed {
        slice(&mantissa, dot + 1, mantissa.len())
    } else {
        Vec::new()
    };
    assert(part@ =~= after_first(mantissa@, '.'));
    let readable = is_written_number(&whole) && (!pointed || is_written_number(&part));
    match power {
        Some(power) => {
            if readable {
                let mut digits = whole;
                let length: usize = part.len();
                extend(&mut digits, &part);
                return reduce(negative, &digits, power as i128 - length as i128);
            }
        },
        None => {},
    }
    Worth::Other(s.to_owned())
}

/// Whether characters are digits and at least one.
fn is_written_number(s: &Vec<char>) -> (r: bool)
    ensures
        r == is_number(s@),
{
    let mut i: usize = 0;
    while i < s.len()
        invariant
            i <= s@.len(),
            forall|k: int| 0 <= k < i ==> is_digit(#[trigger] s@[k]),
        decreases s.len() - i,
    {
        if !('0' <= s[i] && s[i] <= '9') {
            assert(!is_digit(s@[i as int]));
            return false;
        }
        i += 1;
    }
    s.len() > 0
}

/// Works out what a number is worth.
fn work_out(n: &Number) -> (r: Worth)
    ensures
        r.amount() == amount_of(*n),
{
    match n {
        Number::Unsigned(n) => reduce(false, &chars_of(write_u64(*n).as_str()), 0),
        Number::Negative(n) => {
            let size: u64 = if *n == i64::MIN {
                0x8000_0000_0000_0000
            } else if *n < 0 {
                (-*n) as u64
            } else {
                *n as u64
            };
            reduce(*n < 0, &chars_of(write_u64(size).as_str()), 0)
        },
        Number::Decimal(s) => read_worth(s.as_str()),
    }
}

/// Whether two numbers are worth the same, however they are written.
pub fn same_number(a: &Number, b: &Number) -> (r: bool)
    ensures
        r == (amount_of(*a) == amount_of(*b)),
{
    match (work_out(a), work_out(b)) {
        (
            Worth::Of { negative: s, digits: x, exponent: p },
            Worth::Of { negative: t, digits: y, exponent: q },
        ) => {
            let equal = same_chars(&x, &y);
            assert(equal == (x@ == y@));
            s == t && equal && p == q
        },
        (Worth::Other(x), Worth::Other(y)) => same(x.as_str(), y.as_str()),
        _ => false,
    }
}

/// A zero behind the digits and one less in the power of ten change nothing.
pub proof fn a_zero_behind_changes_nothing(negative: bool, digits: Seq<char>, exponent: int)
    ensures
        worth(negative, digits.push('0'), exponent - 1) == worth(negative, digits, exponent),
{
    leading_of_one_more(digits);
    let front = without_leading(digits);
    if front.len() > 0 {
        assert(front.push('0').drop_last() =~= front);
        assert(without_trailing(front.push('0')) == without_trailing(front));
    }
}

/// What stands behind the zeros in front when there is one more zero at the end.
proof fn leading_of_one_more(digits: Seq<char>)
    ensures
        without_leading(digits.push('0')) == (if without_leading(digits).len() == 0 {
            Seq::empty()
        } else {
            without_leading(digits).push('0')
        }),
    decreases digits.len(),
{
    let more = digits.push('0');
    if digits.len() == 0 {
        assert(more.drop_first() =~= Seq::empty());
        assert(without_leading(more.drop_first()) == more.drop_first());
    } else if digits[0] == '0' {
        assert(more.drop_first() =~= digits.drop_first().push('0'));
        leading_of_one_more(digits.drop_first());
    }
}

/// A whole number and the same number with a point and a zero are worth the same.
pub proof fn a_whole_number_is_its_decimal_spelling(n: u64, spelling: String)
    requires
        spelling@ == decimal(n as nat) + ".0"@,
    ensures
        amount_of(Number::Decimal(spelling)) == amount_of(Number::Unsigned(n)),
{
    reveal_strlit(".0");
    let d = decimal(n as nat);
    let s = spelling@;
    decimal_reads_back(n as nat);
    assert(is_digit(d[0]));
    assert(s[0] == d[0]);
    assert(unsigned_part(s) == s);
    assert forall|i: int| 0 <= i < s.len() implies s[i] != 'e' && s[i] != 'E' by {
        if i < d.len() {
            assert(is_digit(d[i]));
            assert(s[i] == d[i]);
        }
    }
    first_of_is_unique(s, 'e', s.len() as int);
    first_of_is_unique(s, 'E', s.len() as int);
    assert(s.take(s.len() as int) =~= s);
    assert forall|i: int| 0 <= i < d.len() implies s[i] != '.' by {
        assert(is_digit(d[i]));
        assert(s[i] == d[i]);
    }
    first_of_is_unique(s, '.', d.len() as int);
    assert(before_first(s, '.') =~= d);
    assert(after_first(s, '.') =~= seq!['0']);
    assert(is_number(seq!['0']));
    assert(d + seq!['0'] =~= d.push('0'));
    a_zero_behind_changes_nothing(false, d, 0);
}

/// Whole numbers are worth the same only where they are the same.
pub proof fn different_numbers_are_worth_different_amounts(a: Number, b: Number)
    requires
        a !is Decimal,
        b !is Decimal,
        amount_of(a) == amount_of(b),
    ensures
        whole_value(a) == whole_value(b),
{
    let x = whole_size(a);
    let y = whole_size(b);
    worth_of_a_whole(whole_value(a) < 0, x);
    worth_of_a_whole(whole_value(b) < 0, y);
    decimal_reads_back(x);
    decimal_reads_back(y);
    if x > 0 && y > 0 {
        let s = decimal(x);
        let t = decimal(y);
        zeros_behind(s);
        zeros_behind(t);
        assert(s.len() == t.len());
        assert(s =~= t) by {
            assert forall|i: int| 0 <= i < s.len() implies s[i] == t[i] by {
                if i < without_trailing(s).len() {
                    assert(without_trailing(s)[i] == s[i]);
                    assert(without_trailing(t)[i] == t[i]);
                }
            }
        }
    }
}

/// The value of a whole number.
pub open spec fn whole_value(n: Number) -> int {
    match n {
        Number::Unsigned(n) => n as int,
        Number::Negative(n) => n as int,
        Number::Decimal(_) => 0,
    }
}

/// The value of a whole number without its sign.
spec fn whole_size(n: Number) -> nat {
    if whole_value(n) < 0 {
        (-whole_value(n)) as nat
    } else {
        whole_value(n) as nat
    }
}

/// What a whole number is worth: its digits without the zeros behind them, and as many tens.
proof fn worth_of_a_whole(negative: bool, n: nat)
    ensures
        n == 0 ==> worth(negative, decimal(n), 0) == (Amount::Of {
            negative: false,
            digits: Seq::empty(),
            exponent: 0,
        }),
        n > 0 ==> worth(negative, decimal(n), 0) == (Amount::Of {
            negative,
            digits: without_trailing(decimal(n)),
            exponent: decimal(n).len() - without_trailing(decimal(n)).len(),
        }) && without_trailing(decimal(n)).len() > 0,
{
    no_zero_in_front(n);
    if n == 0 {
        let s = decimal(0);
        assert(s =~= seq!['0']);
        assert(s.drop_first() =~= Seq::empty());
        assert(without_leading(s.drop_first()) =~= Seq::empty());
        assert(without_leading(s) =~= Seq::empty());
    } else {
        zeros_behind(decimal(n));
    }
}

/// A number above zero begins with no zero.
proof fn no_zero_in_front(n: nat)
    ensures
        decimal(n).len() > 0,
        n > 0 ==> decimal(n)[0] != '0',
    decreases n,
{
    if n >= 10 {
        no_zero_in_front(n / 10);
    }
}

/// Digits are those that stay without the zeros behind them, and those zeros.
proof fn zeros_behind(s: Seq<char>)
    ensures
        without_trailing(s).len() <= s.len(),
        forall|i: int|
            0 <= i < without_trailing(s).len() ==> s[i] == #[trigger] without_trailing(s)[i],
        forall|i: int| without_trailing(s).len() <= i < s.len() ==> #[trigger] s[i] == '0',
        s.len() > 0 && s[0] != '0' ==> without_trailing(s).len() > 0,
    decreases s.len(),
{
    if s.len() > 0 && s.last() == '0' {
        let front = s.drop_last();
        zeros_behind(front);
        assert forall|i: int| without_trailing(s).len() <= i < s.len() implies #[trigger] s[i]
            == '0' by {
            if i < front.len() {
                assert(front[i] == s[i]);
            }
        }
        if s[0] != '0' {
            assert(s.len() > 1);
            assert(front[0] == s[0]);
        }
    }
}

} // verus!
