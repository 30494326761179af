//! Text as sequences of characters.
//!
//! Strings are read into vectors of characters, worked on there and written back.
//! Each operation is stated over `Seq<char>`.

use vstd::prelude::*;
use vstd::string::*;
use vstd::utf8::{decode_utf8, valid_utf8};

verus! {

/// `String::push` of std appends one character to the end of the string.
pub assume_specification[ String::push ](s: &mut String, c: char)
    ensures
        final(s)@ == old(s)@.push(c),
;

/// The characters of each string of a list.
pub open spec fn texts(list: Seq<String>) -> Seq<Seq<char>> {
    list.map_values(|s: String| s@)
}

/// The characters of a string, where there is one.
pub open spec fn maybe(s: Option<&str>) -> Option<Seq<char>> {
    match s {
        Some(s) => Some(s@),
        None => None,
    }
}

/// What an optional text is.
pub open spec fn owned(s: Option<String>) -> Option<Seq<char>> {
    match s {
        Some(text) => Some(text@),
        None => None,
    }
}

/// An optional text, or nothing.
pub open spec fn or_empty(s: Option<String>) -> Seq<char> {
    match s {
        Some(text) => text@,
        None => Seq::empty(),
    }
}

/// An optional text, or nothing.
pub fn unwrap_text(s: Option<String>) -> (r: String)
    ensures
        r@ == or_empty(s),
{
    match s {
        Some(text) => text,
        None => String::new(),
    }
}

/// A copy of an optional text.
pub fn copy_option(s: &Option<String>) -> (r: Option<String>)
    ensures
        owned(r) == owned(*s),
{
    match s {
        Some(text) => Some(text.as_str().to_owned()),
        None => None,
    }
}

/// An optional text that is borrowed.
pub fn borrowed(s: &Option<String>) -> (r: Option<&str>)
    ensures
        maybe(r) == owned(*s),
{
    match s {
        Some(text) => Some(text.as_str()),
        None => None,
    }
}

/// Whether the two texts are the same.
pub fn same(a: &str, b: &str) -> (r: bool)
    ensures
        r == (a@ == b@),
{
    same_chars(&chars_of(a), &chars_of(b))
}

/// The characters of a string.
pub fn chars_of(s: &str) -> (r: Vec<char>)
    ensures
        r@ == s@,
{
    let mut out: Vec<char> = Vec::new();
    for c in it: s.chars()
        invariant
            it.seq() == s@,
            out@ == it.seq().take(it.index() as int),
    {
        out.push(c);
        assert(it.seq().take(it.index() as int).push(c) =~= it.seq().take(it.index() + 1));
    }
    assert(s@.take(s@.len() as int) =~= s@);
    out
}

/// The string made of the given characters.
pub fn string_of(chars: &[char]) -> (r: String)
    ensures
        r@ == chars@,
{
    let mut out = String::new();
    let mut i: usize = 0;
    while i < chars.len()
        invariant
            i <= chars.len(),
            out@ == chars@.take(i as int),
        decreases chars.len() - i,
    {
        out.push(chars[i]);
        assert(chars@.take(i as int).push(chars[i as int]) =~= chars@.take(i + 1));
        i += 1;
    }
    assert(chars@.take(i as int) =~= chars@);
    out
}

/// Whether the two lists of characters are the same.
pub fn same_chars(a: &[char], b: &[char]) -> (r: bool)
    ensures
        r == (a@ == b@),
{
    if a.len() != b.len() {
        return false;
    }
    let mut i: usize = 0;
    while i < a.len()
        invariant
            a.len() == b.len(),
            i <= a.len(),
            forall|k: int| 0 <= k < i ==> a@[k] == b@[k],
        decreases a.len() - i,
    {
        if a[i] != b[i] {
            assert(a@[i as int] != b@[i as int]);
            return false;
        }
        i += 1;
    }
    assert(a@ =~= b@);
    true
}

/// The characters from `from` up to but not including `to`.
pub fn slice(chars: &[char], from: usize, to: usize) -> (r: Vec<char>)
    requires
        from <= to <= chars@.len(),
    ensures
        r@ == chars@.subrange(from as int, to as int),
{
    let mut out: Vec<char> = Vec::new();
    let mut i: usize = from;
    while i < to
        invariant
            from <= i <= to <= chars@.len(),
            out@ == chars@.subrange(from as int, i as int),
        decreases to - i,
    {
        out.push(chars[i]);
        assert(chars@.subrange(from as int, i as int).push(chars@[i as int]) =~= chars@.subrange(
            from as int,
            i + 1,
        ));
        i += 1;
    }
    out
}

/// Appends all of `more` to `out`.
pub fn extend(out: &mut Vec<char>, more: &[char])
    ensures
        final(out)@ == old(out)@ + more@,
{
    let ghost before = out@;
    let mut i: usize = 0;
    while i < more.len()
        invariant
            i <= more.len(),
            out@ == before + more@.take(i as int),
        decreases more.len() - i,
    {
        out.push(more[i]);
        assert((before + more@.take(i as int)).push(more@[i as int]) =~= before + more@.take(i + 1));
        i += 1;
    }
    assert(more@.take(i as int) =~= more@);
}

/// White space, as the Unicode property of that name has it.
pub open spec fn is_white(c: char) -> bool {
    ||| '\u{9}' <= c <= '\u{d}'
    ||| c == ' '
    ||| c == '\u{85}'
    ||| c == '\u{a0}'
    ||| c == '\u{1680}'
    ||| '\u{2000}' <= c <= '\u{200a}'
    ||| c == '\u{2028}'
    ||| c == '\u{2029}'
    ||| c == '\u{202f}'
    ||| c == '\u{205f}'
    ||| c == '\u{3000}'
}

/// Whether a character is white space.
pub fn white(c: char) -> (r: bool)
    ensures
        r == is_white(c),
{
    ('\u{9}' <= c && c <= '\u{d}') || c == ' ' || c == '\u{85}' || c == '\u{a0}' || c == '\u{1680}'
        || ('\u{2000}' <= c && c <= '\u{200a}') || c == '\u{2028}' || c == '\u{2029}' || c
        == '\u{202f}' || c == '\u{205f}' || c == '\u{3000}'
}

/// A text without the white space at its start.
pub open spec fn trim_start_of(s: Seq<char>) -> Seq<char>
    decreases s.len(),
{
    if s.len() > 0 && is_white(s[0]) {
        trim_start_of(s.drop_first())
    } else {
        s
    }
}

/// A text without the white space at its end.
pub open spec fn trim_end_of(s: Seq<char>) -> Seq<char>
    decreases s.len(),
{
    if s.len() > 0 && is_white(s.last()) {
        trim_end_of(s.drop_last())
    } else {
        s
    }
}

/// A text without the white space at either end.
pub open spec fn trim_of(s: Seq<char>) -> Seq<char> {
    trim_end_of(trim_start_of(s))
}

/// Removes the white space at both ends.
pub fn trim_chars(chars: &[char]) -> (r: Vec<char>)
    ensures
        r@ == trim_of(chars@),
{
    let n: usize = chars.len();
    let mut from: usize = 0;
    assert(chars@.subrange(0, n as int) =~= chars@);
    while from < n && white(chars[from])
        invariant
            n == chars@.len(),
            from <= n,
            trim_start_of(chars@) == trim_start_of(chars@.subrange(from as int, n as int)),
        decreases n - from,
    {
        assert(chars@.subrange(from as int, n as int).drop_first() =~= chars@.subrange(
            from + 1,
            n as int,
        ));
        from += 1;
    }
    assert(trim_start_of(chars@) == chars@.subrange(from as int, n as int));
    let mut to: usize = n;
    while to > from && white(chars[to - 1])
        invariant
            n == chars@.len(),
            from <= to <= n,
            trim_of(chars@) == trim_end_of(chars@.subrange(from as int, to as int)),
        decreases to,
    {
        assert(chars@.subrange(from as int, to as int).drop_last() =~= chars@.subrange(
            from as int,
            to - 1,
        ));
        to -= 1;
    }
    slice(chars, from, to)
}

/// The text without the white space at either end.
pub fn trim(s: &str) -> (r: String)
    ensures
        r@ == trim_of(s@),
{
    string_of(&trim_chars(&chars_of(s)))
}

/// Whether nothing but white space is in the text.
pub fn blank(s: &str) -> (r: bool)
    ensures
        r == (trim_of(s@).len() == 0),
{
    trim_chars(&chars_of(s)).len() == 0
}

/// Whether `s` holds `pat` at index `i`.
pub open spec fn occurs_at(s: Seq<char>, pat: Seq<char>, i: int) -> bool {
    0 <= i && i + pat.len() <= s.len() && s.subrange(i, i + pat.len()) == pat
}

/// Whether `s` begins with `pat`.
pub open spec fn begins_with(s: Seq<char>, pat: Seq<char>) -> bool {
    occurs_at(s, pat, 0)
}

/// Whether `s` ends with `pat`.
pub open spec fn finishes_with(s: Seq<char>, pat: Seq<char>) -> bool {
    occurs_at(s, pat, s.len() - pat.len())
}

/// Whether `pat` stands anywhere in `s`.
pub open spec fn has(s: Seq<char>, pat: Seq<char>) -> bool {
    exists|i: int| occurs_at(s, pat, i)
}

/// Whether `pat` stands in `chars` at `i`.
pub fn at(chars: &[char], pat: &[char], i: usize) -> (r: bool)
    ensures
        r == occurs_at(chars@, pat@, i as int),
{
    let n: usize = chars.len();
    if n < pat.len() || n - pat.len() < i {
        return false;
    }
    let mut k: usize = 0;
    while k < pat.len()
        invariant
            n == chars@.len(),
            i + pat@.len() <= n,
            k <= pat@.len(),
            forall|j: int| 0 <= j < k ==> chars@[i + j] == pat@[j],
        decreases pat.len() - k,
    {
        if chars[i + k] != pat[k] {
            assert(chars@.subrange(i as int, i + pat@.len())[k as int] != pat@[k as int]);
            return false;
        }
        k += 1;
    }
    assert(chars@.subrange(i as int, i + pat@.len()) =~= pat@);
    true
}

/// The index at which `pat` stands first in `chars`, not before `from`.
pub fn find(chars: &[char], pat: &[char], from: usize) -> (r: Option<usize>)
    ensures
        match r {
            Some(i) => from <= i && occurs_at(chars@, pat@, i as int) && forall|j: int|
                from <= j < i ==> !occurs_at(chars@, pat@, j),
            None => forall|j: int| from <= j ==> !occurs_at(chars@, pat@, j),
        },
{
    let mut i: usize = from;
    while i <= chars.len()
        invariant
            from <= i,
            forall|j: int| from <= j < i ==> !occurs_at(chars@, pat@, j),
        decreases chars.len() + 1 - i,
    {
        if at(chars, pat, i) {
            return Some(i);
        }
        if i == chars.len() {
            return None;
        }
        i += 1;
    }
    None
}

/// Whether `s` begins with `pat`.
pub fn starts(s: &str, pat: &str) -> (r: bool)
    ensures
        r == begins_with(s@, pat@),
{
    at(&chars_of(s), &chars_of(pat), 0)
}

/// Whether `pat` stands anywhere in `s`.
pub fn contains(s: &str, pat: &str) -> (r: bool)
    ensures
        r == has(s@, pat@),
{
    find(&chars_of(s), &chars_of(pat), 0).is_some()
}

/// What follows `pat` at the start of `s`, if `s` begins with it.
pub fn after_prefix(s: &str, pat: &str) -> (r: Option<String>)
    ensures
        match r {
            Some(rest) => begins_with(s@, pat@) && rest@ == s@.skip(pat@.len() as int),
            None => !begins_with(s@, pat@),
        },
{
    let a = chars_of(s);
    let b = chars_of(pat);
    if at(&a, &b, 0) {
        let rest = slice(&a, b.len(), a.len());
        assert(rest@ =~= s@.skip(pat@.len() as int));
        Some(string_of(&rest))
    } else {
        None
    }
}

/// What precedes `pat` at the end of `s`, if `s` ends with it.
pub fn before_suffix(s: &str, pat: &str) -> (r: Option<String>)
    ensures
        match r {
            Some(rest) => finishes_with(s@, pat@) && rest@ == s@.take(s@.len() - pat@.len()),
            None => !finishes_with(s@, pat@),
        },
{
    let a = chars_of(s);
    let b = chars_of(pat);
    if b.len() <= a.len() && at(&a, &b, a.len() - b.len()) {
        let rest = slice(&a, 0, a.len() - b.len());
        assert(rest@ =~= s@.take(s@.len() - pat@.len()));
        Some(string_of(&rest))
    } else {
        None
    }
}

/// The index of the first `c` in `s`, or its length where there is none.
pub open spec fn first_of(s: Seq<char>, c: char) -> int
    decreases s.len(),
{
    if s.len() == 0 || s[0] == c {
        0
    } else {
        1 + first_of(s.drop_first(), c)
    }
}

/// `first_of` finds the character, and nothing before it is one.
pub proof fn first_of_is_first(s: Seq<char>, c: char)
    ensures
        0 <= first_of(s, c) <= s.len(),
        first_of(s, c) < s.len() ==> s[first_of(s, c)] == c,
        forall|j: int| 0 <= j < first_of(s, c) ==> s[j] != c,
    decreases s.len(),
{
    if s.len() > 0 && s[0] != c {
        first_of_is_first(s.drop_first(), c);
        assert forall|j: int| 0 <= j < first_of(s, c) implies s[j] != c by {
            if j > 0 {
                assert(s.drop_first()[j - 1] == s[j]);
            }
        }
    }
}

/// A first index is the only one with no earlier occurrence.
pub proof fn first_of_is_unique(s: Seq<char>, c: char, i: int)
    requires
        0 <= i <= s.len(),
        i < s.len() ==> s[i] == c,
        forall|j: int| 0 <= j < i ==> s[j] != c,
    ensures
        first_of(s, c) == i,
{
    first_of_is_first(s, c);
}

/// The index of the first `c` at or after `from`, or the length.
pub fn index_of(chars: &[char], c: char, from: usize) -> (r: usize)
    requires
        from <= chars@.len(),
    ensures
        r == from + first_of(chars@.skip(from as int), c),
        from <= r <= chars@.len(),
        r < chars@.len() ==> chars@[r as int] == c,
        forall|j: int| from <= j < r ==> chars@[j] != c,
{
    let mut i: usize = from;
    while i < chars.len() && chars[i] != c
        invariant
            from <= i <= chars@.len(),
            forall|j: int| from <= j < i ==> chars@[j] != c,
        decreases chars.len() - i,
    {
        i += 1;
    }
    proof {
        let tail = chars@.skip(from as int);
        assert forall|j: int| 0 <= j < i - from implies tail[j] != c by {
            assert(tail[j] == chars@[from + j]);
        }
        first_of_is_unique(tail, c, i - from);
    }
    i
}

/// The parts of `s` between the separators.
pub open spec fn split_on(s: Seq<char>, sep: char) -> Seq<Seq<char>>
    decreases s.len(),
    via split_on_ends
{
    let i = first_of(s, sep);
    if i >= s.len() {
        seq![s]
    } else {
        seq![s.take(i)] + split_on(s.skip(i + 1), sep)
    }
}

#[via_fn]
proof fn split_on_ends(s: Seq<char>, sep: char) {
    first_of_is_first(s, sep);
}

/// The parts of a text between the separators.
pub fn split(s: &str, sep: char) -> (r: Vec<String>)
    ensures
        texts(r@) == split_on(s@, sep),
        r@.len() > 0,
{
    let chars = chars_of(s);
    let mut out: Vec<String> = Vec::new();
    let mut from: usize = 0;
    assert(chars@.skip(0) =~= s@);
    assert(texts(out@) =~= Seq::empty());
    assert(texts(out@) + split_on(s@, sep) =~= split_on(s@, sep));
    loop
        invariant
            chars@ == s@,
            from <= chars@.len(),
            texts(out@) + split_on(chars@.skip(from as int), sep) == split_on(s@, sep),
        decreases chars.len() - from,
    {
        let ghost rest = chars@.skip(from as int);
        let i: usize = index_of(&chars, sep, from);
        let part = string_of(&slice(&chars, from, i));
        let ghost before = texts(out@);
        out.push(part);
        assert(texts(out@) =~= before.push(part@));
        if i >= chars.len() {
            assert(part@ =~= rest);
            assert(before.push(part@) =~= before + seq![rest]);
            return out;
        }
        assert(part@ =~= rest.take(i - from));
        assert(rest.skip(i - from + 1) =~= chars@.skip(i + 1));
        assert(before + (seq![part@] + split_on(chars@.skip(i + 1), sep)) =~= before.push(part@)
            + split_on(chars@.skip(i + 1), sep));
        from = i + 1;
    }
}

/// A line without the carriage return at its end.
pub open spec fn without_return(s: Seq<char>) -> Seq<char> {
    if s.len() > 0 && s.last() == '\r' {
        s.drop_last()
    } else {
        s
    }
}

/// The lines of a text. A line ends with a line feed, before which a carriage return may
/// stand; after the last line feed nothing needs to follow.
pub open spec fn lines_of(s: Seq<char>) -> Seq<Seq<char>>
    decreases s.len(),
    via lines_of_ends
{
    let i = first_of(s, '\n');
    if s.len() == 0 {
        Seq::empty()
    } else if i >= s.len() {
        seq![s]
    } else {
        seq![without_return(s.take(i))] + lines_of(s.skip(i + 1))
    }
}

#[via_fn]
proof fn lines_of_ends(s: Seq<char>) {
    first_of_is_first(s, '\n');
}

/// The lines of a text.
pub fn lines(s: &str) -> (r: Vec<String>)
    ensures
        texts(r@) == lines_of(s@),
{
    let chars = chars_of(s);
    let mut out: Vec<String> = Vec::new();
    let mut from: usize = 0;
    assert(chars@.skip(0) =~= s@);
    assert(texts(out@) + lines_of(s@) =~= lines_of(s@));
    while from < chars.len()
        invariant
            chars@ == s@,
            from <= chars@.len(),
            texts(out@) + lines_of(chars@.skip(from as int)) == lines_of(s@),
        decreases chars.len() - from,
    {
        let ghost rest = chars@.skip(from as int);
        let ghost before = texts(out@);
        let i: usize = index_of(&chars, '\n', from);
        if i >= chars.len() {
            let part = string_of(&slice(&chars, from, i));
            assert(part@ =~= rest);
            out.push(part);
            assert(texts(out@) =~= before + seq![rest]);
            return out;
        }
        let end: usize = if i > from && chars[i - 1] == '\r' { i - 1 } else { i };
        let part = string_of(&slice(&chars, from, end));
        assert(part@ =~= without_return(rest.take(i - from)));
        out.push(part);
        assert(texts(out@) =~= before.push(part@));
        assert(rest.skip(i - from + 1) =~= chars@.skip(i + 1));
        assert(before + (seq![part@] + lines_of(chars@.skip(i + 1))) =~= before.push(part@)
            + lines_of(chars@.skip(i + 1)));
        from = i + 1;
    }
    assert(chars@.skip(from as int) =~= Seq::empty());
    assert(texts(out@) + lines_of(Seq::<char>::empty()) =~= texts(out@));
    out
}

/// How many characters stand before the first white space of `s`.
pub open spec fn word_len(s: Seq<char>) -> nat
    decreases s.len(),
{
    if s.len() == 0 || is_white(s[0]) {
        0
    } else {
        1 + word_len(s.drop_first())
    }
}

/// A word is not longer than the text.
pub proof fn word_len_fits(s: Seq<char>)
    ensures
        word_len(s) <= s.len(),
        s.len() > 0 && !is_white(s[0]) ==> word_len(s) > 0,
        trim_start_of(s).len() <= s.len(),
        trim_start_of(s).len() > 0 ==> !is_white(trim_start_of(s)[0]),
    decreases s.len(),
{
    if s.len() > 0 {
        word_len_fits(s.drop_first());
    }
}

/// The words of a text: what stands between white space.
pub open spec fn words_of(s: Seq<char>) -> Seq<Seq<char>>
    decreases s.len(),
    via words_of_ends
{
    let t = trim_start_of(s);
    if t.len() == 0 {
        Seq::empty()
    } else {
        seq![t.take(word_len(t) as int)] + words_of(t.skip(word_len(t) as int))
    }
}

#[via_fn]
proof fn words_of_ends(s: Seq<char>) {
    word_len_fits(s);
    word_len_fits(trim_start_of(s));
}

/// The words of a text.
pub fn words(s: &str) -> (r: Vec<String>)
    ensures
        texts(r@) == words_of(s@),
{
    let chars = chars_of(s);
    let n: usize = chars.len();
    let mut out: Vec<String> = Vec::new();
    let mut from: usize = 0;
    assert(chars@.skip(0) =~= s@);
    assert(texts(out@) + words_of(s@) =~= words_of(s@));
    loop
        invariant
            chars@ == s@,
            n == chars@.len(),
            from <= n,
            texts(out@) + words_of(chars@.skip(from as int)) == words_of(s@),
        decreases n - from,
    {
        let ghost rest = chars@.skip(from as int);
        let ghost before = texts(out@);
        let mut a: usize = from;
        while a < n && white(chars[a])
            invariant
                n == chars@.len(),
                from <= a <= n,
                trim_start_of(chars@.skip(from as int)) == trim_start_of(chars@.skip(a as int)),
            decreases n - a,
        {
            assert(chars@.skip(a as int).drop_first() =~= chars@.skip(a + 1));
            a += 1;
        }
        let ghost t = chars@.skip(a as int);
        assert(trim_start_of(rest) == t);
        if a == n {
            assert(texts(out@) + Seq::<Seq<char>>::empty() =~= texts(out@));
            return out;
        }
        let mut b: usize = a;
        while b < n && !white(chars[b])
            invariant
                n == chars@.len(),
                a <= b <= n,
                word_len(chars@.skip(a as int)) == b - a + word_len(chars@.skip(b as int)),
            decreases n - b,
        {
            assert(chars@.skip(b as int).drop_first() =~= chars@.skip(b + 1));
            b += 1;
        }
        assert(word_len(t) == b - a);
        proof {
            word_len_fits(t);
        }
        let part = string_of(&slice(&chars, a, b));
        assert(part@ =~= t.take(b - a));
        assert(t.skip(b - a) =~= chars@.skip(b as int));
        out.push(part);
        assert(texts(out@) =~= before.push(part@));
        assert(before + (seq![part@] + words_of(chars@.skip(b as int))) =~= before.push(part@)
            + words_of(chars@.skip(b as int)));
        from = b;
    }
}

/// A text with every `pat` in it replaced, from the left.
pub open spec fn replaced(s: Seq<char>, pat: Seq<char>, with: Seq<char>) -> Seq<char>
    decreases s.len(),
{
    if s.len() == 0 || pat.len() == 0 {
        s
    } else if begins_with(s, pat) {
        with + replaced(s.skip(pat.len() as int), pat, with)
    } else {
        seq![s[0]] + replaced(s.drop_first(), pat, with)
    }
}

/// Replaces every `pat` in a text.
pub fn replace(s: &str, pat: &str, with: &str) -> (r: String)
    requires
        pat@.len() > 0,
    ensures
        r@ == replaced(s@, pat@, with@),
{
    let chars = chars_of(s);
    let p = chars_of(pat);
    let w = chars_of(with);
    let mut out: Vec<char> = Vec::new();
    let mut i: usize = 0;
    assert(chars@.skip(0) =~= s@);
    assert(out@ + replaced(s@, pat@, with@) =~= replaced(s@, pat@, with@));
    while i < chars.len()
        invariant
            chars@ == s@,
            p@ == pat@,
            w@ == with@,
            pat@.len() > 0,
            i <= chars@.len(),
            out@ + replaced(chars@.skip(i as int), pat@, with@) == replaced(s@, pat@, with@),
        decreases chars.len() - i,
    {
        let ghost rest = chars@.skip(i as int);
        let ghost before = out@;
        if at(&chars, &p, i) {
            assert(rest.subrange(0, pat@.len() as int) =~= chars@.subrange(
                i as int,
                i + pat@.len(),
            ));
            assert(begins_with(rest, pat@));
            assert(rest.skip(pat@.len() as int) =~= chars@.skip(i + pat@.len()));
            extend(&mut out, &w);
            i += p.len();
            assert(before + (with@ + replaced(chars@.skip(i as int), pat@, with@)) =~= before + with@
                + replaced(chars@.skip(i as int), pat@, with@));
        } else {
            assert(!begins_with(rest, pat@)) by {
                if begins_with(rest, pat@) {
                    assert(rest.subrange(0, pat@.len() as int) =~= chars@.subrange(
                        i as int,
                        i + pat@.len(),
                    ));
                }
            }
            assert(rest.drop_first() =~= chars@.skip(i + 1));
            out.push(chars[i]);
            i += 1;
            assert(before + (seq![rest[0]] + replaced(chars@.skip(i as int), pat@, with@))
                =~= before.push(rest[0]) + replaced(chars@.skip(i as int), pat@, with@));
        }
    }
    assert(chars@.skip(i as int) =~= Seq::empty());
    assert(out@ + Seq::<char>::empty() =~= out@);
    string_of(&out)
}

/// The parts one after another with `sep` between them.
pub open spec fn joined(parts: Seq<Seq<char>>, sep: Seq<char>) -> Seq<char>
    decreases parts.len(),
{
    if parts.len() == 0 {
        Seq::empty()
    } else if parts.len() == 1 {
        parts[0]
    } else {
        joined(parts.drop_last(), sep) + sep + parts.last()
    }
}

/// Puts the parts one after another with `sep` between them.
pub fn join(parts: &[String], sep: &str) -> (r: String)
    ensures
        r@ == joined(texts(parts@), sep@),
{
    let mut out = String::new();
    let mut i: usize = 0;
    while i < parts.len()
        invariant
            i <= parts@.len(),
            out@ == joined(texts(parts@).take(i as int), sep@),
        decreases parts.len() - i,
    {
        let ghost next = texts(parts@).take(i + 1);
        assert(next.drop_last() =~= texts(parts@).take(i as int));
        assert(next.last() == parts@[i as int]@);
        if i > 0 {
            out.append(sep);
        }
        let ghost before = out@;
        out.append(parts[i].as_str());
        if i == 0 {
            assert(before + parts@[0]@ =~= parts@[0]@);
        }
        i += 1;
    }
    assert(texts(parts@).take(i as int) =~= texts(parts@));
    out
}

/// An ASCII capital as its small letter; any other character as it is.
pub open spec fn ascii_lower(c: char) -> char {
    if 'A' <= c <= 'Z' {
        (c as u32 + 32) as char
    } else {
        c
    }
}

/// The small letter of an ASCII capital.
pub fn to_ascii_lower(c: char) -> (r: char)
    ensures
        r == ascii_lower(c),
{
    if 'A' <= c && c <= 'Z' {
        ((c as u8) + 32) as char
    } else {
        c
    }
}

/// Whether two texts differ at most in the case of ASCII letters.
pub open spec fn same_but_case(a: Seq<char>, b: Seq<char>) -> bool {
    a.map_values(|c: char| ascii_lower(c)) == b.map_values(|c: char| ascii_lower(c))
}

/// Whether two texts differ at most in the case of ASCII letters.
pub fn same_ignoring_case(a: &str, b: &str) -> (r: bool)
    ensures
        r == same_but_case(a@, b@),
{
    let x = chars_of(a);
    let y = chars_of(b);
    let ghost lx = a@.map_values(|c: char| ascii_lower(c));
    let ghost ly = b@.map_values(|c: char| ascii_lower(c));
    if x.len() != y.len() {
        assert(lx.len() != ly.len());
        return false;
    }
    let mut i: usize = 0;
    while i < x.len()
        invariant
            x@ == a@,
            y@ == b@,
            lx == a@.map_values(|c: char| ascii_lower(c)),
            ly == b@.map_values(|c: char| ascii_lower(c)),
            x.len() == y.len(),
            i <= x.len(),
            forall|k: int| 0 <= k < i ==> lx[k] == ly[k],
        decreases x.len() - i,
    {
        if to_ascii_lower(x[i]) != to_ascii_lower(y[i]) {
            assert(lx[i as int] != ly[i as int]);
            return false;
        }
        i += 1;
    }
    assert(lx =~= ly);
    true
}

/// Whether every character is an ASCII one.
pub open spec fn all_ascii(s: Seq<char>) -> bool {
    forall|i: int| 0 <= i < s.len() ==> (#[trigger] s[i] as u32) < 128
}

/// The lower case of a text that holds characters beyond ASCII.
pub uninterp spec fn unicode_lower(s: Seq<char>) -> Seq<char>;

/// The lower case of a text.
pub open spec fn lower_of(s: Seq<char>) -> Seq<char> {
    if all_ascii(s) {
        s.map_values(|c: char| ascii_lower(c))
    } else {
        unicode_lower(s)
    }
}

/// `str::to_lowercase` of std maps each ASCII capital of an ASCII text to its small letter and
/// leaves the rest of it as it is. On other texts it follows the Unicode tables, and the result
/// depends on the text alone.
#[verifier::external_body]
pub(crate) fn lowercase(s: &str) -> (r: String)
    ensures
        r@ == (if all_ascii(s@) {
            s@.map_values(|c: char| ascii_lower(c))
        } else {
            unicode_lower(s@)
        }),
{
    s.to_lowercase()
}

/// The text that stands for bytes that are not UTF-8 throughout.
pub uninterp spec fn repaired_utf8(bytes: Seq<u8>) -> Seq<char>;

/// The text that bytes stand for.
pub open spec fn lossy_of(bytes: Seq<u8>) -> Seq<char> {
    if valid_utf8(bytes) {
        decode_utf8(bytes)
    } else {
        repaired_utf8(bytes)
    }
}

/// `String::from_utf8_lossy` of std decodes bytes that are valid UTF-8. In others it puts
/// replacement characters where the bytes are not valid, and the result depends on the bytes
/// alone.
#[verifier::external_body]
pub(crate) fn lossy(bytes: &[u8]) -> (r: String)
    ensures
        r@ == (if valid_utf8(bytes@) {
            decode_utf8(bytes@)
        } else {
            repaired_utf8(bytes@)
        }),
{
    String::from_utf8_lossy(bytes).into_owned()
}

/// What stands before the first `c`.
pub open spec fn before_first(s: Seq<char>, c: char) -> Seq<char> {
    s.take(first_of(s, c))
}

/// What stands after the first `c`, or nothing where there is none.
pub open spec fn after_first(s: Seq<char>, c: char) -> Seq<char> {
    if first_of(s, c) < s.len() {
        s.skip(first_of(s, c) + 1)
    } else {
        Seq::empty()
    }
}

/// Splits a text at the first `c`.
pub fn split_first(s: &str, c: char) -> (r: (String, Option<String>))
    ensures
        r.0@ == before_first(s@, c),
        match r.1 {
            Some(rest) => first_of(s@, c) < s@.len() && rest@ == after_first(s@, c),
            None => first_of(s@, c) >= s@.len() && r.0@ == s@,
        },
{
    let chars = chars_of(s);
    assert(s@.skip(0) =~= s@);
    let i: usize = index_of(&chars, c, 0);
    let first = string_of(&slice(&chars, 0, i));
    assert(first@ =~= before_first(s@, c));
    if i >= chars.len() {
        assert(first@ =~= s@);
        (first, None)
    } else {
        let rest = string_of(&slice(&chars, i + 1, chars.len()));
        assert(rest@ =~= after_first(s@, c));
        (first, Some(rest))
    }
}

/// Whether a character beyond ASCII is a letter or a digit.
pub uninterp spec fn unicode_alphanumeric(c: char) -> bool;

/// Whether a character is a letter or a digit.
pub open spec fn is_alphanumeric(c: char) -> bool {
    if (c as u32) < 128 {
        ('0' <= c <= '9') || ('a' <= c <= 'z') || ('A' <= c <= 'Z')
    } else {
        unicode_alphanumeric(c)
    }
}

/// `char::is_alphanumeric` of std holds, within ASCII, of the digits and the letters. Beyond ASCII
/// it follows the Unicode tables and depends on the character alone.
#[verifier::external_body]
pub(crate) fn alphanumeric(c: char) -> (r: bool)
    ensures
        r == (if (c as u32) < 128 {
            ('0' <= c <= '9') || ('a' <= c <= 'z') || ('A' <= c <= 'Z')
        } else {
            unicode_alphanumeric(c)
        }),
{
    c.is_alphanumeric()
}

/// A text between single quotes for a shell: a quote in it is closed, escaped and opened again.
pub open spec fn shell_quoted(s: Seq<char>) -> Seq<char> {
    "'"@ + replaced(s, "'"@, "'\\''"@) + "'"@
}

/// Puts a text between single quotes for a shell.
pub fn shell_quote(s: &str) -> (r: String)
    ensures
        r@ == shell_quoted(s@),
{
    proof {
        reveal_strlit("'");
    }
    let mut out = "'".to_owned();
    out.append(replace(s, "'", "'\\''").as_str());
    out.append("'");
    out
}

/// What a shell reads between single quotes, from after the opening quote on: characters as they
/// stand up to the closing quote, after which an escaped quote and a new opening quote may follow.
pub open spec fn shell_reads(s: Seq<char>) -> Option<Seq<char>>
    decreases s.len(),
{
    if s.len() == 0 {
        None
    } else if s[0] != '\'' {
        match shell_reads(s.drop_first()) {
            Some(rest) => Some(seq![s[0]] + rest),
            None => None,
        }
    } else if s.len() == 1 {
        Some(Seq::empty())
    } else if s.len() >= 4 && s[1] == '\\' && s[2] == '\'' && s[3] == '\'' {
        match shell_reads(s.skip(4)) {
            Some(rest) => Some(seq!['\''] + rest),
            None => None,
        }
    } else {
        None
    }
}

/// A shell reads a quoted text as one word that is the text.
pub proof fn shell_reads_what_was_quoted(s: Seq<char>)
    ensures
        shell_quoted(s)[0] == '\'',
        shell_reads(shell_quoted(s).drop_first()) == Some(s),
{
    reveal_strlit("'");
    reveal_strlit("'\\''");
    shell_reads_body(s);
    assert(shell_quoted(s).drop_first() =~= replaced(s, "'"@, "'\\''"@) + "'"@);
}

proof fn shell_reads_body(s: Seq<char>)
    ensures
        shell_reads(replaced(s, "'"@, "'\\''"@) + "'"@) == Some(s),
    decreases s.len(),
{
    reveal_strlit("'");
    reveal_strlit("'\\''");
    let body = replaced(s, "'"@, "'\\''"@) + "'"@;
    if s.len() == 0 {
        assert(body =~= "'"@);
        assert(s =~= Seq::empty());
    } else {
        assert(begins_with(s, "'"@) == (s[0] == '\'')) by {
            if s[0] == '\'' {
                assert(s.subrange(0, 1) =~= "'"@);
            } else if begins_with(s, "'"@) {
                assert(s.subrange(0, 1)[0] == "'"@[0]);
            }
        }
        let rest = s.drop_first();
        assert(s.skip(1) =~= rest);
        shell_reads_body(rest);
        let tail = replaced(rest, "'"@, "'\\''"@) + "'"@;
        assert(seq![s[0]] + rest =~= s);
        if s[0] == '\'' {
            assert(body =~= "'\\''"@ + tail);
            assert(body.skip(4) =~= tail);
        } else {
            assert(body =~= seq![s[0]] + tail);
            assert(body.drop_first() =~= tail);
        }
    }
}

/// The text without the white space at its start.
pub fn trim_start(s: &str) -> (r: String)
    ensures
        r@ == trim_start_of(s@),
{
    let chars = chars_of(s);
    let n: usize = chars.len();
    let mut from: usize = 0;
    assert(chars@.skip(0) =~= s@);
    while from < n && white(chars[from])
        invariant
            n == chars@.len(),
            chars@ == s@,
            from <= n,
            trim_start_of(s@) == trim_start_of(chars@.skip(from as int)),
        decreases n - from,
    {
        assert(chars@.skip(from as int).drop_first() =~= chars@.skip(from + 1));
        from += 1;
    }
    let rest = slice(&chars, from, n);
    assert(rest@ =~= chars@.skip(from as int));
    string_of(&rest)
}

/// The same texts in the same order.
pub fn copy_texts(list: &Vec<String>) -> (r: Vec<String>)
    ensures
        r@ == list@,
{
    let mut out: Vec<String> = Vec::new();
    let mut i: usize = 0;
    while i < list.len()
        invariant
            i <= list@.len(),
            out@ =~= list@.take(i as int),
        decreases list.len() - i,
    {
        out.push(list[i].clone());
        i += 1;
    }
    assert(out@ =~= list@);
    out
}

/// Whether a text is in a list.
pub open spec fn is_in(list: Seq<String>, s: Seq<char>) -> bool {
    exists|i: int| 0 <= i < list.len() && (#[trigger] list[i])@ == s
}

/// Whether a text is in a list.
pub fn list_has(list: &Vec<String>, s: &str) -> (r: bool)
    ensures
        r == is_in(list@, s@),
{
    let mut i: usize = 0;
    while i < list.len()
        invariant
            i <= list@.len(),
            forall|k: int| 0 <= k < i ==> (#[trigger] list@[k])@ != s@,
        decreases list.len() - i,
    {
        if same(list[i].as_str(), s) {
            return true;
        }
        i += 1;
    }
    false
}

/// A text between double quotes, with backslashes and quotes escaped.
pub open spec fn double_quoted(s: Seq<char>) -> Seq<char> {
    "\""@ + replaced(replaced(s, "\\"@, "\\\\"@), "\""@, "\\\""@) + "\""@
}

/// Puts a text between double quotes.
pub fn double_quote(s: &str) -> (r: String)
    ensures
        r@ == double_quoted(s@),
{
    proof {
        reveal_strlit("\\");
        reveal_strlit("\"");
    }
    let mut out = "\"".to_owned();
    out.append(replace(replace(s, "\\", "\\\\").as_str(), "\"", "\\\"").as_str());
    out.append("\"");
    out
}

/// What stands between double quotes once the escapes are undone, from after the opening quote on.
pub open spec fn reads_double_quoted(s: Seq<char>) -> Option<Seq<char>>
    decreases s.len(),
{
    if s.len() == 0 {
        None
    } else if s[0] == '"' {
        if s.len() == 1 {
            Some(Seq::empty())
        } else {
            None
        }
    } else if s[0] == '\\' {
        if s.len() >= 2 {
            match reads_double_quoted(s.skip(2)) {
                Some(rest) => Some(seq![s[1]] + rest),
                None => None,
            }
        } else {
            None
        }
    } else {
        match reads_double_quoted(s.drop_first()) {
            Some(rest) => Some(seq![s[0]] + rest),
            None => None,
        }
    }
}

/// A character with its escape, where it needs one.
spec fn escaped(arg: Seq<char>) -> Seq<char>
    decreases arg.len(),
{
    if arg.len() == 0 {
        Seq::empty()
    } else if arg[0] == '\\' || arg[0] == '"' {
        seq!['\\', arg[0]] + escaped(arg.drop_first())
    } else {
        seq![arg[0]] + escaped(arg.drop_first())
    }
}

proof fn one_char_prefix(s: Seq<char>, p: Seq<char>, c: char)
    requires
        p =~= seq![c],
        s.len() > 0,
    ensures
        begins_with(s, p) == (s[0] == c),
        s.skip(1) =~= s.drop_first(),
{
    if s[0] == c {
        assert(s.subrange(0, 1) =~= p);
    } else if begins_with(s, p) {
        assert(s.subrange(0, 1)[0] == p[0]);
    }
}

/// Replacing backslashes and then quotes escapes both.
proof fn replacing_escapes(arg: Seq<char>)
    ensures
        replaced(replaced(arg, "\\"@, "\\\\"@), "\""@, "\\\""@) == escaped(arg),
    decreases arg.len(),
{
    reveal_strlit("\\");
    reveal_strlit("\\\\");
    reveal_strlit("\"");
    reveal_strlit("\\\"");
    let back = "\\"@;
    let quote = "\""@;
    assert(back =~= seq!['\\']);
    assert(quote =~= seq!['"']);
    assert("\\\\"@ =~= seq!['\\', '\\']);
    assert("\\\""@ =~= seq!['\\', '"']);
    let first = replaced(arg, back, "\\\\"@);
    if arg.len() == 0 {
        assert(first =~= Seq::empty());
        assert(escaped(arg) =~= Seq::empty());
    } else {
        let rest = arg.drop_first();
        let rest_first = replaced(rest, back, "\\\\"@);
        replacing_escapes(rest);
        one_char_prefix(arg, back, '\\');
        if arg[0] == '\\' {
            assert(first =~= seq!['\\', '\\'] + rest_first);
            one_char_prefix(first, quote, '"');
            let tail = first.drop_first();
            assert(tail =~= seq!['\\'] + rest_first);
            one_char_prefix(tail, quote, '"');
            assert(tail.drop_first() =~= rest_first);
            assert(replaced(tail, quote, "\\\""@) =~= seq!['\\'] + escaped(rest));
            assert(replaced(first, quote, "\\\""@) =~= seq!['\\', '\\'] + escaped(rest));
        } else {
            assert(first =~= seq![arg[0]] + rest_first);
            one_char_prefix(first, quote, '"');
            assert(first.drop_first() =~= rest_first);
            if arg[0] == '"' {
                assert(replaced(first, quote, "\\\""@) =~= seq!['\\', '"'] + escaped(rest));
            }
        }
    }
}

proof fn reads_escaped(arg: Seq<char>)
    ensures
        reads_double_quoted(escaped(arg) + seq!['"']) == Some(arg),
    decreases arg.len(),
{
    let s = escaped(arg) + seq!['"'];
    if arg.len() == 0 {
        assert(s =~= seq!['"']);
        assert(arg =~= Seq::empty());
    } else {
        let rest = arg.drop_first();
        reads_escaped(rest);
        let tail = escaped(rest) + seq!['"'];
        assert(seq![arg[0]] + rest =~= arg);
        if arg[0] == '\\' || arg[0] == '"' {
            assert(s =~= seq!['\\', arg[0]] + tail);
            assert(s.skip(2) =~= tail);
        } else {
            assert(s =~= seq![arg[0]] + tail);
            assert(s.drop_first() =~= tail);
        }
    }
}

/// A text between double quotes reads back as it was, so that nothing in it can end the literal.
pub proof fn double_quoted_reads_back(s: Seq<char>)
    ensures
        double_quoted(s)[0] == '"',
        reads_double_quoted(double_quoted(s).drop_first()) == Some(s),
{
    reveal_strlit("\"");
    replacing_escapes(s);
    reads_escaped(s);
    assert("\""@ =~= seq!['"']);
    assert(double_quoted(s).drop_first() =~= escaped(s) + seq!['"']);
}

/// The texts of a list from an index on.
pub fn slice_texts(list: &Vec<String>, from: usize) -> (r: Vec<String>)
    requires
        from <= list@.len(),
    ensures
        r@ == list@.skip(from as int),
{
    let mut out: Vec<String> = Vec::new();
    let mut i: usize = from;
    while i < list.len()
        invariant
            from <= i <= list@.len(),
            out@ =~= list@.subrange(from as int, i as int),
        decreases list.len() - i,
    {
        out.push(list[i].clone());
        i += 1;
    }
    assert(out@ =~= list@.skip(from as int));
    out
}

/// A text without a suffix, however often it stands at the end.
pub open spec fn without_suffixes(s: Seq<char>, suffix: Seq<char>) -> Seq<char>
    decreases s.len(),
{
    if suffix.len() > 0 && finishes_with(s, suffix) {
        without_suffixes(s.take(s.len() - suffix.len()), suffix)
    } else {
        s
    }
}

/// Removes a suffix, however often it stands at the end.
pub fn strip_suffixes(s: &str, suffix: &str) -> (r: String)
    ensures
        r@ == without_suffixes(s@, suffix@),
{
    let chars = chars_of(s);
    let p = chars_of(suffix);
    let mut n: usize = chars.len();
    assert(chars@.take(n as int) =~= s@);
    if p.len() == 0 {
        return s.to_owned();
    }
    loop
        invariant
            p@ == suffix@,
            p@.len() > 0,
            chars@ == s@,
            n <= chars@.len(),
            without_suffixes(s@, suffix@) == without_suffixes(chars@.take(n as int), suffix@),
        decreases n,
    {
        let rest = slice(&chars, 0, n);
        assert(rest@ =~= chars@.take(n as int));
        if p.len() <= n && at(&rest, &p, n - p.len()) {
            assert(finishes_with(rest@, suffix@));
            assert(rest@.take(n - p@.len()) =~= chars@.take(n - p@.len()));
            n -= p.len();
        } else {
            return string_of(&rest);
        }
    }
}

/// What stands before the first `pat`, or all where it does not stand in the text.
pub open spec fn before_text(s: Seq<char>, pat: Seq<char>) -> Seq<char>
    decreases s.len(),
{
    if s.len() == 0 || begins_with(s, pat) {
        Seq::empty()
    } else {
        seq![s[0]] + before_text(s.drop_first(), pat)
    }
}

/// What stands before the first `pat`.
pub fn cut_before(s: &str, pat: &str) -> (r: String)
    ensures
        r@ == before_text(s@, pat@),
{
    let chars = chars_of(s);
    let p = chars_of(pat);
    let mut out: Vec<char> = Vec::new();
    let mut i: usize = 0;
    assert(chars@.skip(0) =~= s@);
    assert(out@ + before_text(s@, pat@) =~= before_text(s@, pat@));
    while i < chars.len()
        invariant
            chars@ == s@,
            p@ == pat@,
            i <= chars@.len(),
            out@ + before_text(chars@.skip(i as int), pat@) == before_text(s@, pat@),
        decreases chars.len() - i,
    {
        let ghost rest = chars@.skip(i as int);
        if at(&chars, &p, i) {
            assert(rest.subrange(0, pat@.len() as int) =~= chars@.subrange(
                i as int,
                i + pat@.len(),
            ));
            assert(begins_with(rest, pat@));
            assert(out@ + Seq::<char>::empty() =~= out@);
            return string_of(&out);
        }
        assert(!begins_with(rest, pat@)) by {
            if begins_with(rest, pat@) {
                assert(rest.subrange(0, pat@.len() as int) =~= chars@.subrange(
                    i as int,
                    i + pat@.len(),
                ));
            }
        }
        assert(rest.drop_first() =~= chars@.skip(i + 1));
        let ghost before = out@;
        out.push(chars[i]);
        assert(before + (seq![rest[0]] + before_text(chars@.skip(i + 1), pat@)) =~= out@
            + before_text(chars@.skip(i + 1), pat@));
        i += 1;
    }
    assert(chars@.skip(i as int).len() == 0);
    assert(out@ + Seq::<char>::empty() =~= out@);
    string_of(&out)
}

/// The texts that are not empty, each once and where it first stands.
pub open spec fn distinct_texts(list: Seq<Seq<char>>) -> Seq<Seq<char>>
    decreases list.len(),
{
    if list.len() == 0 {
        Seq::empty()
    } else {
        let before = distinct_texts(list.drop_last());
        if list.last().len() == 0 || before.contains(list.last()) {
            before
        } else {
            before.push(list.last())
        }
    }
}

/// A text stands in a list of strings where it stands among their views.
pub proof fn is_in_texts(list: Seq<String>, s: Seq<char>)
    ensures
        is_in(list, s) == texts(list).contains(s),
{
    if is_in(list, s) {
        let i = choose|i: int| 0 <= i < list.len() && (#[trigger] list[i])@ == s;
        assert(texts(list)[i] == s);
    }
    if texts(list).contains(s) {
        let i = choose|i: int| 0 <= i < texts(list).len() && texts(list)[i] == s;
        assert(list[i]@ == s);
    }
}

/// Keeps the texts that are not empty, each once.
pub fn keep_distinct(list: &Vec<String>) -> (r: Vec<String>)
    ensures
        texts(r@) == distinct_texts(texts(list@)),
{
    let ghost all = texts(list@);
    let mut out: Vec<String> = Vec::new();
    let mut i: usize = 0;
    assert(all.take(0) =~= Seq::empty());
    assert(texts(out@) =~= Seq::empty());
    while i < list.len()
        invariant
            all == texts(list@),
            i <= list@.len(),
            texts(out@) == distinct_texts(all.take(i as int)),
        decreases list.len() - i,
    {
        assert(all.take(i + 1).drop_last() =~= all.take(i as int));
        assert(all.take(i + 1).last() == list@[i as int]@);
        proof {
            is_in_texts(out@, list@[i as int]@);
        }
        if !list[i].as_str().is_empty() && !list_has(&out, list[i].as_str()) {
            let ghost before = texts(out@);
            out.push(list[i].clone());
            assert(texts(out@) =~= before.push(list@[i as int]@));
        }
        i += 1;
    }
    assert(all.take(i as int) =~= all);
    out
}

/// What is trimmed keeps all between the first and the last character that is no white space: only
/// white space goes, and none is left at either end.
pub proof fn trimming_takes_white_space_alone(s: Seq<char>) -> (cut: (int, int))
    ensures
        0 <= cut.0 <= cut.1 <= s.len(),
        trim_of(s) == s.subrange(cut.0, cut.1),
        forall|i: int| 0 <= i < cut.0 ==> is_white(#[trigger] s[i]),
        forall|i: int| cut.1 <= i < s.len() ==> is_white(#[trigger] s[i]),
        trim_of(s).len() > 0 ==> !is_white(trim_of(s)[0]) && !is_white(trim_of(s).last()),
        trim_start_of(s) == s.skip(cut.0),
{
    let a = trimming_starts(s);
    let t = trim_start_of(s);
    let b = trimming_ends(t);
    if trim_of(s).len() > 0 {
        assert(trim_of(s)[0] == t[0]);
        assert(!is_white(t[0]));
    }
    assert forall|i: int| a + b <= i < s.len() implies is_white(#[trigger] s[i]) by {
        assert(t[i - a] == s[i]);
    }
    assert(trim_of(s) =~= s.subrange(a, a + b));
    (a, a + b)
}

/// Only white space goes from the start, and all of it.
proof fn trimming_starts(s: Seq<char>) -> (from: int)
    ensures
        0 <= from <= s.len(),
        trim_start_of(s) == s.skip(from),
        forall|i: int| 0 <= i < from ==> is_white(#[trigger] s[i]),
        from < s.len() ==> !is_white(s[from]),
    decreases s.len(),
{
    if s.len() > 0 && is_white(s[0]) {
        let rest = s.drop_first();
        let from = trimming_starts(rest);
        assert forall|i: int| 0 <= i < from + 1 implies is_white(#[trigger] s[i]) by {
            if i > 0 {
                assert(rest[i - 1] == s[i]);
            }
        }
        assert(rest.skip(from) =~= s.skip(from + 1));
        from + 1
    } else {
        assert(s.skip(0) =~= s);
        0
    }
}

/// Only white space goes from the end, and all of it.
proof fn trimming_ends(s: Seq<char>) -> (to: int)
    ensures
        0 <= to <= s.len(),
        trim_end_of(s) == s.take(to),
        forall|i: int| to <= i < s.len() ==> is_white(#[trigger] s[i]),
        to > 0 ==> !is_white(s[to - 1]),
    decreases s.len(),
{
    if s.len() > 0 && is_white(s.last()) {
        let front = s.drop_last();
        let to = trimming_ends(front);
        assert forall|i: int| to <= i < s.len() implies is_white(#[trigger] s[i]) by {
            if i < front.len() {
                assert(front[i] == s[i]);
            }
        }
        assert(front.take(to) =~= s.take(to));
        to
    } else {
        assert(s.take(s.len() as int) =~= s);
        s.len() as int
    }
}

/// A text that has no white space at its ends is trimmed to itself.
pub proof fn what_is_trimmed_stays(s: Seq<char>)
    requires
        s.len() > 0 ==> !is_white(s[0]) && !is_white(s.last()),
    ensures
        trim_of(s) == s,
        trim_of(trim_of(s)) == trim_of(s),
{
}

/// What is split and joined again is what it was.
pub proof fn parts_join_to_the_text(s: Seq<char>, sep: char)
    ensures
        joined(split_on(s, sep), seq![sep]) == s,
        split_on(s, sep).len() > 0,
        forall|k: int, i: int|
            0 <= k < split_on(s, sep).len() && 0 <= i < split_on(s, sep)[k].len()
                ==> #[trigger] split_on(s, sep)[k][i] != sep,
    decreases s.len(),
{
    first_of_is_first(s, sep);
    let i = first_of(s, sep);
    let parts = split_on(s, sep);
    if i < s.len() {
        let rest = s.skip(i + 1);
        parts_join_to_the_text(rest, sep);
        let more = split_on(rest, sep);
        joined_from_the_front(s.take(i), more, seq![sep]);
        assert(s =~= s.take(i) + seq![sep] + rest);
        assert forall|k: int, j: int|
            0 <= k < parts.len() && 0 <= j < parts[k].len() implies #[trigger] parts[k][j]
            != sep by {
            if k > 0 {
                assert(parts[k] == more[k - 1]);
                assert(more[k - 1][j] != sep);
            } else {
                assert(parts[0][j] == s[j]);
            }
        }
    } else {
        assert(parts[0] == s);
    }
}

/// Parts are joined from the front as from the end.
proof fn joined_from_the_front(first: Seq<char>, rest: Seq<Seq<char>>, sep: Seq<char>)
    requires
        rest.len() > 0,
    ensures
        joined(seq![first] + rest, sep) == first + sep + joined(rest, sep),
    decreases rest.len(),
{
    let all = seq![first] + rest;
    assert(all.drop_last() =~= seq![first] + rest.drop_last());
    assert(all.last() == rest.last());
    if rest.len() == 1 {
        assert(all.drop_last() =~= seq![first]);
        assert(joined(all.drop_last(), sep) == first);
    } else {
        joined_from_the_front(first, rest.drop_last(), sep);
        assert(first + sep + joined(rest.drop_last(), sep) + sep + rest.last() =~= first + sep + (
        joined(rest.drop_last(), sep) + sep + rest.last()));
    }
}

/// A line and what follows it are the line and the lines of what follows; what has no line feed is one
/// line.
pub proof fn a_line_ends_with_its_line_feed(line: Seq<char>, rest: Seq<char>)
    requires
        forall|i: int| 0 <= i < line.len() ==> line[i] != '\n',
        line.len() > 0 ==> line.last() != '\r',
    ensures
        lines_of(line + seq!['\n'] + rest) == seq![line] + lines_of(rest),
        line.len() > 0 ==> lines_of(line) == seq![line],
{
    let s = line + seq!['\n'] + rest;
    first_of_is_unique(s, '\n', line.len() as int);
    assert(s.take(line.len() as int) =~= line);
    assert(s.skip(line.len() as int + 1) =~= rest);
    first_of_is_unique(line, '\n', line.len() as int);
}

/// No word is empty or holds white space.
pub proof fn words_hold_no_white_space(s: Seq<char>)
    ensures
        forall|k: int| 0 <= k < words_of(s).len() ==> (#[trigger] words_of(s)[k]).len() > 0,
        forall|k: int, i: int|
            0 <= k < words_of(s).len() && 0 <= i < words_of(s)[k].len() ==> !is_white(
                #[trigger] words_of(s)[k][i],
            ),
    decreases s.len(),
{
    let t = trim_start_of(s);
    word_len_fits(s);
    word_len_fits(t);
    if t.len() > 0 {
        let n = word_len(t) as int;
        a_word_is_no_white_space(t);
        words_hold_no_white_space(t.skip(n));
        let more = words_of(t.skip(n));
        let all = words_of(s);
        assert forall|k: int| 0 <= k < all.len() implies (#[trigger] all[k]).len() > 0 by {
            if k > 0 {
                assert(all[k] == more[k - 1]);
            }
        }
        assert forall|k: int, i: int| 0 <= k < all.len() && 0 <= i < all[k].len() implies !is_white(
            #[trigger] all[k][i],
        ) by {
            if k > 0 {
                assert(all[k] == more[k - 1]);
                assert(!is_white(more[k - 1][i]));
            } else {
                assert(all[0][i] == t[i]);
            }
        }
    }
}

/// The first word holds no white space.
proof fn a_word_is_no_white_space(s: Seq<char>)
    ensures
        word_len(s) <= s.len(),
        forall|i: int| 0 <= i < word_len(s) ==> !is_white(#[trigger] s[i]),
    decreases s.len(),
{
    if s.len() > 0 && !is_white(s[0]) {
        let rest = s.drop_first();
        a_word_is_no_white_space(rest);
        assert forall|i: int| 0 <= i < word_len(s) implies !is_white(#[trigger] s[i]) by {
            if i > 0 {
                assert(rest[i - 1] == s[i]);
            }
        }
    }
}

/// A text stays as it is where what is replaced does not begin at any of its characters, and a single
/// character that is taken out stands nowhere in what is left.
pub proof fn replacing_changes_what_it_finds(s: Seq<char>, pat: Seq<char>)
    requires
        pat.len() > 0,
    ensures
        (forall|i: int| 0 <= i < s.len() ==> s[i] != pat[0]) ==> forall|with: Seq<char>| #[trigger]
            replaced(s, pat, with) == s,
        pat.len() == 1 ==> forall|i: int|
            0 <= i < replaced(s, pat, Seq::empty()).len() ==> replaced(s, pat, Seq::empty())[i]
                != pat[0],
    decreases s.len(),
{
    if s.len() > 0 {
        let rest = s.drop_first();
        replacing_changes_what_it_finds(rest, pat);
        if begins_with(s, pat) {
            assert(s.subrange(0, pat.len() as int)[0] == pat[0]);
            assert(s[0] == pat[0]);
            if pat.len() == 1 {
                assert(s.skip(1) =~= rest);
                assert(replaced(s, pat, Seq::empty()) =~= replaced(rest, pat, Seq::empty()));
            }
        } else {
            if pat.len() == 1 && s[0] == pat[0] {
                assert(s.subrange(0, 1) =~= pat);
            }
            if forall|i: int| 0 <= i < s.len() ==> s[i] != pat[0] {
                assert(forall|i: int| 0 <= i < rest.len() ==> rest[i] == s[i + 1]);
                assert forall|with: Seq<char>| #[trigger] replaced(s, pat, with) == s by {
                    assert(replaced(rest, pat, with) == rest);
                    assert(seq![s[0]] + rest =~= s);
                }
            }
        }
    }
}

/// A text is what stands before the first of a character, the character, and what stands after it.
pub proof fn a_text_is_cut_at_the_first(a: Seq<char>, c: char, b: Seq<char>)
    requires
        forall|i: int| 0 <= i < a.len() ==> a[i] != c,
    ensures
        before_first(a + seq![c] + b, c) == a,
        after_first(a + seq![c] + b, c) == b,
        before_first(a, c) == a,
        after_first(a, c).len() == 0,
{
    let s = a + seq![c] + b;
    first_of_is_unique(s, c, a.len() as int);
    assert(s.take(a.len() as int) =~= a);
    assert(s.skip(a.len() as int + 1) =~= b);
    first_of_is_unique(a, c, a.len() as int);
    assert(a.take(a.len() as int) =~= a);
}

/// Texts that differ in the case of ASCII letters alone are the same but for case, and texts in other
/// letters are not.
pub proof fn case_is_no_difference(a: Seq<char>, b: Seq<char>, i: int)
    ensures
        same_but_case(a, a),
        same_but_case(a, b) == same_but_case(b, a),
        same_but_case(a, b) ==> a.len() == b.len(),
        same_but_case(a, b) && 0 <= i < a.len() && 'a' <= a[i] <= 'z' ==> b[i] == a[i] || (b[i] as u32
            + 32 == a[i] as u32),
        all_ascii(a) ==> lower_of(a).len() == a.len(),
        all_ascii(a) && 0 <= i < a.len() && 'A' <= a[i] <= 'Z' ==> lower_of(a)[i] as u32 == a[i] as u32
            + 32,
        all_ascii(a) && 0 <= i < a.len() && !('A' <= a[i] <= 'Z') ==> lower_of(a)[i] == a[i],
{
    let x = a.map_values(|c: char| ascii_lower(c));
    let y = b.map_values(|c: char| ascii_lower(c));
    assert(x.len() == a.len() && y.len() == b.len());
    if same_but_case(a, b) && 0 <= i < a.len() {
        assert(x[i] == ascii_lower(a[i]) && y[i] == ascii_lower(b[i]));
    }
}

/// Each text is kept once, in the order in which the texts first stand, and none is lost but those
/// that are empty.
pub proof fn each_text_is_kept_once(list: Seq<Seq<char>>)
    ensures
        distinct_texts(list).no_duplicates(),
        forall|s: Seq<char>| #[trigger]
            distinct_texts(list).contains(s) <==> list.contains(s) && s.len() > 0,
    decreases list.len(),
{
    if list.len() > 0 {
        let front = list.drop_last();
        each_text_is_kept_once(front);
        let before = distinct_texts(front);
        let all = distinct_texts(list);
        assert forall|s: Seq<char>| #[trigger] all.contains(s) <==> list.contains(s) && s.len()
            > 0 by {
            if all.contains(s) {
                let x = choose|x: int| 0 <= x < all.len() && all[x] == s;
                if x < before.len() {
                    assert(before[x] == s);
                    assert(before.contains(s));
                    let y = choose|y: int| 0 <= y < front.len() && front[y] == s;
                    assert(list[y] == s);
                } else {
                    assert(list[list.len() - 1] == s);
                }
            }
            if list.contains(s) && s.len() > 0 {
                let y = choose|y: int| 0 <= y < list.len() && list[y] == s;
                if y < front.len() {
                    assert(front[y] == s);
                    assert(before.contains(s));
                    let x = choose|x: int| 0 <= x < before.len() && before[x] == s;
                    assert(all[x] == s);
                } else if before.contains(s) {
                    let x = choose|x: int| 0 <= x < before.len() && before[x] == s;
                    assert(all[x] == s);
                } else {
                    assert(all[before.len() as int] == s);
                }
            }
        }
    }
}

/// What stands once in a text is replaced where it stands, and what is around it stays.
pub proof fn what_stands_once_is_replaced(
    head: Seq<char>,
    pat: Seq<char>,
    tail: Seq<char>,
    with: Seq<char>,
)
    requires
        pat.len() > 0,
        forall|i: int| 0 <= i < head.len() ==> head[i] != pat[0],
        forall|i: int| 0 <= i < tail.len() ==> tail[i] != pat[0],
    ensures
        replaced(head + pat + tail, pat, with) == head + with + tail,
    decreases head.len(),
{
    let s = head + pat + tail;
    if head.len() == 0 {
        assert(s.subrange(0, pat.len() as int) =~= pat);
        assert(s.skip(pat.len() as int) =~= tail);
        replacing_changes_what_it_finds(tail, pat);
        assert(replaced(tail, pat, with) == tail);
        assert(s =~= pat + tail);
        assert(head + with + tail =~= with + tail);
    } else {
        let rest = head.drop_first();
        assert(s[0] == head[0]);
        if begins_with(s, pat) {
            assert(s.subrange(0, pat.len() as int)[0] == s[0]);
        }
        assert(s.drop_first() =~= rest + pat + tail);
        assert(forall|i: int| 0 <= i < rest.len() ==> rest[i] == head[i + 1]);
        what_stands_once_is_replaced(rest, pat, tail, with);
        assert(seq![s[0]] + (rest + with + tail) =~= head + with + tail);
    }
}

/// A line that ends with a carriage return and a line feed is the line without either.
pub proof fn a_line_ends_with_its_break(line: Seq<char>, rest: Seq<char>)
    requires
        forall|i: int| 0 <= i < line.len() ==> line[i] != '\n',
    ensures
        lines_of(line + seq!['\r', '\n'] + rest) == seq![line] + lines_of(rest),
{
    let s = line + seq!['\r', '\n'] + rest;
    let n = line.len() as int + 1;
    assert forall|j: int| 0 <= j < n implies s[j] != '\n' by {
        if j < line.len() {
            assert(s[j] == line[j]);
        }
    }
    assert(s[n] == '\n');
    first_of_is_unique(s, '\n', n);
    assert(s.take(n) =~= line.push('\r'));
    assert(line.push('\r').drop_last() =~= line);
    assert(s.skip(n + 1) =~= rest);
}

/// A word ends at the first blank, and what has no blank is one word.
pub proof fn a_word_ends_at_a_blank(word: Seq<char>, rest: Seq<char>)
    requires
        word.len() > 0,
        forall|i: int| 0 <= i < word.len() ==> !is_white(#[trigger] word[i]),
    ensures
        words_of(word + seq![' '] + rest) == seq![word] + words_of(rest),
        words_of(word) == seq![word],
{
    let s = word + seq![' '] + rest;
    assert(!is_white(s[0])) by {
        assert(s[0] == word[0]);
    }
    word_len_is(s, word.len() as int);
    assert(s.take(word.len() as int) =~= word);
    let after = s.skip(word.len() as int);
    assert(after[0] == ' ');
    assert(after.drop_first() =~= rest);
    assert(trim_start_of(after) == trim_start_of(rest));
    assert(words_of(after) == words_of(rest));
    word_len_is(word, word.len() as int);
    assert(word.take(word.len() as int) =~= word);
    assert(word.skip(word.len() as int) =~= Seq::empty());
    assert(!is_white(word[0]));
    assert(words_of(Seq::<char>::empty()) =~= Seq::empty());
    assert(words_of(word) =~= seq![word]);
}

/// A word is as long as there is no white space.
proof fn word_len_is(s: Seq<char>, n: int)
    requires
        0 <= n <= s.len(),
        forall|i: int| 0 <= i < n ==> !is_white(#[trigger] s[i]),
        n < s.len() ==> is_white(s[n]),
    ensures
        word_len(s) == n,
    decreases n,
{
    if n > 0 {
        assert(!is_white(s[0]));
        let rest = s.drop_first();
        assert forall|i: int| 0 <= i < n - 1 implies !is_white(#[trigger] rest[i]) by {
            assert(rest[i] == s[i + 1]);
        }
        word_len_is(rest, n - 1);
    }
}

/// What is left without a suffix does not end with it and begins as the text began, and a suffix more
/// leaves the same.
pub proof fn a_suffix_is_taken_off(s: Seq<char>, suffix: Seq<char>)
    requires
        suffix.len() > 0,
    ensures
        !finishes_with(without_suffixes(s, suffix), suffix),
        begins_with(s, without_suffixes(s, suffix)),
        without_suffixes(s + suffix, suffix) == without_suffixes(s, suffix),
    decreases s.len(),
{
    let longer = s + suffix;
    assert(longer.subrange(longer.len() - suffix.len(), longer.len() as int) =~= suffix);
    assert(longer.take(longer.len() - suffix.len()) =~= s);
    if finishes_with(s, suffix) {
        let shorter = s.take(s.len() - suffix.len());
        a_suffix_is_taken_off(shorter, suffix);
        let left = without_suffixes(s, suffix);
        assert(shorter.subrange(0, left.len() as int) == left);
        assert(s.subrange(0, left.len() as int) =~= left);
    } else {
        assert(s.subrange(0, s.len() as int) =~= s);
    }
}

/// What stands before a text is what comes before the first place at which that text stands.
pub proof fn what_stands_before_is_kept(head: Seq<char>, pat: Seq<char>, tail: Seq<char>)
    requires
        pat.len() > 0,
        forall|i: int| 0 <= i < head.len() ==> head[i] != pat[0],
    ensures
        before_text(head + pat + tail, pat) == head,
    decreases head.len(),
{
    let s = head + pat + tail;
    if head.len() == 0 {
        assert(s.subrange(0, pat.len() as int) =~= pat);
    } else {
        if begins_with(s, pat) {
            assert(s.subrange(0, pat.len() as int)[0] == head[0]);
        }
        let rest = head.drop_first();
        assert forall|i: int| 0 <= i < rest.len() implies rest[i] != pat[0] by {
            assert(rest[i] == head[i + 1]);
        }
        what_stands_before_is_kept(rest, pat, tail);
        assert(s.drop_first() =~= rest + pat + tail);
        assert(seq![s[0]] + rest =~= head);
    }
}

} // verus!
