//! Matching of queries.

use vstd::prelude::*;
use vstd::string::*;
use vstd::utf8::encode_utf8;

use crate::bytes::{bytes_at, first_bytes, first_bytes_is_first, position};
use crate::number::{wrap, wrapped};
use crate::text::{chars_of, first_of, first_of_is_first, index_of, lower_of, lowercase};
use crate::types::FuzzyInfo;

verus! {

/// The bit of a byte.
pub open spec fn bit_of(b: u8) -> u64 {
    1u64 << (b as u64 % 64)
}

/// The bits of all bytes together.
pub open spec fn mask_of(bytes: Seq<u8>) -> u64
    decreases bytes.len(),
{
    if bytes.len() == 0 {
        0
    } else {
        mask_of(bytes.drop_last()) | bit_of(bytes.last())
    }
}

/// The bits of the bytes of a text. A text can only match within another whose mask has all bits
/// of its own.
pub fn mask(s: &str) -> (r: u64)
    ensures
        r == mask_of(encode_utf8(s@)),
{
    let bytes = s.as_bytes();
    let n: usize = bytes.len();
    let mut m: u64 = 0;
    let mut i: usize = 0;
    assert(bytes@.take(0) =~= Seq::empty());
    while i < n
        invariant
            n == bytes@.len(),
            i <= n,
            m == mask_of(bytes@.take(i as int)),
        decreases n - i,
    {
        assert(bytes@.take(i + 1).drop_last() =~= bytes@.take(i as int));
        let at: u64 = bytes[i] as u64 % 64;
        m = m | (1u64 << at);
        i += 1;
    }
    assert(bytes@.take(i as int) =~= bytes@);
    m
}

/// The positions in `c`, from `from` on, at which the characters of `q` are found one after the
/// other, each as early as possible.
pub open spec fn found_at(q: Seq<char>, c: Seq<char>, from: int) -> Option<Seq<int>>
    decreases q.len(),
{
    if q.len() == 0 {
        Some(Seq::empty())
    } else {
        let i = from + first_of(c.skip(from), q[0]);
        if i >= c.len() {
            None
        } else {
            match found_at(q.drop_first(), c, i + 1) {
                Some(rest) => Some(seq![i] + rest),
                None => None,
            }
        }
    }
}

/// The score of a match of the characters in order.
pub open spec fn spread_score(length: nat, first: int, last: int) -> int {
    let span = last - first + 1;
    1000 + length * 100 + (if span < 100 {
        100 - span
    } else {
        0
    }) + (if first == 0 {
        500int
    } else {
        0
    }) - first
}

/// The score of a match as a whole.
pub open spec fn exact_score(length: nat, first: int) -> int {
    10_000 - first + length * 100
}

/// A score and where the match is: the start and all positions.
pub struct Match {
    pub score: int,
    pub start: int,
    pub positions: Seq<int>,
}

/// How a query matches a candidate, both in lower case. An empty query matches everything. An
/// exact match is one of the query as a whole, and its positions count bytes; any other is one of
/// its characters in order, and its positions count characters.
pub open spec fn match_of(query: Seq<char>, candidate: Seq<char>, exact: bool) -> Option<Match> {
    let length = encode_utf8(query).len();
    if query.len() == 0 {
        Some(Match { score: 1, start: 0, positions: Seq::empty() })
    } else if exact {
        match first_bytes(encode_utf8(candidate), encode_utf8(query)) {
            Some(start) => Some(
                Match {
                    score: wrapped(exact_score(length, start)),
                    start,
                    positions: Seq::new(length, |k: int| start + k),
                },
            ),
            None => None,
        }
    } else {
        match found_at(query, candidate, 0) {
            Some(positions) => Some(
                Match {
                    score: wrapped(spread_score(length, positions[0], positions.last())),
                    start: positions[0],
                    positions,
                },
            ),
            None => None,
        }
    }
}

/// The numbers that indices are.
pub open spec fn indices(v: Seq<usize>) -> Seq<int> {
    v.map_values(|i: usize| i as int)
}

/// Whether a score and where it was found are those of the match.
pub open spec fn is_match(r: (i32, FuzzyInfo), m: Match, field: Seq<char>) -> bool {
    &&& r.0 == m.score
    &&& r.1.start == m.start
    &&& r.1.field@ == field
    &&& indices(r.1.positions@) == m.positions
}

/// Whether this is how a query matches a candidate, both being in lower case.
pub open spec fn is_score(
    r: Option<(i32, FuzzyInfo)>,
    query: Seq<char>,
    candidate: Seq<char>,
    exact: bool,
    field: Seq<char>,
) -> bool {
    match r {
        Some(found) => match_of(query, candidate, exact) matches Some(m) && is_match(
            found,
            m,
            field,
        ),
        None => match_of(query, candidate, exact) is None,
    }
}

/// Positions are as many as the characters and never before where the search began.
proof fn found_at_bounds(q: Seq<char>, c: Seq<char>, from: int)
    requires
        0 <= from <= c.len(),
    ensures
        match found_at(q, c, from) {
            Some(p) => p.len() == q.len() && is_run(p, q, c) && forall|k: int|
                0 <= k < p.len() ==> from <= #[trigger] p[k],
            None => true,
        },
    decreases q.len(),
{
    if q.len() > 0 {
        let rest = c.skip(from);
        first_of_is_first(rest, q[0]);
        let i = from + first_of(rest, q[0]);
        if i < c.len() {
            assert(rest[first_of(rest, q[0])] == c[i]);
            found_at_bounds(q.drop_first(), c, i + 1);
            if found_at(q, c, from) is Some {
                let p = found_at(q, c, from)->0;
                let t = found_at(q.drop_first(), c, i + 1)->0;
                assert(p =~= seq![i] + t);
                assert forall|k: int| 0 <= k < p.len() implies c[#[trigger] p[k]] == q[k] && from
                    <= p[k] < c.len() by {
                    if k > 0 {
                        assert(p[k] == t[k - 1]);
                        assert(q.drop_first()[k - 1] == q[k]);
                    }
                }
                assert forall|a: int, b: int| 0 <= a < b < p.len() implies #[trigger] p[a]
                    < #[trigger] p[b] by {
                    if a > 0 {
                        assert(p[a] == t[a - 1]);
                    }
                    assert(p[b] == t[b - 1]);
                }
            }
        }
    }
}

/// Whether the positions lie in `c`, rise, and hold the characters of `q`.
pub open spec fn is_run(p: Seq<int>, q: Seq<char>, c: Seq<char>) -> bool {
    &&& p.len() == q.len()
    &&& forall|k: int| 0 <= k < p.len() ==> 0 <= #[trigger] p[k] < c.len() && c[p[k]] == q[k]
    &&& forall|a: int, b: int| 0 <= a < b < p.len() ==> #[trigger] p[a] < #[trigger] p[b]
}

/// How a query matches a candidate, both being in lower case.
pub fn score_lower(query: &str, candidate: &str, exact: bool, field: &str) -> (r: Option<
    (i32, FuzzyInfo),
>)
    ensures
        is_score(r, query@, candidate@, exact, field@),
{
    let q = chars_of(query);
    if q.len() == 0 {
        let positions: Vec<usize> = Vec::new();
        assert(indices(positions@) =~= Seq::empty());
        return Some((1, FuzzyInfo { start: 0, field: field.to_owned(), positions }));
    }
    let query_bytes = query.as_bytes();
    let length: usize = query_bytes.len();
    if exact {
        let candidate_bytes = candidate.as_bytes();
        let end: usize = candidate_bytes.len();
        match position(candidate_bytes, query_bytes) {
            None => None,
            Some(start) => {
                let mut positions: Vec<usize> = Vec::new();
                let mut k: usize = 0;
                while k < length
                    invariant
                        k <= length,
                        start + length <= end,
                        positions@.len() == k,
                        forall|j: int| 0 <= j < k ==> #[trigger] positions@[j] == start + j,
                    decreases length - k,
                {
                    positions.push(start + k);
                    k += 1;
                }
                assert(indices(positions@) =~= Seq::new(length as nat, |k: int| start + k));
                let score: i32 = wrap(10_000 - (start as i128) + (length as i128) * 100);
                Some((score, FuzzyInfo { start, field: field.to_owned(), positions }))
            },
        }
    } else {
        let c = chars_of(candidate);
        let mut positions: Vec<usize> = Vec::new();
        let mut from: usize = 0;
        let mut k: usize = 0;
        assert(q@.skip(0) =~= q@);
        proof {
            if found_at(q@, c@, 0) is Some {
                assert(indices(positions@) + found_at(q@, c@, 0)->0 =~= found_at(q@, c@, 0)->0);
            }
        }
        while k < q.len()
            invariant
                !exact,
                q@.len() > 0,
                k <= q@.len(),
                from <= c@.len(),
                q@ == query@,
                c@ == candidate@,
                positions@.len() == k,
                match found_at(q@.skip(k as int), c@, from as int) {
                    Some(rest) => found_at(q@, c@, 0) == Some(indices(positions@) + rest),
                    None => found_at(q@, c@, 0) is None,
                },
            decreases q.len() - k,
        {
            let i: usize = index_of(&c, q[k], from);
            let ghost left = q@.skip(k as int);
            assert(left.drop_first() =~= q@.skip(k + 1));
            if i >= c.len() {
                return None;
            }
            let ghost before = indices(positions@);
            positions.push(i);
            proof {
                assert(indices(positions@) =~= before.push(i as int));
                if found_at(q@.skip(k + 1), c@, i + 1) is Some {
                    let rest = found_at(q@.skip(k + 1), c@, i + 1)->0;
                    assert(before + (seq![i as int] + rest) =~= before.push(i as int) + rest);
                }
            }
            from = i + 1;
            k += 1;
        }
        assert(q@.skip(k as int).len() == 0);
        assert(indices(positions@) + Seq::<int>::empty() =~= indices(positions@));
        proof {
            found_at_bounds(q@, c@, 0);
        }
        let ghost p = indices(positions@);
        let start: usize = positions[0];
        let last: usize = positions[positions.len() - 1];
        assert(p[0] == start && p.last() == last);
        proof {
            let n = p.len() as int;
            assert(is_run(p, q@, c@));
            assert(0 <= p[n - 1] < c@.len());
            if n > 1 {
                assert(p[0] < p[n - 1]);
            }
            assert(c@.len() == c.len());
        }
        let span: usize = last - start + 1;
        let compact: i128 = if span < 100 { 100 - (span as i128) } else { 0 };
        let prefix: i128 = if start == 0 { 500 } else { 0 };
        let score: i32 = wrap(1000 + (length as i128) * 100 + compact + prefix - (start as i128));
        Some((score, FuzzyInfo { start, field: field.to_owned(), positions }))
    }
}

/// How a query matches a candidate, whatever their case.
pub fn score(query: &str, candidate: &str, exact: bool, field: &str) -> (r: Option<(i32, FuzzyInfo)>)
    ensures
        is_score(r, lower_of(query@), lower_of(candidate@), exact, field@),
{
    score_lower(lowercase(query).as_str(), lowercase(candidate).as_str(), exact, field)
}

/// A mask has the bit of each of its bytes.
proof fn mask_has_bit(bytes: Seq<u8>, i: int)
    requires
        0 <= i < bytes.len(),
    ensures
        mask_of(bytes) & bit_of(bytes[i]) == bit_of(bytes[i]),
    decreases bytes.len(),
{
    let front = mask_of(bytes.drop_last());
    let last = bit_of(bytes.last());
    if i == bytes.len() - 1 {
        assert((front | last) & last == last) by (bit_vector);
    } else {
        mask_has_bit(bytes.drop_last(), i);
        let bit = bit_of(bytes[i]);
        assert((front | last) & bit == bit) by (bit_vector)
            requires
                front & bit == bit,
        ;
    }
}

/// Where every byte of one text is a byte of another, its mask is within the other's.
proof fn mask_grows(q: Seq<u8>, c: Seq<u8>)
    requires
        forall|i: int| 0 <= i < q.len() ==> c.contains(#[trigger] q[i]),
    ensures
        mask_of(q) & mask_of(c) == mask_of(q),
    decreases q.len(),
{
    let m = mask_of(c);
    if q.len() == 0 {
        assert(0u64 & m == 0u64) by (bit_vector);
    } else {
        let front = mask_of(q.drop_last());
        let last = bit_of(q.last());
        assert forall|i: int| 0 <= i < q.drop_last().len() implies c.contains(
            #[trigger] q.drop_last()[i],
        ) by {
            assert(q.drop_last()[i] == q[i]);
        }
        mask_grows(q.drop_last(), c);
        assert(c.contains(q[q.len() - 1]));
        let k = choose|k: int| 0 <= k < c.len() && c[k] == q.last();
        mask_has_bit(c, k);
        assert((front | last) & m == front | last) by (bit_vector)
            requires
                front & m == front,
                m & last == last,
        ;
    }
}

/// Every byte of the text comes from one of its characters, and the other way round.
proof fn bytes_of_chars(s: Seq<char>)
    ensures
        forall|b: u8, k: int|
            0 <= k < s.len() && #[trigger] encode_utf8(seq![s[k]]).contains(b) ==> encode_utf8(
                s,
            ).contains(b),
        forall|b: u8|
            encode_utf8(s).contains(b) ==> exists|k: int|
                0 <= k < s.len() && #[trigger] encode_utf8(seq![s[k]]).contains(b),
    decreases s.len(),
{
    if s.len() > 0 {
        let rest = s.drop_first();
        bytes_of_chars(rest);
        let one = encode_utf8(seq![s[0]]);
        assert(seq![s[0]].drop_first() =~= Seq::empty());
        assert(encode_utf8(Seq::<char>::empty()) =~= Seq::empty());
        assert(encode_utf8(s) =~= one + encode_utf8(rest));
        assert forall|b: u8, k: int|
            0 <= k < s.len() && #[trigger] encode_utf8(seq![s[k]]).contains(b) implies encode_utf8(
            s,
        ).contains(b) by {
            if k == 0 {
                let j = choose|j: int| 0 <= j < one.len() && one[j] == b;
                assert(encode_utf8(s)[j] == b);
            } else {
                assert(rest[k - 1] == s[k]);
                assert(encode_utf8(seq![rest[k - 1]]).contains(b));
                let more = encode_utf8(rest);
                let j = choose|j: int| 0 <= j < more.len() && more[j] == b;
                assert(encode_utf8(s)[one.len() + j] == b);
            }
        }
        assert forall|b: u8| encode_utf8(s).contains(b) implies exists|k: int|
            0 <= k < s.len() && #[trigger] encode_utf8(seq![s[k]]).contains(b) by {
            let j = choose|j: int| 0 <= j < encode_utf8(s).len() && encode_utf8(s)[j] == b;
            if j < one.len() {
                assert(one[j] == b);
                assert(encode_utf8(seq![s[0]]).contains(b));
            } else {
                assert(encode_utf8(rest)[j - one.len()] == b);
                assert(encode_utf8(rest).contains(b));
                let k = choose|k: int|
                    0 <= k < rest.len() && #[trigger] encode_utf8(seq![rest[k]]).contains(b);
                assert(s[k + 1] == rest[k]);
                assert(encode_utf8(seq![s[k + 1]]).contains(b));
            }
        }
    }
}

/// A query can match a candidate only if the mask of the candidate has every bit of the mask of
/// the query, so that candidates may be passed over by their masks alone.
pub proof fn mask_is_necessary_for_a_match(query: Seq<char>, candidate: Seq<char>, exact: bool)
    requires
        match_of(query, candidate, exact) is Some,
    ensures
        mask_of(encode_utf8(query)) & mask_of(encode_utf8(candidate)) == mask_of(
            encode_utf8(query),
        ),
{
    let q = encode_utf8(query);
    let c = encode_utf8(candidate);
    assert forall|i: int| 0 <= i < q.len() implies c.contains(#[trigger] q[i]) by {
        if query.len() == 0 {
            assert(q =~= Seq::empty());
        } else if exact {
            first_bytes_is_first(c, q);
            let start = first_bytes(c, q)->0;
            assert(c.subrange(start, start + q.len())[i] == q[i]);
            assert(c[start + i] == q[i]);
        } else {
            found_at_bounds(query, candidate, 0);
            let p = found_at(query, candidate, 0)->0;
            bytes_of_chars(query);
            bytes_of_chars(candidate);
            assert(q.contains(q[i]));
            let k = choose|k: int|
                0 <= k < query.len() && #[trigger] encode_utf8(seq![query[k]]).contains(q[i]);
            assert(candidate[p[k]] == query[k]);
            assert(encode_utf8(seq![candidate[p[k]]]).contains(q[i]));
        }
    }
    mask_grows(q, c);
}

/// The positions of a match that is not exact lie in the candidate, rise, and hold the characters
/// of the query.
pub proof fn positions_spell_the_query(query: Seq<char>, candidate: Seq<char>)
    requires
        query.len() > 0,
        match_of(query, candidate, false) is Some,
    ensures
        is_run(match_of(query, candidate, false)->0.positions, query, candidate),
{
    found_at_bounds(query, candidate, 0);
}

/// A query whose characters stand in the candidate in order is found.
pub proof fn a_run_is_found(query: Seq<char>, candidate: Seq<char>, p: Seq<int>)
    requires
        is_run(p, query, candidate),
    ensures
        match_of(query, candidate, false) is Some,
{
    if query.len() > 0 {
        run_from_is_found(query, candidate, p, 0);
    }
}

/// A run that begins at or after `from` is found from there.
proof fn run_from_is_found(q: Seq<char>, c: Seq<char>, p: Seq<int>, from: int)
    requires
        is_run(p, q, c),
        0 <= from <= c.len(),
        q.len() > 0 ==> from <= p[0],
    ensures
        found_at(q, c, from) is Some,
    decreases q.len(),
{
    if q.len() > 0 {
        let rest = c.skip(from);
        first_of_is_first(rest, q[0]);
        let f = first_of(rest, q[0]);
        assert(rest[p[0] - from] == c[p[0]]);
        assert(from + f <= p[0]);
        let t = p.drop_first();
        assert forall|k: int| 0 <= k < t.len() implies 0 <= #[trigger] t[k] < c.len() && c[t[k]]
            == q.drop_first()[k] by {
            assert(t[k] == p[k + 1]);
        }
        assert forall|a: int, b: int| 0 <= a < b < t.len() implies #[trigger] t[a]
            < #[trigger] t[b] by {
            assert(p[a + 1] < p[b + 1]);
        }
        if q.len() > 1 {
            assert(p[0] < p[1]);
        }
        run_from_is_found(q.drop_first(), c, t, from + f + 1);
    }
}

/// Whether the score of a match can be counted: neither the query nor the candidate is so long that
/// it would run over.
pub open spec fn is_countable(query: Seq<char>, candidate: Seq<char>) -> bool {
    &&& encode_utf8(query).len() * 100 + 10_000 <= i32::MAX
    &&& encode_utf8(candidate).len() <= i32::MAX
    &&& candidate.len() <= i32::MAX
}

/// What is known of a match that is not exact: its start is the first of its positions, which rise
/// and hold the characters of the query, and its score was counted without running over.
proof fn spread_match(query: Seq<char>, candidate: Seq<char>, field: Seq<char>, found: (i32, FuzzyInfo))
    requires
        query.len() > 0,
        is_countable(query, candidate),
        is_score(Some(found), query, candidate, false, field),
    ensures
        is_run(indices(found.1.positions@), query, candidate),
        found.1.positions@.len() > 0,
        found.1.start == found.1.positions@[0],
        found.1.start <= found.1.positions@.last(),
        found.0 == spread_score(
            encode_utf8(query).len(),
            found.1.start as int,
            found.1.positions@.last() as int,
        ),
{
    found_at_bounds(query, candidate, 0);
    let p = indices(found.1.positions@);
    assert(p == found_at(query, candidate, 0)->0);
    assert(p[0] == found.1.positions@[0]);
    assert(p.last() == found.1.positions@.last());
    assert(0 <= p[0] < candidate.len() && 0 <= p[p.len() - 1] < candidate.len());
    if p.len() > 1 {
        assert(p[0] < p[p.len() - 1]);
    }
}

/// A query that lies closer together in one candidate than in another never scores lower there,
/// where both begin at the same place, and over fewer than a hundred characters each character more
/// costs a point.
pub proof fn a_closer_match_scores_higher(
    query: Seq<char>,
    near: Seq<char>,
    far: Seq<char>,
    field: Seq<char>,
    a: (i32, FuzzyInfo),
    b: (i32, FuzzyInfo),
)
    requires
        query.len() > 0,
        is_countable(query, near),
        is_countable(query, far),
        is_score(Some(a), query, near, false, field),
        is_score(Some(b), query, far, false, field),
        a.1.start == b.1.start,
        a.1.positions@.last() <= b.1.positions@.last(),
    ensures
        a.0 >= b.0,
        b.1.positions@.last() - b.1.start < 100 ==> a.0 - b.0 == b.1.positions@.last()
            - a.1.positions@.last(),
{
    spread_match(query, near, field, a);
    spread_match(query, far, field, b);
}

/// A query that is found earlier in one candidate than in another, over as many characters, scores
/// higher there by a point for each character, and by five hundred more at the very start.
pub proof fn an_earlier_match_scores_higher(
    query: Seq<char>,
    early: Seq<char>,
    late: Seq<char>,
    field: Seq<char>,
    a: (i32, FuzzyInfo),
    b: (i32, FuzzyInfo),
)
    requires
        query.len() > 0,
        is_countable(query, early),
        is_countable(query, late),
        is_score(Some(a), query, early, false, field),
        is_score(Some(b), query, late, false, field),
        a.1.start < b.1.start,
        a.1.positions@.last() - a.1.start == b.1.positions@.last() - b.1.start,
    ensures
        a.0 > b.0,
        a.1.start > 0 ==> a.0 - b.0 == b.1.start - a.1.start,
        a.1.start == 0 ==> a.0 - b.0 == 500 + b.1.start,
{
    spread_match(query, early, field, a);
    spread_match(query, late, field, b);
}

/// A longer query scores a hundred points more for each byte, where it lies as far apart from the
/// same place.
pub proof fn a_longer_query_scores_higher(
    query: Seq<char>,
    longer: Seq<char>,
    candidate: Seq<char>,
    field: Seq<char>,
    a: (i32, FuzzyInfo),
    b: (i32, FuzzyInfo),
)
    requires
        query.len() > 0,
        longer.len() > 0,
        is_countable(query, candidate),
        is_countable(longer, candidate),
        is_score(Some(a), query, candidate, false, field),
        is_score(Some(b), longer, candidate, false, field),
        a.1.start == b.1.start,
        a.1.positions@.last() == b.1.positions@.last(),
    ensures
        b.0 - a.0 == 100 * (encode_utf8(longer).len() - encode_utf8(query).len()),
{
    spread_match(query, candidate, field, a);
    spread_match(longer, candidate, field, b);
}

/// A query that begins a candidate is found there in one piece.
proof fn a_beginning_is_found(query: Seq<char>, candidate: Seq<char>, from: int)
    requires
        0 <= from <= query.len() <= candidate.len(),
        candidate.take(query.len() as int) == query,
    ensures
        found_at(query.skip(from), candidate, from) == Some(
            Seq::new((query.len() - from) as nat, |k: int| from + k),
        ),
    decreases query.len() - from,
{
    let q = query.skip(from);
    if q.len() == 0 {
        assert(Seq::new((query.len() - from) as nat, |k: int| from + k) =~= Seq::empty());
    } else {
        assert(candidate.take(query.len() as int)[from] == query[from]);
        assert(candidate.skip(from)[0] == q[0]);
        assert(first_of(candidate.skip(from), q[0]) == 0);
        a_beginning_is_found(query, candidate, from + 1);
        assert(q.drop_first() =~= query.skip(from + 1));
        let rest = Seq::new((query.len() - (from + 1)) as nat, |k: int| from + 1 + k);
        assert(seq![from] + rest =~= Seq::new((query.len() - from) as nat, |k: int| from + k));
    }
}

/// A candidate that begins with the query is found by it, in one piece at its start, and no match of
/// the query scores higher.
pub proof fn what_begins_with_the_query_scores_highest(
    query: Seq<char>,
    candidate: Seq<char>,
    other: Seq<char>,
    field: Seq<char>,
    r: Option<(i32, FuzzyInfo)>,
    b: (i32, FuzzyInfo),
)
    requires
        0 < query.len() <= candidate.len(),
        candidate.take(query.len() as int) == query,
        is_countable(query, candidate),
        is_countable(query, other),
        is_score(r, query, candidate, false, field),
        is_score(Some(b), query, other, false, field),
    ensures
        r is Some,
        (r->0).1.start == 0,
        (r->0).1.positions@.len() == query.len(),
        forall|k: int| 0 <= k < query.len() ==> (#[trigger] (r->0).1.positions@[k]) == k,
        (r->0).0 >= b.0,
        query.len() <= 100 ==> (r->0).0 == 1600 + 100 * encode_utf8(query).len() - query.len(),
{
    a_beginning_is_found(query, candidate, 0);
    assert(query.skip(0) =~= query);
    let a = r->0;
    spread_match(query, candidate, field, a);
    spread_match(query, other, field, b);
    let p = indices(a.1.positions@);
    assert(p =~= Seq::new(query.len(), |k: int| 0 + k));
    assert forall|k: int| 0 <= k < query.len() implies (#[trigger] a.1.positions@[k]) == k by {
        assert(p[k] == k);
    }
    let o = indices(b.1.positions@);
    rising_is_wide(o, query.len() as int - 1);
    assert(o[0] == b.1.positions@[0] && o[query.len() - 1] == b.1.positions@.last());
    assert(a.1.positions@.last() == query.len() - 1);
}

/// Positions that rise lie at least as far apart as there are steps between them.
proof fn rising_is_wide(p: Seq<int>, n: int)
    requires
        0 <= n < p.len(),
        forall|a: int, b: int| 0 <= a < b < p.len() ==> #[trigger] p[a] < #[trigger] p[b],
    ensures
        p[n] - p[0] >= n,
    decreases n,
{
    if n > 0 {
        rising_is_wide(p, n - 1);
        assert(p[n - 1] < p[n]);
    }
}

/// The match that is found is the earliest: no other way in which the characters of the query stand
/// in the candidate in order has any of them sooner.
pub proof fn the_earliest_match_is_found(
    query: Seq<char>,
    candidate: Seq<char>,
    field: Seq<char>,
    found: (i32, FuzzyInfo),
    other: Seq<int>,
    k: int,
)
    requires
        query.len() > 0,
        is_score(Some(found), query, candidate, false, field),
        other.len() == query.len(),
        forall|i: int|
            0 <= i < other.len() ==> 0 <= #[trigger] other[i] < candidate.len() && candidate[other[i]]
                == query[i],
        forall|i: int, j: int| 0 <= i < j < other.len() ==> #[trigger] other[i] < #[trigger] other[j],
        0 <= k < query.len(),
    ensures
        found.1.positions@.len() == query.len(),
        found.1.positions@[k] <= other[k],
        candidate[found.1.positions@[k] as int] == query[k],
        found.1.start == found.1.positions@[0],
{
    found_at_bounds(query, candidate, 0);
    earliest_from(query, candidate, other, 0, k);
    let p = indices(found.1.positions@);
    assert(p[k] == found.1.positions@[k]);
    assert(p[0] == found.1.positions@[0]);
}

/// Characters that are looked for from a place on are found no later than they stand in any run from
/// there.
proof fn earliest_from(q: Seq<char>, c: Seq<char>, p: Seq<int>, from: int, k: int)
    requires
        is_run(p, q, c),
        0 <= from <= c.len(),
        q.len() > 0,
        from <= p[0],
        0 <= k < q.len(),
    ensures
        found_at(q, c, from) is Some,
        found_at(q, c, from)->0.len() == q.len(),
        found_at(q, c, from)->0[k] <= p[k],
    decreases q.len(),
{
    let rest = c.skip(from);
    first_of_is_first(rest, q[0]);
    let f = first_of(rest, q[0]);
    assert(rest[p[0] - from] == c[p[0]]);
    assert(from + f <= p[0]);
    run_from_is_found(q, c, p, from);
    found_at_bounds(q, c, from);
    if k > 0 {
        let t = p.drop_first();
        assert forall|i: int| 0 <= i < t.len() implies 0 <= #[trigger] t[i] < c.len() && c[t[i]]
            == q.drop_first()[i] by {
            assert(t[i] == p[i + 1]);
        }
        assert forall|a: int, b: int| 0 <= a < b < t.len() implies #[trigger] t[a]
            < #[trigger] t[b] by {
            assert(p[a + 1] < p[b + 1]);
        }
        assert(p[0] < p[1]);
        earliest_from(q.drop_first(), c, t, from + f + 1, k - 1);
        assert(found_at(q, c, from)->0[k] == found_at(q.drop_first(), c, from + f + 1)->0[k - 1]);
    }
}

/// A query matches where its characters stand in the candidate in order, and only there.
pub proof fn a_query_matches_where_its_characters_stand_in_order(
    query: Seq<char>,
    candidate: Seq<char>,
    field: Seq<char>,
    r: Option<(i32, FuzzyInfo)>,
)
    requires
        query.len() > 0,
        is_score(r, query, candidate, false, field),
    ensures
        r is Some <==> exists|p: Seq<int>| #[trigger] is_run(p, query, candidate),
{
    if r is Some {
        found_at_bounds(query, candidate, 0);
        assert(is_run(found_at(query, candidate, 0)->0, query, candidate));
    }
    if exists|p: Seq<int>| #[trigger] is_run(p, query, candidate) {
        let p = choose|p: Seq<int>| #[trigger] is_run(p, query, candidate);
        a_run_is_found(query, candidate, p);
    }
}

/// An exact match is the first place at which the query stands as a whole: the bytes there are its
/// bytes, and there is none sooner. Without one there is no place.
pub proof fn an_exact_match_is_the_whole_query(
    query: Seq<char>,
    candidate: Seq<char>,
    field: Seq<char>,
    r: Option<(i32, FuzzyInfo)>,
    at: int,
)
    requires
        query.len() > 0,
        is_score(r, query, candidate, true, field),
        0 <= at,
        at + encode_utf8(query).len() <= encode_utf8(candidate).len(),
        encode_utf8(candidate).subrange(at, at + encode_utf8(query).len()) == encode_utf8(query),
    ensures
        r is Some,
        (r->0).1.start <= at,
        (r->0).1.start + encode_utf8(query).len() <= encode_utf8(candidate).len(),
        encode_utf8(candidate).subrange(
            (r->0).1.start as int,
            (r->0).1.start + encode_utf8(query).len(),
        ) == encode_utf8(query),
        (r->0).1.positions@.len() == encode_utf8(query).len(),
        forall|k: int|
            0 <= k < (r->0).1.positions@.len() ==> (#[trigger] (r->0).1.positions@[k]) == (r->0).1.start
                + k,
{
    first_bytes_is_first(encode_utf8(candidate), encode_utf8(query));
    assert(bytes_at(encode_utf8(candidate), encode_utf8(query), at));
    let p = indices((r->0).1.positions@);
    assert(p =~= Seq::new(encode_utf8(query).len(), |k: int| (r->0).1.start + k));
    assert(p.len() == (r->0).1.positions@.len());
    assert forall|k: int| 0 <= k < (r->0).1.positions@.len() implies (
    #[trigger] (r->0).1.positions@[k]) == (r->0).1.start + k by {
        assert(p[k] == (r->0).1.positions@[k]);
    }
}

/// An exact match scores higher the sooner it stands, and above any match of the same query that is
/// not exact as long as it stands within the first eight thousand bytes.
pub proof fn an_exact_match_scores_highest(
    query: Seq<char>,
    candidate: Seq<char>,
    other: Seq<char>,
    field: Seq<char>,
    a: (i32, FuzzyInfo),
    b: (i32, FuzzyInfo),
    exact: bool,
)
    requires
        query.len() > 0,
        is_countable(query, candidate),
        is_countable(query, other),
        is_score(Some(a), query, candidate, true, field),
        is_score(Some(b), query, other, exact, field),
    ensures
        exact ==> a.0 - b.0 == b.1.start - a.1.start,
        !exact && a.1.start <= 8000 ==> a.0 > b.0,
{
    first_bytes_is_first(encode_utf8(candidate), encode_utf8(query));
    if exact {
        first_bytes_is_first(encode_utf8(other), encode_utf8(query));
    } else {
        spread_match(query, other, field, b);
    }
}

/// An empty query is found in everything, with the least score that there is for a match in a short
/// text.
pub proof fn an_empty_query_matches_everything(
    candidate: Seq<char>,
    exact: bool,
    field: Seq<char>,
    r: Option<(i32, FuzzyInfo)>,
)
    requires
        is_score(r, Seq::empty(), candidate, exact, field),
    ensures
        r is Some,
        (r->0).0 == 1,
        (r->0).1.positions@.len() == 0,
        (r->0).1.field@ == field,
{
    assert(indices((r->0).1.positions@).len() == 0);
}

} // verus!
