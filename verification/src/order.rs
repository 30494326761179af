//! The order of texts and stable sorting.

use vstd::prelude::*;

use crate::text::chars_of;

verus! {

/// Whether `a` comes before `b` in the order of their characters.
pub open spec fn comes_before(a: Seq<char>, b: Seq<char>) -> bool
    decreases a.len(),
{
    if b.len() == 0 {
        false
    } else if a.len() == 0 {
        true
    } else if a[0] == b[0] {
        comes_before(a.drop_first(), b.drop_first())
    } else {
        a[0] < b[0]
    }
}

/// Nothing comes before itself, and of two different texts exactly one comes first.
pub proof fn comes_before_is_total(a: Seq<char>, b: Seq<char>)
    ensures
        !comes_before(a, a),
        !(comes_before(a, b) && comes_before(b, a)),
        a != b ==> comes_before(a, b) || comes_before(b, a),
    decreases a.len(),
{
    if a.len() > 0 {
        comes_before_is_total(a.drop_first(), if b.len() > 0 { b.drop_first() } else { b });
    }
    if a.len() > 0 && b.len() > 0 && a[0] == b[0] && a.drop_first() == b.drop_first() {
        assert(a =~= seq![a[0]] + a.drop_first());
        assert(b =~= seq![b[0]] + b.drop_first());
    }
    if a.len() == 0 && b.len() == 0 {
        assert(a =~= b);
    }
}

/// The order is transitive.
pub proof fn comes_before_is_transitive(a: Seq<char>, b: Seq<char>, c: Seq<char>)
    requires
        comes_before(a, b),
        comes_before(b, c),
    ensures
        comes_before(a, c),
    decreases a.len(),
{
    if a.len() > 0 && b.len() > 0 && c.len() > 0 {
        if a[0] == b[0] && b[0] == c[0] {
            comes_before_is_transitive(a.drop_first(), b.drop_first(), c.drop_first());
        }
    }
}

/// Whether `a` comes before `b`.
pub fn before(a: &str, b: &str) -> (r: bool)
    ensures
        r == comes_before(a@, b@),
{
    let x = chars_of(a);
    let y = chars_of(b);
    let mut i: usize = 0;
    assert(x@.skip(0) =~= x@);
    assert(y@.skip(0) =~= y@);
    while i < x.len() && i < y.len() && x[i] == y[i]
        invariant
            i <= x@.len(),
            i <= y@.len(),
            comes_before(x@, y@) == comes_before(x@.skip(i as int), y@.skip(i as int)),
        decreases x.len() - i,
    {
        assert(x@.skip(i as int).drop_first() =~= x@.skip(i + 1));
        assert(y@.skip(i as int).drop_first() =~= y@.skip(i + 1));
        i += 1;
    }
    if i >= y.len() {
        false
    } else if i >= x.len() {
        true
    } else {
        x[i] < y[i]
    }
}

/// Keys by which things are put in order. Keys of which neither is ahead count as equal.
pub trait Ranked: Sized {
    /// Whether `self` stands before `other`.
    spec fn ahead(self, other: Self) -> bool;

    /// Nothing is ahead of itself, and being ahead and being equal carry over.
    proof fn ahead_is_an_order(a: Self, b: Self, c: Self)
        ensures
            !a.ahead(a),
            a.ahead(b) && b.ahead(c) ==> a.ahead(c),
            !b.ahead(a) && !c.ahead(b) ==> !c.ahead(a),
    ;

    /// Whether `self` stands before `other`.
    fn is_ahead(&self, other: &Self) -> (r: bool)
        ensures
            r == self.ahead(*other),
    ;
}

/// Whether index `i` comes before index `j` when `keys` are sorted and equal keys stay in order.
pub open spec fn index_before<K: Ranked>(keys: Seq<K>, i: usize, j: usize) -> bool {
    keys[i as int].ahead(keys[j as int]) || (!keys[j as int].ahead(keys[i as int]) && i < j)
}

/// Whether `order` holds each index below `n` once.
pub open spec fn is_arrangement(order: Seq<usize>, n: nat) -> bool {
    &&& order.len() == n
    &&& order.no_duplicates()
    &&& forall|k: int| 0 <= k < order.len() ==> (#[trigger] order[k]) < n
    &&& forall|i: usize| i < n ==> #[trigger] order.contains(i)
}

/// Whether `order` is the order that stably sorts the keys.
pub open spec fn sorts<K: Ranked>(order: Seq<usize>, keys: Seq<K>) -> bool {
    &&& is_arrangement(order, keys.len())
    &&& forall|a: int, b: int|
        0 <= a < b < order.len() ==> #[trigger] index_before(keys, order[a], order[b])
}

/// Sorted indices of a stretch of keys.
spec fn sorted_stretch<K: Ranked>(order: Seq<usize>, keys: Seq<K>, from: int, to: int) -> bool {
    &&& order.len() == to - from
    &&& forall|k: int| 0 <= k < order.len() ==> from <= (#[trigger] order[k]) < to
    &&& forall|i: usize| from <= i < to ==> #[trigger] order.contains(i)
    &&& forall|a: int, b: int|
        0 <= a < b < order.len() ==> #[trigger] index_before(keys, order[a], order[b])
}

/// The order of indices is transitive.
proof fn index_before_is_transitive<K: Ranked>(keys: Seq<K>, i: usize, j: usize, k: usize)
    requires
        index_before(keys, i, j),
        index_before(keys, j, k),
    ensures
        index_before(keys, i, k),
{
    K::ahead_is_an_order(keys[i as int], keys[j as int], keys[k as int]);
    K::ahead_is_an_order(keys[j as int], keys[k as int], keys[i as int]);
    K::ahead_is_an_order(keys[k as int], keys[i as int], keys[j as int]);
    K::ahead_is_an_order(keys[i as int], keys[k as int], keys[j as int]);
    K::ahead_is_an_order(keys[j as int], keys[i as int], keys[k as int]);
    K::ahead_is_an_order(keys[k as int], keys[j as int], keys[i as int]);
}

/// Merges two sorted stretches of which the first lies before the second.
fn merge<K: Ranked>(keys: &Vec<K>, left: &Vec<usize>, right: &Vec<usize>, bounds: (
    usize,
    usize,
    usize,
)) -> (r: Vec<usize>)
    requires
        bounds.0 <= bounds.1 <= bounds.2 <= keys@.len(),
        sorted_stretch(left@, keys@, bounds.0 as int, bounds.1 as int),
        sorted_stretch(right@, keys@, bounds.1 as int, bounds.2 as int),
    ensures
        sorted_stretch(r@, keys@, bounds.0 as int, bounds.2 as int),
{
    let mut out: Vec<usize> = Vec::new();
    let mut i: usize = 0;
    let mut j: usize = 0;
    while i < left.len() || j < right.len()
        invariant
            bounds.0 <= bounds.1 <= bounds.2 <= keys@.len(),
            sorted_stretch(left@, keys@, bounds.0 as int, bounds.1 as int),
            sorted_stretch(right@, keys@, bounds.1 as int, bounds.2 as int),
            i <= left@.len(),
            j <= right@.len(),
            out@.len() == i + j,
            forall|k: int| 0 <= k < out@.len() ==> bounds.0 <= (#[trigger] out@[k]) < bounds.2,
            forall|a: int| 0 <= a < i ==> out@.contains(#[trigger] left@[a]),
            forall|b: int| 0 <= b < j ==> out@.contains(#[trigger] right@[b]),
            forall|a: int, b: int|
                0 <= a < b < out@.len() ==> #[trigger] index_before(keys@, out@[a], out@[b]),
            forall|k: int, a: int|
                0 <= k < out@.len() && i <= a < left@.len() ==> #[trigger] index_before(
                    keys@,
                    out@[k],
                    left@[a],
                ),
            forall|k: int, b: int|
                0 <= k < out@.len() && j <= b < right@.len() ==> #[trigger] index_before(
                    keys@,
                    out@[k],
                    right@[b],
                ),
        decreases left.len() - i + right.len() - j,
    {
        let take_left = if i >= left.len() {
            false
        } else if j >= right.len() {
            true
        } else {
            !keys[right[j]].is_ahead(&keys[left[i]])
        };
        let ghost before = out@;
        if take_left {
            let next: usize = left[i];
            assert(left@[i as int] == next);
            out.push(next);
            assert forall|b: int| j <= b < right@.len() implies #[trigger] index_before(
                keys@,
                next,
                right@[b],
            ) by {
                assert(index_before(keys@, next, right@[j as int]));
                if b > j {
                    assert(index_before(keys@, right@[j as int], right@[b]));
                    index_before_is_transitive(keys@, next, right@[j as int], right@[b]);
                }
            }
            i += 1;
        } else {
            let next: usize = right[j];
            assert(right@[j as int] == next);
            out.push(next);
            assert forall|a: int| i <= a < left@.len() implies #[trigger] index_before(
                keys@,
                next,
                left@[a],
            ) by {
                assert(keys@[next as int].ahead(keys@[left@[i as int] as int]));
                assert(index_before(keys@, next, left@[i as int]));
                if a > i {
                    assert(index_before(keys@, left@[i as int], left@[a]));
                    index_before_is_transitive(keys@, next, left@[i as int], left@[a]);
                }
            }
            j += 1;
        }
        assert forall|x: usize| before.contains(x) implies out@.contains(x) by {
            let k = choose|k: int| 0 <= k < before.len() && before[k] == x;
            assert(out@[k] == x);
        }
        assert(out@[out@.len() - 1] == out@.last());
        assert(out@.contains(out@.last()));
    }
    assert forall|x: usize| bounds.0 <= x < bounds.2 implies #[trigger] out@.contains(x) by {
        if x < bounds.1 {
            assert(left@.contains(x));
            let a = choose|a: int| 0 <= a < left@.len() && left@[a] == x;
            assert(out@.contains(left@[a]));
        } else {
            assert(right@.contains(x));
            let b = choose|b: int| 0 <= b < right@.len() && right@[b] == x;
            assert(out@.contains(right@[b]));
        }
    }
    out
}

/// Sorts the indices from `from` up to but not including `to`.
fn sort_stretch<K: Ranked>(keys: &Vec<K>, from: usize, to: usize) -> (r: Vec<usize>)
    requires
        from <= to <= keys@.len(),
    ensures
        sorted_stretch(r@, keys@, from as int, to as int),
    decreases to - from,
{
    if to - from == 0 {
        return Vec::new();
    }
    if to - from == 1 {
        let mut out: Vec<usize> = Vec::new();
        out.push(from);
        assert(out@[0] == from);
        assert(out@.contains(from));
        return out;
    }
    let middle: usize = from + (to - from) / 2;
    let left = sort_stretch(keys, from, middle);
    let right = sort_stretch(keys, middle, to);
    merge(keys, &left, &right, (from, middle, to))
}

/// The order that stably sorts the keys.
pub fn sorted_order<K: Ranked>(keys: &Vec<K>) -> (r: Vec<usize>)
    ensures
        sorts(r@, keys@),
{
    let out = sort_stretch(keys, 0, keys.len());
    assert forall|a: int, b: int| 0 <= a < b < out@.len() implies out@[a] != out@[b] by {
        assert(index_before(keys@, out@[a], out@[b]));
        K::ahead_is_an_order(keys@[out@[a] as int], keys@[out@[a] as int], keys@[out@[a] as int]);
    }
    out
}

/// The things that stand at the given indices.
pub open spec fn picked<T>(items: Seq<T>, order: Seq<usize>) -> Seq<T> {
    Seq::new(order.len(), |k: int| items[order[k] as int])
}

/// Puts things in the given order.
pub fn reorder<T>(items: Vec<T>, order: &Vec<usize>) -> (r: Vec<T>)
    requires
        order@.no_duplicates(),
        forall|k: int| 0 <= k < order@.len() ==> (#[trigger] order@[k]) < items@.len(),
    ensures
        r@ == picked(items@, order@),
{
    let ghost all = items@;
    let mut slots: Vec<Option<T>> = Vec::new();
    for item in it: items
        invariant
            it.seq() == all,
            slots@.len() == it.index(),
            forall|k: int| 0 <= k < slots@.len() ==> slots@[k] == Some(all[k]),
    {
        slots.push(Some(item));
    }
    let mut out: Vec<T> = Vec::new();
    let mut i: usize = 0;
    while i < order.len()
        invariant
            slots@.len() == all.len(),
            order@.no_duplicates(),
            forall|k: int| 0 <= k < order@.len() ==> (#[trigger] order@[k]) < all.len(),
            i <= order@.len(),
            out@.len() == i,
            forall|k: int| 0 <= k < i ==> out@[k] == all[order@[k] as int],
            forall|k: int| i <= k < order@.len() ==> #[trigger] slots@[order@[k] as int] == Some(
                all[order@[k] as int],
            ),
        decreases order.len() - i,
    {
        let at: usize = order[i];
        assert(slots@[order@[i as int] as int] == Some(all[at as int]));
        let taken = slots[at].take();
        match taken {
            Some(item) => {
                out.push(item);
            },
            None => {
                assert(false);
            },
        }
        i += 1;
    }
    assert(out@ =~= picked(all, order@));
    out
}

/// A text as a key.
#[derive(Debug)]
pub struct TextKey(pub String);

impl Ranked for TextKey {
    open spec fn ahead(self, other: TextKey) -> bool {
        comes_before(self.0@, other.0@)
    }

    proof fn ahead_is_an_order(a: TextKey, b: TextKey, c: TextKey) {
        comes_before_is_weak(a.0@, b.0@, c.0@);
    }

    fn is_ahead(&self, other: &TextKey) -> (r: bool) {
        before(self.0.as_str(), other.0.as_str())
    }
}

/// The order of texts carries over, and so does its reverse.
pub proof fn comes_before_is_weak(a: Seq<char>, b: Seq<char>, c: Seq<char>)
    ensures
        !comes_before(a, a),
        comes_before(a, b) && comes_before(b, c) ==> comes_before(a, c),
        !comes_before(b, a) && !comes_before(c, b) ==> !comes_before(c, a),
{
    comes_before_is_total(a, a);
    comes_before_is_total(a, b);
    comes_before_is_total(b, c);
    comes_before_is_total(a, c);
    if comes_before(a, b) && comes_before(b, c) {
        comes_before_is_transitive(a, b, c);
    }
    if !comes_before(b, a) && !comes_before(c, b) && comes_before(c, a) {
        if a != b && b != c {
            comes_before_is_transitive(a, b, c);
        }
    }
}

/// Of two texts the one comes first that has the smaller character where they first differ.
pub proof fn the_first_difference_decides(a: Seq<char>, b: Seq<char>, i: int)
    requires
        0 <= i < a.len(),
        i < b.len(),
        forall|j: int| 0 <= j < i ==> a[j] == b[j],
        a[i] < b[i],
    ensures
        comes_before(a, b),
        !comes_before(b, a),
    decreases i,
{
    if i > 0 {
        assert(a[0] == b[0]);
        assert forall|j: int| 0 <= j < i - 1 implies a.drop_first()[j] == b.drop_first()[j] by {
            assert(a[j + 1] == b[j + 1]);
        }
        the_first_difference_decides(a.drop_first(), b.drop_first(), i - 1);
    }
    comes_before_is_total(a, b);
}

/// A text comes before every longer one that begins with it.
pub proof fn a_beginning_comes_first(a: Seq<char>, rest: Seq<char>)
    requires
        rest.len() > 0,
    ensures
        comes_before(a, a + rest),
        !comes_before(a + rest, a),
    decreases a.len(),
{
    if a.len() > 0 {
        a_beginning_comes_first(a.drop_first(), rest);
        assert((a + rest).drop_first() =~= a.drop_first() + rest);
    }
    comes_before_is_total(a, a + rest);
}

/// Putting things in order neither loses nor doubles any: each stands at one place.
pub proof fn an_arrangement_keeps_everything<T>(items: Seq<T>, order: Seq<usize>, i: int)
    requires
        is_arrangement(order, items.len()),
        0 <= i < items.len(),
        items.len() <= usize::MAX,
    ensures
        picked(items, order).len() == items.len(),
        exists|k: int|
            0 <= k < items.len() && (#[trigger] order[k]) == i && picked(items, order)[k]
                == items[i] && forall|j: int|
                0 <= j < items.len() && j != k ==> (#[trigger] order[j]) != i,
{
    assert(order.contains(i as usize));
    let k = choose|k: int| 0 <= k < order.len() && order[k] == i as usize;
    assert(order[k] == i);
}

} // verus!
