//! Maps from text to values, in the order in which the keys came.

use vstd::prelude::*;
use vstd::string::*;

use crate::text::same;

verus! {

/// A map from text to values.
#[derive(Debug)]
pub struct TextMap<V> {
    pub entries: Vec<(String, V)>,
}

/// The index of the entry with that key, or the number of entries where there is none.
pub open spec fn key_index<V>(entries: Seq<(String, V)>, key: Seq<char>) -> int
    decreases entries.len(),
{
    if entries.len() == 0 || entries[0].0@ == key {
        0
    } else {
        1 + key_index(entries.drop_first(), key)
    }
}

/// `key_index` is the first index at which the key stands.
pub proof fn key_index_is_first<V>(entries: Seq<(String, V)>, key: Seq<char>)
    ensures
        0 <= key_index(entries, key) <= entries.len(),
        key_index(entries, key) < entries.len() ==> entries[key_index(entries, key)].0@ == key,
        forall|j: int| 0 <= j < key_index(entries, key) ==> (#[trigger] entries[j]).0@ != key,
    decreases entries.len(),
{
    if entries.len() > 0 && entries[0].0@ != key {
        key_index_is_first(entries.drop_first(), key);
        assert forall|j: int| 0 <= j < key_index(entries, key) implies (#[trigger] entries[j]).0@
            != key by {
            if j > 0 {
                assert(entries.drop_first()[j - 1] == entries[j]);
            }
        }
    }
}

/// Whether no key stands twice.
pub open spec fn keys_differ<V>(entries: Seq<(String, V)>) -> bool {
    forall|i: int, j: int|
        0 <= i < j < entries.len() ==> (#[trigger] entries[i]).0@ != (#[trigger] entries[j]).0@
}

/// The map that a list of entries stands for.
pub open spec fn map_of<V>(entries: Seq<(String, V)>) -> Map<Seq<char>, V> {
    Map::new(
        |k: Seq<char>| key_index(entries, k) < entries.len(),
        |k: Seq<char>| entries[key_index(entries, k)].1,
    )
}

impl<V> View for TextMap<V> {
    type V = Map<Seq<char>, V>;

    open spec fn view(&self) -> Map<Seq<char>, V> {
        map_of(self.entries@)
    }
}

impl<V> TextMap<V> {
    /// Whether no key stands twice.
    pub open spec fn wf(&self) -> bool {
        keys_differ(self.entries@)
    }

    /// The map without entries.
    pub fn new() -> (r: TextMap<V>)
        ensures
            r.wf(),
            r@ == Map::<Seq<char>, V>::empty(),
            r.entries@.len() == 0,
    {
        let r = TextMap { entries: Vec::new() };
        proof {
            assert forall|k: Seq<char>| !r@.dom().contains(k) by {
                key_index_is_first(r.entries@, k);
            }
            assert(r@ =~= Map::<Seq<char>, V>::empty());
        }
        r
    }

    /// The index of a key.
    pub fn locate(&self, key: &str) -> (r: usize)
        ensures
            r == key_index(self.entries@, key@),
            r <= self.entries@.len(),
            r < self.entries@.len() <==> self@.dom().contains(key@),
            r < self.entries@.len() ==> self.entries@[r as int].0@ == key@ && self@[key@]
                == self.entries@[r as int].1,
    {
        let mut i: usize = 0;
        assert(self.entries@.skip(0) =~= self.entries@);
        proof {
            key_index_is_first(self.entries@, key@);
        }
        while i < self.entries.len()
            invariant
                i <= self.entries@.len(),
                key_index(self.entries@, key@) == i + key_index(
                    self.entries@.skip(i as int),
                    key@,
                ),
            decreases self.entries.len() - i,
        {
            assert(self.entries@.skip(i as int).drop_first() =~= self.entries@.skip(i + 1));
            if same(self.entries[i].0.as_str(), key) {
                return i;
            }
            i += 1;
        }
        i
    }

    /// The value of a key.
    pub fn get(&self, key: &str) -> (r: Option<&V>)
        ensures
            match r {
                Some(v) => self@.dom().contains(key@) && *v == self@[key@],
                None => !self@.dom().contains(key@),
            },
    {
        let i: usize = self.locate(key);
        if i < self.entries.len() {
            Some(&self.entries[i].1)
        } else {
            None
        }
    }

    /// Sets the value of a key.
    pub fn insert(&mut self, key: String, value: V)
        requires
            old(self).wf(),
        ensures
            final(self).wf(),
            final(self)@ == old(self)@.insert(key@, value),
            old(self)@.dom().contains(key@) ==> final(self).entries@.len() == old(
                self,
            ).entries@.len(),
            !old(self)@.dom().contains(key@) ==> final(self).entries@ == old(self).entries@.push(
                (key, value),
            ),
    {
        let ghost before = self.entries@;
        let i: usize = self.locate(key.as_str());
        proof {
            key_index_is_first(before, key@);
        }
        if i < self.entries.len() {
            self.entries[i].1 = value;
            assert(self.entries@ =~= before.update(i as int, (before[i as int].0, value)));
        } else {
            self.entries.push((key, value));
        }
        proof {
            let after = self.entries@;
            assert forall|k: Seq<char>| k != key@ implies (key_index(after, k) < after.len())
                == (key_index(before, k) < before.len()) && (key_index(before, k) < before.len()
                ==> key_index(after, k) == key_index(before, k) && after[key_index(after, k)].1
                == before[key_index(before, k)].1) by {
                key_index_is_first(before, k);
                key_index_is_first(after, k);
                let b = key_index(before, k);
                let a = key_index(after, k);
                if b < before.len() {
                    assert(before[b].0@ == k);
                    assert(after[b].0@ == k && b != i);
                    if a < b {
                        assert(before[a].0@ == after[a].0@);
                    }
                } else if a < after.len() {
                    if a < before.len() {
                        assert(before[a].0@ == after[a].0@);
                    }
                }
            }
            key_index_is_first(after, key@);
            assert(after[i as int].0@ == key@);
            if key_index(after, key@) < i {
                assert(before[key_index(after, key@)].0@ == after[key_index(after, key@)].0@);
            }
            assert(key_index(after, key@) == i);
            assert(after[i as int].1 == value);
            assert forall|k: Seq<char>| self@.dom().contains(k) == map_of(before).insert(
                key@,
                value,
            ).dom().contains(k) by {
                if k != key@ {
                    assert((key_index(after, k) < after.len()) == (key_index(before, k)
                        < before.len()));
                }
            }
            assert forall|k: Seq<char>| self@.dom().contains(k) implies self@[k] == map_of(
                before,
            ).insert(key@, value)[k] by {
                if k != key@ {
                    assert(key_index(after, k) < after.len());
                }
            }
            assert(self@ =~= map_of(before).insert(key@, value));
        }
    }

    /// Sets the values of all keys of another map.
    pub fn extend(&mut self, other: TextMap<V>)
        requires
            old(self).wf(),
        ensures
            final(self).wf(),
            final(self)@ == old(self)@.union_prefer_right(other@),
    {
        let ghost before = self@;
        let ghost all = other.entries@;
        let ghost keys = other@;
        let mut rest = other.entries;
        assert(all.take(all.len() as int) =~= all);
        // From the last entry to the first, so that of a key that stands twice the first counts.
        while rest.len() > 0
            invariant
                self.wf(),
                rest@.len() <= all.len(),
                rest@ == all.take(rest@.len() as int),
                keys == map_of(all),
                forall|k: Seq<char>| #[trigger]
                    self@.dom().contains(k) <==> before.dom().contains(k) || exists|j: int|
                        rest@.len() <= j < all.len() && (#[trigger] all[j]).0@ == k,
                forall|k: Seq<char>, j: int|
                    rest@.len() <= j < all.len() && (#[trigger] all[j]).0@ == k && (forall|i: int|
                        rest@.len() <= i < j ==> (#[trigger] all[i]).0@ != k) ==> (
                    #[trigger] self@[k]) == all[j].1,
                forall|k: Seq<char>|
                    (forall|j: int| rest@.len() <= j < all.len() ==> (#[trigger] all[j]).0@ != k)
                        && before.dom().contains(k) ==> (#[trigger] self@[k]) == before[k],
            decreases rest.len(),
        {
            let ghost n = rest@.len() - 1;
            let ghost was = self@;
            match rest.pop() {
                Some((key, value)) => {
                    assert(all[n] == (key, value));
                    assert(rest@ =~= all.take(n));
                    self.insert(key, value);
                    assert(self@ == was.insert(all[n].0@, all[n].1));
                    assert forall|k: Seq<char>| #[trigger] self@.dom().contains(k) <==> before.dom().contains(
                    k) || exists|j: int| n <= j < all.len() && (#[trigger] all[j]).0@ == k by {
                        if k == all[n].0@ {
                        } else {
                            assert(self@.dom().contains(k) == was.dom().contains(k));
                        }
                    }
                    assert forall|k: Seq<char>, j: int|
                        n <= j < all.len() && (#[trigger] all[j]).0@ == k && (forall|i: int|
                            n <= i < j ==> (#[trigger] all[i]).0@ != k) implies (#[trigger] self@[k])
                        == all[j].1 by {
                        if j > n {
                            assert(all[n].0@ != k);
                            assert(was[k] == all[j].1);
                        }
                    }
                    assert forall|k: Seq<char>|
                        (forall|j: int| n <= j < all.len() ==> (#[trigger] all[j]).0@ != k)
                            && before.dom().contains(k) implies (#[trigger] self@[k])
                        == before[k] by {
                        assert(all[n].0@ != k);
                        assert(was[k] == before[k]);
                    }
                },
                None => {},
            }
        }
        proof {
            assert forall|k: Seq<char>| self@.dom().contains(k) == before.union_prefer_right(
                keys,
            ).dom().contains(k) by {
                key_index_is_first(all, k);
                if keys.dom().contains(k) {
                    assert(all[key_index(all, k)].0@ == k);
                }
            }
            assert forall|k: Seq<char>| self@.dom().contains(k) implies self@[k]
                == before.union_prefer_right(keys)[k] by {
                key_index_is_first(all, k);
                if keys.dom().contains(k) {
                    let j = key_index(all, k);
                    assert(all[j].0@ == k);
                    assert(self@[k] == all[j].1);
                }
            }
            assert(self@ =~= before.union_prefer_right(keys));
        }
    }
}

/// Each key leads to the value that stands beside it, and a key that stands nowhere leads to none.
pub proof fn a_key_leads_to_its_value<V>(entries: Seq<(String, V)>, i: int, key: Seq<char>)
    requires
        keys_differ(entries),
    ensures
        0 <= i < entries.len() ==> map_of(entries).dom().contains(entries[i].0@) && map_of(
            entries,
        )[entries[i].0@] == entries[i].1,
        (forall|j: int| 0 <= j < entries.len() ==> (#[trigger] entries[j]).0@ != key) ==> !map_of(
            entries,
        ).dom().contains(key),
{
    if 0 <= i < entries.len() {
        key_index_is_first(entries, entries[i].0@);
        let k = key_index(entries, entries[i].0@);
        if k < i {
            assert(entries[k].0@ != entries[i].0@);
        }
    }
    key_index_is_first(entries, key);
}

} // verus!
