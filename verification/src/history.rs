//! What was used, how often and when.

use vstd::prelude::*;
use vstd::string::*;

use crate::keyed::TextMap;
use crate::number::{wrapped, wrapping_sum};
use crate::types::Item;

verus! {

/// How often something was used, and when last, in seconds since the epoch.
#[derive(Debug, Clone, Copy, PartialEq, Eq, Structural)]
pub struct UsageEntry {
    pub count: u32,
    pub last_used_epoch: u64,
}

/// What was used.
#[derive(Debug)]
pub struct UsageHistory {
    pub entries: TextMap<UsageEntry>,
}

/// The key of an item of a provider.
pub open spec fn usage_key(provider: Seq<char>, identifier: Seq<char>) -> Seq<char> {
    provider + ":"@ + identifier
}

/// What having been used a while ago counts for.
pub open spec fn recency(age: int) -> int {
    if age <= 3600 {
        10_000
    } else if age <= 86_400 {
        5_000
    } else if age <= 604_800 {
        2_000
    } else if age <= 2_592_000 {
        750
    } else {
        100
    }
}

/// How long ago something was used; what lies ahead counts as now.
pub open spec fn age_of(last_used: u64, now: u64) -> int {
    if now >= last_used {
        now - last_used
    } else {
        0
    }
}

/// What the use of an item counts for in a query.
pub open spec fn usage_bonus(entry: UsageEntry, searching: bool, now: u64) -> int {
    (if entry.count < 50 {
        entry.count as int
    } else {
        50
    }) * 250 + recency(age_of(entry.last_used_epoch, now)) + (if searching {
        500int
    } else {
        0
    })
}

/// The entry after one more use.
pub open spec fn used_again(entries: Map<Seq<char>, UsageEntry>, key: Seq<char>, now: u64) -> UsageEntry {
    UsageEntry {
        count: if !entries.dom().contains(key) {
            1
        } else if entries[key].count == u32::MAX {
            u32::MAX
        } else {
            (entries[key].count + 1) as u32
        },
        last_used_epoch: now,
    }
}

/// The key of an item of a provider.
fn key(provider: &str, identifier: &str) -> (r: String)
    ensures
        r@ == usage_key(provider@, identifier@),
{
    let mut out = provider.to_owned();
    out.append(":");
    out.append(identifier);
    out
}

/// What having been used counts for. The more recent the use, the more it counts.
pub fn recency_bonus(last_used_epoch: u64, now: u64) -> (r: i32)
    ensures
        r == recency(age_of(last_used_epoch, now)),
{
    let age: u64 = if now >= last_used_epoch { now - last_used_epoch } else { 0 };
    if age <= 3600 {
        10_000
    } else if age <= 86_400 {
        5_000
    } else if age <= 604_800 {
        2_000
    } else if age <= 2_592_000 {
        750
    } else {
        100
    }
}

impl UsageHistory {
    /// A history without entries.
    pub fn new() -> (r: UsageHistory)
        ensures
            r.wf(),
            r.entries@ == Map::<Seq<char>, UsageEntry>::empty(),
    {
        UsageHistory { entries: TextMap::new() }
    }

    /// Whether no key stands twice.
    pub open spec fn wf(&self) -> bool {
        self.entries.wf()
    }

    /// Raises the score of an item that was used before, and marks it. Nothing else changes.
    pub fn apply(&self, item: &mut Item, query: &str, now: u64)
        ensures
            ({
                let key = usage_key(old(item).provider@, old(item).identifier@);
                if self.entries@.dom().contains(key) {
                    &&& final(item).score == wrapped(
                        old(item).score + usage_bonus(self.entries@[key], query@.len() > 0, now),
                    )
                    &&& final(item).state@.len() == old(item).state@.len() + 1
                    &&& final(item).state@.drop_last() == old(item).state@
                    &&& final(item).state@.last()@ == "history"@
                    &&& *final(item) == (Item {
                        score: final(item).score,
                        state: final(item).state,
                        ..*old(item)
                    })
                } else {
                    *final(item) == *old(item)
                }
            }),
    {
        let name = key(item.provider.as_str(), item.identifier.as_str());
        match self.entries.get(name.as_str()) {
            None => {},
            Some(entry) => {
                let count: i32 = if entry.count < 50 { entry.count as i32 } else { 50 };
                let searching: i32 = if query.is_empty() { 0 } else { 500 };
                let bonus: i32 = count * 250 + recency_bonus(entry.last_used_epoch, now) + searching;
                item.score = wrapping_sum(item.score, bonus);
                item.state.push("history".to_owned());
                assert(item.state@.drop_last() =~= old(item).state@);
            },
        }
    }

    /// Notes that an item was used.
    pub fn record(&mut self, provider: &str, identifier: &str, now: u64)
        requires
            old(self).wf(),
        ensures
            final(self).wf(),
            ({
                let key = usage_key(provider@, identifier@);
                final(self).entries@ == old(self).entries@.insert(
                    key,
                    used_again(old(self).entries@, key, now),
                )
            }),
    {
        let name = key(provider, identifier);
        let count: u32 = match self.entries.get(name.as_str()) {
            None => 1,
            Some(entry) => if entry.count == u32::MAX {
                u32::MAX
            } else {
                entry.count + 1
            },
        };
        self.entries.insert(name, UsageEntry { count, last_used_epoch: now });
    }
}

/// The more recent a use, the more it counts.
pub proof fn recency_prefers_recent_use(older: u64, newer: u64, now: u64)
    requires
        older <= newer,
    ensures
        recency(age_of(older, now)) <= recency(age_of(newer, now)),
{
}

/// Using an item raises what it counts for, and never lowers it.
pub proof fn use_raises_the_bonus(entry: UsageEntry, again: UsageEntry, searching: bool, now: u64)
    requires
        again.count >= entry.count,
        again.last_used_epoch == now,
    ensures
        usage_bonus(entry, searching, now) <= usage_bonus(again, searching, now),
{
}

/// What was used within the hour counts for more than what was not, and so it is with the day, the
/// week and the month.
pub proof fn a_use_within_reach_counts_for_more(recent: int, ago: int)
    ensures
        recent <= 3600 && 3600 < ago ==> recency(recent) > recency(ago),
        recent <= 86_400 && 86_400 < ago ==> recency(recent) > recency(ago),
        recent <= 604_800 && 604_800 < ago ==> recency(recent) > recency(ago),
        recent <= 2_592_000 && 2_592_000 < ago ==> recency(recent) > recency(ago),
        recency(ago) > 0,
{
}

/// Each use counts, up to fifty of them, and none after that; and use counts for more where something
/// is searched for.
pub proof fn each_use_counts_up_to_fifty(a: UsageEntry, b: UsageEntry, searching: bool, now: u64)
    requires
        a.last_used_epoch == b.last_used_epoch,
        a.count < b.count,
    ensures
        a.count < 50 ==> usage_bonus(a, searching, now) < usage_bonus(b, searching, now),
        a.count >= 50 ==> usage_bonus(a, searching, now) == usage_bonus(b, searching, now),
        usage_bonus(a, true, now) > usage_bonus(a, false, now),
        usage_bonus(a, searching, now) > 0,
{
}

/// The items of a provider are told apart in the history.
pub proof fn items_are_told_apart(provider: Seq<char>, a: Seq<char>, b: Seq<char>)
    requires
        a != b,
    ensures
        usage_key(provider, a) != usage_key(provider, b),
{
    let n = (provider + ":"@).len() as int;
    assert(usage_key(provider, a).skip(n) =~= a);
    assert(usage_key(provider, b).skip(n) =~= b);
}

/// A use is counted once, at the time when it was, and what else was used stays as it was.
pub proof fn a_use_is_counted_once(
    entries: Map<Seq<char>, UsageEntry>,
    provider: Seq<char>,
    identifier: Seq<char>,
    other: Seq<char>,
    now: u64,
    after: Map<Seq<char>, UsageEntry>,
)
    requires
        after == entries.insert(
            usage_key(provider, identifier),
            used_again(entries, usage_key(provider, identifier), now),
        ),
        other != identifier,
    ensures
        after.dom().contains(usage_key(provider, identifier)),
        after[usage_key(provider, identifier)].last_used_epoch == now,
        !entries.dom().contains(usage_key(provider, identifier)) ==> after[usage_key(
            provider,
            identifier,
        )].count == 1,
        entries.dom().contains(usage_key(provider, identifier)) && entries[usage_key(
            provider,
            identifier,
        )].count < u32::MAX ==> after[usage_key(provider, identifier)].count == entries[usage_key(
            provider,
            identifier,
        )].count + 1,
        after.dom().contains(usage_key(provider, other)) == entries.dom().contains(
            usage_key(provider, other),
        ),
        entries.dom().contains(usage_key(provider, other)) ==> after[usage_key(provider, other)]
            == entries[usage_key(provider, other)],
{
    items_are_told_apart(provider, identifier, other);
}

/// How recent a use is counts in steps: an hour, a day, a week and thirty days, each with its last
/// second.
pub proof fn recency_counts_in_steps(age: int)
    ensures
        age <= 60 * 60 ==> recency(age) == 10_000,
        60 * 60 < age <= 24 * 60 * 60 ==> recency(age) == 5_000,
        24 * 60 * 60 < age <= 7 * 24 * 60 * 60 ==> recency(age) == 2_000,
        7 * 24 * 60 * 60 < age <= 30 * 24 * 60 * 60 ==> recency(age) == 750,
        age > 30 * 24 * 60 * 60 ==> recency(age) == 100,
{
}

} // verus!
