//! The providers of results, and how their results are put together.

pub mod apps;
pub mod calc;
pub mod clipboard;
pub mod files;
pub mod menus;
pub mod runner;
pub mod windows;

use vstd::prelude::*;
use vstd::string::*;

use crate::config::Config;
use crate::fuzzy::match_of;
use crate::history::{usage_bonus, usage_key, UsageHistory};
use crate::icons::{icons_of, IconSettings};
use crate::keyed::TextMap;
use crate::number::{wrapped, wrapping_sum};
use crate::order::{
    comes_before, comes_before_is_weak, index_before, is_arrangement, picked, reorder, sorted_order,
    Ranked,
};
use crate::text::{
    after_prefix, begins_with, copy_texts, is_in, is_in_texts, list_has, same, texts, trim, trim_of,
    trim_start, trim_start_of,
};
use crate::types::{ActionCapability, Item, ProviderCapability};

verus! {

/// What the user is told of a command that failed: what it wrote, or else which it was.
pub fn failure_body(command: &str, stderr: &str) -> (r: String)
    ensures
        r@ == (if trim_of(stderr@).len() > 0 {
            trim_of(stderr@)
        } else {
            "Command failed: "@ + command@
        }),
{
    let said = trim(stderr);
    if said.as_str().is_empty() {
        let mut body = "Command failed: ".to_owned();
        body.append(command);
        body
    } else {
        said
    }
}

/// Whether a provider is switched on: unless the settings say that it is not.
pub open spec fn is_enabled(config: Config, provider: Seq<char>) -> bool {
    !config.provider_enabled@.dom().contains(provider) || config.provider_enabled@[provider]
}

/// Whether a provider is switched on.
pub fn enabled(config: &Config, provider: &str) -> (r: bool)
    ensures
        r == is_enabled(*config, provider@),
{
    match config.provider_enabled.get(provider) {
        Some(on) => *on,
        None => true,
    }
}

/// The names of the built-in providers, in order.
pub open spec fn built_in() -> Seq<Seq<char>> {
    seq!["apps"@, "files"@, "runner"@, "clipboard"@, "windows"@, "calc"@]
}

/// Those of the names that are switched on.
pub open spec fn switched_on(config: Config, names: Seq<Seq<char>>) -> Seq<Seq<char>> {
    names.filter(|n: Seq<char>| is_enabled(config, n))
}

/// The names so far with those of menus that are switched on and not taken yet.
pub open spec fn with_menus(config: Config, names: Seq<Seq<char>>, menus: Seq<Seq<char>>) -> Seq<
    Seq<char>,
>
    decreases menus.len(),
{
    if menus.len() == 0 {
        names
    } else {
        let before = with_menus(config, names, menus.drop_last());
        if is_enabled(config, menus.last()) && !before.contains(menus.last()) {
            before.push(menus.last())
        } else {
            before
        }
    }
}

/// The providers that are registered: the built-in ones that are switched on, and then the menus.
/// A menu with the name of a provider that is already registered is left out.
pub open spec fn registered(config: Config, menus: Seq<Seq<char>>) -> Seq<Seq<char>> {
    let names = switched_on(config, built_in());
    if is_enabled(config, "menus"@) {
        with_menus(config, names, menus)
    } else {
        names
    }
}

/// The names of the providers that are registered.
pub fn registered_names(config: &Config, menus: &Vec<String>) -> (r: Vec<String>)
    ensures
        texts(r@) == registered(*config, texts(menus@)),
{
    let all: Vec<&str> = vec!["apps", "files", "runner", "clipboard", "windows", "calc"];
    let ghost names = built_in();
    let ghost keep = |n: Seq<char>| is_enabled(*config, n);
    let mut out: Vec<String> = Vec::new();
    let mut i: usize = 0;
    reveal(Seq::filter);
    assert(names.take(0).filter(keep) =~= Seq::empty());
    assert(texts(out@) =~= Seq::empty());
    while i < all.len()
        invariant
            all@.len() == names.len(),
            forall|k: int| 0 <= k < names.len() ==> (#[trigger] all@[k])@ == names[k],
            keep == (|n: Seq<char>| is_enabled(*config, n)),
            i <= all@.len(),
            texts(out@) == names.take(i as int).filter(keep),
        decreases all.len() - i,
    {
        reveal(Seq::filter);
        assert(names.take(i + 1).drop_last() =~= names.take(i as int));
        assert(names.take(i + 1).last() == all@[i as int]@);
        if enabled(config, all[i]) {
            let ghost before = texts(out@);
            out.push(all[i].to_owned());
            assert(texts(out@) =~= before.push(all@[i as int]@));
        }
        i += 1;
    }
    assert(names.take(i as int) =~= names);
    if !enabled(config, "menus") {
        return out;
    }
    let ghost first = texts(out@);
    let ghost more = texts(menus@);
    let mut j: usize = 0;
    assert(more.take(0) =~= Seq::empty());
    while j < menus.len()
        invariant
            more == texts(menus@),
            j <= menus@.len(),
            texts(out@) == with_menus(*config, first, more.take(j as int)),
        decreases menus.len() - j,
    {
        assert(more.take(j + 1).drop_last() =~= more.take(j as int));
        assert(more.take(j + 1).last() == menus@[j as int]@);
        let name = menus[j].as_str();
        proof {
            is_in_texts(out@, name@);
        }
        if enabled(config, name) && !list_has(&out, name) {
            let ghost before = texts(out@);
            out.push(name.to_owned());
            assert(texts(out@) =~= before.push(name@));
        }
        j += 1;
    }
    assert(more.take(j as int) =~= more);
    out
}

/// How a provider describes itself where it says nothing else.
pub fn default_capability(name: &str, pretty: &str) -> (r: ProviderCapability)
    ensures
        r.name@ == name@,
        r.name_pretty@ == pretty@,
        r.description@ == pretty@,
        r.icon@.len() == 0,
        r.prefixes@.len() == 0,
        r.actions.wf(),
        r.actions@.dom() == set!["open"@],
        r.actions@["open"@].is_plain("Open"@),
        r.supports_query && r.supports_activate && r.supports_streaming,
        !r.supports_subscriptions && !r.emits_events,
{
    let mut actions: TextMap<ActionCapability> = TextMap::new();
    actions.insert("open".to_owned(), ActionCapability::new("Open"));
    assert(actions@.dom() =~= set!["open"@]);
    ProviderCapability {
        name: name.to_owned(),
        name_pretty: pretty.to_owned(),
        description: pretty.to_owned(),
        icon: String::new(),
        prefixes: Vec::new(),
        actions,
        supports_query: true,
        supports_activate: true,
        supports_streaming: true,
        supports_subscriptions: false,
        emits_events: false,
    }
}

/// What an item is ordered by: the higher score first, and then the text.
#[derive(Debug)]
pub struct ItemKey {
    pub score: i32,
    pub text: String,
}

impl Ranked for ItemKey {
    open spec fn ahead(self, other: ItemKey) -> bool {
        self.score > other.score || (self.score == other.score && comes_before(
            self.text@,
            other.text@,
        ))
    }

    proof fn ahead_is_an_order(a: ItemKey, b: ItemKey, c: ItemKey) {
        comes_before_is_weak(a.text@, b.text@, c.text@);
    }

    fn is_ahead(&self, other: &ItemKey) -> (r: bool) {
        self.score > other.score || (self.score == other.score && crate::order::before(
            self.text.as_str(),
            other.text.as_str(),
        ))
    }
}

/// Whether one item comes before another: by the higher score, and then by the text.
pub open spec fn item_ahead(a: Item, b: Item) -> bool {
    a.score > b.score || (a.score == b.score && comes_before(a.text@, b.text@))
}

/// Whether the item at `i` comes before that at `j`, items that are equal staying in order.
pub open spec fn item_before(items: Seq<Item>, i: usize, j: usize) -> bool {
    item_ahead(items[i as int], items[j as int]) || (!item_ahead(items[j as int], items[i as int])
        && i < j)
}

/// Whether `after` is `before` in order, and not more of it than the limit.
pub open spec fn is_best(before: Seq<Item>, after: Seq<Item>, limit: nat) -> bool {
    &&& after.len() == if before.len() <= limit {
        before.len()
    } else {
        limit
    }
    &&& exists|order: Seq<usize>| #[trigger]
        is_arrangement(order, before.len()) && item_order(before, order) && after == picked(
            before,
            order,
        ).take(after.len() as int)
}

/// Whether the order puts each item before those that come after it.
pub open spec fn item_order(items: Seq<Item>, order: Seq<usize>) -> bool {
    forall|a: int, b: int|
        0 <= a < b < order.len() ==> #[trigger] item_before(items, order[a], order[b])
}

/// The best of some items: the highest scores first, then by text, and not more than the limit.
pub fn best_items(items: Vec<Item>, limit: usize) -> (r: Vec<Item>)
    ensures
        is_best(items@, r@, limit as nat),
{
    let ghost all = items@;
    let mut keys: Vec<ItemKey> = Vec::new();
    let mut i: usize = 0;
    while i < items.len()
        invariant
            i <= items@.len(),
            keys@.len() == i,
            forall|k: int|
                0 <= k < i ==> (#[trigger] keys@[k]).score == items@[k].score && keys@[k].text@
                    == items@[k].text@,
        decreases items.len() - i,
    {
        keys.push(ItemKey { score: items[i].score, text: items[i].text.clone() });
        i += 1;
    }
    let order = sorted_order(&keys);
    let mut sorted = reorder(items, &order);
    proof {
        assert forall|a: int, b: int| 0 <= a < b < order@.len() implies #[trigger] item_before(
            all,
            order@[a],
            order@[b],
        ) by {
            assert(index_before(keys@, order@[a], order@[b]));
        }
        assert(is_arrangement(order@, all.len()));
    }
    if sorted.len() > limit {
        sorted.truncate(limit);
    }
    assert(sorted@ =~= picked(all, order@).take(sorted@.len() as int));
    sorted
}

/// A score as a key by which the highest comes first.
#[derive(Debug)]
pub struct ScoreKey(pub i32);

impl Ranked for ScoreKey {
    open spec fn ahead(self, other: ScoreKey) -> bool {
        self.0 > other.0
    }

    proof fn ahead_is_an_order(a: ScoreKey, b: ScoreKey, c: ScoreKey) {
    }

    fn is_ahead(&self, other: &ScoreKey) -> (r: bool) {
        self.0 > other.0
    }
}

/// Whether the item at `i` has a higher score than that at `j`, or the same and comes first.
pub open spec fn score_before(items: Seq<Item>, i: usize, j: usize) -> bool {
    items[i as int].score > items[j as int].score || (items[i as int].score == items[j as int].score
        && i < j)
}

/// Whether the order puts higher scores first and leaves equal ones as they are.
pub open spec fn score_order(items: Seq<Item>, order: Seq<usize>) -> bool {
    forall|a: int, b: int|
        0 <= a < b < order.len() ==> #[trigger] score_before(items, order[a], order[b])
}

/// Whether `after` is `before` by score, and not more of it than the limit.
pub open spec fn is_top(before: Seq<Item>, after: Seq<Item>, limit: nat) -> bool {
    &&& after.len() == if before.len() <= limit {
        before.len()
    } else {
        limit
    }
    &&& exists|order: Seq<usize>| #[trigger]
        is_arrangement(order, before.len()) && score_order(before, order) && after == picked(
            before,
            order,
        ).take(after.len() as int)
}

/// The items with the highest scores, and not more than the limit.
pub fn top_items(items: Vec<Item>, limit: usize) -> (r: Vec<Item>)
    ensures
        is_top(items@, r@, limit as nat),
{
    let ghost all = items@;
    let mut keys: Vec<ScoreKey> = Vec::new();
    let mut i: usize = 0;
    while i < items.len()
        invariant
            i <= items@.len(),
            keys@.len() == i,
            forall|k: int| 0 <= k < i ==> (#[trigger] keys@[k]).0 == items@[k].score,
        decreases items.len() - i,
    {
        keys.push(ScoreKey(items[i].score));
        i += 1;
    }
    let order = sorted_order(&keys);
    let mut sorted = reorder(items, &order);
    proof {
        assert forall|a: int, b: int| 0 <= a < b < order@.len() implies #[trigger] score_before(
            all,
            order@[a],
            order@[b],
        ) by {
            assert(index_before(keys@, order@[a], order@[b]));
        }
        assert(is_arrangement(order@, all.len()));
    }
    if sorted.len() > limit {
        sorted.truncate(limit);
    }
    assert(sorted@ =~= picked(all, order@).take(sorted@.len() as int));
    sorted
}

/// The indices of the texts that a query matches.
pub open spec fn matching_texts(searches: Seq<Seq<char>>, query: Seq<char>, exact: bool) -> Seq<int>
    decreases searches.len(),
{
    if searches.len() == 0 {
        Seq::empty()
    } else {
        let before = matching_texts(searches.drop_last(), query, exact);
        if match_of(query, searches.last(), exact) is Some {
            before.push(searches.len() - 1)
        } else {
            before
        }
    }
}

/// Indices of texts that match lie among the texts.
pub proof fn matching_texts_bounds(searches: Seq<Seq<char>>, query: Seq<char>, exact: bool)
    ensures
        forall|k: int|
            0 <= k < matching_texts(searches, query, exact).len() ==> 0 <= (
            #[trigger] matching_texts(searches, query, exact)[k]) < searches.len(),
        forall|k: int|
            0 <= k < matching_texts(searches, query, exact).len() ==> match_of(
                query,
                searches[#[trigger] matching_texts(searches, query, exact)[k]],
                exact,
            ) is Some,
    decreases searches.len(),
{
    if searches.len() > 0 {
        let front = searches.drop_last();
        matching_texts_bounds(front, query, exact);
        let before = matching_texts(front, query, exact);
        let all = matching_texts(searches, query, exact);
        assert forall|k: int| 0 <= k < all.len() implies match_of(
            query,
            searches[#[trigger] all[k]],
            exact,
        ) is Some by {
            if k < before.len() {
                assert(all[k] == before[k]);
                assert(front[before[k]] == searches[before[k]]);
            }
        }
        assert forall|k: int| 0 <= k < all.len() implies 0 <= (#[trigger] all[k])
            < searches.len() by {
            if k < before.len() {
                assert(all[k] == before[k]);
            }
        }
    }
}

/// The items of all batches, one batch after the other.
pub open spec fn all_items(batches: Seq<Vec<Item>>) -> Seq<Item>
    decreases batches.len(),
{
    if batches.len() == 0 {
        Seq::empty()
    } else {
        all_items(batches.drop_last()) + batches.last()@
    }
}

/// The best items of all batches.
pub fn merge_batches(batches: Vec<Vec<Item>>, limit: usize) -> (r: Vec<Item>)
    ensures
        is_best(all_items(batches@), r@, limit as nat),
{
    let ghost all = batches@;
    let mut out: Vec<Item> = Vec::new();
    assert(all.take(0) =~= Seq::empty());
    for batch in it: batches
        invariant
            it.seq() == all,
            out@ == all_items(all.take(it.index() as int)),
    {
        assert(all.take(it.index() + 1).drop_last() =~= all.take(it.index() as int));
        let mut batch = batch;
        let ghost before = out@;
        let ghost more = batch@;
        out.append(&mut batch);
        assert(out@ =~= before + more);
    }
    assert(all.take(all.len() as int) =~= all);
    best_items(out, limit)
}

/// The score of an item after the weight of its provider and its use were counted.
pub open spec fn adjusted_score(
    item: Item,
    weight: int,
    history: UsageHistory,
    searching: bool,
    now: u64,
) -> int {
    let key = usage_key(item.provider@, item.identifier@);
    if history.entries@.dom().contains(key) {
        wrapped(wrapped(item.score + weight) + usage_bonus(history.entries@[key], searching, now))
    } else {
        wrapped(item.score + weight)
    }
}

/// Whether `after` is `before` with its score adjusted.
pub open spec fn is_adjusted(
    before: Item,
    after: Item,
    weight: int,
    history: UsageHistory,
    searching: bool,
    now: u64,
) -> bool {
    let key = usage_key(before.provider@, before.identifier@);
    &&& after.score == adjusted_score(before, weight, history, searching, now)
    &&& after == (Item { score: after.score, state: after.state, ..before })
    &&& if history.entries@.dom().contains(key) {
        &&& after.state@.len() == before.state@.len() + 1
        &&& after.state@.drop_last() == before.state@
        &&& after.state@.last()@ == "history"@
    } else {
        after.state == before.state
    }
}

/// Counts the weight of a provider and the use of its items.
pub fn adjust_items(
    items: Vec<Item>,
    weight: i32,
    history: &UsageHistory,
    query: &str,
    now: u64,
) -> (r: Vec<Item>)
    ensures
        r@.len() == items@.len(),
        forall|i: int|
            0 <= i < r@.len() ==> is_adjusted(
                items@[i],
                #[trigger] r@[i],
                weight as int,
                *history,
                query@.len() > 0,
                now,
            ),
{
    let ghost all = items@;
    let mut out: Vec<Item> = Vec::new();
    for item in it: items
        invariant
            it.seq() == all,
            out@.len() == it.index(),
            forall|i: int|
                0 <= i < out@.len() ==> is_adjusted(
                    all[i],
                    #[trigger] out@[i],
                    weight as int,
                    *history,
                    query@.len() > 0,
                    now,
                ),
    {
        let mut item = item;
        item.score = wrapping_sum(item.score, weight);
        history.apply(&mut item, query, now);
        out.push(item);
    }
    out
}

/// What is registered, and what is known of use.
#[derive(Debug)]
pub struct Registry {
    pub capabilities: Vec<ProviderCapability>,
    pub history: UsageHistory,
    pub config: Config,
}

/// The index of the provider of that name, or the number of providers where there is none.
pub open spec fn provider_index(capabilities: Seq<ProviderCapability>, name: Seq<char>) -> int
    decreases capabilities.len(),
{
    if capabilities.len() == 0 || capabilities[0].name@ == name {
        0
    } else {
        1 + provider_index(capabilities.drop_first(), name)
    }
}

/// The indices, below `n`, of the providers that are asked: all where none is named.
pub open spec fn targeted(capabilities: Seq<ProviderCapability>, names: Seq<String>, n: nat) -> Seq<
    usize,
>
    decreases n,
{
    if n == 0 {
        Seq::empty()
    } else {
        let before = targeted(capabilities, names, (n - 1) as nat);
        if names.len() == 0 || is_in(names, capabilities[n - 1].name@) {
            before.push((n - 1) as usize)
        } else {
            before
        }
    }
}

/// Whether the prefix at `i` stands at the start of the query.
pub open spec fn prefix_fits(entries: Seq<(String, String)>, i: int, query: Seq<char>) -> bool {
    begins_with(query, entries[i].0@)
}

/// Whether the prefix at `i` is the longest that stands at the start of the query.
pub open spec fn is_longest_prefix(entries: Seq<(String, String)>, i: int, query: Seq<char>) -> bool {
    &&& 0 <= i < entries.len()
    &&& prefix_fits(entries, i, query)
    &&& forall|j: int|
        0 <= j < entries.len() && #[trigger] prefix_fits(entries, j, query) ==> entries[j].0@.len()
            <= entries[i].0@.len()
}

/// Which providers a query goes to, and what is left of it.
pub open spec fn is_routed(
    r: (Vec<String>, String),
    entries: Seq<(String, String)>,
    providers: Seq<String>,
    query: Seq<char>,
) -> bool {
    if providers.len() > 0 {
        r.0@ == providers && r.1@ == query
    } else if exists|i: int| 0 <= i < entries.len() && #[trigger] prefix_fits(entries, i, query) {
        exists|i: int| #[trigger]
            is_longest_prefix(entries, i, query) && texts(r.0@) == seq![entries[i].1@] && r.1@
                == trim_start_of(query.skip(entries[i].0@.len() as int))
    } else {
        r.0@.len() == 0 && r.1@ == query
    }
}

/// Whether the prefixes among the settings that lead to a provider are those listed.
pub open spec fn prefixes_to(entries: Seq<(String, String)>, provider: Seq<char>) -> Seq<Seq<char>>
    decreases entries.len(),
{
    if entries.len() == 0 {
        Seq::empty()
    } else if entries.last().1@ == provider {
        prefixes_to(entries.drop_last(), provider).push(entries.last().0@)
    } else {
        prefixes_to(entries.drop_last(), provider)
    }
}

/// The names of the providers.
pub open spec fn names_of(capabilities: Seq<ProviderCapability>) -> Seq<Seq<char>> {
    capabilities.map_values(|c: ProviderCapability| c.name@)
}

/// The providers so far with those menus that are switched on and whose name is not taken yet.
pub open spec fn and_menus(
    config: Config,
    built: Seq<ProviderCapability>,
    menus: Seq<ProviderCapability>,
) -> Seq<ProviderCapability>
    decreases menus.len(),
{
    if menus.len() == 0 {
        built
    } else {
        let before = and_menus(config, built, menus.drop_last());
        if is_enabled(config, menus.last().name@) && !names_of(before).contains(
            menus.last().name@,
        ) {
            before.push(menus.last())
        } else {
            before
        }
    }
}

/// The providers that a registry holds: the built-in ones, and then the menus where there are to be
/// any. There is no provider for menus as such.
pub open spec fn all_providers(
    config: Config,
    built: Seq<ProviderCapability>,
    menus: Seq<ProviderCapability>,
) -> Seq<ProviderCapability> {
    if is_enabled(config, "menus"@) {
        and_menus(config, built, menus)
    } else {
        built
    }
}

/// The names of the providers so far with those menus are the names so far with those of the menus.
proof fn and_menus_by_name(
    config: Config,
    built: Seq<ProviderCapability>,
    menus: Seq<ProviderCapability>,
)
    ensures
        names_of(and_menus(config, built, menus)) == with_menus(
            config,
            names_of(built),
            names_of(menus),
        ),
    decreases menus.len(),
{
    if menus.len() > 0 {
        and_menus_by_name(config, built, menus.drop_last());
        assert(names_of(menus).drop_last() =~= names_of(menus.drop_last()));
        assert(names_of(menus).last() == menus.last().name@);
        let before = and_menus(config, built, menus.drop_last());
        assert(names_of(before.push(menus.last())) =~= names_of(before).push(menus.last().name@));
    }
}

/// A registry of the built-in providers that are switched on and of the menus that are found holds
/// those providers that are registered, in their order, and none of them twice.
pub proof fn the_registered_providers_are_held(
    config: Config,
    built: Seq<ProviderCapability>,
    menus: Seq<ProviderCapability>,
)
    requires
        names_of(built) == switched_on(config, built_in()),
    ensures
        names_of(all_providers(config, built, menus)) == registered(config, names_of(menus)),
        names_of(all_providers(config, built, menus)).no_duplicates(),
{
    and_menus_by_name(config, built, menus);
    registered_names_differ(config, names_of(menus));
}

/// Whether a provider of that name is among those listed.
fn has_provider(capabilities: &Vec<ProviderCapability>, name: &str) -> (r: bool)
    ensures
        r == names_of(capabilities@).contains(name@),
{
    let ghost names = names_of(capabilities@);
    let mut i: usize = 0;
    while i < capabilities.len()
        invariant
            names == names_of(capabilities@),
            i <= capabilities@.len(),
            forall|k: int| 0 <= k < i ==> (#[trigger] names[k]) != name@,
        decreases capabilities.len() - i,
    {
        assert(names[i as int] == capabilities@[i as int].name@);
        if same(capabilities[i].name.as_str(), name) {
            return true;
        }
        i += 1;
    }
    false
}

impl Registry {
    /// Whether the parts are well formed and no two providers have the same name.
    pub open spec fn wf(&self) -> bool {
        &&& self.history.wf()
        &&& self.config.wf()
        &&& names_of(self.capabilities@).no_duplicates()
    }

    /// Whether the list is that of the providers, each with the prefixes that lead to it.
    pub open spec fn lists(self, shown: Seq<ProviderCapability>) -> bool {
        &&& shown.len() == self.capabilities@.len()
        &&& forall|i: int|
            0 <= i < shown.len() ==> (#[trigger] shown[i]).is_reached_by(
                self.capabilities@[i],
                prefixes_to(self.config.query_prefixes.entries@, self.capabilities@[i].name@),
            )
    }

    /// Whether other settings were swapped in.
    pub open spec fn reloaded(self, config: Config, after: Registry) -> bool {
        after == (Registry { config, ..self })
    }

    /// A registry of the built-in providers that are switched on, in their order, and of the menus
    /// that are found. A menu that is switched off, or has the name of a provider that is there
    /// already, is left out.
    pub fn new(
        config: Config,
        built: Vec<ProviderCapability>,
        menus: Vec<ProviderCapability>,
        history: UsageHistory,
    ) -> (r: Registry)
        requires
            config.wf(),
            history.wf(),
            names_of(built@) == switched_on(config, built_in()),
        ensures
            r.wf(),
            r.config == config,
            r.history == history,
            r.capabilities@ == all_providers(config, built@, menus@),
            names_of(r.capabilities@) == registered(config, names_of(menus@)),
    {
        let ghost first = built@;
        let ghost all = menus@;
        proof {
            the_registered_providers_are_held(config, first, all);
        }
        let mut capabilities = built;
        if enabled(&config, "menus") {
            assert(all.take(0) =~= Seq::empty());
            let number: usize = menus.len();
            let mut i: usize = 0;
            for menu in it: menus
                invariant
                    it.seq() == all,
                    i == it.index(),
                    i <= all.len() == number,
                    capabilities@ == and_menus(config, first, all.take(i as int)),
            {
                assert(all.take(i + 1).drop_last() =~= all.take(i as int));
                assert(all.take(i + 1).last() == menu);
                if enabled(&config, menu.name.as_str()) && !has_provider(
                    &capabilities,
                    menu.name.as_str(),
                ) {
                    capabilities.push(menu);
                }
                i += 1;
            }
            assert(all.take(i as int) =~= all);
        }
        Registry { capabilities, history, config }
    }

    /// Swaps in other settings. The providers that are registered stay.
    pub fn reload_config(&mut self, config: Config)
        requires
            old(self).wf(),
            config.wf(),
        ensures
            final(self).wf(),
            old(self).reloaded(config, *final(self)),
    {
        self.config = config;
    }

    /// How icons are found and shown, by the settings in force.
    pub fn icons(&self) -> (r: IconSettings)
        ensures
            r@ == icons_of(self.config),
    {
        IconSettings::of(&self.config)
    }

    /// What the providers can do, each with the prefixes that lead to it. None is listed twice.
    pub fn providers(&self) -> (r: Vec<ProviderCapability>)
        requires
            self.wf(),
        ensures
            self.lists(r@),
            names_of(r@) == names_of(self.capabilities@),
            names_of(r@).no_duplicates(),
    {
        let mut out: Vec<ProviderCapability> = Vec::new();
        let mut i: usize = 0;
        while i < self.capabilities.len()
            invariant
                i <= self.capabilities@.len(),
                out@.len() == i,
                forall|k: int|
                    0 <= k < i ==> (#[trigger] out@[k]).is_reached_by(
                        self.capabilities@[k],
                        prefixes_to(
                            self.config.query_prefixes.entries@,
                            self.capabilities@[k].name@,
                        ),
                    ),
            decreases self.capabilities.len() - i,
        {
            let prefixes = self.prefixes_of(self.capabilities[i].name.as_str());
            out.push(self.capabilities[i].with_prefixes(prefixes));
            i += 1;
        }
        proof {
            a_listing_names_the_providers(*self, out@);
        }
        out
    }

    /// The prefixes that lead to a provider.
    pub fn prefixes_of(&self, provider: &str) -> (r: Vec<String>)
        ensures
            texts(r@) == prefixes_to(self.config.query_prefixes.entries@, provider@),
    {
        let entries = &self.config.query_prefixes.entries;
        let mut out: Vec<String> = Vec::new();
        let mut i: usize = 0;
        assert(entries@.take(0) =~= Seq::empty());
        assert(texts(out@) =~= Seq::empty());
        while i < entries.len()
            invariant
                i <= entries@.len(),
                texts(out@) == prefixes_to(entries@.take(i as int), provider@),
            decreases entries.len() - i,
        {
            assert(entries@.take(i + 1).drop_last() =~= entries@.take(i as int));
            if same(entries[i].1.as_str(), provider) {
                let ghost before = texts(out@);
                out.push(entries[i].0.clone());
                assert(texts(out@) =~= before.push(entries@[i as int].0@));
            }
            i += 1;
        }
        assert(entries@.take(i as int) =~= entries@);
        out
    }

    /// The indices of the providers that are asked: all where none is named.
    pub fn targets(&self, providers: &Vec<String>) -> (r: Vec<usize>)
        ensures
            r@ == targeted(self.capabilities@, providers@, self.capabilities@.len()),
    {
        let mut out: Vec<usize> = Vec::new();
        let mut i: usize = 0;
        while i < self.capabilities.len()
            invariant
                i <= self.capabilities@.len(),
                out@ == targeted(self.capabilities@, providers@, i as nat),
            decreases self.capabilities.len() - i,
        {
            if providers.len() == 0 || list_has(providers, self.capabilities[i].name.as_str()) {
                out.push(i);
            }
            i += 1;
        }
        out
    }

    /// Which providers a query goes to, and what is left of it. Where providers are named, it goes
    /// to them as it is. Otherwise the longest prefix that it begins with leads to one provider,
    /// and what follows the prefix is the query.
    pub fn route_query(&self, providers: &Vec<String>, query: &str) -> (r: (Vec<String>, String))
        ensures
            is_routed(r, self.config.query_prefixes.entries@, providers@, query@),
    {
        if providers.len() > 0 {
            return (copy_texts(providers), query.to_owned());
        }
        let entries = &self.config.query_prefixes.entries;
        let mut best: Option<usize> = None;
        let mut best_len: usize = 0;
        let mut i: usize = 0;
        while i < entries.len()
            invariant
                i <= entries@.len(),
                match best {
                    Some(b) => b < i && best_len == entries@[b as int].0@.len() && prefix_fits(
                        entries@,
                        b as int,
                        query@,
                    ) && forall|j: int|
                        0 <= j < i && #[trigger] prefix_fits(entries@, j, query@)
                            ==> entries@[j].0@.len() <= best_len,
                    None => forall|j: int|
                        0 <= j < i ==> !#[trigger] prefix_fits(entries@, j, query@),
                },
            decreases entries.len() - i,
        {
            let prefix = entries[i].0.as_str();
            if crate::text::starts(query, prefix) {
                assert(prefix_fits(entries@, i as int, query@));
                let n: usize = prefix.unicode_len();
                let better = match best {
                    Some(_) => n > best_len,
                    None => true,
                };
                if better {
                    best = Some(i);
                    best_len = n;
                }
            }
            i += 1;
        }
        match best {
            Some(b) => {
                assert(is_longest_prefix(entries@, b as int, query@));
                let rest = match after_prefix(query, entries[b].0.as_str()) {
                    Some(rest) => rest,
                    None => String::new(),
                };
                let chosen = vec![entries[b].1.clone()];
                assert(texts(chosen@) =~= seq![entries@[b as int].1@]);
                (chosen, trim_start(rest.as_str()))
            },
            None => (Vec::new(), query.to_owned()),
        }
    }

    /// What the results of a provider are raised by.
    pub fn weight(&self, provider: &str) -> (r: i32)
        ensures
            r == weight_in(self.config, provider@),
    {
        match self.config.provider_weights.get(provider) {
            Some(weight) => *weight,
            None => 0,
        }
    }

    /// The index of a provider.
    pub fn position(&self, provider: &str) -> (r: Option<usize>)
        ensures
            match r {
                Some(i) => i == provider_index(self.capabilities@, provider@) && i
                    < self.capabilities@.len(),
                None => provider_index(self.capabilities@, provider@) >= self.capabilities@.len(),
            },
    {
        let mut i: usize = 0;
        assert(self.capabilities@.skip(0) =~= self.capabilities@);
        while i < self.capabilities.len()
            invariant
                i <= self.capabilities@.len(),
                provider_index(self.capabilities@, provider@) == i + provider_index(
                    self.capabilities@.skip(i as int),
                    provider@,
                ),
            decreases self.capabilities.len() - i,
        {
            assert(self.capabilities@.skip(i as int).drop_first() =~= self.capabilities@.skip(
                i + 1,
            ));
            if same(self.capabilities[i].name.as_str(), provider) {
                return Some(i);
            }
            i += 1;
        }
        None
    }

    /// The provider that is to be activated, or what is said where there is none of that name.
    pub fn activate(&self, provider: &str) -> (r: Result<usize, String>)
        ensures
            match r {
                Ok(i) => i == provider_index(self.capabilities@, provider@) && i
                    < self.capabilities@.len(),
                Err(message) => provider_index(self.capabilities@, provider@)
                    >= self.capabilities@.len() && message@ == "unknown provider: "@ + provider@,
            },
    {
        match self.position(provider) {
            Some(i) => Ok(i),
            None => {
                let mut message = "unknown provider: ".to_owned();
                message.append(provider);
                Err(message)
            },
        }
    }

    /// Notes that an item was activated.
    pub fn record(&mut self, provider: &str, identifier: &str, now: u64)
        requires
            old(self).wf(),
        ensures
            final(self).wf(),
            ({
                let key = usage_key(provider@, identifier@);
                final(self).history.entries@ == old(self).history.entries@.insert(
                    key,
                    crate::history::used_again(old(self).history.entries@, key, now),
                )
            }),
            *final(self) == (Registry { history: final(self).history, ..*old(self) }),
    {
        self.history.record(provider, identifier, now);
    }

    /// The results of the providers that were asked, put together: each raised by the weight of
    /// its provider and its use, the best first and not more than the limit.
    pub fn query(&self, targets: &Vec<usize>, batches: Vec<Vec<Item>>, query: &str, limit: usize, now: u64) -> (r:
        Vec<Item>)
        requires
            targets@.len() == batches@.len(),
            forall|i: int|
                0 <= i < targets@.len() ==> (#[trigger] targets@[i]) < self.capabilities@.len(),
        ensures
            are_answers(r@, *self, targets@, batches@, query@, limit as nat, now),
    {
        let ghost all = batches@;
        let mut adjusted: Vec<Vec<Item>> = Vec::new();
        for batch in it: batches
            invariant
                it.seq() == all,
                targets@.len() == all.len(),
                adjusted@.len() == it.index(),
                forall|i: int|
                    0 <= i < targets@.len() ==> (#[trigger] targets@[i]) < self.capabilities@.len(),
                forall|i: int|
                    0 <= i < adjusted@.len() ==> batch_adjusted(
                        *self,
                        targets@[i],
                        all[i]@,
                        (#[trigger] adjusted@[i])@,
                        query@,
                        now,
                    ),
        {
            let k: usize = targets[adjusted.len()];
            let weight: i32 = self.weight(self.capabilities[k].name.as_str());
            adjusted.push(adjust_items(batch, weight, &self.history, query, now));
        }
        let ghost a = adjusted@;
        assert(are_adjusted(*self, targets@, all, a, query@, now));
        merge_batches(adjusted, limit)
    }

    /// The results of one provider that was asked by itself: each raised by the weight of the
    /// provider and its use, the best first and not more than the limit.
    pub fn query_batches(&self, target: usize, found: Vec<Item>, query: &str, limit: usize, now: u64) -> (r:
        Vec<Item>)
        requires
            target < self.capabilities@.len(),
        ensures
            exists|adjusted: Seq<Item>| #[trigger]
                batch_adjusted(*self, target, found@, adjusted, query@, now) && is_best(
                    adjusted,
                    r@,
                    limit as nat,
                ),
    {
        let weight: i32 = self.weight(self.capabilities[target].name.as_str());
        let adjusted = adjust_items(found, weight, &self.history, query, now);
        assert(batch_adjusted(*self, target, found@, adjusted@, query@, now));
        best_items(adjusted, limit)
    }
}

/// What the results of a provider are raised by.
pub open spec fn weight_of(registry: Registry, target: usize) -> int {
    weight_in(registry.config, registry.capabilities@[target as int].name@)
}

/// What the results of a provider are raised by, by those settings.
pub open spec fn weight_in(config: Config, provider: Seq<char>) -> int {
    if config.provider_weights@.dom().contains(provider) {
        config.provider_weights@[provider] as int
    } else {
        0
    }
}

/// Whether the items of one provider were adjusted.
pub open spec fn batch_adjusted(
    registry: Registry,
    target: usize,
    before: Seq<Item>,
    after: Seq<Item>,
    query: Seq<char>,
    now: u64,
) -> bool {
    after.len() == before.len() && forall|i: int|
        0 <= i < after.len() ==> is_adjusted(
            before[i],
            #[trigger] after[i],
            weight_of(registry, target),
            registry.history,
            query.len() > 0,
            now,
        )
}

/// Whether these are the results of the providers that were asked, each raised by the weight of its
/// provider and its use, the best first and not more than the limit.
pub open spec fn are_answers(
    r: Seq<Item>,
    registry: Registry,
    targets: Seq<usize>,
    batches: Seq<Vec<Item>>,
    query: Seq<char>,
    limit: nat,
    now: u64,
) -> bool {
    exists|adjusted: Seq<Vec<Item>>| #[trigger]
        are_adjusted(registry, targets, batches, adjusted, query, now) && is_best(
            all_items(adjusted),
            r,
            limit,
        )
}

/// Whether the items of all providers that were asked were adjusted.
pub open spec fn are_adjusted(
    registry: Registry,
    targets: Seq<usize>,
    before: Seq<Vec<Item>>,
    after: Seq<Vec<Item>>,
    query: Seq<char>,
    now: u64,
) -> bool {
    after.len() == before.len() && forall|i: int|
        0 <= i < after.len() ==> batch_adjusted(
            registry,
            targets[i],
            before[i]@,
            (#[trigger] after[i])@,
            query,
            now,
        )
}

/// A query is never given to a shorter prefix while a longer one fits, and two prefixes of the
/// same length that fit are the same.
pub proof fn the_longest_prefix_is_one(
    entries: Seq<(String, String)>,
    i: int,
    j: int,
    query: Seq<char>,
)
    requires
        is_longest_prefix(entries, i, query),
        is_longest_prefix(entries, j, query),
    ensures
        entries[i].0@ == entries[j].0@,
{
    assert(prefix_fits(entries, i, query) && prefix_fits(entries, j, query));
    let n = entries[i].0@.len() as int;
    assert(query.subrange(0, n) == entries[i].0@);
    assert(query.subrange(0, n) == entries[j].0@);
}

/// Of two results the one with the higher score comes first.
pub proof fn better_results_come_first(before: Seq<Item>, after: Seq<Item>, limit: nat, a: int, b: int)
    requires
        is_best(before, after, limit),
        0 <= a < b < after.len(),
    ensures
        after[a].score >= after[b].score,
        after[a].score == after[b].score ==> !comes_before(after[b].text@, after[a].text@),
{
    let order = choose|order: Seq<usize>| #[trigger]
        is_arrangement(order, before.len()) && item_order(before, order) && after == picked(
            before,
            order,
        ).take(after.len() as int);
    assert(item_before(before, order[a], order[b]));
    assert(after[a] == picked(before, order)[a] && after[b] == picked(before, order)[b]);
    crate::order::comes_before_is_total(after[a].text@, after[b].text@);
}

/// A listing has the providers in their order, each under its name.
pub proof fn a_listing_names_the_providers(registry: Registry, shown: Seq<ProviderCapability>)
    requires
        registry.lists(shown),
    ensures
        names_of(shown) == names_of(registry.capabilities@),
{
    assert forall|i: int| 0 <= i < shown.len() implies #[trigger] names_of(shown)[i] == names_of(
        registry.capabilities@,
    )[i] by {
        assert(shown[i].name == registry.capabilities@[i].name);
    }
    assert(names_of(shown) =~= names_of(registry.capabilities@));
}

/// A registry whose providers are those that are registered is well formed, and it lists exactly
/// these: the built-in ones that are switched on and then the menus, in order and none of them
/// twice.
pub proof fn a_registry_lists_what_is_registered(
    registry: Registry,
    menus: Seq<Seq<char>>,
    shown: Seq<ProviderCapability>,
)
    requires
        registry.history.wf(),
        registry.config.wf(),
        names_of(registry.capabilities@) == registered(registry.config, menus),
        registry.lists(shown),
    ensures
        registry.wf(),
        names_of(shown) == registered(registry.config, menus),
        names_of(shown).no_duplicates(),
{
    registered_names_differ(registry.config, menus);
    a_listing_names_the_providers(registry, shown);
}

/// After other settings were swapped in the same providers are listed in the same order, whatever
/// the settings switch on or off, and each is as it was but for its prefixes. The prefixes, the
/// weights, and how icons are found and shown are those of the new settings.
pub proof fn a_reload_takes_up_the_settings(
    before: Registry,
    config: Config,
    after: Registry,
    shown: Seq<ProviderCapability>,
    shown_after: Seq<ProviderCapability>,
)
    requires
        before.reloaded(config, after),
        before.lists(shown),
        after.lists(shown_after),
    ensures
        names_of(shown_after) == names_of(shown),
        forall|i: int|
            0 <= i < shown_after.len() ==> (#[trigger] shown_after[i]).is_reached_by(
                shown[i],
                prefixes_to(config.query_prefixes.entries@, shown[i].name@),
            ),
        forall|target: usize|
            target < after.capabilities@.len() ==> #[trigger] weight_of(after, target) == weight_in(
                config,
                names_of(shown)[target as int],
            ),
        icons_of(after.config) == icons_of(config),
        after.history == before.history,
{
    a_listing_names_the_providers(before, shown);
    a_listing_names_the_providers(after, shown_after);
    assert forall|i: int| 0 <= i < shown_after.len() implies (
    #[trigger] shown_after[i]).is_reached_by(
        shown[i],
        prefixes_to(config.query_prefixes.entries@, shown[i].name@),
    ) by {
        assert(shown[i].is_reached_by(
            before.capabilities@[i],
            prefixes_to(before.config.query_prefixes.entries@, before.capabilities@[i].name@),
        ));
    }
    assert forall|target: usize| target < after.capabilities@.len() implies #[trigger] weight_of(
        after,
        target,
    ) == weight_in(config, names_of(shown)[target as int]) by {
        assert(names_of(shown)[target as int] == names_of(before.capabilities@)[target as int]);
    }
}

/// No name is registered twice, so that a name leads to one provider.
pub proof fn registered_names_differ(config: Config, menus: Seq<Seq<char>>)
    ensures
        registered(config, menus).no_duplicates(),
{
    let names = switched_on(config, built_in());
    reveal_strlit("apps");
    reveal_strlit("files");
    reveal_strlit("runner");
    reveal_strlit("clipboard");
    reveal_strlit("windows");
    reveal_strlit("calc");
    assert("apps"@.len() == 4 && "files"@.len() == 5 && "runner"@.len() == 6 && "clipboard"@.len()
        == 9 && "windows"@.len() == 7 && "calc"@.len() == 4);
    assert("apps"@[0] == 'a' && "calc"@[0] == 'c');
    assert(built_in().no_duplicates());
    filter_keeps_distinct(built_in(), |n: Seq<char>| is_enabled(config, n));
    with_menus_keeps_distinct(config, names, menus);
}

proof fn filter_keeps_distinct(s: Seq<Seq<char>>, keep: spec_fn(Seq<char>) -> bool)
    requires
        s.no_duplicates(),
    ensures
        s.filter(keep).no_duplicates(),
        forall|x: Seq<char>| #[trigger] s.filter(keep).contains(x) ==> s.contains(x),
    decreases s.len(),
{
    reveal(Seq::filter);
    if s.len() > 0 {
        let front = s.drop_last();
        filter_keeps_distinct(front, keep);
        assert forall|x: Seq<char>| #[trigger] s.filter(keep).contains(x) implies s.contains(x) by {
            let f = s.filter(keep);
            let k = choose|k: int| 0 <= k < f.len() && f[k] == x;
            if k < front.filter(keep).len() {
                assert(front.filter(keep)[k] == x);
                assert(front.filter(keep).contains(x));
                let j = choose|j: int| 0 <= j < front.len() && front[j] == x;
                assert(s[j] == x);
            } else {
                assert(s[s.len() - 1] == x);
            }
        }
        if keep(s.last()) {
            let g = front.filter(keep);
            assert(!g.contains(s.last())) by {
                if g.contains(s.last()) {
                    assert(front.contains(s.last()));
                    let j = choose|j: int| 0 <= j < front.len() && front[j] == s.last();
                    assert(s[j] == s[s.len() - 1]);
                }
            }
            assert(s.filter(keep) == g.push(s.last()));
            assert forall|a: int, b: int|
                0 <= a < g.push(s.last()).len() && 0 <= b < g.push(s.last()).len() && a != b implies
                g.push(s.last())[a] != g.push(s.last())[b] by {
                if a == g.len() {
                    assert(g[b] != s.last());
                } else if b == g.len() {
                    assert(g[a] != s.last());
                }
            }
        }
    }
}

proof fn with_menus_keeps_distinct(config: Config, names: Seq<Seq<char>>, menus: Seq<Seq<char>>)
    requires
        names.no_duplicates(),
    ensures
        with_menus(config, names, menus).no_duplicates(),
    decreases menus.len(),
{
    if menus.len() > 0 {
        with_menus_keeps_distinct(config, names, menus.drop_last());
        let before = with_menus(config, names, menus.drop_last());
        if !before.contains(menus.last()) {
            let after = before.push(menus.last());
            assert forall|a: int, b: int|
                0 <= a < after.len() && 0 <= b < after.len() && a != b implies after[a] != after[b] by {
                if a == before.len() {
                    assert(before[b] != menus.last());
                } else if b == before.len() {
                    assert(before[a] != menus.last());
                }
            }
        }
    }
}

/// Nothing better is left out: what is not among the results is no better than any of them, and there
/// are as many results as there may be.
pub proof fn nothing_better_is_left_out(before: Seq<Item>, after: Seq<Item>, limit: nat, i: int)
    requires
        is_best(before, after, limit) || is_top(before, after, limit),
        0 <= i < before.len() <= usize::MAX,
    ensures
        after.len() <= limit,
        before.len() <= limit ==> after.len() == before.len(),
        before.len() > limit ==> after.len() == limit,
        after.contains(before[i]) || forall|a: int|
            0 <= a < after.len() ==> (#[trigger] after[a]).score >= before[i].score,
        forall|a: int| 0 <= a < after.len() ==> before.contains(#[trigger] after[a]),
{
    let n = after.len() as int;
    let order = if is_best(before, after, limit) {
        choose|order: Seq<usize>| #[trigger]
            is_arrangement(order, before.len()) && item_order(before, order) && after == picked(
                before,
                order,
            ).take(n)
    } else {
        choose|order: Seq<usize>| #[trigger]
            is_arrangement(order, before.len()) && score_order(before, order) && after == picked(
                before,
                order,
            ).take(n)
    };
    crate::order::an_arrangement_keeps_everything(before, order, i);
    let k = choose|k: int|
        0 <= k < before.len() && (#[trigger] order[k]) == i && picked(before, order)[k]
            == before[i];
    if k < n {
        assert(after[k] == before[i]);
    } else {
        assert forall|a: int| 0 <= a < after.len() implies (#[trigger] after[a]).score
            >= before[i].score by {
            assert(after[a] == before[order[a] as int]);
            if is_best(before, after, limit) {
                assert(item_before(before, order[a], order[k]));
            } else {
                assert(score_before(before, order[a], order[k]));
            }
        }
    }
    assert forall|a: int| 0 <= a < after.len() implies before.contains(#[trigger] after[a]) by {
        assert(after[a] == before[order[a] as int]);
    }
}

/// Of two results of one provider the one with the higher score comes first.
pub proof fn higher_scores_come_first(
    before: Seq<Item>,
    after: Seq<Item>,
    limit: nat,
    a: int,
    b: int,
)
    requires
        is_top(before, after, limit),
        0 <= a < b < after.len(),
    ensures
        after[a].score >= after[b].score,
{
    let order = choose|order: Seq<usize>| #[trigger]
        is_arrangement(order, before.len()) && score_order(before, order) && after == picked(
            before,
            order,
        ).take(after.len() as int);
    assert(score_before(before, order[a], order[b]));
    assert(after[a] == picked(before, order)[a] && after[b] == picked(before, order)[b]);
}

/// The weight of a provider raises its results by as much, what was used is raised above that, and
/// nothing else changes of a result. It is so unless a score grows beyond what a score can be.
pub proof fn weight_and_use_raise_a_result(
    before: Item,
    after: Item,
    weight: i32,
    history: UsageHistory,
    searching: bool,
    now: u64,
)
    requires
        is_adjusted(before, after, weight as int, history, searching, now),
        i32::MIN <= before.score + weight <= i32::MAX - 23_000,
    ensures
        !history.entries@.dom().contains(before.provider@ + ":"@ + before.identifier@)
            ==> after.score == before.score + weight && after.state == before.state,
        history.entries@.dom().contains(before.provider@ + ":"@ + before.identifier@) ==> after.score
            > before.score + weight && after.state@.len() == before.state@.len() + 1
            && after.state@.last()@ == "history"@,
        after.identifier == before.identifier,
        after.text == before.text,
        after.provider == before.provider,
        after.actions == before.actions,
{
}

/// A query that names providers goes to them as it is. One that begins with a prefix goes to the
/// provider of the prefix, without it, unless a longer one fits; and one that begins with none goes
/// to all as it is.
pub proof fn a_prefix_leads_to_its_provider(
    r: (Vec<String>, String),
    entries: Seq<(String, String)>,
    providers: Seq<String>,
    i: int,
    rest: Seq<char>,
    query: Seq<char>,
)
    requires
        is_routed(r, entries, providers, query),
    ensures
        providers.len() > 0 ==> r.0@ == providers && r.1@ == query,
        providers.len() == 0 && 0 <= i < entries.len() && query == entries[i].0@ + rest && (forall|
            j: int,
        |
            0 <= j < entries.len() && j != i && begins_with(query, (#[trigger] entries[j]).0@)
                ==> entries[j].0@.len() < entries[i].0@.len()) ==> texts(r.0@) == seq![
            entries[i].1@,
        ] && r.1@ == trim_start_of(rest),
        providers.len() == 0 && (forall|j: int|
            0 <= j < entries.len() ==> !begins_with(query, (#[trigger] entries[j]).0@))
            ==> r.0@.len() == 0 && r.1@ == query,
{
    if providers.len() == 0 && 0 <= i < entries.len() && query == entries[i].0@ + rest && (forall|
        j: int,
    |
        0 <= j < entries.len() && j != i && begins_with(query, (#[trigger] entries[j]).0@)
            ==> entries[j].0@.len() < entries[i].0@.len()) {
        let p = entries[i].0@;
        assert(query.subrange(0, p.len() as int) =~= p);
        assert(prefix_fits(entries, i, query));
        let k = choose|k: int| #[trigger]
            is_longest_prefix(entries, k, query) && texts(r.0@) == seq![entries[k].1@] && r.1@
                == trim_start_of(query.skip(entries[k].0@.len() as int));
        assert(prefix_fits(entries, k, query));
        assert(k == i);
        assert(query.skip(p.len() as int) =~= rest);
    }
    if providers.len() == 0 && (forall|j: int|
        0 <= j < entries.len() ==> !begins_with(query, (#[trigger] entries[j]).0@)) {
        assert forall|j: int| 0 <= j < entries.len() implies !#[trigger] prefix_fits(
            entries,
            j,
            query,
        ) by {
            assert(!begins_with(query, entries[j].0@));
        }
    }
}

/// The providers that are asked are those that are named, or all where none is, each once and in
/// their order.
pub proof fn the_providers_that_are_named_are_asked(
    capabilities: Seq<ProviderCapability>,
    names: Seq<String>,
    n: nat,
)
    requires
        n <= capabilities.len() <= usize::MAX,
    ensures
        forall|a: int, b: int|
            0 <= a < b < targeted(capabilities, names, n).len() ==> (#[trigger] targeted(
                capabilities,
                names,
                n,
            )[a]) < (#[trigger] targeted(capabilities, names, n)[b]),
        forall|a: int|
            0 <= a < targeted(capabilities, names, n).len() ==> (#[trigger] targeted(
                capabilities,
                names,
                n,
            )[a]) < n && (names.len() == 0 || is_in(
                names,
                capabilities[targeted(capabilities, names, n)[a] as int].name@,
            )),
        forall|i: usize|
            i < n && (names.len() == 0 || is_in(names, capabilities[i as int].name@))
                ==> #[trigger] targeted(capabilities, names, n).contains(i),
    decreases n,
{
    if n > 0 {
        let m = (n - 1) as nat;
        the_providers_that_are_named_are_asked(capabilities, names, m);
        let before = targeted(capabilities, names, m);
        let all = targeted(capabilities, names, n);
        assert forall|i: usize|
            i < n && (names.len() == 0 || is_in(names, capabilities[i as int].name@)) implies
            #[trigger] all.contains(i) by {
            if i < m {
                assert(before.contains(i));
                let x = choose|x: int| 0 <= x < before.len() && before[x] == i;
                assert(all[x] == i);
            } else {
                assert(all[before.len() as int] == i);
            }
        }
        assert forall|a: int, b: int| 0 <= a < b < all.len() implies (#[trigger] all[a]) < (
        #[trigger] all[b]) by {
            assert(all[a] == before[a]);
            if b < before.len() {
                assert(all[b] == before[b]);
            }
        }
        assert forall|a: int| 0 <= a < all.len() implies (#[trigger] all[a]) < n && (names.len() == 0
            || is_in(names, capabilities[all[a] as int].name@)) by {
            if a < before.len() {
                assert(all[a] == before[a]);
            }
        }
    }
}

/// A name leads to the first provider that has it, and to none only where none has it.
pub proof fn a_name_leads_to_its_provider(capabilities: Seq<ProviderCapability>, name: Seq<char>)
    ensures
        0 <= provider_index(capabilities, name) <= capabilities.len(),
        provider_index(capabilities, name) < capabilities.len()
            ==> capabilities[provider_index(capabilities, name)].name@ == name,
        forall|j: int|
            0 <= j < provider_index(capabilities, name) ==> (#[trigger] capabilities[j]).name@
                != name,
    decreases capabilities.len(),
{
    if capabilities.len() > 0 && capabilities[0].name@ != name {
        let rest = capabilities.drop_first();
        a_name_leads_to_its_provider(rest, name);
        assert forall|j: int| 0 <= j < provider_index(capabilities, name) implies (
        #[trigger] capabilities[j]).name@ != name by {
            if j > 0 {
                assert(rest[j - 1] == capabilities[j]);
            }
        }
    }
}

/// A provider that the settings switch off is not registered; a built-in one that they do not switch
/// off is. A menu is registered unless it, or menus as such, are switched off.
pub proof fn what_is_switched_off_is_not_registered(
    config: Config,
    menus: Seq<Seq<char>>,
    name: Seq<char>,
)
    ensures
        config.provider_enabled@.dom().contains(name) && !config.provider_enabled@[name]
            ==> !registered(config, menus).contains(name),
        !(config.provider_enabled@.dom().contains(name) && !config.provider_enabled@[name]) && seq![
            "apps"@,
            "files"@,
            "runner"@,
            "clipboard"@,
            "windows"@,
            "calc"@,
        ].contains(name) ==> registered(config, menus).contains(name),
        !(config.provider_enabled@.dom().contains(name) && !config.provider_enabled@[name]) && !(
        config.provider_enabled@.dom().contains("menus"@) && !config.provider_enabled@["menus"@])
            && menus.contains(name) ==> registered(config, menus).contains(name),
        registered(config, menus).contains(name) ==> menus.contains(name) || seq![
            "apps"@,
            "files"@,
            "runner"@,
            "clipboard"@,
            "windows"@,
            "calc"@,
        ].contains(name),
{
    let keep = |n: Seq<char>| is_enabled(config, n);
    let all = seq!["apps"@, "files"@, "runner"@, "clipboard"@, "windows"@, "calc"@];
    assert(all =~= built_in());
    let names = switched_on(config, built_in());
    assert(names == all.filter(keep));
    filtered_names(all, keep);
    menus_are_added(config, names, menus, name);
    if all.contains(name) && is_enabled(config, name) {
        assert(keep(name));
        assert(names.contains(name));
    }
    if names.contains(name) {
        assert(keep(name));
    }
}

/// What is left of names is what passes the test.
proof fn filtered_names(s: Seq<Seq<char>>, keep: spec_fn(Seq<char>) -> bool)
    ensures
        forall|x: Seq<char>| #[trigger]
            s.filter(keep).contains(x) <==> s.contains(x) && keep(x),
    decreases s.len(),
{
    reveal(Seq::filter);
    if s.len() > 0 {
        let front = s.drop_last();
        filtered_names(front, keep);
        let g = front.filter(keep);
        let f = s.filter(keep);
        assert forall|x: Seq<char>| #[trigger] f.contains(x) <==> s.contains(x) && keep(x) by {
            if f.contains(x) {
                let k = choose|k: int| 0 <= k < f.len() && f[k] == x;
                if k < g.len() {
                    assert(g[k] == x);
                    assert(g.contains(x));
                    let j = choose|j: int| 0 <= j < front.len() && front[j] == x;
                    assert(s[j] == x);
                } else {
                    assert(s[s.len() - 1] == x);
                }
            }
            if s.contains(x) && keep(x) {
                let j = choose|j: int| 0 <= j < s.len() && s[j] == x;
                if j < front.len() {
                    assert(front[j] == x);
                    assert(g.contains(x));
                    let k = choose|k: int| 0 <= k < g.len() && g[k] == x;
                    assert(f[k] == x);
                } else {
                    assert(f[g.len() as int] == x);
                }
            }
        }
    }
}

/// Menus are added where they are switched on.
proof fn menus_are_added(
    config: Config,
    names: Seq<Seq<char>>,
    menus: Seq<Seq<char>>,
    name: Seq<char>,
)
    ensures
        with_menus(config, names, menus).contains(name) <==> names.contains(name) || (menus.contains(
            name,
        ) && is_enabled(config, name)),
    decreases menus.len(),
{
    if menus.len() > 0 {
        let front = menus.drop_last();
        menus_are_added(config, names, front, name);
        let before = with_menus(config, names, front);
        let after = with_menus(config, names, menus);
        if before.contains(name) {
            let x = choose|x: int| 0 <= x < before.len() && before[x] == name;
            assert(after[x] == name);
        }
        if front.contains(name) {
            let x = choose|x: int| 0 <= x < front.len() && front[x] == name;
            assert(menus[x] == name);
        }
        if menus.contains(name) && !front.contains(name) {
            let x = choose|x: int| 0 <= x < menus.len() && menus[x] == name;
            assert(x == front.len() || front[x] == name);
            if is_enabled(config, name) && !before.contains(name) {
                assert(after[before.len() as int] == name);
            }
        }
        if after.contains(name) && !before.contains(name) {
            let x = choose|x: int| 0 <= x < after.len() && after[x] == name;
            assert(x == before.len() || before[x] == name);
            assert(menus[menus.len() - 1] == name);
        }
    }
}

/// A text is among the hits of a query where the query matches it, and only there.
pub proof fn what_matches_is_a_hit(searches: Seq<Seq<char>>, query: Seq<char>, exact: bool, k: int)
    requires
        0 <= k < searches.len(),
    ensures
        matching_texts(searches, query, exact).contains(k) <==> match_of(
            query,
            searches[k],
            exact,
        ) is Some,
    decreases searches.len(),
{
    let front = searches.drop_last();
    let before = matching_texts(front, query, exact);
    let all = matching_texts(searches, query, exact);
    matching_texts_bounds(front, query, exact);
    if k < front.len() {
        what_matches_is_a_hit(front, query, exact, k);
        assert(front[k] == searches[k]);
        if before.contains(k) {
            let x = choose|x: int| 0 <= x < before.len() && before[x] == k;
            assert(all[x] == k);
        }
        if all.contains(k) {
            let x = choose|x: int| 0 <= x < all.len() && all[x] == k;
            assert(before[x] == k);
        }
    } else {
        if match_of(query, searches[k], exact) is Some {
            assert(all[before.len() as int] == k);
        }
        if all.contains(k) && match_of(query, searches[k], exact) is None {
            let x = choose|x: int| 0 <= x < all.len() && all[x] == k;
            assert(before[x] < front.len());
        }
    }
}

/// The hits of a query stand in the order of the texts, and there are no more of them than texts.
pub proof fn hits_stand_in_order(
    searches: Seq<Seq<char>>,
    query: Seq<char>,
    exact: bool,
    a: int,
    b: int,
)
    ensures
        matching_texts(searches, query, exact).len() <= searches.len(),
        0 <= a < b < matching_texts(searches, query, exact).len() ==> matching_texts(
            searches,
            query,
            exact,
        )[a] < matching_texts(searches, query, exact)[b],
    decreases searches.len(),
{
    if searches.len() > 0 {
        let front = searches.drop_last();
        hits_stand_in_order(front, query, exact, a, b);
        matching_texts_bounds(front, query, exact);
    }
}

/// Nothing is left out where there are no more results than there may be.
pub proof fn nothing_is_left_out_below_the_limit(
    before: Seq<Item>,
    after: Seq<Item>,
    limit: nat,
    i: int,
)
    requires
        is_best(before, after, limit) || is_top(before, after, limit),
        0 <= i < before.len() <= limit,
        before.len() <= usize::MAX,
    ensures
        after.len() == before.len(),
        after.contains(before[i]),
{
    let n = after.len() as int;
    let order = if is_best(before, after, limit) {
        choose|order: Seq<usize>| #[trigger]
            is_arrangement(order, before.len()) && item_order(before, order) && after == picked(
                before,
                order,
            ).take(n)
    } else {
        choose|order: Seq<usize>| #[trigger]
            is_arrangement(order, before.len()) && score_order(before, order) && after == picked(
                before,
                order,
            ).take(n)
    };
    crate::order::an_arrangement_keeps_everything(before, order, i);
    let k = choose|k: int|
        0 <= k < before.len() && (#[trigger] order[k]) == i && picked(before, order)[k]
            == before[i];
    assert(after[k] == before[i]);
}

/// The items of every batch are among those of all of them, and no others.
pub proof fn every_batch_counts(batches: Seq<Vec<Item>>, item: Item)
    ensures
        all_items(batches).contains(item) <==> exists|b: int|
            0 <= b < batches.len() && (#[trigger] batches[b])@.contains(item),
    decreases batches.len(),
{
    if batches.len() > 0 {
        let front = batches.drop_last();
        let before = all_items(front);
        let last = batches.last()@;
        let all = all_items(batches);
        every_batch_counts(front, item);
        if all.contains(item) {
            let x = choose|x: int| 0 <= x < all.len() && all[x] == item;
            if x < before.len() {
                assert(before[x] == item);
                let b = choose|b: int| 0 <= b < front.len() && (#[trigger] front[b])@.contains(item);
                assert(batches[b] == front[b]);
            } else {
                assert(last[x - before.len()] == item);
                assert(batches[batches.len() - 1]@.contains(item));
            }
        }
        if exists|b: int| 0 <= b < batches.len() && (#[trigger] batches[b])@.contains(item) {
            let b = choose|b: int| 0 <= b < batches.len() && (#[trigger] batches[b])@.contains(item);
            if b < front.len() {
                assert(front[b] == batches[b]);
                let x = choose|x: int| 0 <= x < before.len() && before[x] == item;
                assert(all[x] == item);
            } else {
                let x = choose|x: int| 0 <= x < last.len() && last[x] == item;
                assert(all[before.len() + x] == item);
            }
        }
    }
}

/// What a provider that was asked found is answered with, where there are no more results than there may
/// be: under its own name and identifier, raised by the weight of that provider.
pub proof fn what_was_found_is_answered_with(
    r: Seq<Item>,
    registry: Registry,
    targets: Seq<usize>,
    batches: Seq<Vec<Item>>,
    query: Seq<char>,
    limit: nat,
    now: u64,
    b: int,
    i: int,
)
    requires
        are_answers(r, registry, targets, batches, query, limit, now),
        0 <= b < batches.len(),
        0 <= i < batches[b]@.len(),
        all_items(batches).len() <= limit,
        all_items(batches).len() <= usize::MAX,
    ensures
        r.len() == all_items(batches).len(),
        exists|x: int|
            0 <= x < r.len() && (#[trigger] r[x]).identifier == batches[b]@[i].identifier
                && r[x].provider == batches[b]@[i].provider && r[x].text == batches[b]@[i].text
                && is_adjusted(
                batches[b]@[i],
                r[x],
                weight_of(registry, targets[b]),
                registry.history,
                query.len() > 0,
                now,
            ),
{
    let adjusted = choose|adjusted: Seq<Vec<Item>>| #[trigger]
        are_adjusted(registry, targets, batches, adjusted, query, now) && is_best(
            all_items(adjusted),
            r,
            limit,
        );
    adjusting_keeps_the_number(registry, targets, batches, adjusted, query, now);
    let all = all_items(adjusted);
    let item = adjusted[b]@[i];
    assert(batch_adjusted(registry, targets[b], batches[b]@, adjusted[b]@, query, now));
    assert(adjusted[b]@.contains(item));
    every_batch_counts(adjusted, item);
    let k = choose|k: int| 0 <= k < all.len() && all[k] == item;
    nothing_is_left_out_below_the_limit(all, r, limit, k);
    let x = choose|x: int| 0 <= x < r.len() && r[x] == item;
    assert(r[x].identifier == batches[b]@[i].identifier);
}

/// Raising results leaves as many of them.
proof fn adjusting_keeps_the_number(
    registry: Registry,
    targets: Seq<usize>,
    before: Seq<Vec<Item>>,
    after: Seq<Vec<Item>>,
    query: Seq<char>,
    now: u64,
)
    requires
        are_adjusted(registry, targets, before, after, query, now),
    ensures
        all_items(after).len() == all_items(before).len(),
    decreases before.len(),
{
    if before.len() > 0 {
        let last = before.len() - 1;
        assert(batch_adjusted(registry, targets[last], before[last]@, after[last]@, query, now));
        let b = before.drop_last();
        let a = after.drop_last();
        assert forall|i: int| 0 <= i < a.len() implies batch_adjusted(
            registry,
            targets[i],
            b[i]@,
            (#[trigger] a[i])@,
            query,
            now,
        ) by {
            assert(a[i] == after[i] && b[i] == before[i]);
        }
        adjusting_keeps_the_number(registry, targets, b, a, query, now);
    }
}

} // verus!
