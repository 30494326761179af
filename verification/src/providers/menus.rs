//! Menus that the user defines. Each is a provider of its own.

use vstd::prelude::*;
use vstd::string::*;

use crate::fuzzy::{indices, match_of, score, Match};
use crate::keyed::TextMap;
use crate::number::{
    decimal, parse_unsigned, unsigned_of, unsigned_reads_back, wrap, wrapped, wrapping_sum,
    write_u64,
};
use crate::order::{
    comes_before, index_before, is_arrangement, picked, reorder, sorted_order, TextKey,
};
use crate::providers::{
    hits_stand_in_order, is_top, matching_texts, matching_texts_bounds, nothing_better_is_left_out,
    nothing_is_left_out_below_the_limit, top_items, what_matches_is_a_hit,
};
use crate::text::{
    begins_with, join, joined, lossy, lossy_of, lower_of, replace, replaced,
    replacing_changes_what_it_finds, same, texts, trim, trim_of, what_stands_once_is_replaced,
};
use crate::types::{ActionCapability, Item, ItemType, ProviderCapability};

verus! {

/// How many milliseconds a menu reuses the entries that its generator produced, unless it says
/// otherwise.
pub const ENTRY_TTL_MS: u64 = 10_000;

/// How many milliseconds lie at least between two runs of a generator.
pub const MIN_REFRESH_MS: u64 = 300;

/// A menu as it is defined.
#[derive(Debug)]
pub struct Menu {
    pub name: String,
    pub name_pretty: Option<String>,
    pub description: Option<String>,
    pub icon: Option<String>,
    pub action: Option<String>,
    /// What generates the entries.
    pub command: Option<String>,
    pub cache_ms: Option<u64>,
    pub actions: Option<TextMap<String>>,
    pub entries: Option<Vec<MenuEntry>>,
}

/// An entry of a menu.
#[derive(Debug)]
pub struct MenuEntry {
    pub text: String,
    pub value: Option<String>,
    pub copy: Option<String>,
    pub subtext: Option<String>,
    pub icon: Option<String>,
    pub keywords: Option<Vec<String>>,
    pub actions: Option<TextMap<String>>,
    pub submenu: Option<String>,
    /// What gives the preview of the entry.
    pub async_command: Option<String>,
}

/// The keys of a list of entries.
pub open spec fn keys_of(entries: Seq<(String, String)>) -> Seq<Seq<char>> {
    entries.map_values(|e: (String, String)| e.0@)
}

/// Whether `sorted` is `names` in order.
pub open spec fn is_sorted_list(names: Seq<Seq<char>>, sorted: Seq<Seq<char>>) -> bool {
    exists|order: Seq<usize>| #[trigger]
        is_arrangement(order, names.len()) && sorted == picked(names, order) && forall|
            a: int,
            b: int,
        |
            0 <= a < b < sorted.len() ==> !comes_before(#[trigger] sorted[b], #[trigger] sorted[a])
}

/// The index of a name in a list, or its length where it is not there.
pub open spec fn name_index(names: Seq<Seq<char>>, name: Seq<char>) -> int
    decreases names.len(),
{
    if names.len() == 0 || names[0] == name {
        0
    } else {
        1 + name_index(names.drop_first(), name)
    }
}

/// A list with the name of the default action brought to the front, in exchange for the first.
pub open spec fn default_in_front(names: Seq<Seq<char>>) -> Seq<Seq<char>> {
    let i = name_index(names, "default"@);
    if i < names.len() {
        names.update(i, names[0]).update(0, names[i])
    } else {
        names
    }
}

/// The actions of an entry, or those of its menu where it has none.
pub open spec fn own_actions(entry: MenuEntry, menu: Menu) -> Seq<(String, String)> {
    match entry.actions {
        Some(actions) => actions.entries@,
        None => match menu.actions {
            Some(actions) => actions.entries@,
            None => Seq::empty(),
        },
    }
}

/// Whether the names are those of the actions of an entry. One that copies has only that action.
/// Otherwise they are in order, with the default action first; it stands alone where there are
/// none; and an entry that leads to another menu can be opened.
pub open spec fn are_action_names(names: Seq<Seq<char>>, entry: MenuEntry, menu: Menu) -> bool {
    if entry.copy is Some {
        names == seq!["copy"@]
    } else {
        exists|sorted: Seq<Seq<char>>| #[trigger]
            is_sorted_list(keys_of(own_actions(entry, menu)), sorted) && names == default_in_front(
                if sorted.len() == 0 {
                    seq!["default"@]
                } else {
                    sorted
                },
            ) + (if entry.submenu is Some {
                seq!["open"@]
            } else {
                Seq::empty()
            })
    }
}

/// Sorts names.
fn sort_names(names: Vec<String>) -> (r: Vec<String>)
    ensures
        is_sorted_list(texts(names@), texts(r@)),
{
    let ghost all = texts(names@);
    let mut keys: Vec<TextKey> = Vec::new();
    let mut i: usize = 0;
    while i < names.len()
        invariant
            i <= names@.len(),
            keys@.len() == i,
            forall|k: int| 0 <= k < i ==> (#[trigger] keys@[k]).0@ == names@[k]@,
        decreases names.len() - i,
    {
        keys.push(TextKey(names[i].clone()));
        i += 1;
    }
    let order = sorted_order(&keys);
    let r = reorder(names, &order);
    proof {
        assert(texts(r@) =~= picked(all, order@));
        assert forall|a: int, b: int| 0 <= a < b < texts(r@).len() implies !comes_before(
            #[trigger] texts(r@)[b],
            #[trigger] texts(r@)[a],
        ) by {
            assert(index_before(keys@, order@[a], order@[b]));
            crate::order::comes_before_is_total(
                keys@[order@[a] as int].0@,
                keys@[order@[b] as int].0@,
            );
        }
        assert(is_arrangement(order@, all.len()));
    }
    r
}

/// Brings the name of the default action to the front.
fn put_default_in_front(names: Vec<String>) -> (r: Vec<String>)
    ensures
        texts(r@) == default_in_front(texts(names@)),
{
    let ghost all = texts(names@);
    let mut i: usize = 0;
    assert(all.skip(0) =~= all);
    while i < names.len() && !same(names[i].as_str(), "default")
        invariant
            i <= names@.len(),
            all == texts(names@),
            name_index(all, "default"@) == i + name_index(all.skip(i as int), "default"@),
        decreases names.len() - i,
    {
        assert(all.skip(i as int).drop_first() =~= all.skip(i + 1));
        assert(all.skip(i as int)[0] == names@[i as int]@);
        i += 1;
    }
    if i >= names.len() {
        assert(all.skip(i as int).len() == 0);
        return names;
    }
    assert(all.skip(i as int)[0] == names@[i as int]@);
    let mut list = names;
    let first = list[0].clone();
    let found = list[i].clone();
    list[i] = first;
    list[0] = found;
    assert(texts(list@) =~= default_in_front(all));
    list
}

/// The keys of a map.
fn key_names(actions: &TextMap<String>) -> (r: Vec<String>)
    ensures
        texts(r@) == keys_of(actions.entries@),
{
    let mut out: Vec<String> = Vec::new();
    let mut i: usize = 0;
    while i < actions.entries.len()
        invariant
            i <= actions.entries@.len(),
            texts(out@) =~= keys_of(actions.entries@).take(i as int),
        decreases actions.entries.len() - i,
    {
        let ghost before = texts(out@);
        out.push(actions.entries[i].0.clone());
        assert(texts(out@) =~= before.push(actions.entries@[i as int].0@));
        i += 1;
    }
    assert(texts(out@) =~= keys_of(actions.entries@));
    out
}

/// What of an entry is searched.
pub open spec fn haystack_of(entry: MenuEntry) -> Seq<char> {
    let first = match entry.subtext {
        Some(subtext) => entry.text@ + " "@ + subtext@,
        None => entry.text@,
    };
    match entry.keywords {
        Some(keywords) => first + " "@ + joined(texts(keywords@), " "@),
        None => first,
    }
}

impl MenuEntry {
    /// Whether the entry is copied and not run.
    pub fn is_copy(&self) -> (r: bool)
        ensures
            r == self.copy is Some,
    {
        self.copy.is_some()
    }

    /// The names of the actions of the entry.
    pub fn action_names(&self, menu: &Menu) -> (r: Vec<String>)
        ensures
            are_action_names(texts(r@), *self, *menu),
    {
        if self.is_copy() {
            let r = vec!["copy".to_owned()];
            assert(texts(r@) =~= seq!["copy"@]);
            return r;
        }
        let names = match &self.actions {
            Some(actions) => key_names(actions),
            None => match &menu.actions {
                Some(actions) => key_names(actions),
                None => {
                    let none: Vec<String> = Vec::new();
                    assert(texts(none@) =~= keys_of(Seq::<(String, String)>::empty()));
                    none
                },
            },
        };
        let mut sorted = sort_names(names);
        let ghost s = texts(sorted@);
        if sorted.len() == 0 {
            sorted.push("default".to_owned());
            assert(texts(sorted@) =~= seq!["default"@]);
        }
        let mut out = put_default_in_front(sorted);
        let ghost before = texts(out@);
        if self.submenu.is_some() {
            out.push("open".to_owned());
            assert(texts(out@) =~= before + seq!["open"@]);
        } else {
            assert(before + Seq::<Seq<char>>::empty() =~= before);
        }
        assert(is_sorted_list(keys_of(own_actions(*self, *menu)), s));
        out
    }

    /// What of the entry is searched.
    pub fn haystack(&self) -> (r: String)
        ensures
            r@ == haystack_of(*self),
    {
        let mut out = self.text.clone();
        if let Some(subtext) = &self.subtext {
            out.append(" ");
            out.append(subtext.as_str());
        }
        if let Some(keywords) = &self.keywords {
            out.append(" ");
            out.append(join(keywords, " ").as_str());
        }
        out
    }
}

/// What is shown below an entry.
pub open spec fn subtext_of(entry: MenuEntry) -> Seq<char> {
    match entry.subtext {
        Some(s) => s@,
        None => match entry.copy {
            Some(s) => s@,
            None => match entry.value {
                Some(s) => s@,
                None => match entry.keywords {
                    Some(k) => joined(texts(k@), " "@),
                    None => Seq::empty(),
                },
            },
        },
    }
}

/// What is shown below an entry.
fn subtext(entry: &MenuEntry) -> (r: String)
    ensures
        r@ == subtext_of(*entry),
{
    match &entry.subtext {
        Some(s) => s.clone(),
        None => match &entry.copy {
            Some(s) => s.clone(),
            None => match &entry.value {
                Some(s) => s.clone(),
                None => match &entry.keywords {
                    Some(k) => join(k, " "),
                    None => String::new(),
                },
            },
        },
    }
}

/// A menu as a provider.
#[derive(Debug)]
pub struct MenuProvider {
    pub name: String,
    pub pretty: String,
    pub description: String,
    pub icon: String,
    pub menu: Menu,
}

/// What is to be done for the entries of a menu.
#[derive(Debug, Clone, Copy, PartialEq, Eq, Structural)]
pub enum Freshness {
    /// Nothing was generated yet: the entries are generated and waited for.
    Generate,
    /// The entries are served as they are.
    Serve,
    /// The entries are served as they are, and generated again behind the answer.
    ServeAndRefresh,
}

/// What is to be done for the entries of a menu that were generated so long ago.
pub open spec fn freshness_of(age_ms: Option<u64>, opening: bool, cache_ms: Option<u64>) -> Freshness {
    match age_ms {
        None => Freshness::Generate,
        Some(age) => {
            let limit = if opening {
                MIN_REFRESH_MS
            } else {
                match cache_ms {
                    Some(ms) => ms,
                    None => ENTRY_TTL_MS,
                }
            };
            if age < limit {
                Freshness::Serve
            } else {
                Freshness::ServeAndRefresh
            }
        },
    }
}

/// What is to be done for the entries of a menu that were generated so long ago. A menu that is
/// opened looks again at what it reports on; one that is searched keeps what it has for a while.
pub fn freshness(age_ms: Option<u64>, opening: bool, cache_ms: Option<u64>) -> (r: Freshness)
    ensures
        r == freshness_of(age_ms, opening, cache_ms),
{
    match age_ms {
        None => Freshness::Generate,
        Some(age) => {
            let limit: u64 = if opening {
                MIN_REFRESH_MS
            } else {
                match cache_ms {
                    Some(ms) => ms,
                    None => ENTRY_TTL_MS,
                }
            };
            if age < limit {
                Freshness::Serve
            } else {
                Freshness::ServeAndRefresh
            }
        },
    }
}

/// Whether the item is that of an entry, but for its score and where it matched.
pub open spec fn is_entry_item(
    item: Item,
    provider: MenuProvider,
    index: int,
    entry: MenuEntry,
) -> bool {
    &&& item.provider@ == provider.name@
    &&& item.identifier@ == decimal(index as nat)
    &&& item.text@ == entry.text@
    &&& item.subtext@ == subtext_of(entry)
    &&& item.icon@ == (match entry.icon {
        Some(icon) => icon@,
        None => provider.icon@,
    })
    &&& are_action_names(texts(item.actions@), entry, provider.menu)
    &&& item.item_type == ItemType::Regular
    &&& item.mimetype@.len() == 0
    &&& item.preview@.len() == 0
    &&& item.preview_type@ == (if entry.async_command is Some {
        "text"@
    } else {
        Seq::empty()
    })
    &&& item.state@.len() == 0
    &&& item.icon_path is None
    &&& item.thumbnail is None
}

/// The place of an entry as a score: the earlier, the higher.
pub open spec fn place_score(index: int, total: int) -> int {
    wrapped(total - index)
}

/// What of each entry is searched, in lower case.
pub open spec fn searches(entries: Seq<MenuEntry>) -> Seq<Seq<char>> {
    entries.map_values(|e: MenuEntry| lower_of(haystack_of(e)))
}

/// Whether the item is that of an entry that matched.
pub open spec fn is_found_item(
    item: Item,
    provider: MenuProvider,
    index: int,
    entry: MenuEntry,
    total: int,
    m: Match,
) -> bool {
    &&& is_entry_item(item, provider, index, entry)
    &&& item.score == wrapped(place_score(index, total) + m.score)
    &&& item.fuzzyinfo is Some
    &&& item.fuzzyinfo->0.start == m.start
    &&& item.fuzzyinfo->0.field@ == "text"@
    &&& indices(item.fuzzyinfo->0.positions@) == m.positions
}

/// Whether these are the entries that match a query, the best first and not more than the limit.
pub open spec fn are_results(
    r: Seq<Item>,
    provider: MenuProvider,
    entries: Seq<MenuEntry>,
    query: Seq<char>,
    limit: nat,
    exact: bool,
) -> bool {
    exists|items: Seq<Item>| #[trigger]
        are_found_items(
            items,
            provider,
            entries,
            matching_texts(searches(entries), lower_of(query), exact),
            lower_of(query),
            exact,
        ) && is_top(items, r, limit)
}

/// Whether the items are those of the entries that matched, in order.
pub open spec fn are_found_items(
    items: Seq<Item>,
    provider: MenuProvider,
    entries: Seq<MenuEntry>,
    found: Seq<int>,
    query: Seq<char>,
    exact: bool,
) -> bool {
    &&& items.len() == found.len()
    &&& forall|k: int| 0 <= k < found.len() ==> 0 <= (#[trigger] found[k]) < entries.len()
    &&& forall|k: int|
        0 <= k < items.len() ==> is_found_item(
            #[trigger] items[k],
            provider,
            found[k],
            entries[found[k]],
            entries.len() as int,
            match_of(query, lower_of(haystack_of(entries[found[k]])), exact)->0,
        )
}

/// What activating an entry comes to.
#[derive(Debug)]
pub enum MenuStep {
    /// To copy a text.
    CopyText(String),
    /// To run a line in a shell.
    Run(String),
    /// Nothing.
    Nothing,
}

/// The command of an action: that of the entry, otherwise that of the menu, otherwise the menu's
/// own.
pub open spec fn command_for(entry: MenuEntry, menu: Menu, action: Seq<char>) -> Option<Seq<char>> {
    if entry.actions is Some && entry.actions->0@.dom().contains(action) {
        Some(entry.actions->0@[action]@)
    } else if menu.actions is Some && menu.actions->0@.dom().contains(action) {
        Some(menu.actions->0@[action]@)
    } else {
        match menu.action {
            Some(command) => Some(command@),
            None => None,
        }
    }
}

/// Whether the step is what activating an entry comes to.
pub open spec fn is_menu_step(
    step: MenuStep,
    entry: MenuEntry,
    menu: Menu,
    action: Seq<char>,
    arguments: Seq<char>,
) -> bool {
    let value = match entry.value {
        Some(v) => v@,
        None => entry.text@,
    };
    if action == "open"@ && entry.submenu is Some {
        step is Nothing
    } else if entry.copy is Some || action == "copy"@ {
        step matches MenuStep::CopyText(t) && t@ == (match entry.copy {
            Some(c) => c@,
            None => value,
        })
    } else {
        match command_for(entry, menu, action) {
            None => step is Nothing,
            Some(command) => step matches MenuStep::Run(line) && line@ == replaced(
                replaced(command, "%VALUE%"@, value),
                "%ARGS%"@,
                arguments,
            ),
        }
    }
}

/// What carrying out an action on the entry at a place comes to.
pub open spec fn is_activated(
    r: Result<MenuStep, String>,
    entries: Seq<MenuEntry>,
    menu: Menu,
    identifier: Seq<char>,
    action: Seq<char>,
    arguments: Seq<char>,
) -> bool {
    match unsigned_of(identifier, usize::MAX as nat) {
        None => r matches Err(m) && m@ == "invalid menu entry"@,
        Some(i) => if i < entries.len() {
            r matches Ok(step) && is_menu_step(step, entries[i as int], menu, action, arguments)
        } else {
            r matches Err(m) && m@ == "menu entry not found"@
        },
    }
}

impl MenuProvider {
    /// A menu as a provider.
    pub fn new(menu: Menu) -> (r: MenuProvider)
        ensures
            r.menu == menu,
            r.name@ == menu.name@,
            r.pretty@ == (match menu.name_pretty {
                Some(s) => s@,
                None => menu.name@,
            }),
            r.description@ == (match menu.description {
                Some(s) => s@,
                None => "Custom menu"@,
            }),
            r.icon@ == (match menu.icon {
                Some(s) => s@,
                None => "applications-other"@,
            }),
    {
        MenuProvider {
            name: menu.name.clone(),
            pretty: match &menu.name_pretty {
                Some(s) => s.clone(),
                None => menu.name.clone(),
            },
            description: match &menu.description {
                Some(s) => s.clone(),
                None => "Custom menu".to_owned(),
            },
            icon: match &menu.icon {
                Some(s) => s.clone(),
                None => "applications-other".to_owned(),
            },
            menu,
        }
    }

    /// The item of an entry. Its score keeps the order of the menu where nothing was typed. The
    /// preview of an entry that has one is filled in once it is there.
    pub fn item(&self, index: usize, entry: &MenuEntry, total: usize) -> (r: Item)
        requires
            index <= total,
        ensures
            is_entry_item(r, *self, index as int, *entry),
            r.score == place_score(index as int, total as int),
            r.fuzzyinfo is None,
    {
        let id = write_u64(index as u64);
        let mut item = Item::new(self.name.as_str(), id.as_str(), entry.text.as_str());
        item.subtext = subtext(entry);
        item.icon = match &entry.icon {
            Some(icon) => icon.clone(),
            None => self.icon.clone(),
        };
        item.actions = entry.action_names(&self.menu);
        if entry.async_command.is_some() {
            item.preview_type = "text".to_owned();
        }
        assert(entry.async_command is None ==> item.preview_type@ =~= Seq::empty());
        item.score = wrap((total - index) as i128);
        item
    }

    /// The entries that match a query, the best first and not more than the limit.
    pub fn query(&self, entries: &Vec<MenuEntry>, query: &str, limit: usize, exact: bool) -> (r: Vec<
        Item,
    >)
        ensures
            are_results(r@, *self, entries@, query@, limit as nat, exact),
    {
        let ghost q = lower_of(query@);
        let ghost all = searches(entries@);
        let total: usize = entries.len();
        let mut out: Vec<Item> = Vec::new();
        let ghost mut found: Seq<int> = Seq::empty();
        let mut i: usize = 0;
        assert(all.take(0) =~= Seq::empty());
        while i < entries.len()
            invariant
                i <= entries@.len(),
                total == entries@.len(),
                q == lower_of(query@),
                all == searches(entries@),
                found == matching_texts(all.take(i as int), q, exact),
                are_found_items(out@, *self, entries@, found, q, exact),
            decreases entries.len() - i,
        {
            let entry = &entries[i];
            let hay = entry.haystack();
            assert(all.take(i + 1).drop_last() =~= all.take(i as int));
            assert(all.take(i + 1).last() == lower_of(hay@));
            match score(query, hay.as_str(), exact, "text") {
                Some((points, info)) => {
                    let mut item = self.item(i, entry, total);
                    item.score = wrapping_sum(item.score, points);
                    item.fuzzyinfo = Some(info);
                    out.push(item);
                    proof {
                        found = found.push(i as int);
                    }
                },
                None => {},
            }
            i += 1;
        }
        assert(all.take(i as int) =~= all);
        assert(are_found_items(out@, *self, entries@, found, q, exact));
        top_items(out, limit)
    }

    /// All entries, in the order of the menu.
    pub fn menu(&self, entries: &Vec<MenuEntry>) -> (r: Vec<Item>)
        ensures
            r@.len() == entries@.len(),
            forall|i: int|
                0 <= i < r@.len() ==> is_entry_item(#[trigger] r@[i], *self, i, entries@[i])
                    && r@[i].score == place_score(i, entries@.len() as int) && r@[i].fuzzyinfo is None,
    {
        let total: usize = entries.len();
        let mut out: Vec<Item> = Vec::new();
        let mut i: usize = 0;
        while i < entries.len()
            invariant
                total == entries@.len(),
                i <= entries@.len(),
                out@.len() == i,
                forall|k: int|
                    0 <= k < i ==> is_entry_item(#[trigger] out@[k], *self, k, entries@[k])
                        && out@[k].score == place_score(k, entries@.len() as int)
                        && out@[k].fuzzyinfo is None,
            decreases entries.len() - i,
        {
            out.push(self.item(i, &entries[i], total));
            i += 1;
        }
        out
    }

    /// What activating an entry comes to. The identifier is the place of the entry.
    pub fn activate(
        &self,
        entries: &Vec<MenuEntry>,
        identifier: &str,
        action: &str,
        arguments: &str,
    ) -> (r: Result<MenuStep, String>)
        ensures
            is_activated(r, entries@, self.menu, identifier@, action@, arguments@),
    {
        let index: usize = match parse_unsigned(identifier, usize::MAX as u64) {
            Some(n) => n as usize,
            None => return Err("invalid menu entry".to_owned()),
        };
        if index >= entries.len() {
            return Err("menu entry not found".to_owned());
        }
        let entry = &entries[index];
        let value = match &entry.value {
            Some(v) => v.clone(),
            None => entry.text.clone(),
        };
        if same(action, "open") && entry.submenu.is_some() {
            return Ok(MenuStep::Nothing);
        }
        if entry.is_copy() || same(action, "copy") {
            return Ok(
                MenuStep::CopyText(
                    match &entry.copy {
                        Some(c) => c.clone(),
                        None => value,
                    },
                ),
            );
        }
        let of_entry = match &entry.actions {
            Some(actions) => match actions.get(action) {
                Some(c) => Some(c.clone()),
                None => None,
            },
            None => None,
        };
        let command = match of_entry {
            Some(c) => c,
            None => {
                let of_menu = match &self.menu.actions {
                    Some(actions) => match actions.get(action) {
                        Some(c) => Some(c.clone()),
                        None => None,
                    },
                    None => None,
                };
                match of_menu {
                    Some(c) => c,
                    None => match &self.menu.action {
                        Some(c) => c.clone(),
                        None => return Ok(MenuStep::Nothing),
                    },
                }
            },
        };
        proof {
            reveal_strlit("%VALUE%");
            reveal_strlit("%ARGS%");
        }
        let with_value = replace(command.as_str(), "%VALUE%", value.as_str());
        Ok(MenuStep::Run(replace(with_value.as_str(), "%ARGS%", arguments)))
    }

    /// How the provider describes itself.
    pub fn capability(&self) -> (r: ProviderCapability)
        ensures
            r.name@ == self.name@,
            r.name_pretty@ == self.pretty@,
            r.description@ == self.description@,
            r.icon@ == self.icon@,
            r.prefixes@.len() == 0,
            r.actions.wf(),
            r.actions@.dom() == set!["default"@, "copy"@, "open"@],
            r.actions@["default"@].is_plain("Run"@),
            r.actions@["copy"@].is_plain("Copy"@),
            r.actions@["open"@].is_plain("Open"@),
            r.supports_query && r.supports_activate && r.supports_streaming,
            !r.supports_subscriptions && !r.emits_events,
    {
        let mut actions: TextMap<ActionCapability> = TextMap::new();
        actions.insert("default".to_owned(), ActionCapability::new("Run"));
        actions.insert("copy".to_owned(), ActionCapability::new("Copy"));
        actions.insert("open".to_owned(), ActionCapability::new("Open"));
        proof {
            reveal_strlit("default");
            reveal_strlit("copy");
            reveal_strlit("open");
            assert("default"@.len() == 7 && "copy"@[0] == 'c' && "open"@[0] == 'o');
            assert("default"@[0] == 'd');
            assert(actions@.dom() =~= set!["default"@, "copy"@, "open"@]);
        }
        ProviderCapability {
            name: self.name.clone(),
            name_pretty: self.pretty.clone(),
            description: self.description.clone(),
            icon: self.icon.clone(),
            prefixes: Vec::new(),
            actions,
            supports_query: true,
            supports_activate: true,
            supports_streaming: true,
            supports_subscriptions: false,
            emits_events: false,
        }
    }
}

/// The preview that the output of a command gives.
pub fn preview_of(output: Option<&[u8]>) -> (r: String)
    ensures
        r@ == (match output {
            Some(bytes) => trim_of(lossy_of(bytes@)),
            None => Seq::empty(),
        }),
{
    match output {
        Some(bytes) => trim(lossy(bytes).as_str()),
        None => String::new(),
    }
}

/// The menus that have a name.
pub open spec fn named(menus: Seq<Menu>) -> Seq<Menu> {
    menus.filter(|m: Menu| m.name@.len() > 0)
}

/// The menus but for those with the name of the one before.
pub open spec fn without_repeats(menus: Seq<Menu>) -> Seq<Menu>
    decreases menus.len(),
{
    if menus.len() == 0 {
        menus
    } else {
        let before = without_repeats(menus.drop_last());
        if before.len() > 0 && before.last().name@ == menus.last().name@ {
            before
        } else {
            before.push(menus.last())
        }
    }
}

/// Whether `after` is `before` by name, menus of the same name staying in order.
pub open spec fn is_by_name(before: Seq<Menu>, after: Seq<Menu>) -> bool {
    exists|order: Seq<usize>| #[trigger]
        is_arrangement(order, before.len()) && after == picked(before, order) && forall|
            a: int,
            b: int,
        |
            0 <= a < b < order.len() ==> menu_before(before, #[trigger] order[a], #[trigger] order[b])
}

/// Whether the menu at `i` comes before that at `j`.
pub open spec fn menu_before(menus: Seq<Menu>, i: usize, j: usize) -> bool {
    let x = menus[i as int].name@;
    let y = menus[j as int].name@;
    comes_before(x, y) || (!comes_before(y, x) && i < j)
}

/// Whether these are the menus that become providers.
pub open spec fn are_usable(r: Seq<Menu>, menus: Seq<Menu>) -> bool {
    exists|sorted: Seq<Menu>| #[trigger]
        is_by_name(named(menus), sorted) && r == without_repeats(sorted)
}

/// The menus that become providers: those with a name, in the order of their names, and of those
/// with the same name the first.
pub fn usable_menus(menus: Vec<Menu>) -> (r: Vec<Menu>)
    ensures
        are_usable(r@, menus@),
{
    let ghost all = menus@;
    let ghost keep = |m: Menu| m.name@.len() > 0;
    let mut kept: Vec<Menu> = Vec::new();
    let mut keys: Vec<TextKey> = Vec::new();
    reveal(Seq::filter);
    assert(all.take(0).filter(keep) =~= Seq::empty());
    for menu in it: menus
        invariant
            it.seq() == all,
            keep == (|m: Menu| m.name@.len() > 0),
            kept@ == all.take(it.index() as int).filter(keep),
            keys@.len() == kept@.len(),
            forall|k: int| 0 <= k < keys@.len() ==> (#[trigger] keys@[k]).0@ == kept@[k].name@,
    {
        reveal(Seq::filter);
        let ghost i = it.index() as int;
        assert(all.take(i + 1).drop_last() =~= all.take(i));
        assert(all.take(i + 1).last() == menu);
        if !menu.name.as_str().is_empty() {
            keys.push(TextKey(menu.name.clone()));
            kept.push(menu);
        }
    }
    assert(all.take(all.len() as int) =~= all);
    let ghost before = kept@;
    let order = sorted_order(&keys);
    let sorted = reorder(kept, &order);
    proof {
        assert forall|a: int, b: int| 0 <= a < b < order@.len() implies menu_before(
            before,
            #[trigger] order@[a],
            #[trigger] order@[b],
        ) by {
            assert(index_before(keys@, order@[a], order@[b]));
        }
        assert(is_arrangement(order@, before.len()));
        assert(is_by_name(named(all), sorted@));
    }
    let ghost list = sorted@;
    let mut out: Vec<Menu> = Vec::new();
    assert(list.take(0) =~= Seq::empty());
    for menu in it: sorted
        invariant
            it.seq() == list,
            out@ == without_repeats(list.take(it.index() as int)),
    {
        let ghost i = it.index() as int;
        assert(list.take(i + 1).drop_last() =~= list.take(i));
        assert(list.take(i + 1).last() == menu);
        let n: usize = out.len();
        if n == 0 || !same(out[n - 1].name.as_str(), menu.name.as_str()) {
            out.push(menu);
        }
    }
    assert(list.take(list.len() as int) =~= list);
    out
}

/// The default action of an entry comes first, so that it is the one that Enter carries out.
pub proof fn the_default_action_comes_first(names: Seq<Seq<char>>)
    requires
        names.contains("default"@),
    ensures
        default_in_front(names)[0] == "default"@,
        default_in_front(names).len() == names.len(),
{
    name_index_finds(names, "default"@);
}

proof fn name_index_finds(names: Seq<Seq<char>>, name: Seq<char>)
    requires
        names.contains(name),
    ensures
        0 <= name_index(names, name) < names.len(),
        names[name_index(names, name)] == name,
    decreases names.len(),
{
    let k = choose|k: int| 0 <= k < names.len() && names[k] == name;
    if names[0] != name {
        assert(names.drop_first()[k - 1] == name);
        assert(names.drop_first().contains(name));
        name_index_finds(names.drop_first(), name);
    }
}

/// Where nothing is typed, an entry that stands earlier in the menu has the higher score, so that
/// the order of the menu is kept.
pub proof fn an_empty_query_keeps_the_order(
    a: Item,
    b: Item,
    provider: MenuProvider,
    entries: Seq<MenuEntry>,
    i: int,
    j: int,
    exact: bool,
)
    requires
        0 <= i < j < entries.len() <= 1_000_000_000,
        ({
            let q = lower_of(Seq::empty());
            let mi = match_of(q, searches(entries)[i], exact)->0;
            let mj = match_of(q, searches(entries)[j], exact)->0;
            is_found_item(a, provider, i, entries[i], entries.len() as int, mi) && is_found_item(
                b,
                provider,
                j,
                entries[j],
                entries.len() as int,
                mj,
            )
        }),
    ensures
        a.score > b.score,
{
    assert(lower_of(Seq::<char>::empty()) =~= Seq::empty());
}

/// What is listed is what is carried out: the result of an entry leads to that entry. One that copies
/// copies its text, `copy` copies the value, and another action runs the command for it with the value
/// in its place.
pub proof fn a_result_carries_out_its_entry(
    item: Item,
    provider: MenuProvider,
    entries: Seq<MenuEntry>,
    k: int,
    action: Seq<char>,
    arguments: Seq<char>,
    head: Seq<char>,
    tail: Seq<char>,
    r: Result<MenuStep, String>,
)
    requires
        0 <= k < entries.len() <= usize::MAX,
        is_entry_item(item, provider, k, entries[k]),
        is_activated(r, entries, provider.menu, item.identifier@, action, arguments),
        action != "open"@ || entries[k].submenu is None,
        forall|i: int| 0 <= i < head.len() ==> head[i] != '%',
        forall|i: int| 0 <= i < tail.len() ==> tail[i] != '%',
    ensures
        entries[k].copy is Some ==> (r matches Ok(MenuStep::CopyText(t)) && t@
            == entries[k].copy->0@),
        entries[k].copy is None && action == "copy"@ ==> (r matches Ok(MenuStep::CopyText(t)) && t@
            == (match entries[k].value {
            Some(v) => v@,
            None => entries[k].text@,
        })),
        entries[k].copy is None && action != "copy"@ && entries[k].value is Some && command_for(
            entries[k],
            provider.menu,
            action,
        ) == Some(head + "%VALUE%"@ + tail) && (forall|i: int|
            0 <= i < entries[k].value->0@.len() ==> entries[k].value->0@[i] != '%') ==> (r matches Ok(
            MenuStep::Run(l),
        ) && l@ == head + entries[k].value->0@ + tail),
        entries[k].copy is None && action != "copy"@ && command_for(entries[k], provider.menu, action)
            == Some(head + "%ARGS%"@ + tail) ==> (r matches Ok(MenuStep::Run(l)) && l@ == head
            + arguments + tail),
        item.text@ == entries[k].text@,
{
    reveal_strlit("%VALUE%");
    reveal_strlit("%ARGS%");
    assert("%VALUE%"@.len() == 7 && "%ARGS%"@.len() == 6);
    assert("%VALUE%"@[0] == '%' && "%ARGS%"@[0] == '%');
    unsigned_reads_back(k as nat, usize::MAX as nat);
    let entry = entries[k];
    if entry.value is Some && (forall|i: int|
        0 <= i < entry.value->0@.len() ==> entry.value->0@[i] != '%') {
        let value = entry.value->0@;
        what_stands_once_is_replaced(head, "%VALUE%"@, tail, value);
        replacing_changes_what_it_finds(head + value + tail, "%ARGS%"@);
        assert(replaced(head + value + tail, "%ARGS%"@, arguments) == head + value + tail);
    }
    what_stands_once_is_replaced(head, "%ARGS%"@, tail, arguments);
    let value = match entry.value {
        Some(v) => v@,
        None => entry.text@,
    };
    nothing_stands_there(head, tail, value);
}

/// The place of the arguments is not that of the value.
proof fn nothing_stands_there(head: Seq<char>, tail: Seq<char>, value: Seq<char>)
    requires
        forall|i: int| 0 <= i < head.len() ==> head[i] != '%',
        forall|i: int| 0 <= i < tail.len() ==> tail[i] != '%',
    ensures
        replaced(head + "%ARGS%"@ + tail, "%VALUE%"@, value) == head + "%ARGS%"@ + tail,
    decreases head.len(),
{
    reveal_strlit("%VALUE%");
    reveal_strlit("%ARGS%");
    let pat = "%VALUE%"@;
    let s = head + "%ARGS%"@ + tail;
    if head.len() > 0 {
        let rest = head.drop_first();
        assert(s[0] == head[0]);
        if begins_with(s, pat) {
            assert(s.subrange(0, 7)[0] == s[0]);
        }
        assert(s.drop_first() =~= rest + "%ARGS%"@ + tail);
        assert(forall|i: int| 0 <= i < rest.len() ==> rest[i] == head[i + 1]);
        nothing_stands_there(rest, tail, value);
        assert(seq![s[0]] + (rest + "%ARGS%"@ + tail) =~= s);
    } else {
        assert(s =~= "%ARGS%"@ + tail);
        assert(s[1] == 'A');
        if begins_with(s, pat) {
            assert(s.subrange(0, 7)[1] == 'V');
        }
        assert(s.drop_first() =~= seq!['A', 'R', 'G', 'S'] + seq!['%'] + tail);
        let five = s.drop_first();
        no_value_begins(seq!['A', 'R', 'G', 'S'], tail, value);
        assert(seq![s[0]] + five =~= s);
    }
}

/// A percent sign that nothing follows which the value could stand for is left as it is.
proof fn no_value_begins(head: Seq<char>, tail: Seq<char>, value: Seq<char>)
    requires
        forall|i: int| 0 <= i < head.len() ==> head[i] != '%',
        forall|i: int| 0 <= i < tail.len() ==> tail[i] != '%',
    ensures
        replaced(head + seq!['%'] + tail, "%VALUE%"@, value) == head + seq!['%'] + tail,
    decreases head.len(),
{
    reveal_strlit("%VALUE%");
    let pat = "%VALUE%"@;
    let s = head + seq!['%'] + tail;
    if head.len() > 0 {
        let rest = head.drop_first();
        assert(s[0] == head[0]);
        if begins_with(s, pat) {
            assert(s.subrange(0, 7)[0] == s[0]);
        }
        assert(s.drop_first() =~= rest + seq!['%'] + tail);
        assert(forall|i: int| 0 <= i < rest.len() ==> rest[i] == head[i + 1]);
        no_value_begins(rest, tail, value);
        assert(seq![s[0]] + (rest + seq!['%'] + tail) =~= s);
    } else {
        assert(s =~= seq!['%'] + tail);
        if begins_with(s, pat) {
            assert(s.subrange(0, 7)[6] == '%');
            assert(s[6] == tail[5]);
        }
        assert(s.drop_first() =~= tail);
        replacing_changes_what_it_finds(tail, pat);
        assert(replaced(tail, pat, value) == tail);
        assert(seq![s[0]] + tail =~= s);
    }
}

/// The command of an entry for an action goes before that of its menu, and that before the one that
/// the menu has for all.
pub proof fn the_nearest_command_counts(entry: MenuEntry, menu: Menu, action: Seq<char>)
    ensures
        entry.actions is Some && entry.actions->0@.dom().contains(action) ==> command_for(
            entry,
            menu,
            action,
        ) == Some(entry.actions->0@[action]@),
        !(entry.actions is Some && entry.actions->0@.dom().contains(action)) && menu.actions is Some
            && menu.actions->0@.dom().contains(action) ==> command_for(entry, menu, action) == Some(
            menu.actions->0@[action]@,
        ),
        entry.actions is None && menu.actions is None && menu.action is Some ==> command_for(
            entry,
            menu,
            action,
        ) == Some(menu.action->0@),
        entry.actions is None && menu.actions is None && menu.action is None ==> command_for(
            entry,
            menu,
            action,
        ) is None,
{
}

/// What was never generated is generated, and what was is served at once. A menu that is opened looks
/// again unless it did just now; one that is searched keeps what it has for as long as it says. What is
/// older is never taken for fresher.
pub proof fn entries_grow_stale(a: u64, b: u64, opening: bool, cache: Option<u64>)
    requires
        a <= b,
    ensures
        freshness_of(None, opening, cache) == Freshness::Generate,
        freshness_of(Some(a), opening, cache) != Freshness::Generate,
        freshness_of(Some(b), opening, cache) == Freshness::Serve ==> freshness_of(
            Some(a),
            opening,
            cache,
        ) == Freshness::Serve,
        opening ==> (freshness_of(Some(a), opening, cache) == Freshness::Serve <==> a < 300),
        !opening && cache is Some ==> (freshness_of(Some(a), opening, cache) == Freshness::Serve
            <==> a < cache->0),
        !opening && cache is None ==> (freshness_of(Some(a), opening, cache) == Freshness::Serve
            <==> a < 10_000),
{
}

/// The menus that become providers have names, which stand in order and differ, and each is one that
/// was defined.
pub proof fn menus_are_listed_by_name(r: Seq<Menu>, menus: Seq<Menu>, i: int, j: int)
    requires
        are_usable(r, menus),
        0 <= i < j < r.len(),
    ensures
        comes_before(r[i].name@, r[j].name@),
        r[i].name@.len() > 0 && r[j].name@.len() > 0,
        menus.contains(r[i]) && menus.contains(r[j]),
{
    let sorted = choose|sorted: Seq<Menu>| #[trigger]
        is_by_name(named(menus), sorted) && r == without_repeats(sorted);
    let keep = |m: Menu| m.name@.len() > 0;
    let all = named(menus);
    let order = choose|order: Seq<usize>| #[trigger]
        is_arrangement(order, all.len()) && sorted == picked(all, order) && forall|a: int, b: int|
            0 <= a < b < order.len() ==> menu_before(all, #[trigger] order[a], #[trigger] order[b]);
    assert forall|a: int, b: int| 0 <= a < b < sorted.len() implies !comes_before(
        (#[trigger] sorted[b]).name@,
        (#[trigger] sorted[a]).name@,
    ) by {
        assert(menu_before(all, order[a], order[b]));
        crate::order::comes_before_is_total(sorted[a].name@, sorted[b].name@);
    }
    no_name_repeats(sorted);
    named_are_of(menus);
    let x = choose|x: int| 0 <= x < sorted.len() && sorted[x] == r[i];
    let y = choose|y: int| 0 <= y < sorted.len() && sorted[y] == r[j];
    assert(sorted[x] == all[order[x] as int] && sorted[y] == all[order[y] as int]);
}

/// Menus with a name are among the menus.
proof fn named_are_of(menus: Seq<Menu>)
    ensures
        forall|k: int|
            0 <= k < named(menus).len() ==> (#[trigger] named(menus)[k]).name@.len() > 0
                && menus.contains(named(menus)[k]),
    decreases menus.len(),
{
    reveal(Seq::filter);
    if menus.len() > 0 {
        let front = menus.drop_last();
        named_are_of(front);
        let before = named(front);
        let all = named(menus);
        assert forall|k: int| 0 <= k < all.len() implies (#[trigger] all[k]).name@.len() > 0
            && menus.contains(all[k]) by {
            if k < before.len() {
                assert(all[k] == before[k]);
                let x = choose|x: int| 0 <= x < front.len() && front[x] == before[k];
                assert(menus[x] == all[k]);
            } else {
                assert(menus[menus.len() - 1] == all[k]);
            }
        }
    }
}

/// Where menus stand in the order of their names, no name is left twice.
proof fn no_name_repeats(sorted: Seq<Menu>)
    requires
        forall|a: int, b: int|
            0 <= a < b < sorted.len() ==> !comes_before(
                (#[trigger] sorted[b]).name@,
                (#[trigger] sorted[a]).name@,
            ),
    ensures
        forall|a: int, b: int|
            0 <= a < b < without_repeats(sorted).len() ==> comes_before(
                (#[trigger] without_repeats(sorted)[a]).name@,
                (#[trigger] without_repeats(sorted)[b]).name@,
            ),
        forall|a: int|
            0 <= a < without_repeats(sorted).len() ==> sorted.contains(
                #[trigger] without_repeats(sorted)[a],
            ),
    decreases sorted.len(),
{
    if sorted.len() > 0 {
        let front = sorted.drop_last();
        assert forall|a: int, b: int| 0 <= a < b < front.len() implies !comes_before(
            (#[trigger] front[b]).name@,
            (#[trigger] front[a]).name@,
        ) by {
            assert(front[a] == sorted[a] && front[b] == sorted[b]);
        }
        no_name_repeats(front);
        let before = without_repeats(front);
        let all = without_repeats(sorted);
        let last = sorted.last();
        assert forall|a: int| 0 <= a < all.len() implies sorted.contains(#[trigger] all[a]) by {
            if a < before.len() {
                assert(all[a] == before[a]);
                let x = choose|x: int| 0 <= x < front.len() && front[x] == before[a];
                assert(sorted[x] == all[a]);
            } else {
                assert(sorted[sorted.len() - 1] == all[a]);
            }
        }
        assert forall|a: int, b: int| 0 <= a < b < all.len() implies comes_before(
            (#[trigger] all[a]).name@,
            (#[trigger] all[b]).name@,
        ) by {
            assert(all[a] == before[a]);
            if b < before.len() {
                assert(all[b] == before[b]);
            } else {
                let end = before.last();
                let x = choose|x: int| 0 <= x < front.len() && front[x] == before[before.len() - 1];
                assert(sorted[x] == end);
                assert(!comes_before(sorted[sorted.len() - 1].name@, sorted[x].name@));
                crate::order::comes_before_is_total(end.name@, last.name@);
                if a < before.len() - 1 {
                    assert(comes_before(before[a].name@, before[before.len() - 1].name@));
                    crate::order::comes_before_is_weak(all[a].name@, end.name@, last.name@);
                }
            }
        }
    }
}

/// An entry is listed where the query matches its text, its subtext and its keywords, and nothing else is
/// listed.
pub proof fn an_entry_that_matches_is_listed(
    r: Seq<Item>,
    provider: MenuProvider,
    entries: Seq<MenuEntry>,
    query: Seq<char>,
    limit: nat,
    exact: bool,
    k: int,
    i: int,
)
    requires
        are_results(r, provider, entries, query, limit, exact),
        0 <= k < entries.len() <= limit,
        entries.len() <= usize::MAX,
    ensures
        match_of(lower_of(query), lower_of(haystack_of(entries[k])), exact) is Some ==> exists|x: int|
            0 <= x < r.len() && (#[trigger] r[x]).text@ == entries[k].text@ && r[x].identifier@
                == decimal(k as nat),
        0 <= i < r.len() ==> exists|e: int|
            0 <= e < entries.len() && r[i].text@ == (#[trigger] entries[e]).text@ && match_of(
                lower_of(query),
                lower_of(haystack_of(entries[e])),
                exact,
            ) is Some,
        entries[k].subtext is None && entries[k].keywords is None ==> haystack_of(entries[k])
            == entries[k].text@,
        entries[k].subtext is Some && entries[k].keywords is None ==> haystack_of(entries[k])
            == entries[k].text@ + " "@ + (entries[k].subtext->0)@,
{
    let all = searches(entries);
    let q = lower_of(query);
    let found = matching_texts(all, q, exact);
    let items = choose|items: Seq<Item>| #[trigger]
        are_found_items(items, provider, entries, found, q, exact) && is_top(items, r, limit);
    hits_stand_in_order(all, q, exact, 0, 0);
    what_matches_is_a_hit(all, q, exact, k);
    matching_texts_bounds(all, q, exact);
    assert(all[k] == lower_of(haystack_of(entries[k])));
    if found.contains(k) {
        let x = choose|x: int| 0 <= x < found.len() && found[x] == k;
        assert(is_found_item(
            items[x],
            provider,
            k,
            entries[k],
            entries.len() as int,
            match_of(q, lower_of(haystack_of(entries[k])), exact)->0,
        ));
        nothing_is_left_out_below_the_limit(items, r, limit, x);
        let y = choose|y: int| 0 <= y < r.len() && r[y] == items[x];
        assert(r[y].text@ == entries[k].text@);
    }
    if 0 <= i < r.len() {
        assert(items.len() > 0);
        nothing_better_is_left_out(items, r, limit, 0);
        assert(items.contains(r[i]));
        let x = choose|x: int| 0 <= x < items.len() && items[x] == r[i];
        let e = found[x];
        assert(all[e] == lower_of(haystack_of(entries[e])));
        assert(r[i].text@ == entries[e].text@);
    }
}

/// A result names its menu and its entry, and can be looked into where it is worked out when it is
/// looked at.
pub proof fn a_result_names_its_entry(
    item: Item,
    provider: MenuProvider,
    index: int,
    entry: MenuEntry,
)
    requires
        is_entry_item(item, provider, index, entry),
    ensures
        item.provider@ == provider.name@,
        item.identifier@ == decimal(index as nat),
        item.text@ == entry.text@,
        entry.icon is Some ==> item.icon@ == (entry.icon->0)@,
        entry.icon is None ==> item.icon@ == provider.icon@,
        entry.async_command is Some ==> item.preview_type@ == "text"@,
        entry.async_command is None ==> item.preview_type@.len() == 0,
{
}

} // verus!
