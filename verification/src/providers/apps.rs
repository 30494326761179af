//! Applications, as desktop entries describe them.

use vstd::prelude::*;
use vstd::string::*;
use vstd::utf8::encode_utf8;

use crate::bytes::{first_bytes, position};
use crate::fuzzy::{indices, match_of, score, score_lower, Match};
use crate::keyed::TextMap;
use crate::localsend::server::{last_value, last_value_is_last, pair_views};
use crate::number::{wrapped, wrapping_sum};
use crate::path::{file_name, file_name_of, join_path, joined_path};
use crate::providers::{is_top, nothing_is_left_out_below_the_limit, top_items};
use crate::text::{
    a_text_is_cut_at_the_first, after_first, after_prefix, before_first, before_suffix, begins_with,
    finishes_with, first_of, first_of_is_unique, is_in, join, joined, lines, lines_of, list_has,
    lower_of, lowercase, maybe, replace, replaced, replacing_changes_what_it_finds, same,
    same_but_case, same_ignoring_case, split, split_first, split_on, starts, strip_suffixes, texts,
    trim, trim_of, without_suffixes,
};
use crate::types::{Item, ItemType, ProviderCapability};

verus! {

/// An application.
#[derive(Debug)]
pub struct DesktopEntry {
    pub id: String,
    pub name: String,
    pub generic_name: String,
    pub comment: String,
    pub command: String,
    pub icon: String,
    pub keywords: Vec<String>,
    pub categories: Vec<String>,
    pub no_display: bool,
    pub hidden: bool,
    pub terminal: bool,
    pub only_show_in: Vec<String>,
    pub not_show_in: Vec<String>,
    pub startup_wm_class: String,
    /// The command of each action.
    pub actions: TextMap<String>,
    /// What is searched, in lower case.
    pub search: String,
}

/// The codes that stand for what an application is opened with.
pub open spec fn field_codes() -> Seq<Seq<char>> {
    seq![
        "%f"@,
        "%F"@,
        "%u"@,
        "%U"@,
        "%d"@,
        "%D"@,
        "%n"@,
        "%N"@,
        "%i"@,
        "%c"@,
        "%k"@,
        "%v"@,
        "%m"@,
        "%%"@,
        "%"@,
    ]
}

/// A command without the first `n` of the codes, one after the other.
pub open spec fn without_codes(s: Seq<char>, n: nat) -> Seq<char>
    decreases n,
{
    if n == 0 {
        s
    } else {
        replaced(without_codes(s, (n - 1) as nat), field_codes()[n - 1], Seq::empty())
    }
}

/// A command without the codes that stand for what it is opened with.
pub fn clean_exec(input: &str) -> (r: String)
    ensures
        r@ == trim_of(without_codes(input@, 15)),
{
    let ghost all = field_codes();
    let codes: Vec<&str> = vec![
        "%f",
        "%F",
        "%u",
        "%U",
        "%d",
        "%D",
        "%n",
        "%N",
        "%i",
        "%c",
        "%k",
        "%v",
        "%m",
        "%%",
        "%",
    ];
    proof {
        reveal_strlit("%f");
        reveal_strlit("%F");
        reveal_strlit("%u");
        reveal_strlit("%U");
        reveal_strlit("%d");
        reveal_strlit("%D");
        reveal_strlit("%n");
        reveal_strlit("%N");
        reveal_strlit("%i");
        reveal_strlit("%c");
        reveal_strlit("%k");
        reveal_strlit("%v");
        reveal_strlit("%m");
        reveal_strlit("%%");
        reveal_strlit("%");
    }
    assert(forall|k: int| 0 <= k < 15 ==> codes@[k]@ == all[k] && all[k].len() > 0);
    let none = String::new();
    assert(none@ =~= Seq::empty());
    let mut out = input.to_owned();
    let mut i: usize = 0;
    while i < 15
        invariant
            all == field_codes(),
            codes@.len() == 15,
            none@ == Seq::<char>::empty(),
            forall|k: int| 0 <= k < 15 ==> codes@[k]@ == all[k] && all[k].len() > 0,
            i <= 15,
            out@ == without_codes(input@, i as nat),
        decreases 15 - i,
    {
        out = replace(out.as_str(), codes[i], none.as_str());
        i += 1;
    }
    trim(out.as_str())
}

/// The parts of a list that are not empty.
pub open spec fn list_parts(value: Seq<char>) -> Seq<Seq<char>> {
    split_on(value, ';').filter(|p: Seq<char>| p.len() > 0)
}

/// The parts of a list that are not empty.
pub fn split_list(value: &str) -> (r: Vec<String>)
    ensures
        texts(r@) == list_parts(value@),
{
    let parts = split(value, ';');
    let ghost all = texts(parts@);
    let ghost keep = |p: Seq<char>| p.len() > 0;
    let mut out: Vec<String> = Vec::new();
    let mut i: usize = 0;
    reveal(Seq::filter);
    assert(all.take(0).filter(keep) =~= Seq::empty());
    assert(texts(out@) =~= Seq::empty());
    while i < parts.len()
        invariant
            all == texts(parts@),
            keep == (|p: Seq<char>| p.len() > 0),
            i <= parts@.len(),
            texts(out@) == all.take(i as int).filter(keep),
        decreases parts.len() - i,
    {
        reveal(Seq::filter);
        assert(all.take(i + 1).drop_last() =~= all.take(i as int));
        assert(all.take(i + 1).last() == parts@[i as int]@);
        if !parts[i].as_str().is_empty() {
            let ghost before = texts(out@);
            out.push(parts[i].clone());
            assert(texts(out@) =~= before.push(parts@[i as int]@));
        }
        i += 1;
    }
    assert(all.take(i as int) =~= all);
    out
}

/// Which part of a file a line belongs to.
pub enum Section {
    /// Neither the entry nor an action.
    Other,
    /// The entry.
    Entry,
    /// The action of that name.
    Action(Seq<char>),
}

/// Whether a line is passed over: it is empty or a remark.
pub open spec fn is_passed_over(line: Seq<char>) -> bool {
    line.len() == 0 || begins_with(line, "#"@)
}

/// Whether a line begins the part of an action.
pub open spec fn is_action_header(line: Seq<char>) -> bool {
    begins_with(line, "[Desktop Action "@) && finishes_with(
        line.skip("[Desktop Action "@.len() as int),
        "]"@,
    )
}

/// The name of the action whose part a line begins.
pub open spec fn action_name(line: Seq<char>) -> Seq<char> {
    let rest = line.skip("[Desktop Action "@.len() as int);
    rest.take(rest.len() - "]"@.len())
}

/// The part of the file that a line after these belongs to. Headers of other parts do not end one.
pub open spec fn section_after(lines: Seq<Seq<char>>) -> Section
    decreases lines.len(),
{
    if lines.len() == 0 {
        Section::Other
    } else {
        let line = trim_of(lines.last());
        let before = section_after(lines.drop_last());
        if is_passed_over(line) {
            before
        } else if line == "[Desktop Entry]"@ {
            Section::Entry
        } else if is_action_header(line) {
            Section::Action(action_name(line))
        } else {
            before
        }
    }
}

/// The key and the value of a line, where it is neither passed over nor a header.
pub open spec fn setting(line: Seq<char>) -> Option<(Seq<char>, Seq<char>)> {
    let l = trim_of(line);
    if is_passed_over(l) || l == "[Desktop Entry]"@ || is_action_header(l) || first_of(l, '=')
        >= l.len() {
        None
    } else {
        Some((before_first(l, '='), after_first(l, '=')))
    }
}

/// The settings of the entry, in order.
pub open spec fn entry_settings(lines: Seq<Seq<char>>) -> Seq<(Seq<char>, Seq<char>)>
    decreases lines.len(),
{
    if lines.len() == 0 {
        Seq::empty()
    } else {
        let before = entry_settings(lines.drop_last());
        match setting(lines.last()) {
            Some(pair) => if section_after(lines.drop_last()) is Entry {
                before.push(pair)
            } else {
                before
            },
            None => before,
        }
    }
}

/// The commands of the actions: of each its last.
pub open spec fn action_commands(lines: Seq<Seq<char>>) -> Map<Seq<char>, Seq<char>>
    decreases lines.len(),
{
    if lines.len() == 0 {
        Map::empty()
    } else {
        let before = action_commands(lines.drop_last());
        match (setting(lines.last()), section_after(lines.drop_last())) {
            (Some((key, value)), Section::Action(name)) => if key == "Exec"@ {
                before.insert(name, trim_of(without_codes(value, 15)))
            } else {
                before
            },
            _ => before,
        }
    }
}

/// The first value of a key that is not empty, or nothing.
pub open spec fn first_value(pairs: Seq<(Seq<char>, Seq<char>)>, key: Seq<char>) -> Seq<char>
    decreases pairs.len(),
{
    if pairs.len() == 0 {
        Seq::empty()
    } else {
        let before = first_value(pairs.drop_last(), key);
        if before.len() == 0 && pairs.last().0 == key {
            pairs.last().1
        } else {
            before
        }
    }
}

/// The last value of a key, or nothing.
pub open spec fn value_or_empty(pairs: Seq<(Seq<char>, Seq<char>)>, key: Seq<char>) -> Seq<char> {
    match last_value(pairs, key) {
        Some(value) => value,
        None => Seq::empty(),
    }
}

/// Whether the last value of a key says yes.
pub open spec fn says_yes(pairs: Seq<(Seq<char>, Seq<char>)>, key: Seq<char>) -> bool {
    same_but_case(value_or_empty(pairs, key), "true"@)
}

/// What of an application is searched.
pub open spec fn search_text(
    name: Seq<char>,
    generic: Seq<char>,
    comment: Seq<char>,
    keywords: Seq<Seq<char>>,
) -> Seq<char> {
    lower_of(name + " "@ + generic + " "@ + comment + " "@ + joined(keywords, " "@))
}

/// The texts of a map's values.
pub open spec fn value_texts(m: Map<Seq<char>, String>) -> Map<Seq<char>, Seq<char>> {
    m.map_values(|s: String| s@)
}

/// Whether the entry is what a file of that name says. Of a name and a description the first counts
/// that is not empty, and of all else the last.
pub open spec fn is_parsed(entry: DesktopEntry, id: Seq<char>, lines: Seq<Seq<char>>) -> bool {
    let s = entry_settings(lines);
    &&& entry.id@ == id
    &&& entry.name@ == first_value(s, "Name"@)
    &&& entry.generic_name@ == first_value(s, "GenericName"@)
    &&& entry.comment@ == first_value(s, "Comment"@)
    &&& entry.command@ == (match last_value(s, "Exec"@) {
        Some(value) => trim_of(without_codes(value, 15)),
        None => Seq::empty(),
    })
    &&& entry.icon@ == value_or_empty(s, "Icon"@)
    &&& texts(entry.keywords@) == list_of(s, "Keywords"@)
    &&& texts(entry.categories@) == list_of(s, "Categories"@)
    &&& entry.no_display == says_yes(s, "NoDisplay"@)
    &&& entry.hidden == says_yes(s, "Hidden"@)
    &&& entry.terminal == says_yes(s, "Terminal"@)
    &&& texts(entry.only_show_in@) == list_of(s, "OnlyShowIn"@)
    &&& texts(entry.not_show_in@) == list_of(s, "NotShowIn"@)
    &&& entry.startup_wm_class@ == value_or_empty(s, "StartupWMClass"@)
    &&& entry.actions.wf()
    &&& value_texts(entry.actions@) == action_commands(lines)
    &&& entry.search@ == search_text(
        entry.name@,
        entry.generic_name@,
        entry.comment@,
        texts(entry.keywords@),
    )
}

/// The parts of the last list that a key has, or none.
pub open spec fn list_of(pairs: Seq<(Seq<char>, Seq<char>)>, key: Seq<char>) -> Seq<Seq<char>> {
    match last_value(pairs, key) {
        Some(value) => list_parts(value),
        None => Seq::empty(),
    }
}

/// The first value of a key that is not empty.
fn find_first(pairs: &Vec<(String, String)>, key: &str) -> (r: String)
    ensures
        r@ == first_value(pair_views(pairs@), key@),
{
    let ghost all = pair_views(pairs@);
    let mut out = String::new();
    let mut i: usize = 0;
    assert(all.take(0) =~= Seq::empty());
    assert(out@ =~= Seq::empty());
    while i < pairs.len()
        invariant
            all == pair_views(pairs@),
            i <= pairs@.len(),
            out@ == first_value(all.take(i as int), key@),
        decreases pairs.len() - i,
    {
        assert(all.take(i + 1).drop_last() =~= all.take(i as int));
        assert(all.take(i + 1).last() == (pairs@[i as int].0@, pairs@[i as int].1@));
        if out.as_str().is_empty() && same(pairs[i].0.as_str(), key) {
            out = pairs[i].1.clone();
        }
        i += 1;
    }
    assert(all.take(i as int) =~= all);
    out
}

/// The last value of a key.
fn find_last(pairs: &Vec<(String, String)>, key: &str) -> (r: Option<String>)
    ensures
        match r {
            Some(value) => last_value(pair_views(pairs@), key@) == Some(value@),
            None => last_value(pair_views(pairs@), key@) is None,
        },
{
    let ghost all = pair_views(pairs@);
    let mut i: usize = pairs.len();
    assert(all.take(i as int) =~= all);
    while i > 0
        invariant
            i <= pairs@.len(),
            all == pair_views(pairs@),
            last_value(all, key@) == last_value(all.take(i as int), key@),
        decreases i,
    {
        assert(all.take(i as int).last() == (pairs@[i - 1].0@, pairs@[i - 1].1@));
        assert(all.take(i as int).drop_last() =~= all.take(i - 1));
        if same(pairs[i - 1].0.as_str(), key) {
            return Some(pairs[i - 1].1.clone());
        }
        i -= 1;
    }
    None
}

/// The last value of a key, or nothing.
fn find_text(pairs: &Vec<(String, String)>, key: &str) -> (r: String)
    ensures
        r@ == value_or_empty(pair_views(pairs@), key@),
{
    match find_last(pairs, key) {
        Some(value) => value,
        None => String::new(),
    }
}

/// The parts of the last list that a key has.
fn find_list(pairs: &Vec<(String, String)>, key: &str) -> (r: Vec<String>)
    ensures
        texts(r@) == list_of(pair_views(pairs@), key@),
{
    match find_last(pairs, key) {
        Some(value) => split_list(value.as_str()),
        None => {
            let none: Vec<String> = Vec::new();
            assert(texts(none@) =~= Seq::empty());
            none
        },
    }
}

/// Whether a section in code is the one that it stands for.
spec fn is_section(in_entry: bool, action: Option<String>, section: Section) -> bool {
    match section {
        Section::Other => !in_entry && action is None,
        Section::Entry => in_entry && action is None,
        Section::Action(name) => !in_entry && action is Some && action->0@ == name,
    }
}

/// The application that a file of that name describes.
pub fn parse_desktop(id: &str, raw: &str) -> (r: DesktopEntry)
    ensures
        is_parsed(r, id@, lines_of(raw@)),
{
    let all = lines(raw);
    let ghost ls = texts(all@);
    let mut pairs: Vec<(String, String)> = Vec::new();
    let mut actions: TextMap<String> = TextMap::new();
    let mut in_entry = false;
    let mut current: Option<String> = None;
    let mut i: usize = 0;
    assert(ls.take(0) =~= Seq::empty());
    assert(pair_views(pairs@) =~= Seq::empty());
    assert(value_texts(actions@) =~= Map::empty());
    while i < all.len()
        invariant
            ls == texts(all@),
            i <= all@.len(),
            actions.wf(),
            pair_views(pairs@) == entry_settings(ls.take(i as int)),
            value_texts(actions@) == action_commands(ls.take(i as int)),
            is_section(in_entry, current, section_after(ls.take(i as int))),
        decreases all.len() - i,
    {
        assert(ls.take(i + 1).drop_last() =~= ls.take(i as int));
        assert(ls.take(i + 1).last() == all@[i as int]@);
        let line = trim(all[i].as_str());
        let l = line.as_str();
        i += 1;
        if l.is_empty() || starts(l, "#") {
            continue;
        }
        if same(l, "[Desktop Entry]") {
            in_entry = true;
            current = None;
            continue;
        }
        if let Some(rest) = after_prefix(l, "[Desktop Action ") {
            if let Some(name) = before_suffix(rest.as_str(), "]") {
                current = Some(name);
                in_entry = false;
                continue;
            }
        }
        let (key, value) = match split_first(l, '=') {
            (key, Some(value)) => (key, value),
            (_, None) => {
                continue;
            },
        };
        if let Some(action) = &current {
            if same(key.as_str(), "Exec") {
                let ghost before = value_texts(actions@);
                let command = clean_exec(value.as_str());
                let ghost c = command@;
                actions.insert(action.clone(), command);
                assert(value_texts(actions@) =~= before.insert(action@, c));
            }
            continue;
        }
        if in_entry {
            let ghost before = pair_views(pairs@);
            pairs.push((key, value));
            assert(pair_views(pairs@) =~= before.push((key@, value@)));
        }
    }
    assert(ls.take(i as int) =~= ls);
    let name = find_first(&pairs, "Name");
    let generic_name = find_first(&pairs, "GenericName");
    let comment = find_first(&pairs, "Comment");
    let keywords = find_list(&pairs, "Keywords");
    let command = match find_last(&pairs, "Exec") {
        Some(value) => clean_exec(value.as_str()),
        None => String::new(),
    };
    let mut search = name.clone();
    search.append(" ");
    search.append(generic_name.as_str());
    search.append(" ");
    search.append(comment.as_str());
    search.append(" ");
    search.append(join(&keywords, " ").as_str());
    DesktopEntry {
        id: id.to_owned(),
        search: lowercase(search.as_str()),
        name,
        generic_name,
        comment,
        command,
        icon: find_text(&pairs, "Icon"),
        keywords,
        categories: find_list(&pairs, "Categories"),
        no_display: same_ignoring_case(find_text(&pairs, "NoDisplay").as_str(), "true"),
        hidden: same_ignoring_case(find_text(&pairs, "Hidden").as_str(), "true"),
        terminal: same_ignoring_case(find_text(&pairs, "Terminal").as_str(), "true"),
        only_show_in: find_list(&pairs, "OnlyShowIn"),
        not_show_in: find_list(&pairs, "NotShowIn"),
        startup_wm_class: find_text(&pairs, "StartupWMClass"),
        actions,
    }
}

/// Whether two lists have a text in common.
pub open spec fn have_common(a: Seq<String>, b: Seq<String>) -> bool {
    exists|i: int| 0 <= i < a.len() && is_in(b, (#[trigger] a[i])@)
}

/// Whether two lists have a text in common.
fn common(a: &Vec<String>, b: &Vec<String>) -> (r: bool)
    ensures
        r == have_common(a@, b@),
{
    let mut i: usize = 0;
    while i < a.len()
        invariant
            i <= a@.len(),
            forall|k: int| 0 <= k < i ==> !is_in(b@, (#[trigger] a@[k])@),
        decreases a.len() - i,
    {
        if list_has(b, a[i].as_str()) {
            assert(is_in(b@, a@[i as int]@));
            return true;
        }
        i += 1;
    }
    false
}

/// Whether an application is shown on the given desktops.
pub open spec fn is_visible(app: DesktopEntry, desktops: Seq<String>) -> bool {
    &&& !app.hidden
    &&& !app.no_display
    &&& app.only_show_in@.len() == 0 || have_common(app.only_show_in@, desktops)
    &&& !have_common(app.not_show_in@, desktops)
}

/// Whether an application is shown on the given desktops.
pub fn visible(app: &DesktopEntry, desktops: &Vec<String>) -> (r: bool)
    ensures
        r == is_visible(*app, desktops@),
{
    if app.hidden || app.no_display {
        return false;
    }
    if app.only_show_in.len() > 0 && !common(&app.only_show_in, desktops) {
        return false;
    }
    !common(&app.not_show_in, desktops)
}

/// Whether an application of that id is in a list.
pub open spec fn has_id(apps: Seq<DesktopEntry>, id: Seq<char>) -> bool {
    exists|i: int| 0 <= i < apps.len() && (#[trigger] apps[i]).id@ == id
}

/// The applications that are offered: those with a name that are shown, and of those with the same
/// id the first.
pub open spec fn offered(parsed: Seq<DesktopEntry>, desktops: Seq<String>) -> Seq<DesktopEntry>
    decreases parsed.len(),
{
    if parsed.len() == 0 {
        Seq::empty()
    } else {
        let before = offered(parsed.drop_last(), desktops);
        let last = parsed.last();
        if last.name@.len() > 0 && is_visible(last, desktops) && !has_id(before, last.id@) {
            before.push(last)
        } else {
            before
        }
    }
}

/// The applications that are offered.
#[derive(Debug)]
pub struct AppsProvider {
    pub apps: Vec<DesktopEntry>,
    /// What applications are launched with.
    pub launch_prefix: String,
}

/// The key under which the icon of an application is found: its window class, or its id where it
/// names none.
pub open spec fn class_key(app: DesktopEntry) -> Seq<char> {
    lower_of(
        if app.startup_wm_class@.len() > 0 {
            app.startup_wm_class@
        } else {
            without_suffixes(app.id@, ".desktop"@)
        },
    )
}

/// The icons by window class; of several applications with the same the last counts.
pub open spec fn class_icons(apps: Seq<DesktopEntry>) -> Map<Seq<char>, String>
    decreases apps.len(),
{
    if apps.len() == 0 {
        Map::empty()
    } else if apps.last().icon@.len() == 0 {
        class_icons(apps.drop_last())
    } else {
        class_icons(apps.drop_last()).insert(class_key(apps.last()), apps.last().icon)
    }
}

/// What a query counts for that stands in the name of an application.
pub open spec fn name_bonus(query: Seq<char>, name: Seq<char>) -> int {
    if query.len() == 0 {
        0
    } else {
        match first_bytes(encode_utf8(lower_of(name)), encode_utf8(query)) {
            Some(start) => if start == 0 {
                20_000
            } else {
                15_000
            },
            None => 0,
        }
    }
}

/// What a query in lower case counts for that stands in the name of an application.
pub fn app_name_bonus(query_lower: &str, name: &str) -> (r: i32)
    ensures
        r == name_bonus(query_lower@, name@),
{
    if query_lower.is_empty() {
        return 0;
    }
    let lower = lowercase(name);
    match position(lower.as_str().as_bytes(), query_lower.as_bytes()) {
        Some(start) => if start == 0 {
            20_000
        } else {
            15_000
        },
        None => 0,
    }
}

/// Whether nothing is set that no application has.
pub open spec fn is_bare(item: Item) -> bool {
    &&& item.provider@ == "apps"@
    &&& texts(item.actions@) == seq!["open"@]
    &&& item.item_type == ItemType::Regular
    &&& item.mimetype@.len() == 0
    &&& item.preview@.len() == 0
    &&& item.preview_type@.len() == 0
    &&& item.state@.len() == 0
    &&& item.icon_path is None
    &&& item.thumbnail is None
}

/// Whether the match is where the item says that it is.
pub open spec fn is_found(item: Item, m: Match) -> bool {
    &&& item.fuzzyinfo is Some
    &&& item.fuzzyinfo->0.start == m.start
    &&& item.fuzzyinfo->0.field@ == "text"@
    &&& indices(item.fuzzyinfo->0.positions@) == m.positions
}

/// Whether the item is that of an application that matched.
pub open spec fn is_app_item(item: Item, app: DesktopEntry, query: Seq<char>, m: Match) -> bool {
    &&& is_bare(item)
    &&& item.identifier@ == app.id@
    &&& item.text@ == app.name@
    &&& item.subtext@ == (if app.generic_name@.len() == 0 {
        app.comment@
    } else {
        app.generic_name@
    })
    &&& item.icon@ == app.icon@
    &&& item.score == wrapped(m.score + 20_000 + name_bonus(query, app.name@))
    &&& is_found(item, m)
}

/// Whether the item is that of an action of an application that matched.
pub open spec fn is_action_item(item: Item, app: DesktopEntry, action: Seq<char>, m: Match) -> bool {
    &&& is_bare(item)
    &&& item.identifier@ == app.id@ + ":"@ + action
    &&& item.text@ == app.name@ + ": "@ + action
    &&& item.subtext@.len() == 0
    &&& item.icon@ == app.icon@
    &&& item.score == wrapped(m.score + 10_000)
    &&& is_found(item, m)
}

/// Whether an action of an application matches.
pub open spec fn action_matches(app: DesktopEntry, i: int, query: Seq<char>, exact: bool) -> bool {
    match_of(query, lower_of(app.actions.entries@[i].0@), exact) is Some
}

/// The indices, below `n`, of the actions of an application that match. Where nothing is searched
/// no action is listed.
pub open spec fn matching_actions(app: DesktopEntry, n: nat, searching: bool, query: Seq<char>, exact: bool) -> Seq<
    int,
>
    decreases n,
{
    if n == 0 || !searching {
        Seq::empty()
    } else if action_matches(app, n - 1, query, exact) {
        matching_actions(app, (n - 1) as nat, searching, query, exact).push(n - 1)
    } else {
        matching_actions(app, (n - 1) as nat, searching, query, exact)
    }
}

/// Whether the items are those of actions of an application.
pub open spec fn are_action_items(
    items: Seq<Item>,
    app: DesktopEntry,
    found: Seq<int>,
    query: Seq<char>,
    exact: bool,
) -> bool {
    &&& items.len() == found.len()
    &&& forall|k: int|
        0 <= k < items.len() ==> is_action_item(
            #[trigger] items[k],
            app,
            app.actions.entries@[found[k]].0@,
            match_of(query, lower_of(app.actions.entries@[found[k]].0@), exact)->0,
        )
}

/// Whether the items are what an application gives: itself where it matches, and then its actions
/// that match.
pub open spec fn is_group(
    items: Seq<Item>,
    app: DesktopEntry,
    searching: bool,
    query: Seq<char>,
    exact: bool,
) -> bool {
    let found = matching_actions(app, app.actions.entries@.len(), searching, query, exact);
    match match_of(query, app.search@, exact) {
        Some(m) => {
            &&& items.len() == found.len() + 1
            &&& is_app_item(items[0], app, query, m)
            &&& are_action_items(items.drop_first(), app, found, query, exact)
        },
        None => are_action_items(items, app, found, query, exact),
    }
}

/// How many items an application gives.
pub open spec fn group_size(app: DesktopEntry, searching: bool, query: Seq<char>, exact: bool) -> nat {
    matching_actions(app, app.actions.entries@.len(), searching, query, exact).len() + (
    if match_of(query, app.search@, exact) is Some {
        1nat
    } else {
        0
    })
}

/// How many items some applications give.
pub open spec fn groups_size(apps: Seq<DesktopEntry>, searching: bool, query: Seq<char>, exact: bool) -> nat
    decreases apps.len(),
{
    if apps.len() == 0 {
        0
    } else {
        groups_size(apps.drop_last(), searching, query, exact) + group_size(
            apps.last(),
            searching,
            query,
            exact,
        )
    }
}

/// Whether these are the applications and actions that match a query, the best first and not more than
/// the limit.
pub open spec fn are_results(
    r: Seq<Item>,
    apps: Seq<DesktopEntry>,
    query: Seq<char>,
    limit: nat,
    exact: bool,
) -> bool {
    exists|items: Seq<Item>, searching: bool|
        #![trigger are_groups(items, apps, searching, lower_of(query), exact)]
        searching == (query.len() > 0) && are_groups(
            items,
            apps,
            searching,
            lower_of(query),
            exact,
        ) && is_top(items, r, limit)
}

/// Whether the items are what some applications give, one after the other.
pub open spec fn are_groups(
    items: Seq<Item>,
    apps: Seq<DesktopEntry>,
    searching: bool,
    query: Seq<char>,
    exact: bool,
) -> bool
    decreases apps.len(),
{
    if apps.len() == 0 {
        items.len() == 0
    } else {
        let n = groups_size(apps.drop_last(), searching, query, exact) as int;
        &&& items.len() == n + group_size(apps.last(), searching, query, exact)
        &&& are_groups(items.take(n), apps.drop_last(), searching, query, exact)
        &&& is_group(items.skip(n), apps.last(), searching, query, exact)
    }
}

/// What applications give is as many items as was counted.
proof fn groups_have_their_size(
    items: Seq<Item>,
    apps: Seq<DesktopEntry>,
    searching: bool,
    query: Seq<char>,
    exact: bool,
)
    requires
        are_groups(items, apps, searching, query, exact),
    ensures
        items.len() == groups_size(apps, searching, query, exact),
{
}

/// The items that an application gives.
fn app_group(app: &DesktopEntry, query: &str, query_lower: &str, exact: bool) -> (r: Vec<Item>)
    requires
        query_lower@ == lower_of(query@),
    ensures
        is_group(r@, *app, query@.len() > 0, query_lower@, exact),
{
    let ghost q = query_lower@;
    let mut out: Vec<Item> = Vec::new();
    match score_lower(query_lower, app.search.as_str(), exact, "text") {
        Some((points, info)) => {
            let mut item = Item::new("apps", app.id.as_str(), app.name.as_str());
            item.subtext = if app.generic_name.as_str().is_empty() {
                app.comment.clone()
            } else {
                app.generic_name.clone()
            };
            item.icon = app.icon.clone();
            item.actions = vec!["open".to_owned()];
            assert(texts(item.actions@) =~= seq!["open"@]);
            let bonus: i32 = app_name_bonus(query_lower, app.name.as_str());
            item.score = wrapping_sum(points, 20_000 + bonus);
            item.fuzzyinfo = Some(info);
            out.push(item);
        },
        None => {},
    }
    let ghost first = out@;
    if query.is_empty() {
        assert(first.len() == 1 ==> first.drop_first() =~= Seq::empty());
        return out;
    }
    let ghost mut acts: Seq<Item> = Seq::empty();
    let ghost mut found: Seq<int> = Seq::empty();
    let mut i: usize = 0;
    assert(first + acts =~= first);
    while i < app.actions.entries.len()
        invariant
            q == query_lower@,
            query_lower@ == lower_of(query@),
            i <= app.actions.entries@.len(),
            found == matching_actions(*app, i as nat, true, q, exact),
            out@ == first + acts,
            are_action_items(acts, *app, found, q, exact),
        decreases app.actions.entries.len() - i,
    {
        let action = app.actions.entries[i].0.as_str();
        match score(query, action, exact, "text") {
            Some((points, info)) => {
                let mut id = app.id.clone();
                id.append(":");
                id.append(action);
                let mut title = app.name.clone();
                title.append(": ");
                title.append(action);
                let mut item = Item::new("apps", id.as_str(), title.as_str());
                item.icon = app.icon.clone();
                item.actions = vec!["open".to_owned()];
                assert(texts(item.actions@) =~= seq!["open"@]);
                item.score = wrapping_sum(points, 10_000);
                item.fuzzyinfo = Some(info);
                out.push(item);
                proof {
                    acts = acts.push(item);
                    found = found.push(i as int);
                    assert(out@ =~= first + acts);
                }
            },
            None => {},
        }
        i += 1;
    }
    assert(first.len() == 1 ==> out@.drop_first() =~= acts);
    assert(first.len() == 0 ==> out@ =~= acts);
    out
}

/// What the identifier of an application and perhaps one of its actions runs.
pub open spec fn command_of(app: DesktopEntry, identifier: Seq<char>) -> Seq<char> {
    if first_of(identifier, ':') < identifier.len() && app.actions@.dom().contains(
        after_first(identifier, ':'),
    ) {
        app.actions@[after_first(identifier, ':')]@
    } else {
        app.command@
    }
}

/// The index of the application with that id, or the number of applications.
pub open spec fn app_index(apps: Seq<DesktopEntry>, id: Seq<char>) -> int
    decreases apps.len(),
{
    if apps.len() == 0 || apps[0].id@ == id {
        0
    } else {
        1 + app_index(apps.drop_first(), id)
    }
}

/// What carrying out an action on an application comes to.
pub open spec fn is_opened(
    r: Result<String, String>,
    apps: Seq<DesktopEntry>,
    prefix: Seq<char>,
    identifier: Seq<char>,
    action: Seq<char>,
) -> bool {
    let i = app_index(apps, before_first(identifier, ':'));
    if action != "open"@ {
        r matches Err(m) && m@ == "unsupported apps action: "@ + action
    } else if i >= apps.len() {
        r matches Err(m) && m@ == "app not found"@
    } else {
        let command = command_of(apps[i], identifier);
        r matches Ok(line) && line@ == (if prefix.len() == 0 {
            command
        } else {
            prefix + " "@ + command
        })
    }
}

impl AppsProvider {
    /// The applications that are offered of those that were read.
    pub fn new(launch_prefix: String, desktops: &Vec<String>, parsed: Vec<DesktopEntry>) -> (r:
        AppsProvider)
        ensures
            r.launch_prefix == launch_prefix,
            r.apps@ == offered(parsed@, desktops@),
    {
        let ghost all = parsed@;
        let mut out: Vec<DesktopEntry> = Vec::new();
        assert(all.take(0) =~= Seq::empty());
        for app in it: parsed
            invariant
                it.seq() == all,
                out@ == offered(all.take(it.index() as int), desktops@),
        {
            let ghost i = it.index() as int;
            assert(all.take(i + 1).drop_last() =~= all.take(i));
            assert(all.take(i + 1).last() == app);
            if !app.name.as_str().is_empty() && visible(&app, desktops) {
                let mut known = false;
                let mut k: usize = 0;
                while k < out.len() && !known
                    invariant
                        k <= out@.len(),
                        known ==> has_id(out@, app.id@),
                        !known ==> forall|j: int| 0 <= j < k ==> (#[trigger] out@[j]).id@ != app.id@,
                    decreases out.len() - k,
                {
                    if same(out[k].id.as_str(), app.id.as_str()) {
                        known = true;
                    }
                    k += 1;
                }
                if !known {
                    out.push(app);
                }
            }
        }
        assert(all.take(all.len() as int) =~= all);
        AppsProvider { apps: out, launch_prefix }
    }

    /// The icons by window class.
    pub fn wm_class_icons(&self) -> (r: TextMap<String>)
        ensures
            r.wf(),
            r@ == class_icons(self.apps@),
    {
        let mut out: TextMap<String> = TextMap::new();
        let mut i: usize = 0;
        assert(self.apps@.take(0) =~= Seq::empty());
        while i < self.apps.len()
            invariant
                i <= self.apps@.len(),
                out.wf(),
                out@ == class_icons(self.apps@.take(i as int)),
            decreases self.apps.len() - i,
        {
            assert(self.apps@.take(i + 1).drop_last() =~= self.apps@.take(i as int));
            let app = &self.apps[i];
            if !app.icon.as_str().is_empty() {
                let key = if app.startup_wm_class.as_str().is_empty() {
                    strip_suffixes(app.id.as_str(), ".desktop")
                } else {
                    app.startup_wm_class.clone()
                };
                out.insert(lowercase(key.as_str()), app.icon.clone());
            }
            i += 1;
        }
        assert(self.apps@.take(i as int) =~= self.apps@);
        out
    }

    /// The applications and actions that match a query, the best first and not more than the limit.
    pub fn query(&self, query: &str, limit: usize, exact: bool) -> (r: Vec<Item>)
        ensures
            are_results(r@, self.apps@, query@, limit as nat, exact),
    {
        let lower = lowercase(query);
        let ghost q = lower@;
        let ghost searching = query@.len() > 0;
        let mut out: Vec<Item> = Vec::new();
        let mut i: usize = 0;
        assert(self.apps@.take(0) =~= Seq::empty());
        while i < self.apps.len()
            invariant
                q == lower@,
                q == lower_of(query@),
                searching == (query@.len() > 0),
                i <= self.apps@.len(),
                are_groups(out@, self.apps@.take(i as int), searching, q, exact),
            decreases self.apps.len() - i,
        {
            let ghost front = self.apps@.take(i as int);
            let ghost now = self.apps@.take(i + 1);
            assert(now.drop_last() =~= front);
            proof {
                groups_have_their_size(out@, front, searching, q, exact);
            }
            let ghost before = out@;
            let mut group = app_group(&self.apps[i], query, lower.as_str(), exact);
            let ghost g = group@;
            out.append(&mut group);
            proof {
                let n = groups_size(front, searching, q, exact) as int;
                assert(out@ =~= before + g);
                assert(out@.take(n) =~= before);
                assert(out@.skip(n) =~= g);
            }
            i += 1;
        }
        assert(self.apps@.take(i as int) =~= self.apps@);
        assert(are_groups(out@, self.apps@, searching, lower_of(query@), exact));
        top_items(out, limit)
    }

    /// The index of an application.
    fn locate(&self, id: &str) -> (r: usize)
        ensures
            r == app_index(self.apps@, id@),
            r <= self.apps@.len(),
    {
        let mut i: usize = 0;
        assert(self.apps@.skip(0) =~= self.apps@);
        while i < self.apps.len()
            invariant
                i <= self.apps@.len(),
                app_index(self.apps@, id@) == i + app_index(self.apps@.skip(i as int), id@),
            decreases self.apps.len() - i,
        {
            assert(self.apps@.skip(i as int).drop_first() =~= self.apps@.skip(i + 1));
            if same(self.apps[i].id.as_str(), id) {
                return i;
            }
            i += 1;
        }
        i
    }

    /// The line that opens an application or one of its actions.
    pub fn activate(&self, identifier: &str, action: &str) -> (r: Result<String, String>)
        ensures
            is_opened(r, self.apps@, self.launch_prefix@, identifier@, action@),
    {
        if !same(action, "open") {
            let mut message = "unsupported apps action: ".to_owned();
            message.append(action);
            return Err(message);
        }
        let (id, desktop_action) = split_first(identifier, ':');
        let i: usize = self.locate(id.as_str());
        if i >= self.apps.len() {
            return Err("app not found".to_owned());
        }
        let app = &self.apps[i];
        let command = match &desktop_action {
            Some(name) => match app.actions.get(name.as_str()) {
                Some(c) => c.clone(),
                None => app.command.clone(),
            },
            None => app.command.clone(),
        };
        if self.launch_prefix.as_str().is_empty() {
            return Ok(command);
        }
        let mut line = self.launch_prefix.clone();
        line.append(" ");
        line.append(command.as_str());
        Ok(line)
    }

    /// How the provider describes itself.
    pub fn capability(&self) -> (r: ProviderCapability)
        ensures
            r.name@ == "apps"@,
            r.name_pretty@ == "Desktop Applications"@,
            r.description@ == "Search and launch desktop applications"@,
            r.icon@.len() == 0,
            r.prefixes@.len() == 0,
            r.actions.wf(),
            r.actions@.dom() == set!["open"@],
            r.actions@["open"@].is_plain("Open"@),
            r.supports_query && r.supports_activate && r.supports_streaming,
            !r.supports_subscriptions && !r.emits_events,
    {
        let mut r = crate::providers::default_capability("apps", "Desktop Applications");
        r.description = "Search and launch desktop applications".to_owned();
        r
    }
}

/// The directories under which applications can be described, in the order in which they count:
/// the user's own, those of the variable, those of profiles, and those of the system.
pub open spec fn data_dirs_of(
    data_home: Option<Seq<char>>,
    variable: Option<Seq<char>>,
    home: Option<Seq<char>>,
) -> Seq<Seq<char>> {
    (match data_home {
        Some(dir) => seq![dir],
        None => Seq::empty(),
    }) + (match variable {
        Some(dirs) => split_on(dirs, ':').filter(|d: Seq<char>| d.len() > 0),
        None => Seq::empty(),
    }) + (match home {
        Some(dir) => seq![joined_path(dir, ".nix-profile/share"@)] + (match file_name_of(dir) {
            Some(user) => seq![
                joined_path(joined_path("/etc/profiles/per-user"@, user), "share"@),
            ],
            None => Seq::empty(),
        }),
        None => Seq::empty(),
    }) + seq![
        "/run/current-system/sw/share"@,
        "/nix/var/nix/profiles/default/share"@,
        "/usr/local/share"@,
        "/usr/share"@,
    ]
}

/// The directories in which applications are described, each once.
pub open spec fn application_dirs_of(bases: Seq<Seq<char>>) -> Seq<Seq<char>> {
    distinct_paths(bases.map_values(|b: Seq<char>| joined_path(b, "applications"@)))
}

/// The paths, each once and where it first stands. Paths with the same components are the same.
pub open spec fn distinct_paths(paths: Seq<Seq<char>>) -> Seq<Seq<char>>
    decreases paths.len(),
{
    if paths.len() == 0 {
        Seq::empty()
    } else {
        let before = distinct_paths(paths.drop_last());
        if has_path(before, paths.last()) {
            before
        } else {
            before.push(paths.last())
        }
    }
}

/// Whether a path is in a list.
pub open spec fn has_path(paths: Seq<Seq<char>>, path: Seq<char>) -> bool {
    exists|i: int|
        0 <= i < paths.len() && crate::path::components_of(#[trigger] paths[i])
            == crate::path::components_of(path)
}

/// Whether two paths have the same components.
fn same_path(a: &str, b: &str) -> (r: bool)
    ensures
        r == (crate::path::components_of(a@) == crate::path::components_of(b@)),
{
    let x = crate::path::components(a);
    let y = crate::path::components(b);
    let ghost p = texts(x@);
    let ghost q = texts(y@);
    if x.len() != y.len() {
        assert(p.len() != q.len());
        return false;
    }
    let mut i: usize = 0;
    while i < x.len()
        invariant
            p == texts(x@),
            q == texts(y@),
            p == crate::path::components_of(a@),
            q == crate::path::components_of(b@),
            x@.len() == y@.len(),
            i <= x@.len(),
            forall|k: int| 0 <= k < i ==> p[k] == q[k],
        decreases x.len() - i,
    {
        assert(p[i as int] == x@[i as int]@ && q[i as int] == y@[i as int]@);
        if !same(x[i].as_str(), y[i].as_str()) {
            return false;
        }
        i += 1;
    }
    assert(p =~= q);
    true
}

/// The directories in which applications can be described. A service can have an environment in
/// which the variable is not set, so the usual places are looked at in any case.
pub fn application_dirs(data_home: Option<&str>, variable: Option<&str>, home: Option<&str>) -> (r: Vec<
    String,
>)
    ensures
        texts(r@) == application_dirs_of(
            data_dirs_of(maybe(data_home), maybe(variable), maybe(home)),
        ),
{
    let mut bases: Vec<String> = Vec::new();
    let ghost a = match maybe(data_home) {
        Some(dir) => seq![dir],
        None => Seq::empty(),
    };
    if let Some(dir) = data_home {
        bases.push(dir.to_owned());
    }
    assert(texts(bases@) =~= a);
    let ghost b = match maybe(variable) {
        Some(dirs) => split_on(dirs, ':').filter(|d: Seq<char>| d.len() > 0),
        None => Seq::empty(),
    };
    if let Some(dirs) = variable {
        let parts = split(dirs, ':');
        let ghost all = texts(parts@);
        let ghost keep = |d: Seq<char>| d.len() > 0;
        let mut i: usize = 0;
        reveal(Seq::filter);
        assert(all.take(0).filter(keep) =~= Seq::empty());
        assert(a + Seq::<Seq<char>>::empty() =~= a);
        while i < parts.len()
            invariant
                all == texts(parts@),
                keep == (|d: Seq<char>| d.len() > 0),
                i <= parts@.len(),
                texts(bases@) == a + all.take(i as int).filter(keep),
            decreases parts.len() - i,
        {
            reveal(Seq::filter);
            assert(all.take(i + 1).drop_last() =~= all.take(i as int));
            assert(all.take(i + 1).last() == parts@[i as int]@);
            if !parts[i].as_str().is_empty() {
                let ghost before = texts(bases@);
                bases.push(parts[i].clone());
                assert(texts(bases@) =~= before.push(parts@[i as int]@));
                assert(texts(bases@) =~= a + all.take(i + 1).filter(keep));
            }
            i += 1;
        }
        assert(all.take(i as int) =~= all);
    }
    assert(texts(bases@) =~= a + b);
    let ghost c = match maybe(home) {
        Some(dir) => seq![joined_path(dir, ".nix-profile/share"@)] + (match file_name_of(dir) {
            Some(user) => seq![
                joined_path(joined_path("/etc/profiles/per-user"@, user), "share"@),
            ],
            None => Seq::empty(),
        }),
        None => Seq::empty(),
    };
    if let Some(dir) = home {
        bases.push(join_path(dir, ".nix-profile/share"));
        if let Some(user) = file_name(dir) {
            let profile = join_path("/etc/profiles/per-user", user.as_str());
            bases.push(join_path(profile.as_str(), "share"));
        }
    }
    assert(texts(bases@) =~= a + b + c);
    bases.push("/run/current-system/sw/share".to_owned());
    bases.push("/nix/var/nix/profiles/default/share".to_owned());
    bases.push("/usr/local/share".to_owned());
    bases.push("/usr/share".to_owned());
    let ghost all = texts(bases@);
    assert(all =~= data_dirs_of(maybe(data_home), maybe(variable), maybe(home)));
    let ghost dirs = all.map_values(|b: Seq<char>| joined_path(b, "applications"@));
    let mut out: Vec<String> = Vec::new();
    let mut i: usize = 0;
    assert(dirs.take(0) =~= Seq::empty());
    assert(texts(out@) =~= Seq::empty());
    while i < bases.len()
        invariant
            all == texts(bases@),
            dirs == all.map_values(|b: Seq<char>| joined_path(b, "applications"@)),
            i <= bases@.len(),
            texts(out@) == distinct_paths(dirs.take(i as int)),
        decreases bases.len() - i,
    {
        let dir = join_path(bases[i].as_str(), "applications");
        assert(dirs.take(i + 1).drop_last() =~= dirs.take(i as int));
        assert(dirs.take(i + 1).last() == dir@);
        let ghost before = texts(out@);
        let mut known = false;
        let mut k: usize = 0;
        while k < out.len() && !known
            invariant
                k <= out@.len(),
                before == texts(out@),
                known ==> has_path(before, dir@),
                !known ==> forall|j: int|
                    0 <= j < k ==> crate::path::components_of(#[trigger] before[j])
                        != crate::path::components_of(dir@),
            decreases out.len() - k,
        {
            assert(before[k as int] == out@[k as int]@);
            if same_path(out[k].as_str(), dir.as_str()) {
                known = true;
            }
            k += 1;
        }
        assert(before.len() == out@.len());
        if !known {
            out.push(dir);
            assert(texts(out@) =~= before.push(dir@));
        }
        i += 1;
    }
    assert(dirs.take(i as int) =~= dirs);
    out
}

/// The first application of an id is found.
proof fn app_index_finds(apps: Seq<DesktopEntry>, id: Seq<char>, k: int)
    requires
        0 <= k < apps.len(),
        apps[k].id@ == id,
        forall|j: int| 0 <= j < k ==> (#[trigger] apps[j]).id@ != id,
    ensures
        app_index(apps, id) == k,
    decreases k,
{
    if k > 0 {
        assert(apps[0].id@ != id);
        let rest = apps.drop_first();
        assert forall|j: int| 0 <= j < k - 1 implies (#[trigger] rest[j]).id@ != id by {
            assert(rest[j] == apps[j + 1]);
        }
        app_index_finds(rest, id, k - 1);
    }
}

/// What is listed is what is opened: the result of an application opens it with its own command, and
/// that of an action with the command of the action, behind whatever applications are launched with.
pub proof fn a_result_opens_what_it_names(
    item: Item,
    apps: Seq<DesktopEntry>,
    k: int,
    action: Seq<char>,
    query: Seq<char>,
    m: Match,
    prefix: Seq<char>,
    r: Result<String, String>,
)
    requires
        0 <= k < apps.len(),
        forall|j: int| 0 <= j < k ==> (#[trigger] apps[j]).id@ != apps[k].id@,
        forall|i: int| 0 <= i < apps[k].id@.len() ==> apps[k].id@[i] != ':',
        is_opened(r, apps, prefix, item.identifier@, "open"@),
    ensures
        is_app_item(item, apps[k], query, m) ==> (r matches Ok(line) && line@ == (if prefix.len()
            > 0 {
            prefix + " "@ + apps[k].command@
        } else {
            apps[k].command@
        })),
        is_action_item(item, apps[k], action, m) && apps[k].actions@.dom().contains(action) ==> (
        r matches Ok(line) && line@ == (if prefix.len() > 0 {
            prefix + " "@ + apps[k].actions@[action]@
        } else {
            apps[k].actions@[action]@
        })),
{
    let id = apps[k].id@;
    reveal_strlit(":");
    assert(":"@ =~= seq![':']);
    a_text_is_cut_at_the_first(id, ':', action);
    first_of_is_unique(id, ':', id.len() as int);
    first_of_is_unique(id + seq![':'] + action, ':', id.len() as int);
    app_index_finds(apps, id, k);
}

/// Only `open` is an action of applications.
pub proof fn applications_are_only_opened(
    apps: Seq<DesktopEntry>,
    prefix: Seq<char>,
    identifier: Seq<char>,
    action: Seq<char>,
    r: Result<String, String>,
)
    requires
        is_opened(r, apps, prefix, identifier, action),
    ensures
        action != "open"@ ==> r is Err,
        (forall|j: int|
            0 <= j < apps.len() ==> (#[trigger] apps[j]).id@ != before_first(identifier, ':'))
            ==> r is Err,
{
    let id = before_first(identifier, ':');
    app_index_is_of(apps, id);
}

/// Where an index is found an application has the id.
proof fn app_index_is_of(apps: Seq<DesktopEntry>, id: Seq<char>)
    ensures
        0 <= app_index(apps, id) <= apps.len(),
        app_index(apps, id) < apps.len() ==> apps[app_index(apps, id)].id@ == id,
    decreases apps.len(),
{
    if apps.len() > 0 && apps[0].id@ != id {
        app_index_is_of(apps.drop_first(), id);
    }
}

/// What is hidden or has no name is not offered, no id is offered twice, and what is shown is offered
/// unless one with its id stands before it.
pub proof fn what_is_shown_is_offered(parsed: Seq<DesktopEntry>, desktops: Seq<String>)
    ensures
        forall|i: int|
            0 <= i < offered(parsed, desktops).len() ==> !(#[trigger] offered(
                parsed,
                desktops,
            )[i]).hidden && !offered(parsed, desktops)[i].no_display && offered(
                parsed,
                desktops,
            )[i].name@.len() > 0 && parsed.contains(offered(parsed, desktops)[i]),
        forall|i: int, j: int|
            0 <= i < j < offered(parsed, desktops).len() ==> (#[trigger] offered(
                parsed,
                desktops,
            )[i]).id@ != (#[trigger] offered(parsed, desktops)[j]).id@,
        forall|k: int|
            0 <= k < parsed.len() && (#[trigger] parsed[k]).name@.len() > 0 && is_visible(
                parsed[k],
                desktops,
            ) ==> has_id(offered(parsed, desktops), parsed[k].id@),
    decreases parsed.len(),
{
    if parsed.len() > 0 {
        let front = parsed.drop_last();
        what_is_shown_is_offered(front, desktops);
        let before = offered(front, desktops);
        let all = offered(parsed, desktops);
        let last = parsed.last();
        assert forall|i: int| 0 <= i < all.len() implies !(#[trigger] all[i]).hidden
            && !all[i].no_display && all[i].name@.len() > 0 && parsed.contains(all[i]) by {
            if i < before.len() {
                assert(all[i] == before[i]);
                let x = choose|x: int| 0 <= x < front.len() && front[x] == before[i];
                assert(parsed[x] == all[i]);
            } else {
                assert(parsed[parsed.len() - 1] == all[i]);
            }
        }
        assert forall|i: int, j: int| 0 <= i < j < all.len() implies (#[trigger] all[i]).id@ != (
        #[trigger] all[j]).id@ by {
            assert(all[i] == before[i]);
            if j < before.len() {
                assert(all[j] == before[j]);
            }
        }
        assert forall|k: int|
            0 <= k < parsed.len() && (#[trigger] parsed[k]).name@.len() > 0 && is_visible(
                parsed[k],
                desktops,
            ) implies has_id(all, parsed[k].id@) by {
            if k < front.len() {
                assert(front[k] == parsed[k]);
                let x = choose|x: int|
                    0 <= x < before.len() && (#[trigger] before[x]).id@ == parsed[k].id@;
                assert(all[x].id@ == parsed[k].id@);
            } else if has_id(before, last.id@) {
                let x = choose|x: int|
                    0 <= x < before.len() && (#[trigger] before[x]).id@ == last.id@;
                assert(all[x].id@ == last.id@);
            } else {
                assert(all[before.len() as int].id@ == last.id@);
            }
        }
    }
}

/// An application is shown where it is said to be: one that is only for some desktops on one of them,
/// one that is not for some on none of them, and all others everywhere.
pub proof fn an_application_is_shown_where_it_belongs(app: DesktopEntry, desktops: Seq<String>, k: int)
    requires
        !app.hidden && !app.no_display,
    ensures
        app.only_show_in@.len() == 0 && app.not_show_in@.len() == 0 ==> is_visible(app, desktops),
        0 <= k < app.not_show_in@.len() && is_in(desktops, app.not_show_in@[k]@) ==> !is_visible(
            app,
            desktops,
        ),
        app.not_show_in@.len() == 0 && 0 <= k < app.only_show_in@.len() && is_in(
            desktops,
            app.only_show_in@[k]@,
        ) ==> is_visible(app, desktops),
        app.only_show_in@.len() > 0 && desktops.len() == 0 ==> !is_visible(app, desktops),
{
}

/// A line of the entry that sets a key is a setting of it: what stands before the first equals sign is
/// the key, and what stands after it the value.
pub proof fn a_line_sets_its_key(
    lines: Seq<Seq<char>>,
    line: Seq<char>,
    key: Seq<char>,
    value: Seq<char>,
)
    requires
        section_after(lines) is Entry,
        trim_of(line) == key + "="@ + value,
        key.len() > 0,
        key[0] != '#' && key[0] != '[',
        forall|i: int| 0 <= i < key.len() ==> key[i] != '=',
    ensures
        entry_settings(lines.push(line)) == entry_settings(lines).push((key, value)),
        section_after(lines.push(line)) is Entry,
        action_commands(lines.push(line)) == action_commands(lines),
{
    reveal_strlit("=");
    reveal_strlit("#");
    reveal_strlit("[Desktop Entry]");
    reveal_strlit("[Desktop Action ");
    assert("="@ =~= seq!['=']);
    let l = trim_of(line);
    a_text_is_cut_at_the_first(key, '=', value);
    first_of_is_unique(l, '=', key.len() as int);
    assert(l[0] == key[0]);
    if begins_with(l, "#"@) {
        assert(l.subrange(0, 1)[0] == '#');
    }
    assert("[Desktop Entry]"@[0] == '[');
    if begins_with(l, "[Desktop Action "@) {
        assert(l.subrange(0, "[Desktop Action "@.len() as int)[0] == '[');
    }
    let all = lines.push(line);
    assert(all.drop_last() =~= lines);
    assert(all.last() == line);
}

/// The header of the entry begins it, and the header of an action begins the part of that action,
/// whose command is that of the action.
pub proof fn a_header_begins_its_part(lines: Seq<Seq<char>>, name: Seq<char>, value: Seq<char>)
    requires
        trim_of("[Desktop Action "@ + name + "]"@) == "[Desktop Action "@ + name + "]"@,
        trim_of("Exec="@ + value) == "Exec="@ + value,
        trim_of("[Desktop Entry]"@) == "[Desktop Entry]"@,
    ensures
        section_after(lines.push("[Desktop Entry]"@)) is Entry,
        section_after(lines.push("[Desktop Action "@ + name + "]"@)) == Section::Action(name),
        action_commands(
            lines.push("[Desktop Action "@ + name + "]"@).push("Exec="@ + value),
        ).dom().contains(name),
        action_commands(lines.push("[Desktop Action "@ + name + "]"@).push("Exec="@ + value))[name]
            == trim_of(without_codes(value, 15)),
{
    reveal_strlit("[Desktop Entry]");
    reveal_strlit("[Desktop Action ");
    reveal_strlit("]");
    reveal_strlit("#");
    reveal_strlit("Exec=");
    reveal_strlit("Exec");
    let head = "[Desktop Action "@ + name + "]"@;
    let one = lines.push("[Desktop Entry]"@);
    assert(one.drop_last() =~= lines && one.last() == "[Desktop Entry]"@);
    assert("[Desktop Entry]"@[0] == '[');
    if begins_with("[Desktop Entry]"@, "#"@) {
        assert("[Desktop Entry]"@.subrange(0, 1)[0] == '#');
    }
    let two = lines.push(head);
    assert(two.drop_last() =~= lines && two.last() == head);
    assert(head[0] == '[');
    if begins_with(head, "#"@) {
        assert(head.subrange(0, 1)[0] == '#');
    }
    assert(head[9] == 'A' && "[Desktop Entry]"@[9] == 'E');
    assert(head.subrange(0, 16) =~= "[Desktop Action "@);
    let rest = head.skip(16);
    assert(rest =~= name + "]"@);
    assert(rest.subrange(rest.len() - 1, rest.len() as int) =~= "]"@);
    assert(rest.take(rest.len() - 1) =~= name);
    let line = "Exec="@ + value;
    let three = two.push(line);
    assert(three.drop_last() =~= two && three.last() == line);
    assert("Exec="@ =~= "Exec"@ + seq!['=']);
    assert(line =~= "Exec"@ + seq!['='] + value);
    assert("Exec"@ =~= seq!['E', 'x', 'e', 'c']);
    a_text_is_cut_at_the_first("Exec"@, '=', value);
    first_of_is_unique(line, '=', 4);
    assert(line[0] == 'E');
    if begins_with(line, "#"@) {
        assert(line.subrange(0, 1)[0] == '#');
    }
    if begins_with(line, "[Desktop Action "@) {
        assert(line.subrange(0, 16)[0] == '[');
    }
}

/// An entry has what its settings say: where a key stands once, what it is set to is what the entry
/// has.
pub proof fn an_entry_has_what_is_set(
    entry: DesktopEntry,
    id: Seq<char>,
    lines: Seq<Seq<char>>,
    k: int,
)
    requires
        is_parsed(entry, id, lines),
        0 <= k < entry_settings(lines).len(),
        forall|j: int|
            0 <= j < entry_settings(lines).len() && j != k ==> (#[trigger] entry_settings(
                lines,
            )[j]).0 != entry_settings(lines)[k].0,
    ensures
        entry.id@ == id,
        entry_settings(lines)[k].0 == "Name"@ ==> entry.name@ == entry_settings(lines)[k].1,
        entry_settings(lines)[k].0 == "GenericName"@ ==> entry.generic_name@ == entry_settings(
            lines,
        )[k].1,
        entry_settings(lines)[k].0 == "Comment"@ ==> entry.comment@ == entry_settings(lines)[k].1,
        entry_settings(lines)[k].0 == "Icon"@ ==> entry.icon@ == entry_settings(lines)[k].1,
        entry_settings(lines)[k].0 == "Exec"@ ==> entry.command@ == trim_of(
            without_codes(entry_settings(lines)[k].1, 15),
        ),
        entry_settings(lines)[k].0 == "StartupWMClass"@ ==> entry.startup_wm_class@
            == entry_settings(lines)[k].1,
        entry_settings(lines)[k] == ("NoDisplay"@, "true"@) ==> entry.no_display,
        entry_settings(lines)[k] == ("Hidden"@, "true"@) ==> entry.hidden,
        entry_settings(lines)[k] == ("Terminal"@, "true"@) ==> entry.terminal,
        entry_settings(lines)[k].0 == "OnlyShowIn"@ ==> texts(entry.only_show_in@) == split_on(
            entry_settings(lines)[k].1,
            ';',
        ).filter(|p: Seq<char>| p.len() > 0),
        entry_settings(lines)[k].0 == "NotShowIn"@ ==> texts(entry.not_show_in@) == split_on(
            entry_settings(lines)[k].1,
            ';',
        ).filter(|p: Seq<char>| p.len() > 0),
        entry_settings(lines)[k].0 == "Keywords"@ ==> texts(entry.keywords@) == split_on(
            entry_settings(lines)[k].1,
            ';',
        ).filter(|p: Seq<char>| p.len() > 0),
{
    let s = entry_settings(lines);
    last_value_is_last(s, s[k].0, k);
    first_value_is_found(s, s[k].0, k);
}

/// A value that stands once is the first.
proof fn first_value_is_found(pairs: Seq<(Seq<char>, Seq<char>)>, key: Seq<char>, k: int)
    requires
        forall|j: int| 0 <= j < pairs.len() && j != k ==> (#[trigger] pairs[j]).0 != key,
        0 <= k < pairs.len() ==> pairs[k].0 == key,
    ensures
        first_value(pairs, key) == if 0 <= k < pairs.len() {
            pairs[k].1
        } else {
            Seq::empty()
        },
    decreases pairs.len(),
{
    if pairs.len() > 0 {
        let front = pairs.drop_last();
        assert forall|j: int| 0 <= j < front.len() && j != k implies (#[trigger] front[j]).0
            != key by {
            assert(front[j] == pairs[j]);
        }
        first_value_is_found(front, key, k);
        if k != pairs.len() - 1 {
            assert(pairs[pairs.len() - 1].0 != key);
        }
    }
}

/// A command holds no code after it was cleaned, and one that held none is as it was.
pub proof fn a_clean_command_holds_no_code(s: Seq<char>)
    ensures
        forall|i: int| 0 <= i < without_codes(s, 15).len() ==> without_codes(s, 15)[i] != '%',
        (forall|i: int| 0 <= i < s.len() ==> s[i] != '%') ==> without_codes(s, 15) == s,
{
    reveal_strlit("%");
    assert("%"@ =~= seq!['%']);
    assert(field_codes()[14] == "%"@);
    replacing_changes_what_it_finds(without_codes(s, 14), "%"@);
    if forall|i: int| 0 <= i < s.len() ==> s[i] != '%' {
        nothing_is_taken_out(s, 15);
    }
}

/// Codes that are not there are not taken out.
proof fn nothing_is_taken_out(s: Seq<char>, n: nat)
    requires
        n <= 15,
        forall|i: int| 0 <= i < s.len() ==> s[i] != '%',
    ensures
        without_codes(s, n) == s,
    decreases n,
{
    if n > 0 {
        nothing_is_taken_out(s, (n - 1) as nat);
        codes_begin_alike(n - 1);
        replacing_changes_what_it_finds(s, field_codes()[n - 1]);
    }
}

/// Every code begins with a percent sign.
proof fn codes_begin_alike(k: int)
    requires
        0 <= k < 15,
    ensures
        field_codes()[k].len() > 0,
        field_codes()[k][0] == '%',
{
    reveal_strlit("%f");
    reveal_strlit("%F");
    reveal_strlit("%u");
    reveal_strlit("%U");
    reveal_strlit("%d");
    reveal_strlit("%D");
    reveal_strlit("%n");
    reveal_strlit("%N");
    reveal_strlit("%i");
    reveal_strlit("%c");
    reveal_strlit("%k");
    reveal_strlit("%v");
    reveal_strlit("%m");
    reveal_strlit("%%");
    reveal_strlit("%");
}

/// A name that begins with the query counts for more than one that holds it further on, and that for
/// more than one that does not hold it.
pub proof fn a_name_that_begins_with_the_query_counts_for_more(
    query: Seq<char>,
    begins: Seq<char>,
    holds: Seq<char>,
    lacks: Seq<char>,
    at: int,
)
    requires
        query.len() > 0,
        crate::bytes::bytes_at(encode_utf8(lower_of(begins)), encode_utf8(query), 0),
        at > 0,
        crate::bytes::bytes_at(encode_utf8(lower_of(holds)), encode_utf8(query), at),
        !crate::bytes::bytes_at(encode_utf8(lower_of(holds)), encode_utf8(query), 0),
        forall|i: int| !crate::bytes::bytes_at(encode_utf8(lower_of(lacks)), encode_utf8(query), i),
    ensures
        name_bonus(query, begins) > name_bonus(query, holds),
        name_bonus(query, holds) > name_bonus(query, lacks),
        name_bonus(query, lacks) == 0,
{
    crate::bytes::first_bytes_is_first(encode_utf8(lower_of(begins)), encode_utf8(query));
    crate::bytes::first_bytes_is_first(encode_utf8(lower_of(holds)), encode_utf8(query));
    crate::bytes::first_bytes_is_first(encode_utf8(lower_of(lacks)), encode_utf8(query));
}

/// The icon of a window is that of the last application that has its class, or is called so.
pub proof fn a_class_has_the_icon_of_its_application(apps: Seq<DesktopEntry>, k: int)
    requires
        0 <= k < apps.len(),
        apps[k].icon@.len() > 0,
        forall|j: int|
            k < j < apps.len() && (#[trigger] apps[j]).icon@.len() > 0 ==> class_key(apps[j])
                != class_key(apps[k]),
    ensures
        class_icons(apps).dom().contains(class_key(apps[k])),
        class_icons(apps)[class_key(apps[k])] == apps[k].icon,
        apps[k].startup_wm_class@.len() > 0 ==> class_key(apps[k]) == lower_of(
            apps[k].startup_wm_class@,
        ),
    decreases apps.len(),
{
    if k < apps.len() - 1 {
        let front = apps.drop_last();
        assert forall|j: int| k < j < front.len() && (#[trigger] front[j]).icon@.len() > 0 implies
            class_key(front[j]) != class_key(front[k]) by {
            assert(front[j] == apps[j]);
        }
        a_class_has_the_icon_of_its_application(front, k);
        assert(apps[apps.len() - 1] == apps.last());
    }
}

/// The user's own applications are looked at first, and those of the system in any case.
pub proof fn own_applications_come_first(
    own: Seq<char>,
    variable: Option<Seq<char>>,
    home: Option<Seq<char>>,
)
    ensures
        application_dirs_of(data_dirs_of(Some(own), variable, home)).len() > 0,
        application_dirs_of(data_dirs_of(Some(own), variable, home))[0] == joined_path(
            own,
            "applications"@,
        ),
        has_path(
            application_dirs_of(data_dirs_of(Some(own), variable, home)),
            joined_path("/usr/share"@, "applications"@),
        ),
        has_path(
            application_dirs_of(data_dirs_of(None, variable, home)),
            joined_path("/usr/share"@, "applications"@),
        ),
{
    let with = data_dirs_of(Some(own), variable, home);
    let without = data_dirs_of(None, variable, home);
    assert(with[0] == own);
    assert(with.last() == "/usr/share"@);
    assert(without.last() == "/usr/share"@);
    let a = with.map_values(|b: Seq<char>| joined_path(b, "applications"@));
    let b = without.map_values(|b: Seq<char>| joined_path(b, "applications"@));
    distinct_paths_keep(a, 0);
    distinct_paths_keep(a, a.len() - 1);
    distinct_paths_keep(b, b.len() - 1);
}

/// Each path is kept, the first of them in the first place.
proof fn distinct_paths_keep(paths: Seq<Seq<char>>, k: int)
    requires
        0 <= k < paths.len(),
    ensures
        has_path(distinct_paths(paths), paths[k]),
        distinct_paths(paths).len() > 0,
        distinct_paths(paths)[0] == paths[0],
    decreases paths.len(),
{
    let front = paths.drop_last();
    let before = distinct_paths(front);
    let all = distinct_paths(paths);
    if front.len() > 0 {
        distinct_paths_keep(front, if k < front.len() { k } else { 0 });
        if k < front.len() {
            let x = choose|x: int|
                0 <= x < before.len() && crate::path::components_of(#[trigger] before[x])
                    == crate::path::components_of(front[k]);
            assert(all[x] == before[x]);
        } else if !has_path(before, paths.last()) {
            assert(all[before.len() as int] == paths.last());
        }
    } else {
        assert(all[0] == paths[0]);
    }
}

/// An application that matches is listed, and so is each of its actions that matches where something is
/// searched for; where nothing is, no actions are.
pub proof fn an_application_that_matches_is_listed(
    r: Seq<Item>,
    apps: Seq<DesktopEntry>,
    query: Seq<char>,
    limit: nat,
    exact: bool,
    k: int,
    a: int,
)
    requires
        are_results(r, apps, query, limit, exact),
        0 <= k < apps.len(),
        groups_size(apps, query.len() > 0, lower_of(query), exact) <= limit,
        limit <= usize::MAX,
    ensures
        match_of(lower_of(query), apps[k].search@, exact) is Some ==> exists|x: int|
            0 <= x < r.len() && (#[trigger] r[x]).identifier@ == apps[k].id@ && r[x].text@
                == apps[k].name@,
        query.len() > 0 && 0 <= a < apps[k].actions.entries@.len() && match_of(
            lower_of(query),
            lower_of(apps[k].actions.entries@[a].0@),
            exact,
        ) is Some ==> exists|x: int|
            0 <= x < r.len() && (#[trigger] r[x]).identifier@ == apps[k].id@ + ":"@
                + apps[k].actions.entries@[a].0@ && r[x].text@ == apps[k].name@ + ": "@
                + apps[k].actions.entries@[a].0@,
        query.len() == 0 ==> r.len() <= apps.len(),
{
    let q = lower_of(query);
    let (items, searching) = choose|items: Seq<Item>, searching: bool|
        #![trigger are_groups(items, apps, searching, q, exact)]
        searching == (query.len() > 0) && are_groups(items, apps, searching, q, exact) && is_top(
            items,
            r,
            limit,
        );
    groups_have_their_size(items, apps, searching, q, exact);
    if match_of(q, apps[k].search@, exact) is Some {
        let from = where_an_application_stands(items, apps, searching, q, exact, k);
        nothing_is_left_out_below_the_limit(items, r, limit, from);
        let x = choose|x: int| 0 <= x < r.len() && r[x] == items[from];
        assert(r[x].identifier@ == apps[k].id@);
    }
    if searching && 0 <= a < apps[k].actions.entries@.len() && match_of(
        q,
        lower_of(apps[k].actions.entries@[a].0@),
        exact,
    ) is Some {
        let at = where_an_action_stands(items, apps, q, exact, k, a);
        nothing_is_left_out_below_the_limit(items, r, limit, at);
        let x = choose|x: int| 0 <= x < r.len() && r[x] == items[at];
        assert(r[x].identifier@ == apps[k].id@ + ":"@ + apps[k].actions.entries@[a].0@);
    }
    if !searching {
        one_each(apps, q, exact);
    }
}

/// Where the item of an application stands that matches.
proof fn where_an_application_stands(
    items: Seq<Item>,
    apps: Seq<DesktopEntry>,
    searching: bool,
    query: Seq<char>,
    exact: bool,
    k: int,
) -> (at: int)
    requires
        are_groups(items, apps, searching, query, exact),
        0 <= k < apps.len(),
        match_of(query, apps[k].search@, exact) is Some,
    ensures
        0 <= at < items.len(),
        items[at].identifier@ == apps[k].id@,
        items[at].text@ == apps[k].name@,
{
    let (from, to) = group_of(items, apps, searching, query, exact, k);
    let group = items.subrange(from, to);
    assert(group[0] == items[from]);
    from
}

/// Where the item of an action stands that matches.
proof fn where_an_action_stands(
    items: Seq<Item>,
    apps: Seq<DesktopEntry>,
    query: Seq<char>,
    exact: bool,
    k: int,
    a: int,
) -> (at: int)
    requires
        are_groups(items, apps, true, query, exact),
        0 <= k < apps.len(),
        0 <= a < apps[k].actions.entries@.len(),
        action_matches(apps[k], a, query, exact),
    ensures
        0 <= at < items.len(),
        items[at].identifier@ == apps[k].id@ + ":"@ + apps[k].actions.entries@[a].0@,
        items[at].text@ == apps[k].name@ + ": "@ + apps[k].actions.entries@[a].0@,
{
    let (from, to) = group_of(items, apps, true, query, exact, k);
    let group = items.subrange(from, to);
    let found = matching_actions(apps[k], apps[k].actions.entries@.len(), true, query, exact);
    an_action_that_matches_is_found(apps[k], apps[k].actions.entries@.len(), query, exact, a);
    let f = choose|f: int| 0 <= f < found.len() && found[f] == a;
    if match_of(query, apps[k].search@, exact) is Some {
        let rest = group.drop_first();
        assert(are_action_items(rest, apps[k], found, query, exact));
        assert(rest[f] == group[f + 1]);
        assert(group[f + 1] == items[from + f + 1]);
        assert(rest[f].identifier@ == apps[k].id@ + ":"@ + apps[k].actions.entries@[a].0@);
        from + f + 1
    } else {
        assert(are_action_items(group, apps[k], found, query, exact));
        assert(group[f] == items[from + f]);
        assert(group[f].identifier@ == apps[k].id@ + ":"@ + apps[k].actions.entries@[a].0@);
        from + f
    }
}

/// Where nothing is searched for each application gives one item at most.
proof fn one_each(apps: Seq<DesktopEntry>, query: Seq<char>, exact: bool)
    ensures
        groups_size(apps, false, query, exact) <= apps.len(),
    decreases apps.len(),
{
    if apps.len() > 0 {
        one_each(apps.drop_last(), query, exact);
    }
}

/// An action that matches is among those that do.
proof fn an_action_that_matches_is_found(
    app: DesktopEntry,
    n: nat,
    query: Seq<char>,
    exact: bool,
    a: int,
)
    requires
        0 <= a < n,
        action_matches(app, a, query, exact),
    ensures
        matching_actions(app, n, true, query, exact).contains(a),
    decreases n,
{
    let all = matching_actions(app, n, true, query, exact);
    let before = matching_actions(app, (n - 1) as nat, true, query, exact);
    if a == n - 1 {
        assert(all[before.len() as int] == a);
    } else {
        an_action_that_matches_is_found(app, (n - 1) as nat, query, exact, a);
        let x = choose|x: int| 0 <= x < before.len() && before[x] == a;
        assert(all[x] == a);
    }
}

/// Where the items of an application stand.
proof fn group_of(
    items: Seq<Item>,
    apps: Seq<DesktopEntry>,
    searching: bool,
    query: Seq<char>,
    exact: bool,
    k: int,
) -> (r: (int, int))
    requires
        are_groups(items, apps, searching, query, exact),
        0 <= k < apps.len(),
    ensures
        0 <= r.0 <= r.1 <= items.len(),
        is_group(items.subrange(r.0, r.1), apps[k], searching, query, exact),
    decreases apps.len(),
{
    let n = groups_size(apps.drop_last(), searching, query, exact) as int;
    if k == apps.len() - 1 {
        assert(items.subrange(n, items.len() as int) =~= items.skip(n));
        (n, items.len() as int)
    } else {
        let front = items.take(n);
        assert(apps.drop_last()[k] == apps[k]);
        let r = group_of(front, apps.drop_last(), searching, query, exact, k);
        assert(front.subrange(r.0, r.1) =~= items.subrange(r.0, r.1));
        r
    }
}

} // verus!
