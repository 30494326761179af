//! The windows that are open.

use vstd::prelude::*;
use vstd::string::*;

use crate::compositor::{
    answer_of, asking_order, backend_name, backend_named, backends, desktop_backend, first_answer,
    preferred_from_env, Backend,
};
use crate::fuzzy::{indices, match_of, score, Match};
use crate::keyed::TextMap;
use crate::number::{decimal_int, wrapped, wrapping_sum, write_i64};
use crate::providers::{
    hits_stand_in_order, matching_texts, matching_texts_bounds, what_matches_is_a_hit,
};
use crate::text::{
    after_first, after_prefix, before_first, before_text, begins_with, cut_before, distinct_texts,
    first_of, join, joined, keep_distinct, lines, lines_of, lower_of, lowercase, maybe, or_empty,
    same, shell_quote, shell_quoted, slice_texts, split, split_first, split_on, starts,
    strip_suffixes, texts, trim, trim_of, unwrap_text, without_suffixes, words, words_of,
};
use crate::types::{ActionCapability, Item, ItemType, ProviderCapability};

verus! {

/// The open windows as a provider, with the icons of applications by their class.
#[derive(Debug)]
pub struct WindowsProvider {
    pub wm_class_icons: TextMap<String>,
}

/// A window that is open.
#[derive(Debug)]
pub struct OpenWindow {
    pub id: String,
    pub title: String,
    pub app: String,
    pub workspace: String,
    pub backend: Backend,
}

/// What an open window is.
#[verifier::ext_equal]
pub struct OpenModel {
    pub id: Seq<char>,
    pub title: Seq<char>,
    pub app: Seq<char>,
    pub workspace: Seq<char>,
    pub backend: Backend,
}

impl View for OpenWindow {
    type V = OpenModel;

    open spec fn view(&self) -> OpenModel {
        OpenModel {
            id: self.id@,
            title: self.title@,
            app: self.app@,
            workspace: self.workspace@,
            backend: self.backend,
        }
    }
}

/// What open windows are.
pub open spec fn open_models(windows: Seq<OpenWindow>) -> Seq<OpenModel> {
    windows.map_values(|w: OpenWindow| w@)
}

/// The prefixes with which browsers begin the class of a web application.
pub open spec fn browser_prefixes() -> Seq<Seq<char>> {
    seq!["google-chrome-"@, "microsoft-edge-"@, "chromium-"@, "chrome-"@, "brave-"@, "vivaldi-"@]
}

/// The index of the first prefix that stands at the start, or their number.
pub open spec fn prefix_index(prefixes: Seq<Seq<char>>, s: Seq<char>) -> int
    decreases prefixes.len(),
{
    if prefixes.len() == 0 || begins_with(s, prefixes[0]) {
        0
    } else {
        1 + prefix_index(prefixes.drop_first(), s)
    }
}

/// The prefix of the browser that a class begins with.
pub open spec fn browser_of(base: Seq<char>) -> Option<Seq<char>> {
    let i = prefix_index(browser_prefixes(), base);
    if 0 <= i < browser_prefixes().len() {
        Some(browser_prefixes()[i])
    } else {
        None
    }
}

/// What the parts of a host name suggest: the first part, the domains from the second part on, and
/// the last part.
pub open spec fn label_candidates(labels: Seq<Seq<char>>) -> Seq<Seq<char>> {
    if labels.len() <= 1 {
        Seq::empty()
    } else {
        seq![labels[0]] + Seq::new(
            (labels.len() - 2) as nat,
            |k: int| joined(labels.skip(k + 1), "."@),
        ) + seq![labels.last()]
    }
}

/// What the browser suggests.
pub open spec fn browser_candidates(browser: Option<Seq<char>>) -> Seq<Seq<char>> {
    match browser {
        Some(prefix) => {
            let name = without_suffixes(prefix, "-"@);
            seq![name + "-browser"@, name]
        },
        None => Seq::empty(),
    }
}

/// The keys under which the icon of a window class is looked for, the best first: the class itself,
/// which well-behaved applications have; without what a browser adds to it; the host that is left;
/// its parts; and at last the browser.
pub open spec fn candidates_of(app: Seq<char>) -> Seq<Seq<char>> {
    let key = lower_of(app);
    let base = without_suffixes(before_text(key, "__"@), "-default"@);
    let browser = browser_of(base);
    let host = match browser {
        Some(prefix) => base.skip(prefix.len() as int),
        None => base,
    };
    distinct_texts(
        seq![key, base, host] + label_candidates(split_on(host, '.')) + browser_candidates(browser),
    )
}

/// The prefix of the browser that a class begins with.
fn find_browser(base: &str) -> (r: Option<&'static str>)
    ensures
        maybe(r) == browser_of(base@),
{
    let ghost all = browser_prefixes();
    let prefixes: Vec<&'static str> = vec![
        "google-chrome-",
        "microsoft-edge-",
        "chromium-",
        "chrome-",
        "brave-",
        "vivaldi-",
    ];
    assert(forall|k: int| 0 <= k < all.len() ==> prefixes@[k]@ == all[k]);
    let mut i: usize = 0;
    assert(all.skip(0) =~= all);
    while i < prefixes.len()
        invariant
            prefixes@.len() == all.len(),
            all == browser_prefixes(),
            forall|k: int| 0 <= k < all.len() ==> prefixes@[k]@ == all[k],
            i <= prefixes@.len(),
            prefix_index(all, base@) == i + prefix_index(all.skip(i as int), base@),
        decreases prefixes.len() - i,
    {
        assert(all.skip(i as int).drop_first() =~= all.skip(i + 1));
        assert(all.skip(i as int)[0] == prefixes@[i as int]@);
        if starts(base, prefixes[i]) {
            return Some(prefixes[i]);
        }
        i += 1;
    }
    assert(all.skip(i as int).len() == 0);
    None
}

/// Adds what the parts of a host name suggest.
fn add_labels(host: &str, out: &mut Vec<String>)
    ensures
        texts(final(out)@) == texts(old(out)@) + label_candidates(split_on(host@, '.')),
{
    let ghost start = texts(out@);
    let labels = split(host, '.');
    let ghost all = texts(labels@);
    let n: usize = labels.len();
    assert(all.len() == n);
    if n <= 1 {
        assert(start + Seq::<Seq<char>>::empty() =~= start);
        return;
    }
    let ghost middle = Seq::new((all.len() - 2) as nat, |k: int| joined(all.skip(k + 1), "."@));
    out.push(labels[0].clone());
    assert(texts(out@) =~= start + seq![all[0]]);
    let mut i: usize = 1;
    while i < n - 1
        invariant
            n == labels@.len(),
            n >= 2,
            all == texts(labels@),
            middle == Seq::new((all.len() - 2) as nat, |k: int| joined(all.skip(k + 1), "."@)),
            1 <= i <= n - 1,
            texts(out@) =~= start + seq![all[0]] + middle.take(i - 1),
        decreases n - i,
    {
        let rest = slice_texts(&labels, i);
        assert(texts(rest@) =~= all.skip(i as int));
        let ghost before = texts(out@);
        out.push(join(&rest, "."));
        assert(texts(out@) =~= before.push(middle[i - 1]));
        i += 1;
    }
    assert(middle.take(i - 1) =~= middle);
    let ghost before = texts(out@);
    out.push(labels[n - 1].clone());
    assert(texts(out@) =~= before.push(all.last()));
    assert(texts(out@) =~= start + label_candidates(all));
}

/// The keys under which the icon of a window class is looked for.
pub fn icon_candidates(app: &str) -> (r: Vec<String>)
    ensures
        texts(r@) == candidates_of(app@),
{
    let key = lowercase(app);
    let base = strip_suffixes(cut_before(key.as_str(), "__").as_str(), "-default");
    let browser = find_browser(base.as_str());
    let host = match browser {
        Some(prefix) => match after_prefix(base.as_str(), prefix) {
            Some(rest) => rest,
            None => base.clone(),
        },
        None => base.clone(),
    };
    proof {
        if browser is Some {
            browser_fits(base@);
        }
    }
    let mut out = vec![key.clone(), base.clone(), host.clone()];
    assert(texts(out@) =~= seq![key@, base@, host@]);
    add_labels(host.as_str(), &mut out);
    let ghost before = texts(out@);
    if let Some(prefix) = browser {
        let name = strip_suffixes(prefix, "-");
        let mut full = name.clone();
        full.append("-browser");
        out.push(full);
        out.push(name);
        assert(texts(out@) =~= before + browser_candidates(Some(prefix@)));
    } else {
        assert(before + Seq::<Seq<char>>::empty() =~= before);
    }
    keep_distinct(&out)
}

/// A browser that was found stands at the start.
proof fn browser_fits(base: Seq<char>)
    requires
        browser_of(base) is Some,
    ensures
        begins_with(base, browser_of(base)->0),
{
    prefix_index_fits(browser_prefixes(), base);
}

proof fn prefix_index_fits(prefixes: Seq<Seq<char>>, s: Seq<char>)
    ensures
        0 <= prefix_index(prefixes, s) <= prefixes.len(),
        prefix_index(prefixes, s) < prefixes.len() ==> begins_with(
            s,
            prefixes[prefix_index(prefixes, s)],
        ),
    decreases prefixes.len(),
{
    if prefixes.len() > 0 && !begins_with(s, prefixes[0]) {
        prefix_index_fits(prefixes.drop_first(), s);
    }
}

/// The icon of the first key that has one.
pub open spec fn first_icon(keys: Seq<Seq<char>>, icons: Map<Seq<char>, String>) -> Seq<char>
    decreases keys.len(),
{
    if keys.len() == 0 {
        "preferences-system-windows"@
    } else if icons.dom().contains(keys[0]) {
        icons[keys[0]]@
    } else {
        first_icon(keys.drop_first(), icons)
    }
}

/// The compositor that is asked for windows first: the one that is advertised, and otherwise the
/// last resort.
pub fn backend_from_env(hypr: bool, sway: bool, niri: bool, desktop: Option<&str>) -> (r: Backend)
    ensures
        r == (if hypr {
            Backend::Hypr
        } else if sway {
            Backend::Sway
        } else if niri {
            Backend::Niri
        } else {
            match desktop_backend(maybe(desktop)) {
                Some(backend) => backend,
                None => Backend::Wmctrl,
            }
        }),
{
    match preferred_from_env(hypr, sway, niri, desktop) {
        Some(backend) => backend,
        None => Backend::Wmctrl,
    }
}

/// The compositors in the order in which they are asked for windows.
pub fn candidate_backends(preferred: Backend) -> (r: Vec<Backend>)
    ensures
        r@ == asking_order(Some(preferred)),
{
    backends(Some(preferred))
}

/// The windows that the first of the compositors to answer reports. None where none does.
pub fn open_windows(answers: Vec<Option<Vec<OpenWindow>>>) -> (r: Vec<OpenWindow>)
    ensures
        match answer_of(answers@) {
            Some(all) => r == all,
            None => r@.len() == 0,
        },
{
    match first_answer(answers) {
        Some(all) => all,
        None => Vec::new(),
    }
}

/// A window of Hyprland.
#[derive(Debug)]
pub struct HyprClient {
    pub address: String,
    pub title: String,
    pub class: String,
    pub workspace: String,
}

/// The windows of Hyprland.
pub fn hypr_windows(clients: Vec<HyprClient>) -> (r: Vec<OpenWindow>)
    ensures
        open_models(r@) == clients@.map_values(
            |c: HyprClient|
                OpenModel {
                    id: c.address@,
                    title: c.title@,
                    app: c.class@,
                    workspace: c.workspace@,
                    backend: Backend::Hypr,
                },
        ),
{
    let ghost all = clients@;
    let ghost wanted = all.map_values(
        |c: HyprClient|
            OpenModel {
                id: c.address@,
                title: c.title@,
                app: c.class@,
                workspace: c.workspace@,
                backend: Backend::Hypr,
            },
    );
    let mut out: Vec<OpenWindow> = Vec::new();
    for c in it: clients
        invariant
            it.seq() == all,
            wanted.len() == all.len(),
            forall|k: int|
                0 <= k < all.len() ==> wanted[k] == (OpenModel {
                    id: all[k].address@,
                    title: all[k].title@,
                    app: all[k].class@,
                    workspace: all[k].workspace@,
                    backend: Backend::Hypr,
                }),
            open_models(out@) =~= wanted.take(it.index() as int),
    {
        let ghost before = open_models(out@);
        let window = OpenWindow {
            id: c.address,
            title: c.title,
            app: c.class,
            workspace: c.workspace,
            backend: Backend::Hypr,
        };
        assert(window@ =~= wanted[it.index() as int]);
        out.push(window);
        assert(open_models(out@) =~= before.push(wanted[it.index() as int]));
    }
    assert(open_models(out@) =~= wanted);
    out
}

/// A window of niri, its numbers as they are written.
#[derive(Debug)]
pub struct NiriWindow {
    pub id: Option<String>,
    pub title: Option<String>,
    pub app_id: Option<String>,
    pub workspace_id: Option<String>,
}

/// The windows of niri that have an id.
pub open spec fn niri_models(windows: Seq<NiriWindow>) -> Seq<OpenModel>
    decreases windows.len(),
{
    if windows.len() == 0 {
        Seq::empty()
    } else {
        let before = niri_models(windows.drop_last());
        let window = windows.last();
        match window.id {
            Some(id) => before.push(
                OpenModel {
                    id: id@,
                    title: or_empty(window.title),
                    app: or_empty(window.app_id),
                    workspace: or_empty(window.workspace_id),
                    backend: Backend::Niri,
                },
            ),
            None => before,
        }
    }
}

/// The windows of niri. One without an id cannot be spoken to, and is passed over.
pub fn niri_windows(windows: Vec<NiriWindow>) -> (r: Vec<OpenWindow>)
    ensures
        open_models(r@) == niri_models(windows@),
{
    let ghost all = windows@;
    let mut out: Vec<OpenWindow> = Vec::new();
    assert(all.take(0) =~= Seq::empty());
    assert(open_models(out@) =~= Seq::empty());
    for window in it: windows
        invariant
            it.seq() == all,
            open_models(out@) == niri_models(all.take(it.index() as int)),
    {
        let ghost i = it.index() as int;
        let ghost before = open_models(out@);
        assert(all.take(i + 1).drop_last() =~= all.take(i));
        assert(all.take(i + 1).last() == window);
        if let Some(id) = window.id {
            let found = OpenWindow {
                id,
                title: unwrap_text(window.title),
                app: unwrap_text(window.app_id),
                workspace: unwrap_text(window.workspace_id),
                backend: Backend::Niri,
            };
            let ghost model = found@;
            out.push(found);
            assert(open_models(out@) =~= before.push(model));
        }
    }
    assert(all.take(all.len() as int) =~= all);
    out
}

/// A node of Sway's tree.
#[derive(Debug)]
pub struct SwayNode {
    pub id: i64,
    pub name: Option<String>,
    pub app_id: Option<String>,
    pub class: Option<String>,
    pub nodes: Vec<SwayNode>,
    pub floating_nodes: Vec<SwayNode>,
}

/// The application of a node: its id, or its class where it has none.
pub open spec fn sway_app(node: SwayNode) -> Seq<char> {
    match node.app_id {
        Some(app) => app@,
        None => match node.class {
            Some(class) => class@,
            None => Seq::empty(),
        },
    }
}

/// The windows in a tree: that of the node where it has a name and an application, then those of
/// its children, then those of the ones that float.
pub open spec fn sway_windows_in(node: SwayNode) -> Seq<OpenModel>
    decreases node,
{
    let own = if node.name is Some && sway_app(node).len() > 0 {
        seq![
            OpenModel {
                id: decimal_int(node.id as int),
                title: node.name->0@,
                app: sway_app(node),
                workspace: Seq::empty(),
                backend: Backend::Sway,
            },
        ]
    } else {
        Seq::empty()
    };
    own + sway_windows_of(node.nodes@) + sway_windows_of(node.floating_nodes@)
}

/// The windows of some nodes, one after the other.
pub open spec fn sway_windows_of(nodes: Seq<SwayNode>) -> Seq<OpenModel>
    decreases nodes,
{
    if nodes.len() == 0 {
        Seq::empty()
    } else {
        sway_windows_of(nodes.drop_last()) + sway_windows_in(nodes.last())
    }
}

/// Adds the windows in a tree.
pub fn collect_sway(node: &SwayNode, out: &mut Vec<OpenWindow>)
    ensures
        open_models(final(out)@) == open_models(old(out)@) + sway_windows_in(*node),
    decreases node,
{
    let ghost start = open_models(out@);
    let app = match &node.app_id {
        Some(app) => app.clone(),
        None => match &node.class {
            Some(class) => class.clone(),
            None => String::new(),
        },
    };
    assert(app@ =~= sway_app(*node));
    let ghost mut own: Seq<OpenModel> = Seq::empty();
    assert(start + own =~= start);
    if let Some(name) = &node.name {
        if !app.as_str().is_empty() {
            let window = OpenWindow {
                id: write_i64(node.id),
                title: name.clone(),
                app,
                workspace: String::new(),
                backend: Backend::Sway,
            };
            proof {
                own = seq![
                    OpenModel {
                        id: decimal_int(node.id as int),
                        title: node.name->0@,
                        app: sway_app(*node),
                        workspace: Seq::empty(),
                        backend: Backend::Sway,
                    },
                ];
                assert(window@ =~= own[0]);
            }
            out.push(window);
            assert(open_models(out@) =~= start + own);
        }
    }
    let ghost first = open_models(out@);
    let mut i: usize = 0;
    assert(node.nodes@.take(0) =~= Seq::empty());
    assert(first + sway_windows_of(node.nodes@.take(0)) =~= first);
    while i < node.nodes.len()
        invariant
            i <= node.nodes@.len(),
            open_models(out@) == first + sway_windows_of(node.nodes@.take(i as int)),
        decreases node.nodes.len() - i,
    {
        assert(decreases_to!(*node => node.nodes));
        assert(decreases_to!(node.nodes => node.nodes[i as int]));
        assert(node.nodes@.take(i + 1).drop_last() =~= node.nodes@.take(i as int));
        let ghost before = open_models(out@);
        collect_sway(&node.nodes[i], out);
        assert(open_models(out@) =~= first + sway_windows_of(node.nodes@.take(i + 1)));
        i += 1;
    }
    assert(node.nodes@.take(i as int) =~= node.nodes@);
    let ghost second = open_models(out@);
    let mut j: usize = 0;
    assert(node.floating_nodes@.take(0) =~= Seq::empty());
    assert(second + sway_windows_of(node.floating_nodes@.take(0)) =~= second);
    while j < node.floating_nodes.len()
        invariant
            j <= node.floating_nodes@.len(),
            open_models(out@) == second + sway_windows_of(node.floating_nodes@.take(j as int)),
        decreases node.floating_nodes.len() - j,
    {
        assert(decreases_to!(*node => node.floating_nodes));
        assert(decreases_to!(node.floating_nodes => node.floating_nodes[j as int]));
        assert(node.floating_nodes@.take(j + 1).drop_last() =~= node.floating_nodes@.take(j as int));
        let ghost before = open_models(out@);
        collect_sway(&node.floating_nodes[j], out);
        assert(open_models(out@) =~= second + sway_windows_of(node.floating_nodes@.take(j + 1)));
        j += 1;
    }
    assert(node.floating_nodes@.take(j as int) =~= node.floating_nodes@);
    let ghost a = sway_windows_of(node.nodes@);
    let ghost b = sway_windows_of(node.floating_nodes@);
    assert(start + own + a + b =~= start + (own + a + b));
}

/// A window as a line of wmctrl describes it. A line without an id describes none.
pub open spec fn wmctrl_window(line: Seq<char>) -> Option<OpenModel> {
    let w = words_of(line);
    if w.len() == 0 {
        None
    } else {
        Some(
            OpenModel {
                id: w[0],
                title: if w.len() > 4 {
                    joined(w.skip(4), " "@)
                } else {
                    Seq::empty()
                },
                app: if w.len() > 2 {
                    w[2]
                } else {
                    Seq::empty()
                },
                workspace: Seq::empty(),
                backend: Backend::Wmctrl,
            },
        )
    }
}

/// The windows that lines of wmctrl describe.
pub open spec fn wmctrl_windows_of(lines: Seq<Seq<char>>) -> Seq<OpenModel>
    decreases lines.len(),
{
    if lines.len() == 0 {
        Seq::empty()
    } else {
        let before = wmctrl_windows_of(lines.drop_last());
        match wmctrl_window(lines.last()) {
            Some(window) => before.push(window),
            None => before,
        }
    }
}

/// The windows that wmctrl printed.
pub fn wmctrl_windows(printed: &str) -> (r: Vec<OpenWindow>)
    ensures
        open_models(r@) == wmctrl_windows_of(lines_of(printed@)),
{
    let all = lines(printed);
    let ghost ls = texts(all@);
    let mut out: Vec<OpenWindow> = Vec::new();
    let mut i: usize = 0;
    assert(ls.take(0) =~= Seq::empty());
    assert(open_models(out@) =~= Seq::empty());
    while i < all.len()
        invariant
            ls == texts(all@),
            i <= all@.len(),
            open_models(out@) == wmctrl_windows_of(ls.take(i as int)),
        decreases all.len() - i,
    {
        assert(ls.take(i + 1).drop_last() =~= ls.take(i as int));
        assert(ls.take(i + 1).last() == all@[i as int]@);
        let w = words(all[i].as_str());
        let ghost ws = texts(w@);
        assert(ws.len() == w@.len());
        if w.len() > 0 {
            assert(ws[0] == w@[0]@);
            let app = if w.len() > 2 {
                assert(ws[2] == w@[2]@);
                w[2].clone()
            } else {
                String::new()
            };
            let title = if w.len() > 4 {
                let rest = slice_texts(&w, 4);
                assert(texts(rest@) =~= ws.skip(4));
                join(&rest, " ")
            } else {
                String::new()
            };
            let window = OpenWindow {
                id: w[0].clone(),
                title,
                app,
                workspace: String::new(),
                backend: Backend::Wmctrl,
            };
            assert(window@ =~= wmctrl_window(ls[i as int])->0);
            let ghost before = open_models(out@);
            out.push(window);
            assert(open_models(out@) =~= before.push(window@));
        }
        i += 1;
    }
    assert(ls.take(i as int) =~= ls);
    out
}

/// What of a window is searched.
pub open spec fn haystack_of(window: OpenWindow) -> Seq<char> {
    window.title@ + " "@ + window.app@ + " "@ + window.workspace@
}

/// What of each window is searched, in lower case.
pub open spec fn searches(windows: Seq<OpenWindow>) -> Seq<Seq<char>> {
    windows.map_values(|w: OpenWindow| lower_of(haystack_of(w)))
}

/// Whether the item is that of a window that matched.
pub open spec fn is_window_item(
    item: Item,
    window: OpenWindow,
    icons: Map<Seq<char>, String>,
    m: Match,
) -> bool {
    &&& item.provider@ == "windows"@
    &&& item.identifier@ == backend_name(window.backend) + ":"@ + window.id@
    &&& item.text@ == window.title@
    &&& item.subtext@ == trim_of(window.app@ + " "@ + window.workspace@)
    &&& item.icon@ == first_icon(candidates_of(window.app@), icons)
    &&& texts(item.actions@) == seq!["focus"@, "close"@]
    &&& item.score == wrapped(m.score + 5_000)
    &&& item.fuzzyinfo is Some
    &&& item.fuzzyinfo->0.start == m.start
    &&& item.fuzzyinfo->0.field@ == "text"@
    &&& indices(item.fuzzyinfo->0.positions@) == m.positions
    &&& item.item_type == ItemType::Regular
    &&& item.mimetype@.len() == 0
    &&& item.preview@.len() == 0
    &&& item.preview_type@.len() == 0
    &&& item.state@.len() == 0
    &&& item.icon_path is None
    &&& item.thumbnail is None
}

/// Whether these are the windows that match a query, in their order and not more than the limit.
pub open spec fn are_results(
    r: Seq<Item>,
    windows: Seq<OpenWindow>,
    icons: Map<Seq<char>, String>,
    query: Seq<char>,
    limit: nat,
    exact: bool,
) -> bool {
    exists|items: Seq<Item>| #[trigger]
        are_window_items(
            items,
            windows,
            matching_texts(searches(windows), lower_of(query), exact),
            icons,
            lower_of(query),
            exact,
        ) && r == (if items.len() <= limit {
            items
        } else {
            items.take(limit as int)
        })
}

/// Whether the items are those of the windows that matched, in order.
pub open spec fn are_window_items(
    items: Seq<Item>,
    windows: Seq<OpenWindow>,
    found: Seq<int>,
    icons: Map<Seq<char>, String>,
    query: Seq<char>,
    exact: bool,
) -> bool {
    &&& items.len() == found.len()
    &&& forall|k: int| 0 <= k < found.len() ==> 0 <= (#[trigger] found[k]) < windows.len()
    &&& forall|k: int|
        0 <= k < items.len() ==> is_window_item(
            #[trigger] items[k],
            windows[found[k]],
            icons,
            match_of(query, lower_of(haystack_of(windows[found[k]])), exact)->0,
        )
}

/// What activating a window comes to.
#[derive(Debug)]
pub enum WindowStep {
    /// A message to Hyprland; where it is not taken, the line that sends it with the program.
    Hypr(String),
    /// A line for the shell.
    Run(String),
    /// Nothing.
    Nothing,
}

/// How Hyprland's program is called.
pub fn hypr_shell(signature: Option<&str>) -> (r: String)
    ensures
        r@ == (match signature {
            Some(s) => "HYPRLAND_INSTANCE_SIGNATURE="@ + shell_quoted(s@) + " hyprctl"@,
            None => "hyprctl"@,
        }),
{
    match signature {
        Some(s) => {
            let mut out = "HYPRLAND_INSTANCE_SIGNATURE=".to_owned();
            out.append(shell_quote(s).as_str());
            out.append(" hyprctl");
            out
        },
        None => "hyprctl".to_owned(),
    }
}

/// Whether the result is what activating a window comes to.
pub open spec fn is_window_step(
    r: Result<WindowStep, String>,
    identifier: Seq<char>,
    action: Seq<char>,
    niri: Seq<char>,
) -> bool {
    let backend = backend_named(before_first(identifier, ':'));
    let id = after_first(identifier, ':');
    if first_of(identifier, ':') >= identifier.len() {
        r matches Ok(WindowStep::Nothing)
    } else if action == "focus"@ && backend is Some {
        match backend->0 {
            Backend::Hypr => r matches Ok(WindowStep::Hypr(c)) && c@
                == "dispatch focuswindow address:"@ + id,
            Backend::Sway => r matches Ok(WindowStep::Run(c)) && c@ == "swaymsg '[con_id="@ + id
                + "] focus'"@,
            Backend::Niri => r matches Ok(WindowStep::Run(c)) && c@ == niri
                + " msg action focus-window --id "@ + id,
            Backend::Wmctrl => r matches Ok(WindowStep::Run(c)) && c@ == "wmctrl -ia "@ + id,
        }
    } else if action == "close"@ && backend is Some {
        match backend->0 {
            Backend::Hypr => r matches Ok(WindowStep::Hypr(c)) && c@
                == "dispatch closewindow address:"@ + id,
            Backend::Sway => r matches Ok(WindowStep::Run(c)) && c@ == "swaymsg '[con_id="@ + id
                + "] kill'"@,
            Backend::Niri => r matches Ok(WindowStep::Run(c)) && c@ == niri
                + " msg action close-window --id "@ + id,
            Backend::Wmctrl => r matches Ok(WindowStep::Run(c)) && c@ == "wmctrl -ic "@ + id,
        }
    } else {
        r matches Err(m) && m@ == "unsupported windows action: "@ + action
    }
}

/// Two or three texts one after the other.
fn glue(a: &str, b: &str, c: &str) -> (r: String)
    ensures
        r@ == a@ + b@ + c@,
{
    let mut out = a.to_owned();
    out.append(b);
    out.append(c);
    out
}

impl WindowsProvider {
    /// A provider with the given icons.
    pub fn new(wm_class_icons: TextMap<String>) -> (r: WindowsProvider)
        ensures
            r.wm_class_icons == wm_class_icons,
    {
        WindowsProvider { wm_class_icons }
    }

    /// The icon of a window class.
    pub fn icon_for(&self, app: &str) -> (r: String)
        ensures
            r@ == first_icon(candidates_of(app@), self.wm_class_icons@),
    {
        let keys = icon_candidates(app);
        let ghost all = texts(keys@);
        let mut i: usize = 0;
        assert(all.skip(0) =~= all);
        while i < keys.len()
            invariant
                all == texts(keys@),
                i <= keys@.len(),
                all == candidates_of(app@),
                first_icon(all, self.wm_class_icons@) == first_icon(
                    all.skip(i as int),
                    self.wm_class_icons@,
                ),
            decreases keys.len() - i,
        {
            assert(all.skip(i as int).drop_first() =~= all.skip(i + 1));
            assert(all.skip(i as int)[0] == keys@[i as int]@);
            if let Some(icon) = self.wm_class_icons.get(keys[i].as_str()) {
                return icon.clone();
            }
            i += 1;
        }
        assert(all.skip(i as int).len() == 0);
        "preferences-system-windows".to_owned()
    }

    /// The windows that match a query, in the order in which they were reported and not more than
    /// the limit.
    pub fn query(&self, windows: &Vec<OpenWindow>, query: &str, limit: usize, exact: bool) -> (r: Vec<
        Item,
    >)
        ensures
            are_results(r@, windows@, self.wm_class_icons@, query@, limit as nat, exact),
    {
        let ghost q = lower_of(query@);
        let ghost all = searches(windows@);
        let mut out: Vec<Item> = Vec::new();
        let ghost mut found: Seq<int> = Seq::empty();
        let mut i: usize = 0;
        assert(all.take(0) =~= Seq::empty());
        while i < windows.len()
            invariant
                i <= windows@.len(),
                q == lower_of(query@),
                all == searches(windows@),
                found == matching_texts(all.take(i as int), q, exact),
                are_window_items(out@, windows@, found, self.wm_class_icons@, q, exact),
            decreases windows.len() - i,
        {
            let window = &windows[i];
            let mut hay = window.title.clone();
            hay.append(" ");
            hay.append(window.app.as_str());
            hay.append(" ");
            hay.append(window.workspace.as_str());
            assert(all.take(i + 1).drop_last() =~= all.take(i as int));
            assert(all.take(i + 1).last() == lower_of(hay@));
            match score(query, hay.as_str(), exact, "text") {
                Some((points, info)) => {
                    let id = glue(window.backend.name(), ":", window.id.as_str());
                    let mut item = Item::new("windows", id.as_str(), window.title.as_str());
                    let below = glue(window.app.as_str(), " ", window.workspace.as_str());
                    item.subtext = trim(below.as_str());
                    item.icon = self.icon_for(window.app.as_str());
                    item.actions = vec!["focus".to_owned(), "close".to_owned()];
                    assert(texts(item.actions@) =~= seq!["focus"@, "close"@]);
                    item.score = wrapping_sum(points, 5_000);
                    item.fuzzyinfo = Some(info);
                    out.push(item);
                    proof {
                        found = found.push(i as int);
                    }
                },
                None => {},
            }
            i += 1;
        }
        assert(all.take(i as int) =~= all);
        assert(are_window_items(out@, windows@, found, self.wm_class_icons@, q, exact));
        let ghost items = out@;
        if out.len() > limit {
            out.truncate(limit);
            assert(out@ =~= items.take(limit as int));
        }
        out
    }

    /// What activating a window comes to, given how niri is called.
    pub fn activate(&self, identifier: &str, action: &str, niri: &str) -> (r: Result<
        WindowStep,
        String,
    >)
        ensures
            is_window_step(r, identifier@, action@, niri@),
    {
        let (name, rest) = split_first(identifier, ':');
        let id = match rest {
            Some(id) => id,
            None => {
                return Ok(WindowStep::Nothing);
            },
        };
        let n = name.as_str();
        let i = id.as_str();
        let backend: Option<Backend> = if same(n, "hypr") {
            Some(Backend::Hypr)
        } else if same(n, "niri") {
            Some(Backend::Niri)
        } else if same(n, "sway") {
            Some(Backend::Sway)
        } else if same(n, "wmctrl") {
            Some(Backend::Wmctrl)
        } else {
            None
        };
        assert(backend == backend_named(name@));
        if let Some(backend) = backend {
            if same(action, "focus") {
                return Ok(
                    match backend {
                        Backend::Hypr => {
                            let mut c = "dispatch focuswindow address:".to_owned();
                            c.append(i);
                            WindowStep::Hypr(c)
                        },
                        Backend::Sway => WindowStep::Run(glue("swaymsg '[con_id=", i, "] focus'")),
                        Backend::Niri => WindowStep::Run(
                            glue(niri, " msg action focus-window --id ", i),
                        ),
                        Backend::Wmctrl => {
                            let mut c = "wmctrl -ia ".to_owned();
                            c.append(i);
                            WindowStep::Run(c)
                        },
                    },
                );
            }
            if same(action, "close") {
                return Ok(
                    match backend {
                        Backend::Hypr => {
                            let mut c = "dispatch closewindow address:".to_owned();
                            c.append(i);
                            WindowStep::Hypr(c)
                        },
                        Backend::Sway => WindowStep::Run(glue("swaymsg '[con_id=", i, "] kill'")),
                        Backend::Niri => WindowStep::Run(
                            glue(niri, " msg action close-window --id ", i),
                        ),
                        Backend::Wmctrl => {
                            let mut c = "wmctrl -ic ".to_owned();
                            c.append(i);
                            WindowStep::Run(c)
                        },
                    },
                );
            }
        }
        let mut message = "unsupported windows action: ".to_owned();
        message.append(action);
        Err(message)
    }

    /// How the provider describes itself.
    pub fn capability(&self) -> (r: ProviderCapability)
        ensures
            r.name@ == "windows"@,
            r.name_pretty@ == "Windows"@,
            r.description@ == "Search, focus, and close open windows"@,
            r.icon@.len() == 0,
            r.prefixes@.len() == 0,
            r.actions.wf(),
            r.actions@.dom() == set!["focus"@, "close"@],
            r.actions@["focus"@].is_plain("Focus"@),
            r.actions@["close"@].is_destructive("Close"@),
            r.supports_query && r.supports_activate && r.supports_streaming,
            !r.supports_subscriptions && !r.emits_events,
    {
        let mut actions: TextMap<ActionCapability> = TextMap::new();
        actions.insert("focus".to_owned(), ActionCapability::new("Focus"));
        actions.insert("close".to_owned(), ActionCapability::new("Close").destructive());
        proof {
            reveal_strlit("focus");
            reveal_strlit("close");
            assert("focus"@[0] == 'f' && "close"@[0] == 'c');
            assert(actions@.dom() =~= set!["focus"@, "close"@]);
        }
        ProviderCapability {
            name: "windows".to_owned(),
            name_pretty: "Windows".to_owned(),
            description: "Search, focus, and close open windows".to_owned(),
            icon: String::new(),
            prefixes: Vec::new(),
            actions,
            supports_query: true,
            supports_activate: true,
            supports_streaming: true,
            supports_subscriptions: false,
            emits_events: false,
        }
    }
}

/// What is listed is what is acted on: the result of a window gives the focus to that window, or closes
/// it, in its compositor's own way.
pub proof fn a_result_acts_on_its_window(
    item: Item,
    window: OpenWindow,
    icons: Map<Seq<char>, String>,
    m: Match,
    niri: Seq<char>,
    focus: Result<WindowStep, String>,
    close: Result<WindowStep, String>,
)
    requires
        is_window_item(item, window, icons, m),
        is_window_step(focus, item.identifier@, "focus"@, niri),
        is_window_step(close, item.identifier@, "close"@, niri),
    ensures
        window.backend == Backend::Hypr ==> (focus matches Ok(WindowStep::Hypr(c)) && c@
            == "dispatch focuswindow address:"@ + window.id@) && (close matches Ok(
            WindowStep::Hypr(c),
        ) && c@ == "dispatch closewindow address:"@ + window.id@),
        window.backend == Backend::Sway ==> (focus matches Ok(WindowStep::Run(c)) && c@
            == "swaymsg '[con_id="@ + window.id@ + "] focus'"@) && (close matches Ok(
            WindowStep::Run(c),
        ) && c@ == "swaymsg '[con_id="@ + window.id@ + "] kill'"@),
        window.backend == Backend::Niri ==> (focus matches Ok(WindowStep::Run(c)) && c@ == niri
            + " msg action focus-window --id "@ + window.id@) && (close matches Ok(
            WindowStep::Run(c),
        ) && c@ == niri + " msg action close-window --id "@ + window.id@),
        window.backend == Backend::Wmctrl ==> (focus matches Ok(WindowStep::Run(c)) && c@
            == "wmctrl -ia "@ + window.id@) && (close matches Ok(WindowStep::Run(c)) && c@
            == "wmctrl -ic "@ + window.id@),
        item.text@ == window.title@,
        texts(item.actions@) == seq!["focus"@, "close"@],
{
    reveal_strlit("focus");
    reveal_strlit("close");
    assert("focus"@[0] == 'f' && "close"@[0] == 'c');
    crate::compositor::a_qualified_id_leads_back(window.backend, window.id@);
}

/// To close a window is not to give it the focus, whatever window it is.
pub proof fn to_close_is_not_to_focus(
    identifier: Seq<char>,
    niri: Seq<char>,
    focus: WindowStep,
    close: WindowStep,
)
    requires
        is_window_step(Ok(focus), identifier, "focus"@, niri),
        is_window_step(Ok(close), identifier, "close"@, niri),
        first_of(identifier, ':') < identifier.len(),
    ensures
        match (close, focus) {
            (WindowStep::Hypr(a), WindowStep::Hypr(b)) => a@ != b@,
            (WindowStep::Run(a), WindowStep::Run(b)) => a@ != b@,
            _ => false,
        },
{
    reveal_strlit("focus");
    reveal_strlit("close");
    assert("focus"@[0] == 'f' && "close"@[0] == 'c');
    match backend_named(before_first(identifier, ':'))->0 {
        Backend::Hypr => {
            reveal_strlit("dispatch closewindow address:");
            reveal_strlit("dispatch focuswindow address:");
            assert(close->Hypr_0@[9] == 'c');
            assert(focus->Hypr_0@[9] == 'f');
        },
        Backend::Niri => {
            reveal_strlit(" msg action close-window --id ");
            reveal_strlit(" msg action focus-window --id ");
            let at = niri.len() as int + 12;
            assert(close->Run_0@[at] == 'c');
            assert(focus->Run_0@[at] == 'f');
        },
        Backend::Sway => {
            reveal_strlit("] kill'");
            reveal_strlit("] focus'");
            assert("] kill'"@.len() == 7 && "] focus'"@.len() == 8);
            assert(close->Run_0@.len() + 1 == focus->Run_0@.len());
        },
        Backend::Wmctrl => {
            reveal_strlit("wmctrl -ia ");
            reveal_strlit("wmctrl -ic ");
            assert(close->Run_0@[9] == 'c');
            assert(focus->Run_0@[9] == 'a');
        },
    }
}

/// Another action than to focus or to close is refused, and so is a compositor that is not known.
pub proof fn windows_are_only_focused_and_closed(
    r: Result<WindowStep, String>,
    identifier: Seq<char>,
    action: Seq<char>,
    niri: Seq<char>,
)
    requires
        is_window_step(r, identifier, action, niri),
        first_of(identifier, ':') < identifier.len(),
    ensures
        action != "focus"@ && action != "close"@ ==> r is Err,
        !(seq!["hypr"@, "niri"@, "sway"@, "wmctrl"@].contains(before_first(identifier, ':')))
            ==> r is Err,
{
    let all = seq!["hypr"@, "niri"@, "sway"@, "wmctrl"@];
    assert(all[0] == "hypr"@ && all[1] == "niri"@ && all[2] == "sway"@ && all[3] == "wmctrl"@);
}

/// A window whose class has an icon has that icon, before any that is guessed from the class.
pub proof fn a_window_has_the_icon_of_its_class(app: Seq<char>, icons: Map<Seq<char>, String>)
    requires
        lower_of(app).len() > 0,
        icons.dom().contains(lower_of(app)),
    ensures
        first_icon(candidates_of(app), icons) == icons[lower_of(app)]@,
{
    let key = lower_of(app);
    let base = without_suffixes(before_text(key, "__"@), "-default"@);
    let browser = browser_of(base);
    let host = match browser {
        Some(prefix) => base.skip(prefix.len() as int),
        None => base,
    };
    let all = seq![key, base, host] + label_candidates(split_on(host, '.')) + browser_candidates(
        browser,
    );
    assert(all[0] == key);
    the_first_text_stays_first(all);
}

/// The first of some texts stays the first of them.
proof fn the_first_text_stays_first(list: Seq<Seq<char>>)
    requires
        list.len() > 0,
        list[0].len() > 0,
    ensures
        distinct_texts(list).len() > 0,
        distinct_texts(list)[0] == list[0],
    decreases list.len(),
{
    if list.len() > 1 {
        the_first_text_stays_first(list.drop_last());
    } else {
        assert(list.drop_last() =~= Seq::empty());
        assert(distinct_texts(list.drop_last()).len() == 0);
    }
}

/// The icon is that of the first key that has one.
pub proof fn the_first_icon_counts(keys: Seq<Seq<char>>, icons: Map<Seq<char>, String>, k: int)
    requires
        0 <= k < keys.len(),
        icons.dom().contains(keys[k]),
        forall|j: int| 0 <= j < k ==> !icons.dom().contains(#[trigger] keys[j]),
    ensures
        first_icon(keys, icons) == icons[keys[k]]@,
    decreases k,
{
    if k > 0 {
        assert(!icons.dom().contains(keys[0]));
        let rest = keys.drop_first();
        assert forall|j: int| 0 <= j < k - 1 implies !icons.dom().contains(#[trigger] rest[j]) by {
            assert(rest[j] == keys[j + 1]);
        }
        the_first_icon_counts(rest, icons, k - 1);
    }
}

/// A window of niri is listed under the id that it has, and none without one.
pub proof fn a_window_with_an_id_is_listed(windows: Seq<NiriWindow>, k: int)
    requires
        0 <= k < windows.len(),
        windows[k].id is Some,
    ensures
        exists|i: int|
            0 <= i < niri_models(windows).len() && (#[trigger] niri_models(windows)[i]).id
                == windows[k].id->0@ && niri_models(windows)[i].title == or_empty(windows[k].title)
                && niri_models(windows)[i].app == or_empty(windows[k].app_id)
                && niri_models(windows)[i].backend == Backend::Niri,
        niri_models(windows).len() <= windows.len(),
    decreases windows.len(),
{
    let front = windows.drop_last();
    let before = niri_models(front);
    let all = niri_models(windows);
    niri_models_fit(front);
    if k < front.len() {
        a_window_with_an_id_is_listed(front, k);
        let i = choose|i: int|
            0 <= i < before.len() && (#[trigger] before[i]).id == front[k].id->0@ && before[i].title
                == or_empty(front[k].title) && before[i].app == or_empty(front[k].app_id)
                && before[i].backend == Backend::Niri;
        assert(all[i] == before[i]);
    } else {
        assert(all[before.len() as int].id == windows[k].id->0@);
    }
}

/// No more windows are listed than there are.
proof fn niri_models_fit(windows: Seq<NiriWindow>)
    ensures
        niri_models(windows).len() <= windows.len(),
    decreases windows.len(),
{
    if windows.len() > 0 {
        niri_models_fit(windows.drop_last());
    }
}

/// A window is listed where the query matches its title, its application and its workspace, written one
/// after another; the windows stay in their order, and nothing else is listed.
pub proof fn a_window_that_matches_is_listed(
    r: Seq<Item>,
    windows: Seq<OpenWindow>,
    icons: Map<Seq<char>, String>,
    query: Seq<char>,
    limit: nat,
    exact: bool,
    k: int,
    i: int,
    j: int,
)
    requires
        are_results(r, windows, icons, query, limit, exact),
        0 <= k < windows.len() <= limit,
    ensures
        match_of(
            lower_of(query),
            lower_of(windows[k].title@ + " "@ + windows[k].app@ + " "@ + windows[k].workspace@),
            exact,
        ) is Some ==> exists|x: int|
            0 <= x < r.len() && (#[trigger] r[x]).text@ == windows[k].title@ && r[x].identifier@
                == backend_name(windows[k].backend) + ":"@ + windows[k].id@,
        0 <= i < r.len() ==> exists|w: int|
            0 <= w < windows.len() && r[i].text@ == (#[trigger] windows[w]).title@ && match_of(
                lower_of(query),
                lower_of(haystack_of(windows[w])),
                exact,
            ) is Some,
        0 <= i < j < r.len() ==> exists|w: int, v: int|
            0 <= w < v < windows.len() && r[i].text@ == (#[trigger] windows[w]).title@ && r[j].text@
                == (#[trigger] windows[v]).title@,
        r.len() <= limit,
{
    let all = searches(windows);
    let q = lower_of(query);
    let found = matching_texts(all, q, exact);
    let items = choose|items: Seq<Item>| #[trigger]
        are_window_items(items, windows, found, icons, q, exact) && r == (if items.len() <= limit {
            items
        } else {
            items.take(limit as int)
        });
    hits_stand_in_order(all, q, exact, i, j);
    what_matches_is_a_hit(all, q, exact, k);
    matching_texts_bounds(all, q, exact);
    assert(all[k] == lower_of(haystack_of(windows[k])));
    if found.contains(k) {
        let x = choose|x: int| 0 <= x < found.len() && found[x] == k;
        assert(is_window_item(
            items[x],
            windows[k],
            icons,
            match_of(q, lower_of(haystack_of(windows[k])), exact)->0,
        ));
        assert(r[x].text@ == windows[k].title@);
    }
    if 0 <= i < r.len() {
        let w = found[i];
        assert(r[i] == items[i]);
        assert(all[w] == lower_of(haystack_of(windows[w])));
        assert(r[i].text@ == windows[w].title@);
        if i < j < r.len() {
            let v = found[j];
            assert(r[j] == items[j]);
            assert(r[j].text@ == windows[v].title@);
        }
    }
}

/// A window of sway is listed wherever it lies in the tree, tiled or floating: under its own id, by its
/// name and its application.
pub proof fn a_window_is_listed_wherever_it_lies(node: SwayNode, k: int, x: OpenModel)
    ensures
        node.name is Some && node.app_id is Some && (node.app_id->0)@.len() > 0
            ==> sway_windows_in(node).len() > 0 && sway_windows_in(node)[0].id == decimal_int(
            node.id as int,
        ) && sway_windows_in(node)[0].title == (node.name->0)@ && sway_windows_in(node)[0].app == (
        node.app_id->0)@ && sway_windows_in(node)[0].backend == Backend::Sway,
        node.name is Some && node.app_id is None && node.class is Some && (node.class->0)@.len() > 0
            ==> sway_windows_in(node).len() > 0 && sway_windows_in(node)[0].app == (node.class->0)@,
        0 <= k < node.nodes@.len() && sway_windows_in(node.nodes@[k]).contains(x)
            ==> sway_windows_in(node).contains(x),
        0 <= k < node.floating_nodes@.len() && sway_windows_in(node.floating_nodes@[k]).contains(x)
            ==> sway_windows_in(node).contains(x),
{
    let all = sway_windows_in(node);
    let tiled = sway_windows_of(node.nodes@);
    let floating = sway_windows_of(node.floating_nodes@);
    let own = all.len() - tiled.len() - floating.len();
    if 0 <= k < node.nodes@.len() && sway_windows_in(node.nodes@[k]).contains(x) {
        windows_of_each_node(node.nodes@, k, x);
        let i = choose|i: int| 0 <= i < tiled.len() && tiled[i] == x;
        assert(all[own + i] == x);
    }
    if 0 <= k < node.floating_nodes@.len() && sway_windows_in(node.floating_nodes@[k]).contains(x) {
        windows_of_each_node(node.floating_nodes@, k, x);
        let i = choose|i: int| 0 <= i < floating.len() && floating[i] == x;
        assert(all[own + tiled.len() + i] == x);
    }
}

/// The windows of each node are among those of all of them.
proof fn windows_of_each_node(nodes: Seq<SwayNode>, k: int, x: OpenModel)
    requires
        0 <= k < nodes.len(),
        sway_windows_in(nodes[k]).contains(x),
    ensures
        sway_windows_of(nodes).contains(x),
    decreases nodes.len(),
{
    let front = nodes.drop_last();
    let before = sway_windows_of(front);
    let last = sway_windows_in(nodes.last());
    let all = sway_windows_of(nodes);
    assert(all == before + last);
    if k == nodes.len() - 1 {
        let i = choose|i: int| 0 <= i < last.len() && last[i] == x;
        assert(all[before.len() + i] == x);
    } else {
        assert(front[k] == nodes[k]);
        windows_of_each_node(front, k, x);
        let i = choose|i: int| 0 <= i < before.len() && before[i] == x;
        assert(all[i] == x);
    }
}

/// A line of `wmctrl` is a window: the first word is its id, the third its class, and from the fifth on
/// its title. Each line that is not blank is listed.
pub proof fn a_line_is_a_window(lines: Seq<Seq<char>>, k: int, words: Seq<Seq<char>>)
    requires
        0 <= k < lines.len(),
        words_of(lines[k]) == words,
        words.len() >= 5,
    ensures
        wmctrl_windows_of(lines).contains(
            (OpenModel {
                id: words[0],
                title: joined(words.skip(4), " "@),
                app: words[2],
                workspace: Seq::empty(),
                backend: Backend::Wmctrl,
            }),
        ),
    decreases lines.len(),
{
    let front = lines.drop_last();
    let before = wmctrl_windows_of(front);
    let all = wmctrl_windows_of(lines);
    let window = OpenModel {
        id: words[0],
        title: joined(words.skip(4), " "@),
        app: words[2],
        workspace: Seq::empty(),
        backend: Backend::Wmctrl,
    };
    if k == lines.len() - 1 {
        assert(wmctrl_window(lines[k]) == Some(window));
        assert(all[before.len() as int] == window);
    } else {
        assert(front[k] == lines[k]);
        a_line_is_a_window(front, k, words);
        let i = choose|i: int| 0 <= i < before.len() && before[i] == window;
        assert(all[i] == window);
    }
}

} // verus!
