//! Hyprland: what its answers say.

use vstd::prelude::*;
use vstd::string::*;

use crate::compositor::{
    a_qualified_id_leads_back, monitor_models, read_scale, region_models, resolved, scale_of,
    window_models, workspace_models, Backend, Monitor, MonitorModel, RegionModel, Window,
    WindowModel, WindowRegion, Workspace, WorkspaceModel,
};
use crate::json::{models, Json, Value};
use crate::number::{decimal_int, write_i64};
use crate::text::{maybe, same, texts};

verus! {

/// Hyprland.
#[derive(Debug, Clone, Copy)]
pub struct Hyprland;

/// The number at an index of a list within a field, or zero.
pub open spec fn pair_at(client: Json, name: Seq<char>, index: int) -> int {
    let items = client.list_at(name);
    if 0 <= index < items.len() {
        match items[index].whole_in(i64::MIN as int, i64::MAX as int) {
            Some(n) => n,
            None => 0,
        }
    } else {
        0
    }
}

/// The number at an index of a list within a field, or zero.
fn read_pair(client: &Value, name: &str, index: usize) -> (r: i64)
    ensures
        r == pair_at(client@, name@, index as int),
{
    match client.get(name) {
        Some(value) => match value.as_array() {
            Some(items) => if index < items.len() {
                assert(models(items@)[index as int] == items@[index as int]@);
                match items[index].as_i64() {
                    Some(n) => n,
                    None => 0,
                }
            } else {
                0
            },
            None => 0,
        },
        None => 0,
    }
}

/// The width or the height of a window, which is reported as `size: [width, height]`.
pub fn size(client: &Value, index: usize) -> (r: i64)
    ensures
        r == pair_at(client@, "size"@, index as int),
{
    read_pair(client, "size", index)
}

/// The position of a window, which is reported as `at: [x, y]`.
pub fn at(client: &Value, index: usize) -> (r: i64)
    ensures
        r == pair_at(client@, "at"@, index as int),
{
    read_pair(client, "at", index)
}

/// The name of the monitor that a window is on, by its index in the list of monitors. One that is
/// not there any more has none.
pub open spec fn monitor_of(client: Json, names: Seq<Seq<char>>) -> Seq<char> {
    let i = client.i64_or("monitor"@, -1);
    if 0 <= i < names.len() {
        names[i]
    } else {
        Seq::empty()
    }
}

/// The name of the monitor that a window is on.
fn read_monitor(client: &Value, names: &Vec<String>) -> (r: String)
    ensures
        r@ == monitor_of(client@, texts(names@)),
{
    let i: i64 = client.i64_or("monitor", -1);
    if i >= 0 && (i as u64) < (names.len() as u64) {
        names[i as usize].clone()
    } else {
        String::new()
    }
}

/// A window as the list of clients describes it. Which has the focus is told by the address of the
/// active one.
pub open spec fn window_of(client: Json, active: Option<Seq<char>>, names: Seq<Seq<char>>) -> WindowModel {
    let address = client.text_or_empty("address"@);
    WindowModel {
        id: "hypr:"@ + address,
        app_id: client.text_or_empty("class"@),
        title: client.text_or_empty("title"@),
        workspace: client.inner("workspace"@).text_or_empty("name"@),
        monitor: monitor_of(client, names),
        focused: active == Some(address),
        floating: client.flag_at("floating"@) == Some(true),
        x: pair_at(client, "at"@, 0),
        y: pair_at(client, "at"@, 1),
    }
}

/// Whether a flag is set.
fn flag(value: &Value, name: &str) -> (r: bool)
    ensures
        r == (value@.flag_at(name@) == Some(true)),
{
    match value.flag_at(name) {
        Some(flag) => flag,
        None => false,
    }
}

/// Whether a text is the one that is given, if any.
fn is_active(active: Option<&str>, address: &str) -> (r: bool)
    ensures
        r == (maybe(active) == Some(address@)),
{
    match active {
        Some(a) => same(a, address),
        None => false,
    }
}

/// A window as the list of clients describes it.
pub fn window(client: &Value, active: Option<&str>, names: &Vec<String>) -> (r: Window)
    ensures
        r@ == window_of(client@, maybe(active), texts(names@)),
{
    let address = client.text_or_empty("address");
    let mut id = "hypr:".to_owned();
    id.append(address.as_str());
    let workspace = match client.get("workspace") {
        Some(ws) => ws.text_or_empty("name"),
        None => String::new(),
    };
    let r = Window {
        focused: is_active(active, address.as_str()),
        id,
        app_id: client.text_or_empty("class"),
        title: client.text_or_empty("title"),
        workspace,
        monitor: read_monitor(client, names),
        floating: flag(client, "floating"),
        x: at(client, 0),
        y: at(client, 1),
    };
    assert(r@ =~= window_of(client@, maybe(active), texts(names@)));
    r
}

/// Where a window is on screen.
pub open spec fn region_of(client: Json, active: Option<Seq<char>>, names: Seq<Seq<char>>) -> RegionModel {
    let address = client.text_or_empty("address"@);
    RegionModel {
        id: "hypr:"@ + address,
        app_id: client.text_or_empty("class"@),
        title: client.text_or_empty("title"@),
        monitor: monitor_of(client, names),
        focused: active == Some(address),
        x: pair_at(client, "at"@, 0),
        y: pair_at(client, "at"@, 1),
        width: pair_at(client, "size"@, 0),
        height: pair_at(client, "size"@, 1),
    }
}

/// Where a window is on screen.
pub fn region(client: &Value, active: Option<&str>, names: &Vec<String>) -> (r: WindowRegion)
    ensures
        r@ == region_of(client@, maybe(active), texts(names@)),
{
    let address = client.text_or_empty("address");
    let mut id = "hypr:".to_owned();
    id.append(address.as_str());
    WindowRegion {
        focused: is_active(active, address.as_str()),
        id,
        app_id: client.text_or_empty("class"),
        title: client.text_or_empty("title"),
        monitor: read_monitor(client, names),
        x: at(client, 0),
        y: at(client, 1),
        width: size(client, 0),
        height: size(client, 1),
    }
}

/// The id of the workspace in a field of a monitor, where it is one. Zero is none.
pub open spec fn shown_workspace(monitor: Json, name: Seq<char>) -> Seq<int> {
    match monitor.inner(name).whole_at("id"@, i64::MIN as int, i64::MAX as int) {
        Some(id) => if id != 0 {
            seq![id]
        } else {
            Seq::empty()
        },
        None => Seq::empty(),
    }
}

/// The ids of the workspaces that can be seen: the one that each monitor shows, and any special one
/// over it.
pub open spec fn seen_workspaces(monitors: Seq<Json>) -> Seq<int>
    decreases monitors.len(),
{
    if monitors.len() == 0 {
        Seq::empty()
    } else {
        seen_workspaces(monitors.drop_last()) + shown_workspace(
            monitors.last(),
            "activeWorkspace"@,
        ) + shown_workspace(monitors.last(), "specialWorkspace"@)
    }
}

/// The numbers that a list holds.
pub open spec fn numbers(v: Seq<i64>) -> Seq<int> {
    v.map_values(|n: i64| n as int)
}

/// Adds the id of the workspace in a field of a monitor.
fn add_shown(monitor: &Value, name: &str, ids: &mut Vec<i64>)
    ensures
        numbers(final(ids)@) == numbers(old(ids)@) + shown_workspace(monitor@, name@),
{
    let ghost before = numbers(ids@);
    if let Some(value) = monitor.get_in(name, "id") {
        if let Some(id) = value.as_i64() {
            if id != 0 {
                ids.push(id);
                assert(numbers(ids@) =~= before + seq![id as int]);
                return;
            }
        }
    }
    assert(before + Seq::<int>::empty() =~= before);
}

/// The ids of the workspaces that can be seen.
pub fn visible_workspaces(monitors: &Value) -> (r: Vec<i64>)
    ensures
        numbers(r@) == (match monitors@.list() {
            Some(items) => seen_workspaces(items),
            None => Seq::empty(),
        }),
{
    let mut ids: Vec<i64> = Vec::new();
    assert(numbers(ids@) =~= Seq::empty());
    match monitors.as_array() {
        None => ids,
        Some(items) => {
            let ghost all = models(items@);
            let mut i: usize = 0;
            assert(all.take(0) =~= Seq::empty());
            while i < items.len()
                invariant
                    all == models(items@),
                    i <= items@.len(),
                    numbers(ids@) == seen_workspaces(all.take(i as int)),
                decreases items.len() - i,
            {
                assert(all.take(i + 1).drop_last() =~= all.take(i as int));
                assert(all.take(i + 1).last() == items@[i as int]@);
                add_shown(&items[i], "activeWorkspace", &mut ids);
                add_shown(&items[i], "specialWorkspace", &mut ids);
                i += 1;
            }
            assert(all.take(i as int) =~= all);
            ids
        },
    }
}

/// Whether a window is on screen: it is mapped, not hidden, and on a workspace that can be seen.
pub open spec fn is_on_screen(client: Json, visible: Seq<int>) -> bool {
    let workspace = client.inner("workspace"@).whole_at("id"@, i64::MIN as int, i64::MAX as int);
    client.flag_at("mapped"@) != Some(false) && client.flag_at("hidden"@) != Some(true) && workspace
        is Some && visible.contains(workspace->0)
}

/// Whether a number is in a list.
fn has_number(list: &[i64], n: i64) -> (r: bool)
    ensures
        r == numbers(list@).contains(n as int),
{
    let mut i: usize = 0;
    while i < list.len()
        invariant
            i <= list@.len(),
            forall|k: int| 0 <= k < i ==> list@[k] != n,
        decreases list.len() - i,
    {
        if list[i] == n {
            assert(numbers(list@)[i as int] == n as int);
            return true;
        }
        i += 1;
    }
    false
}

/// Whether a window is on screen.
pub fn on_screen(client: &Value, visible: &[i64]) -> (r: bool)
    ensures
        r == is_on_screen(client@, numbers(visible@)),
{
    let mapped = match client.flag_at("mapped") {
        Some(flag) => flag,
        None => true,
    };
    let hidden = flag(client, "hidden");
    let shown = match client.get_in("workspace", "id") {
        Some(value) => match value.as_i64() {
            Some(id) => has_number(visible, id),
            None => false,
        },
        None => false,
    };
    mapped && !hidden && shown
}

/// A monitor as the list of monitors describes it.
pub open spec fn monitor_model(monitor: Json) -> MonitorModel {
    MonitorModel {
        id: "hypr:"@ + decimal_int(monitor.i64_or("id"@, 0)),
        name: monitor.text_or_empty("name"@),
        width: monitor.i64_or("width"@, 0),
        height: monitor.i64_or("height"@, 0),
        scale: scale_of(monitor.field("scale"@)),
        focused: monitor.flag_at("focused"@) == Some(true),
    }
}

/// A workspace as the list of workspaces describes it. It is active where a monitor shows it.
pub open spec fn workspace_model(workspace: Json, active: Seq<int>) -> WorkspaceModel {
    let id = workspace.i64_or("id"@, 0);
    WorkspaceModel {
        id: "hypr:"@ + decimal_int(id),
        name: workspace.text_or_empty("name"@),
        monitor: workspace.text_or_empty("monitor"@),
        active: active.contains(id),
        urgent: false,
        windows: (match workspace.whole_at("windows"@, 0, u64::MAX as int) {
            Some(n) => n,
            None => 0,
        }) % 0x1_0000_0000,
    }
}

/// The id of the workspace that a monitor shows.
pub open spec fn active_of(monitor: Json) -> Seq<int> {
    match monitor.inner("activeWorkspace"@).whole_at("id"@, i64::MIN as int, i64::MAX as int) {
        Some(id) => seq![id],
        None => Seq::empty(),
    }
}

/// The ids of the workspaces that the monitors show.
pub open spec fn active_workspaces(monitors: Seq<Json>) -> Seq<int>
    decreases monitors.len(),
{
    if monitors.len() == 0 {
        Seq::empty()
    } else {
        active_workspaces(monitors.drop_last()) + active_of(monitors.last())
    }
}

/// The items of an answer, or none where it is no list.
pub open spec fn items_of(answer: Option<Json>) -> Seq<Json> {
    match answer {
        Some(Json::List(items)) => items,
        _ => Seq::empty(),
    }
}

/// What an answer stands for, where there is one.
pub open spec fn said(answer: Option<&Value>) -> Option<Json> {
    match answer {
        Some(value) => Some(value@),
        None => None,
    }
}

/// The names of the monitors.
pub open spec fn monitor_names(monitors: Seq<Json>) -> Seq<Seq<char>> {
    monitors.map_values(|m: Json| m.text_or_empty("name"@))
}

/// The address of the active window.
pub open spec fn active_address(answer: Option<Json>) -> Option<Seq<char>> {
    match answer {
        Some(value) => value.text_at("address"@),
        None => None,
    }
}

/// The regions of the windows that are on screen and have an extent.
pub open spec fn regions_of(
    clients: Seq<Json>,
    active: Option<Seq<char>>,
    names: Seq<Seq<char>>,
    visible: Seq<int>,
) -> Seq<RegionModel>
    decreases clients.len(),
{
    if clients.len() == 0 {
        Seq::empty()
    } else {
        let before = regions_of(clients.drop_last(), active, names, visible);
        let last = region_of(clients.last(), active, names);
        if is_on_screen(clients.last(), visible) && last.width > 0 && last.height > 0 {
            before.push(last)
        } else {
            before
        }
    }
}

/// The names of the monitors of an answer.
fn read_names(monitors: Option<&Value>) -> (r: Vec<String>)
    ensures
        texts(r@) == monitor_names(items_of(said(monitors))),
{
    let mut out: Vec<String> = Vec::new();
    if let Some(value) = monitors {
        if let Some(items) = value.as_array() {
            let ghost all = monitor_names(models(items@));
            let mut i: usize = 0;
            while i < items.len()
                invariant
                    all == monitor_names(models(items@)),
                    i <= items@.len(),
                    texts(out@) =~= all.take(i as int),
                decreases items.len() - i,
            {
                let ghost before = texts(out@);
                out.push(items[i].text_or_empty("name"));
                assert(texts(out@) =~= before.push(all[i as int]));
                i += 1;
            }
            assert(texts(out@) =~= all);
            return out;
        }
    }
    assert(texts(out@) =~= monitor_names(Seq::empty()));
    out
}

/// The address of the active window of an answer.
fn read_address(active: Option<&Value>) -> (r: Option<String>)
    ensures
        match r {
            Some(address) => active_address(said(active)) == Some(address@),
            None => active_address(said(active)) is None,
        },
{
    match active {
        Some(value) => value.text_at("address"),
        None => None,
    }
}

/// The ids of the workspaces that the monitors of an answer show.
fn read_active(monitors: Option<&Value>) -> (r: Vec<i64>)
    ensures
        numbers(r@) == active_workspaces(items_of(said(monitors))),
{
    let mut ids: Vec<i64> = Vec::new();
    assert(numbers(ids@) =~= Seq::empty());
    if let Some(value) = monitors {
        if let Some(items) = value.as_array() {
            let ghost all = models(items@);
            let mut i: usize = 0;
            assert(all.take(0) =~= Seq::empty());
            while i < items.len()
                invariant
                    all == models(items@),
                    i <= items@.len(),
                    numbers(ids@) == active_workspaces(all.take(i as int)),
                decreases items.len() - i,
            {
                assert(all.take(i + 1).drop_last() =~= all.take(i as int));
                assert(all.take(i + 1).last() == items@[i as int]@);
                let ghost before = numbers(ids@);
                let found: Option<i64> = match items[i].get_in("activeWorkspace", "id") {
                    Some(v) => v.as_i64(),
                    None => None,
                };
                if let Some(id) = found {
                    ids.push(id);
                    assert(numbers(ids@) =~= before + seq![id as int]);
                } else {
                    assert(before + Seq::<int>::empty() =~= before);
                }
                i += 1;
            }
            assert(all.take(i as int) =~= all);
            return ids;
        }
    }
    ids
}

impl Hyprland {
    /// The windows, from the list of clients, the active window and the list of monitors. None where
    /// the first is no list.
    pub fn windows(clients: &Value, active: Option<&Value>, monitors: Option<&Value>) -> (r: Option<
        Vec<Window>,
    >)
        ensures
            match clients@.list() {
                None => r is None,
                Some(items) => r is Some && window_models(r->0@) == items.map_values(
                    |c: Json|
                        window_of(
                            c,
                            active_address(said(active)),
                            monitor_names(items_of(said(monitors))),
                        ),
                ),
            },
    {
        let address = read_address(active);
        let names = read_names(monitors);
        let items = match clients.as_array() {
            Some(items) => items,
            None => return None,
        };
        let chosen: Option<&str> = match &address {
            Some(a) => Some(a.as_str()),
            None => None,
        };
        let ghost a = active_address(said(active));
        let ghost n = monitor_names(items_of(said(monitors)));
        let ghost all = models(items@).map_values(|c: Json| window_of(c, a, n));
        let mut out: Vec<Window> = Vec::new();
        let mut i: usize = 0;
        while i < items.len()
            invariant
                maybe(chosen) == a,
                texts(names@) == n,
                all == models(items@).map_values(|c: Json| window_of(c, a, n)),
                i <= items@.len(),
                window_models(out@) =~= all.take(i as int),
            decreases items.len() - i,
        {
            let ghost before = window_models(out@);
            out.push(window(&items[i], chosen, &names));
            assert(window_models(out@) =~= before.push(all[i as int]));
            i += 1;
        }
        assert(window_models(out@) =~= all);
        Some(out)
    }

    /// The workspaces, from the list of them and the list of monitors.
    pub fn workspaces(workspaces: &Value, monitors: Option<&Value>) -> (r: Option<Vec<Workspace>>)
        ensures
            match workspaces@.list() {
                None => r is None,
                Some(items) => r is Some && workspace_models(r->0@) == items.map_values(
                    |w: Json| workspace_model(w, active_workspaces(items_of(said(monitors)))),
                ),
            },
    {
        let active = read_active(monitors);
        let items = match workspaces.as_array() {
            Some(items) => items,
            None => return None,
        };
        let ghost ids = active_workspaces(items_of(said(monitors)));
        let ghost all = models(items@).map_values(|w: Json| workspace_model(w, ids));
        let mut out: Vec<Workspace> = Vec::new();
        let mut i: usize = 0;
        while i < items.len()
            invariant
                numbers(active@) == ids,
                all == models(items@).map_values(|w: Json| workspace_model(w, ids)),
                i <= items@.len(),
                workspace_models(out@) =~= all.take(i as int),
            decreases items.len() - i,
        {
            let item = &items[i];
            let number: i64 = item.i64_or("id", 0);
            let mut id = "hypr:".to_owned();
            id.append(write_i64(number).as_str());
            let count: u64 = match item.u64_at("windows") {
                Some(n) => n,
                None => 0,
            };
            let workspace = Workspace {
                id,
                name: item.text_or_empty("name"),
                monitor: item.text_or_empty("monitor"),
                active: has_number(&active, number),
                urgent: false,
                windows: (count % 0x1_0000_0000) as u32,
            };
            assert(workspace@ =~= workspace_model(item@, ids));
            let ghost before = workspace_models(out@);
            out.push(workspace);
            assert(workspace_models(out@) =~= before.push(all[i as int]));
            i += 1;
        }
        assert(workspace_models(out@) =~= all);
        Some(out)
    }

    /// The monitors, from the list of them.
    pub fn monitors(monitors: &Value) -> (r: Option<Vec<Monitor>>)
        ensures
            match monitors@.list() {
                None => r is None,
                Some(items) => r is Some && monitor_models(r->0@) == items.map_values(
                    |m: Json| monitor_model(m),
                ),
            },
    {
        let items = match monitors.as_array() {
            Some(items) => items,
            None => return None,
        };
        let ghost all = models(items@).map_values(|m: Json| monitor_model(m));
        let mut out: Vec<Monitor> = Vec::new();
        let mut i: usize = 0;
        while i < items.len()
            invariant
                all == models(items@).map_values(|m: Json| monitor_model(m)),
                i <= items@.len(),
                monitor_models(out@) =~= all.take(i as int),
            decreases items.len() - i,
        {
            let item = &items[i];
            let mut id = "hypr:".to_owned();
            id.append(write_i64(item.i64_or("id", 0)).as_str());
            let monitor = Monitor {
                id,
                name: item.text_or_empty("name"),
                width: item.i64_or("width", 0),
                height: item.i64_or("height", 0),
                scale: read_scale(item.get("scale")),
                focused: flag(item, "focused"),
            };
            assert(monitor@ =~= monitor_model(item@));
            let ghost before = monitor_models(out@);
            out.push(monitor);
            assert(monitor_models(out@) =~= before.push(all[i as int]));
            i += 1;
        }
        assert(monitor_models(out@) =~= all);
        Some(out)
    }

    /// Where the windows that can be seen are on screen.
    pub fn window_regions(clients: &Value, monitors: &Value, active: Option<&Value>) -> (r: Option<
        Vec<WindowRegion>,
    >)
        ensures
            match clients@.list() {
                None => r is None,
                Some(items) => r is Some && region_models(r->0@) == regions_of(
                    items,
                    active_address(said(active)),
                    monitor_names(items_of(Some(monitors@))),
                    seen_workspaces(items_of(Some(monitors@))),
                ),
            },
    {
        let address = read_address(active);
        let names = read_names(Some(monitors));
        let visible = visible_workspaces(monitors);
        let items = match clients.as_array() {
            Some(items) => items,
            None => return None,
        };
        let chosen: Option<&str> = match &address {
            Some(a) => Some(a.as_str()),
            None => None,
        };
        let ghost a = active_address(said(active));
        let ghost n = monitor_names(items_of(Some(monitors@)));
        let ghost seen = seen_workspaces(items_of(Some(monitors@)));
        let ghost all = models(items@);
        let mut out: Vec<WindowRegion> = Vec::new();
        let mut i: usize = 0;
        assert(all.take(0) =~= Seq::empty());
        assert(region_models(out@) =~= Seq::empty());
        while i < items.len()
            invariant
                maybe(chosen) == a,
                texts(names@) == n,
                numbers(visible@) == seen,
                all == models(items@),
                i <= items@.len(),
                region_models(out@) == regions_of(all.take(i as int), a, n, seen),
            decreases items.len() - i,
        {
            assert(all.take(i + 1).drop_last() =~= all.take(i as int));
            assert(all.take(i + 1).last() == items@[i as int]@);
            if on_screen(&items[i], &visible) {
                let found = region(&items[i], chosen, &names);
                if found.width > 0 && found.height > 0 {
                    let ghost before = region_models(out@);
                    out.push(found);
                    assert(region_models(out@) =~= before.push(found@));
                }
            }
            i += 1;
        }
        assert(all.take(i as int) =~= all);
        Some(out)
    }
}

/// A window is read as it is reported: each of its texts, its place and its extent, and it has the
/// focus where the active window has its address.
pub proof fn a_window_is_read_as_reported(
    client: Json,
    active: Option<Seq<char>>,
    names: Seq<Seq<char>>,
    address: Seq<char>,
    class: Seq<char>,
    title: Seq<char>,
    x: i64,
    y: i64,
    width: i64,
    height: i64,
    workspace: Json,
    name: Seq<char>,
    on: i64,
)
    requires
        client.field("address"@) == Some(Json::Text(address)),
        client.field("class"@) == Some(Json::Text(class)),
        client.field("title"@) == Some(Json::Text(title)),
        client.field("at"@) == Some(Json::List(seq![Json::Whole(x as int), Json::Whole(y as int)])),
        client.field("size"@) == Some(
            Json::List(seq![Json::Whole(width as int), Json::Whole(height as int)]),
        ),
        client.field("workspace"@) == Some(workspace),
        workspace.field("name"@) == Some(Json::Text(name)),
    ensures
        window_of(client, active, names).app_id == class,
        window_of(client, active, names).title == title,
        window_of(client, active, names).x == x,
        window_of(client, active, names).y == y,
        window_of(client, active, names).workspace == name,
        window_of(client, active, names).focused <==> active == Some(address),
        window_of(client, active, names).floating <==> client.field("floating"@) == Some(
            Json::Bool(true),
        ),
        client.field("monitor"@) == Some(Json::Whole(on as int)) && 0 <= on < names.len()
            ==> window_of(client, active, names).monitor == names[on as int],
        resolved(window_of(client, active, names).id) == Ok::<(Backend, Seq<char>), Seq<char>>(
            (Backend::Hypr, address),
        ),
        region_of(client, active, names).id == window_of(client, active, names).id,
        region_of(client, active, names).title == title,
        region_of(client, active, names).app_id == class,
        region_of(client, active, names).focused <==> active == Some(address),
        region_of(client, active, names).x == x,
        region_of(client, active, names).y == y,
        region_of(client, active, names).width == width,
        region_of(client, active, names).height == height,
{
    an_id_is_of_hyprland(address);
    let place = client.list_at("at"@);
    let extent = client.list_at("size"@);
    assert(place[0] == Json::Whole(x as int) && place[1] == Json::Whole(y as int));
    assert(extent[0] == Json::Whole(width as int) && extent[1] == Json::Whole(height as int));
}

/// An id that begins as Hyprland's do leads to the handle.
proof fn an_id_is_of_hyprland(handle: Seq<char>)
    ensures
        resolved("hypr:"@ + handle) == Ok::<(Backend, Seq<char>), Seq<char>>(
            (Backend::Hypr, handle),
        ),
{
    reveal_strlit("hypr:");
    reveal_strlit("hypr");
    reveal_strlit(":");
    assert("hypr:"@ =~= "hypr"@ + ":"@);
    a_qualified_id_leads_back(Backend::Hypr, handle);
}

/// A workspace is read as it is reported, is active where a monitor shows it, and its id leads to it.
pub proof fn a_workspace_is_read_as_reported(
    workspace: Json,
    active: Seq<int>,
    id: i64,
    name: Seq<char>,
    monitor: Seq<char>,
    windows: u32,
)
    requires
        workspace.field("id"@) == Some(Json::Whole(id as int)),
        workspace.field("name"@) == Some(Json::Text(name)),
        workspace.field("monitor"@) == Some(Json::Text(monitor)),
        workspace.field("windows"@) == Some(Json::Whole(windows as int)),
    ensures
        workspace_model(workspace, active).name == name,
        workspace_model(workspace, active).monitor == monitor,
        workspace_model(workspace, active).windows == windows,
        workspace_model(workspace, active).active <==> active.contains(id as int),
        !workspace_model(workspace, active).urgent,
        resolved(workspace_model(workspace, active).id) == Ok::<(Backend, Seq<char>), Seq<char>>(
            (Backend::Hypr, decimal_int(id as int)),
        ),
{
    an_id_is_of_hyprland(decimal_int(id as int));
}

/// A monitor is read as it is reported.
pub proof fn a_monitor_is_read_as_reported(
    monitor: Json,
    name: Seq<char>,
    width: i64,
    height: i64,
)
    requires
        monitor.field("name"@) == Some(Json::Text(name)),
        monitor.field("width"@) == Some(Json::Whole(width as int)),
        monitor.field("height"@) == Some(Json::Whole(height as int)),
    ensures
        monitor_model(monitor).name == name,
        monitor_model(monitor).width == width,
        monitor_model(monitor).height == height,
        monitor_model(monitor).focused <==> monitor.field("focused"@) == Some(Json::Bool(true)),
{
}

/// A workspace that a monitor shows is seen and active, and so is a special one over it seen.
pub proof fn a_shown_workspace_is_seen(monitors: Seq<Json>, k: int, shown: Json, id: i64)
    requires
        0 <= k < monitors.len(),
        monitors[k].field("activeWorkspace"@) == Some(shown) || monitors[k].field(
            "specialWorkspace"@,
        ) == Some(shown),
        shown.field("id"@) == Some(Json::Whole(id as int)),
        id != 0,
    ensures
        seen_workspaces(monitors).contains(id as int),
        monitors[k].field("activeWorkspace"@) == Some(shown) ==> active_workspaces(
            monitors,
        ).contains(id as int),
    decreases monitors.len(),
{
    let front = monitors.drop_last();
    let a = seen_workspaces(front);
    let b = shown_workspace(monitors.last(), "activeWorkspace"@);
    let c = shown_workspace(monitors.last(), "specialWorkspace"@);
    let d = active_workspaces(front);
    if k < front.len() {
        a_shown_workspace_is_seen(front, k, shown, id);
        let x = choose|x: int| 0 <= x < a.len() && a[x] == id as int;
        assert((a + b + c)[x] == id as int);
        if monitors[k].field("activeWorkspace"@) == Some(shown) {
            let y = choose|y: int| 0 <= y < d.len() && d[y] == id as int;
            assert((d + active_of(monitors.last()))[y] == id as int);
        }
    } else {
        if monitors[k].field("activeWorkspace"@) == Some(shown) {
            assert((a + b + c)[a.len() as int] == id as int);
            assert((d + active_of(monitors.last()))[d.len() as int] == id as int);
        } else {
            assert((a + b + c)[(a.len() + b.len()) as int] == id as int);
        }
    }
}

/// What is offered for capture is on screen: each region is that of a window that is mapped, not
/// hidden, on a workspace that can be seen, and has an extent; and every such window is offered.
pub proof fn what_is_offered_is_on_screen(
    clients: Seq<Json>,
    active: Option<Seq<char>>,
    names: Seq<Seq<char>>,
    visible: Seq<int>,
)
    ensures
        forall|k: int|
            0 <= k < regions_of(clients, active, names, visible).len() ==> (#[trigger] regions_of(
                clients,
                active,
                names,
                visible,
            )[k]).width > 0 && regions_of(clients, active, names, visible)[k].height > 0,
        forall|i: int|
            0 <= i < clients.len() && (#[trigger] clients[i]).field("mapped"@) == Some(
                Json::Bool(false),
            ) ==> !is_on_screen(clients[i], visible),
        forall|i: int|
            0 <= i < clients.len() && (#[trigger] clients[i]).field("hidden"@) == Some(
                Json::Bool(true),
            ) ==> !is_on_screen(clients[i], visible),
        forall|i: int|
            0 <= i < clients.len() && is_on_screen(#[trigger] clients[i], visible) && region_of(
                clients[i],
                active,
                names,
            ).width > 0 && region_of(clients[i], active, names).height > 0 ==> regions_of(
                clients,
                active,
                names,
                visible,
            ).contains(region_of(clients[i], active, names)),
    decreases clients.len(),
{
    if clients.len() > 0 {
        let front = clients.drop_last();
        what_is_offered_is_on_screen(front, active, names, visible);
        let before = regions_of(front, active, names, visible);
        let all = regions_of(clients, active, names, visible);
        let last = region_of(clients.last(), active, names);
        assert forall|k: int| 0 <= k < all.len() implies (#[trigger] all[k]).width > 0
            && all[k].height > 0 by {
            if k < before.len() {
                assert(all[k] == before[k]);
            }
        }
        assert forall|i: int|
            0 <= i < clients.len() && is_on_screen(#[trigger] clients[i], visible) && region_of(
                clients[i],
                active,
                names,
            ).width > 0 && region_of(clients[i], active, names).height > 0 implies all.contains(
            region_of(clients[i], active, names),
        ) by {
            if i < front.len() {
                assert(front[i] == clients[i]);
                let x = choose|x: int|
                    0 <= x < before.len() && before[x] == region_of(clients[i], active, names);
                assert(all[x] == before[x]);
            } else {
                assert(all[before.len() as int] == last);
            }
        }
    }
}

} // verus!
