//! niri: what its answers say.

use vstd::prelude::*;
use vstd::string::*;

use crate::compositor::{
    a_qualified_id_leads_back, monitor_models, read_scale, resolved, scale_of, window_models,
    workspace_models, Backend, Monitor, MonitorModel, Window, WindowModel, Workspace,
    WorkspaceModel,
};
use crate::json::{field_models, models, Json, Value};
use crate::number::{decimal_int, write_i64};

verus! {

/// niri.
#[derive(Debug, Clone, Copy)]
pub struct Niri;

/// The name of a workspace: its own where it has one, otherwise its index, otherwise its id, so
/// that there is always something to read.
pub open spec fn name_of(workspace: Json, id: int) -> Seq<char> {
    if workspace.text_or_empty("name"@).len() > 0 {
        workspace.text_or_empty("name"@)
    } else {
        decimal_int(workspace.i64_or("idx"@, id))
    }
}

/// The name of a workspace.
pub fn workspace_name(workspace: &Value, id: i64) -> (r: String)
    ensures
        r@ == name_of(workspace@, id as int),
{
    let name = workspace.text_or_empty("name");
    if !name.as_str().is_empty() {
        return name;
    }
    write_i64(workspace.i64_or("idx", id))
}

/// The name of the workspace with an id; of several the last counts.
pub open spec fn name_in(workspaces: Seq<Json>, id: int) -> Seq<char>
    decreases workspaces.len(),
{
    if workspaces.len() == 0 {
        Seq::empty()
    } else if workspaces.last().whole_at("id"@, i64::MIN as int, i64::MAX as int) == Some(id) {
        name_of(workspaces.last(), id)
    } else {
        name_in(workspaces.drop_last(), id)
    }
}

/// The workspaces of an answer, or none where there is none.
pub open spec fn workspaces_in(answer: Option<&Value>) -> Seq<Json> {
    match answer {
        Some(value) => match value@ {
            Json::List(items) => items,
            _ => Seq::empty(),
        },
        None => Seq::empty(),
    }
}

/// The name of the workspace with an id.
fn find_name(answer: Option<&Value>, id: i64) -> (r: String)
    ensures
        r@ == name_in(workspaces_in(answer), id as int),
{
    if let Some(value) = answer {
        if let Some(items) = value.as_array() {
            let ghost all = models(items@);
            let mut i: usize = items.len();
            assert(all.take(i as int) =~= all);
            while i > 0
                invariant
                    all == models(items@),
                    all == workspaces_in(answer),
                    i <= items@.len(),
                    name_in(all, id as int) == name_in(all.take(i as int), id as int),
                decreases i,
            {
                assert(all.take(i as int).last() == items@[i - 1]@);
                assert(all.take(i as int).drop_last() =~= all.take(i - 1));
                if let Some(other) = items[i - 1].i64_at("id") {
                    if other == id {
                        return workspace_name(&items[i - 1], id);
                    }
                }
                i -= 1;
            }
            let r = String::new();
            assert(r@ =~= name_in(all, id as int));
            return r;
        }
    }
    let r = String::new();
    assert(r@ =~= Seq::empty());
    r
}

/// A window as the list of windows describes it. Its workspace is told by an id, and its position
/// is none on screen.
pub open spec fn window_of(window: Json, workspaces: Seq<Json>) -> WindowModel {
    WindowModel {
        id: "niri:"@ + decimal_int(window.i64_or("id"@, 0)),
        app_id: window.text_or_empty("app_id"@),
        title: window.text_or_empty("title"@),
        workspace: match window.whole_at("workspace_id"@, i64::MIN as int, i64::MAX as int) {
            Some(id) => name_in(workspaces, id),
            None => Seq::empty(),
        },
        monitor: window.text_or_empty("output"@),
        focused: window.flag_at("is_focused"@) == Some(true),
        floating: window.flag_at("is_floating"@) == Some(true),
        x: 0,
        y: 0,
    }
}

/// A workspace as the list of workspaces describes it.
pub open spec fn workspace_model(workspace: Json) -> WorkspaceModel {
    let id = workspace.i64_or("id"@, 0);
    WorkspaceModel {
        id: "niri:"@ + decimal_int(id),
        name: name_of(workspace, id),
        monitor: workspace.text_or_empty("output"@),
        active: workspace.flag_at("is_active"@) == Some(true),
        urgent: workspace.flag_at("is_urgent"@) == Some(true),
        windows: 0,
    }
}

/// A monitor as an output describes it, which has a name of its own or the key that it stands under.
pub open spec fn monitor_model(key: Seq<char>, output: Json) -> MonitorModel {
    let logical = output.inner("logical"@);
    MonitorModel {
        id: "niri:"@ + key,
        name: match output.text_at("name"@) {
            Some(name) => name,
            None => key,
        },
        width: logical.i64_or("width"@, 0),
        height: logical.i64_or("height"@, 0),
        scale: scale_of(logical.field("scale"@)),
        focused: output.flag_at("is_focused"@) == Some(true),
    }
}

/// The outputs with their keys: by connector, or in a list where each names itself.
pub open spec fn outputs_of(outputs: Json) -> Option<Seq<(Seq<char>, Json)>> {
    match outputs {
        Json::Object(fields) => Some(fields),
        Json::List(items) => Some(items.map_values(|o: Json| (o.text_or_empty("name"@), o))),
        _ => None,
    }
}

/// Whether a flag is set.
fn flag(value: &Value, name: &str) -> (r: bool)
    ensures
        r == (value@.flag_at(name@) == Some(true)),
{
    match value.flag_at(name) {
        Some(flag) => flag,
        None => false,
    }
}

/// A number within the logical part of an output.
fn logical(output: &Value, name: &str) -> (r: i64)
    ensures
        r == output@.inner("logical"@).i64_or(name@, 0),
{
    match output.get_in("logical", name) {
        Some(v) => match v.as_i64() {
            Some(n) => n,
            None => 0,
        },
        None => 0,
    }
}

/// A monitor as an output describes it.
fn monitor(key: String, output: &Value) -> (r: Monitor)
    ensures
        r@ == monitor_model(key@, output@),
{
    let mut id = "niri:".to_owned();
    id.append(key.as_str());
    let name = match output.text_at("name") {
        Some(name) => name,
        None => key,
    };
    let r = Monitor {
        id,
        name,
        width: logical(output, "width"),
        height: logical(output, "height"),
        scale: read_scale(output.get_in("logical", "scale")),
        focused: flag(output, "is_focused"),
    };
    assert(r@ =~= monitor_model(key@, output@));
    r
}

impl Niri {
    /// The windows, from the list of them and that of the workspaces.
    pub fn windows(windows: &Value, workspaces: Option<&Value>) -> (r: Option<Vec<Window>>)
        ensures
            match windows@.list() {
                None => r is None,
                Some(items) => r is Some && window_models(r->0@) == items.map_values(
                    |w: Json| window_of(w, workspaces_in(workspaces)),
                ),
            },
    {
        let items = match windows.as_array() {
            Some(items) => items,
            None => return None,
        };
        let ghost ws = workspaces_in(workspaces);
        let ghost all = models(items@).map_values(|w: Json| window_of(w, ws));
        let mut out: Vec<Window> = Vec::new();
        let mut i: usize = 0;
        while i < items.len()
            invariant
                ws == workspaces_in(workspaces),
                all == models(items@).map_values(|w: Json| window_of(w, ws)),
                i <= items@.len(),
                window_models(out@) =~= all.take(i as int),
            decreases items.len() - i,
        {
            let item = &items[i];
            let mut id = "niri:".to_owned();
            id.append(write_i64(item.i64_or("id", 0)).as_str());
            let workspace = match item.i64_at("workspace_id") {
                Some(id) => find_name(workspaces, id),
                None => String::new(),
            };
            let window = Window {
                id,
                app_id: item.text_or_empty("app_id"),
                title: item.text_or_empty("title"),
                workspace,
                monitor: item.text_or_empty("output"),
                focused: flag(item, "is_focused"),
                floating: flag(item, "is_floating"),
                x: 0,
                y: 0,
            };
            assert(window@ =~= window_of(item@, ws));
            let ghost before = window_models(out@);
            out.push(window);
            assert(window_models(out@) =~= before.push(all[i as int]));
            i += 1;
        }
        assert(window_models(out@) =~= all);
        Some(out)
    }

    /// The workspaces, from the list of them.
    pub fn workspaces(workspaces: &Value) -> (r: Option<Vec<Workspace>>)
        ensures
            match workspaces@.list() {
                None => r is None,
                Some(items) => r is Some && workspace_models(r->0@) == items.map_values(
                    |w: Json| workspace_model(w),
                ),
            },
    {
        let items = match workspaces.as_array() {
            Some(items) => items,
            None => return None,
        };
        let ghost all = models(items@).map_values(|w: Json| workspace_model(w));
        let mut out: Vec<Workspace> = Vec::new();
        let mut i: usize = 0;
        while i < items.len()
            invariant
                all == models(items@).map_values(|w: Json| workspace_model(w)),
                i <= items@.len(),
                workspace_models(out@) =~= all.take(i as int),
            decreases items.len() - i,
        {
            let item = &items[i];
            let number: i64 = item.i64_or("id", 0);
            let mut id = "niri:".to_owned();
            id.append(write_i64(number).as_str());
            let workspace = Workspace {
                id,
                name: workspace_name(item, number),
                monitor: item.text_or_empty("output"),
                active: flag(item, "is_active"),
                urgent: flag(item, "is_urgent"),
                windows: 0,
            };
            let ghost before = workspace_models(out@);
            out.push(workspace);
            assert(workspace_models(out@) =~= before.push(all[i as int]));
            i += 1;
        }
        assert(workspace_models(out@) =~= all);
        Some(out)
    }

    /// The monitors, from the outputs.
    pub fn monitors(outputs: &Value) -> (r: Option<Vec<Monitor>>)
        ensures
            match outputs_of(outputs@) {
                None => r is None,
                Some(entries) => r is Some && monitor_models(r->0@) == entries.map_values(
                    |e: (Seq<char>, Json)| monitor_model(e.0, e.1),
                ),
            },
    {
        let mut out: Vec<Monitor> = Vec::new();
        let mut i: usize = 0;
        if let Some(fields) = outputs.as_object() {
            let ghost all = field_models(fields@).map_values(
                |e: (Seq<char>, Json)| monitor_model(e.0, e.1),
            );
            while i < fields.len()
                invariant
                    all == field_models(fields@).map_values(
                        |e: (Seq<char>, Json)| monitor_model(e.0, e.1),
                    ),
                    i <= fields@.len(),
                    monitor_models(out@) =~= all.take(i as int),
                decreases fields.len() - i,
            {
                let ghost before = monitor_models(out@);
                out.push(monitor(fields[i].0.clone(), &fields[i].1));
                assert(monitor_models(out@) =~= before.push(all[i as int]));
                i += 1;
            }
            assert(monitor_models(out@) =~= all);
            return Some(out);
        }
        if let Some(items) = outputs.as_array() {
            let ghost entries = models(items@).map_values(
                |o: Json| (o.text_or_empty("name"@), o),
            );
            let ghost all = entries.map_values(|e: (Seq<char>, Json)| monitor_model(e.0, e.1));
            while i < items.len()
                invariant
                    entries == models(items@).map_values(|o: Json| (o.text_or_empty("name"@), o)),
                    all == entries.map_values(|e: (Seq<char>, Json)| monitor_model(e.0, e.1)),
                    i <= items@.len(),
                    monitor_models(out@) =~= all.take(i as int),
                decreases items.len() - i,
            {
                let ghost before = monitor_models(out@);
                out.push(monitor(items[i].text_or_empty("name"), &items[i]));
                assert(monitor_models(out@) =~= before.push(all[i as int]));
                i += 1;
            }
            assert(monitor_models(out@) =~= all);
            return Some(out);
        }
        None
    }
}

/// A window is read as it is reported, is on the workspace whose id it names, and its own id leads to
/// it.
pub proof fn a_window_is_read_as_reported(
    window: Json,
    workspaces: Seq<Json>,
    id: i64,
    app: Seq<char>,
    title: Seq<char>,
    on: i64,
    k: int,
    name: Seq<char>,
)
    requires
        window.field("id"@) == Some(Json::Whole(id as int)),
        window.field("app_id"@) == Some(Json::Text(app)),
        window.field("title"@) == Some(Json::Text(title)),
        window.field("workspace_id"@) == Some(Json::Whole(on as int)),
        0 <= k < workspaces.len(),
        workspaces[k].field("id"@) == Some(Json::Whole(on as int)),
        workspaces[k].field("name"@) == Some(Json::Text(name)),
        name.len() > 0,
        forall|j: int|
            k < j < workspaces.len() ==> (#[trigger] workspaces[j]).field("id"@) != Some(
                Json::Whole(on as int),
            ),
    ensures
        window_of(window, workspaces).app_id == app,
        window_of(window, workspaces).title == title,
        window_of(window, workspaces).workspace == name,
        window_of(window, workspaces).focused <==> window.field("is_focused"@) == Some(
            Json::Bool(true),
        ),
        window_of(window, workspaces).floating <==> window.field("is_floating"@) == Some(
            Json::Bool(true),
        ),
        resolved(window_of(window, workspaces).id) == Ok::<(Backend, Seq<char>), Seq<char>>(
            (Backend::Niri, decimal_int(id as int)),
        ),
{
    reveal_strlit("niri:");
    reveal_strlit("niri");
    reveal_strlit(":");
    assert("niri:"@ =~= "niri"@ + ":"@);
    a_qualified_id_leads_back(Backend::Niri, decimal_int(id as int));
    a_name_is_found(workspaces, on, k, name);
}

/// The last workspace with an id gives the name.
proof fn a_name_is_found(workspaces: Seq<Json>, id: i64, k: int, name: Seq<char>)
    requires
        0 <= k < workspaces.len(),
        workspaces[k].field("id"@) == Some(Json::Whole(id as int)),
        workspaces[k].field("name"@) == Some(Json::Text(name)),
        name.len() > 0,
        forall|j: int|
            k < j < workspaces.len() ==> (#[trigger] workspaces[j]).field("id"@) != Some(
                Json::Whole(id as int),
            ),
    ensures
        name_in(workspaces, id as int) == name,
    decreases workspaces.len(),
{
    if k < workspaces.len() - 1 {
        let front = workspaces.drop_last();
        assert(workspaces[workspaces.len() - 1].field("id"@) != Some(Json::Whole(id as int)));
        assert forall|j: int| k < j < front.len() implies (#[trigger] front[j]).field("id"@) != Some(
            Json::Whole(id as int),
        ) by {
            assert(workspaces[j].field("id"@) != Some(Json::Whole(id as int)));
        }
        a_name_is_found(front, id, k, name);
    }
}

/// A workspace and a monitor are read as they are reported.
pub proof fn a_workspace_and_a_monitor_are_read_as_reported(
    workspace: Json,
    key: Seq<char>,
    output: Json,
    logical: Json,
    name: Seq<char>,
    monitor: Seq<char>,
    width: i64,
    height: i64,
)
    requires
        workspace.field("name"@) == Some(Json::Text(name)),
        name.len() > 0,
        workspace.field("output"@) == Some(Json::Text(monitor)),
        output.field("name"@) == Some(Json::Text(monitor)),
        output.field("logical"@) == Some(logical),
        logical.field("width"@) == Some(Json::Whole(width as int)),
        logical.field("height"@) == Some(Json::Whole(height as int)),
    ensures
        workspace_model(workspace).name == name,
        workspace_model(workspace).monitor == monitor,
        workspace_model(workspace).active <==> workspace.field("is_active"@) == Some(
            Json::Bool(true),
        ),
        workspace_model(workspace).urgent <==> workspace.field("is_urgent"@) == Some(
            Json::Bool(true),
        ),
        monitor_model(key, output).name == monitor,
        monitor_model(key, output).width == width,
        monitor_model(key, output).height == height,
        monitor_model(key, output).focused <==> output.field("is_focused"@) == Some(
            Json::Bool(true),
        ),
{
}

/// The monitors are those that are reported, by their names, whether as fields or as a list.
pub proof fn monitors_go_by_their_names(fields: Seq<(Seq<char>, Json)>, items: Seq<Json>, i: int)
    requires
        0 <= i < items.len(),
    ensures
        outputs_of(Json::Object(fields)) == Some(fields),
        outputs_of(Json::List(items)) is Some,
        outputs_of(Json::List(items))->0.len() == items.len(),
        (outputs_of(Json::List(items))->0)[i].1 == items[i],
        (outputs_of(Json::List(items))->0)[i].0 == items[i].text_or_empty("name"@),
{
}

} // verus!
