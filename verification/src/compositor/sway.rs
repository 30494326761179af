//! Sway and compositors with the same tree: what their answers say.

use vstd::prelude::*;
use vstd::string::*;

use crate::compositor::{
    a_qualified_id_leads_back, monitor_models, read_scale, resolved, scale_of, window_models,
    workspace_models, Backend, Monitor, MonitorModel, Window, WindowModel, Workspace,
    WorkspaceModel,
};
use crate::json::{field_models, group_models, models, Json, Value};
use crate::number::{decimal_int, write_i64};
use crate::text::same;

verus! {

/// Sway.
#[derive(Debug, Clone, Copy)]
pub struct Sway;

/// The name of the workspace that holds what is in a node: its own where it is a workspace.
pub open spec fn workspace_in(node: Json, workspace: Seq<char>) -> Seq<char> {
    if node.text_at("type"@) == Some("workspace"@) {
        node.text_or_empty("name"@)
    } else {
        workspace
    }
}

/// The application of a node: its id, or its class where it has none.
pub open spec fn app_of(node: Json) -> Seq<char> {
    match node.text_at("app_id"@) {
        Some(app) => app,
        None => node.inner("window_properties"@).text_or_empty("class"@),
    }
}

/// The window that a node is, if it is one: it has an application and a name.
pub open spec fn own_window(node: Json, workspace: Seq<char>) -> Seq<WindowModel> {
    if app_of(node).len() > 0 && node.text_at("name"@) is Some {
        seq![
            WindowModel {
                id: "sway:"@ + decimal_int(node.i64_or("id"@, 0)),
                app_id: app_of(node),
                title: node.text_at("name"@)->0,
                workspace: workspace_in(node, workspace),
                monitor: Seq::empty(),
                focused: node.flag_at("focused"@) == Some(true),
                floating: false,
                x: 0,
                y: 0,
            },
        ]
    } else {
        Seq::empty()
    }
}

/// The index of the first field of that name, or the number of fields.
pub open spec fn field_index(fields: Seq<(Seq<char>, Json)>, name: Seq<char>) -> int
    decreases fields.len(),
{
    if fields.len() == 0 || fields[0].0 == name {
        0
    } else {
        1 + field_index(fields.drop_first(), name)
    }
}

/// The windows in a tree: that of the node, then those of its children, then those of the ones that
/// float. Each is on the workspace that it is nested under.
pub open spec fn windows_in(node: Json, workspace: Seq<char>) -> Seq<WindowModel>
    decreases node,
{
    let inside = workspace_in(node, workspace);
    own_window(node, workspace) + windows_under(node, "nodes"@, inside) + windows_under(
        node,
        "floating_nodes"@,
        inside,
    )
}

/// The windows of the children that stand in a field of a node.
pub open spec fn windows_under(node: Json, name: Seq<char>, workspace: Seq<char>) -> Seq<WindowModel>
    decreases node, 0int,
{
    match node {
        Json::Object(fields) => {
            let i = field_index(fields, name);
            if 0 <= i < fields.len() {
                match fields[i].1 {
                    Json::List(items) => windows_of_all(items, workspace),
                    _ => Seq::empty(),
                }
            } else {
                Seq::empty()
            }
        },
        _ => Seq::empty(),
    }
}

/// The windows of some nodes, one after the other.
pub open spec fn windows_of_all(nodes: Seq<Json>, workspace: Seq<char>) -> Seq<WindowModel>
    decreases nodes,
{
    if nodes.len() == 0 {
        Seq::empty()
    } else {
        windows_of_all(nodes.drop_last(), workspace) + windows_in(nodes.last(), workspace)
    }
}

/// Whether a flag is set.
fn flag(value: &Value, name: &str) -> (r: bool)
    ensures
        r == (value@.flag_at(name@) == Some(true)),
{
    match value.flag_at(name) {
        Some(flag) => flag,
        None => false,
    }
}

/// The window that a node is, if it is one.
fn read_window(node: &Value, workspace: &str) -> (r: Option<Window>)
    ensures
        own_window(node@, workspace@) == (match r {
            Some(window) => seq![window@],
            None => Seq::empty(),
        }),
{
    let app = match node.text_at("app_id") {
        Some(app) => app,
        None => match node.get("window_properties") {
            Some(properties) => properties.text_or_empty("class"),
            None => String::new(),
        },
    };
    assert(app@ =~= app_of(node@));
    if app.as_str().is_empty() {
        return None;
    }
    let title = match node.text_at("name") {
        Some(title) => title,
        None => return None,
    };
    let mut id = "sway:".to_owned();
    id.append(write_i64(node.i64_or("id", 0)).as_str());
    let window = Window {
        id,
        app_id: app,
        title,
        workspace: enclosing(node, workspace),
        monitor: String::new(),
        focused: flag(node, "focused"),
        floating: false,
        x: 0,
        y: 0,
    };
    assert(window@ =~= own_window(node@, workspace@)[0]);
    assert(seq![window@] =~= own_window(node@, workspace@));
    Some(window)
}

/// The name of the workspace that holds what is in a node.
fn enclosing(node: &Value, workspace: &str) -> (r: String)
    ensures
        r@ == workspace_in(node@, workspace@),
{
    let is_workspace = match node.text_at("type") {
        Some(kind) => same(kind.as_str(), "workspace"),
        None => false,
    };
    if is_workspace {
        node.text_or_empty("name")
    } else {
        workspace.to_owned()
    }
}

/// Adds the windows in a tree.
pub fn collect(node: &Value, workspace: &str, out: &mut Vec<Window>)
    ensures
        window_models(final(out)@) == window_models(old(out)@) + windows_in(node@, workspace@),
    decreases node, 1int,
{
    let ghost start = window_models(out@);
    let inside = enclosing(node, workspace);
    match read_window(node, workspace) {
        Some(window) => {
            out.push(window);
            assert(window_models(out@) =~= start + seq![window@]);
        },
        None => {
            assert(start + Seq::<WindowModel>::empty() =~= start);
        },
    }
    let ghost own = own_window(node@, workspace@);
    collect_under(node, "nodes", inside.as_str(), out);
    collect_under(node, "floating_nodes", inside.as_str(), out);
    let ghost a = windows_under(node@, "nodes"@, inside@);
    let ghost b = windows_under(node@, "floating_nodes"@, inside@);
    assert(start + own + a + b =~= start + (own + a + b));
}

/// Adds the windows of the children in a field of a node.
fn collect_under(node: &Value, name: &str, workspace: &str, out: &mut Vec<Window>)
    ensures
        window_models(final(out)@) == window_models(old(out)@) + windows_under(
            node@,
            name@,
            workspace@,
        ),
    decreases node, 0int,
{
    broadcast use group_models;

    let ghost start = window_models(out@);
    if let Value::Object(fields) = node {
        let ghost all = field_models(fields@);
        assert(node@ == Json::Object(all));
        let mut i: usize = 0;
        assert(all.skip(0) =~= all);
        while i < fields.len()
            invariant
                *node == Value::Object(*fields),
                all == field_models(fields@),
                node@ == Json::Object(all),
                i <= fields@.len(),
                field_index(all, name@) == i + field_index(all.skip(i as int), name@),
                start == window_models(old(out)@),
                window_models(out@) == start,
            decreases fields.len() - i,
        {
            broadcast use group_models;

            assert(all.skip(i as int).drop_first() =~= all.skip(i + 1));
            assert(all.skip(i as int)[0] == (fields@[i as int].0@, fields@[i as int].1@));
            if same(fields[i].0.as_str(), name) {
                assert(field_index(all, name@) == i);
                assert(all[i as int].1 == fields@[i as int].1@);
                if let Value::List(items) = &fields[i].1 {
                    let ghost nodes = models(items@);
                    assert(fields@[i as int].1@ == Json::List(nodes));
                    let mut k: usize = 0;
                    assert(nodes.take(0) =~= Seq::empty());
                    assert(start + windows_of_all(nodes.take(0), workspace@) =~= start);
                    while k < items.len()
                        invariant
                            *node == Value::Object(*fields),
                            i < fields@.len(),
                            start == window_models(old(out)@),
                            fields@[i as int].1 == Value::List(*items),
                            nodes == models(items@),
                            k <= items@.len(),
                            window_models(out@) == start + windows_of_all(
                                nodes.take(k as int),
                                workspace@,
                            ),
                        decreases items.len() - k,
                    {
                        assert(decreases_to!(*node => node->Object_0));
                        assert(decreases_to!(fields@[i as int] => fields@[i as int].1));
                        assert(decreases_to!(fields@[i as int].1 => fields@[i as int].1->List_0));
                        assert(nodes.take(k + 1).drop_last() =~= nodes.take(k as int));
                        assert(nodes.take(k + 1).last() == items@[k as int]@);
                        let ghost before = window_models(out@);
                        collect(&items[k], workspace, out);
                        assert(window_models(out@) =~= start + windows_of_all(
                            nodes.take(k + 1),
                            workspace@,
                        ));
                        k += 1;
                    }
                    assert(nodes.take(k as int) =~= nodes);
                    assert(windows_under(node@, name@, workspace@) == windows_of_all(
                        nodes,
                        workspace@,
                    ));
                    return;
                }
                assert(!(fields@[i as int].1@ is List));
                assert(start + Seq::<WindowModel>::empty() =~= start);
                return;
            }
            i += 1;
        }
        assert(all.skip(i as int).len() == 0);
    }
    assert(start + Seq::<WindowModel>::empty() =~= start);
}

/// A workspace as the list of workspaces describes it.
pub open spec fn workspace_model(workspace: Json) -> WorkspaceModel {
    WorkspaceModel {
        id: "sway:"@ + decimal_int(workspace.i64_or("num"@, 0)),
        name: workspace.text_or_empty("name"@),
        monitor: workspace.text_or_empty("output"@),
        active: workspace.flag_at("focused"@) == Some(true),
        urgent: workspace.flag_at("urgent"@) == Some(true),
        windows: 0,
    }
}

/// A monitor as an output describes it.
pub open spec fn monitor_model(output: Json) -> MonitorModel {
    let mode = output.inner("current_mode"@);
    MonitorModel {
        id: "sway:"@ + output.text_or_empty("name"@),
        name: output.text_or_empty("name"@),
        width: mode.i64_or("width"@, 0),
        height: mode.i64_or("height"@, 0),
        scale: scale_of(output.field("scale"@)),
        focused: output.flag_at("focused"@) == Some(true),
    }
}

/// A number within the mode of an output.
fn mode(output: &Value, name: &str) -> (r: i64)
    ensures
        r == output@.inner("current_mode"@).i64_or(name@, 0),
{
    match output.get_in("current_mode", name) {
        Some(v) => match v.as_i64() {
            Some(n) => n,
            None => 0,
        },
        None => 0,
    }
}

impl Sway {
    /// The windows in the tree.
    pub fn windows(tree: &Value) -> (r: Vec<Window>)
        ensures
            window_models(r@) == windows_in(tree@, Seq::empty()),
    {
        let mut out: Vec<Window> = Vec::new();
        let none = String::new();
        assert(none@ =~= Seq::empty());
        let ghost start = window_models(out@);
        collect(tree, none.as_str(), &mut out);
        assert(start + windows_in(tree@, Seq::empty()) =~= windows_in(tree@, Seq::empty()));
        out
    }

    /// The workspaces, from the list of them.
    pub fn workspaces(workspaces: &Value) -> (r: Option<Vec<Workspace>>)
        ensures
            match workspaces@.list() {
                None => r is None,
                Some(items) => r is Some && workspace_models(r->0@) == items.map_values(
                    |w: Json| workspace_model(w),
                ),
            },
    {
        let items = match workspaces.as_array() {
            Some(items) => items,
            None => return None,
        };
        let ghost all = models(items@).map_values(|w: Json| workspace_model(w));
        let mut out: Vec<Workspace> = Vec::new();
        let mut i: usize = 0;
        while i < items.len()
            invariant
                all == models(items@).map_values(|w: Json| workspace_model(w)),
                i <= items@.len(),
                workspace_models(out@) =~= all.take(i as int),
            decreases items.len() - i,
        {
            let item = &items[i];
            let mut id = "sway:".to_owned();
            id.append(write_i64(item.i64_or("num", 0)).as_str());
            let workspace = Workspace {
                id,
                name: item.text_or_empty("name"),
                monitor: item.text_or_empty("output"),
                active: flag(item, "focused"),
                urgent: flag(item, "urgent"),
                windows: 0,
            };
            let ghost before = workspace_models(out@);
            out.push(workspace);
            assert(workspace_models(out@) =~= before.push(all[i as int]));
            i += 1;
        }
        assert(workspace_models(out@) =~= all);
        Some(out)
    }

    /// The monitors, from the list of outputs.
    pub fn monitors(outputs: &Value) -> (r: Option<Vec<Monitor>>)
        ensures
            match outputs@.list() {
                None => r is None,
                Some(items) => r is Some && monitor_models(r->0@) == items.map_values(
                    |o: Json| monitor_model(o),
                ),
            },
    {
        let items = match outputs.as_array() {
            Some(items) => items,
            None => return None,
        };
        let ghost all = models(items@).map_values(|o: Json| monitor_model(o));
        let mut out: Vec<Monitor> = Vec::new();
        let mut i: usize = 0;
        while i < items.len()
            invariant
                all == models(items@).map_values(|o: Json| monitor_model(o)),
                i <= items@.len(),
                monitor_models(out@) =~= all.take(i as int),
            decreases items.len() - i,
        {
            let item = &items[i];
            let name = item.text_or_empty("name");
            let mut id = "sway:".to_owned();
            id.append(name.as_str());
            let monitor = Monitor {
                id,
                name,
                width: mode(item, "width"),
                height: mode(item, "height"),
                scale: read_scale(item.get("scale")),
                focused: flag(item, "focused"),
            };
            let ghost before = monitor_models(out@);
            out.push(monitor);
            assert(monitor_models(out@) =~= before.push(all[i as int]));
            i += 1;
        }
        assert(monitor_models(out@) =~= all);
        Some(out)
    }
}

/// A node that is a window is read as it is reported, and its id leads to it.
pub proof fn a_window_is_read_as_reported(
    node: Json,
    workspace: Seq<char>,
    id: i64,
    app: Seq<char>,
    title: Seq<char>,
)
    requires
        node.field("id"@) == Some(Json::Whole(id as int)),
        node.field("app_id"@) == Some(Json::Text(app)) || (node.text_at("app_id"@) is None
            && node.inner("window_properties"@).field("class"@) == Some(Json::Text(app))),
        app.len() > 0,
        node.field("name"@) == Some(Json::Text(title)),
    ensures
        own_window(node, workspace).len() == 1,
        own_window(node, workspace)[0].app_id == app,
        own_window(node, workspace)[0].title == title,
        own_window(node, workspace)[0].focused <==> node.field("focused"@) == Some(Json::Bool(true)),
        node.field("type"@) != Some(Json::Text("workspace"@)) ==> own_window(
            node,
            workspace,
        )[0].workspace == workspace,
        resolved(own_window(node, workspace)[0].id) == Ok::<(Backend, Seq<char>), Seq<char>>(
            (Backend::Sway, decimal_int(id as int)),
        ),
{
    reveal_strlit("sway:");
    reveal_strlit("sway");
    reveal_strlit(":");
    assert("sway:"@ =~= "sway"@ + ":"@);
    a_qualified_id_leads_back(Backend::Sway, decimal_int(id as int));
}

/// The windows of a tree hold those of every child, whether it is tiled or floats: a child of a
/// workspace is on that workspace.
pub proof fn a_child_is_listed_on_its_workspace(
    fields: Seq<(Seq<char>, Json)>,
    outside: Seq<char>,
    name: Seq<char>,
    children: Seq<Json>,
    k: int,
    w: int,
)
    requires
        name == "nodes"@ || name == "floating_nodes"@,
        Json::Object(fields).field(name) == Some(Json::List(children)),
        0 <= k < children.len(),
        0 <= w < windows_in(
            children[k],
            if Json::Object(fields).field("type"@) == Some(Json::Text("workspace"@)) {
                Json::Object(fields).text_or_empty("name"@)
            } else {
                outside
            },
        ).len(),
    ensures
        windows_in(Json::Object(fields), outside).contains(
            windows_in(
                children[k],
                if Json::Object(fields).field("type"@) == Some(Json::Text("workspace"@)) {
                    Json::Object(fields).text_or_empty("name"@)
                } else {
                    outside
                },
            )[w],
        ),
{
    let node = Json::Object(fields);
    let inside = workspace_in(node, outside);
    let window = windows_in(children[k], inside)[w];
    field_index_finds(fields, name);
    some_window_is_of_all(children, inside, k, w);
    let own = own_window(node, outside);
    let a = windows_under(node, "nodes"@, inside);
    let b = windows_under(node, "floating_nodes"@, inside);
    let here = windows_under(node, name, inside);
    let x = choose|x: int| 0 <= x < here.len() && here[x] == window;
    if name == "nodes"@ {
        assert((own + a + b)[own.len() + x] == window);
    } else {
        assert((own + a + b)[own.len() + a.len() + x] == window);
    }
}

/// The first field of a name is where the value of that name stands.
proof fn field_index_finds(fields: Seq<(Seq<char>, Json)>, name: Seq<char>)
    requires
        crate::json::field_of(fields, name) is Some,
    ensures
        0 <= field_index(fields, name) < fields.len(),
        crate::json::field_of(fields, name) == Some(fields[field_index(fields, name)].1),
    decreases fields.len(),
{
    if fields[0].0 != name {
        field_index_finds(fields.drop_first(), name);
    }
}

/// The windows of one of some nodes are among those of all.
proof fn some_window_is_of_all(nodes: Seq<Json>, workspace: Seq<char>, k: int, w: int)
    requires
        0 <= k < nodes.len(),
        0 <= w < windows_in(nodes[k], workspace).len(),
    ensures
        windows_of_all(nodes, workspace).contains(windows_in(nodes[k], workspace)[w]),
    decreases nodes.len(),
{
    let front = nodes.drop_last();
    let before = windows_of_all(front, workspace);
    let last = windows_in(nodes.last(), workspace);
    if k < front.len() {
        some_window_is_of_all(front, workspace, k, w);
        let x = choose|x: int|
            0 <= x < before.len() && before[x] == windows_in(nodes[k], workspace)[w];
        assert((before + last)[x] == before[x]);
    } else {
        assert((before + last)[before.len() + w] == last[w]);
    }
}

/// A workspace and a monitor are read as they are reported.
pub proof fn a_workspace_and_a_monitor_are_read_as_reported(
    workspace: Json,
    output: Json,
    mode: Json,
    name: Seq<char>,
    monitor: Seq<char>,
    width: i64,
    height: i64,
)
    requires
        workspace.field("name"@) == Some(Json::Text(name)),
        workspace.field("output"@) == Some(Json::Text(monitor)),
        output.field("name"@) == Some(Json::Text(monitor)),
        output.field("current_mode"@) == Some(mode),
        mode.field("width"@) == Some(Json::Whole(width as int)),
        mode.field("height"@) == Some(Json::Whole(height as int)),
    ensures
        workspace_model(workspace).name == name,
        workspace_model(workspace).monitor == monitor,
        workspace_model(workspace).active <==> workspace.field("focused"@) == Some(Json::Bool(true)),
        workspace_model(workspace).urgent <==> workspace.field("urgent"@) == Some(Json::Bool(true)),
        monitor_model(output).name == monitor,
        monitor_model(output).width == width,
        monitor_model(output).height == height,
        monitor_model(output).focused <==> output.field("focused"@) == Some(Json::Bool(true)),
{
}

} // verus!
