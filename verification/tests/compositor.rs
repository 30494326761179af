use epochoxide::amount::same_number;
use epochoxide::order::Ranked;
use epochoxide::compositor::hyprland::{
    on_screen, region, visible_workspaces, window as hypr_window, Hyprland,
};
use epochoxide::compositor::ipc::{
    hypr_send, hypr_signature, hypr_window_dispatch, hypr_workspace_dispatch, lua_string,
    niri_shell, niri_socket_paths, output, runtime_dir, DispatchStep,
};
use epochoxide::compositor::niri::{workspace_name, Niri};
use epochoxide::compositor::sway::{collect, Sway};
use epochoxide::compositor::wmctrl::{parse, Wmctrl};
use epochoxide::compositor::{
    backends, close_window, first_answer, focus_window, focus_workspace, focused_monitor, monitors,
    preferred_from_env, resolve, sort_windows, state_of, windows, workspace_order, workspaces,
    worth_telling, Backend, Order, State, Window, Workspace,
};

use epochoxide::json::{Number, Value};

fn convert(value: serde_json::Value) -> Value {
    match value {
        serde_json::Value::Null => Value::Null,
        serde_json::Value::Bool(flag) => Value::Bool(flag),
        serde_json::Value::Number(n) => Value::Number(match (n.as_u64(), n.as_i64()) {
            (Some(n), _) => Number::Unsigned(n),
            (None, Some(n)) => Number::Negative(n),
            _ => Number::Decimal(n.to_string()),
        }),
        serde_json::Value::String(s) => Value::Text(s),
        serde_json::Value::Array(items) => Value::List(items.into_iter().map(convert).collect()),
        serde_json::Value::Object(fields) => {
            Value::Object(fields.into_iter().map(|(k, v)| (k, convert(v))).collect())
        }
    }
}

fn json(raw: &str) -> Value {
    convert(serde_json::from_str(raw).unwrap())
}

const CLIENT: &str = r#"{"address":"0xabc","class":"com.mitchellh.ghostty","title":"thor: omarchy","workspace":{"id":4,"name":"4"},"monitor":1,"floating":false}"#;

fn client() -> Value {
    json(CLIENT)
}

fn client_with(extra: &str) -> Value {
    let mut raw: serde_json::Value = serde_json::from_str(CLIENT).unwrap();
    let more: serde_json::Value = serde_json::from_str(extra).unwrap();
    for (key, value) in more.as_object().unwrap() {
        raw[key.as_str()] = value.clone();
    }
    convert(raw)
}

#[test]
fn a_monitor_index_becomes_a_monitor_name() {
    let names = vec!["eDP-1".to_string(), "DP-3".to_string()];
    let mapped = hypr_window(&client(), None, &names);
    assert_eq!(mapped.monitor, "DP-3");
    assert_eq!(mapped.workspace, "4");
    assert_eq!(mapped.id, "hypr:0xabc");
}

#[test]
fn a_monitor_index_with_no_matching_name_is_left_empty() {
    let mapped = hypr_window(&client(), None, &vec!["eDP-1".to_string()]);
    assert_eq!(mapped.monitor, "");
}

#[test]
fn a_region_carries_the_on_screen_rectangle() {
    let raw = client_with(r#"{"at":[1920,40],"size":[1280,800]}"#);
    let region = region(&raw, Some("0xabc"), &vec!["eDP-1".into(), "DP-3".into()]);
    assert_eq!(region.geometry(), "1920,40 1280x800");
    assert_eq!(region.monitor, "DP-3");
    assert!(region.focused);
}

#[test]
fn only_windows_on_a_visible_workspace_count_as_on_screen() {
    assert!(!on_screen(&client(), &[1, 7]));
    assert!(on_screen(&client(), &[1, 4]));
}

#[test]
fn an_unmapped_or_hidden_window_is_not_on_screen() {
    assert!(!on_screen(&client_with(r#"{"hidden":true}"#), &[4]));
    assert!(!on_screen(&client_with(r#"{"mapped":false}"#), &[4]));
}

#[test]
fn a_monitor_with_no_special_workspace_contributes_no_id() {
    let monitors = json(
        r#"[{"activeWorkspace":{"id":4},"specialWorkspace":{"id":0}},{"activeWorkspace":{"id":7},"specialWorkspace":{"id":-98}}]"#,
    );
    assert_eq!(visible_workspaces(&monitors), vec![4, 7, -98]);
}

#[test]
fn focus_is_decided_by_the_active_address_not_a_field() {
    assert!(!hypr_window(&client(), None, &vec![]).focused);
    assert!(hypr_window(&client(), Some("0xabc"), &vec![]).focused);
    assert!(!hypr_window(&client(), Some("0xdef"), &vec![]).focused);
}

#[test]
fn hyprland_answers_are_mapped() {
    let monitors = json(
        r#"[{"id":0,"name":"eDP-1","width":1920,"height":1080,"scale":1.5,"focused":true,"activeWorkspace":{"id":4}}]"#,
    );
    let all = Hyprland::monitors(&monitors).unwrap();
    assert_eq!(all[0].id, "hypr:0");
    assert!(matches!(&all[0].scale, Number::Decimal(s) if s == "1.5"));
    assert_eq!(focused_monitor(&all).as_deref(), Some("eDP-1"));
    let clients = json(&format!("[{CLIENT}]"));
    let active = json(r#"{"address":"0xabc"}"#);
    let list = Hyprland::windows(&clients, Some(&active), Some(&monitors)).unwrap();
    assert!(list[0].focused);
    assert!(Hyprland::windows(&active, None, None).is_none());
    let spaces = json(r#"[{"id":4,"name":"4","windows":2},{"id":5,"name":"5"}]"#);
    let spaces = Hyprland::workspaces(&spaces, Some(&monitors)).unwrap();
    assert!(spaces[0].active && !spaces[1].active);
    assert_eq!(spaces[0].windows, 2);
    let shown = client_with(r#"{"at":[0,0],"size":[10,10]}"#);
    let regions =
        Hyprland::window_regions(&Value::List(vec![shown, client()]), &monitors, None).unwrap();
    assert_eq!(regions.len(), 1);
}

#[test]
fn a_named_workspace_keeps_its_name() {
    assert_eq!(workspace_name(&json(r#"{"id":7,"idx":2,"name":"web"}"#), 7), "web");
}

#[test]
fn an_unnamed_workspace_falls_back_to_its_index() {
    assert_eq!(workspace_name(&json(r#"{"id":7,"idx":2,"name":null}"#), 7), "2");
}

#[test]
fn an_empty_name_is_treated_as_no_name() {
    assert_eq!(workspace_name(&json(r#"{"id":7,"idx":2,"name":""}"#), 7), "2");
}

#[test]
fn with_neither_name_nor_index_the_id_is_used() {
    assert_eq!(workspace_name(&json(r#"{"id":7}"#), 7), "7");
}

#[test]
fn niri_answers_are_mapped() {
    let spaces = json(r#"[{"id":7,"idx":2,"output":"DP-1","is_active":true}]"#);
    let list = json(r#"[{"id":3,"app_id":"foot","title":"t","workspace_id":7,"is_focused":true},{"id":4,"workspace_id":9}]"#);
    let all = Niri::windows(&list, Some(&spaces)).unwrap();
    assert_eq!(all[0].id, "niri:3");
    assert_eq!(all[0].workspace, "2");
    assert_eq!(all[1].workspace, "");
    assert_eq!(all[0].x, 0);
    assert!(Niri::workspaces(&spaces).unwrap()[0].active);
    let outputs = json(r#"{"DP-1":{"logical":{"width":800,"scale":2}},"DP-2":{"name":"Two"}}"#);
    let monitors = Niri::monitors(&outputs).unwrap();
    assert_eq!(monitors[0].name, "DP-1");
    assert_eq!(monitors[0].width, 800);
    assert!(matches!(monitors[0].scale, Number::Unsigned(2)));
    assert_eq!(monitors[1].name, "Two");
    assert!(Niri::monitors(&Value::Null).is_none());
}

#[test]
fn windows_inherit_the_workspace_they_are_nested_under() {
    let tree = json(
        r#"{"type":"root","nodes":[{"type":"workspace","name":"3","nodes":[{"id":11,"name":"Firefox","app_id":"firefox","focused":true},{"id":12,"name":"Term","app_id":"foot","focused":false}],"floating_nodes":[{"id":13,"name":"Calc","app_id":"gnome-calculator"}]}]}"#,
    );
    let mut out = Vec::new();
    collect(&tree, "", &mut out);
    assert_eq!(out.len(), 3);
    assert!(out.iter().all(|window| window.workspace == "3"));
    assert_eq!(out[0].id, "sway:11");
    assert!(out[0].focused);
    assert_eq!(out[2].app_id, "gnome-calculator");
    assert_eq!(Sway::windows(&tree).len(), 3);
}

#[test]
fn containers_without_an_app_are_not_windows() {
    let tree = json(r#"{"type":"workspace","name":"1","nodes":[{"id":5,"name":"split","nodes":[]}]}"#);
    let mut out = Vec::new();
    collect(&tree, "", &mut out);
    assert!(out.is_empty());
}

#[test]
fn an_xwayland_window_falls_back_to_its_class() {
    let tree = json(r#"{"id":9,"name":"Old App","window_properties":{"class":"OldApp"}}"#);
    let mut out = Vec::new();
    collect(&tree, "2", &mut out);
    assert_eq!(out[0].app_id, "OldApp");
    assert_eq!(out[0].workspace, "2");
}

#[test]
fn sway_answers_are_mapped() {
    let spaces = json(r#"[{"num":3,"name":"3","output":"DP-1","focused":true}]"#);
    assert_eq!(Sway::workspaces(&spaces).unwrap()[0].id, "sway:3");
    let outputs = json(r#"[{"name":"DP-1","current_mode":{"width":1,"height":2}}]"#);
    let monitors = Sway::monitors(&outputs).unwrap();
    assert_eq!(monitors[0].height, 2);
    assert!(matches!(&monitors[0].scale, Number::Decimal(s) if s == "1.0"));
}

#[test]
fn a_title_containing_spaces_is_kept_whole() {
    let window = parse("0x03000007  0 Navigator.firefox  thor  Mozilla Firefox — Sharp").unwrap();
    assert_eq!(window.id, "wmctrl:0x03000007");
    assert_eq!(window.app_id, "Navigator.firefox");
    assert_eq!(window.title, "Mozilla Firefox — Sharp");
}

#[test]
fn a_truncated_line_is_skipped_rather_than_panicking() {
    assert!(parse("0x03000007").is_none());
    assert!(parse("").is_none());
    assert_eq!(Wmctrl::windows("0x1 0 a h t\n0x2\n").len(), 1);
}

#[test]
fn a_workspace_name_is_quoted_as_a_lua_string() {
    assert_eq!(lua_string("web"), "\"web\"");
}

#[test]
fn quotes_and_backslashes_cannot_break_out_of_the_literal() {
    assert_eq!(lua_string("a\"b"), "\"a\\\"b\"");
    assert_eq!(lua_string("a\\b"), "\"a\\\\b\"");
}

#[test]
fn mod_detects_hyprland_from_instance_signature() {
    assert_eq!(
        preferred_from_env(true, false, false, None).map(|b| b.name()),
        Some("hypr")
    );
}

#[test]
fn mod_detects_niri_from_xdg_desktop() {
    assert_eq!(
        preferred_from_env(false, false, false, Some("niri")).map(|b| b.name()),
        Some("niri")
    );
    assert_eq!(
        preferred_from_env(false, false, false, Some("HYPRLAND")),
        Some(Backend::Hypr)
    );
}

#[test]
fn without_any_signal_no_backend_is_preferred() {
    assert_eq!(preferred_from_env(false, false, false, None), None);
    assert_eq!(preferred_from_env(false, false, false, Some("GNOME")), None);
}

#[test]
fn the_preferred_backend_is_tried_first() {
    let preferred = preferred_from_env(false, true, false, None);
    assert_eq!(backends(preferred).first().map(|backend| backend.name()), Some("sway"));
}

#[test]
fn every_backend_is_tried_whatever_the_environment_says() {
    for preferred in [None, Some(Backend::Sway), Some(Backend::Niri), Some(Backend::Hypr)] {
        let all = backends(preferred);
        let names: Vec<&str> = all.iter().map(|backend| backend.name()).collect();
        for expected in ["hypr", "niri", "sway", "wmctrl"] {
            assert!(names.contains(&expected), "{expected} missing from {names:?}");
        }
        assert_eq!(names.len(), 4, "a backend is listed twice: {names:?}");
    }
}

fn window(workspace: &str, x: i64, y: i64, id: &str) -> Window {
    Window {
        id: id.to_string(),
        app_id: String::new(),
        title: String::new(),
        workspace: workspace.to_string(),
        monitor: String::new(),
        focused: false,
        floating: false,
        x,
        y,
    }
}

#[test]
fn windows_are_ordered_left_to_right_then_top_to_bottom() {
    let mut windows = vec![
        window("1", 900, 0, "c"),
        window("1", 100, 500, "b"),
        window("1", 100, 0, "a"),
    ];
    sort_windows(&mut windows);
    let ids: Vec<&str> = windows.iter().map(|w| w.id.as_str()).collect();
    assert_eq!(ids, ["a", "b", "c"]);
}

#[test]
fn windows_group_by_workspace_in_numeric_order() {
    let mut windows = vec![
        window("10", 0, 0, "ten"),
        window("2", 0, 0, "two"),
        window("1", 0, 0, "one"),
    ];
    sort_windows(&mut windows);
    let ids: Vec<&str> = windows.iter().map(|w| w.id.as_str()).collect();
    assert_eq!(ids, ["one", "two", "ten"]);
}

#[test]
fn named_workspaces_sort_after_numbered_ones() {
    assert!(workspace_order("2").is_ahead(&workspace_order("10")));
    assert!(workspace_order("10").is_ahead(&workspace_order("web")));
    assert!(workspace_order("web").is_ahead(&workspace_order("zed")));
}

#[test]
fn ordering_is_stable_for_windows_in_the_same_place() {
    let mut windows = vec![window("1", 0, 0, "b"), window("1", 0, 0, "a")];
    sort_windows(&mut windows);
    let ids: Vec<&str> = windows.iter().map(|w| w.id.as_str()).collect();
    assert_eq!(ids, ["a", "b"]);
}

#[test]
fn an_unqualified_id_is_refused() {
    assert!(resolve("nonsense").is_err());
    assert_eq!(
        resolve("nonsense").unwrap_err(),
        "expected a backend-qualified id like \"hypr:0x1234\""
    );
}

#[test]
fn an_unknown_backend_prefix_is_refused() {
    assert!(resolve("mystery:0x1").is_err());
    assert_eq!(
        resolve("mystery:0x1").unwrap_err(),
        "unknown compositor backend \"mystery\""
    );
    assert_eq!(resolve("sway:1:2").unwrap(), (Backend::Sway, "1:2".to_string()));
}

fn line(order: Result<Order, String>) -> String {
    match order {
        Ok(Order::Run(line)) => line,
        other => panic!("{other:?}"),
    }
}

#[test]
fn windows_and_workspaces_are_acted_on() {
    assert_eq!(line(focus_window("niri:3", "niri")), "niri msg action focus-window --id 3");
    assert_eq!(line(focus_window("sway:3", "niri")), "swaymsg '[con_id=3] focus'");
    assert_eq!(line(close_window("wmctrl:0x3", "niri")), "wmctrl -ic 0x3");
    assert_eq!(line(close_window("sway:3", "niri")), "swaymsg '[con_id=3] kill'");
    assert_eq!(line(focus_workspace("3", Some(Backend::Sway), "niri")), "swaymsg workspace 3");
    assert_eq!(
        focus_workspace("wmctrl:3", None, "niri").unwrap_err(),
        "wmctrl cannot switch workspaces"
    );
    assert_eq!(
        focus_workspace("3", None, "niri").unwrap_err(),
        "no supported compositor is responding"
    );
    match focus_window("hypr:0x1", "niri") {
        Ok(Order::Send(d)) => {
            assert_eq!(d.attempts[0], vec!["dispatch", "focuswindow", "address:0x1"]);
            assert_eq!(d.refused, "hyprland rejected focuswindow for 0x1");
        }
        other => panic!("{other:?}"),
    }
    assert!(hypr_window_dispatch("closewindow", "X", "0x1").attempts[1][1]
        .contains("if w.address == \"0x1\" then hl.dispatch(X) return"));
    let by_id = hypr_workspace_dispatch("3");
    assert_eq!(by_id.attempts[0][1], "workspace 3");
    assert_eq!(
        by_id.attempts[1][1],
        "hl.dispatch(hl.dsp.focus({ workspace = 3 })) return \"ok\""
    );
    let by_name = hypr_workspace_dispatch("we\"b");
    assert_eq!(by_name.attempts[0][1], "workspace name:we\"b");
    assert!(by_name.attempts[1][1].contains("tostring(w.name) == \"we\\\"b\" then"));
}

#[test]
fn replies_and_sockets_are_read() {
    assert!(hypr_send(Some(" ok\n")));
    assert!(!hypr_send(Some("invalid")));
    assert!(!hypr_send(None));
    assert_eq!(niri_shell(None), "niri");
    assert_eq!(niri_shell(Some("/r/n.sock")), "NIRI_SOCKET='/r/n.sock' niri");
    assert_eq!(niri_socket_paths("/r")[1], "/r/niri-ipc/niri.sock");
    assert_eq!(runtime_dir(None, Some("7")), "/run/user/7");
    assert_eq!(runtime_dir(None, None), "/run/user/1000");
    assert_eq!(runtime_dir(Some("/x"), None), "/x");
    let found = vec![(1, "a".to_string()), (5, "b".to_string()), (5, "c".to_string())];
    assert_eq!(hypr_signature(None, &found).as_deref(), Some("b"));
    assert_eq!(hypr_signature(Some("s"), &found).as_deref(), Some("s"));
    assert!(hypr_signature(Some(""), &vec![]).is_none());
    assert_eq!(output(true, b" x \n").as_deref(), Some("x"));
    assert!(output(false, b"x").is_none());
}

#[test]
fn a_state_is_told_when_it_differs() {
    let make = |id: &str| {
        let mut w = window("1", 0, 0, id);
        w.focused = true;
        let space = |name: &str| Workspace {
            id: String::new(),
            name: name.to_string(),
            monitor: String::new(),
            active: false,
            urgent: false,
            windows: 0,
        };
        state_of(
            Backend::Niri,
            Some(vec![window("2", 0, 0, "z"), w]),
            Some(vec![space("10"), space("2")]),
            None,
        )
    };
    let a = make("a");
    assert_eq!(a.backend, "niri");
    assert_eq!(a.windows[0].id, "a");
    assert_eq!(a.active_window.as_ref().unwrap().id, "a");
    assert_eq!(a.workspaces[0].name, "2");
    assert!(!worth_telling(&a, &make("a")));
    assert!(worth_telling(&a, &make("b")));
}

#[test]
fn the_first_backend_to_answer_counts() {
    assert_eq!(first_answer(vec![None, Some(3), Some(4)]), Some(3));
    assert_eq!(first_answer::<u8>(vec![None, None]), None);
    let answers = || {
        vec![
            None,
            Some(vec![window("2", 0, 0, "z"), window("1", 0, 0, "a")]),
            Some(vec![window("1", 0, 0, "x")]),
        ]
    };
    let ids: Vec<String> = windows(answers()).into_iter().map(|w| w.id).collect();
    assert_eq!(ids, vec!["a", "z"]);
    assert!(windows(vec![Some(vec![]), Some(vec![window("1", 0, 0, "x")])]).is_empty());
    assert!(windows(vec![None, None]).is_empty());
    assert!(workspaces(vec![None]).is_empty());
    assert!(monitors(vec![]).is_empty());
}

fn on_scale(scale: &str) -> State {
    let outputs = json(&format!(r#"[{{"name":"eDP-1","scale":{scale}}}]"#));
    state_of(Backend::Hypr, None, None, Hyprland::monitors(&outputs))
}

#[test]
fn a_scale_that_is_only_written_otherwise_is_the_same() {
    assert!(!worth_telling(&on_scale("1"), &on_scale("1.0")));
    assert!(!worth_telling(&on_scale("1.50"), &on_scale("15e-1")));
    assert!(worth_telling(&on_scale("1"), &on_scale("1.25")));
    let whole = Number::Unsigned(20);
    assert!(same_number(&whole, &Number::Decimal("2E+1".to_string())));
    assert!(same_number(&whole, &Number::Decimal("20.00".to_string())));
    assert!(!same_number(&whole, &Number::Decimal("-20.00".to_string())));
    assert!(same_number(&Number::Negative(-20), &Number::Decimal("-2e1".to_string())));
    assert!(same_number(&Number::Unsigned(0), &Number::Decimal("-0.0".to_string())));
}

#[test]
fn a_second_message_is_sent_only_after_a_refusal() {
    let d = hypr_workspace_dispatch("3");
    let ok = || Some("ok\n".to_string());
    let no = || Some("invalid".to_string());
    let sent = |step: DispatchStep| match step {
        DispatchStep::Send(message) => message[0].clone(),
        other => panic!("{other:?}"),
    };
    assert_eq!(sent(d.next(&vec![])), "dispatch");
    assert_eq!(sent(d.next(&vec![no()])), "repl");
    assert_eq!(sent(d.next(&vec![None])), "repl");
    assert!(matches!(d.next(&vec![ok()]), DispatchStep::Done));
    assert!(matches!(d.next(&vec![no(), ok()]), DispatchStep::Done));
    match d.next(&vec![no(), None]) {
        DispatchStep::Refused(text) => assert_eq!(text, "hyprland rejected workspace \"3\""),
        other => panic!("{other:?}"),
    }
}
