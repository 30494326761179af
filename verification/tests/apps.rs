use epochoxide::compositor::Backend;
use epochoxide::keyed::TextMap;
use epochoxide::providers::apps::{
    app_name_bonus, application_dirs, clean_exec, parse_desktop, split_list, visible, AppsProvider,
    DesktopEntry,
};
use epochoxide::providers::windows::{
    backend_from_env, candidate_backends, collect_sway, hypr_shell, hypr_windows, icon_candidates,
    niri_windows, open_windows, wmctrl_windows, HyprClient, NiriWindow, OpenWindow, SwayNode, WindowStep,
    WindowsProvider,
};

fn entry(id: &str, startup_wm_class: &str, icon: &str) -> DesktopEntry {
    let mut entry = parse_desktop(id, "");
    entry.startup_wm_class = startup_wm_class.to_string();
    entry.icon = icon.to_string();
    entry
}

#[test]
fn removes_desktop_exec_field_codes() {
    assert_eq!(clean_exec("firefox %u"), "firefox");
    assert_eq!(clean_exec("a %% b %F"), "a  b");
}

#[test]
fn ignores_localized_name_variants_regardless_of_order() {
    let app = parse_desktop(
        "blueman-manager.desktop",
        "[Desktop Entry]\nName[de]=Bluetooth-Verwaltung\nName=Bluetooth Manager\nComment[de]=Verwalten Sie Bluetooth-Geräte\nComment=Manage Bluetooth devices\n",
    );
    assert_eq!(app.name, "Bluetooth Manager");
    assert_eq!(app.comment, "Manage Bluetooth devices");
}

#[test]
fn parses_startup_wm_class() {
    let app = parse_desktop(
        "firefox.desktop",
        "[Desktop Entry]\nName=Firefox\nIcon=firefox\nStartupWMClass=firefox\n",
    );
    assert_eq!(app.startup_wm_class, "firefox");
}

#[test]
fn wm_class_icons_prefers_startup_wm_class_over_id() {
    let provider = AppsProvider {
        apps: vec![
            entry("org.foo.Bar.desktop", "foobar", "foo-icon"),
            entry("baz.desktop", "", "baz-icon"),
        ],
        launch_prefix: String::new(),
    };
    let icons = provider.wm_class_icons();
    assert_eq!(icons.get("foobar"), Some(&"foo-icon".to_string()));
    assert_eq!(icons.get("baz"), Some(&"baz-icon".to_string()));
}

#[test]
fn visible_name_exact_match_gets_history_sized_bonus() {
    assert!(app_name_bonus("system info", "System Info") > 10_000);
    assert_eq!(app_name_bonus("system info", "Thunar File Manager"), 0);
    assert_eq!(app_name_bonus("info", "System Info"), 15_000);
}

#[test]
fn reload_deduplicates_desktop_ids() {
    let raw = "[Desktop Entry]\nName=Ghostty\nExec=ghostty\n";
    let parsed = vec![
        parse_desktop("ghostty.desktop", raw),
        parse_desktop("ghostty.desktop", raw),
    ];
    let provider = AppsProvider::new(String::new(), &vec![], parsed);
    assert_eq!(provider.apps.len(), 1);
}

const EDITOR: &str = "# remark\n[Desktop Entry]\nName=Editor\nGenericName=Text\nExec=edit %f\nExec=edit2 %U\nKeywords=write;note;;\nTerminal=TRUE\nnonsense\n[Desktop Action New]\nName=New\nExec=edit --new %u\n[Other]\nExec=still the action\n";

#[test]
fn parts_of_a_file_are_told_apart() {
    let app = parse_desktop("editor.desktop", EDITOR);
    assert_eq!(app.command, "edit2");
    assert_eq!(app.keywords, vec!["write", "note"]);
    assert!(app.terminal);
    assert_eq!(app.search, "editor text  write note");
    assert_eq!(app.actions.get("New").unwrap(), "still the action");
    assert_eq!(split_list(";a;;b"), vec!["a", "b"]);
}

#[test]
fn applications_are_shown_on_their_desktops() {
    let shown = |extra: &str, desktops: &[&str]| {
        let app = parse_desktop("a", &format!("[Desktop Entry]\nName=A\n{extra}"));
        visible(&app, &desktops.iter().map(|d| d.to_string()).collect())
    };
    assert!(shown("", &["niri"]));
    assert!(!shown("NoDisplay=true", &["niri"]));
    assert!(!shown("Hidden=True", &["niri"]));
    assert!(!shown("OnlyShowIn=GNOME;", &["niri"]));
    assert!(shown("OnlyShowIn=GNOME;niri;", &["niri"]));
    assert!(!shown("NotShowIn=niri;", &["niri"]));
}

#[test]
fn applications_and_actions_are_found_and_opened() {
    let p = AppsProvider::new(
        "uwsm app --".to_string(),
        &vec![],
        vec![parse_desktop("editor.desktop", EDITOR), parse_desktop("none", "")],
    );
    assert_eq!(p.apps.len(), 1);
    let items = p.query("new", 10, false);
    assert_eq!(items.len(), 1);
    assert_eq!(items[0].identifier, "editor.desktop:New");
    assert_eq!(items[0].text, "Editor: New");
    let items = p.query("edit", 10, false);
    // 1000 + 4 * 100 + (100 - 4) + 500 + 20000 + 20000
    assert_eq!(items[0].score, 41_996);
    assert_eq!(items[0].subtext, "Text");
    assert_eq!(p.query("", 10, false).len(), 1);
    assert_eq!(p.activate("editor.desktop", "open").unwrap(), "uwsm app -- edit2");
    assert_eq!(
        p.activate("editor.desktop:New", "open").unwrap(),
        "uwsm app -- still the action"
    );
    assert_eq!(p.activate("x", "open").unwrap_err(), "app not found");
    assert_eq!(p.activate("x", "close").unwrap_err(), "unsupported apps action: close");
    assert_eq!(p.capability().description, "Search and launch desktop applications");
}

#[test]
fn directories_are_listed_once() {
    let dirs = application_dirs(Some("/home/me/.local/share"), Some("/usr/share/:/opt"), Some("/home/me"));
    assert_eq!(
        dirs,
        vec![
            "/home/me/.local/share/applications",
            "/usr/share/applications",
            "/opt/applications",
            "/home/me/.nix-profile/share/applications",
            "/etc/profiles/per-user/me/share/applications",
            "/run/current-system/sw/share/applications",
            "/nix/var/nix/profiles/default/share/applications",
            "/usr/local/share/applications",
        ]
    );
}

#[test]
fn windows_detects_hyprland_from_instance_signature() {
    assert_eq!(backend_from_env(true, false, false, None), Backend::Hypr);
}

#[test]
fn windows_detects_niri_from_xdg_desktop() {
    assert_eq!(backend_from_env(false, false, false, Some("niri")), Backend::Niri);
}

#[test]
fn defaults_to_wmctrl_without_signals() {
    assert_eq!(backend_from_env(false, false, false, None), Backend::Wmctrl);
    assert_eq!(candidate_backends(Backend::Wmctrl)[0], Backend::Hypr);
    assert_eq!(candidate_backends(Backend::Sway)[0], Backend::Sway);
}

fn provider(entries: &[(&str, &str)]) -> WindowsProvider {
    let mut icons = TextMap::new();
    for (k, v) in entries {
        icons.insert(k.to_string(), v.to_string());
    }
    WindowsProvider::new(icons)
}

#[test]
fn matches_window_class_exactly() {
    let provider = provider(&[("com.mitchellh.ghostty", "ghostty-icon")]);
    assert_eq!(provider.icon_for("com.mitchellh.ghostty"), "ghostty-icon");
}

#[test]
fn matches_chromium_webapp_class_by_host() {
    let provider = provider(&[("gmail", "gmail-icon"), ("proton.me", "proton-icon")]);
    assert_eq!(provider.icon_for("brave-gmail.com__-Default"), "gmail-icon");
    assert_eq!(provider.icon_for("brave-mail.proton.me__u_0_inbox-Default"), "proton-icon");
}

#[test]
fn falls_back_to_the_browser_then_a_generic_window() {
    let provider = provider(&[("brave-browser", "brave-icon")]);
    assert_eq!(provider.icon_for("brave-unknown.example__-Default"), "brave-icon");
    assert_eq!(provider.icon_for("some-unknown-app"), "preferences-system-windows");
}

#[test]
fn prefers_earlier_candidates() {
    let candidates = icon_candidates("brave-gmail.com__-Default");
    let gmail = candidates.iter().position(|c| c == "gmail").unwrap();
    let brave = candidates.iter().position(|c| c == "brave-browser").unwrap();
    assert!(gmail < brave);
    assert_eq!(
        candidates,
        vec![
            "brave-gmail.com__-default",
            "brave-gmail.com",
            "gmail.com",
            "gmail",
            "com",
            "brave-browser",
            "brave",
        ]
    );
}

#[test]
fn open_windows_are_found_and_acted_on() {
    let p = provider(&[("foot", "foot-icon")]);
    let list = vec![
        OpenWindow {
            id: "0x1".to_string(),
            title: "Shell".to_string(),
            app: "foot".to_string(),
            workspace: "2".to_string(),
            backend: Backend::Hypr,
        },
        OpenWindow {
            id: "3".to_string(),
            title: "Shelf".to_string(),
            app: String::new(),
            workspace: String::new(),
            backend: Backend::Niri,
        },
    ];
    let list = open_windows(vec![None, Some(list), Some(vec![])]);
    assert!(open_windows(vec![None]).is_empty());
    let items = p.query(&list, "shel", 10, false);
    assert_eq!(items.len(), 2);
    assert_eq!(items[0].identifier, "hypr:0x1");
    assert_eq!(items[0].subtext, "foot 2");
    assert_eq!(items[0].icon, "foot-icon");
    // 1000 + 4 * 100 + (100 - 4) + 500 + 5000
    assert_eq!(items[0].score, 6_996);
    assert_eq!(p.query(&list, "shel", 1, false).len(), 1);
    assert!(
        matches!(p.activate("hypr:0x1", "focus", "niri"), Ok(WindowStep::Hypr(c)) if c == "dispatch focuswindow address:0x1")
    );
    assert!(
        matches!(p.activate("niri:3", "close", "N niri"), Ok(WindowStep::Run(c)) if c == "N niri msg action close-window --id 3")
    );
    assert!(matches!(p.activate("nothing", "close", ""), Ok(WindowStep::Nothing)));
    assert_eq!(
        p.activate("x:3", "close", "").unwrap_err(),
        "unsupported windows action: close"
    );
    assert_eq!(hypr_shell(Some("s")), "HYPRLAND_INSTANCE_SIGNATURE='s' hyprctl");
    assert_eq!(hypr_shell(None), "hyprctl");
    assert!(p.capability().actions.get("close").unwrap().destructive);
}

#[test]
fn windows_of_each_compositor_are_read() {
    let all = hypr_windows(vec![HyprClient {
        address: "0x1".to_string(),
        title: "t".to_string(),
        class: "c".to_string(),
        workspace: "1".to_string(),
    }]);
    assert_eq!(all[0].app, "c");
    let leaf = |id: i64, app: Option<&str>, class: Option<&str>| SwayNode {
        id,
        name: Some(format!("n{id}")),
        app_id: app.map(str::to_string),
        class: class.map(str::to_string),
        nodes: vec![],
        floating_nodes: vec![],
    };
    let mut root = leaf(1, None, None);
    root.nodes.push(leaf(2, Some("a"), None));
    root.floating_nodes.push(leaf(3, None, Some("C")));
    let mut out = Vec::new();
    collect_sway(&root, &mut out);
    assert_eq!(out.len(), 2);
    assert_eq!(out[1].app, "C");
    assert_eq!(out[0].id, "2");
    let x = wmctrl_windows("0x1 0 a.b host The title\n0x2\n\n");
    assert_eq!(x.len(), 2);
    assert_eq!(x[0].title, "The title");
    assert_eq!(x[1].id, "0x2");
}

#[test]
fn a_niri_window_without_an_id_is_passed_over() {
    let window = |id: Option<&str>| NiriWindow {
        id: id.map(str::to_string),
        title: Some("t".into()),
        app_id: None,
        workspace_id: Some("3".into()),
    };
    let found = niri_windows(vec![window(None), window(Some("7"))]);
    assert_eq!(found.len(), 1);
    assert_eq!((found[0].id.as_str(), found[0].title.as_str()), ("7", "t"));
    assert_eq!((found[0].app.as_str(), found[0].workspace.as_str()), ("", "3"));
    assert_eq!(found[0].backend, Backend::Niri);
}
