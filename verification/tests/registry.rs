use epochoxide::config::{Config, Surroundings};
use epochoxide::history::UsageHistory;
use epochoxide::notify::send;
use epochoxide::providers::{
    best_items, default_capability, enabled, registered_names, Registry,
};
use epochoxide::service::{install, quote_systemd_arg};
use epochoxide::terminal::{default_terminal, run, user_shell};
use epochoxide::text::shell_quote;
use epochoxide::types::{Item, ProviderCapability};

fn config() -> Config {
    Config::defaults(&Surroundings {
        home: None,
        tilde: None,
        cache_dir: None,
        temp_dir: "/tmp".to_string(),
        config_dir: None,
        editor: None,
        runtime_dir: None,
    })
}

fn described(names: &[&str]) -> Vec<ProviderCapability> {
    names.iter().map(|n| default_capability(n, n)).collect()
}

fn registry() -> Registry {
    let mut c = config();
    c.query_prefixes.insert("=>".to_string(), "runner".to_string());
    for name in ["clipboard", "windows"] {
        c.provider_enabled.insert(name.to_string(), false);
    }
    let built = described(&["apps", "files", "runner", "calc"]);
    Registry::new(c, built, Vec::new(), UsageHistory::new())
}

fn item(provider: &str, text: &str, score: i32) -> Item {
    let mut item = Item::new(provider, text, text);
    item.score = score;
    item
}

#[test]
fn the_longest_prefix_leads_to_its_provider() {
    let r = registry();
    assert_eq!(r.route_query(&vec![], "= 1+2"), (vec!["calc".to_string()], "1+2".to_string()));
    assert_eq!(r.route_query(&vec![], "=>ls"), (vec!["runner".to_string()], "ls".to_string()));
    assert_eq!(r.route_query(&vec![], "plain"), (vec![], "plain".to_string()));
    assert_eq!(
        r.route_query(&vec!["apps".to_string()], "=1"),
        (vec!["apps".to_string()], "=1".to_string())
    );
}

#[test]
fn targets_are_all_or_those_named() {
    let r = registry();
    assert_eq!(r.targets(&vec![]), vec![0, 1, 2, 3]);
    assert_eq!(r.targets(&vec!["calc".to_string(), "apps".to_string()]), vec![0, 3]);
    assert_eq!(r.activate("calc").unwrap(), 3);
    assert_eq!(r.activate("nope").unwrap_err(), "unknown provider: nope");
    let listed = r.providers();
    assert_eq!(listed[2].prefixes, vec![">", "=>"]);
    assert_eq!(listed[3].prefixes, vec!["="]);
    for (shown, own) in listed.iter().zip(&r.capabilities) {
        assert_eq!((&shown.name, &shown.name_pretty), (&own.name, &own.name_pretty));
        assert_eq!((&shown.description, &shown.icon), (&own.description, &own.icon));
        assert_eq!(shown.actions.entries, own.actions.entries);
        assert_eq!(shown.supports_query, own.supports_query);
        assert_eq!(shown.supports_activate, own.supports_activate);
        assert_eq!(shown.supports_streaming, own.supports_streaming);
        assert_eq!(shown.supports_subscriptions, own.supports_subscriptions);
        assert_eq!(shown.emits_events, own.emits_events);
    }
}

#[test]
fn results_are_weighed_and_the_best_come_first() {
    let mut r = registry();
    r.record("files", "b", 100);
    let batches = vec![
        vec![item("apps", "x", 10)],
        vec![item("files", "b", 10), item("files", "a", 10)],
    ];
    let out = r.query(&vec![0, 1], batches, "q", 3, 100);
    let names: Vec<&str> = out.iter().map(|i| i.text.as_str()).collect();
    assert_eq!(names, vec!["x", "b", "a"]);
    assert_eq!(out[0].score, 20_010);
    // 10 + 250 + 10000 + 500
    assert_eq!(out[1].score, 10_760);
    assert_eq!(out[2].score, 10);
    let found = vec![item("files", "a", 10), item("files", "b", 10), item("files", "c", 5)];
    let alone = r.query_batches(1, found, "q", 2, 100);
    let scored: Vec<(&str, i32)> = alone.iter().map(|i| (i.text.as_str(), i.score)).collect();
    assert_eq!(scored, vec![("b", 10_760), ("a", 10)]);
    let tied = best_items(vec![item("a", "z", 1), item("a", "b", 1), item("a", "m", 5)], 2);
    let names: Vec<&str> = tied.iter().map(|i| i.text.as_str()).collect();
    assert_eq!(names, vec!["m", "b"]);
}

#[test]
fn menus_do_not_shadow_providers() {
    let mut c = config();
    c.provider_enabled.insert("calc".to_string(), false);
    c.provider_enabled.insert("off".to_string(), false);
    let menus = vec![
        "files".to_string(),
        "keys".to_string(),
        "off".to_string(),
        "keys".to_string(),
    ];
    assert_eq!(
        registered_names(&c, &menus),
        vec!["apps", "files", "runner", "clipboard", "windows", "keys"]
    );
    assert!(!enabled(&c, "calc"));
    assert!(enabled(&c, "unheard-of"));
    c.provider_enabled.insert("menus".to_string(), false);
    assert_eq!(registered_names(&c, &menus).len(), 5);
}

fn listed(r: &Registry) -> Vec<String> {
    r.providers().into_iter().map(|c| c.name).collect()
}

#[test]
fn a_registry_lists_what_is_switched_on() {
    let settings = || {
        let mut c = config();
        c.provider_enabled.insert("calc".to_string(), false);
        c.provider_enabled.insert("off".to_string(), false);
        c
    };
    let built = || described(&["apps", "files", "runner", "clipboard", "windows"]);
    let mut menus = described(&["calc", "files", "keys", "off"]);
    menus.push(default_capability("keys", "Again"));
    let r = Registry::new(settings(), built(), menus, UsageHistory::new());
    assert_eq!(listed(&r), vec!["apps", "files", "runner", "clipboard", "windows", "keys"]);
    assert_eq!(r.providers()[5].name_pretty, "keys");
    let mut without = settings();
    without.provider_enabled.insert("menus".to_string(), false);
    let r = Registry::new(without, built(), described(&["keys"]), UsageHistory::new());
    assert_eq!(listed(&r).len(), 5);
}

#[test]
fn settings_can_be_swapped() {
    let mut r = registry();
    let before = listed(&r);
    assert!(r.icons().theme.is_empty());
    let mut other = config();
    other.provider_enabled.insert("apps".to_string(), false);
    other.icon_theme = "Papirus".to_string();
    other.icon_cache_dir = "/thumbs".to_string();
    other.thumbnail_cache_enabled = true;
    r.reload_config(other);
    assert_eq!(listed(&r), before);
    let icons = r.icons();
    assert_eq!((icons.theme.as_str(), icons.cache_dir.as_str()), ("Papirus", "/thumbs"));
    assert!(icons.thumbnails);
    assert_eq!(r.providers()[2].prefixes, vec![">"]);
    assert_eq!(r.route_query(&vec![], "=>ls").0, vec!["calc"]);
    assert_eq!(r.weight("apps"), 20_000);
    assert_eq!(r.weight("menu"), 0);
}

#[test]
fn quoting_survives_a_quote() {
    assert_eq!(shell_quote("plain"), "'plain'");
    assert_eq!(shell_quote("it's"), "'it'\\''s'");
}

#[test]
fn an_empty_command_is_refused() {
    assert!(run("   ", None, "", None, "sh").is_err());
    assert_eq!(run("   ", None, "", None, "sh").unwrap_err(), "nothing to run");
    assert_eq!(
        run("ls", None, "", None, "sh").unwrap_err(),
        "no terminal found; set terminal_cmd to the one to use"
    );
}

#[test]
fn a_command_runs_in_the_users_shell() {
    let line = run("ls", Some("/a b"), "", Some("kitty -e"), "/bin/zsh").unwrap();
    assert!(line.starts_with("kitty -e /bin/zsh -i -c 'cd '\\''/a b'\\'' && ls\nstatus=$?\n"));
    assert!(line.ends_with("read _'"));
    assert!(run("ls", None, "foot", None, "sh").unwrap().starts_with("foot sh -i -c 'ls\n"));
    let installed = vec!["xterm".to_string(), "foot".to_string()];
    assert_eq!(default_terminal(&installed).as_deref(), Some("foot -e"));
    assert!(default_terminal(&vec![]).is_none());
    assert_eq!(user_shell(Some("/bin/fish"), None), "/bin/fish");
    assert_eq!(user_shell(Some(" "), Some("me:x:1:1::/h:/bin/zsh\n")), "/bin/zsh");
    assert_eq!(user_shell(None, Some("me:x:")), "sh");
    assert_eq!(user_shell(None, None), "sh");
}

#[test]
fn a_unit_quotes_what_needs_it() {
    assert_eq!(quote_systemd_arg("/usr/bin/x"), "/usr/bin/x");
    assert_eq!(quote_systemd_arg("/a b\\\"c"), "\"/a b\\\\\\\"c\"");
    let unit = install("/bin/epochoxide", Some("/my conf"), "/run/s", "/r/README.md");
    assert!(unit.contains(
        "ExecStart=/bin/epochoxide --config \"/my conf\" serve --socket /run/s\nRestart=on-failure"
    ));
    assert!(unit.contains("Documentation=file:///r/README.md\n"));
}

#[test]
fn a_notification_carries_its_image_and_tag() {
    assert_eq!(
        send(true, "S", "B", "i", Some("/p.png"), "t").unwrap(),
        vec![
            "--app-name=EpochShell",
            "--icon=i",
            "--hint=string:image-path:/p.png",
            "--hint=string:x-canonical-private-synchronous:t",
            "S",
            "B",
        ]
    );
    assert_eq!(send(true, "S", "B", "i", None, "").unwrap().len(), 4);
    assert_eq!(
        send(false, "S", "B", "i", None, "").unwrap_err(),
        "notify-send is not installed"
    );
}

#[test]
fn a_command_that_failed_is_named() {
    assert_eq!(epochoxide::providers::failure_body("ls x", " no such file\n"), "no such file");
    assert_eq!(epochoxide::providers::failure_body("ls x", " \n"), "Command failed: ls x");
}
