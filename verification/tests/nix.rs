use epochoxide::config::{Config, NixHost, Surroundings};
use epochoxide::json::{Number, Value};
use epochoxide::nix::{
    announce, available, check, checked, compare, configure, configured_hosts, describe,
    discover_failure, hosts, last_line, parse_lock, rebuild, resolve_failure, run_in_terminal,
    status, update, watch, Host, Input, Settings,
};

fn convert(value: serde_json::Value) -> Value {
    match value {
        serde_json::Value::Null => Value::Null,
        serde_json::Value::Bool(flag) => Value::Bool(flag),
        serde_json::Value::Number(n) => Value::Number(match (n.as_u64(), n.as_i64()) {
            (Some(n), _) => Number::Unsigned(n),
            (None, Some(n)) => Number::Negative(n),
            _ => Number::Decimal(n.to_string()),
        }),
        serde_json::Value::String(s) => Value::Text(s),
        serde_json::Value::Array(items) => Value::List(items.into_iter().map(convert).collect()),
        serde_json::Value::Object(fields) => {
            Value::Object(fields.into_iter().map(|(k, v)| (k, convert(v))).collect())
        }
    }
}

fn json(raw: &str) -> Value {
    convert(serde_json::from_str(raw).unwrap())
}

fn raw_lock(nixpkgs_rev: &str, home_rev: &str) -> serde_json::Value {
    let text = r#"{
        "version": 7,
        "root": "root",
        "nodes": {
            "root": { "inputs": { "nixpkgs": "nixpkgs", "home-manager": "home-manager", "self": "self" } },
            "nixpkgs": {
                "locked": { "type": "github", "owner": "NixOS", "repo": "nixpkgs", "rev": "NIXPKGS", "lastModified": 1788881743 },
                "original": { "type": "github", "owner": "NixOS", "repo": "nixpkgs", "ref": "nixos-unstable" }
            },
            "home-manager": {
                "locked": { "type": "git", "url": "https://github.com/nix-community/home-manager", "rev": "HOME", "lastModified": 1788000000 },
                "original": { "type": "git", "url": "https://github.com/nix-community/home-manager" }
            },
            "self": { "locked": { "type": "path" } }
        }
    }"#;
    serde_json::from_str(&text.replace("NIXPKGS", nixpkgs_rev).replace("HOME", home_rev)).unwrap()
}

fn lock(nixpkgs_rev: &str, home_rev: &str) -> Value {
    convert(raw_lock(nixpkgs_rev, home_rev))
}

fn parsed(raw: &str) -> serde_json::Value {
    serde_json::from_str(raw).unwrap()
}

fn found<'a>(inputs: &'a [Input], name: &str) -> &'a Input {
    inputs.iter().find(|i| i.name == name).expect("input")
}

#[test]
fn only_the_roots_own_inputs_are_read() {
    let parsed = parse_lock(&lock("aaa", "bbb"));
    let names: Vec<&str> = parsed.inputs.iter().map(|i| i.name.as_str()).collect();
    assert_eq!(names, ["home-manager", "nixpkgs", "self"]);
}

#[test]
fn a_follows_input_has_no_revision_to_compare() {
    let mut value = raw_lock("aaa", "bbb");
    value["nodes"]["root"]["inputs"]["foo"] = parsed(r#"["nixpkgs"]"#);
    let parsed = parse_lock(&convert(value));
    assert!(parsed.inputs.iter().all(|input| input.name != "foo"));
}

#[test]
fn a_moved_revision_is_an_update() {
    let current = parse_lock(&lock("aaa", "bbb"));
    let candidate = parse_lock(&lock("ccc", "bbb"));
    let compared = compare(&current, &candidate);
    let nixpkgs = found(&compared, "nixpkgs");
    assert!(nixpkgs.update_available);
    assert_eq!(nixpkgs.latest_rev, "ccc");
    assert!(!found(&compared, "home-manager").update_available);
}

#[test]
fn an_input_the_candidate_does_not_have_is_not_an_update() {
    let current = parse_lock(&lock("aaa", "bbb"));
    let mut dropped = raw_lock("aaa", "bbb");
    dropped["nodes"]["root"]["inputs"]
        .as_object_mut()
        .expect("inputs")
        .remove("nixpkgs");
    let compared = compare(&current, &parse_lock(&convert(dropped)));
    let nixpkgs = found(&compared, "nixpkgs");
    assert!(!nixpkgs.update_available);
    assert_eq!(nixpkgs.latest_rev, "");
}

#[test]
fn an_input_with_no_revision_is_compared_by_date() {
    let mut current = raw_lock("aaa", "bbb");
    current["nodes"]["nixpkgs"]["locked"] = parsed(r#"{ "type": "tarball", "lastModified": 100 }"#);
    let mut candidate = raw_lock("aaa", "bbb");
    candidate["nodes"]["nixpkgs"]["locked"] =
        parsed(r#"{ "type": "tarball", "lastModified": 200 }"#);
    let compared = compare(&parse_lock(&convert(current)), &parse_lock(&convert(candidate)));
    assert!(found(&compared, "nixpkgs").update_available);
}

fn host(name: &str, rebuild: &str) -> NixHost {
    NixHost {
        name: name.into(),
        rebuild: rebuild.into(),
    }
}

fn settings_with(hosts: Vec<NixHost>, fallback: &str) -> Settings {
    Settings {
        flake: "/tmp/flake".into(),
        interval_minutes: 0,
        update_command: "nix flake update".into(),
        rebuild_command: fallback.into(),
        hosts,
        terminal: String::new(),
        notify: false,
    }
}

#[test]
fn a_configured_host_keeps_its_own_command() {
    let settings = settings_with(
        vec![host("thor", "rebuild-thor")],
        "sudo nixos-rebuild switch --flake .#%HOST%",
    );
    let hosts = configured_hosts(&settings);
    assert_eq!(hosts[0].rebuild, "rebuild-thor");
    assert!(hosts[0].configured);
}

#[test]
fn a_host_without_its_own_command_falls_back_to_the_template() {
    let settings = settings_with(
        vec![host("odin", "")],
        "sudo nixos-rebuild switch --flake .#%HOST%",
    );
    let hosts = configured_hosts(&settings);
    assert_eq!(hosts[0].rebuild, "sudo nixos-rebuild switch --flake .#odin");
}

#[test]
fn a_host_with_no_command_anywhere_is_offered_nothing_to_run() {
    let settings = settings_with(vec![host("loki", "")], "");
    assert_eq!(configured_hosts(&settings)[0].rebuild, "");
}

#[test]
fn a_reference_reads_the_way_it_was_written() {
    assert_eq!(
        describe(&json(
            r#"{ "type": "github", "owner": "NixOS", "repo": "nixpkgs", "ref": "nixos-unstable" }"#
        )),
        "github:NixOS/nixpkgs/nixos-unstable"
    );
    assert_eq!(
        describe(&json(
            r#"{ "type": "git", "url": "https://github.com/ghostty-org/ghostty", "ref": "refs/tags/v1.3.1" }"#
        )),
        "https://github.com/ghostty-org/ghostty (refs/tags/v1.3.1)"
    );
    assert_eq!(
        describe(&json(r#"{ "type": "indirect", "id": "nixpkgs" }"#)),
        "nixpkgs"
    );
    assert_eq!(
        describe(&json(r#"{ "type": "gitlab", "owner": "o", "repo": "r", "rev": "1" }"#)),
        "gitlab:o/r/1"
    );
    assert_eq!(describe(&json(r#"{ "type": "path", "path": "/p" }"#)), "/p");
    assert_eq!(describe(&json(r#"{ "type": "tarball" }"#)), "tarball");
}

fn input(name: &str, update_available: bool) -> Input {
    Input {
        name: name.into(),
        kind: String::new(),
        source: String::new(),
        current_rev: String::new(),
        current_date: 0,
        latest_rev: String::new(),
        latest_date: 0,
        update_available,
    }
}

#[test]
fn only_what_is_new_is_announced() {
    let now = vec![input("a", true), input("b", false), input("c", true)];
    let (summary, body) = announce(true, None, &now).unwrap();
    assert_eq!(summary, "2 flake inputs can be updated");
    assert_eq!(body, "a, c");
    assert!(announce(true, Some(&vec![input("a", true), input("c", true)]), &now).is_none());
    assert!(announce(false, None, &now).is_none());
    let (summary, body) = announce(true, None, &vec![input("a", true)]).unwrap();
    assert_eq!(summary, "1 flake input can be updated");
    assert_eq!(body, "a");
    let many: Vec<Input> = ["a", "b", "c", "d", "e", "f"].iter().map(|n| input(n, true)).collect();
    assert_eq!(announce(true, None, &many).unwrap().1, "a, b, c, d, and 2 more");
}

#[test]
fn hosts_are_configured_or_discovered() {
    let settings = settings_with(vec![host("thor", "r"), host(" ", "x")], "do %HOST%");
    let all = hosts(&settings, Ok(()), Ok(vec!["thor".into(), "odin".into()])).unwrap();
    let names: Vec<(&str, &str)> =
        all.iter().map(|h| (h.name.as_str(), h.rebuild.as_str())).collect();
    assert_eq!(names, vec![("thor", "r"), ("odin", "do odin")]);
    assert_eq!(hosts(&settings, Err("no".into()), Ok(vec![])).unwrap().len(), 1);
    let none = settings_with(vec![], "");
    assert_eq!(hosts(&none, Err("no".into()), Ok(vec![])).unwrap_err(), "no");
    assert_eq!(hosts(&none, Ok(()), Err("bad".into())).unwrap_err(), "bad");
}

#[test]
fn nothing_is_rebuilt_by_guess() {
    let host = |name: &str, rebuild: &str| Host {
        name: name.into(),
        rebuild: rebuild.into(),
        configured: true,
    };
    let s = settings_with(vec![], "");
    let two = vec![host("a", "ra"), host("b", "")];
    assert_eq!(rebuild(&s, None, &two).unwrap_err(), "which host? this flake knows a, b");
    assert_eq!(rebuild(&s, Some(" a "), &two).unwrap(), "ra");
    assert_eq!(
        rebuild(&s, Some("b"), &two).unwrap_err(),
        "no rebuild command for b (set nix_rebuild_command, or a rebuild for it in nix_hosts)"
    );
    assert_eq!(rebuild(&s, Some("c"), &two).unwrap_err(), "no host \"c\" (a, b)");
    assert_eq!(
        rebuild(&s, Some("c"), &vec![]).unwrap_err(),
        "no host \"c\" (this flake defines none)"
    );
    assert_eq!(
        rebuild(&s, None, &vec![]).unwrap_err(),
        "no rebuild command for this flake (set nix_rebuild_command, or a rebuild for it in nix_hosts)"
    );
    assert_eq!(rebuild(&s, None, &vec![host("a", "ra")]).unwrap(), "ra");
}

#[test]
fn commands_run_in_the_flakes_directory() {
    let s = settings_with(vec![], "");
    let line = update(&s, Some("foot -e"), "zsh").unwrap();
    assert!(line.starts_with("foot -e zsh -i -c 'cd '\\''/tmp/flake'\\'' && nix flake update\n"));
    assert_eq!(
        update(&s, None, "zsh").unwrap_err(),
        "no terminal found; set terminal_cmd to the terminal to run this in"
    );
    assert_eq!(
        run_in_terminal(&s, " ", "k", None, "zsh").unwrap_err(),
        "no k is configured"
    );
    let mut none = settings_with(vec![], "");
    none.flake = String::new();
    assert_eq!(
        update(&none, None, "zsh").unwrap_err(),
        "no flake configured (set nix_flake)"
    );
}

#[test]
fn availability_and_checks_say_why_not() {
    let mut s = settings_with(vec![], "");
    assert!(available(&s, true, true).is_ok());
    assert_eq!(available(&s, false, true).unwrap_err(), "nix is not installed");
    assert_eq!(
        available(&s, true, false).unwrap_err(),
        "/tmp/flake is not a flake (no flake.nix)"
    );
    assert!(check(Ok(()), false).is_ok());
    assert_eq!(check(Ok(()), true).unwrap_err(), "a check is already running");
    assert_eq!(check(Err("x".into()), false).unwrap_err(), "x");
    assert_eq!(watch(&s), None);
    s.interval_minutes = 5;
    assert_eq!(watch(&s), Some(5));
    s.flake = String::new();
    assert_eq!(watch(&s), None);
    assert_eq!(last_line("a\n b \n\n"), "b");
    assert_eq!(last_line("\n"), "nix said nothing");
    assert_eq!(
        resolve_failure(b"x\nerror: y\n"),
        "nix could not resolve the flake's inputs: error: y"
    );
    assert!(discover_failure(b"flake does not provide attribute 'x'").unwrap().is_empty());
    assert_eq!(
        discover_failure(b"boom").unwrap_err(),
        "nix could not list the flake's hosts: boom"
    );
}

#[test]
fn the_status_answers_from_memory() {
    let s = settings_with(vec![host("thor", "r")], "");
    let idle = status(&s, None, false, Ok(()), 7);
    assert_eq!((idle.checked_at, idle.updates, idle.locked_at), (0, 0, 7));
    assert_eq!(idle.hosts.len(), 1);
    let done = checked(9, Ok(vec![input("a", true), input("b", false)]), Err("no".into()));
    let after = status(&s, Some(&done), true, Err("why".into()), 7);
    assert_eq!(after.checked_at, 9);
    assert_eq!(after.updates, 1);
    assert_eq!(after.inputs.len(), 2);
    assert_eq!(after.reason.as_deref(), Some("why"));
    assert!(!after.available && after.checking);
    let failed = checked(9, Err("boom".into()), Ok(vec![]));
    assert_eq!(status(&s, Some(&failed), false, Ok(()), 0).error.as_deref(), Some("boom"));
    let config = Config::defaults(&Surroundings {
        home: None,
        tilde: None,
        cache_dir: None,
        temp_dir: "/tmp".into(),
        config_dir: None,
        editor: None,
        runtime_dir: None,
    });
    let from = configure(&config, None);
    assert_eq!(from.interval_minutes, 60);
    assert!(!from.configured());
    let with = Config { nix_flake: "~/flake".into(), ..config };
    assert_eq!(configure(&with, Some("/home/me")).flake, "/home/me/flake");
    assert_eq!(configure(&with, None).flake, "~/flake");
}
