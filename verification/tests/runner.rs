use epochoxide::config::{Config, RunnerCommand, Surroundings};
use epochoxide::providers::calc::{choose_result, expression, CalcProvider, CalcStep};
use epochoxide::providers::runner::{
    default_terminal_cmd, entry_from_custom, looks_like_shell_command, shell_fallback_item,
    terminal_command, RunnerProvider, RunnerStep,
};
use epochoxide::text::shell_quote;

fn config() -> Config {
    Config::defaults(&Surroundings {
        home: None,
        tilde: None,
        cache_dir: None,
        temp_dir: "/tmp".to_string(),
        config_dir: None,
        editor: None,
        runtime_dir: None,
    })
}

fn docs() -> RunnerCommand {
    RunnerCommand {
        name: "Docs".into(),
        command: "xdg-open https://example.com".into(),
        keywords: vec!["help".into()],
        icon: None,
        terminal: false,
    }
}

#[test]
fn custom_command_search_includes_keywords() {
    let entry = entry_from_custom(&docs());
    assert!(entry.search.contains("help"));
    assert_eq!(entry.search, "docs xdg-open https://example.com help");
}

#[test]
fn shell_fallback_prefers_shell_like_queries() {
    let item = shell_fallback_item("echo hi").unwrap();
    assert_eq!(item.identifier, "shell:echo hi");
    assert_eq!(item.actions, vec!["run"]);
    assert!(item.score > 15_000);
}

#[test]
fn shell_fallback_does_not_beat_simple_command_names() {
    let item = shell_fallback_item("firefox").unwrap();
    assert!(item.score < 1_000);
    assert!(shell_fallback_item("  ").is_none());
    assert!(looks_like_shell_command("a|b"));
}

#[test]
fn terminal_command_quotes_shell_command() {
    let command = terminal_command("term -e sh -lc %COMMAND%", None, "printf 'hi'").unwrap();
    assert_eq!(command, "term -e sh -lc 'printf '\\''hi'\\'''");
    assert_eq!(
        terminal_command("", None, "x").unwrap_err(),
        "no terminal found; set terminal_cmd"
    );
    assert_eq!(terminal_command("", Some("t %COMMAND%"), "x").unwrap(), "t 'x'");
}

#[test]
fn shell_quote_escapes_single_quotes() {
    assert_eq!(shell_quote("printf 'hi'"), "'printf '\\''hi'\\'''");
}

#[test]
fn the_first_installed_terminal_is_used() {
    let installed = vec!["xterm".to_string(), "kitty".to_string()];
    assert_eq!(
        default_terminal_cmd(None, &installed).as_deref(),
        Some("kitty sh -lc %COMMAND%")
    );
    assert_eq!(
        default_terminal_cmd(Some("mine"), &installed).as_deref(),
        Some("'mine' -e sh -lc %COMMAND%")
    );
    assert!(default_terminal_cmd(None, &vec![]).is_none());
}

#[test]
fn commands_are_found_and_run() {
    let mut c = config();
    c.runner_commands = vec![
        docs(),
        RunnerCommand {
            name: String::new(),
            command: "x".into(),
            keywords: vec![],
            icon: None,
            terminal: false,
        },
        RunnerCommand {
            name: "Top".into(),
            command: "top %ARGS%".into(),
            keywords: vec![],
            icon: Some("top".into()),
            terminal: true,
        },
    ];
    let found = vec!["/bin/ls".to_string(), "/usr/bin/ls".to_string(), "/bin/top".to_string()];
    let p = RunnerProvider::new(&c, &found);
    let ids: Vec<&str> = p.commands.iter().map(|c| c.id.as_str()).collect();
    assert_eq!(ids, vec!["custom:Docs", "custom:Top", "path:ls", "path:top"]);
    let items = p.query("top", 10, false);
    assert_eq!(items[0].identifier, "custom:Top");
    assert_eq!(items[0].state, vec!["terminal", "custom"]);
    let at = |id: &str| items.iter().position(|item| item.identifier == id).unwrap();
    assert!(at("path:top") < at("shell:top"));
    // 1000 + 3 * 100 + (100 - 3) + 500 + 1000
    assert_eq!(items[at("path:top")].score, 2_897);
    let run = |r: Result<RunnerStep, String>| match r {
        Ok(RunnerStep::Run(line)) => line,
        other => panic!("{other:?}"),
    };
    assert_eq!(run(p.activate("path:ls", "run", "", "", None)), "/bin/ls");
    assert_eq!(
        run(p.activate("custom:Top", "run", "-d", "t %COMMAND%", None)),
        "t 'top -d'"
    );
    assert_eq!(run(p.activate("shell:a b", "run", "", "t %COMMAND%", None)), "t 'a b'");
    assert_eq!(
        p.activate("nope", "run", "", "", None).unwrap_err(),
        "runner command not found"
    );
    assert!(matches!(p.activate("", "reindex", "", "", None), Ok(RunnerStep::Reindex)));
    assert_eq!(
        p.activate("", "fly", "", "", None).unwrap_err(),
        "unsupported runner action: fly"
    );
    c.runner_scan_path = false;
    assert_eq!(RunnerProvider::new(&c, &found).commands.len(), 2);
    assert!(p.capability().actions.get("reindex").unwrap().async_action);
}

#[test]
fn only_what_can_be_calculated_is_calculated() {
    assert_eq!(expression(" 1+2 ").as_deref(), Some("1+2"));
    assert!(expression("1").is_none());
    assert!(expression("ab").is_none());
    assert_eq!(
        choose_result(Some(String::new()), Some("7".to_string())).as_deref(),
        Some("7")
    );
    assert_eq!(
        choose_result(Some("8".to_string()), Some("7".to_string())).as_deref(),
        Some("8")
    );
}

#[test]
fn results_are_kept_and_copied() {
    let mut p = CalcProvider::new();
    let items = p.query("1+2", Some("3"), 10, false);
    assert_eq!(items[0].text, "1+2 = 3");
    assert_eq!(items[0].score, 1_000_000);
    assert_eq!(CalcProvider::input("", "q"), "q");
    assert_eq!(CalcProvider::input("i", "q"), "i");
    p.activate("1+2", "save", Some("3".to_string())).unwrap();
    assert_eq!(p.query("1+2", Some("3"), 10, false).len(), 2);
    assert_eq!(p.query("1+2", None, 10, false)[0].actions, vec!["copy", "delete"]);
    assert_eq!(p.query("1+2", Some("3"), 1, false).len(), 1);
    assert!(
        matches!(p.activate("1+2", "copy", Some("it's".to_string())), Ok(CalcStep::Run(l)) if l == "printf %s 'it'\\''s' | wl-copy")
    );
    assert!(matches!(p.activate("1+2", "fly", None), Ok(CalcStep::Nothing)));
    assert_eq!(
        p.activate("1+2", "fly", Some("3".to_string())).unwrap_err(),
        "unsupported calc action: fly"
    );
    p.activate("1+2", "delete", Some("3".to_string())).unwrap();
    assert!(p.history.is_empty());
}
