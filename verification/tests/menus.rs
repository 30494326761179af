use epochoxide::keyed::TextMap;
use epochoxide::providers::menus::{
    freshness, preview_of, usable_menus, Freshness, Menu, MenuEntry, MenuProvider, MenuStep,
};

fn string(table: &toml::Table, key: &str) -> Option<String> {
    table.get(key).and_then(|v| v.as_str()).map(str::to_string)
}

fn map(table: &toml::Table, key: &str) -> Option<TextMap<String>> {
    let inner = table.get(key)?.as_table()?;
    let mut out = TextMap::new();
    for (k, v) in inner {
        out.insert(k.clone(), v.as_str()?.to_string());
    }
    Some(out)
}

fn entry_of(table: &toml::Table) -> MenuEntry {
    MenuEntry {
        text: string(table, "text").unwrap(),
        value: string(table, "value"),
        copy: string(table, "copy"),
        subtext: string(table, "subtext"),
        icon: string(table, "icon"),
        keywords: table.get("keywords").and_then(|v| v.as_array()).map(|list| {
            list.iter().map(|v| v.as_str().unwrap().to_string()).collect()
        }),
        actions: map(table, "actions"),
        submenu: string(table, "submenu"),
        async_command: string(table, "async"),
    }
}

fn entry(raw: &str) -> MenuEntry {
    entry_of(&raw.parse::<toml::Table>().unwrap())
}

fn menu(raw: &str) -> Menu {
    let table = raw.parse::<toml::Table>().unwrap();
    Menu {
        name: string(&table, "name").unwrap_or_default(),
        name_pretty: string(&table, "name_pretty"),
        description: string(&table, "description"),
        icon: string(&table, "icon"),
        action: string(&table, "action"),
        command: string(&table, "command"),
        cache_ms: table.get("cache_ms").and_then(|v| v.as_integer()).map(|n| n as u64),
        actions: map(&table, "actions"),
        entries: table.get("entries").and_then(|v| v.as_array()).map(|list| {
            list.iter().map(|v| entry_of(v.as_table().unwrap())).collect()
        }),
    }
}

fn opened(raw: &str) -> (MenuProvider, Vec<MenuEntry>) {
    let entries = menu(raw).entries.unwrap_or_default();
    (MenuProvider::new(menu(raw)), entries)
}

#[test]
fn parses_toml_menu() {
    let menu = menu("name = 'bookmarks'\naction = 'xdg-open %VALUE%'\n[[entries]]\ntext = 'Rust'\nvalue = 'https://rust-lang.org'\n");
    assert_eq!(menu.name, "bookmarks");
    assert_eq!(menu.entries.unwrap()[0].text, "Rust");
}

#[test]
fn each_menu_is_its_own_provider() {
    let provider = MenuProvider::new(menu(
        "name = 'keybinds'\nname_pretty = 'Keybinds'\nicon = 'input-keyboard'\n",
    ));
    let cap = provider.capability();
    assert_eq!(cap.name, "keybinds");
    assert_eq!(cap.name_pretty, "Keybinds");
    assert_eq!(cap.icon, "input-keyboard");
}

#[test]
fn searches_entries_rather_than_menu_names() {
    let (provider, entries) = opened(
        "name = 'screenshots'\naction = '%VALUE%'\n[[entries]]\ntext = 'Region'\nvalue = 'grim -g'\n[[entries]]\ntext = 'Fullscreen'\nvalue = 'grim'\n",
    );
    let items = provider.query(&entries, "full", 10, false);
    assert_eq!(items.len(), 1);
    assert_eq!(items[0].text, "Fullscreen");
    assert_eq!(items[0].provider, "screenshots");
}

#[test]
fn empty_query_keeps_the_configured_order() {
    let (provider, entries) = opened(
        "name = 'm'\n[[entries]]\ntext = 'first'\n[[entries]]\ntext = 'second'\n[[entries]]\ntext = 'third'\n",
    );
    let items = provider.query(&entries, "", 10, false);
    let texts: Vec<&str> = items.iter().map(|i| i.text.as_str()).collect();
    assert_eq!(texts, ["first", "second", "third"]);
    let all = provider.menu(&entries);
    assert_eq!(all[0].score, 3);
    assert_eq!(all[2].identifier, "2");
}

#[test]
fn a_generated_menu_is_generated_again_when_it_is_opened() {
    assert_eq!(freshness(None, true, Some(600_000)), Freshness::Generate);
    assert_eq!(freshness(Some(5_000), false, Some(600_000)), Freshness::Serve);
    assert_eq!(freshness(Some(300), true, Some(600_000)), Freshness::ServeAndRefresh);
    assert_eq!(freshness(Some(299), true, None), Freshness::Serve);
    assert_eq!(freshness(Some(10_000), false, None), Freshness::ServeAndRefresh);
}

#[test]
fn entries_are_commands_or_text() {
    let command = entry("text = 'Region'\nvalue = 'grim -g'");
    let text = entry("text = 'Shrug'\ncopy = 'x'");
    let menu = menu("name = 'm'\naction = '%VALUE%'\n");
    assert_eq!(command.action_names(&menu), ["default"]);
    assert_eq!(text.action_names(&menu), ["copy"]);
}

#[test]
fn entry_falls_back_to_the_menu_icon() {
    let provider = MenuProvider::new(menu(
        "name = 'm'\nicon = 'input-keyboard'\n[[entries]]\ntext = 'a'\n",
    ));
    let entry = entry("text = 'a'");
    assert_eq!(provider.item(0, &entry, 1).icon, "input-keyboard");
}

#[test]
fn default_action_sorts_ahead_of_the_rest() {
    let entry = entry("text = 'a'\n[actions]\nzeta = 'z'\ndefault = 'd'\nalpha = 'a'");
    assert_eq!(entry.action_names(&menu(""))[0], "default");
}

#[test]
fn an_entry_that_leads_on_can_be_opened() {
    let names = entry("text = 'a'\nsubmenu = 'b'").action_names(&menu("[actions]\nb = '1'\na = '2'"));
    assert_eq!(names, ["a", "b", "open"]);
}

#[test]
fn entries_are_activated() {
    let (provider, entries) = opened(
        "name = 'm'\naction = 'run %VALUE% %ARGS%'\n[[entries]]\ntext = 'one'\nvalue = 'v'\n[[entries]]\ntext = 'two'\ncopy = 'c'\n[[entries]]\ntext = 'three'\nsubmenu = 's'\n[entries.actions]\nkill = 'kill %VALUE%'\n",
    );
    let run = |id: &str, action: &str| provider.activate(&entries, id, action, "x y");
    assert!(matches!(run("0", "default"), Ok(MenuStep::Run(l)) if l == "run v x y"));
    assert!(matches!(run("0", "copy"), Ok(MenuStep::CopyText(t)) if t == "v"));
    assert!(matches!(run("1", "default"), Ok(MenuStep::CopyText(t)) if t == "c"));
    assert!(matches!(run("2", "open"), Ok(MenuStep::Nothing)));
    assert!(matches!(run("2", "kill"), Ok(MenuStep::Run(l)) if l == "kill three"));
    assert_eq!(run("x", "default").unwrap_err(), "invalid menu entry");
    assert_eq!(run("9", "default").unwrap_err(), "menu entry not found");
    let (bare, entries) = opened("name = 'm'\n[[entries]]\ntext = 'one'\n");
    assert!(matches!(bare.activate(&entries, "0", "default", ""), Ok(MenuStep::Nothing)));
    assert_eq!(preview_of(Some(b" out \n")), "out");
    assert_eq!(preview_of(None), "");
}

#[test]
fn menus_are_listed_by_name_and_once() {
    let all = usable_menus(vec![
        menu("name = 'b'\nicon = 'first'"),
        menu("name = ''"),
        menu("name = 'a'"),
        menu("name = 'b'\nicon = 'second'"),
    ]);
    let names: Vec<&str> = all.iter().map(|m| m.name.as_str()).collect();
    assert_eq!(names, ["a", "b"]);
    assert_eq!(all[1].icon.as_deref(), Some("first"));
}
