use epochoxide::config::{Config, Surroundings};
use epochoxide::icons::{
    icon_names, read_theme_index, stamp_for, thumbnail, IconResolver, IconSettings, Lookup, ThemeSearch,
    Thumbnail,
};

fn config(theme: &str, cache: &str) -> Config {
    let mut config = Config::defaults(&Surroundings {
        home: None,
        tilde: None,
        cache_dir: None,
        temp_dir: "/tmp".into(),
        config_dir: None,
        editor: None,
        runtime_dir: None,
    });
    config.icon_theme = theme.into();
    config.icon_cache_dir = cache.into();
    config
}

#[test]
fn theme_index_parses_inherits_and_directories() {
    let index = read_theme_index("[Icon Theme]\nName=MyTheme\nInherits=hicolor,breeze\nDirectories=48x48/apps,scalable/apps\n\n[48x48/apps]\nSize=48\n");
    assert_eq!(index.inherits, vec!["hicolor", "breeze"]);
    assert_eq!(index.directories, vec!["48x48/apps", "scalable/apps"]);
    let other = read_theme_index("[x]\nInherits=a\n[Icon Theme]\nDirectories=a,,b\nDirectories=c\n");
    assert!(other.inherits.is_empty());
    assert_eq!(other.directories, vec!["c"]);
}

/// Walks the themes with the given index files.
fn search(config: &Config, data: Option<&str>, files: &[(&str, &str)]) -> Vec<String> {
    let read = |root: &str| {
        files.iter().find(|(path, _)| *path == root).map(|(_, raw)| read_theme_index(raw))
    };
    let mut search = ThemeSearch::new(&IconSettings::of(config), data);
    while let Some(theme) = search.next() {
        for root in search.roots(&theme) {
            if let Some(index) = read(&root) {
                search.enter(&root, &index);
                break;
            }
        }
    }
    if search.falls_back() {
        for root in search.roots("hicolor") {
            if let Some(index) = read(&root) {
                search.add_directories(&root, &index);
            }
        }
    }
    search.finish()
}

#[test]
fn resolver_caches_after_first_lookup() {
    let config = config("MyTheme", "/c");
    let dirs = search(
        &config,
        None,
        &[("/c/MyTheme", "[Icon Theme]\nDirectories=48x48/apps\n")],
    );
    let mut resolver = IconResolver::new(dirs);
    let Lookup::Search(paths) = resolver.resolve("firefox") else {
        panic!("known at first")
    };
    let found = "/c/MyTheme/48x48/apps/firefox.png".to_string();
    assert_eq!(paths[0], found);
    resolver.remember("firefox", Some(found.clone()));
    let Lookup::Known(cached) = resolver.resolve("firefox") else {
        panic!("searched for again")
    };
    assert_eq!(Some(found), cached);
}

#[test]
fn a_theme_that_inherits_itself_is_walked_once() {
    let config = config("A", "");
    let dirs = search(
        &config,
        Some("/d"),
        &[
            ("/d/icons/A", "[Icon Theme]\nInherits=B,A\nDirectories=1\n"),
            ("/usr/share/icons/A", "[Icon Theme]\nDirectories=2\n"),
            ("/usr/share/icons/B", "[Icon Theme]\nInherits=A\nDirectories=3\n"),
            ("/usr/share/icons/hicolor", "[Icon Theme]\nInherits=Z\nDirectories=4\n"),
        ],
    );
    assert_eq!(
        dirs,
        vec![
            "/d/icons/A/1",
            "/usr/share/icons/B/3",
            "/usr/share/icons/hicolor/4",
            "/d/icons",
            "/usr/share/icons",
            "/usr/share/pixmaps",
        ]
    );
}

#[test]
fn an_icon_has_its_names() {
    assert_eq!(icon_names("a"), vec!["a.png", "a.svg", "a.xpm"]);
    assert_eq!(icon_names("org.a"), vec!["org.a"]);
    let mut resolver = IconResolver::new(vec!["/x".into()]);
    assert!(matches!(resolver.resolve(""), Lookup::Known(None)));
    assert!(matches!(resolver.resolve("/p.png"), Lookup::File(path) if path == "/p.png"));
    resolver.remember("gone", None);
    assert!(matches!(resolver.resolve("gone"), Lookup::Known(None)));
    let Lookup::Search(paths) = resolver.resolve("b") else {
        panic!("known")
    };
    assert_eq!(paths, vec!["/x/b.png", "/x/b.svg", "/x/b.xpm"]);
}

#[test]
fn thumbnails_are_made_once() {
    assert_eq!(stamp_for(""), "811c9dc5");
    assert_eq!(stamp_for("a"), "e40c292c");
    assert_eq!(stamp_for("foobar"), "bf9cf968");
    let mut config = config("", "/c");
    config.thumbnail_cache_enabled = true;
    let Thumbnail::Cached(path) = thumbnail("a", &IconSettings::of(&config), true, true) else {
        panic!("not cached")
    };
    assert_eq!(path, "/c/e40c292c.png");
    let Thumbnail::Render { path, command } = thumbnail("/it's.png", &IconSettings::of(&config), true, false) else {
        panic!("not made")
    };
    assert_eq!(
        command,
        format!("convert '/it'\\''s.png' -thumbnail 48x48 -background none '{path}'")
    );
    let Thumbnail::Render { path, command } = thumbnail("/x.SVG", &IconSettings::of(&config), true, false) else {
        panic!("not made")
    };
    assert_eq!(command, format!("rsvg-convert -w 48 -h 48 -o '{path}' '/x.SVG'"));
    assert!(matches!(thumbnail("", &IconSettings::of(&config), true, true), Thumbnail::Nothing));
    assert!(matches!(thumbnail("a", &IconSettings::of(&config), false, true), Thumbnail::Nothing));
    config.thumbnail_cache_enabled = false;
    assert!(matches!(thumbnail("a", &IconSettings::of(&config), true, true), Thumbnail::Nothing));
}
