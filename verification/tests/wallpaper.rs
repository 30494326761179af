use epochoxide::wallpaper::{
    applied, apply, available, configure, current, loadable, remember, remembered, restore, scan,
    status, step, Entry, Settings,
};

fn file(path: &str) -> Entry {
    Entry::File(path.into())
}

fn settings() -> Settings {
    configure(&vec!["/w".to_string(), "/x".to_string()], "cover")
}

#[test]
fn images_are_found_two_levels_deep_and_in_order() {
    let first = vec![
        file("/w/b.png"),
        file("/w/readme.txt"),
        Entry::Folder(vec![
            file("/w/n/a.JPG"),
            Entry::Folder(vec![file("/w/n/deep/c.png")]),
        ]),
    ];
    let second = vec![file("/a.webp"), file("/w/b.png")];
    let found = scan(&vec![first, second]);
    assert_eq!(found, vec!["/a.webp", "/w/b.png", "/w/n/a.JPG"]);
    assert!(loadable("x.jpeg") && !loadable("x.gif") && !loadable(".png"));
}

#[test]
fn stepping_wraps_around() {
    let list = vec!["/a".to_string(), "/b".to_string(), "/c".to_string()];
    assert_eq!(step(&list, "/c", 1, &settings()).unwrap(), "/a");
    assert_eq!(step(&list, "/a", -1, &settings()).unwrap(), "/c");
    assert_eq!(step(&list, "/a", -4, &settings()).unwrap(), "/c");
    assert_eq!(step(&list, "/gone", 1, &settings()).unwrap(), "/b");
    assert_eq!(step(&list, "/b", 0, &settings()).unwrap(), "/b");
    assert_eq!(step(&list, "/a", i64::MAX, &settings()).unwrap(), "/b");
    assert_eq!(
        step(&vec![], "/a", 1, &settings()).unwrap_err(),
        "no images in /w, /x"
    );
}

#[test]
fn a_choice_is_remembered_and_restored() {
    let saved = remember("/a b.png");
    assert_eq!(saved, "/a b.png\n");
    assert_eq!(remembered(Some(&saved)).as_deref(), Some("/a b.png"));
    assert_eq!(remembered(Some(" \n")), None);
    assert_eq!(remembered(None), None);
    assert_eq!(current(Some("/held"), Some(&saved)), "/held");
    assert_eq!(current(None, Some(&saved)), "/a b.png");
    assert_eq!(current(None, None), "");
    assert_eq!(restore(Some(&saved), true).as_deref(), Some("/a b.png"));
    assert_eq!(restore(Some(&saved), false), None);
    assert_eq!(restore(None, true), None);
}

#[test]
fn a_wallpaper_is_asked_for_with_its_fit() {
    assert_eq!(
        apply("/a.png", &settings()),
        vec!["hyprpaper", "wallpaper", ",/a.png,cover"]
    );
    assert!(applied(b" \n").is_ok());
    assert_eq!(applied(b"no such file\n").unwrap_err(), "hyprpaper refused: no such file");
    assert_eq!(epochoxide::wallpaper::set(" /a.png ", true).unwrap(), "/a.png");
    assert_eq!(epochoxide::wallpaper::set("  ", true).unwrap_err(), "no wallpaper path given");
    assert_eq!(epochoxide::wallpaper::set("/b", false).unwrap_err(), "no such image: /b");
    let status = status(&settings(), &vec![vec![file("/w/a.png")]], None, None, false);
    assert_eq!(status.wallpapers, vec!["/w/a.png"]);
    assert_eq!(status.directories, vec!["/w", "/x"]);
    assert_eq!(status.fit_mode, "cover");
    assert_eq!(status.unavailable_reason.as_deref(), Some("hyprctl is not installed"));
    assert!(available(true).is_ok() && available(false).is_err());
}
