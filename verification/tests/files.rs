use epochoxide::config::{default_ignored_dirs, FileIndex};
use epochoxide::providers::files::{
    activate_path, fd_arguments, fd_pattern, fd_query, files_capability, image_mime,
    is_ignored_path, name_match_bonus, should_save, unique_trigrams, wants_index, FileStep,
    FilesProvider, LazyFilesProvider,
};

fn test_provider() -> FilesProvider {
    FilesProvider::new(default_ignored_dirs("/home/me"))
}

#[test]
fn empty_query_skips_the_scan_entirely() {
    let mut provider = test_provider();
    provider.add_path("/tmp/foo");
    assert!(provider.query("", 20, false).is_empty());
}

#[test]
fn trigram_candidates_intersect_query_trigrams() {
    let mut provider = test_provider();
    provider.add_path("/tmp/lib-alpha.txt");
    provider.add_path("/tmp/lib-beta.txt");
    provider.add_path("/tmp/bin-alpha.txt");

    let candidates = provider.candidate_keys("lib").unwrap();
    assert_eq!(candidates.len(), 2);
    assert!(candidates.iter().all(|path| path.contains("lib")));
}

#[test]
fn missing_trigram_has_no_candidates() {
    let mut provider = test_provider();
    provider.add_path("/tmp/lib-alpha.txt");

    assert_eq!(provider.candidate_keys("xyz"), Some(Vec::new()));
    assert_eq!(provider.candidate_keys("xy"), None);
}

#[test]
fn fd_pattern_matches_paths_not_just_basenames() {
    assert_eq!(fd_pattern("epoch"), "epoch");
    assert_eq!(fd_pattern("src/main"), "src/main");
}

#[test]
fn fd_pattern_escapes_regex_metacharacters() {
    assert_eq!(fd_pattern("config.toml"), r"config\.toml");
    assert_eq!(fd_pattern("main(1)+"), r"main\(1\)\+");
    assert_eq!(fd_pattern("é€"), "é\\€");
}

#[test]
fn image_mime_maps_rendered_image_extensions() {
    assert_eq!(image_mime("photo.png").as_deref(), Some("image/png"));
    assert_eq!(image_mime("photo.JPG").as_deref(), Some("image/jpeg"));
    assert_eq!(image_mime("photo.webp").as_deref(), Some("image/webp"));
    assert_eq!(image_mime("a/.png"), None);
    assert_eq!(image_mime("photo.txt"), None);
}

#[test]
fn name_matches_outrank_ancestor_directory_matches() {
    let dir_only = name_match_bonus("/home/me/projects/epochoxide/src/main.rs", 9);
    let own_name = name_match_bonus("/home/me/src/projects.rs", 13);
    assert_eq!(dir_only, 0);
    assert!(own_name > dir_only);
    assert_eq!(name_match_bonus("/home/me/notes/", 9), own_name);
}

#[test]
fn index_is_built_only_when_asked_for_or_needed() {
    assert!(wants_index(FileIndex::Always, true));
    assert!(!wants_index(FileIndex::Never, false));
    assert_eq!(wants_index(FileIndex::Auto, false), true);
    assert_eq!(wants_index(FileIndex::Auto, true), false);
    assert_eq!(FileIndex::default(), FileIndex::Auto);
}

#[test]
fn ignores_common_directory_names() {
    let provider = test_provider();
    assert!(provider.is_ignored("/home/me/project/target/debug"));
}

#[test]
fn does_not_ignore_names_that_merely_contain_a_pattern() {
    let provider = test_provider();
    assert!(!provider.is_ignored("/home/me/targeting-app/src/main.rs"));
}

#[test]
fn a_whole_path_covers_what_lies_below_it() {
    let ignored = vec!["/home/me/.cache".to_string()];
    assert!(is_ignored_path("/home/me/.cache/x", &ignored));
    assert!(is_ignored_path("/home//me/./.cache", &ignored));
    assert!(!is_ignored_path("/home/me/.cached", &ignored));
    assert!(!is_ignored_path("home/me/.cache", &ignored));
}

#[test]
fn files_are_ranked_by_score() {
    let mut provider = test_provider();
    provider.add_path("/home/me/projects/readme.md");
    provider.add_path("/home/me/src/projects.rs");
    let items = provider.query("proj", 20, false);
    assert_eq!(items.len(), 2);
    assert_eq!(items[0].text, "/home/me/src/projects.rs");
    assert_eq!(items[0].actions, vec!["open", "open_dir", "copy_path", "copy_file"]);
    // 1000 + 4 * 100 + (100 - 4) - 13 + 2000
    assert_eq!(items[0].score, 3483);
    assert_eq!(provider.query("PROJ", 1, true).len(), 1);
    assert_eq!(provider.query("pr", 20, false).len(), 2);
}

#[test]
fn removing_a_directory_removes_what_is_below_it() {
    let mut provider = test_provider();
    provider.add_path("/a/b");
    provider.add_path("/a/b/c");
    provider.add_path("/a/bc");
    provider.remove_path("/a/b");
    let items = provider.query("a/b", 20, true);
    assert_eq!(items.len(), 1);
    assert_eq!(items[0].text, "/a/bc");
}

#[test]
fn changes_are_told_once() {
    let mut provider = test_provider();
    provider.apply_change("/x", Some(vec!["/x/one".to_string(), "/x/target/two".to_string()]));
    assert_eq!(provider.query("x/", 20, false).len(), 1);
    assert!(provider.dirty);
    let told = provider.events();
    assert_eq!(told.len(), 1);
    assert_eq!(told[0].text_or_empty("kind"), "index_changed");
    assert!(provider.events().is_empty());
    provider.apply_change("/x", None);
    assert!(provider.query("x/", 20, false).is_empty());
    assert!(should_save(true, None));
    assert!(!should_save(true, Some(2999)));
    assert!(should_save(true, Some(3000)));
    assert!(!should_save(false, None));
}

#[test]
fn the_search_program_is_called_with_the_pattern_and_the_roots() {
    let roots = vec!["/home/me".to_string()];
    let ignored = vec!["/home/me/.cache".to_string(), "target".to_string()];
    assert_eq!(
        fd_arguments(&roots, &ignored, "a.b", 20),
        vec![
            "a\\.b",
            "/home/me",
            "--ignore-vcs",
            "--full-path",
            "--ignore-case",
            "--type",
            "file",
            "--type",
            "directory",
            "--exclude",
            "target",
            "--max-results",
            "5000",
        ]
    );
    assert_eq!(fd_arguments(&roots, &ignored, "a", 6000).last().unwrap(), "6000");
}

#[test]
fn what_the_search_program_prints_is_filtered_and_ranked() {
    let ignored = vec!["/home/me/.cache".to_string()];
    let printed = b"/home/me/notes/\n/home/me/.cache/notes\n/home/me/notes/a.txt\n";
    let items = fd_query(printed, &ignored, "notes", 20, false);
    let names: Vec<&str> = items.iter().map(|i| i.text.as_str()).collect();
    assert_eq!(names, vec!["/home/me/notes/", "/home/me/notes/a.txt"]);
    assert!(fd_query(printed, &ignored, "  ", 20, false).is_empty());
    assert_eq!(fd_query(printed, &ignored, "notes", 1, false).len(), 1);
}

#[test]
fn paths_are_activated() {
    let run = |r: Result<FileStep, String>| match r {
        Ok(FileStep::Run(c)) => c,
        other => panic!("{other:?}"),
    };
    assert_eq!(run(activate_path("/a/it's", "open", false)), "xdg-open '/a/it'\\''s'");
    assert_eq!(run(activate_path("/a/b.txt", "open_dir", false)), "xdg-open '/a'");
    assert_eq!(run(activate_path("/a/b", "open_dir", true)), "xdg-open '/a/b'");
    assert_eq!(activate_path("/", "open_dir", false).unwrap_err(), "file has no parent");
    assert!(matches!(activate_path("/a", "copy_path", false), Ok(FileStep::CopyText(t)) if t == "/a"));
    assert!(
        matches!(activate_path("/a.png", "copy_file", false), Ok(FileStep::CopyAs(_, m)) if m == "image/png")
    );
    assert!(matches!(activate_path("/a.txt", "copy_file", false), Ok(FileStep::CopyContent(_))));
    assert!(matches!(activate_path("/a", "reindex", false), Ok(FileStep::Nothing)));
    assert_eq!(
        activate_path("/a", "fly", false).unwrap_err(),
        "unsupported files action: fly"
    );
}

#[test]
fn the_lazy_provider_answers_once_there_is_an_index() {
    let mut lazy = LazyFilesProvider { index: None };
    assert!(lazy.query("a", 5, false).is_none());
    let mut provider = test_provider();
    provider.add_path("/abc");
    lazy.index = Some(provider);
    assert_eq!(lazy.query("abc", 5, false).unwrap().len(), 1);
    assert!(files_capability().actions.get("reindex").unwrap().async_action);
    assert_eq!(unique_trigrams("aaaa").len(), 1);
}
