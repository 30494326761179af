use epochoxide::providers::clipboard::{
    clipboard_score, copy_clip, editor_command, image_extension, image_file, image_id, image_type,
    stable_hash, Clip, ClipKind, ClipStep, ClipboardProvider,
};

fn provider() -> ClipboardProvider {
    ClipboardProvider { items: Vec::new(), max_items: 3, ocr: false }
}

fn contents(p: &ClipboardProvider) -> Vec<&str> {
    p.items.iter().map(|c| c.content.as_str()).collect()
}

#[test]
fn image_mime_maps_to_extension() {
    assert_eq!(image_extension("image/jpeg"), "jpg");
    assert_eq!(image_extension("image/png"), "png");
}

#[test]
fn hash_is_stable() {
    assert_eq!(stable_hash(b"abc"), stable_hash(b"abc"));
    assert_eq!(stable_hash(b""), 1469598103934665603);
    let mut expected = 1469598103934665603u64;
    for b in b"abc" {
        expected ^= *b as u64;
        expected = expected.wrapping_mul(1099511628211);
    }
    assert_eq!(stable_hash(b"abc"), expected);
}

#[test]
fn clipboard_score_prefers_recency_over_fuzzy_score() {
    assert!(clipboard_score(2, 0, false, 1) > clipboard_score(2, 1, false, 10_000));
}

#[test]
fn clipboard_score_keeps_pinned_above_unpinned() {
    assert!(clipboard_score(2, 1, true, 1) > clipboard_score(2, 0, false, 10_000));
    assert_eq!(clipboard_score(2, 1, true, 1), 50_101);
    assert_eq!(clipboard_score(2, 0, false, 10_000), 299);
}

#[test]
fn texts_are_taken_up_once_and_move_to_the_front() {
    let mut p = provider();
    p.note_text("one".to_string());
    p.note_text("two".to_string());
    p.note_text("  \n".to_string());
    assert_eq!(contents(&p), vec!["two", "one"]);
    p.note_text("one".to_string());
    assert_eq!(contents(&p), vec!["one", "two"]);
    p.note_text("one".to_string());
    p.note_text("three".to_string());
    p.note_text("four".to_string());
    assert_eq!(contents(&p), vec!["four", "three", "one"]);
}

#[test]
fn pinned_items_stay_in_front() {
    let mut p = provider();
    p.note_text("one".to_string());
    let id = p.items[0].id.clone();
    assert!(id.starts_with("text-"));
    assert!(matches!(p.activate(&id, "pin", ""), Ok(ClipStep::Save)));
    p.note_text("two".to_string());
    p.note_text("three".to_string());
    p.note_text("four".to_string());
    assert_eq!(contents(&p), vec!["one", "four", "three"]);
    let items = p.query("", 10, false);
    assert_eq!(items[0].text, "one");
    assert_eq!(items[0].actions, vec!["copy", "edit", "remove", "unpin"]);
    assert_eq!(items[0].state, vec!["pinned", "text"]);
    p.activate(&id, "unpin", "").unwrap();
    assert!(p.items.iter().all(|c| !c.pinned));
    p.activate(&id, "remove", "").unwrap();
    assert_eq!(contents(&p), vec!["four", "three"]);
    p.activate("", "remove_all", "").unwrap();
    assert!(p.items.is_empty());
    assert_eq!(
        p.activate("", "fly", "").unwrap_err(),
        "unsupported clipboard action: fly"
    );
}

#[test]
fn images_are_described() {
    let mut p = provider();
    p.ocr = true;
    let id = image_id(b"data");
    assert!(!p.is_latest(&id));
    let file = image_file("/cache", &id, "image/gif");
    assert_eq!(file, format!("/cache/{id}.gif"));
    p.note_image(id.clone(), "image/gif", file.clone(), "hello\nthere".to_string());
    assert!(p.is_latest(&id));
    let items = p.query("there", 10, true);
    assert_eq!(items.len(), 1);
    assert_eq!(items[0].text, "hello");
    assert_eq!(items[0].subtext, "hello\nthere");
    assert_eq!(items[0].preview, file);
    assert_eq!(items[0].actions.last().unwrap(), "ocr");
    assert!(matches!(p.activate(&id, "ocr", ""), Ok(ClipStep::ReadImage(path)) if path == file));
    p.set_ocr(&id, String::new());
    assert_eq!(p.query("", 10, false)[0].subtext, "Image");
    assert!(
        matches!(p.activate(&id, "copy", ""), Ok(ClipStep::Run(c)) if c == format!("wl-copy --type 'image/gif' < '{file}'"))
    );
    assert!(
        matches!(p.activate(&id, "edit", ""), Ok(ClipStep::Run(c)) if c == format!("xdg-open '{file}'"))
    );
    assert_eq!(editor_command("gimp", "/a'b"), "gimp '/a'\\''b'");
    assert_eq!(
        image_type("text/plain\nimage/png\nimage/gif\n").as_deref(),
        Some("image/png")
    );
    assert!(image_type("text/plain").is_none());
}

#[test]
fn an_image_without_a_file_cannot_be_copied() {
    let clip = Clip {
        id: "image-1".to_string(),
        kind: ClipKind::Image,
        content: String::new(),
        image_path: None,
        mime: None,
        ocr: String::new(),
        pinned: false,
    };
    assert_eq!(copy_clip(&clip).unwrap_err(), "image clip has no file");
}

#[test]
fn an_edited_text_gets_the_id_of_its_content() {
    let mut p = provider();
    p.note_text("one".to_string());
    let id = p.items[0].id.clone();
    match p.activate(&id, "edit", "") {
        Ok(ClipStep::EditText(name, text)) => {
            assert_eq!(name, format!("epochoxide-{id}.txt"));
            assert_eq!(text, "one");
        }
        other => panic!("{other:?}"),
    }
    p.edited(&id, "two".to_string());
    assert_eq!(p.items[0].content, "two");
    assert_ne!(p.items[0].id, id);
    let capability = p.capability();
    assert!(capability.actions.get("remove_all").unwrap().confirmation);
    assert!(capability.actions.get("edit").unwrap().async_action);
}

#[test]
fn what_is_copied_again_is_listed_once() {
    let mut provider = epochoxide::providers::clipboard::ClipboardProvider {
        items: vec![],
        max_items: 3,
        ocr: false,
    };
    for text in ["one", "two", "one", "three", "four"] {
        provider.note_text(text.to_string());
    }
    let contents: Vec<&str> = provider.items.iter().map(|clip| clip.content.as_str()).collect();
    assert_eq!(contents, vec!["four", "three", "one"]);
}
