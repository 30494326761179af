use epochoxide::capture::{
    announce, available, copy_arguments, copy_failure, filename, finished, grim, grim_failure,
    image_format, parse_geometry, plan, png_size, prune, resume, scratch_dir, screenshot,
    selection, status, unique, Delay, Mode, Paths, Request, Screen, Settings, Shot, Step, Target,
};
use epochoxide::capture::configure;
use epochoxide::capture::recording::configure_recording;
use epochoxide::compositor::WindowRegion;
use epochoxide::config::{Config, Surroundings};

#[test]
fn modes_take_the_names_people_actually_type() {
    assert_eq!(Mode::parse("region").unwrap(), Mode::Region);
    assert_eq!(Mode::parse("Window").unwrap(), Mode::Window);
    assert_eq!(Mode::parse("monitor").unwrap(), Mode::Fullscreen);
    assert_eq!(Mode::parse(" all ").unwrap(), Mode::All);
    assert!(Mode::parse("panorama").is_err());
    assert_eq!(
        Mode::parse("Panorama").unwrap_err(),
        "unknown screenshot mode \"panorama\" (region, window, fullscreen, all)"
    );
    assert_eq!(Mode::default(), Mode::Region);
}

#[test]
fn a_geometry_round_trips_through_slurps_spelling() {
    let region = parse_geometry("1920,40 1280x800").expect("parsed");
    assert_eq!((region.x, region.y), (1920, 40));
    assert_eq!((region.width, region.height), (1280, 800));
    assert_eq!(region.geometry(), "1920,40 1280x800");
}

#[test]
fn a_negative_origin_is_a_real_position_not_an_error() {
    let region = parse_geometry("-2060,46 2102x1388").expect("parsed");
    assert_eq!((region.x, region.y), (-2060, 46));
}

#[test]
fn malformed_geometry_is_refused() {
    assert!(parse_geometry("").is_err());
    assert!(parse_geometry("1920,40").is_err());
    assert!(parse_geometry("1920 1280x800").is_err());
    assert_eq!(
        parse_geometry("1,2 3xa").unwrap_err(),
        "could not read the selected geometry \"1,2 3xa\""
    );
}

/// The name for what `date` writes for a template, a line.
fn named(line: &str) -> String {
    filename(Some(&format!("{line}\n").into_bytes()), 7)
}

#[test]
fn a_filename_template_always_produces_an_image_name() {
    assert_eq!(named("shot.png"), "shot.png");
    assert_eq!(named("shot.jpg"), "shot.jpg");
    assert_eq!(named("shot"), "shot.png");
    assert_eq!(named(""), "screenshot-7.png");
    assert_eq!(filename(None, 7), "screenshot-7.png");
}

#[test]
fn a_template_that_would_escape_the_directory_falls_back() {
    let name = named("../../2026/shot.png");
    assert!(!name.contains('/'), "{name} still has a path separator");
    assert!(name.ends_with(".png"));
}

#[test]
fn names_do_not_collide_with_what_is_already_there() {
    let first = unique("/d", "shot.png", &vec![], 7);
    assert_eq!(first, "/d/shot.png");
    let second = unique("/d", "shot.png", &vec![first], 7);
    assert_eq!(second, "/d/shot-1.png");
    let mut taken = vec!["/d/shot".to_string()];
    for index in 1..1000 {
        taken.push(format!("/d/shot-{index}"));
    }
    assert_eq!(unique("/d", "shot", &taken, 12345), "/d/shot-12345");
    taken.remove(500);
    assert_eq!(unique("/d", "shot", &taken, 12345), "/d/shot-500");
}

#[test]
fn pruning_keeps_the_newest_and_leaves_a_small_directory_alone() {
    let files = || -> Vec<(i128, String)> { (0..5).map(|i| (i, format!("{i}.png"))).collect() };
    assert_eq!(prune(files(), 10).len(), 0);
    let gone: Vec<String> = prune(files(), 2).into_iter().map(|(_, path)| path).collect();
    assert_eq!(gone.len(), 3);
    assert!(!gone.contains(&"4.png".to_string()), "newest was pruned: {gone:?}");
    assert_eq!(gone, vec!["2.png", "1.png", "0.png"]);
}

fn png_header(width: u32, height: u32) -> Vec<u8> {
    let mut header = Vec::from(b"\x89PNG\r\n\x1a\n");
    header.extend_from_slice(&13u32.to_be_bytes());
    header.extend_from_slice(b"IHDR");
    header.extend_from_slice(&width.to_be_bytes());
    header.extend_from_slice(&height.to_be_bytes());
    header
}

#[test]
fn png_dimensions_come_from_the_header() {
    assert_eq!(png_size(&png_header(2102, 1388)), Some((2102, 1388)));
    assert_eq!(png_size(&png_header(u32::MAX, 0x0102_0304)), Some((u32::MAX, 0x0102_0304)));
    assert_eq!(png_size(&png_header(1, 1)[..23]), None);
}

#[test]
fn a_file_that_is_not_a_png_reports_no_size() {
    assert_eq!(png_size(b"not an image at all, but long enough to read"), None);
}

#[test]
fn the_image_format_follows_the_extension() {
    assert_eq!(image_format("a.png"), Some("png"));
    assert_eq!(image_format("a.JPEG"), Some("jpeg"));
    assert_eq!(image_format("a.txt"), None);
    assert_eq!(image_format("/x.png/a"), None);
    assert_eq!(image_format(".png"), None);
    assert_eq!(image_format("b.ppm"), Some("ppm"));
}

fn region(title: &str, x: i64, focused: bool) -> WindowRegion {
    WindowRegion {
        id: "1".into(),
        app_id: "a".into(),
        title: title.into(),
        monitor: "m".into(),
        focused,
        x,
        y: 2,
        width: 3,
        height: 4,
    }
}

fn wanted(mode: Mode, select: bool) -> Request {
    Request {
        mode,
        output: None,
        select,
        cursor: false,
        delay: Delay { seconds: 0, nanos: 0 },
        copy: None,
        save: None,
        notify: None,
        directory: None,
        language: None,
    }
}

fn screen(regions: Option<Vec<WindowRegion>>) -> Screen {
    Screen {
        grim: true,
        slurp: true,
        regions,
        compositor: Some("niri".into()),
        focused: Some("eDP-1".into()),
    }
}

fn captured(step: Step) -> Target {
    match step {
        Step::Capture(target) => target,
        Step::Select { .. } => panic!("asked"),
    }
}

#[test]
fn each_mode_has_its_first_step() {
    let Step::Select { arguments, boxes } =
        screenshot(&wanted(Mode::Region, false), &screen(None)).unwrap()
    else {
        panic!("not asked")
    };
    assert!(arguments.is_empty() && boxes.is_none());

    let target = captured(screenshot(&wanted(Mode::Fullscreen, false), &screen(None)).unwrap());
    assert_eq!(target.output.as_deref(), Some("eDP-1"));
    let mut named = wanted(Mode::Fullscreen, false);
    named.output = Some("DP-2".into());
    let target = captured(screenshot(&named, &screen(None)).unwrap());
    assert_eq!(target.output.as_deref(), Some("DP-2"));
    let target = captured(screenshot(&wanted(Mode::All, false), &screen(None)).unwrap());
    assert!(target.output.is_none() && target.geometry.is_none());

    let two = || Some(vec![region("a", 1, false), region("b", 5, true)]);
    let target = captured(screenshot(&wanted(Mode::Window, false), &screen(two())).unwrap());
    assert_eq!(target.window.as_deref(), Some("b"));
    assert_eq!(target.geometry.as_deref(), Some("5,2 3x4"));
    let one = Some(vec![region("a", 1, false)]);
    let target = captured(screenshot(&wanted(Mode::Window, false), &screen(one)).unwrap());
    assert_eq!(target.window.as_deref(), Some("a"));
    let Step::Select { arguments, boxes } =
        screenshot(&wanted(Mode::Window, true), &screen(two())).unwrap()
    else {
        panic!("not asked")
    };
    assert_eq!(arguments, vec!["-r"]);
    assert_eq!(boxes.as_deref(), Some("1,2 3x4\n5,2 3x4"));
}

#[test]
fn a_capture_that_cannot_be_made_says_why() {
    let mut bare = screen(None);
    assert_eq!(
        screenshot(&wanted(Mode::Window, false), &bare).unwrap_err(),
        "niri does not report where its windows are on screen, so a window cannot be captured by itself -- use region instead"
    );
    assert_eq!(
        screenshot(&wanted(Mode::Window, false), &screen(Some(vec![]))).unwrap_err(),
        "no windows are on screen to capture"
    );
    bare.slurp = false;
    assert_eq!(
        screenshot(&wanted(Mode::Region, false), &bare).unwrap_err(),
        "slurp is not installed"
    );
    bare.grim = false;
    assert_eq!(
        screenshot(&wanted(Mode::Region, false), &bare).unwrap_err(),
        "grim is not installed"
    );
    assert_eq!(available(false, true).unwrap_err(), "grim is not installed");
    assert_eq!(
        available(true, false).unwrap_err(),
        "no Wayland display in this session"
    );
    assert!(available(true, true).is_ok());
}

#[test]
fn escape_is_a_result_and_not_a_failure() {
    assert_eq!(selection(false, b"", b"selection cancelled\n"), Ok(None));
    assert_eq!(selection(false, b"", b""), Ok(None));
    assert_eq!(selection(true, b" \n", b"x"), Ok(None));
    assert_eq!(
        selection(false, b"", b"boom\n").unwrap_err(),
        "slurp failed: boom"
    );
    assert_eq!(selection(false, b"1,2 3x4\n", b""), Ok(Some("1,2 3x4".into())));
    assert!(resume(&wanted(Mode::Region, false), &vec![], None).is_none());
    let shot = Shot::cancelled(Mode::Region);
    assert!(shot.cancelled && shot.path.is_none());
    assert_eq!(shot.mode, "region");
}

#[test]
fn a_chosen_rectangle_is_a_window_where_it_matches_one() {
    let regions = vec![region("a", 1, false), region("b", 5, true)];
    let request = wanted(Mode::Window, true);
    let target = resume(&request, &regions, Some("5,2 3x4".into())).unwrap();
    assert_eq!(target.window.as_deref(), Some("b"));
    let target = resume(&request, &regions, Some("7,7 +8x8".into())).unwrap();
    assert_eq!(target.window.as_deref(), Some(""));
    assert_eq!(target.geometry.as_deref(), Some("7,7 8x8"));
    assert!(resume(&request, &regions, Some("junk".into())).is_none());
    let target = resume(&wanted(Mode::Region, false), &regions, Some("5,2 3x4".into())).unwrap();
    assert!(target.window.is_none());
    assert_eq!(target.geometry.as_deref(), Some("5,2 3x4"));
}

#[test]
fn what_is_asked_for_overrides_what_is_configured() {
    let settings = Settings {
        directory: "/shots".into(),
        filename: "f".into(),
        copy: true,
        save: true,
        notify: false,
    };
    let mut request = wanted(Mode::All, false);
    let usual = plan(&request, &settings, "/scratch");
    assert!(usual.copy && usual.save && !usual.notify);
    assert_eq!(usual.directory, "/shots");
    request.copy = Some(false);
    request.notify = Some(true);
    request.directory = Some("/mine".into());
    let asked = plan(&request, &settings, "/scratch");
    assert!(!asked.copy && asked.save && asked.notify);
    assert_eq!(asked.directory, "/mine");
    request.save = Some(false);
    assert_eq!(plan(&request, &settings, "/scratch").directory, "/scratch");
    assert_eq!(scratch_dir(Some("/c"), "/tmp"), "/c/epochoxide/screenshots");
    assert_eq!(scratch_dir(None, "/tmp"), "/tmp/epochoxide/screenshots");
    let target = Target {
        geometry: Some("1,2 3x4".into()),
        output: None,
        window: None,
    };
    assert_eq!(
        grim("/d/a.jpg", &target, true),
        vec!["-c", "-g", "1,2 3x4", "-t", "jpeg", "/d/a.jpg"]
    );
    let shot = finished(&request, &asked, target, "/d/a.png", false, None, 9);
    assert!(!shot.cancelled && shot.saved && !shot.copied && !shot.notified);
    assert_eq!((shot.width, shot.height, shot.bytes), (0, 0, 9));
    assert_eq!(shot.mode, "all");
    assert_eq!(shot.path.as_deref(), Some("/d/a.png"));
}

#[test]
fn a_shot_is_announced_with_its_picture() {
    let words = announce(true, "/d/a.png", true, false, 10, 20).unwrap();
    assert_eq!(
        words,
        vec![
            "--app-name=EpochShell",
            "--icon=camera-photo",
            "--hint=string:image-path:/d/a.png",
            "--hint=string:x-canonical-private-synchronous:epoch-screenshot",
            "Screenshot saved",
            "a.png · 10×20",
        ]
    );
    assert_eq!(announce(true, "/d/a.png", false, true, 10, 20).unwrap()[5], "10×20");
    assert_eq!(announce(true, "/d/a.png", true, true, 0, 20).unwrap()[5], "a.png");
    assert_eq!(
        announce(false, "/d/a.png", true, true, 0, 20).unwrap_err(),
        "notify-send is not installed"
    );
    assert_eq!(copy_arguments("/d/a.jpg"), vec!["--type", "image/jpeg"]);
    assert_eq!(copy_arguments("/d/a"), vec!["--type", "image/png"]);
    assert_eq!(grim_failure(b" \n", "exit status: 1"), "grim failed: exited with exit status: 1");
    assert_eq!(grim_failure(b"no output\n", "x"), "grim failed: no output");
    assert_eq!(copy_failure("x"), "copying the screenshot to the clipboard: x");
}

#[test]
fn the_capture_status_names_every_tool() {
    let settings = Settings {
        directory: "/shots".into(),
        filename: "f".into(),
        copy: true,
        save: false,
        notify: false,
    };
    let paths = Paths {
        grim: None,
        slurp: Some("/bin/slurp".into()),
        wl_copy: None,
        notify_send: None,
    };
    let status = status(&settings, paths, false, None);
    let tools: Vec<(&str, bool, Option<&str>)> = status
        .tools
        .iter()
        .map(|tool| (tool.name.as_str(), tool.required, tool.path.as_deref()))
        .collect();
    assert_eq!(
        tools,
        vec![
            ("grim", true, None),
            ("slurp", false, Some("/bin/slurp")),
            ("wl-copy", false, None),
            ("notify-send", false, None),
        ]
    );
    assert!(!status.window_capture && status.copy && !status.save);
}

#[test]
fn a_configured_directory_has_its_tilde_expanded() {
    let at = Surroundings {
        home: None,
        tilde: None,
        cache_dir: None,
        temp_dir: "/tmp".to_string(),
        config_dir: None,
        editor: None,
        runtime_dir: None,
    };
    let config = Config {
        screenshot_dir: "~/shots".to_string(),
        recording_dir: "~".to_string(),
        ..Config::defaults(&at)
    };
    let home = Some("/home/me");
    assert_eq!(configure(&config, home).directory, "/home/me/shots");
    assert_eq!(configure(&config, None).directory, "~/shots");
    assert_eq!(configure_recording(&config, home).directory, "/home/me");
    assert_eq!(configure_recording(&config, None).directory, "~");
}
