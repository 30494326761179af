use epochoxide::capture::ocr::{
    announce_text, copies, finished_text, language_of, ocr, read_text, tesseract_arguments, text_plan,
    TextShot,
};
use epochoxide::capture::recording::{
    announce_recording, announces, record, recorder_arguments, recording, recording_directory,
    recording_filename, started, stop_recording, Recorder, Recording, RecordingSettings,
};
use epochoxide::capture::{Delay, Mode, Request, Screen, Settings, Step, Target};

fn wanted(mode: Mode) -> Request {
    Request {
        mode,
        output: None,
        select: false,
        cursor: false,
        delay: Delay { seconds: 0, nanos: 0 },
        copy: None,
        save: None,
        notify: None,
        directory: None,
        language: None,
    }
}

fn screen() -> Screen {
    Screen {
        grim: false,
        slurp: true,
        regions: None,
        compositor: None,
        focused: Some("eDP-1".into()),
    }
}

fn recorder() -> Recorder {
    Recorder {
        mode: Mode::Fullscreen,
        path: "/v/recording.mp4".into(),
        geometry: None,
        output: Some("eDP-1".into()),
    }
}

#[test]
fn a_second_recording_is_refused_with_the_age_of_the_first() {
    assert_eq!(
        record(&wanted(Mode::All), &screen(), true, Some(42)).unwrap_err(),
        "a recording has been running for 42 seconds"
    );
    assert_eq!(
        record(&wanted(Mode::All), &screen(), false, Some(42)).unwrap_err(),
        "wf-recorder is not installed"
    );
    let Ok(Step::Capture(target)) = record(&wanted(Mode::Fullscreen), &screen(), true, None) else {
        panic!("not started")
    };
    assert_eq!(target.output.as_deref(), Some("eDP-1"));
}

#[test]
fn a_recorder_that_died_is_noticed() {
    let mut held = Some(recorder());
    let running = recording(&mut held, false, 7, 100);
    assert!(running.recording && !running.cancelled);
    assert_eq!((running.seconds, running.bytes), (7, 100));
    assert_eq!(running.mode, "fullscreen");
    assert_eq!(running.path.as_deref(), Some("/v/recording.mp4"));
    let idle = recording(&mut held, true, 7, 100);
    assert!(held.is_none() && !idle.recording && idle.path.is_none() && idle.seconds == 0);
    let still = recording(&mut None, false, 0, 0);
    assert!(!still.recording);
}

#[test]
fn stopping_when_nothing_records_is_not_an_error() {
    let stopped = stop_recording(Some(recorder()), 42, 6_815_744, true);
    assert!(!stopped.recording && stopped.notified);
    assert_eq!((stopped.seconds, stopped.bytes), (42, 6_815_744));
    assert_eq!(stopped.output.as_deref(), Some("eDP-1"));
    let nothing = stop_recording(None, 3, 4, true);
    assert!(!nothing.recording && !nothing.notified && nothing.seconds == 0);
    assert!(Recording::cancelled(Mode::Region).cancelled);
}

#[test]
fn the_extension_picks_the_container() {
    let named = |line: &str| recording_filename(Some(&line.as_bytes().to_vec()), 7);
    assert_eq!(named("recording-1.mkv\n"), "recording-1.mkv");
    assert_eq!(named("clip\n"), "clip.mp4");
    assert_eq!(named("../clip.mkv\n"), "recording-7.mp4");
    assert_eq!(recording_filename(None, 7), "recording-7.mp4");
    let target = Target {
        geometry: Some("1,2 3x4".into()),
        output: None,
        window: None,
    };
    assert_eq!(
        recorder_arguments("/v/a.mp4", &target, 30),
        vec!["-g", "1,2 3x4", "-r", "30", "-f", "/v/a.mp4"]
    );
    assert_eq!(
        recorder_arguments("/v/a.mp4", &target, 0),
        vec!["-g", "1,2 3x4", "-f", "/v/a.mp4"]
    );
}

#[test]
fn the_end_of_a_recording_is_announced_as_configured() {
    let settings = RecordingSettings {
        directory: "/v".into(),
        filename: "f".into(),
        notify: true,
        framerate: 30,
    };
    assert!(announces(None, &settings) && !announces(Some(false), &settings));
    let words = announce_recording(true, "/v/a.mp4").unwrap();
    assert_eq!(words[words.len() - 2..], ["Recording saved", "a.mp4"]);
    assert!(announce_recording(false, "/v/a.mp4").is_err());
    let mut request = wanted(Mode::Window);
    assert_eq!(recording_directory(&request, &settings), "/v");
    request.directory = Some("/w".into());
    assert_eq!(recording_directory(&request, &settings), "/w");
    let target = Target { geometry: Some("1,2 3x4".into()), output: None, window: None };
    let (recorder, state) = started(&request, target, "/w/a.mp4".into());
    assert_eq!((recorder.path.as_str(), recorder.geometry.as_deref()), ("/w/a.mp4", Some("1,2 3x4")));
    assert!(state.recording && !state.cancelled && !state.notified);
    assert_eq!((state.mode.as_str(), state.path.as_deref()), ("window", Some("/w/a.mp4")));
    assert_eq!((state.seconds, state.bytes), (0, 0));
}

fn settings() -> Settings {
    Settings {
        directory: "/shots".into(),
        filename: "f".into(),
        copy: true,
        save: true,
        notify: true,
    }
}

#[test]
fn the_picture_of_a_text_is_kept_only_where_asked() {
    let mut request = wanted(Mode::Region);
    let plan = text_plan(&request, &settings(), "/scratch");
    assert!(!plan.save && plan.copy && plan.notify);
    assert!(copies(&plan, "x") && !copies(&plan, ""));
    assert_eq!(plan.directory, "/scratch");
    request.save = Some(true);
    assert_eq!(text_plan(&request, &settings(), "/scratch").directory, "/shots");
    assert_eq!(language_of(&request, "eng"), "eng");
    request.language = Some("eng+deu".into());
    assert_eq!(language_of(&request, "eng"), "eng+deu");
    assert_eq!(tesseract_arguments("/a.png", "eng"), vec!["/a.png", "stdout", "-l", "eng"]);
    assert_eq!(
        ocr(&request, &screen(), false).unwrap_err(),
        "tesseract is not installed"
    );
    assert_eq!(ocr(&request, &screen(), true).unwrap_err(), "grim is not installed");
}

#[test]
fn text_is_counted_and_copied() {
    let request = wanted(Mode::Region);
    let plan = text_plan(&request, &settings(), "/scratch");
    let target = || Target {
        geometry: Some("980,420 640x180".into()),
        output: None,
        window: None,
    };
    let text = read_text(true, b"the text that was on screen\n\n", b"", "").unwrap();
    let shot = finished_text(&request, &plan, target(), "/a.png", text, "eng", true);
    assert_eq!((shot.characters, shot.lines), (27, 1));
    assert!(shot.copied && shot.notified && !shot.saved && shot.path.is_none());
    assert_eq!(shot.geometry.as_deref(), Some("980,420 640x180"));
    let none = finished_text(&request, &plan, target(), "/a.png", String::new(), "eng", true);
    assert_eq!((none.characters, none.lines), (0, 0));
    assert!(!none.copied && !none.cancelled);
    let said = announce_text(true, "", false).unwrap();
    assert_eq!(said[said.len() - 2], "No text found");
    let said = announce_text(true, "abc", true).unwrap();
    assert_eq!(said[said.len() - 2..], ["Text copied", "3 characters"]);
    assert_eq!(
        read_text(false, b"", b"no data\n", "x").unwrap_err(),
        "tesseract failed: no data"
    );
    assert_eq!(
        read_text(false, b"", b"", "exit status: 1").unwrap_err(),
        "tesseract failed: exited with exit status: 1"
    );
    assert!(TextShot::cancelled(Mode::Region, "eng").cancelled);
}
