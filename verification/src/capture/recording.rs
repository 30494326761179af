//! Recording the screen.
//!
//! A recording outlives the request that started it, so the daemon holds the recorder, and only one
//! runs at a time. What runs and ends `wf-recorder` stands outside.

use vstd::prelude::*;
use vstd::string::*;

use crate::capture::{
    add_option, aim, expansion_of, flag_or, is_choice, is_first_step, not_installed, option_words,
    require, written, Mode, Request, Screen, Step, Target,
};
use crate::config::{expand_in, is_expanded_in, Config};
use crate::notify::{send, send_options};
use crate::number::{decimal, write_u64};
use crate::path::{extension_of, file_name, file_name_of, split_extension};
use crate::text::{
    begins_with, borrowed, contains, copy_option, has, lossy, maybe, owned, texts, trim,
};

verus! {

/// What is configured of recordings.
#[derive(Debug)]
pub struct RecordingSettings {
    pub directory: String,
    pub filename: String,
    pub notify: bool,
    /// Frames per second, or zero where the recorder times itself.
    pub framerate: u32,
}

/// What is configured of recordings.
pub fn configure_recording(config: &Config, home: Option<&str>) -> (r: RecordingSettings)
    ensures
        is_expanded_in(config.recording_dir@, maybe(home), r.directory@),
        r.filename@ == config.recording_filename@,
        r.notify == config.recording_notify,
        r.framerate == config.recording_framerate,
{
    RecordingSettings {
        directory: expand_in(config.recording_dir.as_str(), home),
        filename: config.recording_filename.as_str().to_owned(),
        notify: config.recording_notify,
        framerate: config.recording_framerate,
    }
}

/// A recording that runs.
#[derive(Debug)]
pub struct Recorder {
    pub mode: Mode,
    pub path: String,
    pub geometry: Option<String>,
    pub output: Option<String>,
}

/// What is reported of a recording, whether it starts, runs or has ended.
#[derive(Debug)]
pub struct Recording {
    pub recording: bool,
    pub cancelled: bool,
    pub mode: String,
    pub path: Option<String>,
    pub geometry: Option<String>,
    pub output: Option<String>,
    pub seconds: u64,
    pub bytes: u64,
    pub notified: bool,
}

impl Recording {
    /// Whether this is what is reported where nothing is recorded.
    pub open spec fn is_idle(self) -> bool {
        &&& !self.recording
        &&& !self.cancelled
        &&& self.mode@.len() == 0
        &&& self.path is None
        &&& self.geometry is None
        &&& self.output is None
        &&& self.seconds == 0
        &&& self.bytes == 0
        &&& !self.notified
    }

    /// Whether this is what is reported of a recorder.
    pub open spec fn is_of(
        self,
        recorder: Recorder,
        running: bool,
        seconds: u64,
        bytes: u64,
        notified: bool,
    ) -> bool {
        &&& self.recording == running
        &&& !self.cancelled
        &&& self.mode@ == recorder.mode.text()
        &&& owned(self.path) == Some(recorder.path@)
        &&& owned(self.geometry) == owned(recorder.geometry)
        &&& owned(self.output) == owned(recorder.output)
        &&& self.seconds == seconds
        &&& self.bytes == bytes
        &&& self.notified == notified
    }

    /// What is reported where nothing is recorded.
    pub fn idle() -> (r: Recording)
        ensures
            r.is_idle(),
    {
        Recording {
            recording: false,
            cancelled: false,
            mode: String::new(),
            path: None,
            geometry: None,
            output: None,
            seconds: 0,
            bytes: 0,
            notified: false,
        }
    }

    /// What is reported where the selection was cancelled.
    pub fn cancelled(mode: Mode) -> (r: Recording)
        ensures
            r.cancelled,
            r.mode@ == mode.text(),
            !r.recording,
            r.path is None,
            r.geometry is None,
            r.output is None,
            r.seconds == 0,
            r.bytes == 0,
            !r.notified,
    {
        Recording {
            recording: false,
            cancelled: true,
            mode: mode.as_str().to_owned(),
            path: None,
            geometry: None,
            output: None,
            seconds: 0,
            bytes: 0,
            notified: false,
        }
    }

    /// What is reported of a recorder.
    pub fn of(recorder: &Recorder, running: bool, seconds: u64, bytes: u64, notified: bool) -> (r:
        Recording)
        ensures
            r.is_of(*recorder, running, seconds, bytes, notified),
    {
        Recording {
            recording: running,
            cancelled: false,
            mode: recorder.mode.as_str().to_owned(),
            path: Some(recorder.path.as_str().to_owned()),
            geometry: copy_option(&recorder.geometry),
            output: copy_option(&recorder.output),
            seconds,
            bytes,
            notified,
        }
    }
}

/// Where a recording goes: the directory that is asked for, or else the configured one.
pub fn recording_directory(request: &Request, settings: &RecordingSettings) -> (r: String)
    ensures
        r@ == (match owned(request.directory) {
            Some(directory) => directory,
            None => settings.directory@,
        }),
{
    match borrowed(&request.directory) {
        Some(directory) => directory.to_owned(),
        None => settings.directory.as_str().to_owned(),
    }
}

/// A recording that was just started to the path, and what is reported of it.
pub fn started(request: &Request, target: Target, path: String) -> (r: (Recorder, Recording))
    ensures
        r.0 == (Recorder {
            mode: request.mode,
            path,
            geometry: target.geometry,
            output: target.output,
        }),
        r.1.is_of(r.0, true, 0, 0, false),
{
    let recorder = Recorder {
        mode: request.mode,
        path,
        geometry: target.geometry,
        output: target.output,
    };
    let state = Recording::of(&recorder, true, 0, 0, false);
    (recorder, state)
}

/// What is said where a recording already runs.
pub open spec fn already_recording(seconds: nat) -> Seq<char> {
    "a recording has been running for "@ + decimal(seconds) + " seconds"@
}

/// What starting a recording comes to.
pub open spec fn is_started(
    r: Result<Step, String>,
    request: Request,
    screen: Screen,
    installed: bool,
    running: Option<u64>,
) -> bool {
    if !installed {
        r matches Err(m) && m@ == not_installed("wf-recorder"@)
    } else {
        match running {
            Some(seconds) => r matches Err(m) && m@ == already_recording(seconds as nat),
            None => is_choice(r, request, screen),
        }
    }
}

/// Starts a recording: what is to be recorded, or how the user is asked for it. `running` is for how
/// many seconds another has been going, which is not replaced.
pub fn record(request: &Request, screen: &Screen, installed: bool, running: Option<u64>) -> (r:
    Result<Step, String>)
    ensures
        is_started(r, *request, *screen, installed, running),
{
    if let Err(message) = require(installed, "wf-recorder") {
        return Err(message);
    }
    if let Some(seconds) = running {
        let mut message = "a recording has been running for ".to_owned();
        message.append(write_u64(seconds).as_str());
        message.append(" seconds");
        return Err(message);
    }
    aim(request, screen)
}

/// What a recording is called: what `date` made of the template, unless that is nothing or would
/// lead out of the directory. The extension picks the container.
pub open spec fn recording_name(expanded: Seq<char>, now: nat) -> Seq<char> {
    let name = if expanded.len() == 0 || has(expanded, "/"@) {
        "recording-"@ + decimal(now)
    } else {
        expanded
    };
    let bare = match file_name_of(name) {
        Some(file) => extension_of(file) is None,
        None => true,
    };
    if bare {
        name + ".mp4"@
    } else {
        name
    }
}

/// What a recording is called. `dated` is what `date` wrote for the configured template, and `now`
/// the seconds since the epoch.
pub fn recording_filename(dated: Option<&Vec<u8>>, now: u64) -> (r: String)
    ensures
        r@ == recording_name(
            expansion_of(written(dated)),
            now as nat,
        ),
{
    let expanded = match dated {
        Some(bytes) => trim(lossy(bytes.as_slice()).as_str()),
        None => String::new(),
    };
    let mut name = if expanded.as_str().is_empty() || contains(expanded.as_str(), "/") {
        let mut name = "recording-".to_owned();
        name.append(write_u64(now).as_str());
        name
    } else {
        expanded
    };
    let bare = match file_name(name.as_str()) {
        Some(file) => split_extension(file.as_str()).1.is_none(),
        None => true,
    };
    if bare {
        name.append(".mp4");
    }
    name
}

/// The arguments with which the recorder is run. A constant framerate keeps the file one that
/// players decode; zero leaves the timing to the recorder.
pub open spec fn recorder_words(
    path: Seq<char>,
    geometry: Option<Seq<char>>,
    output: Option<Seq<char>>,
    framerate: nat,
) -> Seq<Seq<char>> {
    let rate = if framerate > 0 {
        Some(decimal(framerate))
    } else {
        None
    };
    option_words("-g"@, geometry) + option_words("-o"@, output)
        + option_words("-r"@, rate) + seq!["-f"@, path]
}

/// The arguments with which the recorder is run.
pub fn recorder_arguments(path: &str, target: &Target, framerate: u32) -> (r: Vec<String>)
    ensures
        texts(r@) == recorder_words(
            path@,
            owned(target.geometry),
            owned(target.output),
            framerate as nat,
        ),
{
    let mut out: Vec<String> = Vec::new();
    assert(texts(out@) =~= Seq::empty());
    add_option(&mut out, "-g", borrowed(&target.geometry));
    assert(texts(out@) =~= option_words("-g"@, owned(target.geometry)));
    add_option(&mut out, "-o", borrowed(&target.output));
    let rate = write_u64(framerate as u64);
    add_option(
        &mut out,
        "-r",
        if framerate > 0 {
            Some(rate.as_str())
        } else {
            None
        },
    );
    let ghost before = texts(out@);
    out.push("-f".to_owned());
    out.push(path.to_owned());
    assert(texts(out@) =~= before + seq!["-f"@, path@]);
    out
}

/// What is recorded right now. A recorder that `ended` on its own is given up: an indicator would
/// else count up against a process that is gone.
pub fn recording(held: &mut Option<Recorder>, ended: bool, seconds: u64, bytes: u64) -> (r:
    Recording)
    ensures
        *final(held) == (if ended {
            None
        } else {
            *old(held)
        }),
        match *final(held) {
            Some(recorder) => r.is_of(recorder, true, seconds, bytes, false),
            None => r.is_idle(),
        },
        r.recording <==> *old(held) is Some && !ended,
{
    if ended {
        *held = None;
    }
    match held.as_ref() {
        Some(recorder) => Recording::of(recorder, true, seconds, bytes, false),
        None => Recording::idle(),
    }
}

/// What is answered once the recorder was stopped. Where nothing was recorded that is no error: a
/// key that is pressed twice says so quietly.
pub fn stop_recording(held: Option<Recorder>, seconds: u64, bytes: u64, notified: bool) -> (r:
    Recording)
    ensures
        match held {
            Some(recorder) => r.is_of(recorder, false, seconds, bytes, notified),
            None => r.is_idle(),
        },
        !r.recording,
        held matches Some(recorder) ==> owned(r.path) == Some(recorder.path@),
{
    match held {
        Some(recorder) => Recording::of(&recorder, false, seconds, bytes, notified),
        None => Recording::idle(),
    }
}

/// Whether the end of a recording is announced: what was asked for, or else what is configured.
pub fn announces(asked: Option<bool>, settings: &RecordingSettings) -> (r: bool)
    ensures
        r == flag_or(asked, settings.notify),
{
    match asked {
        Some(flag) => flag,
        None => settings.notify,
    }
}

/// The arguments with which the end of a recording is announced.
pub fn announce_recording(notifier: bool, path: &str) -> (r: Result<Vec<String>, String>)
    ensures
        match r {
            Ok(arguments) => notifier && texts(arguments@) == send_options(
                "media-record"@,
                None,
                "epoch-recording"@,
            ) + seq![
                "Recording saved"@,
                match file_name_of(path@) {
                    Some(name) => name,
                    None => Seq::empty(),
                },
            ],
            Err(message) => !notifier && message@ == "notify-send is not installed"@,
        },
{
    let body = match file_name(path) {
        Some(name) => name,
        None => String::new(),
    };
    send(notifier, "Recording saved", body.as_str(), "media-record", None, "epoch-recording")
}

/// Only one recording runs at a time: while one does, no other is started.
pub proof fn only_one_recording_runs(
    r: Result<Step, String>,
    request: Request,
    screen: Screen,
    installed: bool,
    running: Option<u64>,
)
    requires
        is_started(r, request, screen, installed, running),
        running is Some,
    ensures
        r is Err,
{
}

/// A target reaches the program that records: a monitor that it names follows `-o`, a rectangle that
/// it has follows `-g`, and the recording goes to the path.
pub proof fn a_target_reaches_the_recorder(
    path: Seq<char>,
    target: Target,
    framerate: nat,
    words: Seq<Seq<char>>,
)
    requires
        words == recorder_words(path, owned(target.geometry), owned(target.output), framerate),
    ensures
        target.output is Some ==> exists|i: int|
            0 <= i < words.len() - 1 && #[trigger] words[i] == "-o"@ && words[i + 1]
                == target.output->0@,
        target.geometry is Some ==> exists|i: int|
            0 <= i < words.len() - 1 && #[trigger] words[i] == "-g"@ && words[i + 1]
                == target.geometry->0@,
        framerate > 0 ==> exists|i: int|
            0 <= i < words.len() - 1 && #[trigger] words[i] == "-r"@ && words[i + 1] == decimal(
                framerate,
            ),
        words.len() >= 2,
        words[words.len() - 2] == "-f"@,
        words.last() == path,
        words.len() == 2 + (if target.output is Some {
            2int
        } else {
            0
        }) + (if target.geometry is Some {
            2int
        } else {
            0
        }) + (if framerate > 0 {
            2int
        } else {
            0
        }),
{
    let a: int = if target.geometry is Some { 2 } else { 0 };
    let b: int = if target.output is Some { a + 2 } else { a };
    if target.geometry is Some {
        assert(words[0] == "-g"@ && words[1] == target.geometry->0@);
    }
    if target.output is Some {
        assert(words[a] == "-o"@ && words[a + 1] == target.output->0@);
    }
    if framerate > 0 {
        assert(words[b] == "-r"@ && words[b + 1] == decimal(framerate));
    }
}

/// What is recorded is chosen as what is photographed: where nothing stands against a recording, both
/// take the same first step.
pub proof fn a_recording_is_aimed_as_a_shot_is(
    r: Result<Step, String>,
    request: Request,
    screen: Screen,
)
    requires
        is_started(r, request, screen, true, None),
        screen.grim,
    ensures
        is_first_step(r, request, screen),
{
}

/// A recording is called as its template says. Where that says nothing, or names a directory, it is
/// called by its time, and where there is no extension it gets that of a film.
pub proof fn a_recording_is_called_as_the_template_says(
    expanded: Seq<char>,
    now: nat,
    extension: Seq<char>,
)
    ensures
        expanded.len() > 0 && !(has(expanded, "/"@)) && file_name_of(expanded) is Some
            && extension_of(file_name_of(expanded)->0) == Some(extension) ==> recording_name(
            expanded,
            now,
        ) == expanded,
        expanded.len() > 0 && !(has(expanded, "/"@)) && file_name_of(expanded) is Some
            && extension_of(file_name_of(expanded)->0) is None ==> recording_name(expanded, now)
            == expanded + ".mp4"@,
        expanded.len() == 0 || has(expanded, "/"@) ==> begins_with(
            recording_name(expanded, now),
            "recording-"@ + decimal(now),
        ),
{
    let name = "recording-"@ + decimal(now);
    if expanded.len() == 0 || has(expanded, "/"@) {
        assert(recording_name(expanded, now).subrange(0, name.len() as int) =~= name);
    }
}

/// What is told of a recording is what was started: its mode, its file and what it is aimed at, with the
/// time and the size so far. Where none runs nothing is told of one.
pub proof fn a_recording_tells_what_was_started(
    r: Recording,
    recorder: Recorder,
    running: bool,
    seconds: u64,
    bytes: u64,
    notified: bool,
)
    ensures
        r.is_of(recorder, running, seconds, bytes, notified) ==> r.recording == running
            && !r.cancelled && r.mode@ == recorder.mode.text() && r.path is Some && (r.path->0)@
            == recorder.path@ && owned(r.geometry) == owned(recorder.geometry) && owned(r.output)
            == owned(recorder.output) && r.seconds == seconds && r.bytes == bytes && r.notified
            == notified,
        r.is_idle() ==> !r.recording && r.path is None && r.seconds == 0 && r.bytes == 0
            && !r.notified,
{
}

} // verus!
