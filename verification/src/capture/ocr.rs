//! Reading text off the screen.
//!
//! The picture is a means to an end: it is captured as a screenshot is, `tesseract` reads it, and
//! the text goes to the clipboard. The picture is kept only where that is asked for.

use vstd::prelude::*;
use vstd::string::*;

use crate::capture::{
    flag_or, is_first_step, not_installed, plan, require, screenshot, Mode, Plan, Request, Screen,
    Settings, Step, Target,
};
use crate::notify::{send, send_options};
use crate::number::{decimal, write_u64};
use crate::text::{chars_of, lines, lines_of, lossy, lossy_of, owned, texts, trim, trim_of};

verus! {

/// The text that was read off the screen, and what was done with it.
#[derive(Debug)]
pub struct TextShot {
    pub cancelled: bool,
    pub mode: String,
    pub text: String,
    pub characters: u64,
    pub lines: u64,
    pub copied: bool,
    pub notified: bool,
    pub language: String,
    pub geometry: Option<String>,
    /// Where the picture is, where it was kept.
    pub path: Option<String>,
    pub saved: bool,
}

impl TextShot {
    /// What is answered where the selection was cancelled.
    pub fn cancelled(mode: Mode, language: &str) -> (r: TextShot)
        ensures
            r.cancelled,
            r.mode@ == mode.text(),
            r.text@.len() == 0,
            r.characters == 0,
            r.lines == 0,
            !r.copied,
            !r.notified,
            r.language@ == language@,
            r.geometry is None,
            r.path is None,
            !r.saved,
    {
        TextShot {
            cancelled: true,
            mode: mode.as_str().to_owned(),
            text: String::new(),
            characters: 0,
            lines: 0,
            copied: false,
            notified: false,
            language: language.to_owned(),
            geometry: None,
            path: None,
            saved: false,
        }
    }
}

/// Starts reading text: what is to be captured, or how the user is asked for it.
pub fn ocr(request: &Request, screen: &Screen, tesseract: bool) -> (r: Result<Step, String>)
    ensures
        if !tesseract {
            r matches Err(m) && m@ == not_installed("tesseract"@)
        } else {
            is_first_step(r, *request, *screen)
        },
{
    if let Err(message) = require(tesseract, "tesseract") {
        return Err(message);
    }
    screenshot(request, screen)
}

/// What is done with the text, and where the picture goes.
pub open spec fn is_text_plan(
    r: Plan,
    request: Request,
    settings: Settings,
    scratch: Seq<char>,
) -> bool {
    &&& r.copy == flag_or(request.copy, settings.copy)
    &&& r.save == flag_or(request.save, false)
    &&& r.notify == flag_or(request.notify, settings.notify)
    &&& r.directory@ == (if !r.save {
        scratch
    } else {
        match request.directory {
            Some(directory) => directory@,
            None => settings.directory@,
        }
    })
}

/// What is done with the text, and where the picture goes. It is kept only where that is asked for:
/// a directory that fills up with pictures of text is of no use.
pub fn text_plan(request: &Request, settings: &Settings, scratch: &str) -> (r: Plan)
    ensures
        is_text_plan(r, *request, *settings, scratch@),
{
    let unless_asked = Settings {
        directory: settings.directory.as_str().to_owned(),
        filename: settings.filename.as_str().to_owned(),
        copy: settings.copy,
        save: false,
        notify: settings.notify,
    };
    plan(request, &unless_asked, scratch)
}

/// The language in which text is read: what was asked for, or else what is configured.
pub fn language_of(request: &Request, configured: &str) -> (r: String)
    ensures
        r@ == (match request.language {
            Some(language) => language@,
            None => configured@,
        }),
{
    match &request.language {
        Some(language) => language.as_str().to_owned(),
        None => configured.to_owned(),
    }
}

/// The arguments with which `tesseract` reads a picture.
pub fn tesseract_arguments(image: &str, language: &str) -> (r: Vec<String>)
    ensures
        texts(r@) == seq![image@, "stdout"@, "-l"@, language@],
{
    let mut out: Vec<String> = Vec::new();
    out.push(image.to_owned());
    out.push("stdout".to_owned());
    out.push("-l".to_owned());
    out.push(language.to_owned());
    assert(texts(out@) =~= seq![image@, "stdout"@, "-l"@, language@]);
    out
}

/// What `tesseract` read: what it wrote, without the white space around it.
pub fn read_text(success: bool, stdout: &[u8], stderr: &[u8], status: &str) -> (r: Result<
    String,
    String,
>)
    ensures
        ({
            let detail = trim_of(lossy_of(stderr@));
            match r {
                Ok(text) => success && text@ == trim_of(lossy_of(stdout@)),
                Err(message) => !success && message@ == "tesseract failed: "@ + (if detail.len()
                    > 0 {
                    detail
                } else {
                    "exited with "@ + status@
                }),
            }
        }),
{
    if success {
        return Ok(trim(lossy(stdout).as_str()));
    }
    let mut detail = trim(lossy(stderr).as_str());
    if detail.as_str().is_empty() {
        detail = "exited with ".to_owned();
        detail.append(status);
    }
    let mut message = "tesseract failed: ".to_owned();
    message.append(detail.as_str());
    Err(message)
}

/// Whether this is what is answered of a text that was read.
pub open spec fn is_read(
    r: TextShot,
    request: Request,
    plan: Plan,
    target: Target,
    path: Seq<char>,
    text: Seq<char>,
    language: Seq<char>,
    announced: bool,
) -> bool {
    &&& !r.cancelled
    &&& r.mode@ == request.mode.text()
    &&& r.text@ == text
    &&& r.characters == text.len()
    &&& r.lines == lines_of(text).len()
    &&& r.copied == (plan.copy && text.len() > 0)
    &&& r.notified == (plan.notify && announced)
    &&& r.language@ == language
    &&& r.geometry == target.geometry
    &&& owned(r.path) == (if plan.save {
        Some(path)
    } else {
        None
    })
    &&& r.saved == plan.save
}

/// Whether a text that was read is copied: nothing is where nothing was read.
pub fn copies(plan: &Plan, text: &str) -> (r: bool)
    ensures
        r == (plan.copy && text@.len() > 0),
{
    plan.copy && !text.is_empty()
}

/// What is answered of a text that was read. That nothing legible was there is a result and no
/// failure, and nothing is copied then.
pub fn finished_text(
    request: &Request,
    plan: &Plan,
    target: Target,
    path: &str,
    text: String,
    language: &str,
    announced: bool,
) -> (r: TextShot)
    ensures
        is_read(r, *request, *plan, target, path@, text@, language@, announced),
{
    let chars = chars_of(text.as_str());
    let all = lines(text.as_str());
    assert(texts(all@).len() == all@.len());
    let characters: u64 = chars.len() as u64;
    TextShot {
        cancelled: false,
        mode: request.mode.as_str().to_owned(),
        characters,
        lines: all.len() as u64,
        copied: copies(plan, text.as_str()),
        notified: plan.notify && announced,
        language: language.to_owned(),
        geometry: target.geometry,
        path: if plan.save {
            Some(path.to_owned())
        } else {
            None
        },
        saved: plan.save,
        text,
    }
}

/// What the notification says of a text that was read.
pub open spec fn announced_text(characters: nat, copied: bool) -> (Seq<char>, Seq<char>) {
    if characters == 0 {
        ("No text found"@, ""@)
    } else if copied {
        ("Text copied"@, decimal(characters) + " characters"@)
    } else {
        ("Text read"@, decimal(characters) + " characters"@)
    }
}

/// The arguments with which the session is told of a text. Where there was none, no copy is claimed.
pub fn announce_text(notifier: bool, text: &str, copied: bool) -> (r: Result<Vec<String>, String>)
    ensures
        ({
            let (summary, body) = announced_text(text@.len(), copied);
            match r {
                Ok(arguments) => notifier && texts(arguments@) == send_options(
                    "edit-copy"@,
                    None,
                    "epoch-screenshot"@,
                ) + seq![summary, body],
                Err(message) => !notifier && message@ == "notify-send is not installed"@,
            }
        }),
{
    let characters: u64 = chars_of(text).len() as u64;
    if characters == 0 {
        return send(notifier, "No text found", "", "edit-copy", None, "epoch-screenshot");
    }
    let mut body = write_u64(characters);
    body.append(" characters");
    let summary = if copied {
        "Text copied"
    } else {
        "Text read"
    };
    send(notifier, summary, body.as_str(), "edit-copy", None, "epoch-screenshot")
}

/// Nothing is said to be copied where nothing was read.
pub proof fn no_text_is_no_copy(
    r: TextShot,
    request: Request,
    plan: Plan,
    target: Target,
    path: Seq<char>,
    language: Seq<char>,
    announced: bool,
)
    requires
        is_read(r, request, plan, target, path, Seq::empty(), language, announced),
    ensures
        !r.copied,
        r.characters == 0,
        r.lines == 0,
{
}

/// What is answered is the text as it was read, with as many characters as it has, and it is copied
/// where copying is asked for and something was read. The picture is named only where it is kept.
pub proof fn what_was_read_is_answered(
    r: TextShot,
    request: Request,
    plan: Plan,
    target: Target,
    path: Seq<char>,
    text: Seq<char>,
    language: Seq<char>,
    announced: bool,
)
    requires
        is_read(r, request, plan, target, path, text, language, announced),
    ensures
        r.text@ == text,
        r.characters == text.len(),
        text.len() > 0 ==> (r.copied <==> plan.copy),
        r.path is Some <==> plan.save,
        plan.save ==> r.path->0@ == path,
        r.saved <==> plan.save,
        r.language@ == language,
        !r.cancelled,
{
}

/// A picture of text is kept only where keeping it is asked for, whatever is configured.
pub proof fn a_picture_of_text_is_kept_only_if_asked(
    plan: Plan,
    request: Request,
    settings: Settings,
    scratch: Seq<char>,
)
    requires
        is_text_plan(plan, request, settings, scratch),
    ensures
        plan.save <==> request.save == Some(true),
        !plan.save ==> plan.directory@ == scratch,
        request.copy is Some ==> plan.copy == request.copy->0,
        request.copy is None ==> plan.copy == settings.copy,
        request.notify is Some ==> plan.notify == request.notify->0,
        request.notify is None ==> plan.notify == settings.notify,
{
}

/// What is told of a text is how long it is, and that it was copied only where it was.
pub proof fn a_text_is_announced_as_it_was_read(characters: nat, copied: bool)
    ensures
        characters > 0 ==> announced_text(characters, copied).1 == decimal(characters)
            + " characters"@,
        characters > 0 && copied ==> announced_text(characters, copied).0 == "Text copied"@,
        characters > 0 && !copied ==> announced_text(characters, copied).0 == "Text read"@,
        characters == 0 ==> announced_text(characters, copied) == ("No text found"@, ""@),
{
}

} // verus!
