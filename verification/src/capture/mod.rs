//! Screen capture.
//!
//! Screenshots are taken with `grim`, regions are chosen with `slurp`, the result is put on the
//! clipboard with `wl-copy`, and the user is told about it with `notify-send`. What runs those
//! programs, waits and touches files stands outside: here is what each of them is asked for, and
//! what is made of what they answer.
//!
//! Where a window is on screen comes from the compositor layer. A compositor that does not say so
//! is named to the caller, who is told to draw a region instead.

pub mod ocr;
pub mod recording;

use vstd::prelude::*;
use vstd::string::*;

use crate::bytes::is_at;
use crate::compositor::{geometry_text, WindowRegion};
use crate::config::{expand_in, is_expanded_in, Config};
use crate::notify::{send, send_options};
use crate::number::{
    decimal, decimal_int, decimal_reads_back, is_digit, parse_i64, signed_of, signed_reads_back,
    write_u64,
};
use crate::order::{index_before, picked, reorder, sorted_order, sorts, Ranked};
use crate::path::{
    extension_of, file_name, file_name_of, is_plain_name, join_path, joined_path, last_component,
    last_of_is_unique, split_extension, stem_of,
};
use crate::text::{
    after_first, all_ascii, before_first, begins_with, borrowed, contains, copy_option, first_of,
    first_of_is_unique, has, is_in, is_white, join, joined, list_has, lossy, lossy_of, lower_of,
    lowercase, maybe, occurs_at, owned, same, split_first, split_on, texts, trim, trim_of,
};

verus! {

/// What to point the camera at.
#[derive(Debug, Clone, Copy, PartialEq, Eq, Structural)]
pub enum Mode {
    /// A rectangle that the user drags out.
    Region,
    /// One window, taken from what the compositor says of it.
    Window,
    /// One whole monitor: the focused one unless another is named.
    Fullscreen,
    /// Every monitor, as one image of the whole layout.
    All,
}

impl Default for Mode {
    fn default() -> (r: Mode)
        ensures
            r == Mode::Region,
    {
        Mode::Region
    }
}

/// The mode that a name in lower case stands for.
pub open spec fn mode_named(name: Seq<char>) -> Option<Mode> {
    if name == "region"@ || name == "area"@ || name == "select"@ {
        Some(Mode::Region)
    } else if name == "window"@ || name == "active"@ {
        Some(Mode::Window)
    } else if name == "fullscreen"@ || name == "screen"@ || name == "monitor"@ || name == "output"@
        || name == "display"@ {
        Some(Mode::Fullscreen)
    } else if name == "all"@ || name == "everything"@ || name == "desktop"@ {
        Some(Mode::All)
    } else {
        None
    }
}

impl Mode {
    /// Reads a mode, by any of the names that people type for it.
    pub fn parse(name: &str) -> (r: Result<Mode, String>)
        ensures
            match r {
                Ok(mode) => mode_named(lower_of(trim_of(name@))) == Some(mode),
                Err(message) => mode_named(lower_of(trim_of(name@))) is None && message@
                    == "unknown screenshot mode \""@ + lower_of(trim_of(name@))
                    + "\" (region, window, fullscreen, all)"@,
            },
    {
        let lower = lowercase(trim(name).as_str());
        let n = lower.as_str();
        if same(n, "region") || same(n, "area") || same(n, "select") {
            return Ok(Mode::Region);
        }
        if same(n, "window") || same(n, "active") {
            return Ok(Mode::Window);
        }
        if same(n, "fullscreen") || same(n, "screen") || same(n, "monitor") || same(n, "output")
            || same(n, "display") {
            return Ok(Mode::Fullscreen);
        }
        if same(n, "all") || same(n, "everything") || same(n, "desktop") {
            return Ok(Mode::All);
        }
        let mut message = "unknown screenshot mode \"".to_owned();
        message.append(n);
        message.append("\" (region, window, fullscreen, all)");
        Err(message)
    }

    /// The name of the mode.
    pub open spec fn text(self) -> Seq<char> {
        match self {
            Mode::Region => "region"@,
            Mode::Window => "window"@,
            Mode::Fullscreen => "fullscreen"@,
            Mode::All => "all"@,
        }
    }

    /// The name of the mode.
    pub fn as_str(self) -> (r: &'static str)
        ensures
            r@ == self.text(),
    {
        match self {
            Mode::Region => "region",
            Mode::Window => "window",
            Mode::Fullscreen => "fullscreen",
            Mode::All => "all",
        }
    }
}

/// How long to wait.
#[derive(Debug, Clone, Copy, PartialEq, Eq, Structural)]
pub struct Delay {
    pub seconds: u64,
    pub nanos: u32,
}

/// What a screenshot is wanted of. Where an option is left out, what is configured holds.
#[derive(Debug)]
pub struct Request {
    pub mode: Mode,
    /// The monitor, where a whole one is captured.
    pub output: Option<String>,
    /// Whether the window is clicked on, in place of the focused one.
    pub select: bool,
    /// Whether the mouse pointer is in the picture.
    pub cursor: bool,
    /// How long to wait before the capture, once the selection is made.
    pub delay: Delay,
    pub copy: Option<bool>,
    pub save: Option<bool>,
    pub notify: Option<bool>,
    /// Where to save, in place of the configured directory.
    pub directory: Option<String>,
    /// The language in which text is read out of the picture.
    pub language: Option<String>,
}

/// What a capture produced. A cancelled selection is a result and no error.
#[derive(Debug)]
pub struct Shot {
    pub cancelled: bool,
    pub mode: String,
    /// Where the image is. A shot that is only copied has a file as well, for the thumbnail of its
    /// notification.
    pub path: Option<String>,
    pub saved: bool,
    pub copied: bool,
    pub notified: bool,
    /// The captured rectangle, where one was chosen.
    pub geometry: Option<String>,
    pub output: Option<String>,
    /// The title of the captured window.
    pub window: Option<String>,
    pub width: u32,
    pub height: u32,
    pub bytes: u64,
}

impl Shot {
    /// Whether this is what a cancelled capture is answered with.
    pub open spec fn is_cancelled(self, mode: Mode) -> bool {
        &&& self.cancelled
        &&& self.mode@ == mode.text()
        &&& self.path is None
        &&& !self.saved
        &&& !self.copied
        &&& !self.notified
        &&& self.geometry is None
        &&& self.output is None
        &&& self.window is None
        &&& self.width == 0
        &&& self.height == 0
        &&& self.bytes == 0
    }

    /// What a cancelled capture is answered with.
    pub fn cancelled(mode: Mode) -> (r: Shot)
        ensures
            r.is_cancelled(mode),
    {
        Shot {
            cancelled: true,
            mode: mode.as_str().to_owned(),
            path: None,
            saved: false,
            copied: false,
            notified: false,
            geometry: None,
            output: None,
            window: None,
            width: 0,
            height: 0,
            bytes: 0,
        }
    }
}

/// A program that capture needs, and what it is for.
#[derive(Debug)]
pub struct Tool {
    pub name: String,
    pub purpose: String,
    pub required: bool,
    pub path: Option<String>,
}

impl Tool {
    /// Whether the tool is described by these values.
    pub open spec fn is(
        self,
        name: Seq<char>,
        purpose: Seq<char>,
        required: bool,
        path: Option<String>,
    ) -> bool {
        &&& self.name@ == name
        &&& self.purpose@ == purpose
        &&& self.required == required
        &&& self.path == path
    }
}

/// What explains how capture is set up: where shots land, what the defaults are, which programs
/// are installed, and whether a window can be captured by itself.
#[derive(Debug)]
pub struct Status {
    pub directory: String,
    pub filename: String,
    pub copy: bool,
    pub save: bool,
    pub notify: bool,
    pub tools: Vec<Tool>,
    /// Whether the compositor says where its windows are.
    pub window_capture: bool,
    pub compositor: Option<String>,
}

/// How many shots that were only copied are kept. Their files cannot go at once: the clipboard and
/// the notification still read them.
pub const SCRATCH_KEPT: usize = 20;

/// What is configured of capture.
#[derive(Debug)]
pub struct Settings {
    pub directory: String,
    pub filename: String,
    pub copy: bool,
    pub save: bool,
    pub notify: bool,
}

/// What is configured of capture.
pub fn configure(config: &Config, home: Option<&str>) -> (r: Settings)
    ensures
        is_expanded_in(config.screenshot_dir@, maybe(home), r.directory@),
        r.filename@ == config.screenshot_filename@,
        r.copy == config.screenshot_copy,
        r.save == config.screenshot_save,
        r.notify == config.screenshot_notify,
{
    Settings {
        directory: expand_in(config.screenshot_dir.as_str(), home),
        filename: config.screenshot_filename.as_str().to_owned(),
        copy: config.screenshot_copy,
        save: config.screenshot_save,
        notify: config.screenshot_notify,
    }
}

/// What is said of a program that is not there.
pub open spec fn not_installed(binary: Seq<char>) -> Seq<char> {
    binary + " is not installed"@
}

/// Whether capture can work here, and why not where it cannot.
pub fn available(grim: bool, wayland: bool) -> (r: Result<(), String>)
    ensures
        match r {
            Ok(_) => grim && wayland,
            Err(reason) => if !grim {
                reason@ == not_installed("grim"@)
            } else {
                !wayland && reason@ == "no Wayland display in this session"@
            },
        },
{
    if let Err(message) = require(grim, "grim") {
        return Err(message);
    }
    if !wayland {
        return Err("no Wayland display in this session".to_owned());
    }
    Ok(())
}

/// Refuses to go on without a program.
pub fn require(installed: bool, binary: &str) -> (r: Result<(), String>)
    ensures
        match r {
            Ok(_) => installed,
            Err(message) => !installed && message@ == not_installed(binary@),
        },
{
    if installed {
        return Ok(());
    }
    let mut message = binary.to_owned();
    message.append(" is not installed");
    Err(message)
}

/// Where the programs are that capture needs.
#[derive(Debug)]
pub struct Paths {
    pub grim: Option<String>,
    pub slurp: Option<String>,
    pub wl_copy: Option<String>,
    pub notify_send: Option<String>,
}

/// How capture is set up here. `window_capture` says whether the compositor tells where its
/// windows are.
pub fn status(
    settings: &Settings,
    paths: Paths,
    window_capture: bool,
    compositor: Option<String>,
) -> (r: Status)
    ensures
        r.directory@ == settings.directory@,
        r.filename@ == settings.filename@,
        r.copy == settings.copy,
        r.save == settings.save,
        r.notify == settings.notify,
        r.tools@.len() == 4,
        r.tools@[0].is("grim"@, "screen capture"@, true, paths.grim),
        r.tools@[1].is("slurp"@, "region and window selection"@, false, paths.slurp),
        r.tools@[2].is("wl-copy"@, "copying shots to the clipboard"@, false, paths.wl_copy),
        r.tools@[3].is("notify-send"@, "capture notifications"@, false, paths.notify_send),
        r.window_capture == window_capture,
        r.compositor == compositor,
{
    let mut tools: Vec<Tool> = Vec::new();
    tools.push(tool("grim", "screen capture", true, paths.grim));
    tools.push(tool("slurp", "region and window selection", false, paths.slurp));
    tools.push(tool("wl-copy", "copying shots to the clipboard", false, paths.wl_copy));
    tools.push(tool("notify-send", "capture notifications", false, paths.notify_send));
    Status {
        directory: settings.directory.as_str().to_owned(),
        filename: settings.filename.as_str().to_owned(),
        copy: settings.copy,
        save: settings.save,
        notify: settings.notify,
        tools,
        window_capture,
        compositor,
    }
}

/// A program that capture needs.
fn tool(name: &str, purpose: &str, required: bool, path: Option<String>) -> (r: Tool)
    ensures
        r.is(name@, purpose@, required, path),
{
    Tool { name: name.to_owned(), purpose: purpose.to_owned(), required, path }
}

/// What the session has for a capture to work with.
#[derive(Debug)]
pub struct Screen {
    pub grim: bool,
    pub slurp: bool,
    /// The windows on screen, where the compositor says where they are.
    pub regions: Option<Vec<WindowRegion>>,
    pub compositor: Option<String>,
    /// The focused monitor.
    pub focused: Option<String>,
}

/// What is captured.
#[derive(Debug)]
pub struct Target {
    /// The rectangle, where one was chosen.
    pub geometry: Option<String>,
    pub output: Option<String>,
    /// The title of the window.
    pub window: Option<String>,
}

/// What a screenshot needs next.
#[derive(Debug)]
pub enum Step {
    /// `slurp` is run with these arguments and fed these boxes, and the selection decides.
    Select { arguments: Vec<String>, boxes: Option<String> },
    /// The capture itself, once the delay is over.
    Capture(Target),
}

/// The boxes of the windows, as `slurp` reads them.
pub open spec fn boxes_of(regions: Seq<WindowRegion>) -> Seq<Seq<char>> {
    regions.map_values(
        |r: WindowRegion| geometry_text(r.x as int, r.y as int, r.width as int, r.height as int),
    )
}

/// The index of the first focused window, or the number of them.
pub open spec fn focused_index(regions: Seq<WindowRegion>) -> int
    decreases regions.len(),
{
    if regions.len() == 0 || regions[0].focused {
        0
    } else {
        1 + focused_index(regions.drop_first())
    }
}

/// The index of the window that is captured without asking: the focused one, or else the first.
pub open spec fn captured_index(regions: Seq<WindowRegion>) -> int {
    if focused_index(regions) < regions.len() {
        focused_index(regions)
    } else {
        0
    }
}

/// Whether the target is that window.
pub open spec fn is_window(target: Target, region: WindowRegion) -> bool {
    &&& target.geometry is Some
    &&& (target.geometry->0)@ == geometry_text(
        region.x as int,
        region.y as int,
        region.width as int,
        region.height as int,
    )
    &&& target.output is None
    &&& target.window is Some
    &&& (target.window->0)@ == region.title@
}

/// What is said where the compositor does not tell where its windows are.
pub open spec fn no_regions_message(compositor: Option<String>) -> Seq<char> {
    (match compositor {
        Some(name) => name@,
        None => "this compositor"@,
    }) + " does not report where its windows are on screen, so a window cannot be captured by itself -- use region instead"@
}

/// What the first step of a screenshot is.
pub open spec fn is_first_step(r: Result<Step, String>, request: Request, screen: Screen) -> bool {
    if !screen.grim {
        r matches Err(m) && m@ == not_installed("grim"@)
    } else {
        is_choice(r, request, screen)
    }
}

/// How what is captured is chosen.
pub open spec fn is_choice(r: Result<Step, String>, request: Request, screen: Screen) -> bool {
    match request.mode {
        Mode::Region => if !screen.slurp {
            r matches Err(m) && m@ == not_installed("slurp"@)
        } else {
            r matches Ok(Step::Select { arguments, boxes }) && arguments@.len() == 0
                && boxes is None
        },
        Mode::Window => match screen.regions {
            None => r matches Err(m) && m@ == no_regions_message(screen.compositor),
            Some(regions) => if regions@.len() == 0 {
                r matches Err(m) && m@ == "no windows are on screen to capture"@
            } else if !request.select {
                r matches Ok(Step::Capture(target)) && is_window(
                    target,
                    regions@[captured_index(regions@)],
                )
            } else if !screen.slurp {
                r matches Err(m) && m@ == not_installed("slurp"@)
            } else {
                r matches Ok(Step::Select { arguments, boxes }) && texts(arguments@) == seq!["-r"@]
                    && boxes is Some && (boxes->0)@ == joined(boxes_of(regions@), "\n"@)
            },
        },
        Mode::Fullscreen => {
            &&& r is Ok
            &&& r->Ok_0 is Capture
            &&& is_whole_output(r->Ok_0->Capture_0, request.output, screen.focused)
        },
        Mode::All => {
            &&& r is Ok
            &&& r->Ok_0 is Capture
            &&& r->Ok_0->Capture_0.geometry is None
            &&& r->Ok_0->Capture_0.output is None
            &&& r->Ok_0->Capture_0.window is None
        },
    }
}

/// Whether the target is the output that was named, or else the focused one. Where neither is
/// known, it is the whole layout: that is better than refusing.
pub open spec fn is_whole_output(
    target: Target,
    named: Option<String>,
    focused: Option<String>,
) -> bool {
    &&& target.geometry is None
    &&& target.window is None
    &&& match (named, focused) {
        (Some(name), _) => target.output is Some && (target.output->0)@ == name@,
        (None, Some(name)) => target.output is Some && (target.output->0)@ == name@,
        (None, None) => target.output is None,
    }
}

/// That window as a target.
fn window_target(region: &WindowRegion) -> (r: Target)
    ensures
        is_window(r, *region),
{
    Target {
        geometry: Some(region.geometry()),
        output: None,
        window: Some(region.title.as_str().to_owned()),
    }
}

/// Starts a screenshot: what is to be captured, or how the user is asked for it. The selection
/// comes before the delay, which is there to arrange what is on screen.
pub fn screenshot(request: &Request, screen: &Screen) -> (r: Result<Step, String>)
    ensures
        is_first_step(r, *request, *screen),
{
    if let Err(message) = require(screen.grim, "grim") {
        return Err(message);
    }
    aim(request, screen)
}

/// Chooses what is captured, or how the user is asked for it.
pub fn aim(request: &Request, screen: &Screen) -> (r: Result<Step, String>)
    ensures
        is_choice(r, *request, *screen),
{
    match request.mode {
        Mode::Region => {
            if let Err(message) = require(screen.slurp, "slurp") {
                return Err(message);
            }
            let arguments: Vec<String> = Vec::new();
            Ok(Step::Select { arguments, boxes: None })
        },
        Mode::Window => {
            let regions = match &screen.regions {
                Some(regions) => regions,
                None => {
                    let mut message = match &screen.compositor {
                        Some(name) => name.as_str().to_owned(),
                        None => "this compositor".to_owned(),
                    };
                    message.append(
                        " does not report where its windows are on screen, so a window cannot be captured by itself -- use region instead",
                    );
                    return Err(message);
                },
            };
            if regions.len() == 0 {
                return Err("no windows are on screen to capture".to_owned());
            }
            if !request.select {
                return Ok(Step::Capture(window_target(captured_window(regions))));
            }
            if let Err(message) = require(screen.slurp, "slurp") {
                return Err(message);
            }
            let mut arguments: Vec<String> = Vec::new();
            arguments.push("-r".to_owned());
            assert(texts(arguments@) =~= seq!["-r"@]);
            Ok(Step::Select { arguments, boxes: Some(boxes_text(regions)) })
        },
        Mode::Fullscreen => {
            let output = match &request.output {
                Some(name) => Some(name.as_str().to_owned()),
                None => copy_option(&screen.focused),
            };
            Ok(Step::Capture(Target { geometry: None, output, window: None }))
        },
        Mode::All => Ok(Step::Capture(Target { geometry: None, output: None, window: None })),
    }
}

/// The window that is captured without asking.
fn captured_window(regions: &Vec<WindowRegion>) -> (r: &WindowRegion)
    requires
        regions@.len() > 0,
    ensures
        *r == regions@[captured_index(regions@)],
{
    let ghost all = regions@;
    assert(all.skip(0) =~= all);
    let mut i: usize = 0;
    while i < regions.len() && !regions[i].focused
        invariant
            all == regions@,
            i <= all.len(),
            focused_index(all) == i + focused_index(all.skip(i as int)),
        decreases regions.len() - i,
    {
        assert(all.skip(i as int).drop_first() =~= all.skip(i + 1));
        i += 1;
    }
    if i < regions.len() {
        assert(all.skip(i as int)[0] == all[i as int]);
        &regions[i]
    } else {
        &regions[0]
    }
}

/// The boxes of the windows, one on a line.
fn boxes_text(regions: &Vec<WindowRegion>) -> (r: String)
    ensures
        r@ == joined(boxes_of(regions@), "\n"@),
{
    let ghost all = boxes_of(regions@);
    let mut boxes: Vec<String> = Vec::new();
    let mut i: usize = 0;
    while i < regions.len()
        invariant
            all == boxes_of(regions@),
            i <= regions@.len(),
            texts(boxes@) == all.take(i as int),
        decreases regions.len() - i,
    {
        let ghost before = texts(boxes@);
        boxes.push(regions[i].geometry());
        assert(texts(boxes@) =~= before.push(all[i as int]));
        assert(all.take(i + 1) =~= before.push(all[i as int]));
        i += 1;
    }
    assert(all.take(i as int) =~= all);
    join(&boxes, "\n")
}

/// What was selected, where `slurp` wrote this.
pub open spec fn is_selection(
    r: Result<Option<String>, String>,
    success: bool,
    chosen: Seq<char>,
    detail: Seq<char>,
) -> bool {
    if chosen.len() > 0 {
        r matches Ok(Some(s)) && s@ == chosen
    } else if success || detail.len() == 0 || has(detail, "cancelled"@) {
        r == Ok::<Option<String>, String>(None)
    } else {
        r matches Err(m) && m@ == "slurp failed: "@ + detail
    }
}

/// What the end of `slurp` says. It fails where the user pressed Escape: that is told from a real
/// failure by what it wrote.
pub fn selection(success: bool, stdout: &[u8], stderr: &[u8]) -> (r: Result<Option<String>, String>)
    ensures
        is_selection(r, success, trim_of(lossy_of(stdout@)), trim_of(lossy_of(stderr@))),
{
    let chosen = trim(lossy(stdout).as_str());
    if chosen.as_str().is_empty() {
        let detail = trim(lossy(stderr).as_str());
        if success || detail.as_str().is_empty() || contains(detail.as_str(), "cancelled") {
            return Ok(None);
        }
        let mut message = "slurp failed: ".to_owned();
        message.append(detail.as_str());
        return Err(message);
    }
    Ok(Some(chosen))
}

/// The rectangle that a text writes.
pub open spec fn rectangle_of(text: Seq<char>) -> Option<(int, int, int, int)> {
    let all = trim_of(text);
    let position = before_first(all, ' ');
    let size = after_first(all, ' ');
    if first_of(all, ' ') < all.len() && first_of(position, ',') < position.len() && first_of(
        size,
        'x',
    ) < size.len() {
        let x = signed_of(trim_of(before_first(position, ',')));
        let y = signed_of(trim_of(after_first(position, ',')));
        let width = signed_of(trim_of(before_first(size, 'x')));
        let height = signed_of(trim_of(after_first(size, 'x')));
        if x is Some && y is Some && width is Some && height is Some {
            Some((x->0, y->0, width->0, height->0))
        } else {
            None
        }
    } else {
        None
    }
}

/// What is said of a rectangle that cannot be read.
pub open spec fn bad_geometry(geometry: Seq<char>) -> Seq<char> {
    "could not read the selected geometry \""@ + geometry + "\""@
}

/// What is said of a rectangle that cannot be read.
fn invalid(geometry: &str) -> (r: String)
    ensures
        r@ == bad_geometry(geometry@),
{
    let mut message = "could not read the selected geometry \"".to_owned();
    message.append(geometry);
    message.append("\"");
    message
}

/// Reads a rectangle as `slurp` writes it.
pub fn parse_geometry(geometry: &str) -> (r: Result<WindowRegion, String>)
    ensures
        match r {
            Ok(region) => {
                &&& rectangle_of(geometry@) == Some(
                    (region.x as int, region.y as int, region.width as int, region.height as int),
                )
                &&& region.id@.len() == 0
                &&& region.app_id@.len() == 0
                &&& region.title@.len() == 0
                &&& region.monitor@.len() == 0
                &&& !region.focused
            },
            Err(message) => rectangle_of(geometry@) is None && message@ == bad_geometry(geometry@),
        },
{
    let all = trim(geometry);
    let (position, size) = match split_first(all.as_str(), ' ') {
        (position, Some(size)) => (position, size),
        (_, None) => return Err(invalid(geometry)),
    };
    let (x, y) = match split_first(position.as_str(), ',') {
        (x, Some(y)) => (x, y),
        (_, None) => return Err(invalid(geometry)),
    };
    let (width, height) = match split_first(size.as_str(), 'x') {
        (width, Some(height)) => (width, height),
        (_, None) => return Err(invalid(geometry)),
    };
    let x = parse_i64(trim(x.as_str()).as_str());
    let y = parse_i64(trim(y.as_str()).as_str());
    let width = parse_i64(trim(width.as_str()).as_str());
    let height = parse_i64(trim(height.as_str()).as_str());
    match (x, y, width, height) {
        (Some(x), Some(y), Some(width), Some(height)) => {
            let id = "".to_owned();
            let app_id = "".to_owned();
            let title = "".to_owned();
            let monitor = "".to_owned();
            proof {
                reveal_strlit("");
            }
            Ok(WindowRegion { id, app_id, title, monitor, focused: false, x, y, width, height })
        },
        _ => Err(invalid(geometry)),
    }
}

/// The index of the first of some boxes that is the chosen one, or the number of them.
pub open spec fn box_index(boxes: Seq<Seq<char>>, chosen: Seq<char>) -> int
    decreases boxes.len(),
{
    if boxes.len() == 0 || boxes[0] == chosen {
        0
    } else {
        1 + box_index(boxes.drop_first(), chosen)
    }
}

/// Whether the target is what was chosen among the windows. A rectangle that is no window's is a
/// selection as well, and one that cannot be read is none.
pub open spec fn is_chosen_window(
    r: Option<Target>,
    regions: Seq<WindowRegion>,
    chosen: Seq<char>,
) -> bool {
    let i = box_index(boxes_of(regions), chosen);
    if i < regions.len() {
        r is Some && is_window(r->0, regions[i])
    } else {
        match rectangle_of(chosen) {
            Some((x, y, width, height)) => {
                &&& r is Some
                &&& (r->0).geometry is Some
                &&& ((r->0).geometry->0)@ == geometry_text(x, y, width, height)
                &&& (r->0).output is None
                &&& (r->0).window is Some
                &&& ((r->0).window->0)@.len() == 0
            },
            None => r is None,
        }
    }
}

/// What is captured once the user was asked, or nothing where the selection was cancelled.
pub open spec fn is_resumed(
    r: Option<Target>,
    request: Request,
    regions: Seq<WindowRegion>,
    chosen: Option<String>,
) -> bool {
    match chosen {
        None => r is None,
        Some(text) => if request.mode == Mode::Window {
            is_chosen_window(r, regions, text@)
        } else {
            &&& r is Some
            &&& (r->0).geometry == Some(text)
            &&& (r->0).output is None
            &&& (r->0).window is None
        },
    }
}

/// What is captured once the user was asked, or nothing where the selection was cancelled.
pub fn resume(request: &Request, regions: &Vec<WindowRegion>, chosen: Option<String>) -> (r: Option<
    Target,
>)
    ensures
        is_resumed(r, *request, regions@, chosen),
{
    let text = match chosen {
        Some(text) => text,
        None => return None,
    };
    if request.mode != Mode::Window {
        return Some(Target { geometry: Some(text), output: None, window: None });
    }
    let ghost all = boxes_of(regions@);
    assert(all.skip(0) =~= all);
    let mut i: usize = 0;
    while i < regions.len()
        invariant
            all == boxes_of(regions@),
            request.mode == Mode::Window,
            chosen == Some(text),
            i <= regions@.len(),
            box_index(all, text@) == i + box_index(all.skip(i as int), text@),
        decreases regions.len() - i,
    {
        assert(all.skip(i as int)[0] == all[i as int]);
        assert(all.skip(i as int).drop_first() =~= all.skip(i + 1));
        if same(regions[i].geometry().as_str(), text.as_str()) {
            return Some(window_target(&regions[i]));
        }
        i += 1;
    }
    match parse_geometry(text.as_str()) {
        Ok(region) => Some(window_target(&region)),
        Err(_) => None,
    }
}

/// What is done with a shot, and where its file goes.
#[derive(Debug)]
pub struct Plan {
    pub copy: bool,
    pub save: bool,
    pub notify: bool,
    pub directory: String,
}

/// What a flag is: what was asked for, or else what is configured.
pub open spec fn flag_or(asked: Option<bool>, configured: bool) -> bool {
    match asked {
        Some(flag) => flag,
        None => configured,
    }
}

/// What a flag is: what was asked for, or else what is configured.
fn either(asked: Option<bool>, configured: bool) -> (r: bool)
    ensures
        r == flag_or(asked, configured),
{
    match asked {
        Some(flag) => flag,
        None => configured,
    }
}

/// What is done with a shot, and where its file goes.
pub open spec fn is_plan(r: Plan, request: Request, settings: Settings, scratch: Seq<char>) -> bool {
    &&& r.copy == flag_or(request.copy, settings.copy)
    &&& r.save == flag_or(request.save, settings.save)
    &&& r.notify == flag_or(request.notify, settings.notify)
    &&& r.directory@ == (if !r.save {
        scratch
    } else {
        match request.directory {
            Some(directory) => directory@,
            None => settings.directory@,
        }
    })
}

/// What is done with a shot, and where its file goes. A shot that is not saved goes to the scratch
/// directory.
pub fn plan(request: &Request, settings: &Settings, scratch: &str) -> (r: Plan)
    ensures
        is_plan(r, *request, *settings, scratch@),
{
    let save = either(request.save, settings.save);
    let directory = if !save {
        scratch.to_owned()
    } else {
        match &request.directory {
            Some(directory) => directory.as_str().to_owned(),
            None => settings.directory.as_str().to_owned(),
        }
    };
    Plan {
        copy: either(request.copy, settings.copy),
        save,
        notify: either(request.notify, settings.notify),
        directory,
    }
}

/// Where shots live that are only copied: they are no part of the user's collection.
pub fn scratch_dir(cache: Option<&str>, temp: &str) -> (r: String)
    ensures
        r@ == joined_path(
            match maybe(cache) {
                Some(directory) => directory,
                None => temp@,
            },
            "epochoxide/screenshots"@,
        ),
{
    match cache {
        Some(directory) => join_path(directory, "epochoxide/screenshots"),
        None => join_path(temp, "epochoxide/screenshots"),
    }
}

/// The image format that the extension of a path names, as `grim` calls it.
pub open spec fn format_of(path: Seq<char>) -> Option<Seq<char>> {
    match file_name_of(path) {
        Some(name) => match extension_of(name) {
            Some(extension) => {
                let lower = lower_of(extension);
                if lower == "png"@ {
                    Some("png"@)
                } else if lower == "jpg"@ || lower == "jpeg"@ {
                    Some("jpeg"@)
                } else if lower == "ppm"@ {
                    Some("ppm"@)
                } else {
                    None
                }
            },
            None => None,
        },
        None => None,
    }
}

/// The image format that the extension of a path names, as `grim` calls it.
pub fn image_format(path: &str) -> (r: Option<&'static str>)
    ensures
        maybe(r) == format_of(path@),
{
    let name = match file_name(path) {
        Some(name) => name,
        None => return None,
    };
    let extension = match split_extension(name.as_str()).1 {
        Some(extension) => extension,
        None => return None,
    };
    let lower = lowercase(extension.as_str());
    let l = lower.as_str();
    if same(l, "png") {
        Some("png")
    } else if same(l, "jpg") || same(l, "jpeg") {
        Some("jpeg")
    } else if same(l, "ppm") {
        Some("ppm")
    } else {
        None
    }
}

/// What a shot is called before it has an extension: what `date` made of the template, unless that
/// is nothing or would lead out of the directory.
pub open spec fn base_name(expanded: Seq<char>, now: nat) -> Seq<char> {
    if expanded.len() == 0 || has(expanded, "/"@) {
        "screenshot-"@ + decimal(now)
    } else {
        expanded
    }
}

/// What a shot is called.
pub open spec fn image_name(expanded: Seq<char>, now: nat) -> Seq<char> {
    let name = base_name(expanded, now);
    if format_of(name) is Some {
        name
    } else {
        name + ".png"@
    }
}

/// What `date` made of a template: nothing where it failed.
pub open spec fn expansion_of(dated: Option<Seq<u8>>) -> Seq<char> {
    match dated {
        Some(bytes) => trim_of(lossy_of(bytes)),
        None => Seq::empty(),
    }
}

/// What `date` wrote, where it ran.
pub open spec fn written(dated: Option<&Vec<u8>>) -> Option<Seq<u8>> {
    match dated {
        Some(bytes) => Some(bytes@),
        None => None,
    }
}

/// What a shot is called. `dated` is what `date` wrote for the configured template, and `now` the
/// seconds since the epoch.
pub fn filename(dated: Option<&Vec<u8>>, now: u64) -> (r: String)
    ensures
        r@ == image_name(expansion_of(written(dated)), now as nat),
{
    let expanded = match dated {
        Some(bytes) => trim(lossy(bytes.as_slice()).as_str()),
        None => String::new(),
    };
    let mut name = if expanded.as_str().is_empty() || contains(expanded.as_str(), "/") {
        let mut name = "screenshot-".to_owned();
        name.append(write_u64(now).as_str());
        name
    } else {
        expanded
    };
    if image_format(name.as_str()).is_none() {
        name.append(".png");
    }
    name
}

/// The name of a file without its extension.
pub open spec fn bare_name(name: Seq<char>) -> Seq<char> {
    match file_name_of(name) {
        Some(file) => stem_of(file),
        None => name,
    }
}

/// The extension of a name with its dot.
pub open spec fn dotted_extension(name: Seq<char>) -> Seq<char> {
    match file_name_of(name) {
        Some(file) => match extension_of(file) {
            Some(extension) => "."@ + extension,
            None => Seq::empty(),
        },
        None => Seq::empty(),
    }
}

/// A name with a number in front of its extension.
pub open spec fn numbered(name: Seq<char>, n: nat) -> Seq<char> {
    bare_name(name) + "-"@ + decimal(n) + dotted_extension(name)
}

/// The path that is tried for a name after as many others.
pub open spec fn nth_path(directory: Seq<char>, name: Seq<char>, n: nat) -> Seq<char> {
    joined_path(directory, if n == 0 {
        name
    } else {
        numbered(name, n)
    })
}

/// The first path at or after the given one that is not taken, or the one that bears the time.
pub open spec fn free_path(
    directory: Seq<char>,
    name: Seq<char>,
    taken: Seq<String>,
    now: nat,
    from: nat,
) -> Seq<char>
    decreases 1000 - from,
{
    if from >= 1000 {
        joined_path(directory, numbered(name, now))
    } else if !is_in(taken, nth_path(directory, name, from)) {
        nth_path(directory, name, from)
    } else {
        free_path(directory, name, taken, now, from + 1)
    }
}

/// A name in two parts, around which a number goes.
fn name_parts(name: &str) -> (r: (String, String))
    ensures
        r.0@ == bare_name(name@),
        r.1@ == dotted_extension(name@),
{
    match file_name(name) {
        Some(file) => {
            let (stem, extension) = split_extension(file.as_str());
            match extension {
                Some(extension) => {
                    let mut dotted = ".".to_owned();
                    dotted.append(extension.as_str());
                    (stem, dotted)
                },
                None => (stem, String::new()),
            }
        },
        None => (name.to_owned(), String::new()),
    }
}

/// A name with a number in front of its extension.
fn number_name(stem: &str, n: u64, extension: &str) -> (r: String)
    ensures
        r@ == stem@ + "-"@ + decimal(n as nat) + extension@,
{
    let mut out = stem.to_owned();
    out.append("-");
    out.append(write_u64(n).as_str());
    out.append(extension);
    out
}

/// Where a shot goes, with a number in its name where that is needed to overwrite nothing. `taken`
/// are the paths at which there is something.
pub fn unique(directory: &str, name: &str, taken: &Vec<String>, now: u64) -> (r: String)
    ensures
        r@ == free_path(directory@, name@, taken@, now as nat, 0),
{
    let first = join_path(directory, name);
    if !list_has(taken, first.as_str()) {
        return first;
    }
    let (stem, extension) = name_parts(name);
    let mut index: u64 = 1;
    while index < 1000
        invariant
            1 <= index <= 1000,
            stem@ == bare_name(name@),
            extension@ == dotted_extension(name@),
            free_path(directory@, name@, taken@, now as nat, 0) == free_path(
                directory@,
                name@,
                taken@,
                now as nat,
                index as nat,
            ),
        decreases 1000 - index,
    {
        let candidate = join_path(
            directory,
            number_name(stem.as_str(), index, extension.as_str()).as_str(),
        );
        if !list_has(taken, candidate.as_str()) {
            return candidate;
        }
        index += 1;
    }
    join_path(directory, number_name(stem.as_str(), now, extension.as_str()).as_str())
}

/// How a file is ordered among others by its age.
#[derive(Debug, Clone, Copy)]
pub struct Age {
    pub modified: i128,
}

impl Ranked for Age {
    open spec fn ahead(self, other: Age) -> bool {
        self.modified > other.modified
    }

    proof fn ahead_is_an_order(a: Age, b: Age, c: Age) {
    }

    fn is_ahead(&self, other: &Age) -> (r: bool) {
        self.modified > other.modified
    }
}

/// When each of some files was modified.
pub open spec fn ages(files: Seq<(i128, String)>) -> Seq<Age> {
    files.map_values(|file: (i128, String)| Age { modified: file.0 })
}

/// The files that go when as many of the newest are kept, once `order` puts the newest first.
pub open spec fn pruned(files: Seq<(i128, String)>, order: Seq<usize>, keep: nat) -> Seq<
    (i128, String),
> {
    picked(files, order).skip(keep as int)
}

/// Whether these are the files to delete so that the newest are kept.
pub open spec fn is_pruned(r: Seq<(i128, String)>, files: Seq<(i128, String)>, keep: nat) -> bool {
    &&& files.len() <= keep ==> r.len() == 0
    &&& files.len() > keep ==> exists|order: Seq<usize>| #[trigger]
        sorts(order, ages(files)) && r == pruned(files, order, keep)
}

/// The files to delete so that the newest are kept.
pub fn prune(files: Vec<(i128, String)>, keep: usize) -> (r: Vec<(i128, String)>)
    ensures
        is_pruned(r@, files@, keep as nat),
{
    let mut out: Vec<(i128, String)> = Vec::new();
    if files.len() <= keep {
        return out;
    }
    let mut keys: Vec<Age> = Vec::new();
    let mut i: usize = 0;
    while i < files.len()
        invariant
            i <= files@.len(),
            keys@ == ages(files@).take(i as int),
        decreases files.len() - i,
    {
        let ghost before = keys@;
        keys.push(Age { modified: files[i].0 });
        assert(keys@ =~= before.push(ages(files@)[i as int]));
        assert(ages(files@).take(i + 1) =~= before.push(ages(files@)[i as int]));
        i += 1;
    }
    assert(ages(files@).take(i as int) =~= ages(files@));
    let ghost all = files@;
    let order = sorted_order(&keys);
    let sorted = reorder(files, &order);
    let ghost wanted = sorted@;
    let mut at: usize = 0;
    for file in it: sorted
        invariant
            it.seq() == wanted,
            at == it.index(),
            at <= wanted.len() <= usize::MAX,
            out@ == (if at <= keep {
                Seq::empty()
            } else {
                wanted.subrange(keep as int, at as int)
            }),
    {
        if at >= keep {
            out.push(file);
        }
        at += 1;
        assert(out@ =~= (if at <= keep {
            Seq::empty()
        } else {
            wanted.subrange(keep as int, at as int)
        }));
    }
    assert(out@ =~= pruned(all, order@, keep as nat));
    out
}

/// What is kept is no older than what goes.
pub proof fn pruning_keeps_the_newest(
    files: Seq<(i128, String)>,
    order: Seq<usize>,
    keep: nat,
    kept: int,
    gone: int,
)
    requires
        sorts(order, ages(files)),
        keep <= files.len(),
        0 <= kept < keep,
        0 <= gone < pruned(files, order, keep).len(),
    ensures
        picked(files, order)[kept].0 >= pruned(files, order, keep)[gone].0,
{
    assert(index_before(ages(files), order[kept], order[keep + gone]));
}

/// What an image is called on the clipboard.
pub open spec fn mime_of(path: Seq<char>) -> Seq<char> {
    if format_of(path) == Some("jpeg"@) {
        "image/jpeg"@
    } else if format_of(path) == Some("ppm"@) {
        "image/x-portable-pixmap"@
    } else {
        "image/png"@
    }
}

/// The arguments with which `wl-copy` takes an image.
pub fn copy_arguments(path: &str) -> (r: Vec<String>)
    ensures
        texts(r@) == seq!["--type"@, mime_of(path@)],
{
    let mime = match image_format(path) {
        Some(format) => if same(format, "jpeg") {
            "image/jpeg"
        } else if same(format, "ppm") {
            "image/x-portable-pixmap"
        } else {
            "image/png"
        },
        None => "image/png",
    };
    let mut out: Vec<String> = Vec::new();
    out.push("--type".to_owned());
    out.push(mime.to_owned());
    assert(texts(out@) =~= seq!["--type"@, mime_of(path@)]);
    out
}

/// A copy that failed is reported: the user asked for the shot to be on the clipboard.
pub fn copy_failure(cause: &str) -> (r: String)
    ensures
        r@ == "copying the screenshot to the clipboard: "@ + cause@,
{
    let mut message = "copying the screenshot to the clipboard: ".to_owned();
    message.append(cause);
    message
}

/// An option and its value, where it has one.
pub open spec fn option_words(flag: Seq<char>, value: Option<Seq<char>>) -> Seq<Seq<char>> {
    match value {
        Some(text) => seq![flag, text],
        None => Seq::empty(),
    }
}

/// The arguments with which `grim` takes the picture. It goes by the extension only where it
/// writes to its output, so the format is named.
pub open spec fn grim_words(
    destination: Seq<char>,
    geometry: Option<Seq<char>>,
    output: Option<Seq<char>>,
    cursor: bool,
) -> Seq<Seq<char>> {
    let pointer = if cursor {
        seq!["-c"@]
    } else {
        Seq::empty()
    };
    pointer + option_words("-g"@, geometry) + option_words("-o"@, output) + option_words(
        "-t"@,
        format_of(destination),
    ) + seq![destination]
}

/// Adds an option and its value, where it has one.
pub(crate) fn add_option(out: &mut Vec<String>, flag: &str, value: Option<&str>)
    ensures
        texts(final(out)@) == texts(old(out)@) + option_words(flag@, maybe(value)),
{
    let ghost before = texts(out@);
    match value {
        Some(text) => {
            out.push(flag.to_owned());
            out.push(text.to_owned());
            assert(texts(out@) =~= before + seq![flag@, text@]);
        },
        None => {
            assert(texts(out@) =~= before + Seq::empty());
        },
    }
}

/// The arguments with which `grim` takes the picture.
pub fn grim(destination: &str, target: &Target, cursor: bool) -> (r: Vec<String>)
    ensures
        texts(r@) == grim_words(
            destination@,
            owned(target.geometry),
            owned(target.output),
            cursor,
        ),
{
    let mut out: Vec<String> = Vec::new();
    assert(texts(out@) =~= Seq::empty());
    if cursor {
        out.push("-c".to_owned());
        assert(texts(out@) =~= seq!["-c"@]);
    }
    add_option(&mut out, "-g", borrowed(&target.geometry));
    add_option(&mut out, "-o", borrowed(&target.output));
    add_option(&mut out, "-t", image_format(destination));
    let ghost before = texts(out@);
    out.push(destination.to_owned());
    assert(texts(out@) =~= before + seq![destination@]);
    out
}

/// What is said of a `grim` that failed: what it wrote, or else how it ended.
pub fn grim_failure(stderr: &[u8], status: &str) -> (r: String)
    ensures
        r@ == "grim failed: "@ + (if trim_of(lossy_of(stderr@)).len() > 0 {
            trim_of(lossy_of(stderr@))
        } else {
            "exited with "@ + status@
        }),
{
    let mut detail = trim(lossy(stderr).as_str());
    if detail.as_str().is_empty() {
        detail = "exited with ".to_owned();
        detail.append(status);
    }
    let mut message = "grim failed: ".to_owned();
    message.append(detail.as_str());
    message
}

/// What is said of a program that failed.
pub fn exited(binary: &str, status: &str) -> (r: String)
    ensures
        r@ == binary@ + " exited with "@ + status@,
{
    let mut message = binary.to_owned();
    message.append(" exited with ");
    message.append(status);
    message
}

/// What the notification says first.
pub open spec fn summary_of(saved: bool, copied: bool) -> Seq<char> {
    match (saved, copied) {
        (true, true) => "Screenshot saved and copied"@,
        (true, false) => "Screenshot saved"@,
        (false, true) => "Screenshot copied"@,
        (false, false) => "Screenshot taken"@,
    }
}

/// What the notification says of the file: its name where it was saved, and its size where that is
/// known.
pub open spec fn body_of(path: Seq<char>, saved: bool, width: nat, height: nat) -> Seq<char> {
    let name = if saved {
        match file_name_of(path) {
            Some(name) => name,
            None => Seq::empty(),
        }
    } else {
        Seq::empty()
    };
    if width > 0 && height > 0 {
        let size = decimal(width) + "×"@ + decimal(height);
        if name.len() > 0 {
            name + " · "@ + size
        } else {
            size
        }
    } else {
        name
    }
}

/// The arguments with which the session is told of a shot. The image goes along, so that it can be
/// shown, and one notification takes the place of the last.
pub fn announce(
    installed: bool,
    path: &str,
    saved: bool,
    copied: bool,
    width: u32,
    height: u32,
) -> (r: Result<Vec<String>, String>)
    ensures
        match r {
            Ok(arguments) => installed && texts(arguments@) == send_options(
                "camera-photo"@,
                Some(path@),
                "epoch-screenshot"@,
            ) + seq![
                summary_of(saved, copied),
                body_of(path@, saved, width as nat, height as nat),
            ],
            Err(message) => !installed && message@ == "notify-send is not installed"@,
        },
{
    let summary = match (saved, copied) {
        (true, true) => "Screenshot saved and copied",
        (true, false) => "Screenshot saved",
        (false, true) => "Screenshot copied",
        (false, false) => "Screenshot taken",
    };
    let mut body = if saved {
        match file_name(path) {
            Some(name) => name,
            None => String::new(),
        }
    } else {
        String::new()
    };
    if width > 0 && height > 0 {
        let mut size = write_u64(width as u64);
        size.append("×");
        size.append(write_u64(height as u64).as_str());
        if !body.as_str().is_empty() {
            body.append(" · ");
            body.append(size.as_str());
        } else {
            body = size;
        }
    }
    send(installed, summary, body.as_str(), "camera-photo", Some(path), "epoch-screenshot")
}

/// The number that four bytes write, the most significant first.
pub open spec fn big_endian(bytes: Seq<u8>) -> int {
    bytes[0] * 0x100_0000 + bytes[1] * 0x1_0000 + bytes[2] * 0x100 + bytes[3]
}

/// Whether a file begins as a PNG does, with its header chunk first.
pub open spec fn is_png(raw: Seq<u8>) -> bool {
    &&& raw.len() >= 24
    &&& raw.subrange(0, 8) == seq![0x89u8, 0x50, 0x4e, 0x47, 0x0d, 0x0a, 0x1a, 0x0a]
    &&& raw.subrange(12, 16) == seq![0x49u8, 0x48, 0x44, 0x52]
}

/// Reads four bytes as a number, the most significant first.
fn read_number(raw: &[u8], at: usize) -> (r: u32)
    requires
        at + 4 <= raw@.len(),
    ensures
        r == big_endian(raw@.subrange(at as int, at + 4)),
{
    raw[at] as u32 * 0x100_0000 + raw[at + 1] as u32 * 0x1_0000 + raw[at + 2] as u32 * 0x100
        + raw[at + 3] as u32
}

/// Whether these are the dimensions of a PNG.
pub open spec fn is_png_size(r: Option<(u32, u32)>, raw: Seq<u8>) -> bool {
    match r {
        Some((width, height)) => {
            &&& is_png(raw)
            &&& width == big_endian(raw.subrange(16, 20))
            &&& height == big_endian(raw.subrange(20, 24))
        },
        None => !is_png(raw),
    }
}

/// The dimensions of a PNG, from the start of its file.
pub fn png_size(raw: &[u8]) -> (r: Option<(u32, u32)>)
    ensures
        is_png_size(r, raw@),
{
    if raw.len() < 24 {
        return None;
    }
    let magic: [u8; 8] = [0x89, 0x50, 0x4e, 0x47, 0x0d, 0x0a, 0x1a, 0x0a];
    let chunk: [u8; 4] = [0x49, 0x48, 0x44, 0x52];
    assert(magic@ =~= seq![0x89u8, 0x50, 0x4e, 0x47, 0x0d, 0x0a, 0x1a, 0x0a]);
    assert(chunk@ =~= seq![0x49u8, 0x48, 0x44, 0x52]);
    if !is_at(raw, magic.as_slice(), 0) || !is_at(raw, chunk.as_slice(), 12) {
        return None;
    }
    Some((read_number(raw, 16), read_number(raw, 20)))
}

/// What a capture is answered with that went through.
pub open spec fn is_finished(
    r: Shot,
    request: Request,
    plan: Plan,
    target: Target,
    path: Seq<char>,
    announced: bool,
    size: Option<(u32, u32)>,
    bytes: u64,
) -> bool {
    &&& !r.cancelled
    &&& r.mode@ == request.mode.text()
    &&& r.path is Some && (r.path->0)@ == path
    &&& r.saved == plan.save
    &&& r.copied == plan.copy
    &&& r.notified == (plan.notify && announced)
    &&& r.geometry == target.geometry
    &&& r.output == target.output
    &&& r.window == target.window
    &&& (r.width, r.height) == (match size {
        Some(known) => known,
        None => (0u32, 0u32),
    })
    &&& r.bytes == bytes
}

/// What a capture is answered with that went through.
pub fn finished(
    request: &Request,
    plan: &Plan,
    target: Target,
    path: &str,
    announced: bool,
    size: Option<(u32, u32)>,
    bytes: u64,
) -> (r: Shot)
    ensures
        is_finished(r, *request, *plan, target, path@, announced, size, bytes),
{
    let (width, height) = match size {
        Some(known) => known,
        None => (0, 0),
    };
    Shot {
        cancelled: false,
        mode: request.mode.as_str().to_owned(),
        path: Some(path.to_owned()),
        saved: plan.save,
        copied: plan.copy,
        notified: plan.notify && announced,
        geometry: target.geometry,
        output: target.output,
        window: target.window,
        width,
        height,
        bytes,
    }
}

/// No character of a number that is written is white space, a comma, or the letter between width
/// and height.
proof fn number_is_compact(n: int)
    ensures
        decimal_int(n).len() > 0,
        forall|i: int|
            0 <= i < decimal_int(n).len() ==> ({
                let c = #[trigger] decimal_int(n)[i];
                is_digit(c) || c == '-'
            }),
{
    if n < 0 {
        decimal_reads_back((-n) as nat);
        let s = decimal((-n) as nat);
        assert forall|i: int| 0 <= i < decimal_int(n).len() implies ({
            let c = #[trigger] decimal_int(n)[i];
            is_digit(c) || c == '-'
        }) by {
            reveal_strlit("-");
            if i > 0 {
                assert(decimal_int(n)[i] == s[i - 1]);
                assert(is_digit(s[i - 1]));
            }
        }
    } else {
        decimal_reads_back(n as nat);
    }
}

/// A text that neither begins nor ends with white space is trimmed to itself.
proof fn trimmed_already(s: Seq<char>)
    requires
        s.len() > 0,
        !is_white(s[0]),
        !is_white(s.last()),
    ensures
        trim_of(s) == s,
{
}

/// Where a text begins with one in which `c` does not occur, and `c` follows, it is split there.
proof fn split_at_separator(a: Seq<char>, c: char, b: Seq<char>)
    requires
        forall|i: int| 0 <= i < a.len() ==> a[i] != c,
    ensures
        first_of(a + seq![c] + b, c) == a.len(),
        before_first(a + seq![c] + b, c) == a,
        after_first(a + seq![c] + b, c) == b,
{
    let all = a + seq![c] + b;
    first_of_is_unique(all, c, a.len() as int);
    assert(before_first(all, c) =~= a);
    assert(after_first(all, c) =~= b);
}

/// A number that is written is read back after white space around it is taken off.
proof fn number_reads_back(n: i64)
    ensures
        signed_of(trim_of(decimal_int(n as int))) == Some(n as int),
{
    number_is_compact(n as int);
    let s = decimal_int(n as int);
    assert(!is_white(s[0]));
    assert(!is_white(s[s.len() - 1]));
    trimmed_already(s);
    signed_reads_back(n);
}

/// A rectangle that is written is read back.
pub proof fn a_rectangle_reads_back(x: i64, y: i64, width: i64, height: i64)
    ensures
        rectangle_of(geometry_text(x as int, y as int, width as int, height as int)) == Some(
            (x as int, y as int, width as int, height as int),
        ),
{
    reveal_strlit(",");
    reveal_strlit(" ");
    reveal_strlit("x");
    let all = geometry_text(x as int, y as int, width as int, height as int);
    let (a, b, c, d) = (
        decimal_int(x as int),
        decimal_int(y as int),
        decimal_int(width as int),
        decimal_int(height as int),
    );
    number_is_compact(x as int);
    number_is_compact(y as int);
    number_is_compact(width as int);
    number_is_compact(height as int);
    assert(","@ =~= seq![',']);
    assert(" "@ =~= seq![' ']);
    assert("x"@ =~= seq!['x']);
    let position = a + seq![','] + b;
    let size = c + seq!['x'] + d;
    assert(all =~= position + seq![' '] + size);
    assert(all[0] == a[0]);
    assert(all.last() == d[d.len() - 1]);
    assert(!is_white(all[0]));
    assert(!is_white(all.last()));
    trimmed_already(all);
    assert forall|i: int| 0 <= i < position.len() implies position[i] != ' ' by {
        if i < a.len() {
            assert(position[i] == a[i]);
        } else if i > a.len() {
            assert(position[i] == b[i - a.len() - 1]);
        }
    }
    split_at_separator(position, ' ', size);
    assert forall|i: int| 0 <= i < a.len() implies a[i] != ',' by {
        assert(is_digit(a[i]) || a[i] == '-');
    }
    split_at_separator(a, ',', b);
    assert forall|i: int| 0 <= i < c.len() implies c[i] != 'x' by {
        assert(is_digit(c[i]) || c[i] == '-');
    }
    split_at_separator(c, 'x', d);
    number_reads_back(x);
    number_reads_back(y);
    number_reads_back(width);
    number_reads_back(height);
}

/// A name without a separator that is not a step is its own file name.
proof fn plain_is_its_own_name(name: Seq<char>)
    requires
        is_plain_name(name),
    ensures
        file_name_of(name) == Some(name),
{
    first_of_is_unique(name, '/', name.len() as int);
    let parts = split_on(name, '/');
    assert(parts =~= seq![name]);
    assert(parts.last() == name);
}

/// A name that a dot and `png` end is that of an image.
proof fn png_is_an_image(name: Seq<char>)
    requires
        name.len() > 0,
        forall|i: int| 0 <= i < name.len() ==> name[i] != '/',
    ensures
        format_of(name + ".png"@) == Some("png"@),
{
    reveal_strlit(".png");
    reveal_strlit("png");
    reveal_strlit(".");
    reveal_strlit("..");
    let all = name + ".png"@;
    assert(all[name.len() as int + 1] == 'p');
    assert(is_plain_name(all));
    plain_is_its_own_name(all);
    last_of_is_unique(all, '.', name.len() as int);
    let extension = extension_of(all)->0;
    assert(extension =~= "png"@);
    assert(all_ascii(extension));
    assert(lower_of(extension) =~= "png"@);
}

/// Whatever the template becomes, a shot is called like an image and stays in its directory.
pub proof fn a_shot_is_an_image_in_its_directory(expanded: Seq<char>, now: nat)
    ensures
        format_of(image_name(expanded, now)) is Some,
        is_plain_name(image_name(expanded, now)),
{
    let name = base_name(expanded, now);
    reveal_strlit("/");
    reveal_strlit("screenshot-");
    reveal_strlit(".");
    reveal_strlit("..");
    reveal_strlit(".png");
    decimal_reads_back(now);
    assert forall|i: int| 0 <= i < name.len() implies name[i] != '/' by {
        if expanded.len() == 0 || has(expanded, "/"@) {
            let prefix = "screenshot-"@;
            if i >= prefix.len() {
                assert(name[i] == decimal(now)[i - prefix.len()]);
                assert(is_digit(decimal(now)[i - prefix.len()]));
            }
        } else if name[i] == '/' {
            assert(name.subrange(i, i + 1) =~= "/"@);
            assert(occurs_at(expanded, "/"@, i));
        }
    }
    if format_of(name) is Some {
        assert(is_plain_name(name)) by {
            first_of_is_unique(name, '/', name.len() as int);
            let parts = split_on(name, '/');
            assert(parts =~= seq![name]);
            assert(parts.last() == name);
            assert(parts.drop_last() =~= Seq::empty());
            assert(last_component(parts.drop_last()) is None);
            assert(name.len() > 0);
        }
    } else {
        png_is_an_image(name);
        assert((name + ".png"@)[name.len() as int + 1] == 'p');
    }
}

/// Nothing is overwritten, unless every name that is tried is taken.
pub proof fn nothing_is_overwritten(
    directory: Seq<char>,
    name: Seq<char>,
    taken: Seq<String>,
    now: nat,
    from: nat,
    free: nat,
)
    requires
        from <= free < 1000,
        !is_in(taken, nth_path(directory, name, free)),
    ensures
        !is_in(taken, free_path(directory, name, taken, now, from)),
    decreases free - from,
{
    if is_in(taken, nth_path(directory, name, from)) {
        nothing_is_overwritten(directory, name, taken, now, from + 1, free);
    }
}

/// No option of the programs that capture is another.
proof fn options_differ()
    ensures
        "-g"@ != "-o"@,
        "-g"@ != "-t"@,
        "-o"@ != "-t"@,
        "-g"@ != "-r"@,
        "-o"@ != "-r"@,
        "-g"@ != "-f"@,
        "-o"@ != "-f"@,
        "-r"@ != "-f"@,
{
    reveal_strlit("-g");
    reveal_strlit("-o");
    reveal_strlit("-t");
    reveal_strlit("-r");
    reveal_strlit("-f");
    assert("-g"@[1] == 'g' && "-o"@[1] == 'o' && "-t"@[1] == 't' && "-r"@[1] == 'r' && "-f"@[1]
        == 'f');
}

/// A target reaches the program that takes the picture: a monitor that it names follows `-o`, a
/// rectangle that it has follows `-g`, and the picture goes to the destination. The pointer is in it
/// where that was asked for, and this changes nothing else.
pub proof fn a_target_reaches_the_camera(destination: Seq<char>, target: Target, words: Seq<Seq<char>>)
    requires
        words == grim_words(destination, owned(target.geometry), owned(target.output), false),
    ensures
        target.output is Some ==> exists|i: int|
            0 <= i < words.len() - 1 && #[trigger] words[i] == "-o"@ && words[i + 1]
                == target.output->0@,
        target.geometry is Some ==> exists|i: int|
            0 <= i < words.len() - 1 && #[trigger] words[i] == "-g"@ && words[i + 1]
                == target.geometry->0@,
        words.last() == destination,
        grim_words(destination, owned(target.geometry), owned(target.output), true) == seq!["-c"@]
            + words,
        target.geometry is None && target.output is None ==> words.len() <= 3,
{
    if target.geometry is Some {
        assert(words[0] == "-g"@ && words[1] == target.geometry->0@);
    }
    if target.output is Some {
        let at: int = if target.geometry is Some { 2 } else { 0 };
        assert(words[at] == "-o"@ && words[at + 1] == target.output->0@);
    }
    assert(grim_words(destination, owned(target.geometry), owned(target.output), true) =~= seq![
        "-c"@,
    ] + words);
}

/// Targets that differ in their monitor or their rectangle are captured differently.
pub proof fn different_targets_are_captured_differently(
    destination: Seq<char>,
    a: Target,
    b: Target,
    cursor: bool,
)
    requires
        grim_words(destination, owned(a.geometry), owned(a.output), cursor) == grim_words(
            destination,
            owned(b.geometry),
            owned(b.output),
            cursor,
        ),
    ensures
        owned(a.geometry) == owned(b.geometry),
        owned(a.output) == owned(b.output),
{
    options_differ();
    let x = grim_words(destination, owned(a.geometry), owned(a.output), cursor);
    let y = grim_words(destination, owned(b.geometry), owned(b.output), cursor);
    let start: int = if cursor { 1 } else { 0 };
    assert(x.len() == y.len());
    assert(x[start] == y[start]);
    assert(x[start + 1] == y[start + 1] || x.len() == start + 1);
    if a.geometry is Some {
        assert(x[start] == "-g"@ && x[start + 1] == a.geometry->0@);
        if a.output is Some {
            assert(x[start + 2] == "-o"@ && x[start + 3] == a.output->0@);
        }
    } else if a.output is Some {
        assert(x[start] == "-o"@ && x[start + 1] == a.output->0@);
    }
    if b.geometry is Some {
        assert(y[start] == "-g"@ && y[start + 1] == b.geometry->0@);
        if b.output is Some {
            assert(y[start + 2] == "-o"@ && y[start + 3] == b.output->0@);
        }
    } else if b.output is Some {
        assert(y[start] == "-o"@ && y[start + 1] == b.output->0@);
    }
}

/// A whole monitor is captured as one: the one that was named, or else the focused one, and that
/// without asking.
pub proof fn a_whole_monitor_is_the_one_that_is_meant(
    r: Result<Step, String>,
    request: Request,
    screen: Screen,
    destination: Seq<char>,
    name: Seq<char>,
)
    requires
        is_first_step(r, request, screen),
        screen.grim,
        request.mode == Mode::Fullscreen,
        request.output is Some ==> name == request.output->0@,
        request.output is None ==> screen.focused is Some && name == screen.focused->0@,
    ensures
        r is Ok,
        r->Ok_0 is Capture,
        exists|i: int|
            0 <= i < grim_words(
                destination,
                owned(r->Ok_0->Capture_0.geometry),
                owned(r->Ok_0->Capture_0.output),
                false,
            ).len() - 1 && #[trigger] grim_words(
                destination,
                owned(r->Ok_0->Capture_0.geometry),
                owned(r->Ok_0->Capture_0.output),
                false,
            )[i] == "-o"@ && grim_words(
                destination,
                owned(r->Ok_0->Capture_0.geometry),
                owned(r->Ok_0->Capture_0.output),
                false,
            )[i + 1] == name,
        r->Ok_0->Capture_0.geometry is None,
{
    let target = r->Ok_0->Capture_0;
    a_target_reaches_the_camera(
        destination,
        target,
        grim_words(destination, owned(target.geometry), owned(target.output), false),
    );
}

/// Everything is captured as the whole layout, without a monitor or a rectangle and without asking.
pub proof fn everything_is_the_whole_layout(
    r: Result<Step, String>,
    request: Request,
    screen: Screen,
)
    requires
        is_first_step(r, request, screen),
        screen.grim,
        request.mode == Mode::All,
    ensures
        r matches Ok(Step::Capture(target)) && target.geometry is None && target.output is None
            && target.window is None,
{
}

/// The window that is captured without asking is the focused one: its rectangle reads back from the
/// target, and its title goes along.
pub proof fn the_focused_window_is_captured(
    r: Result<Step, String>,
    request: Request,
    screen: Screen,
    k: int,
)
    requires
        is_first_step(r, request, screen),
        screen.grim,
        request.mode == Mode::Window,
        !request.select,
        screen.regions is Some,
        0 <= k < screen.regions->0@.len(),
        screen.regions->0@[k].focused,
        forall|j: int| 0 <= j < k ==> !(#[trigger] screen.regions->0@[j]).focused,
    ensures
        r is Ok,
        r->Ok_0 is Capture,
        r->Ok_0->Capture_0.geometry is Some,
        rectangle_of(r->Ok_0->Capture_0.geometry->0@) == Some(
            (
                screen.regions->0@[k].x as int,
                screen.regions->0@[k].y as int,
                screen.regions->0@[k].width as int,
                screen.regions->0@[k].height as int,
            ),
        ),
        r->Ok_0->Capture_0.window is Some && r->Ok_0->Capture_0.window->0@
            == screen.regions->0@[k].title@,
        r->Ok_0->Capture_0.output is None,
{
    let regions = screen.regions->0@;
    focused_is_first(regions, k);
    a_rectangle_reads_back(regions[k].x, regions[k].y, regions[k].width, regions[k].height);
}

/// The first focused window is found.
proof fn focused_is_first(regions: Seq<WindowRegion>, k: int)
    requires
        0 <= k < regions.len(),
        regions[k].focused,
        forall|j: int| 0 <= j < k ==> !(#[trigger] regions[j]).focused,
    ensures
        focused_index(regions) == k,
    decreases k,
{
    if k > 0 {
        assert(!regions[0].focused);
        let rest = regions.drop_first();
        assert forall|j: int| 0 <= j < k - 1 implies !(#[trigger] rest[j]).focused by {
            assert(rest[j] == regions[j + 1]);
        }
        focused_is_first(rest, k - 1);
    }
}

/// A region is asked for, and what the user drags out is captured as it was dragged; nothing is
/// captured where the selection was cancelled.
pub proof fn a_region_is_what_was_dragged_out(
    first: Result<Step, String>,
    request: Request,
    screen: Screen,
    chosen: Option<String>,
    r: Option<Target>,
    regions: Seq<WindowRegion>,
)
    requires
        is_first_step(first, request, screen),
        screen.grim,
        screen.slurp,
        request.mode == Mode::Region,
        is_resumed(r, request, regions, chosen),
    ensures
        first matches Ok(Step::Select { arguments, boxes }) && arguments@.len() == 0 && boxes is None,
        chosen is None <==> r is None,
        chosen is Some ==> (r->0).geometry == chosen && (r->0).output is None && (r->0).window
            is None,
{
}

/// A window that is clicked on is captured: the rectangle of the target is that of the window whose
/// box was chosen.
pub proof fn the_window_that_was_clicked_is_captured(
    request: Request,
    regions: Seq<WindowRegion>,
    chosen: String,
    r: Option<Target>,
    k: int,
)
    requires
        request.mode == Mode::Window,
        is_resumed(r, request, regions, Some(chosen)),
        0 <= k < regions.len(),
        rectangle_of(chosen@) == Some(
            (
                regions[k].x as int,
                regions[k].y as int,
                regions[k].width as int,
                regions[k].height as int,
            ),
        ),
    ensures
        r is Some,
        (r->0).geometry is Some,
        rectangle_of((r->0).geometry->0@) == rectangle_of(chosen@),
        (r->0).output is None,
{
    let i = box_index(boxes_of(regions), chosen@);
    box_index_is_first(boxes_of(regions), chosen@);
    if i < regions.len() {
        assert(boxes_of(regions)[i] == chosen@);
    } else {
        a_rectangle_reads_back(regions[k].x, regions[k].y, regions[k].width, regions[k].height);
    }
}

/// `box_index` is the first index at which the box stands.
proof fn box_index_is_first(boxes: Seq<Seq<char>>, chosen: Seq<char>)
    ensures
        0 <= box_index(boxes, chosen) <= boxes.len(),
        box_index(boxes, chosen) < boxes.len() ==> boxes[box_index(boxes, chosen)] == chosen,
    decreases boxes.len(),
{
    if boxes.len() > 0 && boxes[0] != chosen {
        box_index_is_first(boxes.drop_first(), chosen);
    }
}

/// What is asked for goes before what is configured, and what is not saved never lands among the
/// pictures that are kept.
pub proof fn what_is_asked_for_goes_first(
    plan: Plan,
    request: Request,
    settings: Settings,
    scratch: Seq<char>,
)
    requires
        is_plan(plan, request, settings, scratch),
    ensures
        request.copy is Some ==> plan.copy == request.copy->0,
        request.save is Some ==> plan.save == request.save->0,
        request.notify is Some ==> plan.notify == request.notify->0,
        request.copy is None ==> plan.copy == settings.copy,
        request.save is None ==> plan.save == settings.save,
        request.notify is None ==> plan.notify == settings.notify,
        plan.save && request.directory is Some ==> plan.directory@ == request.directory->0@,
        plan.save && request.directory is None ==> plan.directory@ == settings.directory@,
        !plan.save ==> plan.directory@ == scratch,
{
}

/// What is answered of a capture is what was captured and what was done with it.
pub proof fn a_shot_tells_what_was_done(
    shot: Shot,
    request: Request,
    plan: Plan,
    target: Target,
    path: Seq<char>,
    announced: bool,
    size: Option<(u32, u32)>,
    bytes: u64,
)
    requires
        is_finished(shot, request, plan, target, path, announced, size, bytes),
    ensures
        !shot.cancelled,
        shot.saved <==> plan.save,
        shot.copied <==> plan.copy,
        shot.notified ==> announced,
        shot.path is Some && shot.path->0@ == path,
        shot.geometry == target.geometry && shot.output == target.output && shot.window
            == target.window,
        size matches Some((width, height)) ==> shot.width == width && shot.height == height,
        shot.bytes == bytes,
        mode_named(shot.mode@) == Some(request.mode),
{
    a_mode_reads_back(request.mode);
}

/// The name of a mode is read as that mode.
pub proof fn a_mode_reads_back(mode: Mode)
    ensures
        mode_named(mode.text()) == Some(mode),
{
    reveal_strlit("region");
    reveal_strlit("area");
    reveal_strlit("select");
    reveal_strlit("window");
    reveal_strlit("active");
    reveal_strlit("fullscreen");
    reveal_strlit("screen");
    reveal_strlit("monitor");
    reveal_strlit("output");
    reveal_strlit("display");
    reveal_strlit("all");
    reveal_strlit("everything");
    reveal_strlit("desktop");
    assert("region"@.len() == 6 && "area"@.len() == 4 && "select"@.len() == 6 && "window"@.len()
        == 6 && "active"@.len() == 6 && "fullscreen"@.len() == 10 && "screen"@.len() == 6
        && "monitor"@.len() == 7 && "output"@.len() == 6 && "display"@.len() == 7 && "all"@.len()
        == 3 && "everything"@.len() == 10 && "desktop"@.len() == 7);
    assert("window"@[0] == 'w' && "region"@[0] == 'r' && "select"@[0] == 's' && "active"@[0] == 'a'
        && "screen"@[0] == 's' && "output"@[0] == 'o');
    assert("fullscreen"@[0] == 'f' && "everything"@[0] == 'e');
}

/// Of the shots that were only copied as many as are kept stay, and each that goes was there and is
/// no newer than any that stays.
pub proof fn only_the_oldest_go(
    gone: Seq<(i128, String)>,
    files: Seq<(i128, String)>,
    keep: nat,
    g: int,
)
    requires
        is_pruned(gone, files, keep),
        0 <= g < gone.len(),
        files.len() <= usize::MAX,
    ensures
        gone.len() == files.len() - keep,
        files.contains(gone[g]),
        exists|stays: Set<int>|
            #![trigger stays.len()]
            stays.finite() && stays.len() == keep && forall|i: int| #[trigger]
                stays.contains(i) ==> 0 <= i < files.len() && files[i].0 >= gone[g].0,
{
    let order = choose|order: Seq<usize>| #[trigger]
        sorts(order, ages(files)) && gone == pruned(files, order, keep);
    let first = order.take(keep as int).map_values(|i: usize| i as int);
    assert(first.no_duplicates()) by {
        assert forall|a: int, b: int| 0 <= a < first.len() && 0 <= b < first.len() && a
            != b implies first[a] != first[b] by {
            assert(order[a] != order[b]);
        }
    }
    let stays = first.to_set();
    first.unique_seq_to_set();
    assert forall|i: int| #[trigger] stays.contains(i) implies 0 <= i < files.len() && files[i].0
        >= gone[g].0 by {
        let a = choose|a: int| 0 <= a < first.len() && first[a] == i;
        assert(order[a] == i);
        pruning_keeps_the_newest(files, order, keep, a, g);
    }
    assert(gone[g] == files[order[keep + g] as int]);
}

/// The dimensions that a PNG states are read: a file that begins as one does and has the width and
/// the height behind that, the greater digits first, is of that width and height.
pub proof fn the_size_of_a_picture_is_read(
    r: Option<(u32, u32)>,
    raw: Seq<u8>,
    width: u32,
    height: u32,
)
    requires
        is_png_size(r, raw),
        raw.len() >= 24,
        raw.subrange(0, 8) == seq![0x89u8, 0x50, 0x4e, 0x47, 0x0d, 0x0a, 0x1a, 0x0a],
        raw.subrange(12, 16) == seq![0x49u8, 0x48, 0x44, 0x52],
        width == 0x100_0000 * raw[16] + 0x1_0000 * raw[17] + 0x100 * raw[18] + raw[19],
        height == 0x100_0000 * raw[20] + 0x1_0000 * raw[21] + 0x100 * raw[22] + raw[23],
    ensures
        r == Some((width, height)),
{
    let w = raw.subrange(16, 20);
    let h = raw.subrange(20, 24);
    assert(w[0] == raw[16] && w[1] == raw[17] && w[2] == raw[18] && w[3] == raw[19]);
    assert(h[0] == raw[20] && h[1] == raw[21] && h[2] == raw[22] && h[3] == raw[23]);
}

/// What the user selected is taken as it was printed, without white space around it, and a selection
/// that was called off is no failure.
pub proof fn a_selection_is_taken_as_it_is(
    r: Result<Option<String>, String>,
    success: bool,
    chosen: Seq<char>,
    detail: Seq<char>,
)
    requires
        is_selection(r, success, chosen, detail),
    ensures
        chosen.len() > 0 ==> (r matches Ok(Some(s)) && s@ == chosen),
        chosen.len() == 0 && success ==> (r matches Ok(None)),
        chosen.len() == 0 && detail.len() == 0 ==> (r matches Ok(None)),
        r is Err ==> !success && chosen.len() == 0,
{
}

/// A picture whose name is free is called so; what the template became is how it is called, with an
/// ending added where it has none that a picture can have.
pub proof fn a_shot_is_called_as_the_template_says(
    directory: Seq<char>,
    expanded: Seq<char>,
    now: nat,
    taken: Seq<String>,
)
    requires
        expanded.len() > 0,
        expanded.len() > 0 && !(has(expanded, "/"@)),
        !is_in(taken, joined_path(directory, image_name(expanded, now))),
    ensures
        image_name(expanded, now) == expanded || image_name(expanded, now) == expanded + ".png"@,
        free_path(directory, image_name(expanded, now), taken, now, 0) == joined_path(
            directory,
            image_name(expanded, now),
        ),
{
    assert(nth_path(directory, image_name(expanded, now), 0) == joined_path(
        directory,
        image_name(expanded, now),
    ));
}

/// A notification of a shot says what was done with it, and claims nothing that was not.
pub proof fn a_notification_says_what_was_done(
    path: Seq<char>,
    width: nat,
    height: nat,
    saved: bool,
    copied: bool,
    name: Seq<char>,
)
    requires
        file_name_of(path) == Some(name),
        name.len() > 0,
    ensures
        has(summary_of(saved, copied), "saved"@) <==> saved,
        has(summary_of(saved, copied), "copied"@) <==> copied,
        begins_with(summary_of(saved, copied), "Screenshot "@),
        saved ==> begins_with(body_of(path, saved, width, height), name),
        !saved && width > 0 && height > 0 ==> body_of(path, saved, width, height) == decimal(width)
            + "×"@ + decimal(height),
        saved && width > 0 && height > 0 ==> body_of(path, saved, width, height) == name + " · "@
            + decimal(width) + "×"@ + decimal(height),
{
    reveal_strlit("Screenshot saved and copied");
    reveal_strlit("Screenshot saved");
    reveal_strlit("Screenshot copied");
    reveal_strlit("Screenshot taken");
    reveal_strlit("Screenshot ");
    reveal_strlit("saved");
    reveal_strlit("copied");
    let s = summary_of(saved, copied);
    assert(s.subrange(0, 11) =~= "Screenshot "@);
    if saved {
        assert(s.subrange(11, 16) =~= "saved"@);
        assert(occurs_at(s, "saved"@, 11));
    } else if has(s, "saved"@) {
        let i = choose|i: int| occurs_at(s, "saved"@, i);
        assert(s.subrange(i, i + 5)[2] == s[i + 2]);
        assert("saved"@[2] == 'v');
    }
    if copied {
        let at: int = if saved {
            21
        } else {
            11
        };
        assert(s.subrange(at, at + 6) =~= "copied"@);
        assert(occurs_at(s, "copied"@, at));
    } else if has(s, "copied"@) {
        let i = choose|i: int| occurs_at(s, "copied"@, i);
        assert(s.subrange(i, i + 6)[2] == s[i + 2]);
        assert("copied"@[2] == 'p');
    }
    let body = body_of(path, saved, width, height);
    if saved {
        assert(body.subrange(0, name.len() as int) =~= name);
        if width > 0 && height > 0 {
            assert(body =~= name + " · "@ + decimal(width) + "×"@ + decimal(height));
        }
    }
}

/// What `date` made of a template is taken without the white space around it.
pub proof fn what_date_says_is_taken(printed: Seq<u8>)
    ensures
        expansion_of(Some(printed)) == trim_of(lossy_of(printed)),
        expansion_of(None) == Seq::<char>::empty(),
{
}

/// A shot that was called off tells that, and that nothing came of it.
pub proof fn what_was_called_off_leaves_nothing(shot: Shot, mode: Mode)
    requires
        shot.is_cancelled(mode),
    ensures
        shot.cancelled,
        shot.mode@ == mode.text(),
        shot.path is None,
        !shot.saved && !shot.copied && !shot.notified,
        shot.width == 0 && shot.height == 0 && shot.bytes == 0,
{
}

/// An image is copied as what it is: by the extension of its file, in whatever case.
pub proof fn an_image_is_copied_as_what_it_is(path: Seq<char>, name: Seq<char>, extension: Seq<char>)
    requires
        file_name_of(path) == Some(name),
        extension_of(name) == Some(extension),
    ensures
        lower_of(extension) == "jpg"@ || lower_of(extension) == "jpeg"@ ==> mime_of(path)
            == "image/jpeg"@,
        lower_of(extension) == "png"@ ==> mime_of(path) == "image/png"@,
        lower_of(extension) == "ppm"@ ==> mime_of(path) == "image/x-portable-pixmap"@,
{
    reveal_strlit("png");
    reveal_strlit("jpg");
    reveal_strlit("jpeg");
    reveal_strlit("ppm");
    assert("png"@[0] == 'p' && "jpg"@[0] == 'j' && "ppm"@[0] == 'p' && "jpeg"@[0] == 'j');
    assert("png"@[1] == 'n' && "ppm"@[1] == 'p' && "jpeg"@.len() == 4 && "ppm"@.len() == 3);
}

} // verus!
