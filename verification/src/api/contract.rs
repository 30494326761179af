//! What the API offers: its groups, their methods and the parameters of those.

use vstd::prelude::*;

verus! {

/// A method of a group.
#[derive(Debug)]
pub struct Method {
    pub name: &'static str,
    pub summary: &'static str,
    /// The name and the description of each parameter.
    pub params: Vec<(&'static str, &'static str)>,
    /// Whether the method answers many times over a connection that stays open.
    pub streaming: bool,
}

/// What a method is.
#[verifier::ext_equal]
pub struct MethodModel {
    pub name: Seq<char>,
    pub summary: Seq<char>,
    pub params: Seq<(Seq<char>, Seq<char>)>,
    pub streaming: bool,
}

/// What some parameters are.
pub open spec fn param_models(params: Seq<(&'static str, &'static str)>) -> Seq<
    (Seq<char>, Seq<char>),
> {
    params.map_values(|p: (&'static str, &'static str)| (p.0@, p.1@))
}

impl View for Method {
    type V = MethodModel;

    open spec fn view(&self) -> MethodModel {
        MethodModel {
            name: self.name@,
            summary: self.summary@,
            params: param_models(self.params@),
            streaming: self.streaming,
        }
    }
}

/// What some methods are.
pub open spec fn method_models(methods: Seq<Method>) -> Seq<MethodModel> {
    methods.map_values(|m: Method| m@)
}

/// A group of methods.
#[derive(Debug)]
pub struct Group {
    pub name: &'static str,
    pub summary: &'static str,
    pub methods: Vec<Method>,
}

/// What a group is.
#[verifier::ext_equal]
pub struct GroupModel {
    pub name: Seq<char>,
    pub summary: Seq<char>,
    pub methods: Seq<MethodModel>,
}

impl View for Group {
    type V = GroupModel;

    open spec fn view(&self) -> GroupModel {
        GroupModel {
            name: self.name@,
            summary: self.summary@,
            methods: method_models(self.methods@),
        }
    }
}

/// What some groups are.
pub open spec fn group_models(groups: Seq<Group>) -> Seq<GroupModel> {
    groups.map_values(|g: Group| g@)
}

/// A method without parameters.
fn method(name: &'static str, summary: &'static str) -> (r: Method)
    ensures
        r@ == (MethodModel {
            name: name@,
            summary: summary@,
            params: Seq::empty(),
            streaming: false,
        }),
{
    let r = Method { name, summary, params: Vec::new(), streaming: false };
    assert(r@.params =~= Seq::empty());
    r
}

/// A method that streams.
fn streaming(name: &'static str, summary: &'static str) -> (r: Method)
    ensures
        r@ == (MethodModel {
            name: name@,
            summary: summary@,
            params: Seq::empty(),
            streaming: true,
        }),
{
    let r = Method { name, summary, params: Vec::new(), streaming: true };
    assert(r@.params =~= Seq::empty());
    r
}

/// A group of methods.
fn group_of(name: &'static str, summary: &'static str, methods: Vec<Method>) -> (r: Group)
    ensures
        r@ == (GroupModel {
            name: name@,
            summary: summary@,
            methods: method_models(methods@),
        }),
{
    Group { name, summary, methods }
}

/// The methods of the compositor group.
pub open spec fn compositor_methods() -> Seq<MethodModel> {
    seq![
        MethodModel {
            name: "windows"@,
            summary: "Every open window, normalized"@,
            params: Seq::empty(),
            streaming: false,
        },
        MethodModel {
            name: "activeWindow"@,
            summary: "The focused window, or null"@,
            params: Seq::empty(),
            streaming: false,
        },
        MethodModel {
            name: "workspaces"@,
            summary: "Every workspace"@,
            params: Seq::empty(),
            streaming: false,
        },
        MethodModel {
            name: "monitors"@,
            summary: "Every monitor"@,
            params: Seq::empty(),
            streaming: false,
        },
        MethodModel {
            name: "focusWindow"@,
            summary: "Focus a window by id"@,
            params: seq![
                ("id"@, "string, from compositor.windows"@),
            ],
            streaming: false,
        },
        MethodModel {
            name: "closeWindow"@,
            summary: "Close a window by id"@,
            params: seq![
                ("id"@, "string, from compositor.windows"@),
            ],
            streaming: false,
        },
        MethodModel {
            name: "focusWorkspace"@,
            summary: "Switch to a workspace by id or name"@,
            params: seq![
                ("id"@, "string, from compositor.workspaces, or a bare name"@),
            ],
            streaming: false,
        },
        MethodModel {
            name: "subscribe"@,
            summary: "Stream normalized state whenever the compositor changes"@,
            params: Seq::empty(),
            streaming: true,
        },
    ]
}

/// The methods of the compositor group.
fn compositor_list() -> (r: Vec<Method>)
    ensures
        method_models(r@) == compositor_methods(),
{
    let mut out: Vec<Method> = Vec::new();
    out.push(method("windows", "Every open window, normalized"));
    out.push(method("activeWindow", "The focused window, or null"));
    out.push(method("workspaces", "Every workspace"));
    out.push(method("monitors", "Every monitor"));
    let mut params: Vec<(&'static str, &'static str)> = Vec::new();
    params.push(("id", "string, from compositor.windows"));
    assert(param_models(params@) =~= seq![
        ("id"@, "string, from compositor.windows"@),
    ]);
    out.push(Method { name: "focusWindow", summary: "Focus a window by id", params, streaming: false });
    let mut params: Vec<(&'static str, &'static str)> = Vec::new();
    params.push(("id", "string, from compositor.windows"));
    assert(param_models(params@) =~= seq![
        ("id"@, "string, from compositor.windows"@),
    ]);
    out.push(Method { name: "closeWindow", summary: "Close a window by id", params, streaming: false });
    let mut params: Vec<(&'static str, &'static str)> = Vec::new();
    params.push(("id", "string, from compositor.workspaces, or a bare name"));
    assert(param_models(params@) =~= seq![
        ("id"@, "string, from compositor.workspaces, or a bare name"@),
    ]);
    out.push(Method { name: "focusWorkspace", summary: "Switch to a workspace by id or name", params, streaming: false });
    out.push(streaming("subscribe", "Stream normalized state whenever the compositor changes"));
    assert(method_models(out@) =~= compositor_methods());
    out
}

/// The methods of the tailscale group.
pub open spec fn tailscale_methods() -> Seq<MethodModel> {
    seq![
        MethodModel {
            name: "status"@,
            summary: "Backend state, tailnet, exit node, health"@,
            params: Seq::empty(),
            streaming: false,
        },
        MethodModel {
            name: "machines"@,
            summary: "Every machine in the tailnet"@,
            params: Seq::empty(),
            streaming: false,
        },
        MethodModel {
            name: "up"@,
            summary: "Bring Tailscale up"@,
            params: Seq::empty(),
            streaming: false,
        },
        MethodModel {
            name: "down"@,
            summary: "Bring Tailscale down"@,
            params: Seq::empty(),
            streaming: false,
        },
        MethodModel {
            name: "pendingFiles"@,
            summary: "Files waiting in the Taildrop inbox"@,
            params: Seq::empty(),
            streaming: false,
        },
        MethodModel {
            name: "receive"@,
            summary: "Receive waiting Taildrop files into a directory"@,
            params: seq![
                ("directory"@, "target directory"@),
            ],
            streaming: false,
        },
        MethodModel {
            name: "send"@,
            summary: "Send files to a peer with Taildrop"@,
            params: seq![
                ("peer"@, "string, a name from tailscale.machines"@),
                ("files"@, "array of absolute paths"@),
            ],
            streaming: false,
        },
    ]
}

/// The methods of the tailscale group.
fn tailscale_list() -> (r: Vec<Method>)
    ensures
        method_models(r@) == tailscale_methods(),
{
    let mut out: Vec<Method> = Vec::new();
    out.push(method("status", "Backend state, tailnet, exit node, health"));
    out.push(method("machines", "Every machine in the tailnet"));
    out.push(method("up", "Bring Tailscale up"));
    out.push(method("down", "Bring Tailscale down"));
    out.push(method("pendingFiles", "Files waiting in the Taildrop inbox"));
    let mut params: Vec<(&'static str, &'static str)> = Vec::new();
    params.push(("directory", "target directory"));
    assert(param_models(params@) =~= seq![
        ("directory"@, "target directory"@),
    ]);
    out.push(Method { name: "receive", summary: "Receive waiting Taildrop files into a directory", params, streaming: false });
    let mut params: Vec<(&'static str, &'static str)> = Vec::new();
    params.push(("peer", "string, a name from tailscale.machines"));
    params.push(("files", "array of absolute paths"));
    assert(param_models(params@) =~= seq![
        ("peer"@, "string, a name from tailscale.machines"@),
        ("files"@, "array of absolute paths"@),
    ]);
    out.push(Method { name: "send", summary: "Send files to a peer with Taildrop", params, streaming: false });
    assert(method_models(out@) =~= tailscale_methods());
    out
}

/// The methods of the capture group.
pub open spec fn capture_methods() -> Seq<MethodModel> {
    seq![
        MethodModel {
            name: "screenshot"@,
            summary: "Take a screenshot, save it, and put it on the clipboard"@,
            params: seq![
                ("mode"@, "optional string: region (default), window, fullscreen, or all"@),
                ("output"@, "optional string, a monitor name from compositor.monitors; fullscreen only"@),
                ("select"@, "optional bool; in window mode, click the window instead of taking the focused one"@),
                ("cursor"@, "optional bool; include the pointer"@),
                ("delay"@, "optional number of seconds to wait before capturing"@),
                ("copy"@, "optional bool, defaulting to screenshot_copy"@),
                ("save"@, "optional bool, defaulting to screenshot_save"@),
                ("directory"@, "optional string; where to save this shot, defaulting to screenshot_dir"@),
                ("notify"@, "optional bool, defaulting to screenshot_notify"@),
            ],
            streaming: false,
        },
        MethodModel {
            name: "ocr"@,
            summary: "Capture a region and copy the text read out of it"@,
            params: seq![
                ("mode"@, "optional string: region (default), window, fullscreen, or all"@),
                ("language"@, "optional tesseract language, defaulting to ocr_language; join several with +"@),
                ("select"@, "optional bool; click the window instead of taking the focused one"@),
                ("delay"@, "optional number of seconds to wait before capturing"@),
                ("copy"@, "optional bool, defaulting to screenshot_copy"@),
                ("save"@, "optional bool; keep the captured image too, off by default"@),
                ("notify"@, "optional bool, defaulting to screenshot_notify"@),
            ],
            streaming: false,
        },
        MethodModel {
            name: "record"@,
            summary: "Start recording the screen"@,
            params: seq![
                ("mode"@, "optional string: region (default), window, fullscreen, or all"@),
                ("output"@, "optional string, a monitor name from compositor.monitors; fullscreen only"@),
                ("select"@, "optional bool; click the window instead of taking the focused one"@),
                ("delay"@, "optional number of seconds to wait before starting"@),
                ("directory"@, "optional string; where to write, defaulting to recording_dir"@),
            ],
            streaming: false,
        },
        MethodModel {
            name: "stopRecording"@,
            summary: "Stop the recording in progress and finish the file"@,
            params: seq![
                ("notify"@, "optional bool, defaulting to recording_notify"@),
            ],
            streaming: false,
        },
        MethodModel {
            name: "recording"@,
            summary: "What is being recorded right now, if anything"@,
            params: Seq::empty(),
            streaming: false,
        },
        MethodModel {
            name: "status"@,
            summary: "Where screenshots land, which capture tools are installed, and what this compositor supports"@,
            params: Seq::empty(),
            streaming: false,
        },
    ]
}

/// The methods of the capture group.
fn capture_list() -> (r: Vec<Method>)
    ensures
        method_models(r@) == capture_methods(),
{
    let mut out: Vec<Method> = Vec::new();
    let mut params: Vec<(&'static str, &'static str)> = Vec::new();
    params.push(("mode", "optional string: region (default), window, fullscreen, or all"));
    params.push(("output", "optional string, a monitor name from compositor.monitors; fullscreen only"));
    params.push(("select", "optional bool; in window mode, click the window instead of taking the focused one"));
    params.push(("cursor", "optional bool; include the pointer"));
    params.push(("delay", "optional number of seconds to wait before capturing"));
    params.push(("copy", "optional bool, defaulting to screenshot_copy"));
    params.push(("save", "optional bool, defaulting to screenshot_save"));
    params.push(("directory", "optional string; where to save this shot, defaulting to screenshot_dir"));
    params.push(("notify", "optional bool, defaulting to screenshot_notify"));
    assert(param_models(params@) =~= seq![
        ("mode"@, "optional string: region (default), window, fullscreen, or all"@),
        ("output"@, "optional string, a monitor name from compositor.monitors; fullscreen only"@),
        ("select"@, "optional bool; in window mode, click the window instead of taking the focused one"@),
        ("cursor"@, "optional bool; include the pointer"@),
        ("delay"@, "optional number of seconds to wait before capturing"@),
        ("copy"@, "optional bool, defaulting to screenshot_copy"@),
        ("save"@, "optional bool, defaulting to screenshot_save"@),
        ("directory"@, "optional string; where to save this shot, defaulting to screenshot_dir"@),
        ("notify"@, "optional bool, defaulting to screenshot_notify"@),
    ]);
    out.push(Method { name: "screenshot", summary: "Take a screenshot, save it, and put it on the clipboard", params, streaming: false });
    let mut params: Vec<(&'static str, &'static str)> = Vec::new();
    params.push(("mode", "optional string: region (default), window, fullscreen, or all"));
    params.push(("language", "optional tesseract language, defaulting to ocr_language; join several with +"));
    params.push(("select", "optional bool; click the window instead of taking the focused one"));
    params.push(("delay", "optional number of seconds to wait before capturing"));
    params.push(("copy", "optional bool, defaulting to screenshot_copy"));
    params.push(("save", "optional bool; keep the captured image too, off by default"));
    params.push(("notify", "optional bool, defaulting to screenshot_notify"));
    assert(param_models(params@) =~= seq![
        ("mode"@, "optional string: region (default), window, fullscreen, or all"@),
        ("language"@, "optional tesseract language, defaulting to ocr_language; join several with +"@),
        ("select"@, "optional bool; click the window instead of taking the focused one"@),
        ("delay"@, "optional number of seconds to wait before capturing"@),
        ("copy"@, "optional bool, defaulting to screenshot_copy"@),
        ("save"@, "optional bool; keep the captured image too, off by default"@),
        ("notify"@, "optional bool, defaulting to screenshot_notify"@),
    ]);
    out.push(Method { name: "ocr", summary: "Capture a region and copy the text read out of it", params, streaming: false });
    let mut params: Vec<(&'static str, &'static str)> = Vec::new();
    params.push(("mode", "optional string: region (default), window, fullscreen, or all"));
    params.push(("output", "optional string, a monitor name from compositor.monitors; fullscreen only"));
    params.push(("select", "optional bool; click the window instead of taking the focused one"));
    params.push(("delay", "optional number of seconds to wait before starting"));
    params.push(("directory", "optional string; where to write, defaulting to recording_dir"));
    assert(param_models(params@) =~= seq![
        ("mode"@, "optional string: region (default), window, fullscreen, or all"@),
        ("output"@, "optional string, a monitor name from compositor.monitors; fullscreen only"@),
        ("select"@, "optional bool; click the window instead of taking the focused one"@),
        ("delay"@, "optional number of seconds to wait before starting"@),
        ("directory"@, "optional string; where to write, defaulting to recording_dir"@),
    ]);
    out.push(Method { name: "record", summary: "Start recording the screen", params, streaming: false });
    let mut params: Vec<(&'static str, &'static str)> = Vec::new();
    params.push(("notify", "optional bool, defaulting to recording_notify"));
    assert(param_models(params@) =~= seq![
        ("notify"@, "optional bool, defaulting to recording_notify"@),
    ]);
    out.push(Method { name: "stopRecording", summary: "Stop the recording in progress and finish the file", params, streaming: false });
    out.push(method("recording", "What is being recorded right now, if anything"));
    out.push(method("status", "Where screenshots land, which capture tools are installed, and what this compositor supports"));
    assert(method_models(out@) =~= capture_methods());
    out
}

/// The methods of the localsend group.
pub open spec fn localsend_methods() -> Seq<MethodModel> {
    seq![
        MethodModel {
            name: "devices"@,
            summary: "Discover LocalSend devices on the network"@,
            params: Seq::empty(),
            streaming: false,
        },
        MethodModel {
            name: "status"@,
            summary: "Whether this machine is accepting transfers, and where they land"@,
            params: Seq::empty(),
            streaming: false,
        },
        MethodModel {
            name: "pending"@,
            summary: "Transfers waiting for someone to accept them"@,
            params: Seq::empty(),
            streaming: false,
        },
        MethodModel {
            name: "accept"@,
            summary: "Accept a waiting transfer"@,
            params: seq![
                ("session"@, "string, from localsend.pending"@),
                ("directory"@, "optional string; where to save this transfer, defaulting to localsend_download_dir"@),
            ],
            streaming: false,
        },
        MethodModel {
            name: "decline"@,
            summary: "Decline a waiting transfer"@,
            params: seq![
                ("session"@, "string, from localsend.pending"@),
            ],
            streaming: false,
        },
        MethodModel {
            name: "received"@,
            summary: "Files accepted since the daemon started"@,
            params: Seq::empty(),
            streaming: false,
        },
        MethodModel {
            name: "startReceiving"@,
            summary: "Start accepting transfers, binding the LocalSend port"@,
            params: Seq::empty(),
            streaming: false,
        },
        MethodModel {
            name: "stopReceiving"@,
            summary: "Stop accepting and release the port, so the LocalSend app can use it"@,
            params: Seq::empty(),
            streaming: false,
        },
        MethodModel {
            name: "send"@,
            summary: "Send files to a device"@,
            params: seq![
                ("device"@, "string, an alias from localsend.devices"@),
                ("files"@, "array of absolute paths"@),
            ],
            streaming: false,
        },
    ]
}

/// The methods of the localsend group.
fn localsend_list() -> (r: Vec<Method>)
    ensures
        method_models(r@) == localsend_methods(),
{
    let mut out: Vec<Method> = Vec::new();
    out.push(method("devices", "Discover LocalSend devices on the network"));
    out.push(method("status", "Whether this machine is accepting transfers, and where they land"));
    out.push(method("pending", "Transfers waiting for someone to accept them"));
    let mut params: Vec<(&'static str, &'static str)> = Vec::new();
    params.push(("session", "string, from localsend.pending"));
    params.push(("directory", "optional string; where to save this transfer, defaulting to localsend_download_dir"));
    assert(param_models(params@) =~= seq![
        ("session"@, "string, from localsend.pending"@),
        ("directory"@, "optional string; where to save this transfer, defaulting to localsend_download_dir"@),
    ]);
    out.push(Method { name: "accept", summary: "Accept a waiting transfer", params, streaming: false });
    let mut params: Vec<(&'static str, &'static str)> = Vec::new();
    params.push(("session", "string, from localsend.pending"));
    assert(param_models(params@) =~= seq![
        ("session"@, "string, from localsend.pending"@),
    ]);
    out.push(Method { name: "decline", summary: "Decline a waiting transfer", params, streaming: false });
    out.push(method("received", "Files accepted since the daemon started"));
    out.push(method("startReceiving", "Start accepting transfers, binding the LocalSend port"));
    out.push(method("stopReceiving", "Stop accepting and release the port, so the LocalSend app can use it"));
    let mut params: Vec<(&'static str, &'static str)> = Vec::new();
    params.push(("device", "string, an alias from localsend.devices"));
    params.push(("files", "array of absolute paths"));
    assert(param_models(params@) =~= seq![
        ("device"@, "string, an alias from localsend.devices"@),
        ("files"@, "array of absolute paths"@),
    ]);
    out.push(Method { name: "send", summary: "Send files to a device", params, streaming: false });
    assert(method_models(out@) =~= localsend_methods());
    out
}

/// The methods of the nix group.
pub open spec fn nix_methods() -> Seq<MethodModel> {
    seq![
        MethodModel {
            name: "status"@,
            summary: "Flake update state, from the last check; answers from memory"@,
            params: Seq::empty(),
            streaming: false,
        },
        MethodModel {
            name: "check"@,
            summary: "Resolve every flake input and report what could be updated"@,
            params: Seq::empty(),
            streaming: false,
        },
        MethodModel {
            name: "update"@,
            summary: "Run the configured update command in a terminal"@,
            params: Seq::empty(),
            streaming: false,
        },
        MethodModel {
            name: "rebuild"@,
            summary: "Run the configured rebuild command in a terminal"@,
            params: seq![
                ("host"@, "optional string, a name from nix.hosts; replaces %HOST% in nix_rebuild_command"@),
            ],
            streaming: false,
        },
        MethodModel {
            name: "hosts"@,
            summary: "The hosts this flake defines, for the rebuild action"@,
            params: Seq::empty(),
            streaming: false,
        },
    ]
}

/// The methods of the nix group.
fn nix_list() -> (r: Vec<Method>)
    ensures
        method_models(r@) == nix_methods(),
{
    let mut out: Vec<Method> = Vec::new();
    out.push(method("status", "Flake update state, from the last check; answers from memory"));
    out.push(method("check", "Resolve every flake input and report what could be updated"));
    out.push(method("update", "Run the configured update command in a terminal"));
    let mut params: Vec<(&'static str, &'static str)> = Vec::new();
    params.push(("host", "optional string, a name from nix.hosts; replaces %HOST% in nix_rebuild_command"));
    assert(param_models(params@) =~= seq![
        ("host"@, "optional string, a name from nix.hosts; replaces %HOST% in nix_rebuild_command"@),
    ]);
    out.push(Method { name: "rebuild", summary: "Run the configured rebuild command in a terminal", params, streaming: false });
    out.push(method("hosts", "The hosts this flake defines, for the rebuild action"));
    assert(method_models(out@) =~= nix_methods());
    out
}

/// The methods of the system group.
pub open spec fn system_methods() -> Seq<MethodModel> {
    seq![
        MethodModel {
            name: "power"@,
            summary: "CPU power state: profile, governor, energy preference, turbo, and what is managing them"@,
            params: Seq::empty(),
            streaming: false,
        },
        MethodModel {
            name: "stayAwake"@,
            summary: "Whether the machine is being held out of idle and sleep"@,
            params: Seq::empty(),
            streaming: false,
        },
        MethodModel {
            name: "hardware"@,
            summary: "What machine this is, and how its battery has worn"@,
            params: Seq::empty(),
            streaming: false,
        },
        MethodModel {
            name: "firmware"@,
            summary: "Firmware updates fwupd is offering"@,
            params: seq![
                ("refresh"@, "optional bool; skip the cached answer"@),
            ],
            streaming: false,
        },
        MethodModel {
            name: "setStayAwake"@,
            summary: "Hold the machine awake, or let it idle again"@,
            params: seq![
                ("enabled"@, "optional bool; omit to toggle"@),
                ("reason"@, "optional string shown in systemd-inhibit --list"@),
                ("notify"@, "optional bool, defaulting to true"@),
            ],
            streaming: false,
        },
    ]
}

/// The methods of the system group.
fn system_list() -> (r: Vec<Method>)
    ensures
        method_models(r@) == system_methods(),
{
    let mut out: Vec<Method> = Vec::new();
    out.push(method("power", "CPU power state: profile, governor, energy preference, turbo, and what is managing them"));
    out.push(method("stayAwake", "Whether the machine is being held out of idle and sleep"));
    out.push(method("hardware", "What machine this is, and how its battery has worn"));
    let mut params: Vec<(&'static str, &'static str)> = Vec::new();
    params.push(("refresh", "optional bool; skip the cached answer"));
    assert(param_models(params@) =~= seq![
        ("refresh"@, "optional bool; skip the cached answer"@),
    ]);
    out.push(Method { name: "firmware", summary: "Firmware updates fwupd is offering", params, streaming: false });
    let mut params: Vec<(&'static str, &'static str)> = Vec::new();
    params.push(("enabled", "optional bool; omit to toggle"));
    params.push(("reason", "optional string shown in systemd-inhibit --list"));
    params.push(("notify", "optional bool, defaulting to true"));
    assert(param_models(params@) =~= seq![
        ("enabled"@, "optional bool; omit to toggle"@),
        ("reason"@, "optional string shown in systemd-inhibit --list"@),
        ("notify"@, "optional bool, defaulting to true"@),
    ]);
    out.push(Method { name: "setStayAwake", summary: "Hold the machine awake, or let it idle again", params, streaming: false });
    assert(method_models(out@) =~= system_methods());
    out
}

/// Every group of the contract. Those that nothing implements yet are declared, so that callers can
/// tell what is planned.
pub open spec fn contract() -> Seq<GroupModel> {
    seq![
        GroupModel {
            name: "compositor"@,
            summary: "Normalized window, workspace, and monitor state"@,
            methods: compositor_methods(),
        },
        GroupModel {
            name: "tailscale"@,
            summary: "Tailnet status, machines, and Taildrop"@,
            methods: tailscale_methods(),
        },
        GroupModel {
            name: "capture"@,
            summary: "Screenshots, OCR, colour picking, and recording"@,
            methods: capture_methods(),
        },
        GroupModel {
            name: "localsend"@,
            summary: "LocalSend device discovery and transfers"@,
            methods: localsend_methods(),
        },
        GroupModel {
            name: "dev"@,
            summary: "Project discovery and developer workflows"@,
            methods: Seq::empty(),
        },
        GroupModel {
            name: "nix"@,
            summary: "Flake update status and rebuilds"@,
            methods: nix_methods(),
        },
        GroupModel {
            name: "system"@,
            summary: "Power profiles and system state"@,
            methods: system_methods(),
        },
    ]
}

/// Every group of the contract.
pub fn groups() -> (r: Vec<Group>)
    ensures
        group_models(r@) == contract(),
{
    let mut out: Vec<Group> = Vec::new();
    out.push(group_of("compositor", "Normalized window, workspace, and monitor state", compositor_list()));
    out.push(group_of("tailscale", "Tailnet status, machines, and Taildrop", tailscale_list()));
    out.push(group_of("capture", "Screenshots, OCR, colour picking, and recording", capture_list()));
    out.push(group_of("localsend", "LocalSend device discovery and transfers", localsend_list()));
    let none: Vec<Method> = Vec::new();
    assert(method_models(none@) =~= Seq::empty());
    out.push(group_of("dev", "Project discovery and developer workflows", none));
    out.push(group_of("nix", "Flake update status and rebuilds", nix_list()));
    out.push(group_of("system", "Power profiles and system state", system_list()));
    assert(group_models(out@) =~= contract());
    out
}

} // verus!
