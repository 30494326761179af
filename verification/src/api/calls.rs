//! What the methods of each group come to.

use vstd::prelude::*;
use vstd::string::*;

use crate::api::{ApiError, ErrorCode};
use crate::api::params::{
    capture_request, flag_or_off, given_text, is_capture, is_directory, is_texts, missing,
    off_unless, optional_directory, param_bool, param_str, param_strings,
};
use crate::capture::{Delay, Request};
use crate::json::{a_field_is_found, field_models, object, pair, text, whole, Json, Value};
use crate::text::{borrowed, maybe, owned, same, texts};

verus! {

/// What a call wants done.
#[derive(Debug)]
pub enum Call {
    /// The answer is here already.
    Answer(Value),
    Windows,
    ActiveWindow,
    Workspaces,
    Monitors,
    FocusWindow(String),
    CloseWindow(String),
    FocusWorkspace(String),
    TailscaleStatus,
    TailscaleMachines,
    TailscaleUp,
    TailscaleDown,
    PendingFiles,
    ReceiveFiles(String),
    TailscaleSend { peer: String, files: Vec<String> },
    CaptureStatus,
    Screenshot(Request),
    ReadText(Request),
    Record(Request),
    StopRecording(Option<bool>),
    Recording,
    Power,
    Hardware,
    Firmware { refresh: bool },
    StayAwake,
    SetStayAwake { enabled: Option<bool>, reason: Option<String>, notify: bool },
    NixStatus,
    NixCheck,
    NixUpdate,
    NixRebuild(Option<String>),
    NixHosts,
    Devices,
    ReceiverStatus,
    StartReceiving,
    StopReceiving,
    PendingTransfers,
    ReceivedFiles,
    Accept { session: String, directory: Option<String> },
    Decline(String),
    LocalSend { device: String, files: Vec<String> },
}

/// What is known beside the parameters when a call is made.
#[derive(Debug)]
pub struct Given {
    /// Whether this machine takes LocalSend transfers.
    pub receiving: bool,
    /// Whether the directory is there that the parameters name.
    pub directory: bool,
    /// How long to wait, from the parameters, or why that cannot be read.
    pub delay: Result<Delay, String>,
    /// The home directory, where it is known.
    pub home: Option<String>,
}

/// Whether the call is refused for a parameter that is missing.
pub open spec fn lacks(r: Result<Call, ApiError>, key: Seq<char>) -> bool {
    r is Err && r->Err_0.is(ErrorCode::InvalidParams, missing(key))
}

/// Whether the call is refused because there is no such method.
pub open spec fn is_unknown(r: Result<Call, ApiError>, method: Seq<char>) -> bool {
    r is Err && r->Err_0.is(ErrorCode::UnknownMethod, unknown_text(method))
}

/// What is said of a method that there is not.
pub open spec fn unknown_text(method: Seq<char>) -> Seq<char> {
    "no method \""@ + method + "\""@
}

/// What is said of a method that there is not.
pub fn unknown_message(method: &str) -> (r: String)
    ensures
        r@ == unknown_text(method@),
{
    let mut message = "no method \"".to_owned();
    message.append(method);
    message.append("\"");
    message
}

/// Refuses a method that there is not.
fn unknown(method: &str) -> (r: ApiError)
    ensures
        r.is(ErrorCode::UnknownMethod, unknown_text(method@)),
{
    ApiError::new(ErrorCode::UnknownMethod, unknown_message(method))
}

/// What a call of the compositor group comes to.
pub open spec fn is_compositor_call(
    r: Result<Call, ApiError>,
    method: Seq<char>,
    name: Seq<char>,
    params: Json,
) -> bool {
    if name == "windows"@ {
        r == Ok::<Call, ApiError>(Call::Windows)
    } else if name == "activeWindow"@ {
        r == Ok::<Call, ApiError>(Call::ActiveWindow)
    } else if name == "workspaces"@ {
        r == Ok::<Call, ApiError>(Call::Workspaces)
    } else if name == "monitors"@ {
        r == Ok::<Call, ApiError>(Call::Monitors)
    } else if name == "focusWindow"@ {
        match given_text(params, "id"@) {
            Some(id) => r matches Ok(Call::FocusWindow(s)) && s@ == id,
            None => lacks(r, "id"@),
        }
    } else if name == "closeWindow"@ {
        match given_text(params, "id"@) {
            Some(id) => r matches Ok(Call::CloseWindow(s)) && s@ == id,
            None => lacks(r, "id"@),
        }
    } else if name == "focusWorkspace"@ {
        match given_text(params, "id"@) {
            Some(id) => r matches Ok(Call::FocusWorkspace(s)) && s@ == id,
            None => lacks(r, "id"@),
        }
    } else if name == "subscribe"@ {
        r is Err && r->Err_0.is(ErrorCode::InvalidParams, stream_only())
    } else {
        is_unknown(r, method)
    }
}

/// What is said of a stream that is asked for once.
pub open spec fn stream_only() -> Seq<char> {
    "compositor.subscribe is a streaming method; it cannot be called as a single request"@
}

/// A call of the compositor group.
pub fn compositor_call(method: &str, name: &str, params: &Value) -> (r: Result<Call, ApiError>)
    ensures
        is_compositor_call(r, method@, name@, params@),
{
    if same(name, "windows") {
        Ok(Call::Windows)
    } else if same(name, "activeWindow") {
        Ok(Call::ActiveWindow)
    } else if same(name, "workspaces") {
        Ok(Call::Workspaces)
    } else if same(name, "monitors") {
        Ok(Call::Monitors)
    } else if same(name, "focusWindow") {
        match param_str(params, "id") {
            Ok(id) => Ok(Call::FocusWindow(id)),
            Err(error) => Err(error),
        }
    } else if same(name, "closeWindow") {
        match param_str(params, "id") {
            Ok(id) => Ok(Call::CloseWindow(id)),
            Err(error) => Err(error),
        }
    } else if same(name, "focusWorkspace") {
        match param_str(params, "id") {
            Ok(id) => Ok(Call::FocusWorkspace(id)),
            Err(error) => Err(error),
        }
    } else if same(name, "subscribe") {
        Err(
            ApiError::new(
                ErrorCode::InvalidParams,
                "compositor.subscribe is a streaming method; it cannot be called as a single request".to_owned(),
            ),
        )
    } else {
        Err(unknown(method))
    }
}

/// Whether a transfer of files to some receiver is what the parameters ask for, or else why not.
pub open spec fn is_sending(
    r: Result<(String, Vec<String>), ApiError>,
    params: Json,
    key: Seq<char>,
) -> bool {
    match given_text(params, key) {
        None => r is Err && r->Err_0.is(ErrorCode::InvalidParams, missing(key)),
        Some(to) => {
            &&& is_texts(files_of(r), params, "files"@)
            &&& r is Ok ==> r->Ok_0.0@ == to
        },
    }
}

/// The files of a transfer.
pub open spec fn files_of(r: Result<(String, Vec<String>), ApiError>) -> Result<
    Vec<String>,
    ApiError,
> {
    match r {
        Ok(both) => Ok(both.1),
        Err(error) => Err(error),
    }
}

/// The receiver and the files of a transfer.
fn sending(params: &Value, key: &str) -> (r: Result<(String, Vec<String>), ApiError>)
    ensures
        is_sending(r, params@, key@),
{
    let to = match param_str(params, key) {
        Ok(to) => to,
        Err(error) => return Err(error),
    };
    match param_strings(params, "files") {
        Ok(files) => Ok((to, files)),
        Err(error) => Err(error),
    }
}

/// What a call of the Tailscale group comes to.
pub open spec fn is_tailscale_call(
    r: Result<Call, ApiError>,
    method: Seq<char>,
    name: Seq<char>,
    params: Json,
) -> bool {
    if name == "status"@ {
        r == Ok::<Call, ApiError>(Call::TailscaleStatus)
    } else if name == "machines"@ {
        r == Ok::<Call, ApiError>(Call::TailscaleMachines)
    } else if name == "up"@ {
        r == Ok::<Call, ApiError>(Call::TailscaleUp)
    } else if name == "down"@ {
        r == Ok::<Call, ApiError>(Call::TailscaleDown)
    } else if name == "pendingFiles"@ {
        r == Ok::<Call, ApiError>(Call::PendingFiles)
    } else if name == "receive"@ {
        match given_text(params, "directory"@) {
            Some(directory) => r matches Ok(Call::ReceiveFiles(s)) && s@ == directory,
            None => lacks(r, "directory"@),
        }
    } else if name == "send"@ {
        match r {
            Ok(Call::TailscaleSend { peer, files }) => is_sending(
                Ok((peer, files)),
                params,
                "peer"@,
            ),
            Ok(_) => false,
            Err(error) => is_sending(Err(error), params, "peer"@),
        }
    } else {
        is_unknown(r, method)
    }
}

/// A call of the Tailscale group.
pub fn tailscale_call(method: &str, name: &str, params: &Value) -> (r: Result<Call, ApiError>)
    ensures
        is_tailscale_call(r, method@, name@, params@),
{
    if same(name, "status") {
        Ok(Call::TailscaleStatus)
    } else if same(name, "machines") {
        Ok(Call::TailscaleMachines)
    } else if same(name, "up") {
        Ok(Call::TailscaleUp)
    } else if same(name, "down") {
        Ok(Call::TailscaleDown)
    } else if same(name, "pendingFiles") {
        Ok(Call::PendingFiles)
    } else if same(name, "receive") {
        match param_str(params, "directory") {
            Ok(directory) => Ok(Call::ReceiveFiles(directory)),
            Err(error) => Err(error),
        }
    } else if same(name, "send") {
        match sending(params, "peer") {
            Ok((peer, files)) => Ok(Call::TailscaleSend { peer, files }),
            Err(error) => Err(error),
        }
    } else {
        Err(unknown(method))
    }
}

/// Whether what is wanted is a capture, and is what the parameters ask for.
pub open spec fn is_capturing(
    r: Result<Call, ApiError>,
    wanted: Option<Request>,
    params: Json,
    delay: Result<Delay, String>,
    home: Option<Seq<char>>,
) -> bool {
    match r {
        Ok(_) => wanted is Some && is_capture(Ok(wanted->0), params, delay, home),
        Err(error) => is_capture(Err(error), params, delay, home),
    }
}

/// What a call of the capture group comes to.
pub open spec fn is_capture_call(
    r: Result<Call, ApiError>,
    method: Seq<char>,
    name: Seq<char>,
    params: Json,
    delay: Result<Delay, String>,
    home: Option<Seq<char>>,
) -> bool {
    if name == "status"@ {
        r == Ok::<Call, ApiError>(Call::CaptureStatus)
    } else if name == "screenshot"@ {
        is_capturing(
            r,
            match r {
                Ok(Call::Screenshot(request)) => Some(request),
                _ => None,
            },
            params,
            delay,
            home,
        )
    } else if name == "ocr"@ {
        is_capturing(
            r,
            match r {
                Ok(Call::ReadText(request)) => Some(request),
                _ => None,
            },
            params,
            delay,
            home,
        )
    } else if name == "record"@ {
        is_capturing(
            r,
            match r {
                Ok(Call::Record(request)) => Some(request),
                _ => None,
            },
            params,
            delay,
            home,
        )
    } else if name == "stopRecording"@ {
        r == Ok::<Call, ApiError>(Call::StopRecording(params.flag_at("notify"@)))
    } else if name == "recording"@ {
        r == Ok::<Call, ApiError>(Call::Recording)
    } else {
        is_unknown(r, method)
    }
}

/// A call of the capture group.
pub fn capture_call(
    method: &str,
    name: &str,
    params: &Value,
    delay: Result<Delay, String>,
    home: Option<&str>,
) -> (r: Result<Call, ApiError>)
    ensures
        is_capture_call(r, method@, name@, params@, delay, maybe(home)),
{
    if same(name, "status") {
        Ok(Call::CaptureStatus)
    } else if same(name, "screenshot") {
        match capture_request(params, delay, home) {
            Ok(request) => Ok(Call::Screenshot(request)),
            Err(error) => Err(error),
        }
    } else if same(name, "ocr") {
        match capture_request(params, delay, home) {
            Ok(request) => Ok(Call::ReadText(request)),
            Err(error) => Err(error),
        }
    } else if same(name, "record") {
        match capture_request(params, delay, home) {
            Ok(request) => Ok(Call::Record(request)),
            Err(error) => Err(error),
        }
    } else if same(name, "stopRecording") {
        Ok(Call::StopRecording(param_bool(params, "notify")))
    } else if same(name, "recording") {
        Ok(Call::Recording)
    } else {
        Err(unknown(method))
    }
}

/// What a call of the system group comes to.
pub open spec fn is_system_call(
    r: Result<Call, ApiError>,
    method: Seq<char>,
    name: Seq<char>,
    params: Json,
) -> bool {
    if name == "power"@ {
        r == Ok::<Call, ApiError>(Call::Power)
    } else if name == "hardware"@ {
        r == Ok::<Call, ApiError>(Call::Hardware)
    } else if name == "firmware"@ {
        r == Ok::<Call, ApiError>(Call::Firmware { refresh: off_unless(params, "refresh"@) })
    } else if name == "stayAwake"@ {
        r == Ok::<Call, ApiError>(Call::StayAwake)
    } else if name == "setStayAwake"@ {
        match r {
            Ok(Call::SetStayAwake { enabled, reason, notify }) => {
                &&& enabled == params.flag_at("enabled"@)
                &&& match reason {
                    Some(s) => params.text_at("reason"@) == Some(s@),
                    None => params.text_at("reason"@) is None,
                }
                &&& notify == (params.flag_at("notify"@) != Some(false))
            },
            _ => false,
        }
    } else {
        is_unknown(r, method)
    }
}

/// A call of the system group.
pub fn system_call(method: &str, name: &str, params: &Value) -> (r: Result<Call, ApiError>)
    ensures
        is_system_call(r, method@, name@, params@),
{
    if same(name, "power") {
        Ok(Call::Power)
    } else if same(name, "hardware") {
        Ok(Call::Hardware)
    } else if same(name, "firmware") {
        Ok(Call::Firmware { refresh: flag_or_off(params, "refresh") })
    } else if same(name, "stayAwake") {
        Ok(Call::StayAwake)
    } else if same(name, "setStayAwake") {
        let notify = match param_bool(params, "notify") {
            Some(flag) => flag,
            None => true,
        };
        Ok(
            Call::SetStayAwake {
                enabled: param_bool(params, "enabled"),
                reason: params.text_at("reason"),
                notify,
            },
        )
    } else {
        Err(unknown(method))
    }
}

/// What a call of the Nix group comes to.
pub open spec fn is_nix_call(
    r: Result<Call, ApiError>,
    method: Seq<char>,
    name: Seq<char>,
    params: Json,
) -> bool {
    if name == "status"@ {
        r == Ok::<Call, ApiError>(Call::NixStatus)
    } else if name == "check"@ {
        r == Ok::<Call, ApiError>(Call::NixCheck)
    } else if name == "update"@ {
        r == Ok::<Call, ApiError>(Call::NixUpdate)
    } else if name == "rebuild"@ {
        match r {
            Ok(Call::NixRebuild(Some(host))) => params.text_at("host"@) == Some(host@),
            Ok(Call::NixRebuild(None)) => params.text_at("host"@) is None,
            _ => false,
        }
    } else if name == "hosts"@ {
        r == Ok::<Call, ApiError>(Call::NixHosts)
    } else {
        is_unknown(r, method)
    }
}

/// A call of the Nix group.
pub fn nix_call(method: &str, name: &str, params: &Value) -> (r: Result<Call, ApiError>)
    ensures
        is_nix_call(r, method@, name@, params@),
{
    if same(name, "status") {
        Ok(Call::NixStatus)
    } else if same(name, "check") {
        Ok(Call::NixCheck)
    } else if same(name, "update") {
        Ok(Call::NixUpdate)
    } else if same(name, "rebuild") {
        Ok(Call::NixRebuild(params.text_at("host")))
    } else if same(name, "hosts") {
        Ok(Call::NixHosts)
    } else {
        Err(unknown(method))
    }
}

/// What is said where no transfers are taken.
pub open spec fn not_receiving_text() -> Seq<char> {
    "this machine is not accepting LocalSend transfers (localsend_receive is off, or the receiver failed to start)"@
}

/// Whether the call is refused because no transfers are taken.
pub open spec fn is_closed(r: Result<Call, ApiError>) -> bool {
    r is Err && r->Err_0.is(ErrorCode::Unavailable, not_receiving_text())
}

/// Refuses what needs transfers to be taken.
pub fn not_receiving() -> (r: ApiError)
    ensures
        r.is(ErrorCode::Unavailable, not_receiving_text()),
{
    ApiError::new(
        ErrorCode::Unavailable,
        "this machine is not accepting LocalSend transfers (localsend_receive is off, or the receiver failed to start)".to_owned(),
    )
}

/// Whether a transfer is accepted as the parameters ask for, or else why not.
pub open spec fn is_accepting(r: Result<Call, ApiError>, params: Json, given: Given) -> bool {
    match given_text(params, "session"@) {
        None => lacks(r, "session"@),
        Some(id) => match r {
            Ok(Call::Accept { session, directory }) => {
                &&& given.receiving
                &&& session@ == id
                &&& is_directory(
                    Ok(directory),
                    params,
                    "directory"@,
                    owned(given.home),
                    given.directory,
                )
            },
            Ok(_) => false,
            Err(error) => if given_text(params, "directory"@) is Some && !given.directory {
                is_directory(
                    Err(error),
                    params,
                    "directory"@,
                    owned(given.home),
                    given.directory,
                )
            } else {
                !given.receiving && is_closed(r)
            },
        },
    }
}

/// What a call of the LocalSend group comes to.
pub open spec fn is_localsend_call(
    r: Result<Call, ApiError>,
    method: Seq<char>,
    name: Seq<char>,
    params: Json,
    given: Given,
) -> bool {
    if name == "devices"@ {
        r == Ok::<Call, ApiError>(Call::Devices)
    } else if name == "status"@ {
        r == Ok::<Call, ApiError>(Call::ReceiverStatus)
    } else if name == "startReceiving"@ {
        r == Ok::<Call, ApiError>(Call::StartReceiving)
    } else if name == "stopReceiving"@ {
        r == Ok::<Call, ApiError>(Call::StopReceiving)
    } else if name == "pending"@ {
        if given.receiving {
            r == Ok::<Call, ApiError>(Call::PendingTransfers)
        } else {
            is_closed(r)
        }
    } else if name == "received"@ {
        if given.receiving {
            r == Ok::<Call, ApiError>(Call::ReceivedFiles)
        } else {
            is_closed(r)
        }
    } else if name == "accept"@ {
        is_accepting(r, params, given)
    } else if name == "decline"@ {
        if !given.receiving {
            is_closed(r)
        } else {
            match given_text(params, "session"@) {
                Some(id) => r matches Ok(Call::Decline(s)) && s@ == id,
                None => lacks(r, "session"@),
            }
        }
    } else if name == "send"@ {
        match r {
            Ok(Call::LocalSend { device, files }) => is_sending(
                Ok((device, files)),
                params,
                "device"@,
            ),
            Ok(_) => false,
            Err(error) => is_sending(Err(error), params, "device"@),
        }
    } else {
        is_unknown(r, method)
    }
}

/// Accepts a transfer. The directory is looked at before it is known whether transfers are taken.
fn accept(params: &Value, given: &Given) -> (r: Result<Call, ApiError>)
    ensures
        is_accepting(r, params@, *given),
{
    let session = match param_str(params, "session") {
        Ok(session) => session,
        Err(error) => return Err(error),
    };
    let home = borrowed(&given.home);
    let directory = match optional_directory(params, "directory", home, given.directory) {
        Ok(directory) => directory,
        Err(error) => return Err(error),
    };
    if !given.receiving {
        return Err(not_receiving());
    }
    Ok(Call::Accept { session, directory })
}

/// A call of the LocalSend group.
pub fn localsend_call(method: &str, name: &str, params: &Value, given: &Given) -> (r: Result<
    Call,
    ApiError,
>)
    ensures
        is_localsend_call(r, method@, name@, params@, *given),
{
    if same(name, "devices") {
        Ok(Call::Devices)
    } else if same(name, "status") {
        Ok(Call::ReceiverStatus)
    } else if same(name, "startReceiving") {
        Ok(Call::StartReceiving)
    } else if same(name, "stopReceiving") {
        Ok(Call::StopReceiving)
    } else if same(name, "pending") {
        if given.receiving {
            Ok(Call::PendingTransfers)
        } else {
            Err(not_receiving())
        }
    } else if same(name, "received") {
        if given.receiving {
            Ok(Call::ReceivedFiles)
        } else {
            Err(not_receiving())
        }
    } else if same(name, "accept") {
        accept(params, given)
    } else if same(name, "decline") {
        if !given.receiving {
            return Err(not_receiving());
        }
        match param_str(params, "session") {
            Ok(session) => Ok(Call::Decline(session)),
            Err(error) => Err(error),
        }
    } else if same(name, "send") {
        match sending(params, "device") {
            Ok((device, files)) => Ok(Call::LocalSend { device, files }),
            Err(error) => Err(error),
        }
    } else {
        Err(unknown(method))
    }
}

/// What came of a call that answers in few words.
#[derive(Debug)]
pub enum Outcome {
    Focused,
    Closed,
    /// Whether Tailscale is up now.
    Running(bool),
    /// The command that was started in a terminal.
    Started(String),
    /// Where the files of a transfer go.
    Accepted(String),
    Declined,
    /// How many files went to a peer.
    Sent { files: u64, peer: String },
    /// Transfers are taken now, over a port.
    Receiving(Option<u16>),
    /// Transfers are taken no more, and whether they were before.
    Stopped(bool),
    /// How transfers are taken.
    Receiver { alias: String, fingerprint: String, port: u16, download_dir: String, pending: u64 },
    /// Transfers are not taken.
    NoReceiver,
}

/// What a call is answered with.
pub open spec fn outcome_json(outcome: Outcome) -> Json {
    Json::Object(
        match outcome {
            Outcome::Focused => seq![("focused"@, Json::Bool(true))],
            Outcome::Closed => seq![("closed"@, Json::Bool(true))],
            Outcome::Running(up) => seq![("running"@, Json::Bool(up))],
            Outcome::Started(command) => seq![
                ("started"@, Json::Bool(true)),
                ("command"@, Json::Text(command@)),
            ],
            Outcome::Accepted(directory) => seq![
                ("accepted"@, Json::Bool(true)),
                ("directory"@, Json::Text(directory@)),
            ],
            Outcome::Declined => seq![("declined"@, Json::Bool(true))],
            Outcome::Sent { files, peer } => seq![
                ("sent"@, Json::Whole(files as int)),
                ("peer"@, Json::Text(peer@)),
            ],
            Outcome::Receiving(port) => seq![
                ("receiving"@, Json::Bool(true)),
                ("port"@, port_json(port)),
            ],
            Outcome::Stopped(was) => seq![
                ("receiving"@, Json::Bool(false)),
                ("stopped"@, Json::Bool(was)),
            ],
            Outcome::Receiver { alias, fingerprint, port, download_dir, pending } => seq![
                ("receiving"@, Json::Bool(true)),
                ("alias"@, Json::Text(alias@)),
                ("fingerprint"@, Json::Text(fingerprint@)),
                ("port"@, Json::Whole(port as int)),
                ("download_dir"@, Json::Text(download_dir@)),
                ("pending"@, Json::Whole(pending as int)),
            ],
            Outcome::NoReceiver => seq![("receiving"@, Json::Bool(false))],
        },
    )
}

/// A port as callers read it.
pub open spec fn port_json(port: Option<u16>) -> Json {
    match port {
        Some(n) => Json::Whole(n as int),
        None => Json::Null,
    }
}

/// What a call is answered with.
pub fn answer(outcome: &Outcome) -> (r: Value)
    ensures
        r@ == outcome_json(*outcome),
{
    let mut fields: Vec<(String, Value)> = Vec::new();
    match outcome {
        Outcome::Focused => {
            fields.push(pair("focused", Value::Bool(true)));
        },
        Outcome::Closed => {
            fields.push(pair("closed", Value::Bool(true)));
        },
        Outcome::Running(up) => {
            fields.push(pair("running", Value::Bool(*up)));
        },
        Outcome::Started(command) => {
            fields.push(pair("started", Value::Bool(true)));
            fields.push(pair("command", text(command.as_str())));
        },
        Outcome::Accepted(directory) => {
            fields.push(pair("accepted", Value::Bool(true)));
            fields.push(pair("directory", text(directory.as_str())));
        },
        Outcome::Declined => {
            fields.push(pair("declined", Value::Bool(true)));
        },
        Outcome::Sent { files, peer } => {
            fields.push(pair("sent", whole(*files)));
            fields.push(pair("peer", text(peer.as_str())));
        },
        Outcome::Receiving(port) => {
            let over = match port {
                Some(n) => whole(*n as u64),
                None => Value::Null,
            };
            fields.push(pair("receiving", Value::Bool(true)));
            fields.push(pair("port", over));
        },
        Outcome::Stopped(was) => {
            fields.push(pair("receiving", Value::Bool(false)));
            fields.push(pair("stopped", Value::Bool(*was)));
        },
        Outcome::Receiver { alias, fingerprint, port, download_dir, pending } => {
            fields.push(pair("receiving", Value::Bool(true)));
            fields.push(pair("alias", text(alias.as_str())));
            fields.push(pair("fingerprint", text(fingerprint.as_str())));
            fields.push(pair("port", whole(*port as u64)));
            fields.push(pair("download_dir", text(download_dir.as_str())));
            fields.push(pair("pending", whole(*pending)));
        },
        Outcome::NoReceiver => {
            fields.push(pair("receiving", Value::Bool(false)));
        },
    }
    assert(field_models(fields@) =~= outcome_json(*outcome)->Object_0);
    object(fields)
}

/// A call of the compositor group is for the window or the workspace that it names, and does what its
/// name says: to close a window is not to focus it.
pub proof fn a_window_is_called_by_its_id(
    r: Result<Call, ApiError>,
    method: Seq<char>,
    name: Seq<char>,
    params: Json,
    id: Seq<char>,
)
    requires
        is_compositor_call(r, method, name, params),
        params.field("id"@) == Some(Json::Text(id)),
        id.len() > 0,
    ensures
        name == "focusWindow"@ ==> (r matches Ok(Call::FocusWindow(s)) && s@ == id),
        name == "closeWindow"@ ==> (r matches Ok(Call::CloseWindow(s)) && s@ == id),
        name == "focusWorkspace"@ ==> (r matches Ok(Call::FocusWorkspace(s)) && s@ == id),
        name == "windows"@ ==> r == Ok::<Call, ApiError>(Call::Windows),
        name == "activeWindow"@ ==> r == Ok::<Call, ApiError>(Call::ActiveWindow),
        name == "workspaces"@ ==> r == Ok::<Call, ApiError>(Call::Workspaces),
        name == "monitors"@ ==> r == Ok::<Call, ApiError>(Call::Monitors),
{
    reveal_strlit("windows");
    reveal_strlit("activeWindow");
    reveal_strlit("workspaces");
    reveal_strlit("monitors");
    reveal_strlit("focusWindow");
    reveal_strlit("closeWindow");
    reveal_strlit("focusWorkspace");
    assert("windows"@.len() == 7 && "activeWindow"@.len() == 12 && "workspaces"@.len() == 10);
    assert("monitors"@.len() == 8 && "focusWorkspace"@.len() == 14);
    assert("focusWindow"@.len() == 11 && "closeWindow"@.len() == 11);
    assert("focusWindow"@[0] == 'f' && "closeWindow"@[0] == 'c');
}

/// A call without the id that it needs is refused.
pub proof fn a_window_has_to_be_named(
    r: Result<Call, ApiError>,
    method: Seq<char>,
    name: Seq<char>,
    params: Json,
)
    requires
        is_compositor_call(r, method, name, params),
        params.field("id"@) is None,
        name == "focusWindow"@ || name == "closeWindow"@ || name == "focusWorkspace"@,
    ensures
        r is Err && r->Err_0.code == ErrorCode::InvalidParams,
{
    reveal_strlit("windows");
    reveal_strlit("activeWindow");
    reveal_strlit("workspaces");
    reveal_strlit("monitors");
    reveal_strlit("focusWindow");
    reveal_strlit("closeWindow");
    reveal_strlit("focusWorkspace");
    assert("windows"@.len() == 7 && "activeWindow"@.len() == 12 && "workspaces"@.len() == 10);
    assert("monitors"@.len() == 8 && "focusWorkspace"@.len() == 14);
    assert("focusWindow"@.len() == 11 && "closeWindow"@.len() == 11);
}

/// Files go to the peer that the call names and are those that it names; Tailscale is started and
/// stopped where that is asked for.
pub proof fn a_tailscale_call_does_what_it_says(
    r: Result<Call, ApiError>,
    method: Seq<char>,
    name: Seq<char>,
    params: Json,
    to: Seq<char>,
    items: Seq<Json>,
)
    requires
        is_tailscale_call(r, method, name, params),
        to.len() > 0,
    ensures
        name == "up"@ ==> r == Ok::<Call, ApiError>(Call::TailscaleUp),
        name == "down"@ ==> r == Ok::<Call, ApiError>(Call::TailscaleDown),
        name == "status"@ ==> r == Ok::<Call, ApiError>(Call::TailscaleStatus),
        name == "machines"@ ==> r == Ok::<Call, ApiError>(Call::TailscaleMachines),
        name == "pendingFiles"@ ==> r == Ok::<Call, ApiError>(Call::PendingFiles),
        name == "receive"@ && params.field("directory"@) == Some(Json::Text(to)) ==> (r matches Ok(
            Call::ReceiveFiles(s),
        ) && s@ == to),
        name == "receive"@ && params.field("directory"@) is None ==> r is Err,
        name == "send"@ && params.field("peer"@) == Some(Json::Text(to)) && params.field("files"@)
            == Some(Json::List(items)) && (forall|k: int|
            0 <= k < items.len() ==> (#[trigger] items[k]) is Text) ==> (r matches Ok(
            Call::TailscaleSend { peer, files },
        ) && peer@ == to && files@.len() == items.len() && forall|k: int|
            0 <= k < items.len() ==> Json::Text((#[trigger] files@[k])@) == items[k]),
        name == "send"@ && params.field("peer"@) is None ==> r is Err,
{
    reveal_strlit("status");
    reveal_strlit("machines");
    reveal_strlit("up");
    reveal_strlit("down");
    reveal_strlit("pendingFiles");
    reveal_strlit("receive");
    reveal_strlit("send");
    assert("status"@.len() == 6 && "machines"@.len() == 8 && "up"@.len() == 2 && "down"@.len() == 4);
    assert("pendingFiles"@.len() == 12 && "receive"@.len() == 7 && "send"@.len() == 4);
    assert("down"@[0] == 'd' && "send"@[0] == 's');
    if let Ok(Call::TailscaleSend { peer, files }) = r {
        if params.field("files"@) == Some(Json::List(items)) {
            files_are_those_named(files@, items);
        }
    }
}

/// Files that are the texts of a list stand at their places.
proof fn files_are_those_named(files: Seq<String>, items: Seq<Json>)
    ensures
        texts(files) == items.map_values(|v: Json| v->Text_0) ==> files.len() == items.len()
            && forall|k: int| 0 <= k < items.len() ==> (#[trigger] files[k])@ == items[k]->Text_0,
{
    if texts(files) == items.map_values(|v: Json| v->Text_0) {
        assert(texts(files).len() == items.len());
        assert forall|k: int| 0 <= k < items.len() implies (#[trigger] files[k])@
            == items[k]->Text_0 by {
            assert(texts(files)[k] == files[k]@);
        }
    }
}

/// A picture, a text and a recording are each had by their own call, with what is asked for.
pub proof fn a_capture_call_does_what_it_says(
    r: Result<Call, ApiError>,
    method: Seq<char>,
    name: Seq<char>,
    params: Json,
    delay: Result<Delay, String>,
    home: Option<Seq<char>>,
)
    requires
        is_capture_call(r, method, name, params, delay, home),
        params.field("mode"@) is None,
        delay is Ok,
    ensures
        name == "status"@ ==> r == Ok::<Call, ApiError>(Call::CaptureStatus),
        name == "recording"@ ==> r == Ok::<Call, ApiError>(Call::Recording),
        name == "screenshot"@ ==> (r matches Ok(Call::Screenshot(request)) && is_capture(
            Ok(request),
            params,
            delay,
            home,
        )),
        name == "ocr"@ ==> (r matches Ok(Call::ReadText(request)) && is_capture(
            Ok(request),
            params,
            delay,
            home,
        )),
        name == "record"@ ==> (r matches Ok(Call::Record(request)) && is_capture(
            Ok(request),
            params,
            delay,
            home,
        )),
        name == "stopRecording"@ && params.field("notify"@) is None ==> r == Ok::<Call, ApiError>(
            Call::StopRecording(None),
        ),
{
    reveal_strlit("status");
    reveal_strlit("screenshot");
    reveal_strlit("ocr");
    reveal_strlit("record");
    reveal_strlit("stopRecording");
    reveal_strlit("recording");
    assert("status"@.len() == 6 && "screenshot"@.len() == 10 && "ocr"@.len() == 3);
    assert("record"@.len() == 6 && "stopRecording"@.len() == 13 && "recording"@.len() == 9);
    assert("status"@[0] == 's' && "record"@[0] == 'r');
}

/// The machine is kept awake or let sleep as the call says, and is asked what it was asked for.
pub proof fn a_system_call_does_what_it_says(
    r: Result<Call, ApiError>,
    method: Seq<char>,
    name: Seq<char>,
    params: Json,
    on: bool,
    why: Seq<char>,
)
    requires
        is_system_call(r, method, name, params),
    ensures
        name == "power"@ ==> r == Ok::<Call, ApiError>(Call::Power),
        name == "hardware"@ ==> r == Ok::<Call, ApiError>(Call::Hardware),
        name == "stayAwake"@ ==> r == Ok::<Call, ApiError>(Call::StayAwake),
        name == "firmware"@ && params.field("refresh"@) == Some(Json::Bool(on)) ==> r == Ok::<
            Call,
            ApiError,
        >(Call::Firmware { refresh: on }),
        name == "firmware"@ && params.field("refresh"@) is None ==> r == Ok::<Call, ApiError>(
            Call::Firmware { refresh: false },
        ),
        name == "setStayAwake"@ ==> r is Ok && r->Ok_0 is SetStayAwake,
        name == "setStayAwake"@ && params.field("enabled"@) == Some(Json::Bool(on)) ==> (
        r matches Ok(Call::SetStayAwake { enabled, .. }) && enabled == Some(on)),
        name == "setStayAwake"@ && params.field("enabled"@) is None ==> (r matches Ok(
            Call::SetStayAwake { enabled, .. },
        ) && enabled is None),
        name == "setStayAwake"@ && params.field("reason"@) == Some(Json::Text(why)) ==> (
        r matches Ok(Call::SetStayAwake { reason, .. }) && reason is Some && (reason->0)@ == why),
        name == "setStayAwake"@ && params.field("notify"@) == Some(Json::Bool(on)) ==> (
        r matches Ok(Call::SetStayAwake { notify, .. }) && notify == on),
        name == "setStayAwake"@ && params.field("notify"@) is None ==> (r matches Ok(
            Call::SetStayAwake { notify, .. },
        ) && notify),
{
    reveal_strlit("power");
    reveal_strlit("hardware");
    reveal_strlit("firmware");
    reveal_strlit("stayAwake");
    reveal_strlit("setStayAwake");
    assert("power"@.len() == 5 && "hardware"@.len() == 8 && "firmware"@.len() == 8);
    assert("stayAwake"@.len() == 9 && "setStayAwake"@.len() == 12);
    assert("hardware"@[0] == 'h' && "firmware"@[0] == 'f');
}

/// The host that is named is rebuilt, and to update is not to rebuild.
pub proof fn a_nix_call_does_what_it_says(
    r: Result<Call, ApiError>,
    method: Seq<char>,
    name: Seq<char>,
    params: Json,
    host: Seq<char>,
)
    requires
        is_nix_call(r, method, name, params),
    ensures
        name == "status"@ ==> r == Ok::<Call, ApiError>(Call::NixStatus),
        name == "check"@ ==> r == Ok::<Call, ApiError>(Call::NixCheck),
        name == "update"@ ==> r == Ok::<Call, ApiError>(Call::NixUpdate),
        name == "hosts"@ ==> r == Ok::<Call, ApiError>(Call::NixHosts),
        name == "rebuild"@ && params.field("host"@) == Some(Json::Text(host)) ==> (r matches Ok(
            Call::NixRebuild(Some(s)),
        ) && s@ == host),
        name == "rebuild"@ && params.field("host"@) is None ==> r == Ok::<Call, ApiError>(
            Call::NixRebuild(None),
        ),
{
    reveal_strlit("status");
    reveal_strlit("check");
    reveal_strlit("update");
    reveal_strlit("rebuild");
    reveal_strlit("hosts");
    assert("status"@.len() == 6 && "check"@.len() == 5 && "update"@.len() == 6);
    assert("rebuild"@.len() == 7 && "hosts"@.len() == 5);
    assert("status"@[0] == 's' && "update"@[0] == 'u' && "check"@[0] == 'c' && "hosts"@[0] == 'h');
}

/// A transfer is accepted or declined by its session, and files go to the device that is named. What
/// concerns transfers that come in is refused where none are taken.
pub proof fn a_localsend_call_does_what_it_says(
    r: Result<Call, ApiError>,
    method: Seq<char>,
    name: Seq<char>,
    params: Json,
    given: Given,
    id: Seq<char>,
    items: Seq<Json>,
)
    requires
        is_localsend_call(r, method, name, params, given),
        id.len() > 0,
    ensures
        name == "devices"@ ==> r == Ok::<Call, ApiError>(Call::Devices),
        name == "status"@ ==> r == Ok::<Call, ApiError>(Call::ReceiverStatus),
        name == "startReceiving"@ ==> r == Ok::<Call, ApiError>(Call::StartReceiving),
        name == "stopReceiving"@ ==> r == Ok::<Call, ApiError>(Call::StopReceiving),
        name == "pending"@ && given.receiving ==> r == Ok::<Call, ApiError>(Call::PendingTransfers),
        name == "received"@ && given.receiving ==> r == Ok::<Call, ApiError>(Call::ReceivedFiles),
        (name == "pending"@ || name == "received"@ || name == "decline"@) && !given.receiving ==> r is Err
            && r->Err_0.code == ErrorCode::Unavailable,
        name == "decline"@ && given.receiving && params.field("session"@) == Some(Json::Text(id)) ==> (
        r matches Ok(Call::Decline(s)) && s@ == id),
        name == "accept"@ && given.receiving && params.field("session"@) == Some(Json::Text(id))
            && params.field("directory"@) is None ==> (r matches Ok(
            Call::Accept { session, directory },
        ) && session@ == id && directory is None),
        name == "accept"@ && !given.receiving ==> r is Err,
        (name == "accept"@ || name == "decline"@) && params.field("session"@) is None ==> r is Err,
        name == "send"@ && params.field("device"@) == Some(Json::Text(id)) && params.field("files"@)
            == Some(Json::List(items)) && (forall|k: int|
            0 <= k < items.len() ==> (#[trigger] items[k]) is Text) ==> (r matches Ok(
            Call::LocalSend { device, files },
        ) && device@ == id && files@.len() == items.len() && forall|k: int|
            0 <= k < items.len() ==> Json::Text((#[trigger] files@[k])@) == items[k]),
{
    reveal_strlit("devices");
    reveal_strlit("status");
    reveal_strlit("startReceiving");
    reveal_strlit("stopReceiving");
    reveal_strlit("pending");
    reveal_strlit("received");
    reveal_strlit("accept");
    reveal_strlit("decline");
    reveal_strlit("send");
    assert("devices"@.len() == 7 && "status"@.len() == 6 && "startReceiving"@.len() == 14);
    assert("stopReceiving"@.len() == 13 && "pending"@.len() == 7 && "received"@.len() == 8);
    assert("accept"@.len() == 6 && "decline"@.len() == 7 && "send"@.len() == 4);
    assert("status"@[0] == 's' && "accept"@[0] == 'a' && "pending"@[0] == 'p');
    assert("devices"@[2] == 'v' && "decline"@[2] == 'c' && "devices"@[0] == 'd');
    assert("decline"@[0] == 'd');
    if let Ok(Call::LocalSend { device, files }) = r {
        if params.field("files"@) == Some(Json::List(items)) {
            files_are_those_named(files@, items);
        }
    }
}

/// What came of a call is what its answer says.
pub proof fn an_answer_says_what_came_of_it(up: bool, text: String, count: u64, port: u16)
    ensures
        outcome_json(Outcome::Focused).field("focused"@) == Some(Json::Bool(true)),
        outcome_json(Outcome::Closed).field("closed"@) == Some(Json::Bool(true)),
        outcome_json(Outcome::Running(up)).field("running"@) == Some(Json::Bool(up)),
        outcome_json(Outcome::Declined).field("declined"@) == Some(Json::Bool(true)),
        outcome_json(Outcome::Started(text)).field("command"@) == Some(Json::Text(text@)),
        outcome_json(Outcome::Accepted(text)).field("directory"@) == Some(Json::Text(text@)),
        outcome_json(Outcome::Sent { files: count, peer: text }).field("sent"@) == Some(
            Json::Whole(count as int),
        ),
        outcome_json(Outcome::Sent { files: count, peer: text }).field("peer"@) == Some(
            Json::Text(text@),
        ),
        outcome_json(Outcome::Receiving(Some(port))).field("receiving"@) == Some(Json::Bool(true)),
        outcome_json(Outcome::Receiving(Some(port))).field("port"@) == Some(
            Json::Whole(port as int),
        ),
        outcome_json(Outcome::Stopped(up)).field("receiving"@) == Some(Json::Bool(false)),
        outcome_json(Outcome::Stopped(up)).field("stopped"@) == Some(Json::Bool(up)),
        outcome_json(Outcome::NoReceiver).field("receiving"@) == Some(Json::Bool(false)),
{
    reveal_strlit("started");
    reveal_strlit("command");
    reveal_strlit("accepted");
    reveal_strlit("directory");
    reveal_strlit("sent");
    reveal_strlit("peer");
    reveal_strlit("receiving");
    reveal_strlit("port");
    reveal_strlit("stopped");
    assert("started"@[0] == 's' && "command"@[0] == 'c' && "accepted"@[0] == 'a');
    assert("directory"@[0] == 'd' && "sent"@[0] == 's' && "peer"@[0] == 'p');
    assert("receiving"@[0] == 'r' && "port"@[0] == 'p' && "stopped"@[0] == 's');
    a_field_is_found(outcome_json(Outcome::Focused)->Object_0, 0);
    a_field_is_found(outcome_json(Outcome::Closed)->Object_0, 0);
    a_field_is_found(outcome_json(Outcome::Running(up))->Object_0, 0);
    a_field_is_found(outcome_json(Outcome::Declined)->Object_0, 0);
    a_field_is_found(outcome_json(Outcome::Started(text))->Object_0, 1);
    a_field_is_found(outcome_json(Outcome::Accepted(text))->Object_0, 1);
    a_field_is_found(outcome_json(Outcome::Sent { files: count, peer: text })->Object_0, 0);
    a_field_is_found(outcome_json(Outcome::Sent { files: count, peer: text })->Object_0, 1);
    a_field_is_found(outcome_json(Outcome::Receiving(Some(port)))->Object_0, 0);
    a_field_is_found(outcome_json(Outcome::Receiving(Some(port)))->Object_0, 1);
    a_field_is_found(outcome_json(Outcome::Stopped(up))->Object_0, 0);
    a_field_is_found(outcome_json(Outcome::Stopped(up))->Object_0, 1);
    a_field_is_found(outcome_json(Outcome::NoReceiver)->Object_0, 0);
}

/// What is told of a receiver is how it takes transfers: under which name and fingerprint, over which
/// port, where to, and how many wait.
pub proof fn a_receiver_tells_how_it_takes_transfers(
    alias: String,
    fingerprint: String,
    port: u16,
    download_dir: String,
    pending: u64,
    told: Json,
)
    requires
        told == outcome_json(
            Outcome::Receiver { alias, fingerprint, port, download_dir, pending },
        ),
    ensures
        told.field("receiving"@) == Some(Json::Bool(true)),
        told.field("alias"@) == Some(Json::Text(alias@)),
        told.field("fingerprint"@) == Some(Json::Text(fingerprint@)),
        told.field("port"@) == Some(Json::Whole(port as int)),
        told.field("download_dir"@) == Some(Json::Text(download_dir@)),
        told.field("pending"@) == Some(Json::Whole(pending as int)),
{
    reveal_strlit("receiving");
    reveal_strlit("alias");
    reveal_strlit("fingerprint");
    reveal_strlit("port");
    reveal_strlit("download_dir");
    reveal_strlit("pending");
    assert("receiving"@.len() == 9 && "alias"@.len() == 5 && "fingerprint"@.len() == 11);
    assert("port"@.len() == 4 && "download_dir"@.len() == 12 && "pending"@.len() == 7);
    let fields = told->Object_0;
    a_field_is_found(fields, 0);
    a_field_is_found(fields, 1);
    a_field_is_found(fields, 2);
    a_field_is_found(fields, 3);
    a_field_is_found(fields, 4);
    a_field_is_found(fields, 5);
}

} // verus!
