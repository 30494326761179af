//! The API: one surface, with a version and a description of itself, in front of everything that is
//! no result of a launcher.
//!
//! Methods are called `group.method`. Each group says whether it can be used on this machine, and
//! each failure carries a code by which a caller can tell what went wrong. What a method does
//! stands outside: here is decided whether it is done, and with what.

pub mod calls;
pub mod contract;
pub mod params;

use vstd::prelude::*;
use vstd::string::*;

use crate::api::calls::{
    capture_call, compositor_call, is_capture_call, is_compositor_call, is_localsend_call,
    is_nix_call, is_system_call, is_tailscale_call, is_unknown, localsend_call, nix_call,
    system_call, tailscale_call, unknown_message, unknown_text, Call, Given,
};
use crate::api::contract::{
    capture_methods, contract, group_models, groups, method_models, nix_methods, param_models,
    system_methods, Group, GroupModel, Method, MethodModel,
};
use crate::json::{
    a_field_is_found, field_models, list, models, object, pair, text, text_list, whole, Json, Value,
};
use crate::number::{decimal, write_u64};
use crate::text::{
    after_first, before_first, borrowed, first_of, first_of_is_first, first_of_is_unique, maybe,
    owned, same, split_first, texts,
};

verus! {

/// The version of the contract.
pub const VERSION: &'static str = "1.0";

/// The part of the version that changes when what a method answers changes its shape.
pub const VERSION_MAJOR: u32 = 1;

/// The part of the version that changes when something is added.
pub const VERSION_MINOR: u32 = 0;

/// Why a call failed.
#[derive(Debug, Clone, Copy, PartialEq, Eq, Structural)]
pub enum ErrorCode {
    /// There is no such group.
    UnknownGroup,
    /// The group has no such method.
    UnknownMethod,
    /// The group cannot be used here.
    Unavailable,
    /// A parameter was missing or of the wrong type.
    InvalidParams,
    /// The tool or the compositor behind it failed.
    BackendError,
    /// The caller was built for another major version.
    VersionMismatch,
}

impl ErrorCode {
    /// The code as callers read it.
    pub open spec fn text(self) -> Seq<char> {
        match self {
            ErrorCode::UnknownGroup => "unknown_group"@,
            ErrorCode::UnknownMethod => "unknown_method"@,
            ErrorCode::Unavailable => "unavailable"@,
            ErrorCode::InvalidParams => "invalid_params"@,
            ErrorCode::BackendError => "backend_error"@,
            ErrorCode::VersionMismatch => "version_mismatch"@,
        }
    }

    /// The code as callers read it.
    pub fn as_str(self) -> (r: &'static str)
        ensures
            r@ == self.text(),
    {
        match self {
            ErrorCode::UnknownGroup => "unknown_group",
            ErrorCode::UnknownMethod => "unknown_method",
            ErrorCode::Unavailable => "unavailable",
            ErrorCode::InvalidParams => "invalid_params",
            ErrorCode::BackendError => "backend_error",
            ErrorCode::VersionMismatch => "version_mismatch",
        }
    }
}

/// A call that failed.
#[derive(Debug)]
pub struct ApiError {
    pub code: ErrorCode,
    pub message: String,
    /// What helps the caller on, such as the methods that there are.
    pub detail: Option<Value>,
}

impl ApiError {
    /// Whether the error is one with that code and message and without detail.
    pub open spec fn is(self, code: ErrorCode, message: Seq<char>) -> bool {
        self.code == code && self.message@ == message && self.detail is None
    }

    /// Whether the error is one with that code, message and detail.
    pub open spec fn is_with(self, code: ErrorCode, message: Seq<char>, detail: Json) -> bool {
        &&& self.code == code
        &&& self.message@ == message
        &&& self.detail is Some
        &&& (self.detail->0)@ == detail
    }

    /// An error without detail.
    pub fn new(code: ErrorCode, message: String) -> (r: ApiError)
        ensures
            r.is(code, message@),
    {
        ApiError { code, message, detail: None }
    }

    /// The error with a detail.
    pub fn with_detail(self, detail: Value) -> (r: ApiError)
        ensures
            r.is_with(self.code, self.message@, detail@),
    {
        ApiError { code: self.code, message: self.message, detail: Some(detail) }
    }

    /// The error as callers read it.
    pub fn to_value(&self) -> (r: Value)
        ensures
            r@ == Json::Object(
                seq![
                    ("code"@, Json::Text(self.code.text())),
                    ("message"@, Json::Text(self.message@)),
                    ("detail"@, detail_json(self.detail)),
                ],
            ),
    {
        let detail = match &self.detail {
            Some(detail) => detail.copy(),
            None => Value::Null,
        };
        assert(detail@ == detail_json(self.detail));
        let mut fields: Vec<(String, Value)> = Vec::new();
        fields.push(pair("code", text(self.code.as_str())));
        fields.push(pair("message", text(self.message.as_str())));
        fields.push(pair("detail", detail));
        assert(field_models(fields@) =~= seq![
            ("code"@, Json::Text(self.code.text())),
            ("message"@, Json::Text(self.message@)),
            ("detail"@, detail_json(self.detail)),
        ]);
        object(fields)
    }
}

/// The detail of an error as callers read it.
pub open spec fn detail_json(detail: Option<Value>) -> Json {
    match detail {
        Some(value) => value@,
        None => Json::Null,
    }
}

/// Whether a group can be called on this machine, and why not where it cannot.
#[derive(Debug)]
pub enum Availability {
    Available,
    /// It is in the contract, but nothing implements it yet.
    Planned,
    /// Something that it needs is missing.
    Unavailable(String),
}

/// Whether a group can be called.
pub enum Readiness {
    Available,
    Planned,
    Unavailable(Seq<char>),
}

impl View for Availability {
    type V = Readiness;

    open spec fn view(&self) -> Readiness {
        match *self {
            Availability::Available => Readiness::Available,
            Availability::Planned => Readiness::Planned,
            Availability::Unavailable(reason) => Readiness::Unavailable(reason@),
        }
    }
}

impl Readiness {
    /// The state in one word.
    pub open spec fn status(self) -> Seq<char> {
        match self {
            Readiness::Available => "available"@,
            Readiness::Planned => "planned"@,
            Readiness::Unavailable(_) => "unavailable"@,
        }
    }

    /// Why the group cannot be called, where it cannot.
    pub open spec fn reason(self) -> Option<Seq<char>> {
        match self {
            Readiness::Available => None,
            Readiness::Planned => Some("not implemented in this build"@),
            Readiness::Unavailable(reason) => Some(reason),
        }
    }
}

impl Availability {
    /// The state in one word.
    pub fn status(&self) -> (r: &'static str)
        ensures
            r@ == self@.status(),
    {
        match self {
            Availability::Available => "available",
            Availability::Planned => "planned",
            Availability::Unavailable(_) => "unavailable",
        }
    }

    /// Why the group cannot be called, where it cannot.
    pub fn reason(&self) -> (r: Option<&str>)
        ensures
            maybe(r) == self@.reason(),
    {
        match self {
            Availability::Available => None,
            Availability::Planned => Some("not implemented in this build"),
            Availability::Unavailable(reason) => Some(reason.as_str()),
        }
    }

    /// Whether the group can be called.
    pub fn callable(&self) -> (r: bool)
        ensures
            r == (self@ is Available),
    {
        match self {
            Availability::Available => true,
            _ => false,
        }
    }
}

/// What decides whether each group can be called. It is asked at each call: a compositor can be
/// started again, and a tool can be installed, while the daemon runs.
#[derive(Debug)]
pub struct Situation {
    /// Whether a compositor answers.
    pub compositor: bool,
    /// Whether Tailscale is installed.
    pub tailscale: bool,
    pub nix: Result<(), String>,
    pub system: Result<(), String>,
    pub capture: Result<(), String>,
    pub localsend: Result<(), String>,
}

/// What a result says of a group.
pub open spec fn ready_if(r: Result<(), String>) -> Readiness {
    match r {
        Ok(_) => Readiness::Available,
        Err(reason) => Readiness::Unavailable(reason@),
    }
}

/// Whether a group can be called.
pub open spec fn readiness(group: Seq<char>, situation: Situation) -> Readiness {
    if group == "compositor"@ {
        if situation.compositor {
            Readiness::Available
        } else {
            Readiness::Unavailable("no supported compositor is responding"@)
        }
    } else if group == "tailscale"@ {
        if situation.tailscale {
            Readiness::Available
        } else {
            Readiness::Unavailable("the tailscale CLI is not installed"@)
        }
    } else if group == "nix"@ {
        ready_if(situation.nix)
    } else if group == "system"@ {
        ready_if(situation.system)
    } else if group == "capture"@ {
        ready_if(situation.capture)
    } else if group == "localsend"@ {
        ready_if(situation.localsend)
    } else {
        Readiness::Planned
    }
}

/// What a result says of a group.
fn available_if(r: &Result<(), String>) -> (a: Availability)
    ensures
        a@ == ready_if(*r),
{
    match r {
        Ok(_) => Availability::Available,
        Err(reason) => Availability::Unavailable(reason.as_str().to_owned()),
    }
}

/// Whether a group can be called.
pub fn availability(group: &str, situation: &Situation) -> (r: Availability)
    ensures
        r@ == readiness(group@, *situation),
{
    if same(group, "compositor") {
        if situation.compositor {
            Availability::Available
        } else {
            Availability::Unavailable("no supported compositor is responding".to_owned())
        }
    } else if same(group, "tailscale") {
        if situation.tailscale {
            Availability::Available
        } else {
            Availability::Unavailable("the tailscale CLI is not installed".to_owned())
        }
    } else if same(group, "nix") {
        available_if(&situation.nix)
    } else if same(group, "system") {
        available_if(&situation.system)
    } else if same(group, "capture") {
        available_if(&situation.capture)
    } else if same(group, "localsend") {
        available_if(&situation.localsend)
    } else {
        Availability::Planned
    }
}

/// A parameter as it is described.
pub open spec fn param_json(param: (Seq<char>, Seq<char>)) -> Json {
    Json::Object(seq![("name"@, Json::Text(param.0)), ("type"@, Json::Text(param.1))])
}

/// What a method is called within the whole contract.
pub open spec fn full_name(group: Seq<char>, name: Seq<char>) -> Seq<char> {
    group + "."@ + name
}

/// A method as it is described.
pub open spec fn method_json(group: Seq<char>, method: MethodModel) -> Json {
    Json::Object(
        seq![
            ("name"@, Json::Text(full_name(group, method.name))),
            ("summary"@, Json::Text(method.summary)),
            ("streaming"@, Json::Bool(method.streaming)),
            (
                "params"@,
                Json::List(method.params.map_values(|p: (Seq<char>, Seq<char>)| param_json(p))),
            ),
        ],
    )
}

/// An optional text as a value.
pub open spec fn optional_json(s: Option<Seq<char>>) -> Json {
    match s {
        Some(text) => Json::Text(text),
        None => Json::Null,
    }
}

/// A group as it is described.
pub open spec fn group_json(group: GroupModel, situation: Situation) -> Json {
    let ready = readiness(group.name, situation);
    Json::Object(
        seq![
            ("name"@, Json::Text(group.name)),
            ("summary"@, Json::Text(group.summary)),
            ("status"@, Json::Text(ready.status())),
            ("reason"@, optional_json(ready.reason())),
            (
                "methods"@,
                Json::List(group.methods.map_values(|m: MethodModel| method_json(group.name, m))),
            ),
        ],
    )
}

/// The whole contract as it is described.
pub open spec fn description(situation: Situation) -> Json {
    Json::Object(
        seq![
            ("version"@, Json::Text(VERSION@)),
            ("major"@, Json::Whole(VERSION_MAJOR as int)),
            ("minor"@, Json::Whole(VERSION_MINOR as int)),
            (
                "groups"@,
                Json::List(contract().map_values(|g: GroupModel| group_json(g, situation))),
            ),
        ],
    )
}

/// What a method is called within the whole contract.
fn whole_name(group: &str, name: &str) -> (r: String)
    ensures
        r@ == full_name(group@, name@),
{
    let mut out = group.to_owned();
    out.append(".");
    out.append(name);
    out
}

/// Parameters as they are described.
fn describe_params(params: &Vec<(&'static str, &'static str)>) -> (r: Value)
    ensures
        r@ == Json::List(
            param_models(params@).map_values(|p: (Seq<char>, Seq<char>)| param_json(p)),
        ),
{
    let ghost all = param_models(params@).map_values(|p: (Seq<char>, Seq<char>)| param_json(p));
    let mut out: Vec<Value> = Vec::new();
    let mut i: usize = 0;
    while i < params.len()
        invariant
            all == param_models(params@).map_values(|p: (Seq<char>, Seq<char>)| param_json(p)),
            i <= params@.len(),
            models(out@) == all.take(i as int),
        decreases params.len() - i,
    {
        let ghost before = models(out@);
        let mut fields: Vec<(String, Value)> = Vec::new();
        fields.push(pair("name", text(params[i].0)));
        fields.push(pair("type", text(params[i].1)));
        assert(param_models(params@)[i as int] == (params@[i as int].0@, params@[i as int].1@));
        assert(Json::Object(field_models(fields@)) == all[i as int]) by {
            assert(field_models(fields@) =~= all[i as int]->Object_0);
        }
        out.push(object(fields));
        assert(models(out@) =~= before.push(all[i as int]));
        assert(all.take(i + 1) =~= before.push(all[i as int]));
        i += 1;
    }
    assert(all.take(i as int) =~= all);
    list(out)
}

/// Methods as they are described.
fn describe_methods(group: &str, methods: &Vec<Method>) -> (r: Value)
    ensures
        r@ == Json::List(
            method_models(methods@).map_values(|m: MethodModel| method_json(group@, m)),
        ),
{
    let ghost all = method_models(methods@).map_values(|m: MethodModel| method_json(group@, m));
    let mut out: Vec<Value> = Vec::new();
    let mut i: usize = 0;
    while i < methods.len()
        invariant
            all == method_models(methods@).map_values(|m: MethodModel| method_json(group@, m)),
            i <= methods@.len(),
            models(out@) == all.take(i as int),
        decreases methods.len() - i,
    {
        let ghost before = models(out@);
        let method = &methods[i];
        let params = describe_params(&method.params);
        let ghost last = params@;
        let mut fields: Vec<(String, Value)> = Vec::new();
        fields.push(pair("name", text(whole_name(group, method.name).as_str())));
        fields.push(pair("summary", text(method.summary)));
        fields.push(pair("streaming", Value::Bool(method.streaming)));
        fields.push(pair("params", params));
        assert(method_models(methods@)[i as int] == methods@[i as int]@);
        assert(Json::Object(field_models(fields@)) == all[i as int]) by {
            assert(field_models(fields@)[3] == ("params"@, last));
            assert(field_models(fields@) =~= all[i as int]->Object_0);
        }
        out.push(object(fields));
        assert(models(out@) =~= before.push(all[i as int]));
        assert(all.take(i + 1) =~= before.push(all[i as int]));
        i += 1;
    }
    assert(all.take(i as int) =~= all);
    list(out)
}

/// A group as it is described.
fn describe_group(group: &Group, situation: &Situation) -> (r: Value)
    ensures
        r@ == group_json(group@, *situation),
{
    let ready = availability(group.name, situation);
    let reason = match ready.reason() {
        Some(reason) => text(reason),
        None => Value::Null,
    };
    let methods = describe_methods(group.name, &group.methods);
    let ghost last = methods@;
    let ghost why = reason@;
    let mut fields: Vec<(String, Value)> = Vec::new();
    fields.push(pair("name", text(group.name)));
    fields.push(pair("summary", text(group.summary)));
    fields.push(pair("status", text(ready.status())));
    fields.push(pair("reason", reason));
    fields.push(pair("methods", methods));
    assert(field_models(fields@)[3] == ("reason"@, why));
    assert(field_models(fields@)[4] == ("methods"@, last));
    assert(field_models(fields@) =~= group_json(group@, *situation)->Object_0);
    object(fields)
}

/// The whole contract: its version, its groups and methods, and what can be called right now.
pub fn describe(situation: &Situation) -> (r: Value)
    ensures
        r@ == description(*situation),
{
    let known = groups();
    let ghost all = contract().map_values(|g: GroupModel| group_json(g, *situation));
    let mut out: Vec<Value> = Vec::new();
    let mut i: usize = 0;
    assert(group_models(known@).len() == known@.len());
    while i < known.len()
        invariant
            group_models(known@) == contract(),
            known@.len() == contract().len(),
            all == contract().map_values(|g: GroupModel| group_json(g, *situation)),
            i <= known@.len(),
            models(out@) == all.take(i as int),
        decreases known.len() - i,
    {
        let ghost before = models(out@);
        assert(group_models(known@)[i as int] == known@[i as int]@);
        out.push(describe_group(&known[i], situation));
        assert(models(out@) =~= before.push(all[i as int]));
        assert(all.take(i + 1) =~= before.push(all[i as int]));
        i += 1;
    }
    assert(all.take(i as int) =~= all);
    let described = list(out);
    let ghost last = described@;
    let mut fields: Vec<(String, Value)> = Vec::new();
    fields.push(pair("version", text(VERSION)));
    fields.push(pair("major", whole(VERSION_MAJOR as u64)));
    fields.push(pair("minor", whole(VERSION_MINOR as u64)));
    fields.push(pair("groups", described));
    assert(field_models(fields@)[3] == ("groups"@, last));
    assert(field_models(fields@) =~= description(*situation)->Object_0);
    object(fields)
}

/// The first of the groups with that name.
pub open spec fn group_named(groups: Seq<GroupModel>, name: Seq<char>) -> Option<GroupModel>
    decreases groups.len(),
{
    if groups.len() == 0 {
        None
    } else if groups[0].name == name {
        Some(groups[0])
    } else {
        group_named(groups.drop_first(), name)
    }
}

/// Whether a method is among some.
pub open spec fn is_method(methods: Seq<MethodModel>, name: Seq<char>) -> bool {
    exists|i: int| 0 <= i < methods.len() && (#[trigger] methods[i]).name == name
}

/// Whether a method that streams is among some.
pub open spec fn is_stream(methods: Seq<MethodModel>, name: Seq<char>) -> bool {
    exists|i: int|
        0 <= i < methods.len() && (#[trigger] methods[i]).name == name && methods[i].streaming
}

/// The group of the contract with that name.
fn find_group(name: &str) -> (r: Option<Group>)
    ensures
        match r {
            Some(group) => group_named(contract(), name@) == Some(group@),
            None => group_named(contract(), name@) is None,
        },
{
    let known = groups();
    let ghost all = group_models(known@);
    assert(all.skip(0) =~= all);
    let number: usize = known.len();
    let mut i: usize = 0;
    for group in it: known
        invariant
            it.seq().len() == all.len(),
            forall|k: int| 0 <= k < all.len() ==> (#[trigger] it.seq()[k])@ == all[k],
            i == it.index(),
            all == contract(),
            group_named(all, name@) == group_named(all.skip(i as int), name@),
            i <= all.len() == number,
    {
        assert(all.skip(i as int)[0] == group@);
        assert(all.skip(i as int).drop_first() =~= all.skip(i + 1));
        if same(group.name, name) {
            return Some(group);
        }
        i += 1;
    }
    None
}

/// Whether a group has a method.
fn has_method(group: &Group, name: &str) -> (r: bool)
    ensures
        r == is_method(group@.methods, name@),
{
    let mut i: usize = 0;
    while i < group.methods.len()
        invariant
            i <= group.methods@.len(),
            forall|k: int| 0 <= k < i ==> (#[trigger] group@.methods[k]).name != name@,
        decreases group.methods.len() - i,
    {
        assert(group@.methods[i as int] == group.methods@[i as int]@);
        if same(group.methods[i].name, name) {
            return true;
        }
        i += 1;
    }
    false
}

/// Whether a method of the whole contract streams.
pub open spec fn streams(method: Seq<char>) -> bool {
    first_of(method, '.') < method.len() && match group_named(
        contract(),
        before_first(method, '.'),
    ) {
        Some(group) => is_stream(group.methods, after_first(method, '.')),
        None => false,
    }
}

/// Whether a method streams. The connection is held open for it.
pub fn is_streaming(method: &str) -> (r: bool)
    ensures
        r == streams(method@),
{
    let (name, call) = match split_first(method, '.') {
        (name, Some(call)) => (name, call),
        (_, None) => return false,
    };
    let group = match find_group(name.as_str()) {
        Some(group) => group,
        None => return false,
    };
    let mut i: usize = 0;
    while i < group.methods.len()
        invariant
            i <= group.methods@.len(),
            first_of(method@, '.') < method@.len(),
            call@ == after_first(method@, '.'),
            group_named(contract(), before_first(method@, '.')) == Some(group@),
            forall|k: int|
                0 <= k < i ==> !((#[trigger] group@.methods[k]).name == call@
                    && group@.methods[k].streaming),
        decreases group.methods.len() - i,
    {
        assert(group@.methods[i as int] == group.methods@[i as int]@);
        if same(group.methods[i].name, call.as_str()) && group.methods[i].streaming {
            return true;
        }
        i += 1;
    }
    false
}

/// Refuses to stream a method that does not. What goes over the stream is the state of the
/// compositor.
pub fn stream(method: &str) -> (r: Result<(), ApiError>)
    ensures
        match r {
            Ok(_) => method@ == "compositor.subscribe"@,
            Err(error) => method@ != "compositor.subscribe"@ && error.is(
                ErrorCode::UnknownMethod,
                "\""@ + method@ + "\" is not a streaming method"@,
            ),
        },
{
    if same(method, "compositor.subscribe") {
        return Ok(());
    }
    let mut message = "\"".to_owned();
    message.append(method);
    message.append("\" is not a streaming method");
    Err(ApiError::new(ErrorCode::UnknownMethod, message))
}

/// Whether a method answers even where its group cannot be called. One that tells what is missing is
/// of most use where something is.
pub open spec fn always_answers(method: Seq<char>) -> bool {
    method == "capture.status"@ || method == "capture.recording"@ || method == "nix.status"@
        || method == "system.stayAwake"@ || method == "system.hardware"@
}

/// Whether a method answers even where its group cannot be called.
pub fn answers_anyway(method: &str) -> (r: bool)
    ensures
        r == always_answers(method@),
{
    same(method, "capture.status") || same(method, "capture.recording") || same(
        method,
        "nix.status",
    ) || same(method, "system.stayAwake") || same(method, "system.hardware")
}

/// The names of the groups, for a caller that named none of them.
pub open spec fn groups_json() -> Json {
    Json::Object(
        seq![
            (
                "groups"@,
                Json::List(
                    contract().map_values(|g: GroupModel| g.name).map_values(
                        |s: Seq<char>| Json::Text(s),
                    ),
                ),
            ),
        ],
    )
}

/// The names of the methods of a group, for a caller that named none of them.
pub open spec fn methods_json(group: GroupModel) -> Json {
    Json::Object(
        seq![
            (
                "methods"@,
                Json::List(
                    group.methods.map_values(
                        |m: MethodModel| full_name(group.name, m.name),
                    ).map_values(|s: Seq<char>| Json::Text(s)),
                ),
            ),
        ],
    )
}

/// What is said of a version that is not spoken.
pub open spec fn version_text(requested: u32) -> Seq<char> {
    "this build speaks API v1, caller asked for v"@ + decimal(requested as nat)
}

/// What is said of a name that is none of a method.
pub open spec fn no_method_text(method: Seq<char>) -> Seq<char> {
    "\""@ + method + "\" is not a method name; expected \"group.method\""@
}

/// What is said of a group that there is not.
pub open spec fn no_group_text(group: Seq<char>) -> Seq<char> {
    "no API group \""@ + group + "\""@
}

/// What is said of a group that cannot be called.
pub open spec fn unavailable_text(group: Seq<char>, ready: Readiness) -> Seq<char> {
    "the \""@ + group + "\" group is "@ + ready.status() + " here: "@ + (match ready.reason() {
        Some(reason) => reason,
        None => "unavailable"@,
    })
}

/// What a call of a method that there is comes to.
pub open spec fn is_called(
    r: Result<Call, ApiError>,
    method: Seq<char>,
    params: Json,
    given: Given,
) -> bool {
    let group = before_first(method, '.');
    let name = after_first(method, '.');
    if group == "compositor"@ {
        is_compositor_call(r, method, name, params)
    } else if group == "tailscale"@ {
        is_tailscale_call(r, method, name, params)
    } else if group == "capture"@ {
        is_capture_call(r, method, name, params, given.delay, owned(given.home))
    } else if group == "system"@ {
        is_system_call(r, method, name, params)
    } else if group == "nix"@ {
        is_nix_call(r, method, name, params)
    } else if group == "localsend"@ {
        is_localsend_call(r, method, name, params, given)
    } else {
        is_unknown(r, method)
    }
}

/// What a call comes to.
pub open spec fn is_dispatched(
    r: Result<Call, ApiError>,
    method: Seq<char>,
    params: Json,
    version: Option<u32>,
    situation: Situation,
    given: Given,
) -> bool {
    let name = before_first(method, '.');
    if version is Some && version->0 != VERSION_MAJOR {
        r is Err && r->Err_0.is(ErrorCode::VersionMismatch, version_text(version->0))
    } else if method == "api.describe"@ {
        r matches Ok(Call::Answer(described)) && described@ == description(situation)
    } else if first_of(method, '.') >= method.len() {
        r is Err && r->Err_0.is_with(
            ErrorCode::UnknownMethod,
            no_method_text(method),
            groups_json(),
        )
    } else {
        match group_named(contract(), name) {
            None => r is Err && r->Err_0.is_with(
                ErrorCode::UnknownGroup,
                no_group_text(name),
                groups_json(),
            ),
            Some(group) => {
                let ready = readiness(name, situation);
                if !(ready is Available) && !always_answers(method) {
                    r is Err && r->Err_0.is(ErrorCode::Unavailable, unavailable_text(name, ready))
                } else if !is_method(group.methods, after_first(method, '.')) {
                    r is Err && r->Err_0.is_with(
                        ErrorCode::UnknownMethod,
                        unknown_text(method),
                        methods_json(group),
                    )
                } else {
                    is_called(r, method, params, given)
                }
            },
        }
    }
}

/// The names of the groups, for a caller that named none of them.
fn list_groups() -> (r: Value)
    ensures
        r@ == groups_json(),
{
    let known = groups();
    let ghost all = contract().map_values(|g: GroupModel| g.name);
    let mut names: Vec<String> = Vec::new();
    let mut i: usize = 0;
    assert(group_models(known@).len() == known@.len());
    while i < known.len()
        invariant
            group_models(known@) == contract(),
            known@.len() == contract().len(),
            all == contract().map_values(|g: GroupModel| g.name),
            i <= known@.len(),
            texts(names@) == all.take(i as int),
        decreases known.len() - i,
    {
        let ghost before = texts(names@);
        assert(group_models(known@)[i as int] == known@[i as int]@);
        names.push(known[i].name.to_owned());
        assert(texts(names@) =~= before.push(all[i as int]));
        assert(all.take(i + 1) =~= before.push(all[i as int]));
        i += 1;
    }
    assert(all.take(i as int) =~= all);
    named_list("groups", &names)
}

/// An object of one field, which is a list of texts.
fn named_list(name: &str, items: &Vec<String>) -> (r: Value)
    ensures
        r@ == Json::Object(
            seq![
                (name@, Json::List(texts(items@).map_values(|s: Seq<char>| Json::Text(s)))),
            ],
        ),
{
    let listed = text_list(items);
    let ghost last = listed@;
    let mut fields: Vec<(String, Value)> = Vec::new();
    fields.push(pair(name, listed));
    assert(field_models(fields@) =~= seq![(name@, last)]);
    object(fields)
}

/// The names of the methods of a group, for a caller that named none of them.
fn list_methods(group: &Group) -> (r: Value)
    ensures
        r@ == methods_json(group@),
{
    let ghost all = group@.methods.map_values(|m: MethodModel| full_name(group@.name, m.name));
    let mut names: Vec<String> = Vec::new();
    let mut i: usize = 0;
    while i < group.methods.len()
        invariant
            all == group@.methods.map_values(|m: MethodModel| full_name(group@.name, m.name)),
            i <= group.methods@.len(),
            texts(names@) == all.take(i as int),
        decreases group.methods.len() - i,
    {
        let ghost before = texts(names@);
        assert(group@.methods[i as int] == group.methods@[i as int]@);
        names.push(whole_name(group.name, group.methods[i].name));
        assert(texts(names@) =~= before.push(all[i as int]));
        assert(all.take(i + 1) =~= before.push(all[i as int]));
        i += 1;
    }
    assert(all.take(i as int) =~= all);
    named_list("methods", &names)
}

/// The refusal of a group that cannot be called.
fn unavailable(group: &str, ready: &Availability) -> (r: ApiError)
    ensures
        r.is(ErrorCode::Unavailable, unavailable_text(group@, ready@)),
{
    let mut message = "the \"".to_owned();
    message.append(group);
    message.append("\" group is ");
    message.append(ready.status());
    message.append(" here: ");
    match ready.reason() {
        Some(reason) => message.append(reason),
        None => message.append("unavailable"),
    }
    ApiError::new(ErrorCode::Unavailable, message)
}

/// A call of a method that there is.
fn called(method: &str, group: &str, name: &str, params: &Value, given: Given) -> (r: Result<
    Call,
    ApiError,
>)
    requires
        group@ == before_first(method@, '.'),
        name@ == after_first(method@, '.'),
    ensures
        is_called(r, method@, params@, given),
{
    if same(group, "compositor") {
        compositor_call(method, name, params)
    } else if same(group, "tailscale") {
        tailscale_call(method, name, params)
    } else if same(group, "capture") {
        capture_call(method, name, params, given.delay, borrowed(&given.home))
    } else if same(group, "system") {
        system_call(method, name, params)
    } else if same(group, "nix") {
        nix_call(method, name, params)
    } else if same(group, "localsend") {
        localsend_call(method, name, params, &given)
    } else {
        Err(ApiError::new(ErrorCode::UnknownMethod, unknown_message(method)))
    }
}

/// What a call of `group.method` comes to. `version` is the major version that the caller was built
/// for: another is refused, and not served in a shape that the caller may not understand.
pub fn dispatch(
    method: &str,
    params: &Value,
    version: Option<u32>,
    situation: &Situation,
    given: Given,
) -> (r: Result<Call, ApiError>)
    ensures
        is_dispatched(r, method@, params@, version, *situation, given),
{
    if let Some(requested) = version {
        if requested != VERSION_MAJOR {
            let mut message = "this build speaks API v1, caller asked for v".to_owned();
            message.append(write_u64(requested as u64).as_str());
            return Err(ApiError::new(ErrorCode::VersionMismatch, message));
        }
    }
    if same(method, "api.describe") {
        return Ok(Call::Answer(describe(situation)));
    }
    let (group_name, call) = match split_first(method, '.') {
        (group_name, Some(call)) => (group_name, call),
        (_, None) => {
            let mut message = "\"".to_owned();
            message.append(method);
            message.append("\" is not a method name; expected \"group.method\"");
            return Err(
                ApiError::new(ErrorCode::UnknownMethod, message).with_detail(list_groups()),
            );
        },
    };
    let group = match find_group(group_name.as_str()) {
        Some(group) => group,
        None => {
            let mut message = "no API group \"".to_owned();
            message.append(group_name.as_str());
            message.append("\"");
            return Err(
                ApiError::new(ErrorCode::UnknownGroup, message).with_detail(list_groups()),
            );
        },
    };
    let ready = availability(group_name.as_str(), situation);
    if !ready.callable() && !answers_anyway(method) {
        return Err(unavailable(group_name.as_str(), &ready));
    }
    if !has_method(&group, call.as_str()) {
        return Err(
            ApiError::new(ErrorCode::UnknownMethod, unknown_message(method)).with_detail(
                list_methods(&group),
            ),
        );
    }
    called(method, group_name.as_str(), call.as_str(), params, given)
}

/// What stands before and after the dot in the full name of a method.
proof fn full_name_splits(group: Seq<char>, name: Seq<char>)
    requires
        forall|i: int| 0 <= i < group.len() ==> group[i] != '.',
    ensures
        first_of(full_name(group, name), '.') == group.len(),
        group.len() < full_name(group, name).len(),
        before_first(full_name(group, name), '.') == group,
        after_first(full_name(group, name), '.') == name,
{
    reveal_strlit(".");
    let all = full_name(group, name);
    first_of_is_unique(all, '.', group.len() as int);
    assert(before_first(all, '.') =~= group);
    assert(after_first(all, '.') =~= name);
}

/// The groups of the contract by name.
proof fn groups_by_name()
    ensures
        group_named(contract(), "compositor"@) == Some(contract()[0]),
        group_named(contract(), "tailscale"@) == Some(contract()[1]),
        group_named(contract(), "capture"@) == Some(contract()[2]),
        group_named(contract(), "localsend"@) == Some(contract()[3]),
        group_named(contract(), "dev"@) == Some(contract()[4]),
        group_named(contract(), "nix"@) == Some(contract()[5]),
        group_named(contract(), "system"@) == Some(contract()[6]),
        contract().len() == 7,
{
    reveal_strlit("compositor");
    reveal_strlit("tailscale");
    reveal_strlit("capture");
    reveal_strlit("localsend");
    reveal_strlit("dev");
    reveal_strlit("nix");
    reveal_strlit("system");
    let all = contract();
    assert("compositor"@.len() == 10 && "tailscale"@.len() == 9 && "localsend"@.len() == 9);
    assert("tailscale"@[0] == 't' && "localsend"@[0] == 'l');
    assert("dev"@[0] == 'd' && "nix"@[0] == 'n');
    assert("capture"@.len() == 7 && "system"@.len() == 6);
    group_after(all, "compositor"@, 0);
    group_after(all, "tailscale"@, 1);
    group_after(all, "capture"@, 2);
    group_after(all, "localsend"@, 3);
    group_after(all, "dev"@, 4);
    group_after(all, "nix"@, 5);
    group_after(all, "system"@, 6);
}

/// The group of a name is the first that has it.
proof fn group_after(all: Seq<GroupModel>, name: Seq<char>, i: int)
    requires
        0 <= i < all.len(),
        all[i].name == name,
        forall|k: int| 0 <= k < i ==> (#[trigger] all[k]).name != name,
    ensures
        group_named(all, name) == Some(all[i]),
    decreases all.len(),
{
    if i > 0 {
        let rest = all.drop_first();
        assert forall|k: int| 0 <= k < i - 1 implies (#[trigger] rest[k]).name != name by {
            assert(rest[k] == all[k + 1]);
        }
        group_after(rest, name, i - 1);
    }
}

/// Every method that answers even where its group cannot is one of the contract.
pub proof fn every_diagnostic_is_in_the_contract(method: Seq<char>)
    requires
        always_answers(method),
    ensures
        ({
            let group = group_named(contract(), before_first(method, '.'));
            group is Some && is_method((group->0).methods, after_first(method, '.'))
        }),
{
    groups_by_name();
    reveal_strlit(".");
    reveal_strlit("capture");
    reveal_strlit("nix");
    reveal_strlit("system");
    reveal_strlit("status");
    reveal_strlit("recording");
    reveal_strlit("stayAwake");
    reveal_strlit("hardware");
    reveal_strlit("capture.status");
    reveal_strlit("capture.recording");
    reveal_strlit("nix.status");
    reveal_strlit("system.stayAwake");
    reveal_strlit("system.hardware");
    full_name_splits("capture"@, "status"@);
    full_name_splits("capture"@, "recording"@);
    full_name_splits("nix"@, "status"@);
    full_name_splits("system"@, "stayAwake"@);
    full_name_splits("system"@, "hardware"@);
    assert("capture.status"@ =~= full_name("capture"@, "status"@));
    assert("capture.recording"@ =~= full_name("capture"@, "recording"@));
    assert("nix.status"@ =~= full_name("nix"@, "status"@));
    assert("system.stayAwake"@ =~= full_name("system"@, "stayAwake"@));
    assert("system.hardware"@ =~= full_name("system"@, "hardware"@));
    assert(capture_methods()[5].name == "status"@);
    assert(capture_methods()[4].name == "recording"@);
    assert(nix_methods()[0].name == "status"@);
    assert(system_methods()[1].name == "stayAwake"@);
    assert(system_methods()[2].name == "hardware"@);
}

/// A caller that was built for another major version is refused, whatever it asks for.
pub proof fn another_version_is_refused(
    r: Result<Call, ApiError>,
    method: Seq<char>,
    params: Json,
    version: u32,
    situation: Situation,
    given: Given,
)
    requires
        version != VERSION_MAJOR,
        is_dispatched(r, method, params, Some(version), situation, given),
    ensures
        r is Err && r->Err_0.code == ErrorCode::VersionMismatch,
{
}

/// A group that is planned is refused as unavailable, whatever is asked of it, and is not answered
/// with something empty.
pub proof fn a_planned_group_is_refused(
    r: Result<Call, ApiError>,
    name: Seq<char>,
    params: Json,
    situation: Situation,
    given: Given,
)
    requires
        is_dispatched(r, full_name("dev"@, name), params, None, situation, given),
    ensures
        r is Err && r->Err_0.code == ErrorCode::Unavailable,
{
    let method = full_name("dev"@, name);
    reveal_strlit("dev");
    reveal_strlit(".");
    reveal_strlit("api.describe");
    reveal_strlit("capture.status");
    reveal_strlit("capture.recording");
    reveal_strlit("nix.status");
    reveal_strlit("system.stayAwake");
    reveal_strlit("system.hardware");
    reveal_strlit("compositor");
    reveal_strlit("tailscale");
    reveal_strlit("capture");
    reveal_strlit("localsend");
    reveal_strlit("nix");
    reveal_strlit("system");
    full_name_splits("dev"@, name);
    groups_by_name();
    assert(method[0] == 'd');
    assert("api.describe"@[0] == 'a');
    assert("capture.status"@[0] == 'c' && "capture.recording"@[0] == 'c');
    assert("nix.status"@[0] == 'n');
    assert("system.stayAwake"@[0] == 's' && "system.hardware"@[0] == 's');
    assert("nix"@[0] == 'n' && "dev"@[0] == 'd');
    assert(readiness("dev"@, situation) is Planned);
}

/// A method that tells what is missing is not refused for that.
pub proof fn a_diagnostic_is_not_refused(
    r: Result<Call, ApiError>,
    method: Seq<char>,
    params: Json,
    situation: Situation,
    given: Given,
)
    requires
        always_answers(method),
        is_dispatched(r, method, params, None, situation, given),
    ensures
        is_called(r, method, params, given),
{
    every_diagnostic_is_in_the_contract(method);
    reveal_strlit("api.describe");
    reveal_strlit("capture.status");
    reveal_strlit("capture.recording");
    reveal_strlit("nix.status");
    reveal_strlit("system.stayAwake");
    reveal_strlit("system.hardware");
    assert("api.describe"@[0] == 'a');
    assert(method[0] != 'a');
    first_of_is_first(method, '.');
    assert(method[7] == '.' || method[3] == '.' || method[6] == '.');
}

/// Whether a call was refused because there is no such method.
pub open spec fn not_known(r: Result<Call, ApiError>) -> bool {
    r is Err && r->Err_0.code == ErrorCode::UnknownMethod
}

/// Every method of the contract leads somewhere: a call of it is never answered with there being no
/// such method.
pub proof fn every_listed_method_is_known(
    r: Result<Call, ApiError>,
    group: int,
    index: int,
    params: Json,
    given: Given,
)
    requires
        0 <= group < contract().len(),
        0 <= index < contract()[group].methods.len(),
        is_called(
            r,
            full_name(contract()[group].name, contract()[group].methods[index].name),
            params,
            given,
        ),
    ensures
        !not_known(r),
{
    reveal_strlit("compositor");
    reveal_strlit("tailscale");
    reveal_strlit("capture");
    reveal_strlit("localsend");
    reveal_strlit("dev");
    reveal_strlit("nix");
    reveal_strlit("system");
    assert("compositor"@.len() == 10 && "tailscale"@.len() == 9 && "localsend"@.len() == 9);
    assert("tailscale"@[0] == 't' && "localsend"@[0] == 'l' && "nix"@[0] == 'n');
    assert("capture"@.len() == 7 && "system"@.len() == 6);
    full_name_splits(contract()[group].name, contract()[group].methods[index].name);
}

/// A call goes to the group that stands before its dot, under the name that stands behind it.
pub proof fn a_call_goes_to_its_group(
    r: Result<Call, ApiError>,
    name: Seq<char>,
    params: Json,
    given: Given,
)
    ensures
        is_called(r, "compositor."@ + name, params, given) <==> is_compositor_call(
            r,
            "compositor."@ + name,
            name,
            params,
        ),
        is_called(r, "tailscale."@ + name, params, given) <==> is_tailscale_call(
            r,
            "tailscale."@ + name,
            name,
            params,
        ),
        is_called(r, "capture."@ + name, params, given) <==> is_capture_call(
            r,
            "capture."@ + name,
            name,
            params,
            given.delay,
            owned(given.home),
        ),
        is_called(r, "system."@ + name, params, given) <==> is_system_call(
            r,
            "system."@ + name,
            name,
            params,
        ),
        is_called(r, "nix."@ + name, params, given) <==> is_nix_call(
            r,
            "nix."@ + name,
            name,
            params,
        ),
        is_called(r, "localsend."@ + name, params, given) <==> is_localsend_call(
            r,
            "localsend."@ + name,
            name,
            params,
            given,
        ),
{
    names_of_groups();
    names_with_dots(name);
    full_name_splits("compositor"@, name);
    full_name_splits("tailscale"@, name);
    full_name_splits("capture"@, name);
    full_name_splits("system"@, name);
    full_name_splits("nix"@, name);
    full_name_splits("localsend"@, name);
}

/// The names of the groups differ, and no dot stands in them.
proof fn names_of_groups()
    ensures
        "compositor"@.len() == 10,
        "tailscale"@.len() == 9,
        "capture"@.len() == 7,
        "localsend"@.len() == 9,
        "dev"@.len() == 3,
        "nix"@.len() == 3,
        "system"@.len() == 6,
        "tailscale"@[0] == 't',
        "localsend"@[0] == 'l',
        "dev"@[0] == 'd',
        "nix"@[0] == 'n',
        forall|i: int| 0 <= i < 10 ==> "compositor"@[i] != '.',
        forall|i: int| 0 <= i < 9 ==> "tailscale"@[i] != '.',
        forall|i: int| 0 <= i < 7 ==> "capture"@[i] != '.',
        forall|i: int| 0 <= i < 9 ==> "localsend"@[i] != '.',
        forall|i: int| 0 <= i < 3 ==> "nix"@[i] != '.',
        forall|i: int| 0 <= i < 6 ==> "system"@[i] != '.',
{
    reveal_strlit("compositor");
    reveal_strlit("tailscale");
    reveal_strlit("capture");
    reveal_strlit("localsend");
    reveal_strlit("dev");
    reveal_strlit("nix");
    reveal_strlit("system");
}

/// The full names of methods, with the dot in the name of the group.
proof fn names_with_dots(name: Seq<char>)
    ensures
        "compositor."@ + name == full_name("compositor"@, name),
        "tailscale."@ + name == full_name("tailscale"@, name),
        "capture."@ + name == full_name("capture"@, name),
        "system."@ + name == full_name("system"@, name),
        "nix."@ + name == full_name("nix"@, name),
        "localsend."@ + name == full_name("localsend"@, name),
{
    reveal_strlit(".");
    reveal_strlit("compositor");
    reveal_strlit("compositor.");
    reveal_strlit("tailscale");
    reveal_strlit("tailscale.");
    reveal_strlit("capture");
    reveal_strlit("capture.");
    reveal_strlit("system");
    reveal_strlit("system.");
    reveal_strlit("nix");
    reveal_strlit("nix.");
    reveal_strlit("localsend");
    reveal_strlit("localsend.");
    assert("compositor."@ + name =~= full_name("compositor"@, name));
    assert("tailscale."@ + name =~= full_name("tailscale"@, name));
    assert("capture."@ + name =~= full_name("capture"@, name));
    assert("system."@ + name =~= full_name("system"@, name));
    assert("nix."@ + name =~= full_name("nix"@, name));
    assert("localsend."@ + name =~= full_name("localsend"@, name));
}

/// A group that cannot be used here is refused as such, whatever is asked of it, unless that is what is
/// asked about.
pub proof fn what_cannot_be_used_is_refused(
    r: Result<Call, ApiError>,
    method: Seq<char>,
    name: Seq<char>,
    params: Json,
    situation: Situation,
    given: Given,
)
    requires
        is_dispatched(r, method, params, None, situation, given),
        !always_answers(method),
    ensures
        method == "compositor."@ + name && !situation.compositor ==> r is Err && r->Err_0.code
            == ErrorCode::Unavailable,
        method == "tailscale."@ + name && !situation.tailscale ==> r is Err && r->Err_0.code
            == ErrorCode::Unavailable,
        method == "nix."@ + name && situation.nix is Err ==> r is Err && r->Err_0.code
            == ErrorCode::Unavailable,
        method == "system."@ + name && situation.system is Err ==> r is Err && r->Err_0.code
            == ErrorCode::Unavailable,
        method == "capture."@ + name && situation.capture is Err ==> r is Err && r->Err_0.code
            == ErrorCode::Unavailable,
        method == "localsend."@ + name && situation.localsend is Err ==> r is Err && r->Err_0.code
            == ErrorCode::Unavailable,
{
    a_call_is_looked_up(method, name);
    names_of_groups();
    groups_by_name();
}

/// What a full name of a method is made of.
proof fn a_call_is_looked_up(method: Seq<char>, name: Seq<char>)
    ensures
        method == "compositor."@ + name ==> before_first(method, '.') == "compositor"@ && after_first(
            method,
            '.',
        ) == name && first_of(method, '.') < method.len() && method != "api.describe"@,
        method == "tailscale."@ + name ==> before_first(method, '.') == "tailscale"@ && after_first(
            method,
            '.',
        ) == name && first_of(method, '.') < method.len() && method != "api.describe"@,
        method == "nix."@ + name ==> before_first(method, '.') == "nix"@ && after_first(method, '.')
            == name && first_of(method, '.') < method.len() && method != "api.describe"@,
        method == "system."@ + name ==> before_first(method, '.') == "system"@ && after_first(
            method,
            '.',
        ) == name && first_of(method, '.') < method.len() && method != "api.describe"@,
        method == "capture."@ + name ==> before_first(method, '.') == "capture"@ && after_first(
            method,
            '.',
        ) == name && first_of(method, '.') < method.len() && method != "api.describe"@,
        method == "localsend."@ + name ==> before_first(method, '.') == "localsend"@ && after_first(
            method,
            '.',
        ) == name && first_of(method, '.') < method.len() && method != "api.describe"@,
{
    names_of_groups();
    names_with_dots(name);
    full_name_splits("compositor"@, name);
    full_name_splits("tailscale"@, name);
    full_name_splits("capture"@, name);
    full_name_splits("system"@, name);
    full_name_splits("nix"@, name);
    full_name_splits("localsend"@, name);
    reveal_strlit("api.describe");
    reveal_strlit("compositor");
    reveal_strlit("tailscale");
    reveal_strlit("capture");
    reveal_strlit("system");
    reveal_strlit("nix");
    reveal_strlit("localsend");
    assert("api.describe"@[0] == 'a');
    assert(full_name("compositor"@, name)[0] == 'c');
    assert(full_name("tailscale"@, name)[0] == 't');
    assert(full_name("capture"@, name)[0] == 'c');
    assert(full_name("system"@, name)[0] == 's');
    assert(full_name("nix"@, name)[0] == 'n');
    assert(full_name("localsend"@, name)[0] == 'l');
}

/// A call of a method that is listed, in a group that can be used, is carried out, for a caller of this
/// version and for one that names none.
pub proof fn what_can_be_used_is_carried_out(
    r: Result<Call, ApiError>,
    method: Seq<char>,
    name: Seq<char>,
    params: Json,
    version: Option<u32>,
    situation: Situation,
    given: Given,
    k: int,
)
    requires
        is_dispatched(r, method, params, version, situation, given),
        version is None || version == Some(1u32),
    ensures
        method == "compositor."@ + name && situation.compositor && 0 <= k
            < contract()[0].methods.len() && contract()[0].methods[k].name == name
            ==> is_compositor_call(r, method, name, params),
        method == "tailscale."@ + name && situation.tailscale && 0 <= k < contract()[1].methods.len()
            && contract()[1].methods[k].name == name ==> is_tailscale_call(r, method, name, params),
        method == "capture."@ + name && situation.capture is Ok && 0 <= k
            < contract()[2].methods.len() && contract()[2].methods[k].name == name
            ==> is_capture_call(r, method, name, params, given.delay, owned(given.home)),
        method == "localsend."@ + name && situation.localsend is Ok && 0 <= k
            < contract()[3].methods.len() && contract()[3].methods[k].name == name
            ==> is_localsend_call(r, method, name, params, given),
        method == "nix."@ + name && situation.nix is Ok && 0 <= k < contract()[5].methods.len()
            && contract()[5].methods[k].name == name ==> is_nix_call(r, method, name, params),
        method == "system."@ + name && situation.system is Ok && 0 <= k < contract()[6].methods.len()
            && contract()[6].methods[k].name == name ==> is_system_call(r, method, name, params),
{
    a_call_is_looked_up(method, name);
    names_of_groups();
    groups_by_name();
    a_call_goes_to_its_group(r, name, params, given);
}

/// A group that the contract does not have is refused as such, and so is what is no name of a method.
pub proof fn what_is_not_in_the_contract_is_refused(
    r: Result<Call, ApiError>,
    method: Seq<char>,
    params: Json,
    situation: Situation,
    given: Given,
)
    requires
        is_dispatched(r, method, params, None, situation, given),
        method != "api.describe"@,
    ensures
        (forall|i: int| 0 <= i < method.len() ==> method[i] != '.') ==> r is Err && r->Err_0.code
            == ErrorCode::UnknownMethod,
        first_of(method, '.') < method.len() && (forall|i: int|
            0 <= i < contract().len() ==> (#[trigger] contract()[i]).name != before_first(
                method,
                '.',
            )) ==> r is Err && r->Err_0.code == ErrorCode::UnknownGroup,
{
    first_of_is_first(method, '.');
    if forall|i: int|
        0 <= i < contract().len() ==> (#[trigger] contract()[i]).name != before_first(
            method,
            '.',
        ) {
        no_group_named(contract(), before_first(method, '.'));
    }
}

/// Where no group has a name none is found.
proof fn no_group_named(all: Seq<GroupModel>, name: Seq<char>)
    requires
        forall|i: int| 0 <= i < all.len() ==> (#[trigger] all[i]).name != name,
    ensures
        group_named(all, name) is None,
    decreases all.len(),
{
    if all.len() > 0 {
        let rest = all.drop_first();
        assert(all[0].name != name);
        assert forall|i: int| 0 <= i < rest.len() implies (#[trigger] rest[i]).name != name by {
            assert(rest[i] == all[i + 1]);
        }
        no_group_named(rest, name);
    }
}

/// The codes of failures are told apart.
pub proof fn codes_are_told_apart(a: ErrorCode, b: ErrorCode)
    requires
        a.text() == b.text(),
    ensures
        a == b,
{
    reveal_strlit("unknown_group");
    reveal_strlit("unknown_method");
    reveal_strlit("unavailable");
    reveal_strlit("invalid_params");
    reveal_strlit("backend_error");
    reveal_strlit("version_mismatch");
    assert("unknown_group"@.len() == 13 && "unknown_method"@.len() == 14);
    assert("unavailable"@.len() == 11 && "invalid_params"@.len() == 14);
    assert("backend_error"@.len() == 13 && "version_mismatch"@.len() == 16);
    assert("unknown_group"@[0] == 'u' && "backend_error"@[0] == 'b');
    assert("unknown_method"@[0] == 'u' && "invalid_params"@[0] == 'i');
}

/// The contract describes itself: every group stands in it, with its name and whether it can be used.
pub proof fn the_contract_describes_itself(situation: Situation, k: int)
    requires
        0 <= k < contract().len(),
    ensures
        description(situation).field("major"@) == Some(Json::Whole(1)),
        description(situation).field("minor"@) == Some(Json::Whole(0)),
        description(situation).list_at("groups"@).len() == contract().len(),
        description(situation).list_at("groups"@)[k].field("name"@) == Some(
            Json::Text(contract()[k].name),
        ),
        description(situation).list_at("groups"@)[k].list_at("methods"@).len()
            == contract()[k].methods.len(),
        readiness(contract()[k].name, situation) is Available ==> description(situation).list_at(
            "groups"@,
        )[k].field("status"@) == Some(Json::Text("available"@)),
        readiness(contract()[k].name, situation) is Planned ==> description(situation).list_at(
            "groups"@,
        )[k].field("status"@) == Some(Json::Text("planned"@)),
        readiness(contract()[k].name, situation) is Unavailable ==> description(situation).list_at(
            "groups"@,
        )[k].field("status"@) == Some(Json::Text("unavailable"@)),
{
    reveal_strlit("version");
    reveal_strlit("major");
    reveal_strlit("minor");
    reveal_strlit("groups");
    reveal_strlit("name");
    reveal_strlit("summary");
    reveal_strlit("status");
    reveal_strlit("reason");
    reveal_strlit("methods");
    assert("version"@.len() == 7 && "major"@.len() == 5 && "minor"@.len() == 5);
    assert("groups"@.len() == 6 && "major"@[1] == 'a' && "minor"@[1] == 'i');
    let fields = description(situation)->Object_0;
    a_field_is_found(fields, 1);
    a_field_is_found(fields, 2);
    a_field_is_found(fields, 3);
    assert("name"@.len() == 4 && "summary"@.len() == 7 && "status"@.len() == 6);
    assert("reason"@.len() == 6 && "methods"@.len() == 7);
    assert("summary"@[0] == 's' && "methods"@[0] == 'm');
    assert("status"@[0] == 's' && "reason"@[0] == 'r');
    let group = group_json(contract()[k], situation);
    assert(description(situation).list_at("groups"@)[k] == group);
    a_field_is_found(group->Object_0, 0);
    a_field_is_found(group->Object_0, 2);
    a_field_is_found(group->Object_0, 4);
}

/// The methods that the contract says stream are those that are streamed.
pub proof fn what_is_said_to_stream_is_streamed(method: Seq<char>)
    ensures
        streams(method) <==> method == "compositor.subscribe"@,
{
    let group = before_first(method, '.');
    let name = after_first(method, '.');
    reveal_strlit("compositor.subscribe");
    reveal_strlit("compositor.");
    reveal_strlit("subscribe");
    names_of_groups();
    groups_by_name();
    assert("compositor.subscribe"@ =~= "compositor."@ + "subscribe"@);
    if method == "compositor.subscribe"@ {
        a_call_is_looked_up(method, "subscribe"@);
        assert(contract()[0].methods[7].name == "subscribe"@ && contract()[0].methods[7].streaming);
    }
    if streams(method) {
        first_of_is_first(method, '.');
        group_is_listed(contract(), group);
        let i = choose|i: int|
            0 <= i < contract().len() && contract()[i].name == group && group_named(
                contract(),
                group,
            ) == Some(contract()[i]);
        assert(is_stream(contract()[i].methods, name));
        let k = choose|k: int|
            0 <= k < contract()[i].methods.len() && (#[trigger] contract()[i].methods[k]).name == name
                && contract()[i].methods[k].streaming;
        assert(i == 0 && k == 7);
        assert(method =~= group + "."@ + name) by {
            reveal_strlit(".");
        }
        names_with_dots("subscribe"@);
    }
}

/// A group that is found is one of those looked through.
proof fn group_is_listed(all: Seq<GroupModel>, name: Seq<char>)
    requires
        group_named(all, name) is Some,
    ensures
        exists|i: int|
            0 <= i < all.len() && (#[trigger] all[i]).name == name && group_named(all, name) == Some(
                all[i],
            ),
    decreases all.len(),
{
    if all[0].name != name {
        let rest = all.drop_first();
        group_is_listed(rest, name);
        let i = choose|i: int|
            0 <= i < rest.len() && (#[trigger] rest[i]).name == name && group_named(rest, name)
                == Some(rest[i]);
        assert(rest[i] == all[i + 1]);
    } else {
        assert(all[0].name == name);
    }
}

} // verus!
