//! How compositors are reached: what is sent to them, and where their sockets are.

use vstd::prelude::*;
use vstd::string::*;

use crate::number::{decimal_int, parse_i64, signed_of, write_i64};
use crate::text::{
    borrowed, copy_texts, double_quote, double_quoted, lossy, lossy_of, maybe, owned, same,
    shell_quote, shell_quoted, texts, trim, trim_of,
};

verus! {

/// What is sent to Hyprland: one message after the other until one is taken, and what is said
/// where none is.
#[derive(Debug)]
pub struct Dispatch {
    pub attempts: Vec<Vec<String>>,
    pub refused: String,
}

/// What a program printed, where it succeeded.
pub fn output(success: bool, printed: &[u8]) -> (r: Option<String>)
    ensures
        match r {
            Some(said) => success && said@ == trim_of(lossy_of(printed@)),
            None => !success,
        },
{
    if success {
        Some(trim(lossy(printed).as_str()))
    } else {
        None
    }
}

/// Whether Hyprland took what was sent: every other reply than a plain `ok` says that it did not.
pub fn hypr_send(reply: Option<&str>) -> (r: bool)
    ensures
        r == is_taken(maybe(reply)),
{
    match reply {
        Some(reply) => same(trim(reply).as_str(), "ok"),
        None => false,
    }
}

/// Whether Hyprland took what was sent.
pub open spec fn is_taken(reply: Option<Seq<char>>) -> bool {
    reply is Some && trim_of(reply->0) == "ok"@
}

/// What is done next about a dispatch.
#[derive(Debug)]
pub enum DispatchStep {
    /// This message is sent.
    Send(Vec<String>),
    /// One was taken.
    Done,
    /// None was taken.
    Refused(String),
}

/// What is done next, after the replies to the messages that were sent: nothing more where one was
/// taken, and otherwise the next message while there is one.
pub open spec fn is_next_step(step: DispatchStep, d: Dispatch, replies: Seq<Option<Seq<char>>>) -> bool {
    if any_taken(replies) {
        step == DispatchStep::Done
    } else if replies.len() < d.attempts@.len() {
        step matches DispatchStep::Send(message) && texts(message@) == texts(
            d.attempts@[replies.len() as int]@,
        )
    } else {
        step matches DispatchStep::Refused(text) && text@ == d.refused@
    }
}

/// Whether one of the messages was taken.
pub open spec fn any_taken(replies: Seq<Option<Seq<char>>>) -> bool {
    exists|i: int| 0 <= i < replies.len() && is_taken(#[trigger] replies[i])
}

/// What each reply is.
pub open spec fn reply_texts(replies: Seq<Option<String>>) -> Seq<Option<Seq<char>>> {
    replies.map_values(|r: Option<String>| owned(r))
}

impl Dispatch {
    /// What is done next, after the replies to the messages that were sent so far.
    pub fn next(&self, replies: &Vec<Option<String>>) -> (r: DispatchStep)
        ensures
            is_next_step(r, *self, reply_texts(replies@)),
    {
        let ghost all = reply_texts(replies@);
        let mut i: usize = 0;
        while i < replies.len()
            invariant
                all == reply_texts(replies@),
                i <= replies@.len(),
                forall|k: int| 0 <= k < i ==> !is_taken(#[trigger] all[k]),
            decreases replies.len() - i,
        {
            assert(all[i as int] == owned(replies@[i as int]));
            if hypr_send(borrowed(&replies[i])) {
                assert(is_taken(all[i as int]));
                return DispatchStep::Done;
            }
            i += 1;
        }
        if replies.len() < self.attempts.len() {
            DispatchStep::Send(copy_texts(&self.attempts[replies.len()]))
        } else {
            DispatchStep::Refused(self.refused.as_str().to_owned())
        }
    }
}

/// Whether the messages act on a window by its address.
pub open spec fn is_window_dispatch(
    d: Dispatch,
    dispatcher: Seq<char>,
    lua: Seq<char>,
    address: Seq<char>,
) -> bool {
    &&& d.attempts@.len() == 2
    &&& texts(d.attempts@[0]@) == seq!["dispatch"@, dispatcher, "address:"@ + address]
    &&& texts(d.attempts@[1]@) == seq!["repl"@, window_lua(lua, address)]
    &&& d.refused@ == "hyprland rejected "@ + dispatcher + " for "@ + address
}

/// Whether the messages switch to a workspace.
pub open spec fn is_workspace_dispatch(d: Dispatch, handle: Seq<char>) -> bool {
    &&& d.attempts@.len() == 2
    &&& texts(d.attempts@[0]@) == seq!["dispatch"@, workspace_classic(handle)]
    &&& texts(d.attempts@[1]@) == seq!["repl"@, workspace_lua(handle)]
    &&& d.refused@ == "hyprland rejected workspace \""@ + handle + "\""@
}

/// A dispatch of two messages: the first is sent at once, the second only where the first was not
/// taken, and the whole succeeds where one of them was.
pub proof fn the_second_message_follows_a_refusal(
    d: Dispatch,
    first: Option<Seq<char>>,
    second: Option<Seq<char>>,
    at_first: DispatchStep,
    then: DispatchStep,
    at_last: DispatchStep,
)
    requires
        d.attempts@.len() == 2,
        is_next_step(at_first, d, Seq::empty()),
        is_next_step(then, d, seq![first]),
        is_next_step(at_last, d, seq![first, second]),
    ensures
        at_first matches DispatchStep::Send(message) && texts(message@) == texts(d.attempts@[0]@),
        is_taken(first) ==> then == DispatchStep::Done,
        !is_taken(first) ==> (then matches DispatchStep::Send(message) && texts(message@) == texts(
            d.attempts@[1]@,
        )),
        (is_taken(first) || is_taken(second)) <==> at_last == DispatchStep::Done,
        !is_taken(first) && !is_taken(second) ==> (at_last matches DispatchStep::Refused(text)
            && text@ == d.refused@),
{
    let one = seq![first];
    let two = seq![first, second];
    assert(one[0] == first && two[0] == first && two[1] == second);
    assert(is_taken(first) ==> is_taken(one[0]) && is_taken(two[0]));
    assert(is_taken(second) ==> is_taken(two[1]));
}

/// Switching to a workspace: by its number where the handle is one and otherwise by its name, and in
/// Lua only where that was not taken. It succeeds where one of the two was.
pub proof fn a_workspace_is_switched_to_once(
    d: Dispatch,
    handle: Seq<char>,
    first: Option<Seq<char>>,
    second: Option<Seq<char>>,
    at_first: DispatchStep,
    then: DispatchStep,
    at_last: DispatchStep,
)
    requires
        is_workspace_dispatch(d, handle),
        is_next_step(at_first, d, Seq::empty()),
        is_next_step(then, d, seq![first]),
        is_next_step(at_last, d, seq![first, second]),
    ensures
        at_first matches DispatchStep::Send(message) && texts(message@) == seq![
            "dispatch"@,
            workspace_classic(handle),
        ],
        is_taken(first) ==> then == DispatchStep::Done,
        !is_taken(first) ==> (then matches DispatchStep::Send(message) && texts(message@) == seq![
            "repl"@,
            workspace_lua(handle),
        ]),
        (is_taken(first) || is_taken(second)) <==> at_last == DispatchStep::Done,
{
    the_second_message_follows_a_refusal(d, first, second, at_first, then, at_last);
}

/// A value as a literal of Lua.
pub fn lua_string(value: &str) -> (r: String)
    ensures
        r@ == double_quoted(value@),
{
    double_quote(value)
}

/// The program that looks a window up by its address and dispatches against it.
pub open spec fn window_lua(lua_dispatch: Seq<char>, address: Seq<char>) -> Seq<char> {
    "for _, w in ipairs(hl.get_windows()) do if w.address == \""@ + address
        + "\" then hl.dispatch("@ + lua_dispatch
        + ") return \"ok\" end end return \"no window\""@
}

/// What is sent to act on a window: the classic form first, which is the only one that older
/// versions know, and then the one for a configuration in Lua.
pub fn hypr_window_dispatch(dispatcher: &str, lua_dispatch: &str, address: &str) -> (r: Dispatch)
    ensures
        is_window_dispatch(r, dispatcher@, lua_dispatch@, address@),
{
    let mut target = "address:".to_owned();
    target.append(address);
    let first = vec!["dispatch".to_owned(), dispatcher.to_owned(), target];
    let mut lua = "for _, w in ipairs(hl.get_windows()) do if w.address == \"".to_owned();
    lua.append(address);
    lua.append("\" then hl.dispatch(");
    lua.append(lua_dispatch);
    lua.append(") return \"ok\" end end return \"no window\"");
    let second = vec!["repl".to_owned(), lua];
    let mut refused = "hyprland rejected ".to_owned();
    refused.append(dispatcher);
    refused.append(" for ");
    refused.append(address);
    assert(texts(first@) =~= seq!["dispatch"@, dispatcher@, "address:"@ + address@]);
    assert(texts(second@) =~= seq!["repl"@, window_lua(lua_dispatch@, address@)]);
    Dispatch { attempts: vec![first, second], refused }
}

/// The classic form: a number is the id of a workspace, and anything else is a name.
pub open spec fn workspace_classic(handle: Seq<char>) -> Seq<char> {
    match signed_of(handle) {
        Some(id) => "workspace "@ + decimal_int(id),
        None => "workspace name:"@ + handle,
    }
}

/// The form for a configuration in Lua. A name is looked up and stands there as a literal.
pub open spec fn workspace_lua(handle: Seq<char>) -> Seq<char> {
    match signed_of(handle) {
        Some(id) => "hl.dispatch(hl.dsp.focus({ workspace = "@ + decimal_int(id)
            + " })) return \"ok\""@,
        None => "for _, w in ipairs(hl.get_workspaces()) do if tostring(w.name) == "@
            + double_quoted(handle)
            + " then hl.dispatch(hl.dsp.focus({ workspace = w })) return \"ok\" end end return \"no workspace\""@,
    }
}

/// What is sent to switch to a workspace.
pub fn hypr_workspace_dispatch(handle: &str) -> (r: Dispatch)
    ensures
        is_workspace_dispatch(r, handle@),
{
    let (classic, lua) = match parse_i64(handle) {
        Some(id) => {
            let number = write_i64(id);
            let mut classic = "workspace ".to_owned();
            classic.append(number.as_str());
            let mut lua = "hl.dispatch(hl.dsp.focus({ workspace = ".to_owned();
            lua.append(number.as_str());
            lua.append(" })) return \"ok\"");
            (classic, lua)
        },
        None => {
            let mut classic = "workspace name:".to_owned();
            classic.append(handle);
            let mut lua =
                "for _, w in ipairs(hl.get_workspaces()) do if tostring(w.name) == ".to_owned();
            lua.append(lua_string(handle).as_str());
            lua.append(
                " then hl.dispatch(hl.dsp.focus({ workspace = w })) return \"ok\" end end return \"no workspace\"",
            );
            (classic, lua)
        },
    };
    let first = vec!["dispatch".to_owned(), classic];
    let second = vec!["repl".to_owned(), lua];
    let mut refused = "hyprland rejected workspace \"".to_owned();
    refused.append(handle);
    refused.append("\"");
    assert(texts(first@) =~= seq!["dispatch"@, workspace_classic(handle@)]);
    assert(texts(second@) =~= seq!["repl"@, workspace_lua(handle@)]);
    Dispatch { attempts: vec![first, second], refused }
}

/// A call of niri that carries its socket, for use inside a shell command.
pub open spec fn niri_call(socket: Option<Seq<char>>) -> Seq<char> {
    match socket {
        Some(path) => "NIRI_SOCKET="@ + shell_quoted(path) + " niri"@,
        None => "niri"@,
    }
}

/// A call of niri that carries its socket, for use inside a shell command.
pub fn niri_shell(socket: Option<&str>) -> (r: String)
    ensures
        r@ == niri_call(maybe(socket)),
{
    match socket {
        Some(path) => {
            let mut out = "NIRI_SOCKET=".to_owned();
            out.append(shell_quote(path).as_str());
            out.append(" niri");
            out
        },
        None => "niri".to_owned(),
    }
}

/// Where niri's socket can be.
pub fn niri_socket_paths(runtime_dir: &str) -> (r: Vec<String>)
    ensures
        texts(r@) == seq![runtime_dir@ + "/niri.sock"@, runtime_dir@ + "/niri-ipc/niri.sock"@],
{
    let mut first = runtime_dir.to_owned();
    first.append("/niri.sock");
    let mut second = runtime_dir.to_owned();
    second.append("/niri-ipc/niri.sock");
    let r = vec![first, second];
    assert(texts(r@) =~= seq![
        runtime_dir@ + "/niri.sock"@,
        runtime_dir@ + "/niri-ipc/niri.sock"@,
    ]);
    r
}

/// The directory of the session: by its variable, otherwise by the number of the user, otherwise
/// that of the first user.
pub open spec fn session_dir(variable: Option<Seq<char>>, uid: Option<Seq<char>>) -> Seq<char> {
    match variable {
        Some(dir) => dir,
        None => match uid {
            Some(uid) => "/run/user/"@ + uid,
            None => "/run/user/1000"@,
        },
    }
}

/// The directory of the session.
pub fn runtime_dir(variable: Option<&str>, uid: Option<&str>) -> (r: String)
    ensures
        r@ == session_dir(maybe(variable), maybe(uid)),
{
    match variable {
        Some(dir) => dir.to_owned(),
        None => match uid {
            Some(uid) => {
                let mut out = "/run/user/".to_owned();
                out.append(uid);
                out
            },
            None => "/run/user/1000".to_owned(),
        },
    }
}

/// Whether the instance at `i` is the latest, the first where several are.
pub open spec fn is_latest(found: Seq<(u64, String)>, i: int) -> bool {
    &&& 0 <= i < found.len()
    &&& forall|j: int| 0 <= j < found.len() ==> (#[trigger] found[j]).0 <= found[i].0
    &&& forall|j: int| 0 <= j < i ==> (#[trigger] found[j]).0 < found[i].0
}

/// The instance of Hyprland that is spoken to: by its variable where it is set, and otherwise the
/// latest of those whose socket was found.
pub fn hypr_signature(variable: Option<&str>, found: &Vec<(u64, String)>) -> (r: Option<String>)
    ensures
        if variable is Some && variable->0@.len() > 0 {
            r is Some && r->0@ == variable->0@
        } else if found@.len() == 0 {
            r is None
        } else {
            r is Some && exists|i: int| #[trigger] is_latest(found@, i) && r->0 == found@[i].1
        },
{
    if let Some(signature) = variable {
        if !signature.is_empty() {
            return Some(signature.to_owned());
        }
    }
    if found.len() == 0 {
        return None;
    }
    let mut best: usize = 0;
    let mut i: usize = 1;
    while i < found.len()
        invariant
            best < i <= found@.len(),
            forall|j: int| 0 <= j < i ==> (#[trigger] found@[j]).0 <= found@[best as int].0,
            forall|j: int| 0 <= j < best ==> (#[trigger] found@[j]).0 < found@[best as int].0,
        decreases found.len() - i,
    {
        if found[i].0 > found[best].0 {
            best = i;
        }
        i += 1;
    }
    assert(is_latest(found@, best as int));
    Some(found[best].1.clone())
}

/// The variable says which instance of Hyprland is spoken to, and otherwise it is one that is as new
/// as any.
pub proof fn the_newest_instance_is_spoken_to(found: Seq<(u64, String)>, i: int, j: int)
    requires
        is_latest(found, i),
        0 <= j < found.len(),
    ensures
        0 <= i < found.len(),
        found[j].0 <= found[i].0,
        j < i ==> found[j].0 < found[i].0,
{
}

/// The directory of the session is the one of the variable where it is set, and never depends on the
/// user then; otherwise different users have different ones.
pub proof fn a_session_has_its_directory(variable: Seq<char>, a: Seq<char>, b: Seq<char>)
    ensures
        session_dir(Some(variable), Some(a)) == variable,
        session_dir(Some(variable), None) == variable,
        a != b ==> session_dir(None, Some(a)) != session_dir(None, Some(b)),
        session_dir(None, Some(a)) == "/run/user/"@ + a,
{
    let x = "/run/user/"@ + a;
    let y = "/run/user/"@ + b;
    if x == y {
        assert(x.skip("/run/user/"@.len() as int) =~= a);
        assert(y.skip("/run/user/"@.len() as int) =~= b);
    }
}

/// Hyprland took a message only where it replied with a plain `ok`.
pub proof fn only_ok_is_taken(reply: Seq<char>)
    ensures
        is_taken(Some(reply)) <==> trim_of(reply) == "ok"@,
        !is_taken(None),
{
}

/// Niri is called at the socket that is known, which is quoted, and by its name alone where none is.
pub proof fn niri_is_called_at_its_socket(path: Seq<char>)
    ensures
        niri_call(Some(path)) == "NIRI_SOCKET="@ + shell_quoted(path) + " niri"@,
        niri_call(None) == "niri"@,
{
}

/// A window of Hyprland is spoken of by its address, in both ways of saying it.
pub proof fn a_window_is_addressed(
    d: Dispatch,
    dispatcher: Seq<char>,
    lua: Seq<char>,
    address: Seq<char>,
)
    requires
        is_window_dispatch(d, dispatcher, lua, address),
    ensures
        d.attempts@.len() == 2,
        texts(d.attempts@[0]@).len() == 3,
        texts(d.attempts@[0]@)[0] == "dispatch"@,
        texts(d.attempts@[0]@)[1] == dispatcher,
        texts(d.attempts@[0]@)[2] == "address:"@ + address,
        texts(d.attempts@[1]@).len() == 2,
        texts(d.attempts@[1]@)[0] == "repl"@,
{
}

} // verus!
