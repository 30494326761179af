//! Staying awake: holding the machine out of idle and sleep until told otherwise.
//!
//! The lock is held by a `systemd-inhibit` process for as long as it runs. Releasing the lock is
//! ending that process, and if the daemon dies the lock goes with it. What runs and ends the
//! process stands outside: here is when it is run, with what, and what is reported of it.

use vstd::prelude::*;
use vstd::string::*;

use crate::notify::{send, send_options};
use crate::text::{maybe, texts, trim, trim_of};

verus! {

/// What the lock blocks: `idle` stops the idle timers, and `sleep` the automatic suspend.
pub const WHAT: &'static str = "idle:sleep";

/// What is reported of the lock.
#[derive(Debug)]
pub struct StayAwake {
    pub enabled: bool,
    /// Why the machine is held awake.
    pub reason: String,
    /// When it was turned on, and how long ago. Zero where it is off.
    pub since: i64,
    pub seconds: u64,
    pub available: bool,
    pub unavailable_reason: Option<String>,
    pub notified: bool,
}

impl Default for StayAwake {
    fn default() -> (r: StayAwake)
        ensures
            !r.enabled,
            r.reason@.len() == 0,
            r.since == 0,
            r.seconds == 0,
            !r.available,
            r.unavailable_reason is None,
            !r.notified,
    {
        StayAwake {
            enabled: false,
            reason: String::new(),
            since: 0,
            seconds: 0,
            available: false,
            unavailable_reason: None,
            notified: false,
        }
    }
}

/// The lock while it is held.
#[derive(Debug)]
pub struct Inhibitor {
    pub reason: String,
    /// When it was taken.
    pub at: i64,
}

/// Whether the lock can be taken here, and why not where it cannot.
pub fn available(installed: bool) -> (r: Result<(), String>)
    ensures
        match r {
            Ok(_) => installed,
            Err(reason) => !installed && reason@ == "systemd-inhibit is not installed"@,
        },
{
    if installed {
        Ok(())
    } else {
        Err("systemd-inhibit is not installed".to_owned())
    }
}

/// What is reported of a lock, or of none.
pub open spec fn is_reported(
    r: StayAwake,
    held: Option<Inhibitor>,
    seconds: u64,
    installed: bool,
) -> bool {
    &&& r.available == installed
    &&& match r.unavailable_reason {
        Some(reason) => !installed && reason@ == "systemd-inhibit is not installed"@,
        None => installed,
    }
    &&& !r.notified
    &&& match held {
        Some(inhibitor) => {
            &&& r.enabled
            &&& r.reason@ == inhibitor.reason@
            &&& r.since == inhibitor.at
            &&& r.seconds == seconds
        },
        None => {
            &&& !r.enabled
            &&& r.reason@.len() == 0
            &&& r.since == 0
            &&& r.seconds == 0
        },
    }
}

/// Whether the machine is held awake. A lock whose process `ended` on its own is given up: an
/// indicator that goes on claiming it would be worse than none.
pub fn status(held: &mut Option<Inhibitor>, ended: bool, seconds: u64, installed: bool) -> (r:
    StayAwake)
    ensures
        *final(held) == (if ended {
            None
        } else {
            *old(held)
        }),
        is_reported(r, *final(held), seconds, installed),
{
    if ended {
        *held = None;
    }
    let unavailable_reason = match available(installed) {
        Ok(_) => None,
        Err(reason) => Some(reason),
    };
    match held.as_ref() {
        Some(inhibitor) => StayAwake {
            enabled: true,
            reason: inhibitor.reason.as_str().to_owned(),
            since: inhibitor.at,
            seconds,
            available: installed,
            unavailable_reason,
            notified: false,
        },
        None => StayAwake {
            enabled: false,
            reason: String::new(),
            since: 0,
            seconds: 0,
            available: installed,
            unavailable_reason,
            notified: false,
        },
    }
}

/// What is done to the lock.
#[derive(Debug)]
pub enum Change {
    /// It is as it was wanted.
    Keep,
    /// `systemd-inhibit` is run with these arguments.
    Hold { arguments: Vec<String>, reason: String },
    /// The process that holds it is ended.
    Release,
}

/// Whether the lock is wanted: what is asked for, or else the opposite of what is.
pub open spec fn is_wanted(enabled: Option<bool>, current: bool) -> bool {
    match enabled {
        Some(flag) => flag,
        None => !current,
    }
}

/// Why the lock is held, where nothing or only white space was given.
pub open spec fn reason_of(reason: Option<Seq<char>>) -> Seq<char> {
    match reason {
        Some(text) => if trim_of(text).len() > 0 {
            trim_of(text)
        } else {
            "Stay awake"@
        },
        None => "Stay awake"@,
    }
}

/// The arguments with which the lock is taken. The process under it does nothing at all.
pub open spec fn hold_words(reason: Seq<char>) -> Seq<Seq<char>> {
    seq![
        "--what="@ + WHAT@,
        "--who=EpochShell"@,
        "--why="@ + reason,
        "--mode=block"@,
        "sleep"@,
        "infinity"@,
    ]
}

/// What setting the lock comes to.
pub open spec fn is_change(
    r: Result<Change, String>,
    enabled: Option<bool>,
    reason: Option<Seq<char>>,
    current: bool,
    installed: bool,
) -> bool {
    match r {
        Err(message) => !installed && message@ == "systemd-inhibit is not installed"@,
        Ok(Change::Keep) => installed && is_wanted(enabled, current) == current,
        Ok(Change::Hold { arguments, reason: why }) => {
            &&& installed
            &&& is_wanted(enabled, current)
            &&& !current
            &&& why@ == reason_of(reason)
            &&& texts(arguments@) == hold_words(why@)
        },
        Ok(Change::Release) => installed && !is_wanted(enabled, current) && current,
    }
}

/// Turns the lock on or off, or over where it is not said which. Asking for what already is does
/// nothing: neither does the clock start again nor is it announced again.
pub fn set(enabled: Option<bool>, reason: Option<&str>, current: bool, installed: bool) -> (r:
    Result<Change, String>)
    ensures
        is_change(r, enabled, maybe(reason), current, installed),
{
    if let Err(message) = available(installed) {
        return Err(message);
    }
    let wanted = match enabled {
        Some(flag) => flag,
        None => !current,
    };
    if wanted == current {
        return Ok(Change::Keep);
    }
    if !wanted {
        return Ok(Change::Release);
    }
    let mut why = match reason {
        Some(text) => trim(text),
        None => String::new(),
    };
    if why.as_str().is_empty() {
        why = "Stay awake".to_owned();
    }
    let mut what = "--what=".to_owned();
    what.append(WHAT);
    let mut given = "--why=".to_owned();
    given.append(why.as_str());
    let mut arguments: Vec<String> = Vec::new();
    arguments.push(what);
    arguments.push("--who=EpochShell".to_owned());
    arguments.push(given);
    arguments.push("--mode=block".to_owned());
    arguments.push("sleep".to_owned());
    arguments.push("infinity".to_owned());
    assert(texts(arguments@) =~= hold_words(why@));
    Ok(Change::Hold { arguments, reason: why })
}

/// What the notification of a change says: its summary, its body and its icon.
pub open spec fn announced(enabled: bool, reason: Seq<char>) -> (Seq<char>, Seq<char>, Seq<char>) {
    if enabled {
        (
            "Staying awake"@,
            "Idle and sleep are held off · "@ + reason,
            "preferences-desktop-screensaver"@,
        )
    } else {
        (
            "Sleeping normally again"@,
            "Idle timers and sleep are back to normal"@,
            "system-suspend"@,
        )
    }
}

/// The arguments with which a change is announced.
pub fn announce(state: &StayAwake, notifier: bool) -> (r: Result<Vec<String>, String>)
    ensures
        ({
            let (summary, body, icon) = announced(state.enabled, state.reason@);
            match r {
                Ok(arguments) => notifier && texts(arguments@) == send_options(
                    icon,
                    None,
                    "epoch-stay-awake"@,
                ) + seq![summary, body],
                Err(message) => !notifier && message@ == "notify-send is not installed"@,
            }
        }),
{
    if state.enabled {
        let mut body = "Idle and sleep are held off · ".to_owned();
        body.append(state.reason.as_str());
        send(
            notifier,
            "Staying awake",
            body.as_str(),
            "preferences-desktop-screensaver",
            None,
            "epoch-stay-awake",
        )
    } else {
        send(
            notifier,
            "Sleeping normally again",
            "Idle timers and sleep are back to normal",
            "system-suspend",
            None,
            "epoch-stay-awake",
        )
    }
}

/// Whether the lock is held after a change.
pub open spec fn held_after(r: Result<Change, String>, current: bool) -> bool {
    match r {
        Ok(Change::Hold { .. }) => true,
        Ok(Change::Release) => false,
        _ => current,
    }
}

/// Asking for the same thing twice changes nothing the second time.
pub proof fn asking_twice_changes_nothing(
    first: Result<Change, String>,
    second: Result<Change, String>,
    enabled: bool,
    reason: Option<Seq<char>>,
    current: bool,
)
    requires
        is_change(first, Some(enabled), reason, current, true),
        is_change(second, Some(enabled), reason, held_after(first, current), true),
    ensures
        held_after(first, current) == enabled,
        second == Ok::<Change, String>(Change::Keep),
{
}

/// Turning it over twice leads back.
pub proof fn turning_over_twice_leads_back(
    first: Result<Change, String>,
    second: Result<Change, String>,
    reason: Option<Seq<char>>,
    current: bool,
)
    requires
        is_change(first, None, reason, current, true),
        is_change(second, None, reason, held_after(first, current), true),
    ensures
        held_after(first, current) != current,
        held_after(second, held_after(first, current)) == current,
{
}

/// The lock is taken as one that keeps idling and sleep off until it is released, and it names the
/// reason that was given, or says that the machine is to stay awake where none was.
pub proof fn the_lock_keeps_the_machine_awake(
    r: Result<Change, String>,
    enabled: Option<bool>,
    reason: Option<Seq<char>>,
    current: bool,
)
    requires
        is_change(r, enabled, reason, current, true),
    ensures
        !current && (enabled == Some(true) || enabled is None) ==> r is Ok && r->Ok_0 is Hold,
        current && (enabled == Some(false) || enabled is None) ==> (r matches Ok(Change::Release)),
        enabled == Some(current) ==> (r matches Ok(Change::Keep)),
        r matches Ok(Change::Hold { arguments, reason: why }) ==> texts(arguments@) == seq![
            "--what="@ + "idle:sleep"@,
            "--who=EpochShell"@,
            "--why="@ + why@,
            "--mode=block"@,
            "sleep"@,
            "infinity"@,
        ] && (reason is Some && trim_of(reason->0).len() > 0 ==> why@ == trim_of(reason->0)) && (
        reason is None ==> why@ == "Stay awake"@),
{
}

/// What is reported is the lock that is held: for its reason and since it was taken, or that none is.
pub proof fn the_lock_that_is_held_is_reported(
    r: StayAwake,
    held: Option<Inhibitor>,
    seconds: u64,
    installed: bool,
)
    requires
        is_reported(r, held, seconds, installed),
    ensures
        r.enabled <==> held is Some,
        held matches Some(lock) ==> r.reason@ == lock.reason@ && r.since == lock.at && r.seconds
            == seconds,
        held is None ==> r.since == 0 && r.seconds == 0 && r.reason@.len() == 0,
        r.available <==> installed,
        r.unavailable_reason is None <==> installed,
{
}

} // verus!
