//! Night mode: warming the screen, and leaving it warm.
//!
//! Each program that does this holds the colours of the screen for as long as it runs and hands
//! them back when it ends, so turning night mode off is ending the program. What runs and ends it
//! stands outside: here is which program is run, with what, and what is reported of it.

use vstd::prelude::*;
use vstd::string::*;

use crate::config::Config;
use crate::notify::{send, send_options};
use crate::number::{decimal, write_u64};
use crate::text::{is_in, list_has, texts};

verus! {

/// What a screen is set to while night mode is off. Nothing sets this: it is what the programs mean
/// by neutral.
pub const DAYLIGHT: u32 = 6500;

/// A program that can hold a colour temperature.
#[derive(Debug, Clone, Copy, PartialEq, Eq, Structural)]
pub enum Warmer {
    Hyprsunset,
    Gammastep,
    Wlsunset,
}

impl Warmer {
    /// The name of the program.
    pub open spec fn text(self) -> Seq<char> {
        match self {
            Warmer::Hyprsunset => "hyprsunset"@,
            Warmer::Gammastep => "gammastep"@,
            Warmer::Wlsunset => "wlsunset"@,
        }
    }

    /// The name of the program.
    pub fn name(self) -> (r: &'static str)
        ensures
            r@ == self.text(),
    {
        match self {
            Warmer::Hyprsunset => "hyprsunset",
            Warmer::Gammastep => "gammastep",
            Warmer::Wlsunset => "wlsunset",
        }
    }

    /// How the program is asked for a temperature. `wlsunset` is held at one value by giving it the
    /// same temperature for day and night.
    pub open spec fn words(self, temperature: nat) -> Seq<Seq<char>> {
        match self {
            Warmer::Hyprsunset => seq!["-t"@, decimal(temperature)],
            Warmer::Gammastep => seq!["-O"@, decimal(temperature)],
            Warmer::Wlsunset => seq![
                "-t"@,
                decimal(temperature),
                "-T"@,
                decimal(temperature),
            ],
        }
    }

    /// How the program is asked for a temperature.
    pub fn arguments(self, temperature: u32) -> (r: Vec<String>)
        ensures
            texts(r@) == self.words(temperature as nat),
    {
        let mut out: Vec<String> = Vec::new();
        match self {
            Warmer::Hyprsunset => {
                out.push("-t".to_owned());
                out.push(write_u64(temperature as u64));
            },
            Warmer::Gammastep => {
                out.push("-O".to_owned());
                out.push(write_u64(temperature as u64));
            },
            Warmer::Wlsunset => {
                out.push("-t".to_owned());
                out.push(write_u64(temperature as u64));
                out.push("-T".to_owned());
                out.push(write_u64(temperature as u64));
            },
        }
        assert(texts(out@) =~= self.words(temperature as nat));
        out
    }
}

/// The first of the programs that is installed.
pub open spec fn first_warmer(installed: Seq<String>) -> Option<Warmer> {
    if is_in(installed, "hyprsunset"@) {
        Some(Warmer::Hyprsunset)
    } else if is_in(installed, "gammastep"@) {
        Some(Warmer::Gammastep)
    } else if is_in(installed, "wlsunset"@) {
        Some(Warmer::Wlsunset)
    } else {
        None
    }
}

/// The first of the programs that is installed.
pub fn tool(installed: &Vec<String>) -> (r: Option<Warmer>)
    ensures
        r == first_warmer(installed@),
{
    if list_has(installed, "hyprsunset") {
        Some(Warmer::Hyprsunset)
    } else if list_has(installed, "gammastep") {
        Some(Warmer::Gammastep)
    } else if list_has(installed, "wlsunset") {
        Some(Warmer::Wlsunset)
    } else {
        None
    }
}

/// What is reported of night mode.
#[derive(Debug)]
pub struct NightLight {
    pub enabled: bool,
    /// In kelvin, lower being warmer: what is configured, whether or not it is applied.
    pub temperature: u32,
    /// What neutral is.
    pub daylight: u32,
    /// The program that holds the screen, or nothing.
    pub tool: String,
    pub available: bool,
    pub unavailable_reason: Option<String>,
    pub since: i64,
    pub seconds: u64,
    pub notified: bool,
}

impl Default for NightLight {
    fn default() -> (r: NightLight)
        ensures
            !r.enabled,
            r.temperature == 0,
            r.daylight == 0,
            r.tool@.len() == 0,
            !r.available,
            r.unavailable_reason is None,
            r.since == 0,
            r.seconds == 0,
            !r.notified,
    {
        NightLight {
            enabled: false,
            temperature: 0,
            daylight: 0,
            tool: String::new(),
            available: false,
            unavailable_reason: None,
            since: 0,
            seconds: 0,
            notified: false,
        }
    }
}

/// The program that holds the screen.
#[derive(Debug, Clone, Copy)]
pub struct Held {
    pub tool: Warmer,
    pub temperature: u32,
    /// When it was started.
    pub at: i64,
}

/// The temperature that is configured.
pub fn configure(config: &Config) -> (r: u32)
    ensures
        r == config.night_light_temperature,
{
    config.night_light_temperature
}

/// What is said where none of the programs is installed.
pub open spec fn none_installed() -> Seq<char> {
    "none of hyprsunset, gammastep, wlsunset is installed"@
}

/// Whether the screen can be warmed here, and why not where it cannot.
pub fn available(installed: &Vec<String>) -> (r: Result<(), String>)
    ensures
        match r {
            Ok(_) => first_warmer(installed@) is Some,
            Err(reason) => first_warmer(installed@) is None && reason@ == none_installed(),
        },
{
    if tool(installed).is_some() {
        Ok(())
    } else {
        Err("none of hyprsunset, gammastep, wlsunset is installed".to_owned())
    }
}

/// What is reported of the program that holds the screen, or of none.
pub open spec fn is_reported(
    r: NightLight,
    held: Option<Held>,
    seconds: u64,
    configured: u32,
    installed: Seq<String>,
) -> bool {
    &&& r.daylight == DAYLIGHT
    &&& r.available == (first_warmer(installed) is Some)
    &&& match r.unavailable_reason {
        Some(reason) => first_warmer(installed) is None && reason@ == none_installed(),
        None => first_warmer(installed) is Some,
    }
    &&& !r.notified
    &&& r.temperature == configured
    &&& match held {
        Some(active) => {
            &&& r.enabled
            &&& r.tool@ == active.tool.text()
            &&& r.since == active.at
            &&& r.seconds == seconds
        },
        None => {
            &&& !r.enabled
            &&& r.tool@.len() == 0
            &&& r.since == 0
            &&& r.seconds == 0
        },
    }
}

/// Whether the screen is warmed, and by what. A program that `ended` on its own is given up: the
/// screen went back to normal with it.
pub fn status(
    held: &mut Option<Held>,
    ended: bool,
    seconds: u64,
    configured: u32,
    installed: &Vec<String>,
) -> (r: NightLight)
    ensures
        *final(held) == (if ended {
            None
        } else {
            *old(held)
        }),
        is_reported(r, *final(held), seconds, configured, installed@),
{
    if ended {
        *held = None;
    }
    let (ready, unavailable_reason) = match available(installed) {
        Ok(_) => (true, None),
        Err(reason) => (false, Some(reason)),
    };
    match *held {
        Some(active) => NightLight {
            enabled: true,
            temperature: configured,
            daylight: DAYLIGHT,
            tool: active.tool.name().to_owned(),
            available: ready,
            unavailable_reason,
            since: active.at,
            seconds,
            notified: false,
        },
        None => NightLight {
            enabled: false,
            temperature: configured,
            daylight: DAYLIGHT,
            tool: String::new(),
            available: ready,
            unavailable_reason,
            since: 0,
            seconds: 0,
            notified: false,
        },
    }
}

/// Whether a screen can be set to a temperature.
pub open spec fn is_temperature(temperature: u32) -> bool {
    1000 <= temperature <= 20000
}

/// What is said of a temperature that no screen can be set to.
pub open spec fn bad_temperature(temperature: u32) -> Seq<char> {
    decimal(temperature as nat) + "K is not a screen temperature (1000-20000)"@
}

/// Refuses a temperature that no screen can be set to: it is most likely a typing error.
pub fn validate(temperature: u32) -> (r: Result<u32, String>)
    ensures
        match r {
            Ok(kept) => is_temperature(temperature) && kept == temperature,
            Err(message) => !is_temperature(temperature) && message@ == bad_temperature(
                temperature,
            ),
        },
{
    if temperature < 1000 || temperature > 20000 {
        let mut message = write_u64(temperature as u64);
        message.append("K is not a screen temperature (1000-20000)");
        return Err(message);
    }
    Ok(temperature)
}

/// What is done to the screen.
#[derive(Debug)]
pub enum Change {
    /// It is as it was wanted.
    Keep,
    /// The program that holds it is ended, where there is one.
    Off,
    /// The program that holds it is ended, where there is one, and this one is run.
    On { tool: Warmer, arguments: Vec<String>, temperature: u32 },
}

/// Whether night mode is wanted: what is asked for, or else the opposite of what is.
pub open spec fn is_wanted(enabled: Option<bool>, current: bool) -> bool {
    match enabled {
        Some(flag) => flag,
        None => !current,
    }
}

/// The temperature that is wanted: what is asked for, or else what is configured.
pub open spec fn wanted_temperature(temperature: Option<u32>, configured: u32) -> u32 {
    match temperature {
        Some(kelvin) => kelvin,
        None => configured,
    }
}

/// Whether this is what is done to the screen.
pub open spec fn is_change(
    r: Result<Change, String>,
    enabled: Option<bool>,
    temperature: Option<u32>,
    configured: u32,
    held: Option<Held>,
    installed: Seq<String>,
) -> bool {
    let wanted = is_wanted(enabled, held is Some);
    let kelvin = wanted_temperature(temperature, configured);
    match first_warmer(installed) {
        None => r matches Err(m) && m@ == none_installed(),
        Some(warmer) => if !is_temperature(kelvin) {
            r matches Err(m) && m@ == bad_temperature(kelvin)
        } else if !wanted {
            r matches Ok(Change::Off)
        } else if held is Some && held->0.temperature == kelvin {
            r matches Ok(Change::Keep)
        } else {
            r matches Ok(Change::On { tool, arguments, temperature: set }) && tool == warmer && set
                == kelvin && texts(arguments@) == warmer.words(kelvin as nat)
        },
    }
}

/// Turns night mode on or off, or over where it is not said which. No program can be set anew while
/// it runs, so another temperature than the one that it holds is a new start.
pub fn set(
    enabled: Option<bool>,
    temperature: Option<u32>,
    configured: u32,
    held: Option<Held>,
    installed: &Vec<String>,
) -> (r: Result<Change, String>)
    ensures
        is_change(r, enabled, temperature, configured, held, installed@),
{
    let warmer = match tool(installed) {
        Some(warmer) => warmer,
        None => return Err("none of hyprsunset, gammastep, wlsunset is installed".to_owned()),
    };
    let wanted = match enabled {
        Some(flag) => flag,
        None => held.is_none(),
    };
    let asked = match temperature {
        Some(kelvin) => kelvin,
        None => configured,
    };
    let kelvin = match validate(asked) {
        Ok(kelvin) => kelvin,
        Err(message) => return Err(message),
    };
    if !wanted {
        return Ok(Change::Off);
    }
    if let Some(active) = held {
        if active.temperature == kelvin {
            return Ok(Change::Keep);
        }
    }
    Ok(Change::On { tool: warmer, arguments: warmer.arguments(kelvin), temperature: kelvin })
}

/// What the notification of a change says: its summary, its body and its icon.
pub open spec fn announced(enabled: bool, temperature: nat) -> (Seq<char>, Seq<char>, Seq<char>) {
    if enabled {
        (
            "Night mode on"@,
            "Screen warmed to "@ + decimal(temperature) + "K"@,
            "weather-clear-night"@,
        )
    } else {
        ("Night mode off"@, "Screen back to normal"@, "weather-clear"@)
    }
}

/// The arguments with which a change is announced.
pub fn announce(enabled: bool, temperature: u32, notifier: bool) -> (r: Result<Vec<String>, String>)
    ensures
        ({
            let (summary, body, icon) = announced(enabled, temperature as nat);
            match r {
                Ok(arguments) => notifier && texts(arguments@) == send_options(
                    icon,
                    None,
                    "epoch-night-light"@,
                ) + seq![summary, body],
                Err(message) => !notifier && message@ == "notify-send is not installed"@,
            }
        }),
{
    if enabled {
        let mut body = "Screen warmed to ".to_owned();
        body.append(write_u64(temperature as u64).as_str());
        body.append("K");
        send(
            notifier,
            "Night mode on",
            body.as_str(),
            "weather-clear-night",
            None,
            "epoch-night-light",
        )
    } else {
        send(
            notifier,
            "Night mode off",
            "Screen back to normal",
            "weather-clear",
            None,
            "epoch-night-light",
        )
    }
}

/// Each program is told the temperature.
pub proof fn each_tool_is_told_the_temperature(tool: Warmer, temperature: nat)
    ensures
        tool.words(temperature).contains(decimal(temperature)),
{
    assert(tool.words(temperature)[1] == decimal(temperature));
}

/// What is asked for goes before what is: the screen is warmed where that is asked for, and where it is
/// only to be turned over and is not warmed yet; and it is left alone, or let go, otherwise. The
/// temperature is the one that is asked for, or else the one that is configured.
pub proof fn the_screen_is_warmed_as_asked(
    r: Result<Change, String>,
    enabled: Option<bool>,
    temperature: Option<u32>,
    configured: u32,
    held: Option<Held>,
    installed: Seq<String>,
    kelvin: u32,
)
    requires
        is_change(r, enabled, temperature, configured, held, installed),
        is_in(installed, "hyprsunset"@) || is_in(installed, "gammastep"@) || is_in(
            installed,
            "wlsunset"@,
        ),
        temperature is Some ==> kelvin == temperature->0,
        temperature is None ==> kelvin == configured,
        1000 <= kelvin <= 20000,
    ensures
        enabled == Some(false) || (enabled is None && held is Some) ==> (r matches Ok(Change::Off)),
        (enabled == Some(true) || enabled is None) && held is None ==> (r matches Ok(
            Change::On { temperature: set, .. },
        ) && set == kelvin),
        enabled == Some(true) && held is Some && held->0.temperature == kelvin ==> (r matches Ok(
            Change::Keep,
        )),
        enabled == Some(true) && held is Some && held->0.temperature != kelvin ==> (r matches Ok(
            Change::On { temperature: set, .. },
        ) && set == kelvin),
        r matches Ok(Change::On { tool: Warmer::Hyprsunset, arguments, .. }) ==> is_in(
            installed,
            "hyprsunset"@,
        ) && texts(arguments@) == seq!["-t"@, decimal(kelvin as nat)],
        r matches Ok(Change::On { tool: Warmer::Gammastep, arguments, .. }) ==> is_in(
            installed,
            "gammastep"@,
        ) && !is_in(installed, "hyprsunset"@) && texts(arguments@) == seq![
            "-O"@,
            decimal(kelvin as nat),
        ],
        r matches Ok(Change::On { tool: Warmer::Wlsunset, arguments, .. }) ==> is_in(
            installed,
            "wlsunset"@,
        ) && !is_in(installed, "hyprsunset"@) && !is_in(installed, "gammastep"@) && texts(
            arguments@,
        ) == seq!["-t"@, decimal(kelvin as nat), "-T"@, decimal(kelvin as nat)],
{
}

/// A temperature that no screen can be set to is refused, and so is all where no program is installed.
pub proof fn what_no_screen_can_be_is_refused(
    r: Result<Change, String>,
    enabled: Option<bool>,
    temperature: u32,
    configured: u32,
    held: Option<Held>,
    installed: Seq<String>,
)
    requires
        is_change(r, enabled, Some(temperature), configured, held, installed),
    ensures
        temperature < 1000 || temperature > 20000 ==> r is Err,
        !is_in(installed, "hyprsunset"@) && !is_in(installed, "gammastep"@) && !is_in(
            installed,
            "wlsunset"@,
        ) ==> r is Err,
{
}

/// What is reported is what holds the screen: night mode is on where a program holds it, since that
/// was started, and off otherwise.
pub proof fn what_holds_the_screen_is_reported(
    r: NightLight,
    held: Option<Held>,
    seconds: u64,
    configured: u32,
    installed: Seq<String>,
)
    requires
        is_reported(r, held, seconds, configured, installed),
    ensures
        r.enabled <==> held is Some,
        held is Some ==> r.since == held->0.at && r.seconds == seconds,
        r.temperature == configured,
        r.daylight == 6500,
        r.available <==> is_in(installed, "hyprsunset"@) || is_in(installed, "gammastep"@) || is_in(
            installed,
            "wlsunset"@,
        ),
        r.available <==> r.unavailable_reason is None,
{
}

/// The first tool that is installed warms the screen, and none where none is.
pub proof fn the_first_tool_is_used(installed: Seq<String>)
    ensures
        first_warmer(installed) == Some(Warmer::Hyprsunset) <==> is_in(installed, "hyprsunset"@),
        first_warmer(installed) == Some(Warmer::Gammastep) <==> !is_in(installed, "hyprsunset"@)
            && is_in(installed, "gammastep"@),
        first_warmer(installed) == Some(Warmer::Wlsunset) <==> !is_in(installed, "hyprsunset"@)
            && !is_in(installed, "gammastep"@) && is_in(installed, "wlsunset"@),
        first_warmer(installed) is None ==> !is_in(installed, "wlsunset"@),
{
}

} // verus!
