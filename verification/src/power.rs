//! What the processor is doing about power. This only reports: the daemon that manages the
//! processor would put its own decision back a few seconds after anything was changed here.

use vstd::prelude::*;
use vstd::string::*;

use crate::text::{lines, lines_of, lossy, lossy_of, same, texts, trim, trim_of, words, words_of};

verus! {

/// The profile in one word, and what it was read from.
#[derive(Debug)]
pub struct Power {
    pub available: bool,
    pub reason: Option<String>,
    /// `performance`, `balanced`, `power-saver`, or nothing where what was read describes none.
    pub profile: String,
    pub governor: String,
    pub governors: Vec<String>,
    /// What the driver prefers between energy and performance, or nothing where it has no such
    /// setting.
    pub energy_preference: String,
    pub energy_preferences: Vec<String>,
    /// Whether turbo is allowed, where the machine says so.
    pub turbo: Option<bool>,
    pub driver: String,
    /// The daemon that decides all this, or nothing.
    pub manager: String,
    /// The platform profile, where the machine has one.
    pub platform_profile: Option<String>,
    pub platform_profiles: Vec<String>,
    /// Nothing here changes anything.
    pub can_switch: bool,
}

/// What the files say from which the state is read. One that cannot be read says nothing.
#[derive(Debug)]
pub struct Knobs {
    pub governor: String,
    pub governors: String,
    pub energy_preference: String,
    pub energy_preferences: String,
    /// Where turbo is spelled as an inversion.
    pub no_turbo: String,
    /// Where it is spelled as a flag.
    pub boost: String,
    pub driver: String,
    pub platform_profile: String,
    pub platform_profiles: String,
    /// What `systemctl is-active` wrote of the daemons, where it ran.
    pub managers: Option<Vec<u8>>,
}

/// Whether the machine says anything of this, and that it does not where it does not.
pub fn available(present: bool) -> (r: Result<(), String>)
    ensures
        match r {
            Ok(_) => present,
            Err(reason) => !present && reason@ == "this machine exposes no cpufreq state"@,
        },
{
    if present {
        Ok(())
    } else {
        Err("this machine exposes no cpufreq state".to_owned())
    }
}

/// What a governor and an energy preference come to in one word. The `powersave` governor is what
/// every laptop idles at: there the preference decides.
pub open spec fn profile_of(governor: Seq<char>, preference: Seq<char>) -> Seq<char> {
    if governor == "performance"@ {
        "performance"@
    } else if governor == "powersave"@ {
        if preference == "performance"@ {
            "performance"@
        } else if preference == "power"@ || preference == "balance_power"@ {
            "power-saver"@
        } else {
            "balanced"@
        }
    } else if governor == "conservative"@ {
        "power-saver"@
    } else if governor == "ondemand"@ || governor == "schedutil"@ {
        "balanced"@
    } else {
        Seq::empty()
    }
}

/// What a governor and an energy preference come to in one word.
pub fn profile(governor: &str, preference: &str) -> (r: String)
    ensures
        r@ == profile_of(governor@, preference@),
{
    if same(governor, "performance") {
        "performance".to_owned()
    } else if same(governor, "powersave") {
        if same(preference, "performance") {
            "performance".to_owned()
        } else if same(preference, "power") || same(preference, "balance_power") {
            "power-saver".to_owned()
        } else {
            "balanced".to_owned()
        }
    } else if same(governor, "conservative") {
        "power-saver".to_owned()
    } else if same(governor, "ondemand") || same(governor, "schedutil") {
        "balanced".to_owned()
    } else {
        String::new()
    }
}

/// Whether turbo is allowed, from the inverted setting or else from the flag.
pub open spec fn turbo_of(no_turbo: Seq<char>, boost: Seq<char>) -> Option<bool> {
    if no_turbo.len() > 0 {
        Some(no_turbo != "1"@)
    } else if boost.len() > 0 {
        Some(boost == "1"@)
    } else {
        None
    }
}

/// Whether turbo is allowed.
pub fn turbo(no_turbo: &str, boost: &str) -> (r: Option<bool>)
    ensures
        r == turbo_of(no_turbo@, boost@),
{
    if !no_turbo.is_empty() {
        return Some(!same(no_turbo, "1"));
    }
    if !boost.is_empty() {
        return Some(same(boost, "1"));
    }
    None
}

/// The daemons that manage the processor, in the order in which they are asked about.
pub open spec fn known_managers() -> Seq<Seq<char>> {
    seq!["auto-cpufreq"@, "power-profiles-daemon"@, "tuned"@]
}

/// The daemon whose line says that it is active, the first of them where there are several.
pub open spec fn active_manager(states: Seq<Seq<char>>, names: Seq<Seq<char>>) -> Seq<char>
    decreases states.len(),
{
    if states.len() == 0 || names.len() == 0 {
        Seq::empty()
    } else if trim_of(states[0]) == "active"@ {
        names[0]
    } else {
        active_manager(states.drop_first(), names.drop_first())
    }
}

/// The arguments that ask about the daemons.
pub fn manager_arguments() -> (r: Vec<String>)
    ensures
        texts(r@) == seq!["is-active"@] + known_managers(),
{
    let mut out: Vec<String> = Vec::new();
    out.push("is-active".to_owned());
    out.push("auto-cpufreq".to_owned());
    out.push("power-profiles-daemon".to_owned());
    out.push("tuned".to_owned());
    assert(texts(out@) =~= seq!["is-active"@] + known_managers());
    out
}

/// Which daemon manages the processor. There is one line of output for each that was asked about.
pub fn manager(output: &[u8]) -> (r: String)
    ensures
        r@ == active_manager(lines_of(lossy_of(output@)), known_managers()),
{
    let states = lines(lossy(output).as_str());
    let names = manager_arguments();
    let ghost all = texts(states@);
    let ghost known = known_managers();
    assert(all.skip(0) =~= all);
    assert(known.skip(0) =~= known);
    assert(texts(names@).len() == known.len() + 1);
    let mut i: usize = 0;
    while i < states.len() && i + 1 < names.len()
        invariant
            all == texts(states@),
            known == known_managers(),
            texts(names@) == seq!["is-active"@] + known,
            names@.len() == known.len() + 1,
            i <= all.len(),
            i <= known.len(),
            active_manager(all, known) == active_manager(
                all.skip(i as int),
                known.skip(i as int),
            ),
            all == lines_of(lossy_of(output@)),
        decreases states.len() - i,
    {
        assert(texts(names@)[i + 1] == known[i as int]);
        assert(all.skip(i as int)[0] == states@[i as int]@);
        assert(known.skip(i as int)[0] == names@[i + 1]@);
        assert(all.skip(i as int).drop_first() =~= all.skip(i + 1));
        assert(known.skip(i as int).drop_first() =~= known.skip(i + 1));
        if same(trim(states[i].as_str()).as_str(), "active") {
            return names[i + 1].as_str().to_owned();
        }
        i += 1;
    }
    String::new()
}

/// What is reported of the state that the files describe.
pub open spec fn is_reported(r: Power, knobs: Knobs) -> bool {
    let profile = trim_of(knobs.platform_profile@);
    &&& r.available
    &&& r.reason is None
    &&& r.profile@ == profile_of(r.governor@, r.energy_preference@)
    &&& r.governor@ == trim_of(knobs.governor@)
    &&& texts(r.governors@) == words_of(trim_of(knobs.governors@))
    &&& r.energy_preference@ == trim_of(knobs.energy_preference@)
    &&& texts(r.energy_preferences@) == words_of(trim_of(knobs.energy_preferences@))
    &&& r.turbo == turbo_of(trim_of(knobs.no_turbo@), trim_of(knobs.boost@))
    &&& r.driver@ == trim_of(knobs.driver@)
    &&& r.manager@ == (match knobs.managers {
        Some(output) => active_manager(lines_of(lossy_of(output@)), known_managers()),
        None => Seq::empty(),
    })
    &&& match r.platform_profile {
        Some(text) => profile.len() > 0 && text@ == profile,
        None => profile.len() == 0,
    }
    &&& texts(r.platform_profiles@) == words_of(trim_of(knobs.platform_profiles@))
    &&& !r.can_switch
}

/// What is reported where the machine says nothing.
pub open spec fn is_unknown(r: Power) -> bool {
    &&& !r.available
    &&& r.reason is Some
    &&& (r.reason->0)@ == "this machine exposes no cpufreq state"@
    &&& r.profile@.len() == 0
    &&& r.governor@.len() == 0
    &&& r.governors@.len() == 0
    &&& r.energy_preference@.len() == 0
    &&& r.energy_preferences@.len() == 0
    &&& r.turbo is None
    &&& r.driver@.len() == 0
    &&& r.manager@.len() == 0
    &&& r.platform_profile is None
    &&& r.platform_profiles@.len() == 0
    &&& !r.can_switch
}

/// The words of a file.
fn words_in(text: &str) -> (r: Vec<String>)
    ensures
        texts(r@) == words_of(trim_of(text@)),
{
    words(trim(text).as_str())
}

/// The state of the processor, from what the files say where there are any.
pub fn status(knobs: Option<&Knobs>) -> (r: Power)
    ensures
        match knobs {
            Some(read) => is_reported(r, *read),
            None => is_unknown(r),
        },
{
    let read = match knobs {
        Some(read) => read,
        None => {
            let reason = match available(false) {
                Ok(_) => None,
                Err(reason) => Some(reason),
            };
            return Power {
                available: false,
                reason,
                profile: String::new(),
                governor: String::new(),
                governors: Vec::new(),
                energy_preference: String::new(),
                energy_preferences: Vec::new(),
                turbo: None,
                driver: String::new(),
                manager: String::new(),
                platform_profile: None,
                platform_profiles: Vec::new(),
                can_switch: false,
            };
        },
    };
    let governor = trim(read.governor.as_str());
    let energy_preference = trim(read.energy_preference.as_str());
    let platform = trim(read.platform_profile.as_str());
    Power {
        available: true,
        reason: None,
        profile: profile(governor.as_str(), energy_preference.as_str()),
        governors: words_in(read.governors.as_str()),
        energy_preferences: words_in(read.energy_preferences.as_str()),
        turbo: turbo(trim(read.no_turbo.as_str()).as_str(), trim(read.boost.as_str()).as_str()),
        driver: trim(read.driver.as_str()),
        manager: match &read.managers {
            Some(output) => manager(output.as_slice()),
            None => String::new(),
        },
        platform_profile: if platform.as_str().is_empty() {
            None
        } else {
            Some(platform)
        },
        platform_profiles: words_in(read.platform_profiles.as_str()),
        can_switch: false,
        governor,
        energy_preference,
    }
}

/// Turbo that is switched off by the one setting is what the other calls off: the first is an
/// inversion of the second, and goes before it.
pub proof fn no_turbo_is_the_opposite_of_boost(boost: Seq<char>)
    ensures
        turbo_of("1"@, boost) == Some(false),
        turbo_of("0"@, boost) == Some(true),
        turbo_of(Seq::empty(), "1"@) == Some(true),
        turbo_of(Seq::empty(), "0"@) == Some(false),
        turbo_of(Seq::empty(), Seq::empty()) is None,
{
    reveal_strlit("1");
    reveal_strlit("0");
    assert("1"@.len() == 1 && "0"@.len() == 1);
    assert("1"@[0] == '1' && "0"@[0] == '0');
}

/// A governor that is told by itself is the same whatever is preferred; `powersave` is what is
/// preferred.
pub proof fn the_governor_decides_before_the_preference(preference: Seq<char>)
    ensures
        profile_of("performance"@, preference) == "performance"@,
        profile_of("conservative"@, preference) == "power-saver"@,
        profile_of("ondemand"@, preference) == "balanced"@,
        profile_of("schedutil"@, preference) == "balanced"@,
        profile_of("powersave"@, "performance"@) == "performance"@,
        profile_of("powersave"@, "power"@) == "power-saver"@,
        profile_of("powersave"@, "balance_power"@) == "power-saver"@,
        profile_of("powersave"@, "balance_performance"@) == "balanced"@,
        profile_of("powersave"@, Seq::empty()) == "balanced"@,
{
    reveal_strlit("performance");
    reveal_strlit("conservative");
    reveal_strlit("ondemand");
    reveal_strlit("schedutil");
    reveal_strlit("powersave");
    reveal_strlit("power");
    reveal_strlit("balance_power");
    reveal_strlit("balance_performance");
    assert("performance"@.len() == 11 && "conservative"@.len() == 12 && "ondemand"@.len() == 8
        && "schedutil"@.len() == 9 && "powersave"@.len() == 9 && "power"@.len() == 5
        && "balance_power"@.len() == 13 && "balance_performance"@.len() == 19);
    assert("schedutil"@[0] == 's' && "powersave"@[0] == 'p');
}

/// The daemon that manages the processor is the first that is active, and none where none is.
pub proof fn the_first_active_daemon_manages(states: Seq<Seq<char>>, names: Seq<Seq<char>>, k: int)
    requires
        0 <= k <= states.len(),
        k <= names.len(),
        forall|j: int| 0 <= j < k ==> trim_of(#[trigger] states[j]) != "active"@,
        k < states.len() && k < names.len() ==> trim_of(states[k]) == "active"@,
    ensures
        k < states.len() && k < names.len() ==> active_manager(states, names) == names[k],
        k == states.len() || k == names.len() ==> active_manager(states, names).len() == 0,
    decreases k,
{
    if k > 0 {
        assert(trim_of(states[0]) != "active"@);
        let rest = states.drop_first();
        assert forall|j: int| 0 <= j < k - 1 implies trim_of(#[trigger] rest[j]) != "active"@ by {
            assert(rest[j] == states[j + 1]);
        }
        the_first_active_daemon_manages(rest, names.drop_first(), k - 1);
    }
}

} // verus!
