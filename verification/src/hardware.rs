//! Which machine this is, and how its battery and its firmware are doing.
//!
//! Almost nothing here belongs to one vendor: the firmware tables name it, the power supply reports
//! the wear of a battery, and `fwupd` knows of updates on any machine that runs it.

use vstd::prelude::*;
use vstd::string::*;

use crate::json::{models, Json, Value};
use crate::number::{parse_unsigned, unsigned_of};
use crate::order::{before, comes_before, comes_before_is_total, comes_before_is_transitive};
use crate::text::{
    contains, copy_option, has, lossy, lossy_of, lower_of, lowercase, occurs_at, owned, same, trim,
    trim_of,
};

verus! {

/// The machine.
#[derive(Debug)]
pub struct Hardware {
    pub vendor: String,
    pub product: String,
    pub family: String,
    pub board: String,
    pub bios_version: String,
    /// Whether the vendor is Framework.
    pub framework: bool,
    pub battery: Option<Battery>,
}

/// The wear of a battery.
#[derive(Debug)]
pub struct Battery {
    pub name: String,
    pub manufacturer: String,
    pub model: String,
    /// What it holds when full against what it held when new, in percent.
    pub health: Option<u32>,
    pub cycle_count: Option<u32>,
    /// In the unit that the battery reports.
    pub full: Option<u64>,
    pub design_full: Option<u64>,
    pub unit: String,
    pub capacity: Option<u32>,
    pub status: String,
    /// Where charging starts and ends, on machines that tell.
    pub charge_start_threshold: Option<u32>,
    pub charge_end_threshold: Option<u32>,
}

/// An update that `fwupd` offers.
#[derive(Debug)]
pub struct FirmwareUpdate {
    pub name: String,
    pub current: String,
    pub available: String,
}

/// What an update is.
#[verifier::ext_equal]
pub struct UpdateModel {
    pub name: Seq<char>,
    pub current: Seq<char>,
    pub available: Seq<char>,
}

impl View for FirmwareUpdate {
    type V = UpdateModel;

    open spec fn view(&self) -> UpdateModel {
        UpdateModel { name: self.name@, current: self.current@, available: self.available@ }
    }
}

/// The updates that `fwupd` offers.
#[derive(Debug)]
pub struct Firmware {
    pub available: bool,
    pub reason: Option<String>,
    pub updates: Vec<FirmwareUpdate>,
    /// When this was asked, and whether it is an answer from before.
    pub checked_at: i64,
    pub cached: bool,
}

/// What the firmware tables say of the machine.
#[derive(Debug)]
pub struct Dmi {
    pub vendor: String,
    pub product: String,
    pub family: String,
    pub board: String,
    pub bios_version: String,
}

/// Whether a vendor is Framework.
pub open spec fn is_framework(vendor: Seq<char>) -> bool {
    has(lower_of(vendor), "framework"@)
}

/// Whether a vendor is Framework.
pub fn framework(vendor: &str) -> (r: bool)
    ensures
        r == is_framework(vendor@),
{
    contains(lowercase(vendor).as_str(), "framework")
}

/// The machine, from what the firmware tables say and from its battery.
pub fn status(dmi: &Dmi, battery: Option<Battery>) -> (r: Hardware)
    ensures
        r.vendor@ == trim_of(dmi.vendor@),
        r.product@ == trim_of(dmi.product@),
        r.family@ == trim_of(dmi.family@),
        r.board@ == trim_of(dmi.board@),
        r.bios_version@ == trim_of(dmi.bios_version@),
        r.framework == is_framework(trim_of(dmi.vendor@)),
        r.battery == battery,
{
    let vendor = trim(dmi.vendor.as_str());
    Hardware {
        framework: framework(vendor.as_str()),
        product: trim(dmi.product.as_str()),
        family: trim(dmi.family.as_str()),
        board: trim(dmi.board.as_str()),
        bios_version: trim(dmi.bios_version.as_str()),
        vendor,
        battery,
    }
}

/// A power supply: the name of its directory, and what it says it is.
#[derive(Debug)]
pub struct Supply {
    pub name: String,
    pub kind: String,
}

/// Whether a power supply is a battery.
pub open spec fn is_battery(supply: Supply) -> bool {
    trim_of(supply.kind@) == "Battery"@
}

/// Whether the battery is the one that is reported: the first by name.
pub open spec fn is_first_battery(supplies: Seq<Supply>, i: int) -> bool {
    &&& 0 <= i < supplies.len()
    &&& is_battery(supplies[i])
    &&& forall|k: int|
        0 <= k < supplies.len() && is_battery(#[trigger] supplies[k]) ==> !comes_before(
            supplies[k].name@,
            supplies[i].name@,
        )
    &&& forall|k: int|
        0 <= k < i && is_battery(#[trigger] supplies[k]) ==> supplies[k].name@ != supplies[i].name@
}

/// The index of the first battery by name. A machine with two is rare enough that naming one is
/// better than finding a way to speak of both.
pub fn first_battery(supplies: &Vec<Supply>) -> (r: Option<usize>)
    ensures
        match r {
            Some(i) => is_first_battery(supplies@, i as int),
            None => forall|k: int| 0 <= k < supplies@.len() ==> !is_battery(#[trigger] supplies@[k]),
        },
{
    let mut best: Option<usize> = None;
    let mut i: usize = 0;
    while i < supplies.len()
        invariant
            i <= supplies@.len(),
            match best {
                Some(b) => b < i && is_first_battery(supplies@.take(i as int), b as int),
                None => forall|k: int| 0 <= k < i ==> !is_battery(#[trigger] supplies@[k]),
            },
        decreases supplies.len() - i,
    {
        let ghost some = supplies@.take(i as int);
        let ghost more = supplies@.take(i + 1);
        assert(forall|k: int| 0 <= k < i ==> some[k] == supplies@[k] && more[k] == supplies@[k]);
        assert(more[i as int] == supplies@[i as int]);
        if same(trim(supplies[i].kind.as_str()).as_str(), "Battery") {
            let better = match best {
                Some(b) => before(supplies[i].name.as_str(), supplies[b].name.as_str()),
                None => true,
            };
            let ghost last = best;
            if better {
                best = Some(i);
            }
            proof {
                let new = supplies@[i as int].name@;
                comes_before_is_total(new, new);
                match last {
                    Some(b) => {
                        let old_name = supplies@[b as int].name@;
                        if better {
                            assert forall|k: int|
                                0 <= k < more.len() && is_battery(
                                    #[trigger] more[k],
                                ) implies !comes_before(more[k].name@, new) by {
                                if k < i {
                                    assert(is_battery(some[k]));
                                    if comes_before(some[k].name@, new) {
                                        comes_before_is_transitive(some[k].name@, new, old_name);
                                    }
                                }
                            }
                            assert forall|k: int|
                                0 <= k < i && is_battery(#[trigger] more[k]) implies more[k].name@
                                != new by {
                                assert(is_battery(some[k]));
                            }
                            assert(is_first_battery(more, i as int));
                        } else {
                            assert forall|k: int|
                                0 <= k < more.len() && is_battery(
                                    #[trigger] more[k],
                                ) implies !comes_before(more[k].name@, old_name) by {
                                if k < i {
                                    assert(is_battery(some[k]));
                                }
                            }
                            assert forall|k: int|
                                0 <= k < b && is_battery(#[trigger] more[k]) implies more[k].name@
                                != old_name by {
                                assert(is_battery(some[k]));
                            }
                            assert(more[b as int] == some[b as int]);
                            assert(is_first_battery(more, b as int));
                        }
                    },
                    None => {
                        assert(is_first_battery(more, i as int));
                    },
                }
            }
        } else {
            proof {
                if let Some(b) = best {
                    assert forall|k: int|
                        0 <= k < more.len() && is_battery(#[trigger] more[k]) implies !comes_before(
                        more[k].name@,
                        more[b as int].name@,
                    ) by {
                        assert(is_battery(some[k]));
                    }
                    assert forall|k: int| 0 <= k < b && is_battery(#[trigger] more[k]) implies more[k].name@
                        != more[b as int].name@ by {
                        assert(is_battery(some[k]));
                    }
                    assert(is_first_battery(more, b as int));
                }
            }
        }
        i += 1;
    }
    assert(supplies@.take(i as int) =~= supplies@);
    best
}

/// What the files of a battery say.
#[derive(Debug)]
pub struct Readings {
    pub manufacturer: String,
    pub model_name: String,
    pub cycle_count: String,
    pub charge_full: String,
    pub charge_full_design: String,
    pub energy_full: String,
    pub energy_full_design: String,
    pub capacity: String,
    pub status: String,
    pub charge_control_start_threshold: String,
    pub charge_control_end_threshold: String,
}

/// The number that a file holds.
pub open spec fn number_in(text: Seq<char>) -> Option<nat> {
    unsigned_of(trim_of(text), u64::MAX as nat)
}

/// Whether a number is the one that a file holds.
pub open spec fn is_number_in(r: Option<u64>, text: Seq<char>) -> bool {
    match r {
        Some(n) => number_in(text) == Some(n as nat),
        None => number_in(text) is None,
    }
}

/// Whether a number is the one that a file holds, in so far as it fits.
pub open spec fn is_short_in(r: Option<u32>, text: Seq<char>) -> bool {
    match r {
        Some(n) => number_in(text) is Some && n == number_in(text)->0 % 0x1_0000_0000,
        None => number_in(text) is None,
    }
}

/// The number that a file holds.
fn read_number(text: &str) -> (r: Option<u64>)
    ensures
        is_number_in(r, text@),
{
    parse_unsigned(trim(text).as_str(), u64::MAX)
}

/// The number that a file holds, in so far as it fits.
fn read_short(text: &str) -> (r: Option<u32>)
    ensures
        is_short_in(r, text@),
{
    match read_number(text) {
        Some(n) => Some((n % 0x1_0000_0000) as u32),
        None => None,
    }
}

/// What a battery is reported as.
pub open spec fn is_reported(r: Battery, name: Seq<char>, readings: Readings) -> bool {
    &&& r.name@ == name
    &&& r.manufacturer@ == trim_of(readings.manufacturer@)
    &&& r.model@ == trim_of(readings.model_name@)
    &&& is_health(r.health, r.full, r.design_full)
    &&& is_short_in(r.cycle_count, readings.cycle_count@)
    &&& if number_in(readings.charge_full@) is Some {
        &&& is_number_in(r.full, readings.charge_full@)
        &&& is_number_in(r.design_full, readings.charge_full_design@)
        &&& r.unit@ == "µAh"@
    } else {
        &&& is_number_in(r.full, readings.energy_full@)
        &&& is_number_in(r.design_full, readings.energy_full_design@)
        &&& r.unit@ == "µWh"@
    }
    &&& is_short_in(r.capacity, readings.capacity@)
    &&& r.status@ == trim_of(readings.status@)
    &&& is_short_in(r.charge_start_threshold, readings.charge_control_start_threshold@)
    &&& is_short_in(r.charge_end_threshold, readings.charge_control_end_threshold@)
}

/// The battery of that name, from what its files say. It reports either charge or energy: the unit
/// is passed on and nothing is converted.
pub fn battery(name: &str, readings: &Readings) -> (r: Battery)
    ensures
        is_reported(r, name@, *readings),
{
    let charge = read_number(readings.charge_full.as_str());
    let (full, design_full, unit) = if charge.is_some() {
        (charge, read_number(readings.charge_full_design.as_str()), "µAh")
    } else {
        (
            read_number(readings.energy_full.as_str()),
            read_number(readings.energy_full_design.as_str()),
            "µWh",
        )
    };
    Battery {
        name: name.to_owned(),
        manufacturer: trim(readings.manufacturer.as_str()),
        model: trim(readings.model_name.as_str()),
        health: health(full, design_full),
        cycle_count: read_short(readings.cycle_count.as_str()),
        full,
        design_full,
        unit: unit.to_owned(),
        capacity: read_short(readings.capacity.as_str()),
        status: trim(readings.status.as_str()),
        charge_start_threshold: read_short(readings.charge_control_start_threshold.as_str()),
        charge_end_threshold: read_short(readings.charge_control_end_threshold.as_str()),
    }
}

/// Whether a number of percent is what one number is of another, rounded to the nearest, halves
/// going up.
pub open spec fn is_percent(p: int, full: int, design: int) -> bool {
    2 * design * p <= 200 * full + design < 2 * design * (p + 1)
}

/// Whether this is the health of a battery: the part of its first charge that is left, in percent,
/// and never above a hundred.
pub open spec fn is_health(r: Option<u32>, full: Option<u64>, design: Option<u64>) -> bool {
    match (full, design) {
        (Some(full), Some(design)) => if design == 0 {
            r is None
        } else if 200 * full + design >= 200 * design {
            r == Some(100u32)
        } else {
            r is Some && is_percent(r->0 as int, full as int, design as int)
        },
        _ => r is None,
    }
}

/// The health of a battery, in percent. One that reports more than it shipped with is at a hundred:
/// the rest is drift of the measurement.
pub fn health(full: Option<u64>, design: Option<u64>) -> (r: Option<u32>)
    ensures
        is_health(r, full, design),
        r is Some ==> r->0 <= 100,
{
    match (full, design) {
        (Some(full), Some(design)) => {
            if design == 0 {
                return None;
            }
            let part: u128 = 200 * (full as u128) + design as u128;
            let whole: u128 = 2 * (design as u128);
            if part >= 100 * whole {
                return Some(100);
            }
            let left: u128 = part / whole;
            assert(whole * left <= part < whole * (left + 1) && left < 100) by (nonlinear_arith)
                requires
                    left == part / whole,
                    whole > 0,
                    part < 100 * whole,
            ;
            Some(left as u32)
        },
        _ => None,
    }
}

/// Of two charges of the same battery, the lesser is not the better health.
pub proof fn less_charge_is_not_more_health(
    less: u64,
    more: u64,
    design: u64,
    first: Option<u32>,
    second: Option<u32>,
)
    requires
        design > 0,
        less <= more,
        is_health(first, Some(less), Some(design)),
        is_health(second, Some(more), Some(design)),
    ensures
        first->0 <= second->0 <= 100,
{
    let (d, p, q) = (design as int, first->0 as int, second->0 as int);
    if 200 * more + d < 200 * d {
        assert(p <= q && q <= 100) by (nonlinear_arith)
            requires
                d > 0,
                2 * d * p <= 200 * less + d,
                200 * more + d < 2 * d * (q + 1),
                2 * d * q <= 200 * more + d,
                200 * more + d < 200 * d,
                less <= more,
        ;
    } else if 200 * less + d < 200 * d {
        assert(p <= 100) by (nonlinear_arith)
            requires
                d > 0,
                2 * d * p <= 200 * less + d,
                200 * less + d < 200 * d,
        ;
    }
}

/// For how many seconds an answer of `fwupd` is used again.
pub const FIRMWARE_CACHE_SECONDS: u64 = 600;

/// Whether `fwupd` can be asked, and why not where it cannot.
pub fn firmware_available(installed: bool) -> (r: Result<(), String>)
    ensures
        match r {
            Ok(_) => installed,
            Err(reason) => !installed && reason@ == "fwupd is not installed"@,
        },
{
    if installed {
        Ok(())
    } else {
        Err("fwupd is not installed".to_owned())
    }
}

/// What each of some updates is.
pub open spec fn update_models(updates: Seq<FirmwareUpdate>) -> Seq<UpdateModel> {
    updates.map_values(|u: FirmwareUpdate| u@)
}

/// Whether an answer from before is given again, as such.
pub open spec fn is_given_again(r: Firmware, before: Firmware) -> bool {
    &&& r.available == before.available
    &&& owned(r.reason) == owned(before.reason)
    &&& update_models(r.updates@) == update_models(before.updates@)
    &&& r.checked_at == before.checked_at
    &&& r.cached
}

/// An answer from before, given again.
fn again(cached: &Firmware) -> (r: Firmware)
    ensures
        is_given_again(r, *cached),
{
    let ghost all = update_models(cached.updates@);
    let mut updates: Vec<FirmwareUpdate> = Vec::new();
    let mut i: usize = 0;
    while i < cached.updates.len()
        invariant
            all == update_models(cached.updates@),
            i <= cached.updates@.len(),
            update_models(updates@) == all.take(i as int),
        decreases cached.updates.len() - i,
    {
        let ghost before = update_models(updates@);
        let update = &cached.updates[i];
        updates.push(
            FirmwareUpdate {
                name: update.name.as_str().to_owned(),
                current: update.current.as_str().to_owned(),
                available: update.available.as_str().to_owned(),
            },
        );
        assert(update_models(updates@) =~= before.push(all[i as int]));
        assert(all.take(i + 1) =~= before.push(all[i as int]));
        i += 1;
    }
    assert(all.take(i as int) =~= all);
    Firmware {
        available: cached.available,
        reason: copy_option(&cached.reason),
        updates,
        checked_at: cached.checked_at,
        cached: true,
    }
}

/// Whether this is what is known of the firmware without asking.
pub open spec fn is_known(
    r: Option<Firmware>,
    refresh: bool,
    installed: bool,
    cached: Option<(Firmware, u64)>,
) -> bool {
    if !installed {
        &&& r is Some
        &&& !(r->0).available
        &&& (r->0).reason is Some
        &&& ((r->0).reason->0)@ == "fwupd is not installed"@
        &&& (r->0).updates@.len() == 0
        &&& (r->0).checked_at == 0
        &&& !(r->0).cached
    } else {
        match cached {
            Some((before, age)) => if !refresh && age < FIRMWARE_CACHE_SECONDS {
                r is Some && is_given_again(r->0, before)
            } else {
                r is None
            },
            None => r is None,
        }
    }
}

/// What is known of the firmware without asking `fwupd`, or nothing where it has to be asked. The
/// last answer comes with its age in seconds. A refresh passes over it.
pub fn firmware(refresh: bool, installed: bool, cached: Option<(&Firmware, u64)>) -> (r: Option<
    Firmware,
>)
    ensures
        is_known(
            r,
            refresh,
            installed,
            match cached {
                Some((before, age)) => Some((*before, age)),
                None => None,
            },
        ),
{
    if let Err(reason) = firmware_available(installed) {
        return Some(
            Firmware {
                available: false,
                reason: Some(reason),
                updates: Vec::new(),
                checked_at: 0,
                cached: false,
            },
        );
    }
    if refresh {
        return None;
    }
    match cached {
        Some((before, age)) => if age < FIRMWARE_CACHE_SECONDS {
            Some(again(before))
        } else {
            None
        },
        None => None,
    }
}

/// The update that a device offers. One without a release has nothing to install.
pub open spec fn update_of(device: Json) -> Option<UpdateModel> {
    let releases = device.list_at("Releases"@);
    if releases.len() > 0 {
        Some(
            UpdateModel {
                name: device.text_or_empty("Name"@),
                current: device.text_or_empty("Version"@),
                available: releases[0].text_or_empty("Version"@),
            },
        )
    } else {
        None
    }
}

/// The updates that some devices offer.
pub open spec fn updates_of(devices: Seq<Json>) -> Seq<UpdateModel>
    decreases devices.len(),
{
    if devices.len() == 0 {
        Seq::empty()
    } else {
        match update_of(devices.last()) {
            Some(update) => updates_of(devices.drop_last()).push(update),
            None => updates_of(devices.drop_last()),
        }
    }
}

/// The update that a device offers.
fn read_update(device: &Value) -> (r: Option<FirmwareUpdate>)
    ensures
        match r {
            Some(update) => update_of(device@) == Some(update@),
            None => update_of(device@) is None,
        },
{
    let releases = match device.get("Releases") {
        Some(v) => match v.as_array() {
            Some(releases) => releases,
            None => return None,
        },
        None => return None,
    };
    assert(device@.list_at("Releases"@) == models(releases@));
    if releases.len() == 0 {
        return None;
    }
    Some(
        FirmwareUpdate {
            name: device.text_or_empty("Name"),
            current: device.text_or_empty("Version"),
            available: releases[0].text_or_empty("Version"),
        },
    )
}

/// The updates that `fwupd` named.
fn read_updates(answer: &Value) -> (r: Vec<FirmwareUpdate>)
    ensures
        update_models(r@) == updates_of(answer@.list_at("Devices"@)),
{
    let ghost all = answer@.list_at("Devices"@);
    let mut out: Vec<FirmwareUpdate> = Vec::new();
    assert(all.take(0) =~= Seq::empty());
    assert(update_models(out@) =~= Seq::empty());
    let devices = match answer.get("Devices") {
        Some(v) => match v.as_array() {
            Some(devices) => devices,
            None => return out,
        },
        None => return out,
    };
    let mut i: usize = 0;
    while i < devices.len()
        invariant
            all == models(devices@),
            i <= devices@.len(),
            update_models(out@) == updates_of(all.take(i as int)),
        decreases devices.len() - i,
    {
        let ghost before = update_models(out@);
        assert(all.take(i + 1).drop_last() =~= all.take(i as int));
        assert(all.take(i + 1).last() == devices@[i as int]@);
        if let Some(update) = read_update(&devices[i]) {
            out.push(update);
            assert(update_models(out@) =~= before.push(update@));
        }
        i += 1;
    }
    assert(all.take(i as int) =~= all);
    out
}

/// Whether what `fwupd` wrote says only that there is nothing to update.
pub open spec fn says_nothing_new(detail: Seq<char>) -> bool {
    has(lower_of(detail), "no updates"@) || detail.len() == 0
}

/// Whether this is what `fwupd` answered.
pub open spec fn is_asked(
    r: Result<Firmware, String>,
    answer: Result<Value, String>,
    success: bool,
    detail: Seq<char>,
    now: i64,
) -> bool {
    let read = match answer {
        Ok(value) => Some(value@.list_at("Devices"@)),
        Err(_) => if !success && says_nothing_new(detail) {
            Some(Seq::empty())
        } else {
            None
        },
    };
    match r {
        Ok(firmware) => {
            &&& read is Some
            &&& firmware.available
            &&& firmware.reason is None
            &&& update_models(firmware.updates@) == updates_of(read->0)
            &&& firmware.checked_at == now
            &&& !firmware.cached
        },
        Err(message) => {
            &&& read is None
            &&& message@ == (if success {
                "fwupd answered with something unreadable: "@ + (answer->Err_0)@
            } else {
                "fwupd could not be asked: "@ + detail
            })
        },
    }
}

/// What `fwupd` answered. It fails where there is simply nothing to update, which is no failure.
/// `answer` is its output where that could be read, or else what stands in the way.
pub fn asked(answer: Result<Value, String>, success: bool, stderr: &[u8], now: i64) -> (r: Result<
    Firmware,
    String,
>)
    ensures
        is_asked(r, answer, success, trim_of(lossy_of(stderr@)), now),
{
    let value = match answer {
        Ok(value) => value,
        Err(cause) => {
            if success {
                let mut message = "fwupd answered with something unreadable: ".to_owned();
                message.append(cause.as_str());
                return Err(message);
            }
            let detail = trim(lossy(stderr).as_str());
            if !contains(lowercase(detail.as_str()).as_str(), "no updates")
                && !detail.as_str().is_empty() {
                let mut message = "fwupd could not be asked: ".to_owned();
                message.append(detail.as_str());
                return Err(message);
            }
            Value::Null
        },
    };
    Ok(
        Firmware {
            available: true,
            reason: None,
            updates: read_updates(&value),
            checked_at: now,
            cached: false,
        },
    )
}

/// The health of a battery is the part that is left of it, in percent and rounded: a whole battery has a
/// hundred, an empty one none, and any other no more than half a percent beside what is left.
pub proof fn health_is_what_is_left(r: Option<u32>, full: u64, design: u64)
    requires
        is_health(r, Some(full), Some(design)),
        design > 0,
    ensures
        r is Some,
        full >= design ==> r->0 == 100,
        full == 0 ==> r->0 == 0,
        full < design ==> -(design as int) <= 2 * (100 * full - r->0 * design) <= design,
        full == design / 2 && design % 2 == 0 ==> r->0 == 50,
{
    let d = design as int;
    let f = full as int;
    let p = r->0 as int;
    if 200 * f + d < 200 * d {
        assert(2 * d * p <= 200 * f + d < 2 * d * (p + 1));
        assert(2 * d * p == 2 * (p * d)) by (nonlinear_arith);
        assert(2 * d * (p + 1) == 2 * (p * d) + 2 * d) by (nonlinear_arith);
        if f == 0 {
            assert(p == 0) by (nonlinear_arith)
                requires
                    d > 0,
                    2 * (p * d) <= d,
                    p >= 0,
            ;
        }
        if full == design / 2 && design % 2 == 0 {
            assert(2 * f == d);
            assert(p == 50) by (nonlinear_arith)
                requires
                    d > 0,
                    2 * (p * d) <= 101 * d,
                    101 * d < 2 * (p * d) + 2 * d,
            ;
        }
    } else {
        assert(200 * f + d >= 200 * d);
        assert(p == 100);
    }
}

/// The battery that is reported is one, and no other comes before it by name.
pub proof fn the_first_battery_is_reported(supplies: Seq<Supply>, i: int, k: int)
    requires
        is_first_battery(supplies, i),
        0 <= k < supplies.len(),
        trim_of(supplies[k].kind@) == "Battery"@,
    ensures
        trim_of(supplies[i].kind@) == "Battery"@,
        !comes_before(supplies[k].name@, supplies[i].name@),
{
}

/// A battery is reported as its files say: by its charge where it tells that, and by its energy where it
/// does not.
pub proof fn a_battery_is_what_its_files_say(r: Battery, name: Seq<char>, readings: Readings)
    requires
        is_reported(r, name, readings),
    ensures
        r.name@ == name,
        r.status@ == trim_of(readings.status@),
        r.model@ == trim_of(readings.model_name@),
        unsigned_of(trim_of(readings.charge_full@), u64::MAX as nat) matches Some(n)
            ==> r.full == Some(n as u64) && r.unit@ == "µAh"@,
        unsigned_of(trim_of(readings.charge_full@), u64::MAX as nat) is None ==> r.unit@ == "µWh"@,
        unsigned_of(trim_of(readings.charge_full@), u64::MAX as nat) is None ==> (unsigned_of(
            trim_of(readings.energy_full@),
            u64::MAX as nat,
        ) matches Some(n) ==> r.full == Some(n as u64)),
        unsigned_of(trim_of(readings.capacity@), u64::MAX as nat) matches Some(n) ==> (n <= u32::MAX
            ==> r.capacity == Some(n as u32)),
        unsigned_of(trim_of(readings.cycle_count@), u64::MAX as nat) matches Some(n) ==> (n <= u32::MAX
            ==> r.cycle_count == Some(n as u32)),
{
}

/// A refresh always asks; otherwise an answer is given again while it is younger than ten minutes, and
/// as what it is.
pub proof fn a_fresh_answer_is_given_again(
    r: Option<Firmware>,
    refresh: bool,
    before: Firmware,
    age: u64,
)
    requires
        is_known(r, refresh, true, Some((before, age))),
    ensures
        refresh ==> r is None,
        !refresh && age < 600 ==> r is Some && (r->0).cached && (r->0).checked_at == before.checked_at
            && update_models((r->0).updates@) == update_models(before.updates@),
        age >= 600 ==> r is None,
{
}

/// A device with a release offers it as an update, under its name and from its version.
pub proof fn a_device_with_a_release_offers_it(
    devices: Seq<Json>,
    k: int,
    name: Seq<char>,
    current: Seq<char>,
    releases: Seq<Json>,
    available: Seq<char>,
)
    requires
        0 <= k < devices.len(),
        devices[k].field("Name"@) == Some(Json::Text(name)),
        devices[k].field("Version"@) == Some(Json::Text(current)),
        devices[k].field("Releases"@) == Some(Json::List(releases)),
        releases.len() > 0,
        releases[0].field("Version"@) == Some(Json::Text(available)),
    ensures
        updates_of(devices).contains((UpdateModel { name, current, available })),
    decreases devices.len(),
{
    let front = devices.drop_last();
    let before = updates_of(front);
    let all = updates_of(devices);
    let update = UpdateModel { name, current, available };
    if k < front.len() {
        a_device_with_a_release_offers_it(front, k, name, current, releases, available);
        let x = choose|x: int| 0 <= x < before.len() && before[x] == update;
        assert(all[x] == update);
    } else {
        assert(update_of(devices[k]) == Some(update));
        assert(all[before.len() as int] == update);
    }
}

/// A machine is a Framework where its maker says so, in whatever case.
pub proof fn a_framework_is_told_by_its_maker(vendor: Seq<char>, other: Seq<char>)
    ensures
        lower_of(vendor) == lower_of(other) ==> is_framework(vendor) == is_framework(other),
        lower_of(vendor) == "framework"@ ==> is_framework(vendor),
        lower_of(vendor).len() < 9 ==> !is_framework(vendor),
{
    reveal_strlit("framework");
    if lower_of(vendor) == "framework"@ {
        let s = lower_of(vendor);
        assert(s.subrange(0, 9) =~= "framework"@);
        assert(occurs_at(s, "framework"@, 0));
    }
}

/// What the firmware was asked is answered as it was: what could be read is taken, that there is nothing
/// to update is no failure, and anything else is.
pub proof fn an_answer_is_taken_where_it_can_be_read(
    r: Result<Firmware, String>,
    answer: Result<Value, String>,
    success: bool,
    detail: Seq<char>,
    now: i64,
)
    requires
        is_asked(r, answer, success, detail, now),
    ensures
        answer is Ok ==> r is Ok && r->Ok_0.available && !r->Ok_0.cached && r->Ok_0.checked_at == now
            && update_models(r->Ok_0.updates@) == updates_of((answer->Ok_0)@.list_at("Devices"@)),
        answer is Err && success ==> r is Err,
        answer is Err && !success && detail.len() == 0 ==> r is Ok && r->Ok_0.updates@.len() == 0,
        answer is Err && !success && has(lower_of(detail), "no updates"@) ==> r is Ok
            && r->Ok_0.updates@.len() == 0,
        answer is Err && !success && detail.len() > 0 && !(has(lower_of(detail), "no updates"@))
            ==> r is Err && (r->Err_0)@ == "fwupd could not be asked: "@ + detail,
{
    if r is Ok {
        assert(update_models(r->Ok_0.updates@).len() == r->Ok_0.updates@.len());
    }
}

} // verus!
