use epochoxide::hardware::{
    asked, battery, firmware, firmware_available, first_battery, framework, health, status, Dmi,
    Firmware, Readings, Supply,
};
use epochoxide::json::{Number, Value};

fn convert(value: serde_json::Value) -> Value {
    match value {
        serde_json::Value::Null => Value::Null,
        serde_json::Value::Bool(flag) => Value::Bool(flag),
        serde_json::Value::Number(n) => Value::Number(match (n.as_u64(), n.as_i64()) {
            (Some(n), _) => Number::Unsigned(n),
            (None, Some(n)) => Number::Negative(n),
            _ => Number::Decimal(n.to_string()),
        }),
        serde_json::Value::String(s) => Value::Text(s),
        serde_json::Value::Array(items) => Value::List(items.into_iter().map(convert).collect()),
        serde_json::Value::Object(fields) => {
            Value::Object(fields.into_iter().map(|(k, v)| (k, convert(v))).collect())
        }
    }
}

fn json(raw: &str) -> Value {
    convert(serde_json::from_str(raw).unwrap())
}

#[test]
fn health_is_full_charge_against_what_it_shipped_with() {
    assert_eq!(health(Some(3_695_000), Some(3_915_000)), Some(94));
    assert_eq!(health(Some(3_915_000), Some(3_915_000)), Some(100));
}

#[test]
fn a_battery_reporting_more_than_its_design_is_not_over_a_hundred() {
    assert_eq!(health(Some(4_100_000), Some(3_915_000)), Some(100));
}

#[test]
fn health_needs_both_numbers() {
    assert_eq!(health(None, Some(3_915_000)), None);
    assert_eq!(health(Some(3_695_000), None), None);
    assert_eq!(health(Some(3_695_000), Some(0)), None);
    assert_eq!(health(Some(1), Some(200)), Some(1));
    assert_eq!(health(Some(u64::MAX), Some(1)), Some(100));
}

#[test]
fn framework_is_recognised_from_the_vendor_string() {
    assert!(framework("Framework"));
    assert!(!framework("LENOVO"));
}

#[test]
fn the_machine_is_named() {
    let dmi = Dmi {
        vendor: "Framework\n".into(),
        product: "Laptop 13\n".into(),
        family: "".into(),
        board: "b".into(),
        bios_version: "3.1".into(),
    };
    let machine = status(&dmi, None);
    assert_eq!(machine.vendor, "Framework");
    assert_eq!(machine.product, "Laptop 13");
    assert!(machine.framework && machine.battery.is_none());
}

fn supply(name: &str, kind: &str) -> Supply {
    Supply { name: name.into(), kind: kind.into() }
}

#[test]
fn the_first_battery_by_name_is_reported() {
    let all = vec![supply("BAT1", "Battery\n"), supply("AC", "Mains\n"), supply("BAT0", "Battery\n")];
    assert_eq!(first_battery(&all), Some(2));
    assert_eq!(first_battery(&vec![supply("AC", "Mains")]), None);
}

fn readings() -> Readings {
    Readings {
        manufacturer: "ACME\n".into(),
        model_name: "M\n".into(),
        cycle_count: "12\n".into(),
        charge_full: "3695000\n".into(),
        charge_full_design: "3915000\n".into(),
        energy_full: "1\n".into(),
        energy_full_design: "2\n".into(),
        capacity: "80\n".into(),
        status: "Charging\n".into(),
        charge_control_start_threshold: "".into(),
        charge_control_end_threshold: "4294967297".into(),
    }
}

#[test]
fn a_battery_is_read_in_its_own_unit() {
    let charge = battery("BAT0", &readings());
    assert_eq!(charge.health, Some(94));
    assert_eq!(charge.unit, "µAh");
    assert_eq!((charge.full, charge.design_full), (Some(3_695_000), Some(3_915_000)));
    assert_eq!((charge.cycle_count, charge.capacity), (Some(12), Some(80)));
    assert_eq!(charge.charge_start_threshold, None);
    assert_eq!(charge.charge_end_threshold, Some(1));
    assert_eq!(charge.status, "Charging");
    let mut raw = readings();
    raw.charge_full = "x".into();
    let energy = battery("BAT0", &raw);
    assert_eq!(energy.unit, "µWh");
    assert_eq!((energy.full, energy.design_full, energy.health), (Some(1), Some(2), Some(50)));
}

#[test]
fn firmware_answers_are_reused_for_a_while() {
    let none = firmware(true, false, None).unwrap();
    assert!(!none.available);
    assert_eq!(none.reason.as_deref(), Some("fwupd is not installed"));
    assert!(firmware(false, true, None).is_none());
    let answer = asked(
        Ok(json(
            r#"{ "Devices": [
                { "Name": "UEFI", "Version": "1", "Releases": [{ "Version": "2" }, { "Version": "0" }] },
                { "Name": "SSD", "Version": "1", "Releases": [] },
                { "Name": "USB", "Version": "1" }
            ] }"#,
        )),
        true,
        b"",
        9,
    )
    .unwrap();
    let names: Vec<(&str, &str, &str)> = answer
        .updates
        .iter()
        .map(|u| (u.name.as_str(), u.current.as_str(), u.available.as_str()))
        .collect();
    assert_eq!(names, vec![("UEFI", "1", "2")]);
    assert!(answer.available && !answer.cached && answer.checked_at == 9);
    let again: Firmware = firmware(false, true, Some((&answer, 599))).unwrap();
    assert!(again.cached && again.updates.len() == 1 && again.checked_at == 9);
    assert!(firmware(false, true, Some((&answer, 600))).is_none());
    assert!(firmware(true, true, Some((&answer, 0))).is_none());
    assert!(firmware_available(true).is_ok() && firmware_available(false).is_err());
}

#[test]
fn nothing_to_update_is_not_a_failure() {
    assert!(asked(Err("eof".into()), false, b"No updates available\n", 1).unwrap().updates.is_empty());
    assert!(asked(Err("eof".into()), false, b"", 1).unwrap().available);
    assert_eq!(
        asked(Err("eof".into()), false, b"broken\n", 1).unwrap_err(),
        "fwupd could not be asked: broken"
    );
    assert_eq!(
        asked(Err("eof".into()), true, b"", 1).unwrap_err(),
        "fwupd answered with something unreadable: eof"
    );
}
