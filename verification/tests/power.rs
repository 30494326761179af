use epochoxide::power::{available, manager, manager_arguments, profile, status, turbo, Knobs};

#[test]
fn performance_is_the_governor_that_will_not_clock_down() {
    assert_eq!(profile("performance", "performance"), "performance");
    assert_eq!(profile("performance", ""), "performance");
}

#[test]
fn powersave_is_decided_by_the_energy_preference() {
    assert_eq!(profile("powersave", "balance_performance"), "balanced");
    assert_eq!(profile("powersave", "default"), "balanced");
    assert_eq!(profile("powersave", "balance_power"), "power-saver");
    assert_eq!(profile("powersave", "power"), "power-saver");
    assert_eq!(profile("powersave", "performance"), "performance");
}

#[test]
fn a_governor_nobody_here_knows_is_left_unnamed() {
    assert_eq!(profile("userspace", ""), "");
    assert_eq!(profile("", ""), "");
    assert_eq!(profile("conservative", ""), "power-saver");
}

#[test]
fn schedutil_and_ondemand_are_balanced() {
    assert_eq!(profile("schedutil", ""), "balanced");
    assert_eq!(profile("ondemand", ""), "balanced");
}

#[test]
fn the_power_state_is_read_from_its_files() {
    assert_eq!(turbo("1", "1"), Some(false));
    assert_eq!(turbo("0", ""), Some(true));
    assert_eq!(turbo("", "1"), Some(true));
    assert_eq!(turbo("", "0"), Some(false));
    assert_eq!(turbo("", ""), None);
    assert_eq!(manager(b"inactive\nactive\nactive\n"), "power-profiles-daemon");
    assert_eq!(manager(b"inactive\ninactive\ninactive\nactive\n"), "");
    assert_eq!(manager(b""), "");
    assert_eq!(
        manager_arguments(),
        vec!["is-active", "auto-cpufreq", "power-profiles-daemon", "tuned"]
    );
    let knobs = Knobs {
        governor: "powersave\n".into(),
        governors: "performance powersave\n".into(),
        energy_preference: "power\n".into(),
        energy_preferences: String::new(),
        no_turbo: "0\n".into(),
        boost: String::new(),
        driver: "intel_pstate\n".into(),
        platform_profile: "\n".into(),
        platform_profiles: "low high\n".into(),
        managers: Some(b"active\n".to_vec()),
    };
    let power = status(Some(&knobs));
    assert_eq!(power.profile, "power-saver");
    assert_eq!(power.governors, vec!["performance", "powersave"]);
    assert_eq!(power.manager, "auto-cpufreq");
    assert_eq!(power.platform_profile, None);
    assert_eq!(power.platform_profiles, vec!["low", "high"]);
    assert_eq!(power.turbo, Some(true));
    assert!(power.available && !power.can_switch);
    let none = status(None);
    assert!(!none.available);
    assert_eq!(none.reason.as_deref(), Some("this machine exposes no cpufreq state"));
    assert!(available(true).is_ok() && available(false).is_err());
}
