use epochoxide::awake::{announce, available, status, Change, Inhibitor, StayAwake, WHAT};

#[test]
fn nothing_is_held_until_something_asks() {
    let idle = StayAwake::default();
    assert!(!idle.enabled);
    assert_eq!(idle.seconds, 0);
    assert_eq!(idle.since, 0);
}

#[test]
fn the_inhibitor_blocks_both_idling_and_sleeping() {
    assert!(WHAT.contains("idle"));
    assert!(WHAT.contains("sleep"));
}

#[test]
fn an_inhibitor_that_ended_is_given_up() {
    let mut held = Some(Inhibitor { reason: "why".into(), at: 5 });
    let on = status(&mut held, false, 3, true);
    assert!(on.enabled && on.available && on.unavailable_reason.is_none());
    assert_eq!((on.reason.as_str(), on.since, on.seconds), ("why", 5, 3));
    let off = status(&mut held, true, 3, false);
    assert!(held.is_none());
    assert!(!off.enabled && !off.available);
    assert_eq!((off.since, off.seconds), (0, 0));
    assert_eq!(
        off.unavailable_reason.as_deref(),
        Some("systemd-inhibit is not installed")
    );
}

#[test]
fn setting_is_holding_or_releasing() {
    let Ok(Change::Hold { arguments, reason }) = epochoxide::awake::set(None, Some(" big download "), false, true)
    else {
        panic!("not held")
    };
    assert_eq!(reason, "big download");
    assert_eq!(
        arguments,
        vec![
            "--what=idle:sleep",
            "--who=EpochShell",
            "--why=big download",
            "--mode=block",
            "sleep",
            "infinity",
        ]
    );
    let Ok(Change::Hold { reason, .. }) = epochoxide::awake::set(Some(true), Some("  "), false, true) else {
        panic!("not held")
    };
    assert_eq!(reason, "Stay awake");
    assert!(matches!(epochoxide::awake::set(None, None, true, true), Ok(Change::Release)));
    assert!(matches!(epochoxide::awake::set(Some(true), None, true, true), Ok(Change::Keep)));
    assert!(matches!(epochoxide::awake::set(Some(false), None, false, true), Ok(Change::Keep)));
    assert_eq!(
        epochoxide::awake::set(None, None, true, false).unwrap_err(),
        "systemd-inhibit is not installed"
    );
    assert!(available(true).is_ok() && available(false).is_err());
}

#[test]
fn holding_and_releasing_are_announced() {
    let mut held = Some(Inhibitor { reason: "why".into(), at: 5 });
    let on = announce(&status(&mut held, false, 3, true), true).unwrap();
    assert_eq!(on[1], "--icon=preferences-desktop-screensaver");
    assert_eq!(on[on.len() - 2], "Staying awake");
    assert_eq!(on[on.len() - 1], "Idle and sleep are held off · why");
    let off = announce(&StayAwake::default(), true).unwrap();
    assert_eq!(off[off.len() - 2], "Sleeping normally again");
    assert!(announce(&StayAwake::default(), false).is_err());
}
