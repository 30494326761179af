use epochoxide::night::{
    announce, available, set as set_night, status, tool, validate, Change, Held, NightLight, Warmer,
};

#[test]
fn a_temperature_outside_what_a_screen_does_is_refused() {
    assert!(validate(400).is_err());
    assert!(validate(0).is_err());
    assert!(validate(50000).is_err());
    assert_eq!(validate(4000).unwrap(), 4000);
    assert_eq!(validate(1000).unwrap(), 1000);
    assert_eq!(validate(20000).unwrap(), 20000);
    assert_eq!(
        validate(400).unwrap_err(),
        "400K is not a screen temperature (1000-20000)"
    );
}

#[test]
fn each_tool_is_told_the_temperature() {
    for tool in [Warmer::Hyprsunset, Warmer::Gammastep, Warmer::Wlsunset] {
        assert!(
            tool.arguments(4000).iter().any(|argument| argument == "4000"),
            "{} is never given the temperature",
            tool.name()
        );
    }
    assert_eq!(Warmer::Wlsunset.arguments(4000), vec!["-t", "4000", "-T", "4000"]);
}

#[test]
fn nothing_is_warming_the_screen_until_something_asks() {
    let idle = NightLight::default();
    assert!(!idle.enabled);
    assert_eq!(idle.seconds, 0);
    assert!(idle.tool.is_empty());
}

#[test]
fn the_first_tool_installed_is_used() {
    let both = vec!["wlsunset".to_string(), "gammastep".to_string()];
    assert_eq!(tool(&both), Some(Warmer::Gammastep));
    assert!(available(&both).is_ok());
    assert_eq!(
        available(&vec![]).unwrap_err(),
        "none of hyprsunset, gammastep, wlsunset is installed"
    );
    assert_eq!(tool(&vec!["hyprsunset".to_string()]), Some(Warmer::Hyprsunset));
}

#[test]
fn another_temperature_is_a_new_start() {
    let installed = vec!["hyprsunset".to_string()];
    let mut held = None;
    let off = status(&mut held, false, 0, 4000, &installed);
    assert_eq!((off.enabled, off.temperature, off.daylight), (false, 4000, 6500));
    let Ok(Change::On { tool, arguments, temperature }) = set_night(None, None, 4000, None, &installed)
    else {
        panic!("not on")
    };
    assert_eq!((tool, temperature), (Warmer::Hyprsunset, 4000));
    assert_eq!(arguments, vec!["-t", "4000"]);
    held = Some(Held { tool, temperature, at: 9 });
    let on = status(&mut held, false, 2, 5000, &installed);
    assert_eq!((on.enabled, on.temperature, on.since, on.seconds), (true, 5000, 9, 2));
    assert_eq!(on.tool, "hyprsunset");
    assert_eq!(held.unwrap().temperature, 4000);
    assert!(matches!(set_night(Some(true), Some(4000), 5000, held, &installed), Ok(Change::Keep)));
    assert!(matches!(set_night(Some(true), None, 5000, held, &installed), Ok(Change::On { .. })));
    assert!(matches!(set_night(None, None, 5000, held, &installed), Ok(Change::Off)));
    assert!(matches!(set_night(Some(false), None, 5000, None, &installed), Ok(Change::Off)));
    assert!(set_night(Some(false), Some(1), 5000, held, &installed).is_err());
    assert!(set_night(Some(false), None, 5000, held, &vec![]).is_err());
    let ended = status(&mut held, true, 2, 5000, &installed);
    assert!(!ended.enabled && held.is_none());
    let said = announce(true, 4000, true).unwrap();
    assert_eq!(said[said.len() - 1], "Screen warmed to 4000K");
    let said = announce(false, 4000, true).unwrap();
    assert_eq!(said[said.len() - 1], "Screen back to normal");
}
