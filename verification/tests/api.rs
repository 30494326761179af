use epochoxide::api::calls::{answer, Call, Given, Outcome};
use epochoxide::api::contract::groups;
use epochoxide::api::params::{
    capture_request, optional_directory, optional_path, param_bool, param_str, param_strings,
};
use epochoxide::api::{
    answers_anyway, availability, describe, dispatch, is_streaming, stream, ApiError, Availability,
    ErrorCode, Situation, VERSION, VERSION_MAJOR,
};
use epochoxide::capture::{Delay, Mode};
use epochoxide::json::{Number, Value};

fn convert(value: serde_json::Value) -> Value {
    match value {
        serde_json::Value::Null => Value::Null,
        serde_json::Value::Bool(flag) => Value::Bool(flag),
        serde_json::Value::Number(n) => Value::Number(match (n.as_u64(), n.as_i64()) {
            (Some(n), _) => Number::Unsigned(n),
            (None, Some(n)) => Number::Negative(n),
            _ => Number::Decimal(n.to_string()),
        }),
        serde_json::Value::String(s) => Value::Text(s),
        serde_json::Value::Array(items) => Value::List(items.into_iter().map(convert).collect()),
        serde_json::Value::Object(fields) => {
            Value::Object(fields.into_iter().map(|(k, v)| (k, convert(v))).collect())
        }
    }
}

fn json(raw: &str) -> Value {
    convert(serde_json::from_str(raw).unwrap())
}

/// A machine on which nothing can be used.
fn nothing() -> Situation {
    Situation {
        compositor: false,
        tailscale: false,
        nix: Err("nix is not installed".into()),
        system: Err("no cpufreq".into()),
        capture: Err("grim is not installed".into()),
        localsend: Err("port in use".into()),
    }
}

/// A machine on which everything can be used.
fn everything() -> Situation {
    Situation {
        compositor: true,
        tailscale: true,
        nix: Ok(()),
        system: Ok(()),
        capture: Ok(()),
        localsend: Ok(()),
    }
}

fn given() -> Given {
    Given {
        receiving: true,
        directory: true,
        delay: Ok(Delay { seconds: 0, nanos: 0 }),
        home: None,
    }
}

fn refused(method: &str, situation: &Situation) -> ApiError {
    dispatch(method, &Value::Null, None, situation, given()).expect_err("should refuse")
}

#[test]
fn describe_reports_every_group_with_a_status() {
    let described = describe(&nothing());
    assert_eq!(described.text_at("version").as_deref(), Some(VERSION));
    let listed = described.get("groups").and_then(|v| v.as_array()).expect("groups");
    assert_eq!(listed.len(), groups().len());
    for group in listed {
        let status = group.text_at("status").expect("status");
        assert!(
            ["available", "planned", "unavailable"].contains(&status.as_str()),
            "unexpected status {status}"
        );
    }
}

#[test]
fn declared_but_unimplemented_groups_are_refused_not_faked() {
    let err = refused("nix.flakeStatus", &nothing());
    assert_eq!(err.code, ErrorCode::Unavailable);
    assert_eq!(
        err.message,
        "the \"nix\" group is unavailable here: nix is not installed"
    );
    let err = refused("dev.projects", &everything());
    assert_eq!(err.code, ErrorCode::Unavailable);
    assert_eq!(
        err.message,
        "the \"dev\" group is planned here: not implemented in this build"
    );
}

#[test]
fn an_unknown_group_lists_the_real_ones() {
    let err = refused("bogus.thing", &nothing());
    assert_eq!(err.code, ErrorCode::UnknownGroup);
    let detail = err.detail.expect("detail");
    assert!(detail
        .get("groups")
        .and_then(|v| v.as_array())
        .expect("groups")
        .iter()
        .any(|group| group.as_str() == Some("compositor")));
    assert_eq!(err.message, "no API group \"bogus\"");
}

#[test]
fn a_method_name_without_a_group_is_rejected() {
    let err = refused("windows", &nothing());
    assert_eq!(err.code, ErrorCode::UnknownMethod);
    assert_eq!(
        err.message,
        "\"windows\" is not a method name; expected \"group.method\""
    );
}

#[test]
fn a_foreign_major_version_is_refused() {
    let err = dispatch(
        "api.describe",
        &Value::Null,
        Some(VERSION_MAJOR + 1),
        &nothing(),
        given(),
    )
    .expect_err("should refuse");
    assert_eq!(err.code, ErrorCode::VersionMismatch);
    assert_eq!(err.message, "this build speaks API v1, caller asked for v2");
}

#[test]
fn describe_needs_no_version_and_no_compositor() {
    let call = dispatch(
        "api.describe",
        &Value::Null,
        Some(VERSION_MAJOR),
        &nothing(),
        given(),
    )
    .expect("ok");
    let Call::Answer(described) = call else {
        panic!("not answered")
    };
    assert!(described.get("groups").and_then(|v| v.as_array()).is_some());
}

#[test]
fn a_diagnostic_answers_even_when_its_group_cannot() {
    for method in [
        "capture.status",
        "capture.recording",
        "nix.status",
        "system.stayAwake",
        "system.hardware",
    ] {
        let (group_name, call) = method.split_once('.').expect("group.method");
        let all = groups();
        let found = all.iter().find(|g| g.name == group_name).expect("a real group");
        assert!(
            found.methods.iter().any(|m| m.name == call),
            "{method} is not in the contract"
        );
        assert!(answers_anyway(method));
        assert!(dispatch(method, &Value::Null, None, &nothing(), given()).is_ok());
    }
    assert!(!answers_anyway("capture.screenshot"));
}

#[test]
fn an_unknown_screenshot_mode_is_a_parameter_error() {
    let err = dispatch(
        "capture.screenshot",
        &json(r#"{ "mode": "panorama" }"#),
        None,
        &everything(),
        given(),
    )
    .expect_err("should refuse");
    assert_eq!(err.code, ErrorCode::InvalidParams);
}

#[test]
fn missing_params_are_named() {
    let err = dispatch("compositor.focusWindow", &json("{}"), None, &everything(), given())
        .expect_err("should refuse");
    assert_eq!(err.code, ErrorCode::InvalidParams);
    assert!(err.message.contains("id"));
    assert_eq!(err.message, "missing required parameter \"id\"");
}

#[test]
fn every_listed_method_leads_somewhere() {
    for group in groups() {
        for method in &group.methods {
            let name = format!("{}.{}", group.name, method.name);
            let params = json(
                r#"{ "id": "x", "directory": "/d", "peer": "p", "device": "d", "files": ["/a"], "session": "s" }"#,
            );
            let outcome = dispatch(&name, &params, Some(1), &everything(), given());
            if method.streaming {
                assert_eq!(outcome.unwrap_err().code, ErrorCode::InvalidParams);
                assert!(is_streaming(&name) && stream(&name).is_ok());
            } else {
                assert!(outcome.is_ok(), "{name}");
                assert!(!is_streaming(&name) && stream(&name).is_err());
            }
        }
    }
    assert!(!is_streaming("subscribe") && !is_streaming("nope.subscribe"));
    assert_eq!(
        stream("nix.check").unwrap_err().message,
        "\"nix.check\" is not a streaming method"
    );
}

#[test]
fn an_unknown_method_lists_the_real_ones() {
    let err = refused("nix.flakeStatus", &everything());
    assert_eq!(err.code, ErrorCode::UnknownMethod);
    assert_eq!(err.message, "no method \"nix.flakeStatus\"");
    let methods = err.detail.expect("detail");
    let names: Vec<&str> = methods
        .get("methods")
        .and_then(|v| v.as_array())
        .expect("methods")
        .iter()
        .filter_map(|v| v.as_str())
        .collect();
    assert_eq!(
        names,
        vec!["nix.status", "nix.check", "nix.update", "nix.rebuild", "nix.hosts"]
    );
}

#[test]
fn parameters_are_read_as_they_are_meant() {
    let params = json(r#"{ "a": "x", "b": true, "c": ["p", "q"], "d": ["p", 1], "e": "" }"#);
    assert_eq!(param_str(&params, "a").unwrap(), "x");
    assert!(param_str(&params, "e").is_err() && param_str(&params, "b").is_err());
    assert_eq!(param_bool(&params, "b"), Some(true));
    assert_eq!(param_bool(&params, "a"), None);
    assert_eq!(param_strings(&params, "c").unwrap(), vec!["p", "q"]);
    assert_eq!(
        param_strings(&params, "d").unwrap_err().message,
        "\"d\" must contain only strings"
    );
    assert_eq!(
        param_strings(&params, "a").unwrap_err().message,
        "missing required parameter \"a\" (an array of strings)"
    );
    assert_eq!(optional_path(&json(r#"{ "d": "/p" }"#), "d", None).as_deref(), Some("/p"));
    assert_eq!(optional_path(&params, "e", None), None);
    assert_eq!(
        optional_directory(&json(r#"{ "d": "/p" }"#), "d", None, false).unwrap_err().message,
        "/p is not a directory"
    );
    assert_eq!(
        optional_directory(&json(r#"{ "d": "/p" }"#), "d", None, true).unwrap().as_deref(),
        Some("/p")
    );
    assert_eq!(optional_directory(&params, "e", None, false).unwrap(), None);
}

#[test]
fn a_tilde_in_a_directory_is_expanded() {
    let params = json(r#"{ "d": "~/shots", "directory": "~" }"#);
    let home = Some("/home/me");
    assert_eq!(optional_path(&params, "d", home).as_deref(), Some("/home/me/shots"));
    assert_eq!(optional_path(&params, "d", None).as_deref(), Some("~/shots"));
    assert_eq!(
        optional_directory(&params, "d", home, true).unwrap().as_deref(),
        Some("/home/me/shots")
    );
    assert_eq!(
        optional_directory(&params, "d", home, false).unwrap_err().message,
        "/home/me/shots is not a directory"
    );
    let delay = Delay { seconds: 0, nanos: 0 };
    let request = capture_request(&params, Ok(delay), home).unwrap();
    assert_eq!(request.directory.as_deref(), Some("/home/me"));
}

#[test]
fn a_capture_is_read_from_its_parameters() {
    let delay = Delay { seconds: 2, nanos: 500_000_000 };
    let request = capture_request(
        &json(r#"{ "mode": "Screen", "output": "DP-3", "cursor": true, "save": false, "language": "eng" }"#),
        Ok(delay),
        None,
    )
    .unwrap();
    assert_eq!(request.mode, Mode::Fullscreen);
    assert_eq!(request.output.as_deref(), Some("DP-3"));
    assert_eq!(request.language.as_deref(), Some("eng"));
    assert!(request.cursor && !request.select);
    assert_eq!((request.save, request.copy, request.notify), (Some(false), None, None));
    assert_eq!(request.delay, delay);
    assert_eq!(capture_request(&json("{}"), Ok(delay), None).unwrap().mode, Mode::Region);
    let err = capture_request(&json("{}"), Err("no".into()), None).unwrap_err();
    assert_eq!((err.code, err.message.as_str()), (ErrorCode::InvalidParams, "no"));
    let err = capture_request(&json(r#"{ "mode": "x" }"#), Err("no".into()), None).unwrap_err();
    assert_eq!(
        err.message,
        "unknown screenshot mode \"x\" (region, window, fullscreen, all)"
    );
}

#[test]
fn transfers_need_a_receiver() {
    let closed = || Given { receiving: false, ..given() };
    let code = |method: &str, params: &str, given: Given| {
        dispatch(method, &json(params), None, &everything(), given).unwrap_err().code
    };
    assert_eq!(code("localsend.pending", "{}", closed()), ErrorCode::Unavailable);
    assert_eq!(code("localsend.received", "{}", closed()), ErrorCode::Unavailable);
    assert_eq!(code("localsend.decline", "{}", closed()), ErrorCode::Unavailable);
    assert_eq!(code("localsend.decline", "{}", given()), ErrorCode::InvalidParams);
    assert_eq!(code("localsend.accept", "{}", closed()), ErrorCode::InvalidParams);
    assert_eq!(
        code("localsend.accept", r#"{ "session": "s" }"#, closed()),
        ErrorCode::Unavailable
    );
    let missing = Given { directory: false, ..closed() };
    assert_eq!(
        code("localsend.accept", r#"{ "session": "s", "directory": "/d" }"#, missing),
        ErrorCode::InvalidParams
    );
}

#[test]
fn what_a_group_needs_is_said() {
    let at = |group: &str, situation: &Situation| {
        let ready = availability(group, situation);
        (ready.status(), ready.reason().map(str::to_string), ready.callable())
    };
    assert_eq!(
        at("compositor", &nothing()),
        ("unavailable", Some("no supported compositor is responding".into()), false)
    );
    assert_eq!(
        at("tailscale", &nothing()),
        ("unavailable", Some("the tailscale CLI is not installed".into()), false)
    );
    assert_eq!(at("system", &everything()), ("available", None, true));
    assert!(matches!(availability("dev", &everything()), Availability::Planned));
}

#[test]
fn errors_carry_their_codes() {
    let codes: Vec<&str> = [
        ErrorCode::UnknownGroup,
        ErrorCode::UnknownMethod,
        ErrorCode::Unavailable,
        ErrorCode::InvalidParams,
        ErrorCode::BackendError,
        ErrorCode::VersionMismatch,
    ]
    .iter()
    .map(|code| code.as_str())
    .collect();
    assert_eq!(
        codes,
        vec![
            "unknown_group",
            "unknown_method",
            "unavailable",
            "invalid_params",
            "backend_error",
            "version_mismatch"
        ]
    );
    let value = ApiError::new(ErrorCode::BackendError, "boom".into()).to_value();
    assert_eq!(value.text_at("code").as_deref(), Some("backend_error"));
    assert_eq!(value.text_at("message").as_deref(), Some("boom"));
    assert!(matches!(value.get("detail"), Some(Value::Null)));
}

#[test]
fn short_answers_have_their_shape() {
    let sent = answer(&Outcome::Sent { files: 2, peer: "p".into() });
    assert_eq!(sent.u64_at("sent"), Some(2));
    assert_eq!(sent.text_at("peer").as_deref(), Some("p"));
    assert_eq!(answer(&Outcome::Focused).flag_at("focused"), Some(true));
    assert_eq!(answer(&Outcome::Running(false)).flag_at("running"), Some(false));
    assert_eq!(answer(&Outcome::Receiving(Some(5))).u64_at("port"), Some(5));
    assert!(matches!(answer(&Outcome::Receiving(None)).get("port"), Some(Value::Null)));
    assert_eq!(answer(&Outcome::NoReceiver).flag_at("receiving"), Some(false));
    let receiver = answer(&Outcome::Receiver {
        alias: "a".into(),
        fingerprint: "f".into(),
        port: 1,
        download_dir: "/d".into(),
        pending: 3,
    });
    assert_eq!(receiver.u64_at("pending"), Some(3));
    assert_eq!(receiver.text_at("download_dir").as_deref(), Some("/d"));
}
