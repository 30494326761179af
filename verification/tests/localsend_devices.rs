use epochoxide::json::{Number, Value};
use epochoxide::localsend::{
    add_device, alias, announcement, find, devices, own_fingerprint, own_identity,
    parse_announcement, prepare_files, prepare_request, sent, settings, uploads, Device, FileKind,
    PORT,
};

fn convert(value: serde_json::Value) -> Value {
    match value {
        serde_json::Value::Null => Value::Null,
        serde_json::Value::Bool(flag) => Value::Bool(flag),
        serde_json::Value::Number(n) => Value::Number(match (n.as_u64(), n.as_i64()) {
            (Some(n), _) => Number::Unsigned(n),
            (None, Some(n)) => Number::Negative(n),
            _ => Number::Decimal(n.to_string()),
        }),
        serde_json::Value::String(s) => Value::Text(s),
        serde_json::Value::Array(items) => Value::List(items.into_iter().map(convert).collect()),
        serde_json::Value::Object(fields) => {
            Value::Object(fields.into_iter().map(|(k, v)| (k, convert(v))).collect())
        }
    }
}

fn read(raw: &[u8]) -> Option<Value> {
    serde_json::from_slice(raw).ok().map(convert)
}

fn announced(raw: &[u8]) -> Option<Device> {
    parse_announcement(read(raw).as_ref(), "192.168.1.42")
}

#[test]
fn an_announcement_becomes_a_device() {
    let payload = br#"{"alias":"Phone","fingerprint":"ab12","deviceModel":"Pixel",
            "deviceType":"mobile","port":53318,"protocol":"https","download":true}"#;
    let device = announced(payload).expect("parsed");
    assert_eq!(device.alias, "Phone");
    assert_eq!(device.port, 53318);
    assert_eq!(device.protocol, "https");
    assert!(device.download);
    assert_eq!(device.ip, "192.168.1.42");
    let endpoint = device.endpoint();
    assert!(endpoint.https);
    assert_eq!(endpoint.host, "192.168.1.42");
}

#[test]
fn a_device_without_a_fingerprint_is_ignored() {
    assert!(announced(br#"{"alias":"Phone"}"#).is_none());
    assert!(announced(br#"{"alias":"P","fingerprint":""}"#).is_none());
}

#[test]
fn a_non_announcement_datagram_is_ignored() {
    assert!(announced(b"not json at all").is_none());
}

#[test]
fn defaults_fill_in_for_a_terse_announcement() {
    let device = announced(br#"{"fingerprint":"ab12"}"#).expect("parsed");
    assert_eq!(device.port, PORT);
    assert_eq!(device.protocol, "https");
    assert_eq!(device.alias, "192.168.1.42");
}

#[test]
fn a_port_beyond_sixteen_bits_is_the_default() {
    let device = announced(br#"{"fingerprint":"ab12","port":70000}"#).expect("parsed");
    assert_eq!(device.port, PORT);
}

#[test]
fn a_device_can_be_found_by_alias_or_fingerprint_in_any_case() {
    let device = announced(br#"{"alias":"My Phone","fingerprint":"AB12"}"#).unwrap();
    let devices = vec![device];
    assert!(find(&devices, "my phone").is_ok());
    assert!(find(&devices, "ab12").is_ok());
    assert!(find(&devices, "laptop").is_err());
}

#[test]
fn an_unknown_device_names_the_ones_that_answered() {
    let device = announced(br#"{"alias":"Phone","fingerprint":"ab12"}"#).unwrap();
    let err = find(&vec![device], "laptop").unwrap_err();
    assert!(err.contains("Phone"), "{err}");
    assert_eq!(err, "no LocalSend device named \"laptop\" (found: Phone)");
    assert_eq!(
        find(&vec![], "laptop").unwrap_err(),
        "no LocalSend devices answered; is the app open on the other device?"
    );
}

#[test]
fn a_name_beyond_ascii_is_found_in_any_case() {
    let device = announced("{\"alias\":\"ÉTÉ\",\"fingerprint\":\"ab12\"}".as_bytes()).unwrap();
    assert!(find(&vec![device], "été").is_ok());
}

#[test]
fn our_own_fingerprint_is_stable_between_calls() {
    assert_eq!(own_fingerprint(None, "host"), own_fingerprint(None, "host"));
    assert_eq!(own_fingerprint(None, "host").len(), 64);
    assert_ne!(own_fingerprint(None, "host"), own_fingerprint(None, "other"));
    assert_eq!(own_fingerprint(Some("AB"), "host"), "AB");
}

#[test]
fn https_is_claimed_only_while_receiving() {
    let idle = own_identity(None, "host");
    assert_eq!(idle.text_or_empty("protocol"), "http");
    assert_eq!(idle.u64_at("port"), Some(53317));
    let busy = own_identity(Some(("Desk", "AB", 4000)), "host");
    assert_eq!(busy.text_or_empty("protocol"), "https");
    assert_eq!(busy.text_or_empty("alias"), "Desk");
    assert_eq!(busy.u64_at("port"), Some(4000));
    assert_eq!(announcement(&busy, true).flag_at("announce"), Some(true));
    assert_eq!(announcement(&busy, true).text_or_empty("version"), "2.0");
}

#[test]
fn the_host_name_is_the_alias_unless_one_is_configured() {
    assert_eq!(alias(Some(" desk\n")), "desk");
    assert_eq!(alias(Some("\n")), "Epoch");
    assert_eq!(alias(None), "Epoch");
    assert_eq!(settings("Mine", Some("desk"), "/d", None).0, "Mine");
    assert_eq!(settings("", Some("desk"), "/d", None).0, "desk");
    assert_eq!(settings("", None, "~/Downloads", Some("/home/me")).1, "/home/me/Downloads");
    assert_eq!(settings("", None, "~/Downloads", None).1, "~/Downloads");
}

fn device(alias: &str, fingerprint: &str) -> Device {
    announced(format!("{{\"alias\":\"{alias}\",\"fingerprint\":\"{fingerprint}\"}}").as_bytes())
        .unwrap()
}

#[test]
fn devices_are_listed_once_by_name_and_without_ourselves() {
    let answered = vec![
        device("zebra", "1"),
        device("Apple", "2"),
        device("zebra", "1"),
        device("me", "own"),
    ];
    let seen = vec![device("apple again", "2"), device("banana", "3")];
    let all = devices("own", answered, seen);
    let names: Vec<&str> = all.iter().map(|d| d.alias.as_str()).collect();
    assert_eq!(names, vec!["Apple", "banana", "zebra"]);
    let mut found = vec![device("a", "1")];
    add_device(&mut found, device("b", "1"));
    assert_eq!(found.len(), 1);
}

#[test]
fn files_are_prepared_or_the_first_problem_is_told() {
    let files = vec!["/tmp/a.txt".to_string(), "/tmp/b".to_string()];
    let offers = prepare_files(&files, &vec![FileKind::File(3), FileKind::File(4)]).unwrap();
    assert_eq!(offers[0].name, "a.txt");
    assert_eq!(offers[1].size, 4);
    assert_eq!(prepare_files(&vec![], &vec![]).unwrap_err(), "no files given");
    assert_eq!(
        prepare_files(&files, &vec![FileKind::NotAFile, FileKind::File(4)]).unwrap_err(),
        "/tmp/a.txt is not a file"
    );
    assert_eq!(
        prepare_files(&files, &vec![FileKind::File(1), FileKind::Unreadable("gone".to_string())])
            .unwrap_err(),
        "reading /tmp/b: gone"
    );
    assert_eq!(
        prepare_files(&vec!["/".to_string()], &vec![FileKind::File(1)]).unwrap_err(),
        "/ has no file name"
    );
    let request = prepare_request(Value::Null, &offers);
    let entry = request.get("files").unwrap().get("1").unwrap();
    assert_eq!(entry.text_or_empty("fileName"), "b");
    assert_eq!(entry.text_or_empty("fileType"), "application/octet-stream");
    assert_eq!(entry.u64_at("size"), Some(4));
}

#[test]
fn only_the_files_with_a_token_are_uploaded() {
    let files = vec!["/tmp/a.txt".to_string(), "/tmp/b".to_string()];
    let offers = prepare_files(&files, &vec![FileKind::File(3), FileKind::File(4)]).unwrap();
    let answer = read(br#"{"sessionId":"s","files":{"1":"t"}}"#).unwrap();
    let list = uploads(&offers, &answer, "Phone").unwrap();
    assert_eq!(list.len(), 1);
    assert_eq!(list[0].name, "b");
    assert_eq!(
        list[0].target,
        "/api/localsend/v2/upload?sessionId=s&fileId=1&token=t"
    );
    assert_eq!(
        uploads(&offers, &read(b"{}").unwrap(), "Phone").unwrap_err(),
        "Phone did not open a transfer session"
    );
    assert_eq!(
        uploads(&offers, &read(br#"{"sessionId":"s"}"#).unwrap(), "Phone").unwrap_err(),
        "Phone returned no upload tokens"
    );
    assert_eq!(sent("Phone", vec![]).unwrap_err(), "Phone declined every file");
    assert_eq!(sent("Phone", vec!["b".to_string()]).unwrap().files, vec!["b"]);
}
