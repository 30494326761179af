use epochoxide::json::{Number, Value};
use epochoxide::tailscale::{
    available, machine, machines, send, send_failure, status, status_failure,
};

fn convert(value: serde_json::Value) -> Value {
    match value {
        serde_json::Value::Null => Value::Null,
        serde_json::Value::Bool(flag) => Value::Bool(flag),
        serde_json::Value::Number(n) => Value::Number(match (n.as_u64(), n.as_i64()) {
            (Some(n), _) => Number::Unsigned(n),
            (None, Some(n)) => Number::Negative(n),
            _ => Number::Decimal(n.to_string()),
        }),
        serde_json::Value::String(s) => Value::Text(s),
        serde_json::Value::Array(items) => Value::List(items.into_iter().map(convert).collect()),
        serde_json::Value::Object(fields) => {
            Value::Object(fields.into_iter().map(|(k, v)| (k, convert(v))).collect())
        }
    }
}

fn json(raw: &str) -> Value {
    convert(serde_json::from_str(raw).unwrap())
}

fn answer() -> Value {
    json(
        r#"{
        "BackendState": "Running",
        "Version": "1.2",
        "MagicDNSSuffix": "tail.ts.net",
        "CurrentTailnet": { "Name": "me@example.com" },
        "Health": ["one", 2, "two"],
        "Self": { "ID": "s", "HostName": "thor", "DNSName": "thor.tail.ts.net.", "Online": false, "TailscaleIPs": ["100.1"] },
        "Peer": {
            "a": { "ID": "1", "HostName": "odin", "DNSName": "odin.tail.ts.net.", "OS": "linux", "Online": true, "Addrs": ["100.2", 7], "ExitNode": true },
            "b": { "ID": "2", "HostName": "loki", "DNSName": "loki.tail.ts.net", "TailscaleIPs": ["100.3"], "Addrs": ["x"], "ExitNodeOption": true },
            "c": { "ID": "3", "HostName": "loki", "ExitNode": "yes" }
        }
    }"#,
    )
}

#[test]
fn the_tailnet_is_reported() {
    let status = status(&answer());
    assert!(status.running);
    assert_eq!(status.state, "Running");
    assert_eq!(status.version, "1.2");
    assert_eq!(status.tailnet, "me@example.com");
    assert_eq!(status.magic_dns_suffix, "tail.ts.net");
    assert_eq!(status.exit_node.as_deref(), Some("odin"));
    assert_eq!(status.health, vec!["one", "two"]);
    let own = status.self_machine.expect("self");
    assert!(own.online && own.is_self, "the backend decides for this device");
    assert_eq!(own.dns_name, "thor.tail.ts.net");
    let empty = epochoxide::tailscale::status(&json("{}"));
    assert!(!empty.running && empty.self_machine.is_none() && empty.exit_node.is_none());
    assert!(available(true) && !available(false));
}

#[test]
fn this_device_comes_first_and_peers_by_name() {
    let all = machines(&answer());
    let ids: Vec<&str> = all.iter().map(|m| m.id.as_str()).collect();
    assert_eq!(ids, vec!["s", "2", "3", "1"]);
    assert_eq!(all[1].ips, vec!["100.3"]);
    assert_eq!(all[3].ips, vec!["100.2"]);
    assert!(all[3].online && !all[1].online);
    assert!(all[3].exit_node && !all[2].exit_node && all[1].exit_node_option);
    assert!(machines(&json("{}")).is_empty());
    assert!(!machine(&json(r#"{"Online": true}"#), true, false).online);
}

#[test]
fn files_go_to_a_peer_by_either_name() {
    let there = vec!["/a".to_string(), "/b".to_string()];
    let transfer = send("LOKI", &there, Ok(machines(&answer())), &there).unwrap();
    assert_eq!(transfer.arguments, vec!["file", "cp", "/a", "/b", "loki.tail.ts.net:"]);
    assert_eq!(transfer.name, "loki");
    let transfer =
        send("odin.tail.ts.net", &vec!["/a".into()], Ok(machines(&answer())), &there).unwrap();
    assert_eq!(transfer.name, "odin");
    assert_eq!(
        send("thor", &there, Ok(machines(&answer())), &there).unwrap_err(),
        "no tailnet peer named \"thor\" (known: loki, loki, odin)"
    );
    assert_eq!(
        send("odin", &vec!["/a".into(), "/c".into()], Ok(machines(&answer())), &there).unwrap_err(),
        "no such file: /c"
    );
    assert_eq!(
        send("odin", &vec![], Err("down".into()), &there).unwrap_err(),
        "no files given"
    );
    assert_eq!(send("odin", &there, Err("down".into()), &there).unwrap_err(), "down");
    assert_eq!(status_failure(b"\n"), "tailscale status failed");
    assert_eq!(status_failure(b"no\n"), "no");
    assert_eq!(send_failure(b"", "odin"), "sending to odin failed");
    assert_eq!(send_failure(b"x", "odin"), "x");
}
