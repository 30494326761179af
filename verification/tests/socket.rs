use epochoxide::api::{ApiError, ErrorCode};
use epochoxide::client::{
    api_answer, api_request, collected, ends, part, query_request, reply, stream_query, subscribe, Part,
};
use epochoxide::json::{Number, Value};
use epochoxide::server::{
    activated, answered, failure, job, next_request, query_batch, query_done, subscribed, success,
    wants_event, Incoming, Job, Request,
};

fn convert(value: serde_json::Value) -> Value {
    match value {
        serde_json::Value::Null => Value::Null,
        serde_json::Value::Bool(flag) => Value::Bool(flag),
        serde_json::Value::Number(n) => Value::Number(match (n.as_u64(), n.as_i64()) {
            (Some(n), _) => Number::Unsigned(n),
            (None, Some(n)) => Number::Negative(n),
            _ => Number::Decimal(n.to_string()),
        }),
        serde_json::Value::String(s) => Value::Text(s),
        serde_json::Value::Array(items) => Value::List(items.into_iter().map(convert).collect()),
        serde_json::Value::Object(fields) => {
            Value::Object(fields.into_iter().map(|(k, v)| (k, convert(v))).collect())
        }
    }
}

fn json(raw: &str) -> Value {
    convert(serde_json::from_str(raw).unwrap())
}

fn typed(text: &str) -> Incoming {
    Ok(Request::Query {
        providers: None,
        query: text.into(),
        limit: None,
        exact: None,
        stream: None,
    })
}

fn text_of(line: &Incoming) -> Option<&str> {
    match line {
        Ok(Request::Query { query, .. }) => Some(query),
        _ => None,
    }
}

#[test]
fn a_burst_of_queries_is_one() {
    let mut waiting: Vec<Incoming> = vec![
        typed("f"),
        typed("fi"),
        typed("fir"),
        Ok(Request::Providers),
        typed("g"),
        Err("bad".into()),
        Ok(Request::Providers),
        Ok(Request::Providers),
    ];
    assert_eq!(text_of(&next_request(&mut waiting).unwrap()), Some("fir"));
    assert!(matches!(next_request(&mut waiting), Some(Ok(Request::Providers))));
    assert_eq!(text_of(&next_request(&mut waiting).unwrap()), Some("g"));
    assert!(matches!(next_request(&mut waiting), Some(Err(message)) if message == "bad"));
    assert!(matches!(next_request(&mut waiting), Some(Ok(Request::Providers))));
    assert_eq!(waiting.len(), 1);
    assert!(next_request(&mut waiting).is_some());
    assert!(next_request(&mut waiting).is_none());
}

#[test]
fn what_is_left_out_has_its_usual_value() {
    let Job::Query { providers, query, limit, exact, stream } = job(typed("x")) else {
        panic!("no query")
    };
    assert!(providers.is_empty() && query == "x" && limit == 20 && !exact && !stream);
    let Job::Query { limit, exact, stream, .. } = job(Ok(Request::Query {
        providers: None,
        query: "x".into(),
        limit: Some(3),
        exact: Some(true),
        stream: Some(true),
    })) else {
        panic!("no query")
    };
    assert!(limit == 3 && exact && stream);
    let Job::Activate { query, arguments, action, .. } = job(Ok(Request::Activate {
        provider: "p".into(),
        identifier: "i".into(),
        action: "open".into(),
        query: None,
        arguments: Some("a".into()),
    })) else {
        panic!("no activation")
    };
    assert!(query.is_empty() && arguments == "a" && action == "open");
    assert!(matches!(job(Err("no".into())), Job::Refuse(m) if m == "no"));
    assert!(matches!(job(Ok(Request::Menu { menu: "m".into() })), Job::Menu(m) if m == "m"));
    assert!(matches!(job(Ok(Request::Subscribe { providers: None })), Job::Subscribe(p) if p.is_empty()));
    assert!(matches!(
        job(Ok(Request::Api { method: "m".into(), params: None, version: Some(1) })),
        Job::Api { params: Value::Null, version: Some(1), .. }
    ));
}

#[test]
fn a_response_is_read_back() {
    let ok = success(json("[1]"));
    assert_eq!(ok.flag_at("ok"), Some(true));
    assert!(matches!(ok.get("error"), Some(Value::Null)));
    assert_eq!(reply(&ok).unwrap().as_array().map(|a| a.len()), Some(1));
    assert_eq!(reply(&failure("boom")).unwrap_err(), "boom");
    assert_eq!(
        reply(&json(r#"{ "ok": false }"#)).unwrap_err(),
        "daemon request failed"
    );
    assert_eq!(reply(&json(r#"{ "x": 1 }"#)).unwrap().u64_at("x"), Some(1));
    assert!(reply(&activated(&Ok(()))).is_ok());
    assert_eq!(reply(&activated(&Err("no".into()))).unwrap_err(), "no");
}

#[test]
fn batches_are_read_until_done() {
    let batch = reply(&query_batch("apps", json(r#"[{ "a": 1 }]"#))).unwrap();
    let Part::Batch(provider, items) = part(&batch) else {
        panic!("no batch")
    };
    assert_eq!(provider, "apps");
    assert_eq!(items.len(), 1);
    assert!(matches!(part(&reply(&query_done()).unwrap()), Part::Done));
    assert!(matches!(part(&json(r#"{ "type": "x" }"#)), Part::Other));
    assert!(matches!(part(&json("{}")), Part::Other));
    let request = stream_query(&vec!["apps".into()], "fi", 5, true);
    assert_eq!(request.text_at("type").as_deref(), Some("query"));
    assert_eq!(request.flag_at("stream"), Some(true));
    assert_eq!(request.u64_at("limit"), Some(5));
    let request = query_request(&vec![], "fi", 5, false);
    assert!(request.get("stream").is_none());
    assert_eq!(request.flag_at("exact"), Some(false));
}

#[test]
fn a_stream_is_collected_until_it_ends() {
    let batch = |name: &str, items: &str| {
        json(&format!(
            r#"{{ "ok": true, "data": {{ "type": "query_batch", "provider": "{name}", "items": {items} }} }}"#
        ))
    };
    let done = || json(r#"{ "ok": true, "data": { "type": "done" } }"#);
    let other = || json(r#"{ "ok": true, "data": { "type": "event" } }"#);
    let failed = || json(r#"{ "ok": false, "error": "no" }"#);
    let names = |responses: Vec<Value>| -> Vec<(String, usize)> {
        let batches = collected(&responses).unwrap();
        batches.into_iter().map(|(name, items)| (name, items.len())).collect()
    };
    let all = vec![batch("a", "[1,2]"), other(), batch("b", "[]"), done(), batch("c", "[]"), failed()];
    assert_eq!(names(all), vec![("a".to_string(), 2), ("b".to_string(), 0)]);
    assert_eq!(names(vec![batch("a", "[1]")]), vec![("a".to_string(), 1)]);
    assert!(names(vec![]).is_empty());
    assert_eq!(collected(&vec![batch("a", "[1]"), failed(), done()]).unwrap_err(), "no");
    assert!(ends(&done()) && ends(&failed()));
    assert!(!ends(&other()) && !ends(&batch("a", "[]")));
}

#[test]
fn only_events_of_wanted_providers_are_sent() {
    let events = vec![
        json(r#"{ "provider": "files" }"#),
        json(r#"{ "provider": "apps" }"#),
        json(r#"{ "x": 1 }"#),
    ];
    let wanted = vec!["apps".to_string()];
    let sent = epochoxide::server::subscribe(&events, &wanted);
    assert_eq!(sent.len(), 1);
    let event = sent[0].get_in("data", "event").expect("event");
    assert_eq!(event.text_at("provider").as_deref(), Some("apps"));
    assert_eq!(epochoxide::server::subscribe(&events, &vec![]).len(), 3);
    assert!(!wants_event(&events[2], &wanted));
    let first = subscribed(&wanted);
    assert_eq!(first.get_in("data", "type").and_then(|v| v.as_str()), Some("subscribed"));
    assert_eq!(subscribe(&wanted).text_at("type").as_deref(), Some("subscribe"));
}

#[test]
fn an_api_failure_carries_its_error() {
    let error = ApiError::new(ErrorCode::Unavailable, "why".into());
    let response = answered(Err(error));
    assert_eq!(response.text_at("error").as_deref(), Some("why"));
    assert_eq!(
        response.get_in("data", "code").and_then(|v| v.as_str()),
        Some("unavailable")
    );
    let (ok, data) = api_answer(Some(&response)).expect("answered");
    assert!(!ok);
    assert_eq!(data.text_at("message").as_deref(), Some("why"));
    assert!(api_answer(Some(&failure("unknown variant"))).is_none());
    assert!(api_answer(None).is_none());
    let (ok, data) = api_answer(Some(&answered(Ok(json("3"))))).unwrap();
    assert!(ok && data.as_u64() == Some(3));
    let request = api_request("a.b", json("{}"), Some(1));
    assert_eq!(request.text_at("method").as_deref(), Some("a.b"));
    assert_eq!(request.u64_at("version"), Some(1));
}
