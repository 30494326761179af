use epochoxide::json::{Number, Value};
use epochoxide::localsend::server::{
    message_reply, outcome, random_token, read_request, route, unique_path, unknown_endpoint,
    write_response_head, Decision, Reading, Receiver, Request, Route,
};

fn convert(value: serde_json::Value) -> Value {
    match value {
        serde_json::Value::Null => Value::Null,
        serde_json::Value::Bool(flag) => Value::Bool(flag),
        serde_json::Value::Number(n) => Value::Number(match (n.as_u64(), n.as_i64()) {
            (Some(n), _) => Number::Unsigned(n),
            (None, Some(n)) => Number::Negative(n),
            _ => Number::Decimal(n.to_string()),
        }),
        serde_json::Value::String(s) => Value::Text(s),
        serde_json::Value::Array(items) => Value::List(items.into_iter().map(convert).collect()),
        serde_json::Value::Object(fields) => {
            Value::Object(fields.into_iter().map(|(k, v)| (k, convert(v))).collect())
        }
    }
}

fn read(raw: &str) -> Value {
    convert(serde_json::from_str(raw).unwrap())
}

fn complete(raw: &[u8]) -> Request {
    match read_request(raw, true) {
        Reading::Done(request) => request,
        other => panic!("{other:?}"),
    }
}

fn receiver() -> Receiver {
    Receiver::new("Desk".to_string(), "/down".to_string(), 53317, "OWN".to_string())
}

const OFFER: &str =
    r#"{"info":{"alias":"Phone","fingerprint":"ab"},"files":{"0":{"fileName":"a.txt","size":3},"1":{}}}"#;

#[test]
fn a_sender_cannot_escape_the_download_directory() {
    let path = unique_path("/down", "../../.ssh/authorized_keys", &vec![]).unwrap();
    assert_eq!(path, "/down/authorized_keys");
}

#[test]
fn an_absolute_name_is_reduced_to_its_final_component() {
    let path = unique_path("/down", "/etc/passwd", &vec![]).unwrap();
    assert_eq!(path, "/down/passwd");
}

#[test]
fn an_existing_file_is_never_overwritten() {
    let taken = vec!["notes.txt".to_string()];
    let path = unique_path("/down", "notes.txt", &taken).unwrap();
    assert_eq!(path, "/down/notes (1).txt");
    let taken = vec!["notes.txt".to_string(), "notes (1).txt".to_string()];
    assert_eq!(unique_path("/down", "notes.txt", &taken).unwrap(), "/down/notes (2).txt");
    let taken = vec![".rc".to_string()];
    assert_eq!(unique_path("/down", ".rc", &taken).unwrap(), "/down/.rc (1)");
}

#[test]
fn a_nameless_file_still_gets_a_destination() {
    for name in ["", ".", ".."] {
        let path = unique_path("/down", name, &vec![]).unwrap();
        assert_eq!(path, "/down/unnamed");
    }
}

#[test]
fn the_counter_ends() {
    let mut taken = vec!["a".to_string()];
    for index in 1..1000 {
        taken.push(format!("a ({index})"));
    }
    assert_eq!(unique_path("/d", "a", &taken).unwrap_err(), "too many files named a");
    taken.pop();
    assert_eq!(unique_path("/d/", "a", &taken).unwrap(), "/d/a (999)");
}

#[test]
fn a_request_is_split_into_method_path_query_and_body() {
    let raw = b"POST /api/localsend/v2/upload?sessionId=a&fileId=0&token=t HTTP/1.1\r\nContent-Length: 5\r\n\r\nhello";
    let request = complete(raw);
    assert_eq!(request.method, "POST");
    assert_eq!(request.path, "/api/localsend/v2/upload");
    assert_eq!(request.parameter("sessionId").unwrap(), "a");
    assert_eq!(request.parameter("token").unwrap(), "t");
    assert_eq!(request.body, b"hello");
}

#[test]
fn a_body_longer_than_content_length_is_truncated() {
    let raw = b"POST /x HTTP/1.1\r\nContent-Length: 2\r\n\r\nhello";
    let request = complete(raw);
    assert_eq!(request.body, b"he");
}

#[test]
fn a_request_is_read_as_it_arrives() {
    assert!(matches!(read_request(b"POST /x HTTP/1.1\r\n", false), Reading::More));
    assert!(matches!(
        read_request(b"POST /x HTTP/1.1\r\nContent-Length: 9\r\n\r\nhe", false),
        Reading::More
    ));
    assert_eq!(
        complete(b"POST /x HTTP/1.1\r\ncontent-length: 9\r\n\r\nhe").body,
        b"he"
    );
    assert_eq!(complete(b"POST /x HTTP/1.1\r\n\r\nhe").body, b"");
    assert!(
        matches!(read_request(b"POST", true), Reading::Failed(m) if m == "the sender closed the connection")
    );
    let large = vec![b'a'; 70000];
    assert!(
        matches!(read_request(&large, false), Reading::Failed(m) if m == "request headers were unreasonably large")
    );
}

#[test]
fn the_last_of_two_parameters_counts() {
    let request = complete(b"GET /x?a=1&b&a=2 HTTP/1.1\r\n\r\n");
    assert_eq!(request.parameter("a").unwrap(), "2");
    assert!(request.parameter("b").is_none());
}

#[test]
fn tokens_are_unpredictable_and_distinct() {
    let a = random_token();
    let b = random_token();
    assert_ne!(a, b);
    assert_eq!(a.len(), 32);
}

#[test]
fn an_unusable_offer_is_refused() {
    let mut r = receiver();
    let refused = |r: &mut Receiver, payload: Option<Value>| {
        let reply = r.prepare_upload(payload.as_ref(), "s".to_string(), 1).unwrap();
        (reply.status.clone(), reply.body.text_or_empty("message"))
    };
    assert_eq!(refused(&mut r, None).1, "unreadable request");
    assert_eq!(refused(&mut r, Some(read("{}"))).1, "no files offered");
    assert_eq!(refused(&mut r, Some(read(r#"{"files":{}}"#))).1, "no files offered");
    let large = read(r#"{"files":{"0":{"size":17179869185}}}"#);
    assert_eq!(refused(&mut r, Some(large)).1, "file too large");
    assert!(r.pending().is_empty());
}

#[test]
fn one_transfer_waits_at_a_time() {
    let mut r = receiver();
    assert!(r.prepare_upload(Some(&read(OFFER)), "one".to_string(), 7).is_none());
    let waiting = r.pending();
    assert_eq!(waiting.len(), 1);
    assert_eq!(waiting[0].device, "Phone");
    assert_eq!(waiting[0].files[1].name, "unnamed");
    assert_eq!(waiting[0].requested_at, 7);
    let reply = r.prepare_upload(Some(&read(OFFER)), "two".to_string(), 8).unwrap();
    assert_eq!(reply.status, "409 Conflict");
    assert_eq!(reply.body.text_or_empty("message"), "Blocked by another session");
}

#[test]
fn a_transfer_is_answered_once() {
    let mut r = receiver();
    assert_eq!(
        r.accept("one", None).unwrap_err(),
        "no transfer waiting with session \"one\""
    );
    r.prepare_upload(Some(&read(OFFER)), "one".to_string(), 7);
    assert_eq!(r.decision("one"), Decision::Pending);
    assert!(r.decline("one").is_ok());
    assert_eq!(
        r.accept("one", None).unwrap_err(),
        "that transfer has already been answered"
    );
    assert_eq!(r.decision("one"), Decision::Declined);
    assert_eq!(r.decision("gone"), Decision::Declined);
}

#[test]
fn silence_is_a_refusal() {
    assert_eq!(outcome(Decision::Pending, false), None);
    assert_eq!(outcome(Decision::Pending, true), Some(Decision::Declined));
    assert_eq!(outcome(Decision::Accepted, true), Some(Decision::Accepted));
}

#[test]
fn a_declined_transfer_is_dropped() {
    let mut r = receiver();
    r.prepare_upload(Some(&read(OFFER)), "one".to_string(), 7);
    let reply = r.settle("one", Decision::Declined);
    assert_eq!(reply.status, "403 Forbidden");
    assert_eq!(reply.body.text_or_empty("message"), "Declined");
    assert!(r.sessions.is_empty());
}

#[test]
fn an_upload_needs_the_token_of_an_accepted_transfer() {
    let mut r = receiver();
    r.prepare_upload(Some(&read(OFFER)), "one".to_string(), 7);
    let query = |s: &str| complete(format!("POST /u?{s} HTTP/1.1\r\n\r\n").as_bytes());
    let refused = |r: &Receiver, q: &str| {
        let reply = r.upload(&query(q)).unwrap_err();
        (reply.status, reply.body.text_or_empty("message"))
    };
    assert_eq!(refused(&r, "sessionId=one").1, "missing session, file or token");
    assert_eq!(refused(&r, "sessionId=x&fileId=0&token=t").1, "unknown session");
    assert_eq!(refused(&r, "sessionId=one&fileId=0&token=t").1, "invalid token");
    r.accept("one", Some("/pictures".to_string())).unwrap();
    let reply = r.settle("one", Decision::Accepted);
    assert_eq!(reply.status, "200 OK");
    assert_eq!(reply.body.text_or_empty("sessionId"), "one");
    let token = reply.body.get("files").unwrap().text_or_empty("0");
    assert_eq!(token.len(), 32);
    assert!(token.chars().all(|c| c.is_ascii_digit() || ('a'..='f').contains(&c)));
    assert_eq!(refused(&r, "sessionId=one&fileId=0&token=wrong").1, "invalid token");
    let granted = r
        .upload(&query(&format!("sessionId=one&fileId=0&token={token}")))
        .unwrap();
    assert_eq!(granted.directory, "/pictures");
    assert_eq!(granted.name, "a.txt");
    let done = r.record_upload("one", "0", "/pictures/a.txt".to_string());
    assert_eq!(done.status, "200 OK");
    assert_eq!(r.received().len(), 1);
    assert_eq!(r.received()[0].saved_to.as_deref(), Some("/pictures/a.txt"));
}

#[test]
fn what_was_received_is_what_was_written() {
    let offer = r#"{ "info": {}, "files": { "0": { "fileName": "a", "size": 1 }, "1": { "fileName": "b", "size": 2 } } }"#;
    let mut r = receiver();
    let paths = |r: &Receiver| -> Vec<Option<String>> {
        r.received().into_iter().map(|file| file.saved_to).collect()
    };
    let at = |path: &str| Some(path.to_string());
    r.prepare_upload(Some(&read(offer)), "one".to_string(), 7);
    r.accept("one", None).unwrap();
    r.settle("one", Decision::Accepted);
    assert!(paths(&r).is_empty());
    r.record_upload("one", "0", "/d/a".to_string());
    r.record_upload("one", "1", "/d/b".to_string());
    assert_eq!(paths(&r), vec![at("/d/b"), at("/d/a")]);
    r.record_upload("one", "9", "/d/c".to_string());
    r.record_upload("two", "0", "/d/c".to_string());
    r.prepare_upload(Some(&read(offer)), "two".to_string(), 8);
    r.decline("two").unwrap();
    r.settle("two", Decision::Declined);
    r.hear(&read(r#"{ "fingerprint": "F", "alias": "x" }"#), "10.0.0.2");
    r.cancel(&complete(b"POST /c?sessionId=one HTTP/1.1\r\n\r\n"));
    assert_eq!(paths(&r), vec![at("/d/b"), at("/d/a")]);
}

#[test]
fn a_token_for_a_file_that_is_not_there_is_refused() {
    let mut r = receiver();
    r.prepare_upload(Some(&read(OFFER)), "one".to_string(), 7);
    r.accept("one", None).unwrap();
    r.sessions[0].tokens = vec![("9".to_string(), "t".to_string())];
    let request = complete(b"POST /u?sessionId=one&fileId=9&token=t HTTP/1.1\r\n\r\n");
    let reply = r.upload(&request).unwrap_err();
    assert_eq!(reply.body.text_or_empty("message"), "unknown file");
}

#[test]
fn requests_are_routed_by_method_and_path() {
    let routed = |line: &str| route(&complete(format!("{line} HTTP/1.1\r\n\r\n").as_bytes()));
    assert_eq!(routed("POST /api/localsend/v2/register"), Route::Register);
    assert_eq!(routed("GET /api/localsend/v2/info"), Route::Info);
    assert_eq!(routed("POST /api/localsend/v2/info"), Route::Unknown);
    assert_eq!(routed("POST /api/localsend/v2/prepare-upload"), Route::Prepare);
    assert_eq!(routed("POST /api/localsend/v2/upload?x=1"), Route::Upload);
    assert_eq!(routed("POST /api/localsend/v2/cancel"), Route::Cancel);
    assert_eq!(unknown_endpoint().status, "404 Not Found");
    assert_eq!(message_reply("500 X", "m").body.text_or_empty("message"), "m");
}

#[test]
fn devices_that_announce_themselves_are_heard_and_answered() {
    let mut r = receiver();
    let asked = read(r#"{"alias":"P","fingerprint":"ab","announce":true}"#);
    let answer = r.answer_announcement(&asked, "10.0.0.1").unwrap();
    assert_eq!(answer.flag_at("announce"), Some(false));
    assert_eq!(answer.text_or_empty("fingerprint"), "OWN");
    let quiet = read(r#"{"alias":"P","fingerprint":"ab","announce":false}"#);
    assert!(r.answer_announcement(&quiet, "10.0.0.2").is_none());
    let own = read(r#"{"alias":"P","fingerprint":"OWN","announce":true}"#);
    assert!(r.answer_announcement(&own, "10.0.0.3").is_none());
    let seen = r.seen();
    assert_eq!(seen.len(), 1);
    assert_eq!(seen[0].ip, "10.0.0.2");
    let reply = r.register(Some(&read(r#"{"fingerprint":"cd"}"#)), "10.0.0.4");
    assert_eq!(reply.body.text_or_empty("alias"), "Desk");
    assert_eq!(r.seen().len(), 2);
    assert_eq!(r.port(), 53317);
    assert_eq!(r.download_dir(), "/down");
}

#[test]
fn cancelling_declines_what_waits() {
    let mut r = receiver();
    r.prepare_upload(Some(&read(OFFER)), "one".to_string(), 7);
    let reply = r.cancel(&complete(b"POST /c?sessionId=one HTTP/1.1\r\n\r\n"));
    assert_eq!(reply.status, "200 OK");
    assert_eq!(r.decision("one"), Decision::Declined);
}

#[test]
fn a_response_head_carries_its_length() {
    assert_eq!(
        write_response_head("200 OK", 2),
        "HTTP/1.1 200 OK\r\nContent-Type: application/json\r\nContent-Length: 2\r\nConnection: close\r\n\r\n"
    );
}
