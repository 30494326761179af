//! The requests that the daemon takes over its socket, one on a line, and its responses.

use vstd::prelude::*;
use vstd::string::*;

use crate::api::{detail_json, ApiError};
use crate::json::{field_models, models, object, pair, text, text_list, Json, Value};
use crate::text::{is_in, list_has, maybe, or_empty, texts, unwrap_text};

verus! {

/// For how many milliseconds the batches of a query are waited for.
pub const STREAM_QUERY_BUDGET_MS: u64 = 250;

/// How many milliseconds lie between two looks for events.
pub const EVENT_INTERVAL_MS: u64 = 250;

/// A request.
#[derive(Debug)]
pub enum Request {
    Query {
        providers: Option<Vec<String>>,
        query: String,
        limit: Option<usize>,
        exact: Option<bool>,
        stream: Option<bool>,
    },
    Activate {
        provider: String,
        identifier: String,
        action: String,
        query: Option<String>,
        arguments: Option<String>,
    },
    Providers,
    Menu { menu: String },
    Subscribe { providers: Option<Vec<String>> },
    Api { method: String, params: Option<Value>, version: Option<u32> },
}

/// A line that came in: a request, or why it is none.
pub type Incoming = Result<Request, String>;

/// Whether a line is a query.
pub open spec fn is_query(line: Incoming) -> bool {
    line matches Ok(request) && request is Query
}

/// How many lines the next one stands for: queries in a row are one, the newest of them.
pub open spec fn burst(waiting: Seq<Incoming>) -> nat
    decreases waiting.len(),
{
    if waiting.len() == 0 {
        0
    } else if is_query(waiting[0]) && waiting.len() > 1 && is_query(waiting[1]) {
        1 + burst(waiting.drop_first())
    } else {
        1
    }
}

/// A burst is there, and all but its last line are queries.
pub proof fn only_queries_are_dropped(waiting: Seq<Incoming>)
    ensures
        burst(waiting) <= waiting.len(),
        waiting.len() > 0 ==> burst(waiting) > 0,
        forall|i: int| 0 <= i < burst(waiting) - 1 ==> is_query(#[trigger] waiting[i]),
        burst(waiting) > 1 ==> is_query(waiting[burst(waiting) - 1]),
    decreases waiting.len(),
{
    if waiting.len() > 1 && is_query(waiting[0]) && is_query(waiting[1]) {
        let rest = waiting.drop_first();
        only_queries_are_dropped(rest);
        assert forall|i: int| 0 <= i < burst(waiting) - 1 implies is_query(
            #[trigger] waiting[i],
        ) by {
            if i > 0 {
                assert(rest[i - 1] == waiting[i]);
            }
        }
        assert(rest[burst(rest) - 1] == waiting[burst(waiting) - 1]);
        assert(rest[0] == waiting[1]);
    }
}

/// Whether a line is a query.
fn queries(line: &Incoming) -> (r: bool)
    ensures
        r == is_query(*line),
{
    match line {
        Ok(Request::Query { .. }) => true,
        _ => false,
    }
}

/// Takes the next line out of those that wait. Where typing outruns the answers, only the newest
/// query is answered. Other requests are never dropped and come in order.
pub fn next_request(waiting: &mut Vec<Incoming>) -> (r: Option<Incoming>)
    ensures
        match r {
            Some(line) => {
                &&& old(waiting)@.len() > 0
                &&& line == old(waiting)@[burst(old(waiting)@) - 1]
                &&& final(waiting)@ == old(waiting)@.skip(burst(old(waiting)@) as int)
            },
            None => old(waiting)@.len() == 0 && final(waiting)@.len() == 0,
        },
{
    let ghost all = waiting@;
    if waiting.len() == 0 {
        return None;
    }
    proof {
        only_queries_are_dropped(all);
    }
    assert(all.skip(0) =~= all);
    let ghost mut taken: int = 0;
    while waiting.len() > 1 && queries(&waiting[0]) && queries(&waiting[1])
        invariant
            waiting@.len() > 0,
            0 <= taken < all.len(),
            waiting@ == all.skip(taken),
            burst(all) == taken + burst(waiting@),
        decreases waiting@.len(),
    {
        let ghost before = waiting@;
        let _ = waiting.remove(0);
        assert(waiting@ =~= before.drop_first());
        assert(waiting@ =~= all.skip(taken + 1));
        proof {
            taken = taken + 1;
        }
    }
    let ghost before = waiting@;
    assert(burst(before) == 1);
    let line = waiting.remove(0);
    assert(waiting@ =~= all.skip(taken + 1));
    Some(line)
}

/// What is done for a line.
#[derive(Debug)]
pub enum Job {
    /// A query, which is answered in batches or at once.
    Query { providers: Vec<String>, query: String, limit: usize, exact: bool, stream: bool },
    Activate {
        provider: String,
        identifier: String,
        action: String,
        query: String,
        arguments: String,
    },
    Providers,
    Menu(String),
    /// Events are sent from here on.
    Subscribe(Vec<String>),
    /// A call of the API. It does not wait for the providers.
    Api { method: String, params: Value, version: Option<u32> },
    /// The line is no request.
    Refuse(String),
}

/// The texts of an optional list, or none.
pub open spec fn or_none(list: Option<Vec<String>>) -> Seq<String> {
    match list {
        Some(items) => items@,
        None => Seq::empty(),
    }
}

/// Whether a job is what a request asks for. What is left out has its usual value.
pub open spec fn is_job(job: Job, line: Incoming) -> bool {
    match line {
        Err(message) => job == Job::Refuse(message),
        Ok(Request::Query { providers, query, limit, exact, stream }) => match job {
            Job::Query { providers: from, query: text, limit: most, exact: strict, stream: apart } => {
                &&& from@ == or_none(providers)
                &&& text == query
                &&& most == (match limit {
                    Some(n) => n,
                    None => 20,
                })
                &&& strict == (exact == Some(true))
                &&& apart == (stream == Some(true))
            },
            _ => false,
        },
        Ok(Request::Activate { provider, identifier, action, query, arguments }) => match job {
            Job::Activate {
                provider: of,
                identifier: id,
                action: name,
                query: text,
                arguments: more,
            } => {
                &&& of == provider
                &&& id == identifier
                &&& name == action
                &&& text@ == or_empty(query)
                &&& more@ == or_empty(arguments)
            },
            _ => false,
        },
        Ok(Request::Providers) => job == Job::Providers,
        Ok(Request::Menu { menu }) => job == Job::Menu(menu),
        Ok(Request::Subscribe { providers }) => job matches Job::Subscribe(wanted) && wanted@
            == or_none(providers),
        Ok(Request::Api { method, params, version }) => match job {
            Job::Api { method: name, params: values, version: spoken } => {
                &&& name == method
                &&& values@ == detail_json(params)
                &&& spoken == version
            },
            _ => false,
        },
    }
}

/// The texts of an optional list, or none.
fn list_or_none(list: Option<Vec<String>>) -> (r: Vec<String>)
    ensures
        r@ == or_none(list),
{
    match list {
        Some(items) => items,
        None => Vec::new(),
    }
}

/// What is done for a line.
pub fn job(line: Incoming) -> (r: Job)
    ensures
        is_job(r, line),
{
    match line {
        Err(message) => Job::Refuse(message),
        Ok(Request::Query { providers, query, limit, exact, stream }) => Job::Query {
            providers: list_or_none(providers),
            query,
            limit: match limit {
                Some(n) => n,
                None => 20,
            },
            exact: match exact {
                Some(flag) => flag,
                None => false,
            },
            stream: match stream {
                Some(flag) => flag,
                None => false,
            },
        },
        Ok(Request::Activate { provider, identifier, action, query, arguments }) => Job::Activate {
            provider,
            identifier,
            action,
            query: unwrap_text(query),
            arguments: unwrap_text(arguments),
        },
        Ok(Request::Providers) => Job::Providers,
        Ok(Request::Menu { menu }) => Job::Menu(menu),
        Ok(Request::Subscribe { providers }) => Job::Subscribe(list_or_none(providers)),
        Ok(Request::Api { method, params, version }) => Job::Api {
            method,
            params: match params {
                Some(values) => values,
                None => Value::Null,
            },
            version,
        },
    }
}

/// A response.
pub open spec fn response_json(ok: bool, data: Json, error: Option<Seq<char>>) -> Json {
    Json::Object(
        seq![
            ("ok"@, Json::Bool(ok)),
            ("data"@, data),
            (
                "error"@,
                match error {
                    Some(message) => Json::Text(message),
                    None => Json::Null,
                },
            ),
        ],
    )
}

/// A response.
fn response(ok: bool, data: Value, error: Option<&str>) -> (r: Value)
    ensures
        r@ == response_json(ok, data@, maybe(error)),
{
    let why = match error {
        Some(message) => text(message),
        None => Value::Null,
    };
    let ghost first = data@;
    let ghost last = why@;
    let mut fields: Vec<(String, Value)> = Vec::new();
    fields.push(pair("ok", Value::Bool(ok)));
    fields.push(pair("data", data));
    fields.push(pair("error", why));
    assert(field_models(fields@)[1] == ("data"@, first));
    assert(field_models(fields@)[2] == ("error"@, last));
    assert(field_models(fields@) =~= response_json(
        ok,
        first,
        maybe(error),
    )->Object_0);
    object(fields)
}

/// The response to a request that went through.
pub fn success(data: Value) -> (r: Value)
    ensures
        r@ == response_json(true, data@, None),
{
    response(true, data, None)
}

/// The response to a request that failed.
pub fn failure(message: &str) -> (r: Value)
    ensures
        r@ == response_json(false, Json::Object(Seq::empty()), Some(message@)),
{
    let none: Vec<(String, Value)> = Vec::new();
    assert(field_models(none@) =~= Seq::empty());
    response(false, object(none), Some(message))
}

/// The response to an activation.
pub fn activated(outcome: &Result<(), String>) -> (r: Value)
    ensures
        r@ == (match *outcome {
            Ok(_) => response_json(true, Json::Object(Seq::empty()), None),
            Err(message) => response_json(false, Json::Object(Seq::empty()), Some(message@)),
        }),
{
    match outcome {
        Ok(_) => {
            let none: Vec<(String, Value)> = Vec::new();
            assert(field_models(none@) =~= Seq::empty());
            success(object(none))
        },
        Err(message) => failure(message.as_str()),
    }
}

/// The error of a call as its caller reads it.
pub open spec fn error_json(error: ApiError) -> Json {
    Json::Object(
        seq![
            ("code"@, Json::Text(error.code.text())),
            ("message"@, Json::Text(error.message@)),
            ("detail"@, detail_json(error.detail)),
        ],
    )
}

/// The response to a call of the API. One that failed carries the whole error.
pub fn answered(outcome: Result<Value, ApiError>) -> (r: Value)
    ensures
        r@ == (match outcome {
            Ok(data) => response_json(true, data@, None),
            Err(error) => response_json(false, error_json(error), Some(error.message@)),
        }),
{
    match outcome {
        Ok(data) => success(data),
        Err(error) => {
            let data = error.to_value();
            response(false, data, Some(error.message.as_str()))
        },
    }
}

/// What one provider found.
pub fn query_batch(provider: &str, items: Value) -> (r: Value)
    ensures
        r@ == response_json(
            true,
            Json::Object(
                seq![
                    ("type"@, Json::Text("query_batch"@)),
                    ("provider"@, Json::Text(provider@)),
                    ("items"@, items@),
                ],
            ),
            None,
        ),
{
    let ghost last = items@;
    let mut fields: Vec<(String, Value)> = Vec::new();
    fields.push(pair("type", text("query_batch")));
    fields.push(pair("provider", text(provider)));
    fields.push(pair("items", items));
    assert(field_models(fields@) =~= seq![
        ("type"@, Json::Text("query_batch"@)),
        ("provider"@, Json::Text(provider@)),
        ("items"@, last),
    ]);
    success(object(fields))
}

/// That no more batches come.
pub fn query_done() -> (r: Value)
    ensures
        r@ == response_json(true, Json::Object(seq![("type"@, Json::Text("done"@))]), None),
{
    let mut fields: Vec<(String, Value)> = Vec::new();
    fields.push(pair("type", text("done")));
    assert(field_models(fields@) =~= seq![("type"@, Json::Text("done"@))]);
    success(object(fields))
}

/// That events come from here on.
pub fn subscribed(providers: &Vec<String>) -> (r: Value)
    ensures
        r@ == response_json(
            true,
            Json::Object(
                seq![
                    ("type"@, Json::Text("subscribed"@)),
                    (
                        "providers"@,
                        Json::List(texts(providers@).map_values(|s: Seq<char>| Json::Text(s))),
                    ),
                ],
            ),
            None,
        ),
{
    let listed = text_list(providers);
    let ghost last = listed@;
    let mut fields: Vec<(String, Value)> = Vec::new();
    fields.push(pair("type", text("subscribed")));
    fields.push(pair("providers", listed));
    assert(field_models(fields@) =~= seq![
        ("type"@, Json::Text("subscribed"@)),
        ("providers"@, last),
    ]);
    success(object(fields))
}

/// Whether an event is one that was subscribed to: every event is where no provider was named.
pub open spec fn is_wanted(event: Json, providers: Seq<String>) -> bool {
    providers.len() == 0 || match event.text_at("provider"@) {
        Some(name) => is_in(providers, name),
        None => false,
    }
}

/// Whether an event is one that was subscribed to.
pub fn wants_event(event: &Value, providers: &Vec<String>) -> (r: bool)
    ensures
        r == is_wanted(event@, providers@),
{
    if providers.len() == 0 {
        return true;
    }
    match event.text_at("provider") {
        Some(name) => list_has(providers, name.as_str()),
        None => false,
    }
}

/// The response that carries an event.
pub open spec fn event_json(event: Json) -> Json {
    response_json(
        true,
        Json::Object(seq![("type"@, Json::Text("event"@)), ("event"@, event)]),
        None,
    )
}

/// The responses that carry the events that were subscribed to.
pub open spec fn event_responses(events: Seq<Json>, providers: Seq<String>) -> Seq<Json>
    decreases events.len(),
{
    if events.len() == 0 {
        Seq::empty()
    } else if is_wanted(events.last(), providers) {
        event_responses(events.drop_last(), providers).push(event_json(events.last()))
    } else {
        event_responses(events.drop_last(), providers)
    }
}

/// The responses that carry the events that were subscribed to, in their order.
pub fn subscribe(events: &Vec<Value>, providers: &Vec<String>) -> (r: Vec<Value>)
    ensures
        models(r@) == event_responses(models(events@), providers@),
{
    let ghost all = models(events@);
    let mut out: Vec<Value> = Vec::new();
    assert(all.take(0) =~= Seq::empty());
    assert(models(out@) =~= Seq::empty());
    let mut i: usize = 0;
    while i < events.len()
        invariant
            all == models(events@),
            i <= events@.len(),
            models(out@) == event_responses(all.take(i as int), providers@),
        decreases events.len() - i,
    {
        let ghost before = models(out@);
        assert(all.take(i + 1).drop_last() =~= all.take(i as int));
        assert(all.take(i + 1).last() == events@[i as int]@);
        if wants_event(&events[i], providers) {
            let mut fields: Vec<(String, Value)> = Vec::new();
            fields.push(pair("type", text("event")));
            fields.push(pair("event", events[i].copy()));
            assert(field_models(fields@) =~= seq![
                ("type"@, Json::Text("event"@)),
                ("event"@, events@[i as int]@),
            ]);
            out.push(success(object(fields)));
            assert(models(out@) =~= before.push(event_json(events@[i as int]@)));
        }
        i += 1;
    }
    assert(all.take(i as int) =~= all);
    out
}

/// Queries in a row come to the newest of them, and what is no query is taken by itself.
pub proof fn the_newest_query_is_answered(waiting: Seq<Incoming>)
    requires
        waiting.len() > 0,
    ensures
        !is_query(waiting[0]) ==> burst(waiting) == 1,
        is_query(waiting[0]) ==> is_query(waiting[burst(waiting) - 1]) && (burst(waiting)
            < waiting.len() ==> !is_query(waiting[burst(waiting) as int])),
        0 < burst(waiting) <= waiting.len(),
    decreases waiting.len(),
{
    if waiting.len() > 1 && is_query(waiting[0]) && is_query(waiting[1]) {
        let rest = waiting.drop_first();
        assert(rest[0] == waiting[1]);
        the_newest_query_is_answered(rest);
        assert(rest[burst(rest) - 1] == waiting[burst(waiting) - 1]);
        if burst(rest) < rest.len() {
            assert(rest[burst(rest) as int] == waiting[burst(waiting) as int]);
        }
    }
}

/// A request is carried out as it was made, and what it leaves out is as usual: all providers, twenty
/// results, found loosely and sent at once.
pub proof fn a_request_is_carried_out_as_made(job: Job, line: Incoming)
    requires
        is_job(job, line),
    ensures
        line matches Ok(Request::Query { providers: None, query, limit: None, exact: None, stream: None })
            ==> (job matches Job::Query { providers, query: text, limit, exact, stream }
            && providers@.len() == 0 && text == query && limit == 20 && !exact && !stream),
        line matches Ok(Request::Query { providers: Some(from), query, limit: Some(n), exact: Some(e), stream: Some(s) })
            ==> (job matches Job::Query { providers, query: text, limit, exact, stream } && providers@
            == from@ && text == query && limit == n && exact == e && stream == s),
        line matches Ok(Request::Activate { provider, identifier, action, query: Some(q), arguments: Some(a) })
            ==> (job matches Job::Activate {
            provider: of,
            identifier: id,
            action: name,
            query: text,
            arguments: more,
        } && of == provider && id == identifier && name == action && text@ == q@ && more@ == a@),
        line matches Ok(Request::Menu { menu }) ==> job == Job::Menu(menu),
        line matches Ok(Request::Providers) ==> job == Job::Providers,
        line matches Ok(Request::Api { method, params: Some(values), version }) ==> (
        job matches Job::Api { method: name, params, version: spoken } && name == method && params@
            == values@ && spoken == version),
        line is Err ==> job is Refuse,
{
}

/// A response tells whether the request went through, and carries its data or why it did not.
pub proof fn a_response_tells_how_it_went(ok: bool, data: Json, error: Option<Seq<char>>)
    ensures
        response_json(ok, data, error).field("ok"@) == Some(Json::Bool(ok)),
        response_json(ok, data, error).field("data"@) == Some(data),
        error matches Some(message) ==> response_json(ok, data, error).field("error"@) == Some(
            Json::Text(message),
        ),
        error is None ==> response_json(ok, data, error).field("error"@) == Some(Json::Null),
{
    reveal_strlit("ok");
    reveal_strlit("data");
    reveal_strlit("error");
    assert("ok"@.len() == 2 && "data"@.len() == 4 && "error"@.len() == 5);
    let fields = response_json(ok, data, error)->Object_0;
    crate::json::a_field_is_found(fields, 0);
    crate::json::a_field_is_found(fields, 1);
    crate::json::a_field_is_found(fields, 2);
}

/// Whoever subscribed to a provider is told its events and no others; whoever named none is told all,
/// and all in their order.
pub proof fn what_was_subscribed_to_is_told(events: Seq<Json>, providers: Seq<String>, k: int)
    requires
        0 <= k < events.len(),
    ensures
        providers.len() == 0 ==> event_responses(events, providers).len() == events.len()
            && event_responses(events, providers)[k] == event_json(events[k]),
        (forall|name: Seq<char>|
            events[k].field("provider"@) == Some(Json::Text(name)) ==> !is_in(providers, name))
            && providers.len() > 0 ==> !is_wanted(events[k], providers),
        forall|name: Seq<char>|
            #![trigger is_in(providers, name)]
            events[k].field("provider"@) == Some(Json::Text(name)) && is_in(providers, name)
                ==> is_wanted(events[k], providers),
        is_wanted(events[k], providers) ==> event_responses(events, providers).contains(
            event_json(events[k]),
        ),
    decreases events.len(),
{
    let front = events.drop_last();
    let before = event_responses(front, providers);
    let all = event_responses(events, providers);
    if providers.len() == 0 {
        every_event_is_told(front, providers);
    }
    if k < front.len() {
        assert(front[k] == events[k]);
        what_was_subscribed_to_is_told(front, providers, k);
        if is_wanted(events[k], providers) {
            let x = choose|x: int| 0 <= x < before.len() && before[x] == event_json(front[k]);
            assert(all[x] == before[x]);
        }
    } else if is_wanted(events[k], providers) {
        assert(all[before.len() as int] == event_json(events[k]));
    }
}

/// Whoever named no provider is told as many events as there are.
proof fn every_event_is_told(events: Seq<Json>, providers: Seq<String>)
    requires
        providers.len() == 0,
    ensures
        event_responses(events, providers).len() == events.len(),
    decreases events.len(),
{
    if events.len() > 0 {
        every_event_is_told(events.drop_last(), providers);
    }
}

/// A call that failed says why: by its code, in words, and with what helps on.
pub proof fn a_failed_call_says_why(error: ApiError)
    ensures
        error_json(error).field("code"@) == Some(Json::Text(error.code.text())),
        error_json(error).field("message"@) == Some(Json::Text(error.message@)),
        error.detail is None ==> error_json(error).field("detail"@) == Some(Json::Null),
        error.detail is Some ==> error_json(error).field("detail"@) == Some((error.detail->0)@),
{
    reveal_strlit("code");
    reveal_strlit("message");
    reveal_strlit("detail");
    assert("code"@.len() == 4 && "message"@.len() == 7 && "detail"@.len() == 6);
    crate::json::a_field_is_found(error_json(error)->Object_0, 0);
    crate::json::a_field_is_found(error_json(error)->Object_0, 1);
    crate::json::a_field_is_found(error_json(error)->Object_0, 2);
}

/// An event is told as one, and as it is.
pub proof fn an_event_is_told_as_it_is(event: Json)
    ensures
        event_json(event).field("ok"@) == Some(Json::Bool(true)),
        event_json(event).inner("data"@).field("type"@) == Some(Json::Text("event"@)),
        event_json(event).inner("data"@).field("event"@) == Some(event),
{
    let data = Json::Object(seq![("type"@, Json::Text("event"@)), ("event"@, event)]);
    a_response_tells_how_it_went(true, data, None);
    reveal_strlit("type");
    reveal_strlit("event");
    assert("type"@.len() == 4 && "event"@.len() == 5);
    crate::json::a_field_is_found(data->Object_0, 0);
    crate::json::a_field_is_found(data->Object_0, 1);
}

} // verus!
