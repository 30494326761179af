//! What is asked of the daemon over its socket, and what is made of its responses.

use vstd::prelude::*;
use vstd::string::*;

use crate::json::{
    field_models, field_of, models, object, pair, text, text_list, whole, Json, Value,
};
use crate::server::response_json;
use crate::text::{same, texts};

verus! {

/// What a response says: its data, or the whole of it where it has none, unless it failed.
pub open spec fn reply_of(response: Json) -> Result<Json, Seq<char>> {
    if response.flag_at("ok"@) == Some(false) {
        Err(
            match response.text_at("error"@) {
                Some(error) => error,
                None => "daemon request failed"@,
            },
        )
    } else {
        Ok(
            match response.field("data"@) {
                Some(data) => data,
                None => response,
            },
        )
    }
}

/// Whether this is what a response says.
pub open spec fn is_reply(r: Result<Value, String>, response: Json) -> bool {
    match reply_of(response) {
        Ok(data) => r is Ok && r->Ok_0@ == data,
        Err(message) => r is Err && r->Err_0@ == message,
    }
}

/// What a response says.
pub fn reply(response: &Value) -> (r: Result<Value, String>)
    ensures
        is_reply(r, response@),
{
    if let Some(false) = response.flag_at("ok") {
        return Err(
            match response.text_at("error") {
                Some(error) => error,
                None => "daemon request failed".to_owned(),
            },
        );
    }
    match response.get("data") {
        Some(data) => Ok(data.copy()),
        None => Ok(response.copy()),
    }
}

/// What a query is asked with.
pub open spec fn query_json(
    providers: Seq<Seq<char>>,
    query: Seq<char>,
    limit: nat,
    exact: bool,
) -> Seq<(Seq<char>, Json)> {
    seq![
        ("type"@, Json::Text("query"@)),
        ("providers"@, Json::List(providers.map_values(|s: Seq<char>| Json::Text(s)))),
        ("query"@, Json::Text(query)),
        ("limit"@, Json::Whole(limit as int)),
        ("exact"@, Json::Bool(exact)),
    ]
}

/// The fields that a query is asked with.
fn query_fields(providers: &Vec<String>, query: &str, limit: usize, exact: bool) -> (r: Vec<
    (String, Value),
>)
    ensures
        field_models(r@) == query_json(texts(providers@), query@, limit as nat, exact),
{
    let listed = text_list(providers);
    let ghost second = listed@;
    let mut fields: Vec<(String, Value)> = Vec::new();
    fields.push(pair("type", text("query")));
    fields.push(pair("providers", listed));
    fields.push(pair("query", text(query)));
    fields.push(pair("limit", whole(limit as u64)));
    fields.push(pair("exact", Value::Bool(exact)));
    assert(field_models(fields@)[1] == ("providers"@, second));
    assert(field_models(fields@) =~= query_json(texts(providers@), query@, limit as nat, exact));
    fields
}

/// A query that is answered at once.
pub fn query_request(providers: &Vec<String>, query: &str, limit: usize, exact: bool) -> (r: Value)
    ensures
        r@ == Json::Object(query_json(texts(providers@), query@, limit as nat, exact)),
{
    object(query_fields(providers, query, limit, exact))
}

/// A query that each provider answers by itself.
pub fn stream_query(providers: &Vec<String>, query: &str, limit: usize, exact: bool) -> (r: Value)
    ensures
        r@ == Json::Object(
            query_json(texts(providers@), query@, limit as nat, exact).push(
                ("stream"@, Json::Bool(true)),
            ),
        ),
{
    let mut fields = query_fields(providers, query, limit, exact);
    let ghost before = field_models(fields@);
    fields.push(pair("stream", Value::Bool(true)));
    assert(field_models(fields@) =~= before.push(("stream"@, Json::Bool(true))));
    object(fields)
}

/// A part of the answer to a query that each provider answers by itself.
#[derive(Debug)]
pub enum Part {
    /// What one provider found.
    Batch(String, Vec<Value>),
    /// Nothing more comes.
    Done,
    /// Anything else, which is passed over.
    Other,
}

/// Whether a part is what the data of a response holds.
pub open spec fn is_part(part: Part, data: Json) -> bool {
    if data.text_at("type"@) == Some("query_batch"@) {
        part matches Part::Batch(provider, items) && provider@ == data.text_or_empty("provider"@)
            && models(items@) == data.list_at("items"@)
    } else if data.text_at("type"@) == Some("done"@) {
        part == Part::Done
    } else {
        part == Part::Other
    }
}

/// A part of the answer to a query.
pub fn part(data: &Value) -> (r: Part)
    ensures
        is_part(r, data@),
{
    let kind = match data.text_at("type") {
        Some(kind) => kind,
        None => return Part::Other,
    };
    if same(kind.as_str(), "query_batch") {
        return Part::Batch(data.text_or_empty("provider"), items(data));
    }
    if same(kind.as_str(), "done") {
        return Part::Done;
    }
    Part::Other
}

/// The items of a batch.
fn items(data: &Value) -> (r: Vec<Value>)
    ensures
        models(r@) == data@.list_at("items"@),
{
    let mut out: Vec<Value> = Vec::new();
    let ghost all = data@.list_at("items"@);
    assert(models(out@) =~= Seq::empty());
    let found = match data.get("items") {
        Some(v) => v.as_array(),
        None => None,
    };
    let items = match found {
        Some(items) => items,
        None => return out,
    };
    let mut i: usize = 0;
    while i < items.len()
        invariant
            all == models(items@),
            i <= items@.len(),
            models(out@) == all.take(i as int),
        decreases items.len() - i,
    {
        let ghost before = models(out@);
        out.push(items[i].copy());
        assert(models(out@) =~= before.push(all[i as int]));
        assert(all.take(i + 1) =~= before.push(all[i as int]));
        i += 1;
    }
    assert(all.take(i as int) =~= all);
    out
}

/// Whether nothing after a response counts: it failed, or says that nothing more comes.
pub open spec fn ends_stream(response: Json) -> bool {
    match reply_of(response) {
        Ok(data) => data.text_at("type"@) == Some("done"@),
        Err(_) => true,
    }
}

/// Whether nothing after a response counts.
pub fn ends(response: &Value) -> (r: bool)
    ensures
        r == ends_stream(response@),
{
    proof {
        reveal_strlit("query_batch");
        reveal_strlit("done");
    }
    assert("query_batch"@.len() != "done"@.len());
    match reply(response) {
        Ok(data) => match part(&data) {
            Part::Done => true,
            _ => false,
        },
        Err(_) => true,
    }
}

/// The batch that the data of a response holds, where it holds one: the provider, and what it found.
pub open spec fn batch_of(data: Json) -> Seq<(Seq<char>, Seq<Json>)> {
    if data.text_at("type"@) == Some("query_batch"@) {
        seq![(data.text_or_empty("provider"@), data.list_at("items"@))]
    } else {
        Seq::empty()
    }
}

/// The batches of a stream, in the order in which they came: those before it ends. The error of a
/// response that failed, where one does before the stream is done.
pub open spec fn batches_of(responses: Seq<Json>) -> Result<
    Seq<(Seq<char>, Seq<Json>)>,
    Seq<char>,
>
    decreases responses.len(),
{
    if responses.len() == 0 {
        Ok(Seq::empty())
    } else {
        match reply_of(responses[0]) {
            Err(message) => Err(message),
            Ok(data) => if ends_stream(responses[0]) {
                Ok(Seq::empty())
            } else {
                after_some(batch_of(data), batches_of(responses.drop_first()))
            },
        }
    }
}

/// Some batches, and then what follows, unless that failed.
pub open spec fn after_some(
    first: Seq<(Seq<char>, Seq<Json>)>,
    rest: Result<Seq<(Seq<char>, Seq<Json>)>, Seq<char>>,
) -> Result<Seq<(Seq<char>, Seq<Json>)>, Seq<char>> {
    match rest {
        Ok(batches) => Ok(first + batches),
        Err(message) => Err(message),
    }
}

/// Batches as contracts speak of them.
pub open spec fn batch_models(batches: Seq<(String, Vec<Value>)>) -> Seq<
    (Seq<char>, Seq<Json>),
> {
    batches.map_values(|b: (String, Vec<Value>)| (b.0@, models(b.1@)))
}

/// What the responses to a query that each provider answers by itself hold: one batch for each
/// provider that answered before the stream ended.
pub fn collected(responses: &Vec<Value>) -> (r: Result<Vec<(String, Vec<Value>)>, String>)
    ensures
        match batches_of(models(responses@)) {
            Ok(batches) => r is Ok && batch_models(r->Ok_0@) == batches,
            Err(message) => r is Err && r->Err_0@ == message,
        },
{
    proof {
        reveal_strlit("query_batch");
        reveal_strlit("done");
    }
    assert("query_batch"@.len() != "done"@.len());
    let ghost all = models(responses@);
    let mut out: Vec<(String, Vec<Value>)> = Vec::new();
    let mut i: usize = 0;
    assert(all.skip(0) =~= all);
    assert(batch_models(out@) =~= Seq::empty());
    assert(after_some(batch_models(out@), batches_of(all)) == batches_of(all)) by {
        if let Ok(batches) = batches_of(all) {
            assert(Seq::<(Seq<char>, Seq<Json>)>::empty() + batches =~= batches);
        }
    }
    while i < responses.len()
        invariant
            "query_batch"@ != "done"@,
            all == models(responses@),
            i <= responses@.len(),
            after_some(batch_models(out@), batches_of(all.skip(i as int))) == batches_of(all),
        decreases responses.len() - i,
    {
        let ghost before = batch_models(out@);
        let ghost rest = all.skip(i as int);
        assert(rest[0] == all[i as int]);
        assert(rest.drop_first() =~= all.skip(i + 1));
        let data = match reply(&responses[i]) {
            Ok(data) => data,
            Err(message) => return Err(message),
        };
        match part(&data) {
            Part::Batch(provider, items) => {
                out.push((provider, items));
                assert(batch_models(out@) =~= before + batch_of(data@));
            },
            Part::Done => {
                assert(before + Seq::<(Seq<char>, Seq<Json>)>::empty() =~= before);
                return Ok(out);
            },
            Part::Other => {
                assert(batch_models(out@) =~= before + batch_of(data@));
            },
        }
        proof {
            if let Ok(batches) = batches_of(rest.drop_first()) {
                assert(before + (batch_of(data@) + batches) =~= (before + batch_of(data@)) + batches);
            }
        }
        i += 1;
    }
    assert(all.skip(i as int).len() == 0);
    assert(batch_models(out@) + Seq::<(Seq<char>, Seq<Json>)>::empty() =~= batch_models(out@));
    Ok(out)
}

/// What comes after the end of a stream counts for nothing.
pub proof fn nothing_counts_after_the_end(before: Seq<Json>, last: Json, after: Seq<Json>)
    requires
        ends_stream(last),
    ensures
        batches_of(before.push(last) + after) == batches_of(before.push(last)),
    decreases before.len(),
{
    let short = before.push(last);
    let long = short + after;
    assert(long[0] == short[0]);
    if before.len() == 0 {
        assert(short[0] == last);
    } else {
        nothing_counts_after_the_end(before.drop_first(), last, after);
        assert(short.drop_first() =~= before.drop_first().push(last));
        assert(long.drop_first() =~= short.drop_first() + after);
    }
}

/// Where no response fails and none ends the stream, each batch is there in its order: what was
/// collected of more responses is what was collected before, and the batch of the last.
pub proof fn a_batch_is_added_to_those_before(before: Seq<Json>, last: Json)
    requires
        forall|i: int| 0 <= i < before.len() ==> !ends_stream(#[trigger] before[i]),
        !ends_stream(last),
    ensures
        batches_of(before) is Ok,
        batches_of(before.push(last)) == Ok::<Seq<(Seq<char>, Seq<Json>)>, Seq<char>>(
            batches_of(before)->Ok_0 + batch_of(reply_of(last)->Ok_0),
        ),
    decreases before.len(),
{
    let longer = before.push(last);
    if before.len() == 0 {
        assert(longer[0] == last);
        assert(batches_of(longer.drop_first())->Ok_0 =~= Seq::empty());
        let batch = batch_of(reply_of(last)->Ok_0);
        assert(batch + Seq::<(Seq<char>, Seq<Json>)>::empty() =~= batch);
        assert(Seq::<(Seq<char>, Seq<Json>)>::empty() + batch =~= batch);
    } else {
        assert(longer[0] == before[0]);
        let rest = before.drop_first();
        assert forall|i: int| 0 <= i < rest.len() implies !ends_stream(#[trigger] rest[i]) by {
            assert(rest[i] == before[i + 1]);
        }
        a_batch_is_added_to_those_before(rest, last);
        assert(longer.drop_first() =~= rest.push(last));
        let first = batch_of(reply_of(before[0])->Ok_0);
        let batch = batch_of(reply_of(last)->Ok_0);
        assert(first + (batches_of(rest)->Ok_0 + batch) =~= (first + batches_of(rest)->Ok_0)
            + batch);
    }
}

/// A request for the events of some providers.
pub fn subscribe(providers: &Vec<String>) -> (r: Value)
    ensures
        r@ == Json::Object(
            seq![
                ("type"@, Json::Text("subscribe"@)),
                (
                    "providers"@,
                    Json::List(texts(providers@).map_values(|s: Seq<char>| Json::Text(s))),
                ),
            ],
        ),
{
    let listed = text_list(providers);
    let ghost last = listed@;
    let mut fields: Vec<(String, Value)> = Vec::new();
    fields.push(pair("type", text("subscribe")));
    fields.push(pair("providers", listed));
    assert(field_models(fields@) =~= seq![
        ("type"@, Json::Text("subscribe"@)),
        ("providers"@, last),
    ]);
    object(fields)
}

/// A call of the API.
pub fn api_request(method: &str, params: Value, version: Option<u32>) -> (r: Value)
    ensures
        r@ == Json::Object(
            seq![
                ("type"@, Json::Text("api"@)),
                ("method"@, Json::Text(method@)),
                ("params"@, params@),
                ("version"@, version_json(version)),
            ],
        ),
{
    let spoken = match version {
        Some(n) => whole(n as u64),
        None => Value::Null,
    };
    let ghost given = params@;
    let ghost last = spoken@;
    let mut fields: Vec<(String, Value)> = Vec::new();
    fields.push(pair("type", text("api")));
    fields.push(pair("method", text(method)));
    fields.push(pair("params", params));
    fields.push(pair("version", spoken));
    assert(field_models(fields@)[2] == ("params"@, given));
    assert(field_models(fields@) =~= seq![
        ("type"@, Json::Text("api"@)),
        ("method"@, Json::Text(method@)),
        ("params"@, given),
        ("version"@, last),
    ]);
    object(fields)
}

/// A version as the daemon reads it.
pub open spec fn version_json(version: Option<u32>) -> Json {
    match version {
        Some(n) => Json::Whole(n as int),
        None => Json::Null,
    }
}

/// Whether this is what a daemon answered to a call.
pub open spec fn is_api_answer(r: Option<(bool, Value)>, envelope: Option<Json>) -> bool {
    match envelope {
        None => r is None,
        Some(response) => {
            let ok = response.flag_at("ok"@) == Some(true);
            let data = response.inner("data"@);
            match r {
                Some(answer) => (ok || data.field("code"@) is Some) && answer.0 == ok && answer.1@
                    == data,
                None => !ok && data.field("code"@) is None,
            }
        },
    }
}

/// What a daemon answered to a call: whether it went through, and with what. Nothing where the call
/// has to be answered without it: a daemon that knows no API refuses the call without a code.
pub fn api_answer(envelope: Option<&Value>) -> (r: Option<(bool, Value)>)
    ensures
        is_api_answer(
            r,
            match envelope {
                Some(response) => Some(response@),
                None => None,
            },
        ),
{
    let response = match envelope {
        Some(response) => response,
        None => return None,
    };
    let ok = match response.flag_at("ok") {
        Some(flag) => flag,
        None => false,
    };
    let data = match response.get("data") {
        Some(data) => data.copy(),
        None => Value::Null,
    };
    if !ok && data.get("code").is_none() {
        return None;
    }
    Some((ok, data))
}

/// What the server wrote of a request is what the client reads: the data where it went through, and
/// the error where it failed.
pub proof fn a_response_is_understood(
    r: Result<Value, String>,
    ok: bool,
    data: Json,
    error: Option<Seq<char>>,
)
    requires
        is_reply(r, response_json(ok, data, error)),
    ensures
        match (ok, error) {
            (true, _) => r is Ok && r->Ok_0@ == data,
            (false, Some(message)) => r is Err && r->Err_0@ == message,
            (false, None) => r is Err,
        },
{
    reveal_strlit("ok");
    reveal_strlit("data");
    reveal_strlit("error");
    let fields = response_json(ok, data, error)->Object_0;
    assert("ok"@.len() == 2 && "data"@.len() == 4 && "error"@.len() == 5);
    assert(fields[0].0 == "ok"@ && fields[1].0 == "data"@ && fields[2].0 == "error"@);
    assert(fields.drop_first()[0] == fields[1]);
    assert(fields.drop_first().drop_first()[0] == fields[2]);
    assert(field_of(fields, "ok"@) == Some(Json::Bool(ok)));
    assert(field_of(fields.drop_first(), "data"@) == Some(data));
    assert(field_of(fields, "data"@) == Some(data));
    assert(field_of(fields.drop_first().drop_first(), "error"@) == Some(fields[2].1));
    assert(field_of(fields.drop_first(), "error"@) == Some(fields[2].1));
    assert(field_of(fields, "error"@) == Some(fields[2].1));
}

/// A query is asked as it was given: for its text, of its providers, for as many results as are wanted,
/// and exactly where that is wanted.
pub proof fn a_query_is_asked_as_given(
    providers: Seq<Seq<char>>,
    query: Seq<char>,
    limit: nat,
    exact: bool,
)
    ensures
        Json::Object(query_json(providers, query, limit, exact)).field("type"@) == Some(
            Json::Text("query"@),
        ),
        Json::Object(query_json(providers, query, limit, exact)).field("query"@) == Some(
            Json::Text(query),
        ),
        Json::Object(query_json(providers, query, limit, exact)).field("limit"@) == Some(
            Json::Whole(limit as int),
        ),
        Json::Object(query_json(providers, query, limit, exact)).field("exact"@) == Some(
            Json::Bool(exact),
        ),
        Json::Object(query_json(providers, query, limit, exact)).list_at("providers"@).len()
            == providers.len(),
        forall|i: int|
            0 <= i < providers.len() ==> #[trigger] Json::Object(
                query_json(providers, query, limit, exact),
            ).list_at("providers"@)[i] == Json::Text(providers[i]),
{
    reveal_strlit("type");
    reveal_strlit("providers");
    reveal_strlit("query");
    reveal_strlit("limit");
    reveal_strlit("exact");
    let fields = query_json(providers, query, limit, exact);
    assert("type"@.len() == 4 && "providers"@.len() == 9 && "query"@.len() == 5);
    assert("query"@[0] == 'q' && "limit"@[0] == 'l' && "exact"@[0] == 'e');
    crate::json::a_field_is_found(fields, 0);
    crate::json::a_field_is_found(fields, 1);
    crate::json::a_field_is_found(fields, 2);
    crate::json::a_field_is_found(fields, 3);
    crate::json::a_field_is_found(fields, 4);
}

/// What a provider found comes under its name and as a whole, and ends nothing.
pub proof fn what_a_provider_found_is_read(
    r: Part,
    data: Json,
    provider: Seq<char>,
    items: Seq<Json>,
)
    requires
        is_part(r, data),
        data.field("type"@) == Some(Json::Text("query_batch"@)),
        data.field("provider"@) == Some(Json::Text(provider)),
        data.field("items"@) == Some(Json::List(items)),
    ensures
        r matches Part::Batch(name, found) && name@ == provider && models(found@) == items,
        batch_of(data) == seq![(provider, items)],
{
}

/// A stream is over once a response fails or says so, and not before.
pub proof fn a_stream_is_over_once_it_says_so(response: Json, data: Json)
    requires
        response.field("data"@) == Some(data),
    ensures
        response.field("ok"@) == Some(Json::Bool(false)) ==> ends_stream(response),
        response.field("ok"@) == Some(Json::Bool(true)) ==> (ends_stream(response)
            <==> data.field("type"@) == Some(Json::Text("done"@))),
{
}

/// A call of the API is answered as the daemon answered it, and without it only where it knows no API.
pub proof fn a_call_is_answered_by_the_daemon(
    r: Option<(bool, Value)>,
    response: Json,
    ok: bool,
    data: Json,
)
    requires
        is_api_answer(r, Some(response)),
        response.field("ok"@) == Some(Json::Bool(ok)),
        response.field("data"@) == Some(data),
    ensures
        ok ==> r is Some && (r->0).0 && (r->0).1@ == data,
        !ok && data.field("code"@) is Some ==> r is Some && !(r->0).0 && (r->0).1@ == data,
        !ok && data.field("code"@) is None ==> r is None,
{
}

} // verus!
