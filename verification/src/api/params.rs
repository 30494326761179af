//! The parameters of a call.

use vstd::prelude::*;
use vstd::string::*;

use crate::api::{ApiError, ErrorCode};
use crate::capture::{mode_named, Delay, Mode, Request};
use crate::config::{expand_in, is_expanded_in};
use crate::json::{models, Json, Value};
use crate::text::{lower_of, maybe, texts, trim_of};

verus! {

/// The text of a parameter, where it is given and not empty.
pub open spec fn given_text(params: Json, key: Seq<char>) -> Option<Seq<char>> {
    match params.text_at(key) {
        Some(s) => if s.len() > 0 {
            Some(s)
        } else {
            None
        },
        None => None,
    }
}

/// The text of a parameter, where it is given and not empty.
pub fn optional_text(params: &Value, key: &str) -> (r: Option<String>)
    ensures
        match r {
            Some(s) => given_text(params@, key@) == Some(s@),
            None => given_text(params@, key@) is None,
        },
{
    match params.text_at(key) {
        Some(s) => if s.as_str().is_empty() {
            None
        } else {
            Some(s)
        },
        None => None,
    }
}

/// What is said of a parameter that has to be given.
pub open spec fn missing(key: Seq<char>) -> Seq<char> {
    "missing required parameter \""@ + key + "\""@
}

/// The text of a parameter that has to be given.
pub fn param_str(params: &Value, key: &str) -> (r: Result<String, ApiError>)
    ensures
        match r {
            Ok(s) => given_text(params@, key@) == Some(s@),
            Err(error) => given_text(params@, key@) is None && error.is(
                ErrorCode::InvalidParams,
                missing(key@),
            ),
        },
{
    match optional_text(params, key) {
        Some(s) => Ok(s),
        None => {
            let mut message = "missing required parameter \"".to_owned();
            message.append(key);
            message.append("\"");
            Err(ApiError::new(ErrorCode::InvalidParams, message))
        },
    }
}

/// A parameter that is yes or no.
pub fn param_bool(params: &Value, key: &str) -> (r: Option<bool>)
    ensures
        r == params@.flag_at(key@),
{
    params.flag_at(key)
}

/// Whether every one of some values is a text.
pub open spec fn all_texts(items: Seq<Json>) -> bool {
    forall|i: int| 0 <= i < items.len() ==> (#[trigger] items[i]) is Text
}

/// Whether a list of texts is the parameter, or else why not.
pub open spec fn is_texts(r: Result<Vec<String>, ApiError>, params: Json, key: Seq<char>) -> bool {
    match params.inner(key) {
        Json::List(items) => if all_texts(items) {
            r is Ok && texts(r->Ok_0@) == items.map_values(|v: Json| v->Text_0)
        } else {
            r is Err && r->Err_0.is(
                ErrorCode::InvalidParams,
                "\""@ + key + "\" must contain only strings"@,
            )
        },
        _ => r is Err && r->Err_0.is(
            ErrorCode::InvalidParams,
            missing(key) + " (an array of strings)"@,
        ),
    }
}

/// A parameter that is a list of texts.
pub fn param_strings(params: &Value, key: &str) -> (r: Result<Vec<String>, ApiError>)
    ensures
        is_texts(r, params@, key@),
{
    let found = match params.get(key) {
        Some(v) => v.as_array(),
        None => None,
    };
    let items = match found {
        Some(items) => items,
        None => {
            let mut message = "missing required parameter \"".to_owned();
            message.append(key);
            message.append("\"");
            message.append(" (an array of strings)");
            return Err(ApiError::new(ErrorCode::InvalidParams, message));
        },
    };
    let ghost all = models(items@);
    let ghost wanted = all.map_values(|v: Json| v->Text_0);
    let mut out: Vec<String> = Vec::new();
    let mut i: usize = 0;
    while i < items.len()
        invariant
            all == models(items@),
            params@.inner(key@) == Json::List(all),
            wanted == all.map_values(|v: Json| v->Text_0),
            i <= items@.len(),
            forall|k: int| 0 <= k < i ==> (#[trigger] all[k]) is Text,
            texts(out@) == wanted.take(i as int),
        decreases items.len() - i,
    {
        let ghost before = texts(out@);
        assert(all[i as int] == items@[i as int]@);
        match items[i].as_str() {
            Some(s) => {
                out.push(s.to_owned());
                assert(texts(out@) =~= before.push(wanted[i as int]));
                assert(wanted.take(i + 1) =~= before.push(wanted[i as int]));
            },
            None => {
                let mut message = "\"".to_owned();
                message.append(key);
                message.append("\" must contain only strings");
                assert(!all_texts(all));
                return Err(ApiError::new(ErrorCode::InvalidParams, message));
            },
        }
        i += 1;
    }
    assert(wanted.take(i as int) =~= wanted);
    Ok(out)
}

/// Whether a path is the parameter with its tilde expanded.
pub open spec fn is_path(
    r: Option<String>,
    params: Json,
    key: Seq<char>,
    home: Option<Seq<char>>,
) -> bool {
    match given_text(params, key) {
        Some(raw) => r is Some && is_expanded_in(raw, home, (r->0)@),
        None => r is None,
    }
}

/// A path that does not have to be there yet: a directory for screenshots that is missing is made.
/// `home` is the home directory, where it is known.
pub fn optional_path(params: &Value, key: &str, home: Option<&str>) -> (r: Option<String>)
    ensures
        is_path(r, params@, key@, maybe(home)),
{
    match optional_text(params, key) {
        Some(raw) => Some(expand_in(raw.as_str(), home)),
        None => None,
    }
}

/// Whether a directory is the parameter, or else why not.
pub open spec fn is_directory(
    r: Result<Option<String>, ApiError>,
    params: Json,
    key: Seq<char>,
    home: Option<Seq<char>>,
    there: bool,
) -> bool {
    match given_text(params, key) {
        Some(raw) => if there {
            r is Ok && r->Ok_0 is Some && is_expanded_in(raw, home, (r->Ok_0->0)@)
        } else {
            &&& r is Err
            &&& exists|path: Seq<char>| #[trigger]
                is_expanded_in(raw, home, path) && r->Err_0.is(
                    ErrorCode::InvalidParams,
                    path + " is not a directory"@,
                )
        },
        None => r == Ok::<Option<String>, ApiError>(None),
    }
}

/// A directory that has to be there: a typing error would else make one and put files where nobody
/// looks. `home` is the home directory, where it is known, and `there` says whether the directory is
/// there.
pub fn optional_directory(params: &Value, key: &str, home: Option<&str>, there: bool) -> (r: Result<
    Option<String>,
    ApiError,
>)
    ensures
        is_directory(r, params@, key@, maybe(home), there),
{
    match optional_text(params, key) {
        Some(raw) => {
            let path = expand_in(raw.as_str(), home);
            if there {
                return Ok(Some(path));
            }
            let mut message = path.as_str().to_owned();
            message.append(" is not a directory");
            assert(is_expanded_in(raw@, maybe(home), path@));
            Err(ApiError::new(ErrorCode::InvalidParams, message))
        },
        None => Ok(None),
    }
}

/// What a flag is that is off where it is not given.
pub open spec fn off_unless(params: Json, key: Seq<char>) -> bool {
    params.flag_at(key) == Some(true)
}

/// Whether an optional text is the parameter.
pub open spec fn is_given(r: Option<String>, params: Json, key: Seq<char>) -> bool {
    match r {
        Some(s) => given_text(params, key) == Some(s@),
        None => given_text(params, key) is None,
    }
}

/// The mode that is asked for, where it can be read.
pub open spec fn asked_mode(params: Json) -> Option<Mode> {
    match given_text(params, "mode"@) {
        Some(name) => mode_named(lower_of(trim_of(name))),
        None => Some(Mode::Region),
    }
}

/// What is said of a mode that there is not.
pub open spec fn bad_mode(name: Seq<char>) -> Seq<char> {
    "unknown screenshot mode \""@ + lower_of(trim_of(name))
        + "\" (region, window, fullscreen, all)"@
}

/// Whether a request is what the parameters ask for, or else why not.
pub open spec fn is_capture(
    r: Result<Request, ApiError>,
    params: Json,
    delay: Result<Delay, String>,
    home: Option<Seq<char>>,
) -> bool {
    match asked_mode(params) {
        None => r is Err && r->Err_0.is(
            ErrorCode::InvalidParams,
            bad_mode(given_text(params, "mode"@)->0),
        ),
        Some(mode) => match delay {
            Err(message) => r is Err && r->Err_0.is(ErrorCode::InvalidParams, message@),
            Ok(wait) => {
                &&& r is Ok
                &&& is_request(r->Ok_0, params, mode, wait, home)
            },
        },
    }
}

/// Whether a request is what the parameters ask for.
pub open spec fn is_request(
    request: Request,
    params: Json,
    mode: Mode,
    delay: Delay,
    home: Option<Seq<char>>,
) -> bool {
    &&& request.mode == mode
    &&& is_given(request.output, params, "output"@)
    &&& request.select == off_unless(params, "select"@)
    &&& request.cursor == off_unless(params, "cursor"@)
    &&& request.delay == delay
    &&& request.copy == params.flag_at("copy"@)
    &&& request.save == params.flag_at("save"@)
    &&& request.notify == params.flag_at("notify"@)
    &&& is_path(request.directory, params, "directory"@, home)
    &&& is_given(request.language, params, "language"@)
}

/// What is to be captured. `delay` is the number of seconds to wait before that, or why it cannot
/// be had from the parameters, and `home` the home directory, where it is known.
pub fn capture_request(params: &Value, delay: Result<Delay, String>, home: Option<&str>) -> (r:
    Result<Request, ApiError>)
    ensures
        is_capture(r, params@, delay, maybe(home)),
{
    let mode = match optional_text(params, "mode") {
        Some(name) => match Mode::parse(name.as_str()) {
            Ok(mode) => mode,
            Err(message) => return Err(ApiError::new(ErrorCode::InvalidParams, message)),
        },
        None => Mode::default(),
    };
    let wait = match delay {
        Ok(wait) => wait,
        Err(message) => return Err(ApiError::new(ErrorCode::InvalidParams, message)),
    };
    Ok(
        Request {
            mode,
            output: optional_text(params, "output"),
            select: flag_or_off(params, "select"),
            cursor: flag_or_off(params, "cursor"),
            delay: wait,
            copy: param_bool(params, "copy"),
            save: param_bool(params, "save"),
            notify: param_bool(params, "notify"),
            directory: optional_path(params, "directory", home),
            language: optional_text(params, "language"),
        },
    )
}

/// A flag that is off where it is not given.
pub fn flag_or_off(params: &Value, key: &str) -> (r: bool)
    ensures
        r == off_unless(params@, key@),
{
    match params.flag_at(key) {
        Some(flag) => flag,
        None => false,
    }
}

/// A text that is given is taken as it is. One that is empty counts as not given, and so does anything
/// that is no text.
pub proof fn a_text_is_taken_as_given(params: Json, key: Seq<char>, s: Seq<char>)
    ensures
        params.field(key) == Some(Json::Text(s)) && s.len() > 0 ==> given_text(params, key) == Some(s),
        params.field(key) == Some(Json::Text(s)) && s.len() == 0 ==> given_text(params, key) is None,
        params.field(key) is None ==> given_text(params, key) is None,
        params.field(key) is Some && params.field(key)->0 !is Text ==> given_text(params, key) is None,
{
}

/// A list of texts is taken as it is: each text at its place. Where one of them is no text, or there is
/// no list, the call is refused.
pub proof fn a_list_of_texts_is_taken_as_given(
    r: Result<Vec<String>, ApiError>,
    params: Json,
    key: Seq<char>,
    items: Seq<Json>,
    i: int,
    s: Seq<char>,
)
    requires
        is_texts(r, params, key),
    ensures
        params.field(key) == Some(Json::List(items)) && 0 <= i < items.len() && items[i]
            == Json::Text(s) && r is Ok ==> r->Ok_0@.len() == items.len() && r->Ok_0@[i]@ == s,
        params.field(key) == Some(Json::List(items)) && 0 <= i < items.len() && items[i] !is Text
            ==> r is Err && r->Err_0.code == ErrorCode::InvalidParams,
        params.field(key) == Some(Json::List(items)) && (forall|k: int|
            0 <= k < items.len() ==> (#[trigger] items[k]) is Text) ==> r is Ok,
        params.field(key) is None ==> r is Err && r->Err_0.code == ErrorCode::InvalidParams,
{
    if r is Ok && params.field(key) == Some(Json::List(items)) && 0 <= i < items.len() && items[i]
        == Json::Text(s) {
        assert(texts(r->Ok_0@)[i] == items[i]->Text_0);
        assert(texts(r->Ok_0@).len() == items.len());
    }
}

/// What is asked for is what is captured: the mode, the output, and each of the flags. Where no mode is
/// named it is a region, and where a flag is not given the settings decide.
pub proof fn what_is_asked_for_is_captured(
    r: Result<Request, ApiError>,
    params: Json,
    wait: Delay,
    home: Option<Seq<char>>,
    output: Seq<char>,
    language: Seq<char>,
    directory: Seq<char>,
    on: bool,
)
    requires
        is_capture(r, params, Ok::<Delay, String>(wait), home),
        params.field("mode"@) is None,
        output.len() > 0,
        language.len() > 0,
    ensures
        r is Ok,
        r->Ok_0.mode == Mode::Region,
        r->Ok_0.delay == wait,
        params.field("output"@) == Some(Json::Text(output)) ==> r->Ok_0.output is Some && (
        r->Ok_0.output->0)@ == output,
        params.field("output"@) is None ==> r->Ok_0.output is None,
        params.field("language"@) == Some(Json::Text(language)) ==> r->Ok_0.language is Some && (
        r->Ok_0.language->0)@ == language,
        params.field("directory"@) == Some(Json::Text("/"@ + directory)) ==> r->Ok_0.directory is Some
            && (r->Ok_0.directory->0)@ == "/"@ + directory,
        params.field("directory"@) is None ==> r->Ok_0.directory is None,
        params.field("select"@) == Some(Json::Bool(on)) ==> r->Ok_0.select == on,
        params.field("select"@) is None ==> !r->Ok_0.select,
        params.field("cursor"@) == Some(Json::Bool(on)) ==> r->Ok_0.cursor == on,
        params.field("cursor"@) is None ==> !r->Ok_0.cursor,
        params.field("copy"@) == Some(Json::Bool(on)) ==> r->Ok_0.copy == Some(on),
        params.field("copy"@) is None ==> r->Ok_0.copy is None,
        params.field("save"@) == Some(Json::Bool(on)) ==> r->Ok_0.save == Some(on),
        params.field("save"@) is None ==> r->Ok_0.save is None,
        params.field("notify"@) == Some(Json::Bool(on)) ==> r->Ok_0.notify == Some(on),
        params.field("notify"@) is None ==> r->Ok_0.notify is None,
{
    reveal_strlit("/");
    assert(("/"@ + directory)[0] == '/');
}

/// A mode that there is not is refused, and so is a delay that cannot be read.
pub proof fn what_cannot_be_read_is_refused(
    r: Result<Request, ApiError>,
    params: Json,
    delay: Result<Delay, String>,
    home: Option<Seq<char>>,
    name: Seq<char>,
)
    requires
        is_capture(r, params, delay, home),
        name.len() > 0,
        params.field("mode"@) == Some(Json::Text(name)),
    ensures
        mode_named(lower_of(trim_of(name))) is None || delay is Err ==> r is Err
            && r->Err_0.code == ErrorCode::InvalidParams,
        mode_named(lower_of(trim_of(name))) is Some && delay is Ok ==> r is Ok && Some(r->Ok_0.mode)
            == mode_named(lower_of(trim_of(name))),
{
}

/// A directory that has to be there is taken where it is, and refused where it is not.
pub proof fn a_directory_has_to_be_there(
    r: Result<Option<String>, ApiError>,
    params: Json,
    key: Seq<char>,
    home: Option<Seq<char>>,
    there: bool,
    path: Seq<char>,
)
    requires
        is_directory(r, params, key, home, there),
    ensures
        params.field(key) is None ==> r is Ok && r->Ok_0 is None,
        params.field(key) == Some(Json::Text("/"@ + path)) && there ==> r is Ok && r->Ok_0 is Some && (
        r->Ok_0->0)@ == "/"@ + path,
        params.field(key) == Some(Json::Text("/"@ + path)) && !there ==> r is Err
            && r->Err_0.code == ErrorCode::InvalidParams,
{
    reveal_strlit("/");
    assert(("/"@ + path)[0] == '/');
}

/// A path is taken as it is given where it begins at the root, and within the home directory where it
/// begins with a tilde.
pub proof fn a_path_is_taken_as_given(
    r: Option<String>,
    params: Json,
    key: Seq<char>,
    home: Seq<char>,
    rest: Seq<char>,
)
    requires
        is_path(r, params, key, Some(home)),
    ensures
        params.field(key) is None ==> r is None,
        params.field(key) == Some(Json::Text("/"@ + rest)) ==> r is Some && (r->0)@ == "/"@ + rest,
        params.field(key) == Some(Json::Text("~/"@ + rest)) ==> r is Some && (r->0)@ == home + "/"@
            + rest,
{
    reveal_strlit("/");
    reveal_strlit("~/");
    assert(("/"@ + rest)[0] == '/');
    let path = "~/"@ + rest;
    assert(path[0] == '~' && path[1] == '/');
    assert(path.skip(1) =~= "/"@ + rest);
    assert(home + path.skip(1) =~= home + "/"@ + rest);
}

} // verus!
