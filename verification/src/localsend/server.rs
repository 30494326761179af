//! The receiving half: what a sender is answered, and what is kept of transfers.
//!
//! A transfer arrives in two steps. `prepare-upload` asks for permission and `upload` delivers the
//! bytes. Permission is the part that matters: nothing is written before someone has accepted.

use vstd::prelude::*;
use vstd::string::*;
use vstd::utf8::{
    encode_utf8, encode_utf8_decode_utf8, encode_utf8_valid_utf8, is_ascii_chars,
    is_ascii_chars_encode_utf8,
};

use crate::bytes::{
    bytes_at, first_bytes, first_bytes_is_unique, hex_lower, part, position,
};
use crate::json::{a_field_is_found, field_models, field_of, object, pair, text, Json, Value};
use crate::localsend::http::{answer_of, chunked_head, request_head, says_chunked};
use crate::localsend::{
    announcement, device_from_announcement, identity_fields, identity_json, is_announced, is_known,
    Device, PORT,
};
use crate::number::{decimal, parse_unsigned, unsigned_of, write_u64};
use crate::path::{
    extension_of, file_name, file_name_is_plain, file_name_of, is_plain_name, join_path,
    joined_path, last_of, last_of_is_last, split_extension, stem_of,
};
use crate::text::{
    a_line_ends_with_its_break, a_text_is_cut_at_the_first, a_word_ends_at_a_blank, after_first,
    ascii_lower, before_first, first_of, first_of_is_unique, is_white, lines, lines_of, lossy,
    lossy_of, same, same_but_case, same_ignoring_case, split, split_first, split_on, texts, trim,
    trim_of, trim_start_of, words, words_of,
};

verus! {

/// How many seconds a sender is left waiting for someone to accept.
pub const CONSENT_TIMEOUT_SECONDS: u64 = 120;

/// The size in bytes above which a file is refused.
pub const MAX_FILE_BYTES: u64 = 17_179_869_184;

/// How many bytes of headers are read before a request is refused.
pub const MAX_HEAD_BYTES: usize = 65536;

/// A file of a transfer.
#[derive(Debug)]
pub struct IncomingFile {
    pub id: String,
    pub name: String,
    pub size: u64,
    /// Set once the file has been written.
    pub saved_to: Option<String>,
}

/// A transfer that a device asked for.
#[derive(Debug)]
pub struct IncomingTransfer {
    pub session: String,
    /// The sending device's alias, as it described itself.
    pub device: String,
    pub fingerprint: String,
    pub files: Vec<IncomingFile>,
    /// Seconds since the epoch, so that a request can be aged out.
    pub requested_at: u64,
}

/// What has been decided about a transfer.
#[derive(Debug, Clone, Copy, PartialEq, Eq, Structural)]
pub enum Decision {
    Pending,
    Accepted,
    Declined,
}

/// A transfer and what has been decided about it.
#[derive(Debug)]
pub struct Session {
    pub transfer: IncomingTransfer,
    pub decision: Decision,
    /// Where the files go, where it is not the usual directory.
    pub directory: Option<String>,
    /// The id of each file and the token that was handed out for it.
    pub tokens: Vec<(String, String)>,
}

/// What the receiver knows.
#[derive(Debug)]
pub struct Receiver {
    pub sessions: Vec<Session>,
    pub directory: String,
    pub bound: u16,
    pub name: String,
    pub certificate: String,
    /// Files written since the start, newest first.
    pub files: Vec<IncomingFile>,
    /// Devices that were heard, each once.
    pub heard: Vec<Device>,
}

/// A request that was read.
#[derive(Debug)]
pub struct Request {
    pub method: String,
    pub path: String,
    pub query: Vec<(String, String)>,
    pub body: Vec<u8>,
}

/// What a request is answered.
#[derive(Debug)]
pub struct Reply {
    pub status: String,
    pub body: Value,
}

/// How far the reading of a request has come.
#[derive(Debug)]
pub enum Reading {
    /// More bytes are needed.
    More,
    /// The request is complete.
    Done(Request),
    /// The request cannot be read.
    Failed(String),
}

/// The bytes between the head and the body of a request.
pub open spec fn head_gap() -> Seq<u8> {
    seq![13u8, 10u8, 13u8, 10u8]
}

/// The words of the first line of a head.
pub open spec fn start_words(head: Seq<char>) -> Seq<Seq<char>> {
    if lines_of(head).len() == 0 {
        Seq::empty()
    } else {
        words_of(lines_of(head)[0])
    }
}

/// The word at an index, or nothing.
pub open spec fn word_at(words: Seq<Seq<char>>, i: int) -> Seq<char> {
    if 0 <= i < words.len() {
        words[i]
    } else {
        Seq::empty()
    }
}

/// The pairs of a query, those without an equals sign left out.
pub open spec fn query_pairs(parts: Seq<Seq<char>>) -> Seq<(Seq<char>, Seq<char>)>
    decreases parts.len(),
{
    if parts.len() == 0 {
        Seq::empty()
    } else {
        let before = query_pairs(parts.drop_last());
        let last = parts.last();
        if first_of(last, '=') < last.len() {
            before.push((before_first(last, '='), after_first(last, '=')))
        } else {
            before
        }
    }
}

/// The value of the first header of that name, whatever the case.
pub open spec fn header_value(lines: Seq<Seq<char>>, name: Seq<char>) -> Option<Seq<char>>
    decreases lines.len(),
{
    if lines.len() == 0 {
        None
    } else if first_of(lines[0], ':') < lines[0].len() && same_but_case(
        before_first(lines[0], ':'),
        name,
    ) {
        Some(after_first(lines[0], ':'))
    } else {
        header_value(lines.drop_first(), name)
    }
}

/// The header lines of a head.
pub open spec fn header_lines(head: Seq<char>) -> Seq<Seq<char>> {
    if lines_of(head).len() == 0 {
        Seq::empty()
    } else {
        lines_of(head).drop_first()
    }
}

/// The length of the body that a head announces.
pub open spec fn content_length(head: Seq<char>) -> nat {
    match header_value(header_lines(head), "content-length"@) {
        Some(value) => match unsigned_of(trim_of(value), usize::MAX as nat) {
            Some(n) => n,
            None => 0,
        },
        None => 0,
    }
}

/// The views of pairs of strings.
pub open spec fn pair_views(pairs: Seq<(String, String)>) -> Seq<(Seq<char>, Seq<char>)> {
    pairs.map_values(|p: (String, String)| (p.0@, p.1@))
}

/// The value that is given last for a key.
pub open spec fn last_value(pairs: Seq<(Seq<char>, Seq<char>)>, key: Seq<char>) -> Option<Seq<char>>
    decreases pairs.len(),
{
    if pairs.len() == 0 {
        None
    } else if pairs.last().0 == key {
        Some(pairs.last().1)
    } else {
        last_value(pairs.drop_last(), key)
    }
}

/// Whether `request` is what the head and the body say.
pub open spec fn is_request(request: Request, head: Seq<char>, body: Seq<u8>) -> bool {
    let target = word_at(start_words(head), 1);
    &&& request.method@ == word_at(start_words(head), 0)
    &&& request.path@ == before_first(target, '?')
    &&& pair_views(request.query@) == query_pairs(split_on(after_first(target, '?'), '&'))
    &&& request.body@ == body
}

/// The first `n` bytes, or all where there are fewer.
pub open spec fn at_most(body: Seq<u8>, n: nat) -> Seq<u8> {
    if body.len() <= n {
        body
    } else {
        body.take(n as int)
    }
}

/// Reads the pairs of a query.
fn parse_query(query: &str) -> (r: Vec<(String, String)>)
    ensures
        pair_views(r@) == query_pairs(split_on(query@, '&')),
{
    let parts = split(query, '&');
    let ghost all = texts(parts@);
    let mut out: Vec<(String, String)> = Vec::new();
    let mut i: usize = 0;
    assert(all.take(0) =~= Seq::empty());
    assert(pair_views(out@) =~= Seq::empty());
    while i < parts.len()
        invariant
            all == texts(parts@),
            i <= parts@.len(),
            pair_views(out@) == query_pairs(all.take(i as int)),
        decreases parts.len() - i,
    {
        assert(all.take(i + 1).drop_last() =~= all.take(i as int));
        let (key, value) = split_first(parts[i].as_str(), '=');
        if let Some(value) = value {
            let ghost before = pair_views(out@);
            out.push((key, value));
            assert(pair_views(out@) =~= before.push((key@, value@)));
        }
        i += 1;
    }
    assert(all.take(i as int) =~= all);
    out
}

/// The value of the first header of that name among `lines` from `from` on.
fn find_header(lines: &Vec<String>, name: &str) -> (r: Option<String>)
    ensures
        ({
            let headers = if lines@.len() == 0 {
                Seq::empty()
            } else {
                texts(lines@).drop_first()
            };
            match r {
                Some(value) => header_value(headers, name@) == Some(value@),
                None => header_value(headers, name@) is None,
            }
        }),
{
    if lines.len() == 0 {
        return None;
    }
    let ghost headers = texts(lines@).drop_first();
    let mut i: usize = 1;
    assert(headers.skip(0) =~= headers);
    while i < lines.len()
        invariant
            1 <= i <= lines@.len(),
            headers == texts(lines@).drop_first(),
            header_value(headers, name@) == header_value(headers.skip(i - 1), name@),
        decreases lines.len() - i,
    {
        let ghost rest = headers.skip(i - 1);
        assert(rest[0] == lines@[i as int]@);
        assert(rest.drop_first() =~= headers.skip(i as int));
        let (key, value) = split_first(lines[i].as_str(), ':');
        if let Some(value) = value {
            if same_ignoring_case(key.as_str(), name) {
                return Some(value);
            }
        }
        i += 1;
    }
    None
}

/// The length of the body that a head announces.
fn read_length(head: &str) -> (r: usize)
    ensures
        r == content_length(head@),
{
    let ls = lines(head);
    assert(texts(ls@).len() == ls@.len());
    match find_header(&ls, "content-length") {
        Some(value) => match parse_unsigned(trim(value.as_str()).as_str(), usize::MAX as u64) {
            Some(n) => n as usize,
            None => 0,
        },
        None => 0,
    }
}

/// The words of the first line of a head.
fn read_start(head: &str) -> (r: (String, String))
    ensures
        r.0@ == word_at(start_words(head@), 0),
        r.1@ == word_at(start_words(head@), 1),
{
    let ls = lines(head);
    assert(texts(ls@).len() == ls@.len());
    if ls.len() == 0 {
        return (String::new(), String::new());
    }
    assert(texts(ls@)[0] == ls@[0]@);
    let ws = words(ls[0].as_str());
    assert(texts(ws@).len() == ws@.len());
    let method = if ws.len() > 0 {
        assert(texts(ws@)[0] == ws@[0]@);
        ws[0].clone()
    } else {
        String::new()
    };
    let target = if ws.len() > 1 {
        assert(texts(ws@)[1] == ws@[1]@);
        ws[1].clone()
    } else {
        String::new()
    };
    (method, target)
}

/// What the bytes that have arrived so far come to.
pub open spec fn is_reading(r: Reading, raw: Seq<u8>, closed: bool) -> bool {
    match first_bytes(raw, head_gap()) {
        None => if closed {
            r matches Reading::Failed(m) && m@ == "the sender closed the connection"@
        } else if raw.len() > MAX_HEAD_BYTES {
            r matches Reading::Failed(m) && m@ == "request headers were unreasonably large"@
        } else {
            r is More
        },
        Some(e) => {
            let head = lossy_of(raw.take(e));
            let body = raw.skip(e + 4);
            if body.len() < content_length(head) && !closed {
                r is More
            } else {
                r matches Reading::Done(request) && is_request(
                    request,
                    head,
                    at_most(body, content_length(head)),
                )
            }
        },
    }
}

/// What the bytes that have arrived so far come to. `closed` says that no more will arrive.
///
/// The announced length says where the body ends: nothing beyond it is kept, and a body that the
/// sender cuts short is kept as far as it came.
pub fn read_request(raw: &[u8], closed: bool) -> (r: Reading)
    ensures
        is_reading(r, raw@, closed),
{
    let gap: Vec<u8> = vec![13u8, 10u8, 13u8, 10u8];
    assert(gap@ =~= head_gap());
    let n: usize = raw.len();
    match position(raw, &gap) {
        None => {
            if closed {
                Reading::Failed("the sender closed the connection".to_owned())
            } else if n > MAX_HEAD_BYTES {
                Reading::Failed("request headers were unreasonably large".to_owned())
            } else {
                Reading::More
            }
        },
        Some(e) => {
            let head = lossy(&part(raw, 0, e));
            assert(raw@.subrange(0, e as int) =~= raw@.take(e as int));
            let length: usize = read_length(head.as_str());
            let start: usize = e + 4;
            let ghost body = raw@.skip(start as int);
            if n - start < length && !closed {
                return Reading::More;
            }
            let end: usize = if n - start <= length { n } else { start + length };
            let kept = part(raw, start, end);
            assert(kept@ =~= at_most(body, length as nat));
            let (method, target) = read_start(head.as_str());
            let (path, query) = split_first(target.as_str(), '?');
            let query_text = match query {
                Some(query) => query,
                None => String::new(),
            };
            let pairs = parse_query(query_text.as_str());
            Reading::Done(Request { method, path, query: pairs, body: kept })
        },
    }
}

impl Request {
    /// The value that the query gives last for a key.
    pub fn parameter(&self, key: &str) -> (r: Option<String>)
        ensures
            match r {
                Some(value) => last_value(pair_views(self.query@), key@) == Some(value@),
                None => last_value(pair_views(self.query@), key@) is None,
            },
    {
        let ghost all = pair_views(self.query@);
        let mut i: usize = self.query.len();
        assert(all.take(i as int) =~= all);
        while i > 0
            invariant
                i <= self.query@.len(),
                all == pair_views(self.query@),
                last_value(all, key@) == last_value(all.take(i as int), key@),
            decreases i,
        {
            assert(all.take(i as int).last() == (self.query@[i - 1].0@, self.query@[i - 1].1@));
            assert(all.take(i as int).drop_last() =~= all.take(i - 1));
            if same(self.query[i - 1].0.as_str(), key) {
                return Some(self.query[i - 1].1.clone());
            }
            i -= 1;
        }
        None
    }
}

/// Bytes that depend on chance.
///
/// `ring::rand::SystemRandom::fill` fills a row of bytes from the generator of the system. What it
/// fills in is not said; the row keeps its length.
#[verifier::external_body]
fn random_bytes(count: usize) -> (r: Vec<u8>)
    ensures
        r@.len() == count,
{
    let mut bytes = vec![0u8; count];
    let _ = ring::rand::SecureRandom::fill(&ring::rand::SystemRandom::new(), &mut bytes);
    bytes
}

/// Whether every character is a hexadecimal digit in its small form.
pub open spec fn all_hex(s: Seq<char>) -> bool {
    forall|i: int|
        0 <= i < s.len() ==> ('0' <= #[trigger] s[i] <= '9') || ('a' <= s[i] <= 'f')
}

/// A token that nobody can guess within a session.
pub fn random_token() -> (r: String)
    ensures
        r@.len() == 32,
        all_hex(r@),
{
    hex_lower(&random_bytes(16))
}

/// The index of the session with that id, or the number of sessions where there is none.
pub open spec fn session_index(sessions: Seq<Session>, id: Seq<char>) -> int
    decreases sessions.len(),
{
    if sessions.len() == 0 || sessions[0].transfer.session@ == id {
        0
    } else {
        1 + session_index(sessions.drop_first(), id)
    }
}

/// `session_index` is the first index at which a session has the id.
pub proof fn session_index_is_first(sessions: Seq<Session>, id: Seq<char>)
    ensures
        0 <= session_index(sessions, id) <= sessions.len(),
        session_index(sessions, id) < sessions.len() ==> sessions[session_index(
            sessions,
            id,
        )].transfer.session@ == id,
        forall|j: int|
            0 <= j < session_index(sessions, id) ==> (#[trigger] sessions[j]).transfer.session@
                != id,
    decreases sessions.len(),
{
    if sessions.len() > 0 && sessions[0].transfer.session@ != id {
        session_index_is_first(sessions.drop_first(), id);
        assert forall|j: int| 0 <= j < session_index(sessions, id) implies (
        #[trigger] sessions[j]).transfer.session@ != id by {
            if j > 0 {
                assert(sessions.drop_first()[j - 1] == sessions[j]);
            }
        }
    }
}

/// Whether a transfer waits for a decision.
pub open spec fn is_busy(sessions: Seq<Session>) -> bool {
    exists|i: int| 0 <= i < sessions.len() && (#[trigger] sessions[i]).decision == Decision::Pending
}

/// Whether the sessions have different ids and at most one of them waits for a decision.
pub open spec fn sessions_wf(sessions: Seq<Session>) -> bool {
    &&& forall|i: int, j: int|
        0 <= i < j < sessions.len() ==> (#[trigger] sessions[i]).transfer.session@ != (
        #[trigger] sessions[j]).transfer.session@
    &&& forall|i: int, j: int|
        0 <= i < j < sessions.len() ==> (#[trigger] sessions[i]).decision != Decision::Pending || (
        #[trigger] sessions[j]).decision != Decision::Pending
}

/// Whether it is known of each file where it was written.
pub open spec fn all_saved(files: Seq<IncomingFile>) -> bool {
    forall|i: int| 0 <= i < files.len() ==> (#[trigger] files[i]).saved_to is Some
}

/// What is said of a session that nobody asked for.
pub open spec fn no_session(id: Seq<char>) -> Seq<char> {
    "no transfer waiting with session \""@ + id + "\""@
}

/// Whether the reply has that status and that body.
pub open spec fn is_reply(reply: Reply, status: Seq<char>, body: Json) -> bool {
    reply.status@ == status && reply.body@ == body
}

/// A body that holds only a message.
pub open spec fn message_json(message: Seq<char>) -> Json {
    Json::Object(seq![("message"@, Json::Text(message))])
}

/// A reply that holds only a message.
pub fn message_reply(status: &str, message: &str) -> (r: Reply)
    ensures
        is_reply(r, status@, message_json(message@)),
{
    let fields = vec![pair("message", text(message))];
    assert(field_models(fields@) =~= seq![("message"@, Json::Text(message@))]);
    Reply { status: status.to_owned(), body: object(fields) }
}

/// A reply that says no more than that all is well.
fn empty_reply() -> (r: Reply)
    ensures
        is_reply(r, "200 OK"@, Json::Object(Seq::empty())),
{
    let fields: Vec<(String, Value)> = Vec::new();
    assert(field_models(fields@) =~= Seq::empty());
    Reply { status: "200 OK".to_owned(), body: object(fields) }
}

impl IncomingFile {
    /// A file that is described in the same way.
    pub fn copy(&self) -> (r: IncomingFile)
        ensures
            r == *self,
    {
        IncomingFile {
            id: self.id.clone(),
            name: self.name.clone(),
            size: self.size,
            saved_to: match &self.saved_to {
                Some(path) => Some(path.clone()),
                None => None,
            },
        }
    }
}

/// The same files in the same order.
pub fn copy_files(files: &Vec<IncomingFile>) -> (r: Vec<IncomingFile>)
    ensures
        r@ == files@,
{
    let mut out: Vec<IncomingFile> = Vec::new();
    let mut i: usize = 0;
    while i < files.len()
        invariant
            i <= files@.len(),
            out@ =~= files@.take(i as int),
        decreases files.len() - i,
    {
        out.push(files[i].copy());
        i += 1;
    }
    assert(out@ =~= files@);
    out
}

impl IncomingTransfer {
    /// Whether the two describe the same transfer.
    pub open spec fn same_as(self, other: IncomingTransfer) -> bool {
        &&& self.session == other.session
        &&& self.device == other.device
        &&& self.fingerprint == other.fingerprint
        &&& self.files@ == other.files@
        &&& self.requested_at == other.requested_at
    }

    /// A transfer that is described in the same way.
    pub fn copy(&self) -> (r: IncomingTransfer)
        ensures
            r.same_as(*self),
    {
        IncomingTransfer {
            session: self.session.clone(),
            device: self.device.clone(),
            fingerprint: self.fingerprint.clone(),
            files: copy_files(&self.files),
            requested_at: self.requested_at,
        }
    }
}

/// The sessions that wait for a decision.
pub open spec fn waiting(sessions: Seq<Session>) -> Seq<Session> {
    sessions.filter(|s: Session| s.decision == Decision::Pending)
}

impl Receiver {
    /// A receiver that has heard nothing yet.
    pub fn new(name: String, directory: String, bound: u16, certificate: String) -> (r: Receiver)
        ensures
            r.wf(),
            r.sessions@.len() == 0,
            r.files@.len() == 0,
            r.heard@.len() == 0,
            r.name == name,
            r.directory == directory,
            r.bound == bound,
            r.certificate == certificate,
    {
        Receiver {
            sessions: Vec::new(),
            directory,
            bound,
            name,
            certificate,
            files: Vec::new(),
            heard: Vec::new(),
        }
    }

    /// Whether the sessions have different ids, at most one waits for a decision, and it is known
    /// of each file that was received where it was written.
    pub open spec fn wf(&self) -> bool {
        sessions_wf(self.sessions@) && all_saved(self.files@)
    }

    /// The port that was bound.
    pub fn port(&self) -> (r: u16)
        ensures
            r == self.bound,
    {
        self.bound
    }

    /// The fingerprint of the certificate.
    pub fn fingerprint(&self) -> (r: String)
        ensures
            r == self.certificate,
    {
        self.certificate.clone()
    }

    /// The name under which this machine is announced.
    pub fn alias(&self) -> (r: String)
        ensures
            r == self.name,
    {
        self.name.clone()
    }

    /// Where files go unless a transfer was accepted elsewhere.
    pub fn download_dir(&self) -> (r: String)
        ensures
            r == self.directory,
    {
        self.directory.clone()
    }

    /// Files written since the start, newest first, each with the path it was written to.
    pub fn received(&self) -> (r: Vec<IncomingFile>)
        requires
            self.wf(),
        ensures
            r@ == self.files@,
            all_saved(r@),
    {
        copy_files(&self.files)
    }

    /// The devices that were heard.
    pub fn seen(&self) -> (r: Vec<Device>)
        ensures
            r@ == self.heard@,
    {
        let mut out: Vec<Device> = Vec::new();
        let mut i: usize = 0;
        while i < self.heard.len()
            invariant
                i <= self.heard@.len(),
                out@ =~= self.heard@.take(i as int),
            decreases self.heard.len() - i,
        {
            out.push(self.heard[i].copy());
            i += 1;
        }
        assert(out@ =~= self.heard@);
        out
    }

    /// The transfers that wait for a decision.
    pub fn pending(&self) -> (r: Vec<IncomingTransfer>)
        ensures
            r@.len() == waiting(self.sessions@).len(),
            forall|i: int|
                0 <= i < r@.len() ==> (#[trigger] r@[i]).same_as(
                    waiting(self.sessions@)[i].transfer,
                ),
    {
        let mut out: Vec<IncomingTransfer> = Vec::new();
        let ghost keep = |s: Session| s.decision == Decision::Pending;
        let mut i: usize = 0;
        reveal(Seq::filter);
        assert(self.sessions@.take(0).filter(keep) =~= Seq::empty());
        while i < self.sessions.len()
            invariant
                i <= self.sessions@.len(),
                keep == (|s: Session| s.decision == Decision::Pending),
                out@.len() == self.sessions@.take(i as int).filter(keep).len(),
                forall|k: int|
                    0 <= k < out@.len() ==> (#[trigger] out@[k]).same_as(
                        self.sessions@.take(i as int).filter(keep)[k].transfer,
                    ),
            decreases self.sessions.len() - i,
        {
            reveal(Seq::filter);
            assert(self.sessions@.take(i + 1).drop_last() =~= self.sessions@.take(i as int));
            if self.sessions[i].decision == Decision::Pending {
                out.push(self.sessions[i].transfer.copy());
            }
            i += 1;
        }
        assert(self.sessions@.take(i as int) =~= self.sessions@);
        out
    }

    /// The index of a session.
    fn locate(&self, id: &str) -> (r: usize)
        ensures
            r == session_index(self.sessions@, id@),
            r <= self.sessions@.len(),
    {
        let mut i: usize = 0;
        assert(self.sessions@.skip(0) =~= self.sessions@);
        while i < self.sessions.len()
            invariant
                i <= self.sessions@.len(),
                session_index(self.sessions@, id@) == i + session_index(
                    self.sessions@.skip(i as int),
                    id@,
                ),
            decreases self.sessions.len() - i,
        {
            assert(self.sessions@.skip(i as int).drop_first() =~= self.sessions@.skip(i + 1));
            if same(self.sessions[i].transfer.session.as_str(), id) {
                return i;
            }
            i += 1;
        }
        i
    }

    /// Whether a transfer waits for a decision.
    fn busy(&self) -> (r: bool)
        ensures
            r == is_busy(self.sessions@),
    {
        let mut i: usize = 0;
        while i < self.sessions.len()
            invariant
                i <= self.sessions@.len(),
                forall|k: int|
                    0 <= k < i ==> (#[trigger] self.sessions@[k]).decision != Decision::Pending,
            decreases self.sessions.len() - i,
        {
            if self.sessions[i].decision == Decision::Pending {
                return true;
            }
            i += 1;
        }
        false
    }

    /// Answers a transfer that waits. A transfer is answered once.
    fn decide(&mut self, session: &str, decision: Decision, directory: Option<String>) -> (r: Result<
        (),
        String,
    >)
        requires
            old(self).wf(),
            decision != Decision::Pending,
        ensures
            decided(*old(self), *final(self), session@, decision, directory, r),
            final(self).wf(),
    {
        proof {
            session_index_is_first(self.sessions@, session@);
        }
        let i: usize = self.locate(session);
        if i >= self.sessions.len() {
            let mut message = "no transfer waiting with session \"".to_owned();
            message.append(session);
            message.append("\"");
            return Err(message);
        }
        if self.sessions[i].decision != Decision::Pending {
            return Err("that transfer has already been answered".to_owned());
        }
        self.sessions[i].decision = decision;
        self.sessions[i].directory = directory;
        assert(self.sessions@ =~= old(self).sessions@.update(
            i as int,
            Session { decision, directory, ..old(self).sessions@[i as int] },
        ));
        Ok(())
    }

    /// Accepts a transfer, into another directory where one is given.
    pub fn accept(&mut self, session: &str, directory: Option<String>) -> (r: Result<(), String>)
        requires
            old(self).wf(),
        ensures
            decided(*old(self), *final(self), session@, Decision::Accepted, directory, r),
            final(self).wf(),
    {
        self.decide(session, Decision::Accepted, directory)
    }

    /// Declines a transfer.
    pub fn decline(&mut self, session: &str) -> (r: Result<(), String>)
        requires
            old(self).wf(),
        ensures
            decided(*old(self), *final(self), session@, Decision::Declined, None, r),
            final(self).wf(),
    {
        self.decide(session, Decision::Declined, None)
    }
}

/// The sessions after an answer to one of them: unchanged where there is no such session or it has
/// been answered.
pub open spec fn sessions_decided(
    sessions: Seq<Session>,
    session: Seq<char>,
    decision: Decision,
    directory: Option<String>,
) -> Seq<Session> {
    let i = session_index(sessions, session);
    if i < sessions.len() && sessions[i].decision == Decision::Pending {
        sessions.update(i, Session { decision, directory, ..sessions[i] })
    } else {
        sessions
    }
}

/// What answering the transfer of a session does: nothing where there is no such transfer or it
/// has been answered, and otherwise the decision is set and all else stays.
pub open spec fn decided(
    before: Receiver,
    after: Receiver,
    session: Seq<char>,
    decision: Decision,
    directory: Option<String>,
    r: Result<(), String>,
) -> bool {
    let i = session_index(before.sessions@, session);
    &&& after.sessions@ == sessions_decided(before.sessions@, session, decision, directory)
    &&& after == (Receiver { sessions: after.sessions, ..before })
    &&& if i >= before.sessions@.len() {
        after == before && (r matches Err(m) && m@ == no_session(session))
    } else if before.sessions@[i].decision != Decision::Pending {
        after == before && (r matches Err(m) && m@ == "that transfer has already been answered"@)
    } else {
        r is Ok
    }
}

/// The size that an offered file is said to have.
pub open spec fn offered_size(entry: Json) -> int {
    match entry.whole_at("size"@, 0, u64::MAX as int) {
        Some(n) => n,
        None => 0,
    }
}

/// Whether `file` is what an entry of an offer describes.
pub open spec fn is_offered(file: IncomingFile, entry: (Seq<char>, Json)) -> bool {
    &&& file.id@ == entry.0
    &&& file.name@ == (match entry.1.text_at("fileName"@) {
        Some(name) => name,
        None => "unnamed"@,
    })
    &&& file.size == offered_size(entry.1)
    &&& file.saved_to is None
}

/// The entries of the files that are offered.
pub open spec fn offered_entries(payload: Json) -> Option<Seq<(Seq<char>, Json)>> {
    match payload.field("files"@) {
        Some(Json::Object(entries)) => Some(entries),
        _ => None,
    }
}

/// Whether any of the files is said to be too large.
pub open spec fn any_too_large(entries: Seq<(Seq<char>, Json)>) -> bool {
    exists|i: int| 0 <= i < entries.len() && offered_size(#[trigger] entries[i].1) > MAX_FILE_BYTES
}

/// Why an offer is refused at once, as a status and a message.
pub open spec fn offer_refusal(payload: Option<Json>, busy: bool) -> Option<(Seq<char>, Seq<char>)> {
    match payload {
        None => Some(("400 Bad Request"@, "unreadable request"@)),
        Some(value) => match offered_entries(value) {
            None => Some(("400 Bad Request"@, "no files offered"@)),
            Some(entries) => if any_too_large(entries) {
                Some(("400 Bad Request"@, "file too large"@))
            } else if entries.len() == 0 {
                Some(("400 Bad Request"@, "no files offered"@))
            } else if busy {
                Some(("409 Conflict"@, "Blocked by another session"@))
            } else {
                None
            },
        },
    }
}

/// Whether `transfer` is the one that the payload offers.
pub open spec fn is_offered_transfer(
    transfer: IncomingTransfer,
    payload: Json,
    session: Seq<char>,
    now: u64,
) -> bool {
    let info = match payload.field("info"@) {
        Some(info) => info,
        None => Json::Null,
    };
    let entries = offered_entries(payload)->0;
    &&& offered_entries(payload) is Some
    &&& transfer.session@ == session
    &&& transfer.device@ == (match info.text_at("alias"@) {
        Some(name) => name,
        None => "Unknown device"@,
    })
    &&& transfer.fingerprint@ == info.text_or_empty("fingerprint"@)
    &&& transfer.requested_at == now
    &&& transfer.files@.len() == entries.len()
    &&& forall|i: int|
        0 <= i < entries.len() ==> is_offered(#[trigger] transfer.files@[i], entries[i])
}

/// The sessions with one more, in place of another that has the same id.
pub open spec fn with_session(sessions: Seq<Session>, session: Session) -> Seq<Session> {
    let i = session_index(sessions, session.transfer.session@);
    if i < sessions.len() {
        sessions.update(i, session)
    } else {
        sessions.push(session)
    }
}

/// Whether the session is one that waits, for the transfer that the payload offers.
pub open spec fn is_new_session(s: Session, payload: Json, session: Seq<char>, now: u64) -> bool {
    &&& is_offered_transfer(s.transfer, payload, session, now)
    &&& s.decision == Decision::Pending
    &&& s.directory is None
    &&& s.tokens@.len() == 0
}

/// Whether the sessions after an offer are those before and the one that now waits.
pub open spec fn taken_up(
    before: Seq<Session>,
    after: Seq<Session>,
    payload: Json,
    session: Seq<char>,
    now: u64,
) -> bool {
    exists|s: Session| #[trigger]
        is_new_session(s, payload, session, now) && after == with_session(before, s)
}

/// What was sent, where it could be read.
pub open spec fn payload_of(payload: Option<&Value>) -> Option<Json> {
    match payload {
        Some(value) => Some(value@),
        None => None,
    }
}

/// What an offer does: it is refused and nothing changes, or it is taken up and waits.
pub open spec fn offered(
    before: Receiver,
    after: Receiver,
    payload: Option<Json>,
    session: Seq<char>,
    now: u64,
    r: Option<Reply>,
) -> bool {
    match offer_refusal(payload, is_busy(before.sessions@)) {
        Some((status, message)) => after == before && (r matches Some(reply) && is_reply(
            reply,
            status,
            message_json(message),
        )),
        None => {
            &&& r is None
            &&& taken_up(before.sessions@, after.sessions@, payload->0, session, now)
            &&& after == (Receiver { sessions: after.sessions, ..before })
        },
    }
}

/// The offered files, unless one of them is too large.
fn offered_files(entries: &Vec<(String, Value)>) -> (r: Option<Vec<IncomingFile>>)
    ensures
        match r {
            Some(files) => !any_too_large(field_models(entries@)) && files@.len() == entries@.len()
                && forall|i: int|
                0 <= i < files@.len() ==> is_offered(
                    #[trigger] files@[i],
                    field_models(entries@)[i],
                ),
            None => any_too_large(field_models(entries@)),
        },
{
    let ghost all = field_models(entries@);
    let mut files: Vec<IncomingFile> = Vec::new();
    let mut i: usize = 0;
    while i < entries.len()
        invariant
            all == field_models(entries@),
            i <= entries@.len(),
            files@.len() == i,
            forall|k: int| 0 <= k < i ==> is_offered(#[trigger] files@[k], all[k]),
            forall|k: int| 0 <= k < i ==> offered_size(#[trigger] all[k].1) <= MAX_FILE_BYTES,
        decreases entries.len() - i,
    {
        let entry = &entries[i].1;
        assert(all[i as int] == (entries@[i as int].0@, entry@));
        let size: u64 = match entry.u64_at("size") {
            Some(size) => size,
            None => 0,
        };
        if size > MAX_FILE_BYTES {
            assert(offered_size(all[i as int].1) > MAX_FILE_BYTES);
            return None;
        }
        let name = match entry.text_at("fileName") {
            Some(name) => name,
            None => "unnamed".to_owned(),
        };
        files.push(IncomingFile { id: entries[i].0.clone(), name, size, saved_to: None });
        i += 1;
    }
    Some(files)
}

impl Receiver {
    /// Takes up an offer under the given session id, or refuses it at once. While one transfer
    /// waits for a decision a second sender is told to try again. A transfer that is taken up
    /// waits; nothing else changes.
    pub fn prepare_upload(&mut self, payload: Option<&Value>, session: String, now: u64) -> (r: Option<Reply>)
        requires
            old(self).wf(),
        ensures
            final(self).wf(),
            offered(*old(self), *final(self), payload_of(payload), session@, now, r),
    {
        let value = match payload {
            Some(value) => value,
            None => return Some(message_reply("400 Bad Request", "unreadable request")),
        };
        let (device, fingerprint) = match value.get("info") {
            Some(info) => (
                match info.text_at("alias") {
                    Some(name) => name,
                    None => "Unknown device".to_owned(),
                },
                info.text_or_empty("fingerprint"),
            ),
            None => ("Unknown device".to_owned(), String::new()),
        };
        let entries = match value.get("files") {
            Some(files) => match files.as_object() {
                Some(entries) => entries,
                None => return Some(message_reply("400 Bad Request", "no files offered")),
            },
            None => return Some(message_reply("400 Bad Request", "no files offered")),
        };
        let files = match offered_files(entries) {
            Some(files) => files,
            None => return Some(message_reply("400 Bad Request", "file too large")),
        };
        if files.len() == 0 {
            return Some(message_reply("400 Bad Request", "no files offered"));
        }
        if self.busy() {
            return Some(message_reply("409 Conflict", "Blocked by another session"));
        }
        let i: usize = self.locate(session.as_str());
        proof {
            session_index_is_first(self.sessions@, session@);
        }
        let added = Session {
            transfer: IncomingTransfer {
                session,
                device,
                fingerprint,
                files,
                requested_at: now,
            },
            decision: Decision::Pending,
            directory: None,
            tokens: Vec::new(),
        };
        let ghost s = added;
        assert(is_new_session(s, value@, session@, now));
        if i < self.sessions.len() {
            self.sessions[i] = added;
        } else {
            self.sessions.push(added);
        }
        assert(self.sessions@ =~= with_session(old(self).sessions@, s));
        None
    }

    /// What has been decided about a session; one that is gone counts as declined.
    pub fn decision(&self, session: &str) -> (r: Decision)
        ensures
            r == decision_of(self.sessions@, session@),
    {
        let i: usize = self.locate(session);
        if i < self.sessions.len() {
            self.sessions[i].decision
        } else {
            Decision::Declined
        }
    }
}

/// What has been decided about a session; one that is gone counts as declined.
pub open spec fn decision_of(sessions: Seq<Session>, session: Seq<char>) -> Decision {
    let i = session_index(sessions, session);
    if 0 <= i < sessions.len() {
        sessions[i].decision
    } else {
        Decision::Declined
    }
}

/// What a sender that waits is told now, if anything. Silence until the deadline is a refusal.
pub fn outcome(current: Decision, expired: bool) -> (r: Option<Decision>)
    ensures
        r == (if current != Decision::Pending {
            Some(current)
        } else if expired {
            Some(Decision::Declined)
        } else {
            None
        }),
        r == Some(Decision::Accepted) <==> current == Decision::Accepted,
        r is None <==> current == Decision::Pending && !expired,
        r != Some(Decision::Pending),
{
    if current != Decision::Pending {
        Some(current)
    } else if expired {
        Some(Decision::Declined)
    } else {
        None
    }
}

/// Whether each file has one token, under its id.
pub open spec fn tokens_fit(tokens: Seq<(String, String)>, files: Seq<IncomingFile>) -> bool {
    tokens.len() == files.len() && forall|i: int|
        0 <= i < files.len() ==> (#[trigger] tokens[i]).0@ == files[i].id@
}

/// How tokens stand in a reply.
pub open spec fn tokens_json(tokens: Seq<(String, String)>) -> Json {
    Json::Object(tokens.map_values(|t: (String, String)| (t.0@, Json::Text(t.1@))))
}

/// The reply to a transfer that was accepted.
pub open spec fn accepted_json(session: Seq<char>, tokens: Seq<(String, String)>) -> Json {
    Json::Object(seq![("files"@, tokens_json(tokens)), ("sessionId"@, Json::Text(session))])
}

/// The tokens as a value.
fn tokens_value(tokens: &Vec<(String, String)>) -> (r: Value)
    ensures
        r@ == tokens_json(tokens@),
{
    let ghost all = tokens_json(tokens@)->Object_0;
    let mut fields: Vec<(String, Value)> = Vec::new();
    let mut i: usize = 0;
    while i < tokens.len()
        invariant
            all == tokens_json(tokens@)->Object_0,
            i <= tokens@.len(),
            field_models(fields@) =~= all.take(i as int),
        decreases tokens.len() - i,
    {
        let ghost before = field_models(fields@);
        fields.push(pair(tokens[i].0.as_str(), text(tokens[i].1.as_str())));
        assert(field_models(fields@) =~= before.push(all[i as int]));
        i += 1;
    }
    assert(field_models(fields@) =~= all);
    object(fields)
}

impl Receiver {
    /// Ends the wait of a sender. An accepted transfer gets the given tokens, one for each file,
    /// and any other is dropped.
    pub fn conclude(&mut self, session: &str, decision: Decision, tokens: Vec<(String, String)>) -> (r:
        Reply)
        requires
            old(self).wf(),
            decision == Decision::Accepted ==> ({
                let i = session_index(old(self).sessions@, session@);
                i < old(self).sessions@.len() && tokens_fit(
                    tokens@,
                    old(self).sessions@[i].transfer.files@,
                )
            }),
        ensures
            final(self).wf(),
            concluded(*old(self), *final(self), session@, decision, tokens, r),
    {
        proof {
            session_index_is_first(self.sessions@, session@);
        }
        let i: usize = self.locate(session);
        if decision == Decision::Accepted {
            let fields = vec![pair("files", tokens_value(&tokens)), pair("sessionId", text(session))];
            assert(field_models(fields@) =~= accepted_json(session@, tokens@)->Object_0);
            self.sessions[i].tokens = tokens;
            assert(self.sessions@ =~= old(self).sessions@.update(
                i as int,
                Session { tokens, ..old(self).sessions@[i as int] },
            ));
            Reply { status: "200 OK".to_owned(), body: object(fields) }
        } else {
            if i < self.sessions.len() {
                self.sessions.remove(i);
            }
            message_reply("403 Forbidden", "Declined")
        }
    }

    /// Ends the wait of a sender, with a fresh token for each file where the transfer was
    /// accepted.
    pub fn settle(&mut self, session: &str, decision: Decision) -> (r: Reply)
        requires
            old(self).wf(),
        ensures
            final(self).wf(),
            exists|tokens: Vec<(String, String)>, outcome: Decision|
                {
                    let i = session_index(old(self).sessions@, session@);
                    let known = i < old(self).sessions@.len();
                    &&& outcome == (if decision == Decision::Accepted && known {
                        Decision::Accepted
                    } else {
                        Decision::Declined
                    })
                    &&& outcome == Decision::Accepted ==> tokens_fit(
                        tokens@,
                        old(self).sessions@[i].transfer.files@,
                    ) && forall|k: int|
                        0 <= k < tokens@.len() ==> (#[trigger] tokens@[k]).1@.len() == 32
                            && all_hex(tokens@[k].1@)
                    &&& #[trigger] concluded(
                        *old(self),
                        *final(self),
                        session@,
                        outcome,
                        tokens,
                        r,
                    )
                },
    {
        proof {
            session_index_is_first(self.sessions@, session@);
        }
        let i: usize = self.locate(session);
        let mut tokens: Vec<(String, String)> = Vec::new();
        if decision != Decision::Accepted || i >= self.sessions.len() {
            return self.conclude(session, Decision::Declined, tokens);
        }
        let n: usize = self.sessions[i].transfer.files.len();
        let ghost files = self.sessions@[i as int].transfer.files@;
        let mut k: usize = 0;
        while k < n
            invariant
                k <= n == files.len(),
                i < self.sessions@.len(),
                files == self.sessions@[i as int].transfer.files@,
                tokens@.len() == k,
                forall|j: int|
                    0 <= j < k ==> (#[trigger] tokens@[j]).0@ == files[j].id@ && tokens@[j].1@.len()
                        == 32 && all_hex(tokens@[j].1@),
            decreases n - k,
        {
            tokens.push((self.sessions[i].transfer.files[k].id.clone(), random_token()));
            k += 1;
        }
        self.conclude(session, Decision::Accepted, tokens)
    }
}

/// What ending the wait of a sender does.
pub open spec fn concluded(
    before: Receiver,
    after: Receiver,
    session: Seq<char>,
    decision: Decision,
    tokens: Vec<(String, String)>,
    r: Reply,
) -> bool {
    let i = session_index(before.sessions@, session);
    &&& after == (Receiver { sessions: after.sessions, ..before })
    &&& if decision == Decision::Accepted {
        &&& after.sessions@ == before.sessions@.update(
            i,
            Session { tokens, ..before.sessions@[i] },
        )
        &&& is_reply(r, "200 OK"@, accepted_json(session, tokens@))
    } else {
        &&& after.sessions@ == (if i < before.sessions@.len() {
            before.sessions@.remove(i)
        } else {
            before.sessions@
        })
        &&& is_reply(r, "403 Forbidden"@, message_json("Declined"@))
    }
}

/// The index of the file with that id, or the number of files where there is none.
pub open spec fn file_index(files: Seq<IncomingFile>, id: Seq<char>) -> int
    decreases files.len(),
{
    if files.len() == 0 || files[0].id@ == id {
        0
    } else {
        1 + file_index(files.drop_first(), id)
    }
}

/// The index of a file.
fn locate_file(files: &Vec<IncomingFile>, id: &str) -> (r: usize)
    ensures
        r == file_index(files@, id@),
        r <= files@.len(),
{
    let mut i: usize = 0;
    assert(files@.skip(0) =~= files@);
    while i < files.len()
        invariant
            i <= files@.len(),
            file_index(files@, id@) == i + file_index(files@.skip(i as int), id@),
        decreases files.len() - i,
    {
        assert(files@.skip(i as int).drop_first() =~= files@.skip(i + 1));
        if same(files[i].id.as_str(), id) {
            return i;
        }
        i += 1;
    }
    i
}

/// The token that is given last for a file.
fn token_for(tokens: &Vec<(String, String)>, id: &str) -> (r: Option<String>)
    ensures
        match r {
            Some(token) => last_value(pair_views(tokens@), id@) == Some(token@),
            None => last_value(pair_views(tokens@), id@) is None,
        },
{
    let ghost all = pair_views(tokens@);
    let mut i: usize = tokens.len();
    assert(all.take(i as int) =~= all);
    while i > 0
        invariant
            i <= tokens@.len(),
            all == pair_views(tokens@),
            last_value(all, id@) == last_value(all.take(i as int), id@),
        decreases i,
    {
        assert(all.take(i as int).last() == (tokens@[i - 1].0@, tokens@[i - 1].1@));
        assert(all.take(i as int).drop_last() =~= all.take(i - 1));
        if same(tokens[i - 1].0.as_str(), id) {
            return Some(tokens[i - 1].1.clone());
        }
        i -= 1;
    }
    None
}

/// The session, the file and the token that the query of an upload names.
pub open spec fn upload_names(request: Request) -> Option<(Seq<char>, Seq<char>, Seq<char>)> {
    let query = pair_views(request.query@);
    match (
        last_value(query, "sessionId"@),
        last_value(query, "fileId"@),
        last_value(query, "token"@),
    ) {
        (Some(session), Some(file), Some(token)) => Some((session, file, token)),
        _ => None,
    }
}

/// Why an upload is refused, as a status and a message. An upload is let through only under the
/// token that was handed out for the file when the transfer was accepted.
pub open spec fn upload_refusal(sessions: Seq<Session>, request: Request) -> Option<
    (Seq<char>, Seq<char>),
> {
    match upload_names(request) {
        None => Some(("400 Bad Request"@, "missing session, file or token"@)),
        Some((session, file, token)) => {
            let i = session_index(sessions, session);
            if i >= sessions.len() {
                Some(("403 Forbidden"@, "unknown session"@))
            } else if sessions[i].decision != Decision::Accepted || last_value(
                pair_views(sessions[i].tokens@),
                file,
            ) != Some(token) {
                Some(("403 Forbidden"@, "invalid token"@))
            } else if file_index(sessions[i].transfer.files@, file)
                >= sessions[i].transfer.files@.len() {
                Some(("403 Forbidden"@, "unknown file"@))
            } else {
                None
            }
        },
    }
}

/// An upload that was let through.
#[derive(Debug)]
pub struct Granted {
    pub session: String,
    pub file: String,
    /// The directory that the file goes to.
    pub directory: String,
    /// The name that the sender gave the file.
    pub name: String,
}

/// Whether the grant is for the file that the request names.
pub open spec fn is_grant(granted: Granted, receiver: Receiver, request: Request) -> bool {
    let (session, file, token) = upload_names(request)->0;
    let s = receiver.sessions@[session_index(receiver.sessions@, session)];
    &&& granted.session@ == session
    &&& granted.file@ == file
    &&& granted.directory@ == (match s.directory {
        Some(directory) => directory@,
        None => receiver.directory@,
    })
    &&& granted.name@ == s.transfer.files@[file_index(s.transfer.files@, file)].name@
}

/// What is answered to an upload.
pub open spec fn is_upload(
    r: Result<Granted, Reply>,
    receiver: Receiver,
    request: Request,
) -> bool {
    match r {
        Ok(granted) => upload_refusal(receiver.sessions@, request) is None && is_grant(
            granted,
            receiver,
            request,
        ),
        Err(reply) => upload_refusal(receiver.sessions@, request) matches Some((status, message))
            && is_reply(reply, status, message_json(message)),
    }
}

impl Receiver {
    /// Whether an upload is let through, and where its file goes.
    pub fn upload(&self, request: &Request) -> (r: Result<Granted, Reply>)
        ensures
            is_upload(r, *self, *request),
    {
        let (session, file, token) = match (
            request.parameter("sessionId"),
            request.parameter("fileId"),
            request.parameter("token"),
        ) {
            (Some(session), Some(file), Some(token)) => (session, file, token),
            _ => {
                return Err(message_reply("400 Bad Request", "missing session, file or token"));
            },
        };
        let i: usize = self.locate(session.as_str());
        if i >= self.sessions.len() {
            return Err(message_reply("403 Forbidden", "unknown session"));
        }
        let entry = &self.sessions[i];
        let issued = match token_for(&entry.tokens, file.as_str()) {
            Some(issued) => same(issued.as_str(), token.as_str()),
            None => false,
        };
        if entry.decision != Decision::Accepted || !issued {
            return Err(message_reply("403 Forbidden", "invalid token"));
        }
        let k: usize = locate_file(&entry.transfer.files, file.as_str());
        if k >= entry.transfer.files.len() {
            return Err(message_reply("403 Forbidden", "unknown file"));
        }
        let directory = match &entry.directory {
            Some(directory) => directory.clone(),
            None => self.directory.clone(),
        };
        Ok(Granted { session, file, directory, name: entry.transfer.files[k].name.clone() })
    }

    /// Notes that a file was written, and answers its sender.
    pub fn record_upload(&mut self, session: &str, file: &str, destination: String) -> (r: Reply)
        requires
            old(self).wf(),
        ensures
            final(self).wf(),
            is_reply(r, "200 OK"@, Json::Object(Seq::empty())),
            recorded(*old(self), *final(self), session@, file@, destination),
    {
        proof {
            session_index_is_first(self.sessions@, session@);
        }
        let i: usize = self.locate(session);
        if i < self.sessions.len() {
            let k: usize = locate_file(&self.sessions[i].transfer.files, file);
            if k < self.sessions[i].transfer.files.len() {
                self.sessions[i].transfer.files[k].saved_to = Some(destination);
                let saved = self.sessions[i].transfer.files[k].copy();
                self.files.insert(0, saved);
                let ghost was = old(self).sessions@[i as int];
                let ghost new_files = was.transfer.files@.update(
                    k as int,
                    IncomingFile { saved_to: Some(destination), ..was.transfer.files@[k as int] },
                );
                assert(self.sessions@[i as int].transfer.files@ =~= new_files);
                assert(self.sessions@ =~= old(self).sessions@.update(
                    i as int,
                    self.sessions@[i as int],
                ));
                assert(self.files@ =~= seq![saved] + old(self).files@);
            }
        }
        empty_reply()
    }

    /// This device as it describes itself.
    pub fn info(&self) -> (r: Value)
        ensures
            r@ == Json::Object(
                identity_json(self.name@, self.certificate@, self.bound, "https"@),
            ),
    {
        object(
            identity_fields(self.name.as_str(), self.certificate.as_str(), self.bound, "https"),
        )
    }

    /// Notes a device that announced itself, unless it is this one. A device that was heard before
    /// takes the place of what was known of it.
    pub fn hear(&mut self, payload: &Value, address: &str)
        requires
            old(self).wf(),
        ensures
            final(self).wf(),
            announced(*old(self), *final(self), Some(payload@), address@),
    {
        match device_from_announcement(payload, address, PORT) {
            None => {},
            Some(device) => {
                if same(device.fingerprint.as_str(), self.certificate.as_str()) {
                    return;
                }
                let i: usize = self.locate_device(device.fingerprint.as_str());
                let ghost d = device;
                if i < self.heard.len() {
                    assert(old(self).heard@[i as int].fingerprint@ == d.fingerprint@);
                    self.heard[i] = device;
                } else {
                    self.heard.push(device);
                }
                assert(is_heard(old(self).heard@, self.heard@, d));
            },
        }
    }

    /// The index of the device with that fingerprint.
    fn locate_device(&self, fingerprint: &str) -> (r: usize)
        ensures
            r <= self.heard@.len(),
            r < self.heard@.len() ==> self.heard@[r as int].fingerprint@ == fingerprint@,
            forall|k: int| 0 <= k < r ==> (#[trigger] self.heard@[k]).fingerprint@ != fingerprint@,
    {
        let mut i: usize = 0;
        while i < self.heard.len()
            invariant
                i <= self.heard@.len(),
                forall|k: int|
                    0 <= k < i ==> (#[trigger] self.heard@[k]).fingerprint@ != fingerprint@,
            decreases self.heard.len() - i,
        {
            if same(self.heard[i].fingerprint.as_str(), fingerprint) {
                return i;
            }
            i += 1;
        }
        i
    }

    /// Hears an announcement, and gives the answer where the device asked for answers and is not
    /// this one.
    pub fn answer_announcement(&mut self, payload: &Value, address: &str) -> (r: Option<Value>)
        requires
            old(self).wf(),
        ensures
            final(self).wf(),
            announced(*old(self), *final(self), Some(payload@), address@),
            match r {
                Some(reply) => payload@.flag_at("announce"@) == Some(true) && payload@.text_at(
                    "fingerprint"@,
                ) != Some(old(self).certificate@) && reply@ == Json::Object(
                    seq![("announce"@, Json::Bool(false))] + identity_json(
                        old(self).name@,
                        old(self).certificate@,
                        old(self).bound,
                        "https"@,
                    ),
                ),
                None => payload@.flag_at("announce"@) != Some(true) || payload@.text_at(
                    "fingerprint"@,
                ) == Some(old(self).certificate@),
            },
    {
        self.hear(payload, address);
        match payload.flag_at("announce") {
            Some(true) => {},
            _ => return None,
        }
        match payload.text_at("fingerprint") {
            Some(theirs) => {
                if same(theirs.as_str(), self.certificate.as_str()) {
                    return None;
                }
            },
            None => {},
        }
        Some(announcement(&self.info(), false))
    }
}

/// What noting that a file was written does.
pub open spec fn recorded(
    before: Receiver,
    after: Receiver,
    session: Seq<char>,
    file: Seq<char>,
    destination: String,
) -> bool {
    let i = session_index(before.sessions@, session);
    let was = before.sessions@[i];
    let k = file_index(was.transfer.files@, file);
    if i < before.sessions@.len() && k < was.transfer.files@.len() {
        let saved = IncomingFile { saved_to: Some(destination), ..was.transfer.files@[k] };
        let now = after.sessions@[i];
        &&& after.sessions@ == before.sessions@.update(i, now)
        &&& now.transfer.files@ == was.transfer.files@.update(k, saved)
        &&& now == (Session {
            transfer: IncomingTransfer { files: now.transfer.files, ..was.transfer },
            ..was
        })
        &&& after.files@ == seq![saved] + before.files@
        &&& after == (Receiver { sessions: after.sessions, files: after.files, ..before })
    } else {
        after == before
    }
}

/// Whether the devices that are known are those before and `device`, in the place of one with the
/// same fingerprint where there was one.
pub open spec fn is_heard(before: Seq<Device>, after: Seq<Device>, device: Device) -> bool {
    if is_known(before, device.fingerprint@) {
        exists|i: int|
            0 <= i < before.len() && (#[trigger] before[i]).fingerprint@ == device.fingerprint@
                && after == before.update(i, device) && forall|k: int|
                0 <= k < i ==> (#[trigger] before[k]).fingerprint@ != device.fingerprint@
    } else {
        after == before.push(device)
    }
}

/// What hearing an announcement does to the devices that are known.
pub open spec fn heard_after(
    before: Seq<Device>,
    after: Seq<Device>,
    payload: Json,
    address: Seq<char>,
    own: Seq<char>,
) -> bool {
    let fingerprint = payload.text_or_empty("fingerprint"@);
    if fingerprint.len() == 0 || fingerprint == own {
        after == before
    } else {
        exists|device: Device| #[trigger]
            is_announced(device, payload, address, PORT) && is_heard(before, after, device)
    }
}

/// What an announcement, or a sender that registers, does: the device is noted, and all else stays.
pub open spec fn announced(
    before: Receiver,
    after: Receiver,
    payload: Option<Json>,
    address: Seq<char>,
) -> bool {
    &&& after == (Receiver { heard: after.heard, ..before })
    &&& match payload {
        Some(value) => heard_after(before.heard@, after.heard@, value, address, before.certificate@),
        None => after.heard == before.heard,
    }
}

/// What a request asks for.
#[derive(Debug, Clone, Copy, PartialEq, Eq, Structural)]
pub enum Route {
    /// To be told about this device, after presenting the sender.
    Register,
    /// To be told about this device.
    Info,
    /// Permission for a transfer.
    Prepare,
    /// To deliver a file.
    Upload,
    /// To call a transfer off.
    Cancel,
    /// Something that is not offered.
    Unknown,
}

/// What a request asks for.
pub open spec fn route_of(method: Seq<char>, path: Seq<char>) -> Route {
    if path == "/api/localsend/v2/register"@ {
        Route::Register
    } else if method == "GET"@ && path == "/api/localsend/v2/info"@ {
        Route::Info
    } else if method == "POST"@ && path == "/api/localsend/v2/prepare-upload"@ {
        Route::Prepare
    } else if method == "POST"@ && path == "/api/localsend/v2/upload"@ {
        Route::Upload
    } else if method == "POST"@ && path == "/api/localsend/v2/cancel"@ {
        Route::Cancel
    } else {
        Route::Unknown
    }
}

/// What a request asks for.
pub fn route(request: &Request) -> (r: Route)
    ensures
        r == route_of(request.method@, request.path@),
{
    let method = request.method.as_str();
    let path = request.path.as_str();
    if same(path, "/api/localsend/v2/register") {
        Route::Register
    } else if same(method, "GET") && same(path, "/api/localsend/v2/info") {
        Route::Info
    } else if same(method, "POST") && same(path, "/api/localsend/v2/prepare-upload") {
        Route::Prepare
    } else if same(method, "POST") && same(path, "/api/localsend/v2/upload") {
        Route::Upload
    } else if same(method, "POST") && same(path, "/api/localsend/v2/cancel") {
        Route::Cancel
    } else {
        Route::Unknown
    }
}

impl Receiver {
    /// Answers a request to be told about this device. A sender that registers is noted.
    pub fn register(&mut self, payload: Option<&Value>, address: &str) -> (r: Reply)
        requires
            old(self).wf(),
        ensures
            final(self).wf(),
            is_reply(
                r,
                "200 OK"@,
                Json::Object(
                    identity_json(
                        old(self).name@,
                        old(self).certificate@,
                        old(self).bound,
                        "https"@,
                    ),
                ),
            ),
            announced(*old(self), *final(self), payload_of(payload), address@),
    {
        if let Some(value) = payload {
            self.hear(value, address);
        }
        Reply { status: "200 OK".to_owned(), body: self.info() }
    }

    /// Calls a transfer off: one that waits is declined.
    pub fn cancel(&mut self, request: &Request) -> (r: Reply)
        requires
            old(self).wf(),
        ensures
            final(self).wf(),
            is_reply(r, "200 OK"@, Json::Object(Seq::empty())),
            called_off(*old(self), *final(self), *request),
    {
        match request.parameter("sessionId") {
            Some(session) => {
                let _ = self.decline(session.as_str());
            },
            None => {},
        }
        empty_reply()
    }
}

/// What calling a transfer off does: one that waits is declined, and all else stays.
pub open spec fn called_off(before: Receiver, after: Receiver, request: Request) -> bool {
    match last_value(pair_views(request.query@), "sessionId"@) {
        Some(session) => after.sessions@ == sessions_decided(
            before.sessions@,
            session,
            Decision::Declined,
            None,
        ) && after == (Receiver { sessions: after.sessions, ..before }),
        None => after == before,
    }
}

/// What a request for something that is not offered is answered.
pub fn unknown_endpoint() -> (r: Reply)
    ensures
        is_reply(r, "404 Not Found"@, message_json("unknown endpoint"@)),
{
    message_reply("404 Not Found", "unknown endpoint")
}

/// The head of a response.
pub open spec fn response_head(status: Seq<char>, length: nat) -> Seq<char> {
    "HTTP/1.1 "@ + status + "\r\nContent-Type: application/json\r\nContent-Length: "@ + decimal(
        length,
    ) + "\r\nConnection: close\r\n\r\n"@
}

/// The head of a response whose body has that many bytes.
pub fn write_response_head(status: &str, length: usize) -> (r: String)
    ensures
        r@ == response_head(status@, length as nat),
{
    let mut out = "HTTP/1.1 ".to_owned();
    out.append(status);
    out.append("\r\nContent-Type: application/json\r\nContent-Length: ");
    out.append(write_u64(length as u64).as_str());
    out.append("\r\nConnection: close\r\n\r\n");
    out
}

/// The name that a sender gave, reduced to its final component.
pub open spec fn cleaned_name(name: Seq<char>) -> Seq<char> {
    match file_name_of(name) {
        Some(last) => last,
        None => "unnamed"@,
    }
}

/// The name that is tried after `index` others were taken.
pub open spec fn candidate_name(cleaned: Seq<char>, index: nat) -> Seq<char> {
    if index == 0 {
        cleaned
    } else {
        stem_of(cleaned) + " ("@ + decimal(index) + ")"@ + (match extension_of(cleaned) {
            Some(extension) => "."@ + extension,
            None => Seq::empty(),
        })
    }
}

/// A sender's name leads neither up nor down.
pub proof fn cleaned_name_is_plain(name: Seq<char>)
    ensures
        is_plain_name(cleaned_name(name)),
{
    file_name_is_plain(name);
    reveal_strlit("unnamed");
    reveal_strlit(".");
    reveal_strlit("..");
    assert("unnamed"@ =~= seq!['u', 'n', 'n', 'a', 'm', 'e', 'd']);
    assert("."@.len() == 1 && ".."@.len() == 2);
}

/// Whatever name a sender gives, the name that is tried leads neither up nor down, so that the
/// file lands in the directory.
pub proof fn candidate_name_is_plain(name: Seq<char>, index: nat)
    ensures
        is_plain_name(candidate_name(cleaned_name(name), index)),
{
    let cleaned = cleaned_name(name);
    cleaned_name_is_plain(name);
    if index > 0 {
        let c = candidate_name(cleaned, index);
        let stem = stem_of(cleaned);
        last_of_is_last(cleaned, '.');
        crate::number::decimal_reads_back(index);
        reveal_strlit(" (");
        reveal_strlit(")");
        reveal_strlit(".");
        reveal_strlit("..");
        assert(c[stem.len() as int] == ' ');
        assert(c.len() > 2);
        assert forall|i: int| 0 <= i < c.len() implies c[i] != '/' by {
            let n = decimal(index);
            let a = stem.len() as int;
            if i < a {
                assert(c[i] == cleaned[i]);
            } else if i < a + 2 {
            } else if i < a + 2 + n.len() {
                assert(c[i] == n[i - a - 2]);
                assert(crate::number::is_digit(n[i - a - 2]));
            } else if i > a + 3 + n.len() {
                let e = extension_of(cleaned)->0;
                assert(c[i] == e[i - a - 4 - n.len()]);
                assert(e[i - a - 4 - n.len()] == cleaned[last_of(cleaned, '.') + 1 + i - a - 4
                    - n.len()]);
            }
        }
    }
}

/// Whether a name is among those that are taken.
pub open spec fn is_taken(taken: Seq<String>, name: Seq<char>) -> bool {
    exists|i: int| 0 <= i < taken.len() && (#[trigger] taken[i])@ == name
}

/// Whether a name is among those that are taken.
fn has_name(taken: &Vec<String>, name: &str) -> (r: bool)
    ensures
        r == is_taken(taken@, name@),
{
    let mut i: usize = 0;
    while i < taken.len()
        invariant
            i <= taken@.len(),
            forall|k: int| 0 <= k < i ==> (#[trigger] taken@[k])@ != name@,
        decreases taken.len() - i,
    {
        if same(taken[i].as_str(), name) {
            return true;
        }
        i += 1;
    }
    false
}

/// A name for a file that a sender named, under which nothing is there yet. Of a name that is
/// taken a counter is appended.
pub fn unique_name(name: &str, taken: &Vec<String>) -> (r: Result<String, String>)
    ensures
        match r {
            Ok(free) => is_plain_name(free@) && !is_taken(taken@, free@) && exists|index: nat|
                index < 1000 && free@ == #[trigger] candidate_name(cleaned_name(name@), index)
                    && forall|j: nat|
                    j < index ==> is_taken(
                        taken@,
                        #[trigger] candidate_name(cleaned_name(name@), j),
                    ),
            Err(message) => (forall|j: nat|
                j < 1000 ==> is_taken(taken@, #[trigger] candidate_name(cleaned_name(name@), j)))
                && message@ == "too many files named "@ + cleaned_name(name@),
        },
{
    let cleaned = match file_name(name) {
        Some(last) => last,
        None => "unnamed".to_owned(),
    };
    let (stem, extension) = split_extension(cleaned.as_str());
    let mut index: u64 = 0;
    while index < 1000
        invariant
            cleaned@ == cleaned_name(name@),
            stem@ == stem_of(cleaned@),
            match extension {
                Some(e) => extension_of(cleaned@) == Some(e@),
                None => extension_of(cleaned@) is None,
            },
            index <= 1000,
            forall|j: nat|
                j < index ==> is_taken(taken@, #[trigger] candidate_name(cleaned@, j)),
        decreases 1000 - index,
    {
        let candidate = if index == 0 {
            cleaned.clone()
        } else {
            let mut out = stem.clone();
            out.append(" (");
            out.append(write_u64(index).as_str());
            out.append(")");
            let ghost start = out@;
            if let Some(extension) = &extension {
                out.append(".");
                out.append(extension.as_str());
                assert(out@ =~= start + ("."@ + extension@));
            } else {
                assert(start + Seq::<char>::empty() =~= start);
            }
            out
        };
        assert(candidate@ == candidate_name(cleaned@, index as nat));
        if !has_name(taken, candidate.as_str()) {
            proof {
                candidate_name_is_plain(name@, index as nat);
            }
            return Ok(candidate);
        }
        index += 1;
    }
    let mut message = "too many files named ".to_owned();
    message.append(cleaned.as_str());
    Err(message)
}

/// A destination inside the directory, of which `taken` are the names that are there.
pub fn unique_path(directory: &str, name: &str, taken: &Vec<String>) -> (r: Result<String, String>)
    ensures
        match r {
            Ok(path) => exists|free: Seq<char>| #[trigger]
                is_free_name(free, name@, taken@) && path@ == joined_path(directory@, free),
            Err(message) => (forall|j: nat|
                j < 1000 ==> is_taken(taken@, #[trigger] candidate_name(cleaned_name(name@), j)))
                && message@ == "too many files named "@ + cleaned_name(name@),
        },
{
    match unique_name(name, taken) {
        Ok(free) => {
            assert(is_free_name(free@, name@, taken@));
            Ok(join_path(directory, free.as_str()))
        },
        Err(message) => Err(message),
    }
}

/// Whether `free` is the first name for the file under which nothing is there yet. It leads
/// neither up nor down.
pub open spec fn is_free_name(free: Seq<char>, name: Seq<char>, taken: Seq<String>) -> bool {
    &&& is_plain_name(free)
    &&& !is_taken(taken, free)
    &&& exists|index: nat|
        index < 1000 && free == #[trigger] candidate_name(cleaned_name(name), index) && forall|
            j: nat,
        |
            j < index ==> is_taken(taken, #[trigger] candidate_name(cleaned_name(name), j))
}

/// A transfer is answered once: after an answer that took, a further one is refused and changes
/// nothing.
pub proof fn a_transfer_is_answered_once(
    before: Receiver,
    between: Receiver,
    after: Receiver,
    session: Seq<char>,
    first: (Decision, Option<String>, Result<(), String>),
    second: (Decision, Option<String>, Result<(), String>),
)
    requires
        first.0 != Decision::Pending,
        decided(before, between, session, first.0, first.1, first.2),
        first.2 is Ok,
        decided(between, after, session, second.0, second.1, second.2),
    ensures
        after == between,
        second.2 is Err,
{
    session_index_is_first(before.sessions@, session);
    session_index_is_first(between.sessions@, session);
    let i = session_index(before.sessions@, session);
    let k = session_index(between.sessions@, session);
    assert(between.sessions@[i].transfer.session@ == session);
    if k < i {
        assert(between.sessions@[k] == before.sessions@[k]);
    }
    assert(k == i);
}

/// An upload passes only for a transfer that was accepted, under the token that was handed out for
/// the file.
pub proof fn an_upload_needs_its_token(sessions: Seq<Session>, request: Request)
    requires
        upload_refusal(sessions, request) is None,
    ensures
        ({
            let (session, file, token) = upload_names(request)->0;
            exists|i: int|
                0 <= i < sessions.len() && (#[trigger] sessions[i]).transfer.session@ == session
                    && sessions[i].decision == Decision::Accepted && last_value(
                    pair_views(sessions[i].tokens@),
                    file,
                ) == Some(token)
        }),
{
    let (session, file, token) = upload_names(request)->0;
    session_index_is_first(sessions, session);
    let i = session_index(sessions, session);
    assert(sessions[i].transfer.session@ == session);
}

/// Before a transfer is answered, and after it was declined, no upload passes for it.
pub proof fn nothing_is_taken_without_consent(sessions: Seq<Session>, request: Request)
    requires
        sessions_wf(sessions),
        upload_names(request) is Some,
        decision_of(sessions, (upload_names(request)->0).0) != Decision::Accepted,
    ensures
        upload_refusal(sessions, request) is Some,
{
    session_index_is_first(sessions, (upload_names(request)->0).0);
}

/// Something that happens to a receiver.
pub enum Happening {
    /// A sender offers files.
    Offer { payload: Option<Json>, session: Seq<char>, now: u64, r: Option<Reply> },
    /// Somebody answers a transfer that waits.
    Answer {
        session: Seq<char>,
        decision: Decision,
        directory: Option<String>,
        r: Result<(), String>,
    },
    /// The wait of a sender ends.
    End { session: Seq<char>, decision: Decision, tokens: Vec<(String, String)>, r: Reply },
    /// A file was written.
    Upload { session: Seq<char>, file: Seq<char>, destination: String },
    /// A sender calls a transfer off.
    CallOff { request: Request },
    /// A device is heard.
    Announcement { payload: Option<Json>, address: Seq<char> },
}

/// Whether this happened between two states of a receiver.
pub open spec fn happened(what: Happening, before: Receiver, after: Receiver) -> bool {
    match what {
        Happening::Offer { payload, session, now, r } => offered(
            before,
            after,
            payload,
            session,
            now,
            r,
        ),
        Happening::Answer { session, decision, directory, r } => decided(
            before,
            after,
            session,
            decision,
            directory,
            r,
        ),
        Happening::End { session, decision, tokens, r } => concluded(
            before,
            after,
            session,
            decision,
            tokens,
            r,
        ),
        Happening::Upload { session, file, destination } => recorded(
            before,
            after,
            session,
            file,
            destination,
        ),
        Happening::CallOff { request } => called_off(before, after, request),
        Happening::Announcement { payload, address } => announced(before, after, payload, address),
    }
}

/// The file that was written, with its path, where a file of a known transfer was.
pub open spec fn written(what: Happening, before: Receiver) -> Seq<IncomingFile> {
    match what {
        Happening::Upload { session, file, destination } => {
            let i = session_index(before.sessions@, session);
            let files = before.sessions@[i].transfer.files@;
            let k = file_index(files, file);
            if i < before.sessions@.len() && k < files.len() {
                seq![IncomingFile { saved_to: Some(destination), ..files[k] }]
            } else {
                Seq::empty()
            }
        },
        _ => Seq::empty(),
    }
}

/// The files that were written in the course of things, newest first. `states[i]` is how the
/// receiver was when `course[i]` happened.
pub open spec fn written_so_far(course: Seq<Happening>, states: Seq<Receiver>) -> Seq<IncomingFile>
    decreases course.len(),
{
    if course.len() == 0 {
        Seq::empty()
    } else {
        written(course.last(), states[course.len() - 1]) + written_so_far(
            course.drop_last(),
            states.drop_last(),
        )
    }
}

/// A file that was written becomes the first of those that were received, with the path it was
/// written to; nothing else that happens changes what was received.
pub proof fn only_an_upload_is_received(what: Happening, before: Receiver, after: Receiver)
    requires
        happened(what, before, after),
    ensures
        after.files@ == written(what, before) + before.files@,
        what is Upload || after.files == before.files,
        all_saved(before.files@) ==> all_saved(after.files@),
{
    let new = written(what, before);
    assert(Seq::<IncomingFile>::empty() + before.files@ =~= before.files@);
    assert(after.files@ == new + before.files@);
    if all_saved(before.files@) {
        assert forall|i: int| 0 <= i < after.files@.len() implies (
        #[trigger] after.files@[i]).saved_to is Some by {
            if i >= new.len() {
                assert(after.files@[i] == before.files@[i - new.len()]);
            }
        }
    }
}

/// What a receiver has received is, in every state that it can come to, what was written since its
/// start: each file with its path, and the newest first.
pub proof fn received_is_what_was_written(course: Seq<Happening>, states: Seq<Receiver>)
    requires
        states.len() == course.len() + 1,
        states[0].files@.len() == 0,
        forall|i: int|
            0 <= i < course.len() ==> happened(
                #[trigger] course[i],
                states[i],
                states[i + 1],
            ),
    ensures
        states.last().files@ == written_so_far(course, states),
        all_saved(states.last().files@),
    decreases course.len(),
{
    if course.len() > 0 {
        let n = course.len() - 1;
        let before = course.drop_last();
        let earlier = states.drop_last();
        assert forall|i: int| 0 <= i < before.len() implies happened(
            #[trigger] before[i],
            earlier[i],
            earlier[i + 1],
        ) by {
            assert(before[i] == course[i]);
        }
        received_is_what_was_written(before, earlier);
        assert(happened(course[n], states[n], states[n + 1]));
        only_an_upload_is_received(course[n], states[n], states[n + 1]);
    } else {
        assert(states.last().files@ =~= Seq::empty());
    }
}

/// `file_index` is the first index at which a file has the id.
pub proof fn file_index_is_first(files: Seq<IncomingFile>, id: Seq<char>)
    ensures
        0 <= file_index(files, id) <= files.len(),
        file_index(files, id) < files.len() ==> files[file_index(files, id)].id@ == id,
        forall|j: int| 0 <= j < file_index(files, id) ==> (#[trigger] files[j]).id@ != id,
    decreases files.len(),
{
    if files.len() > 0 && files[0].id@ != id {
        file_index_is_first(files.drop_first(), id);
        assert forall|j: int| 0 <= j < file_index(files, id) implies (#[trigger] files[j]).id@
            != id by {
            if j > 0 {
                assert(files.drop_first()[j - 1] == files[j]);
            }
        }
    }
}

/// The last pair of a key gives its value, and there is one where the key stands.
pub proof fn last_value_is_last(pairs: Seq<(Seq<char>, Seq<char>)>, key: Seq<char>, at: int)
    requires
        0 <= at < pairs.len(),
        pairs[at].0 == key,
        forall|j: int| at < j < pairs.len() ==> (#[trigger] pairs[j]).0 != key,
    ensures
        last_value(pairs, key) == Some(pairs[at].1),
    decreases pairs.len(),
{
    if at < pairs.len() - 1 {
        assert(pairs[pairs.len() - 1].0 != key);
        assert forall|j: int| at < j < pairs.drop_last().len() implies (
        #[trigger] pairs.drop_last()[j]).0 != key by {
            assert(pairs.drop_last()[j] == pairs[j]);
        }
        last_value_is_last(pairs.drop_last(), key, at);
    }
}

/// An upload that is let through is of a transfer that was accepted, and goes under the name of the
/// file whose id the request names: the first in the transfer with that id. It goes to the directory
/// that was given with the consent, or else to that of the receiver.
pub proof fn an_upload_goes_under_its_own_name(
    receiver: Receiver,
    request: Request,
    granted: Granted,
    session: Session,
    i: int,
    k: int,
)
    requires
        is_upload(Ok(granted), receiver, request),
        sessions_wf(receiver.sessions@),
        0 <= i < receiver.sessions@.len(),
        session == receiver.sessions@[i],
        last_value(pair_views(request.query@), "sessionId"@) == Some(session.transfer.session@),
        0 <= k < session.transfer.files@.len(),
        last_value(pair_views(request.query@), "fileId"@) == Some(session.transfer.files@[k].id@),
        forall|j: int|
            0 <= j < k ==> (#[trigger] session.transfer.files@[j]).id@
                != session.transfer.files@[k].id@,
    ensures
        session.decision == Decision::Accepted,
        granted.name@ == session.transfer.files@[k].name@,
        granted.file@ == session.transfer.files@[k].id@,
        granted.session@ == session.transfer.session@,
        session.directory is Some ==> granted.directory@ == session.directory->0@,
        session.directory is None ==> granted.directory@ == receiver.directory@,
{
    session_index_is_first(receiver.sessions@, session.transfer.session@);
    let at = session_index(receiver.sessions@, session.transfer.session@);
    if at < i {
        assert(receiver.sessions@[at].transfer.session@ == receiver.sessions@[i].transfer.session@);
    }
    assert(at == i);
    file_index_is_first(session.transfer.files@, session.transfer.files@[k].id@);
    let f = file_index(session.transfer.files@, session.transfer.files@[k].id@);
    if f < k {
        assert(session.transfer.files@[f].id@ == session.transfer.files@[k].id@);
    }
}

/// Every upload that is let through names a file of its transfer, and has the name of that file.
pub proof fn an_upload_names_a_file_that_was_offered(
    receiver: Receiver,
    request: Request,
    granted: Granted,
)
    requires
        is_upload(Ok(granted), receiver, request),
    ensures
        exists|i: int, k: int|
            0 <= i < receiver.sessions@.len() && 0 <= k
                < receiver.sessions@[i].transfer.files@.len()
                && last_value(pair_views(request.query@), "sessionId"@) == Some(
                receiver.sessions@[i].transfer.session@,
            ) && last_value(pair_views(request.query@), "fileId"@) == Some(
                (#[trigger] receiver.sessions@[i].transfer.files@[k]).id@,
            ) && granted.name@ == receiver.sessions@[i].transfer.files@[k].name@,
{
    let (session, file, token) = upload_names(request)->0;
    session_index_is_first(receiver.sessions@, session);
    let i = session_index(receiver.sessions@, session);
    let files = receiver.sessions@[i].transfer.files@;
    file_index_is_first(files, file);
    let k = file_index(files, file);
    assert(receiver.sessions@[i].transfer.files@[k].id@ == file);
}

/// The names under which the files of a transfer are taken are, in order, those that its offer gives
/// them.
pub proof fn files_are_taken_under_the_names_that_were_offered(
    receiver: Receiver,
    payload: Json,
    session: Seq<char>,
    now: u64,
    i: int,
    request: Request,
    granted: Granted,
    k: int,
    name: Seq<char>,
)
    requires
        sessions_wf(receiver.sessions@),
        0 <= i < receiver.sessions@.len(),
        is_offered_transfer(receiver.sessions@[i].transfer, payload, session, now),
        payload.field("files"@) matches Some(Json::Object(entries)) && 0 <= k < entries.len()
            && entries[k].1.text_at("fileName"@) == Some(name) && last_value(
            pair_views(request.query@),
            "fileId"@,
        ) == Some(entries[k].0) && forall|j: int|
            0 <= j < k ==> (#[trigger] entries[j]).0 != entries[k].0,
        last_value(pair_views(request.query@), "sessionId"@) == Some(session),
        is_upload(Ok(granted), receiver, request),
    ensures
        granted.name@ == name,
{
    let transfer = receiver.sessions@[i].transfer;
    let entries = payload.field("files"@)->0->Object_0;
    assert(is_offered(transfer.files@[k], entries[k]));
    assert forall|j: int| 0 <= j < k implies (#[trigger] transfer.files@[j]).id@
        != transfer.files@[k].id@ by {
        assert(is_offered(transfer.files@[j], entries[j]));
        assert(entries[j].0 != entries[k].0);
    }
    an_upload_goes_under_its_own_name(receiver, request, granted, receiver.sessions@[i], i, k);
}

/// Consent counts: a transfer that waits and is accepted is accepted, into the directory that is
/// given, one that is declined is declined, and no other transfer is touched by it.
pub proof fn an_answer_counts_for_its_transfer(
    before: Receiver,
    after: Receiver,
    session: Seq<char>,
    decision: Decision,
    directory: Option<String>,
    r: Result<(), String>,
    other: Seq<char>,
)
    requires
        decided(before, after, session, decision, directory, r),
        decision_of(before.sessions@, session) == Decision::Pending,
        other != session,
    ensures
        r is Ok,
        decision_of(after.sessions@, session) == decision,
        decision_of(after.sessions@, other) == decision_of(before.sessions@, other),
        after.sessions@.len() == before.sessions@.len(),
        forall|i: int|
            0 <= i < after.sessions@.len() ==> (#[trigger] after.sessions@[i]).transfer
                == before.sessions@[i].transfer,
        forall|i: int|
            0 <= i < after.sessions@.len() && (
            #[trigger] after.sessions@[i]).transfer.session@ != session ==> after.sessions@[i]
                == before.sessions@[i],
        after.sessions@[session_index(before.sessions@, session)].directory == directory,
{
    session_index_is_first(before.sessions@, session);
    session_index_is_first(before.sessions@, other);
    session_index_is_first(after.sessions@, session);
    session_index_is_first(after.sessions@, other);
    let i = session_index(before.sessions@, session);
    assert forall|k: int| 0 <= k < after.sessions@.len() implies (
    #[trigger] after.sessions@[k]).transfer == before.sessions@[k].transfer by {}
    same_transfers_same_index(before.sessions@, after.sessions@, session);
    same_transfers_same_index(before.sessions@, after.sessions@, other);
}

/// Sessions with the same transfers are found at the same places.
proof fn same_transfers_same_index(a: Seq<Session>, b: Seq<Session>, id: Seq<char>)
    requires
        a.len() == b.len(),
        forall|i: int| 0 <= i < a.len() ==> (#[trigger] b[i]).transfer == a[i].transfer,
    ensures
        session_index(a, id) == session_index(b, id),
    decreases a.len(),
{
    if a.len() > 0 {
        assert(b[0].transfer == a[0].transfer);
        assert forall|i: int| 0 <= i < a.drop_first().len() implies (
        #[trigger] b.drop_first()[i]).transfer == a.drop_first()[i].transfer by {
            assert(b[i + 1].transfer == a[i + 1].transfer);
        }
        same_transfers_same_index(a.drop_first(), b.drop_first(), id);
    }
}

/// A sender whose transfer was accepted is handed a token for each of its files under the id of the
/// file, and an upload that names the transfer, a file and the token of that file is let through.
pub proof fn a_token_that_was_handed_out_opens_the_upload(
    before: Receiver,
    after: Receiver,
    session: Seq<char>,
    tokens: Vec<(String, String)>,
    reply: Reply,
    k: int,
    request: Request,
    r: Result<Granted, Reply>,
)
    requires
        before.wf(),
        decision_of(before.sessions@, session) == Decision::Accepted,
        concluded(before, after, session, Decision::Accepted, tokens, reply),
        tokens_fit(
            tokens@,
            before.sessions@[session_index(before.sessions@, session)].transfer.files@,
        ),
        forall|a: int, b: int|
            0 <= a < b < tokens@.len() ==> (#[trigger] tokens@[a]).0@ != (
            #[trigger] tokens@[b]).0@,
        0 <= k < tokens@.len(),
        last_value(pair_views(request.query@), "sessionId"@) == Some(session),
        last_value(pair_views(request.query@), "fileId"@) == Some(tokens@[k].0@),
        last_value(pair_views(request.query@), "token"@) == Some(tokens@[k].1@),
        is_upload(r, after, request),
    ensures
        r is Ok,
        reply.status@ == "200 OK"@,
        reply.body@.text_at("sessionId"@) == Some(session),
        reply.body@.field("files"@) is Some,
        (reply.body@.field("files"@)->0).text_at(tokens@[k].0@) == Some(tokens@[k].1@),
{
    session_index_is_first(before.sessions@, session);
    let i = session_index(before.sessions@, session);
    let files = before.sessions@[i].transfer.files@;
    assert forall|j: int| 0 <= j < after.sessions@.len() implies (
    #[trigger] after.sessions@[j]).transfer == before.sessions@[j].transfer by {}
    same_transfers_same_index(before.sessions@, after.sessions@, session);
    let views = pair_views(tokens@);
    assert forall|j: int| k < j < views.len() implies (#[trigger] views[j]).0 != tokens@[k].0@ by {
        assert(tokens@[k].0@ != tokens@[j].0@);
    }
    last_value_is_last(views, tokens@[k].0@, k);
    file_index_is_first(files, tokens@[k].0@);
    assert(tokens@[k].0@ == files[k].id@);
    let body = accepted_json(session, tokens@)->Object_0;
    reveal_strlit("files");
    reveal_strlit("sessionId");
    assert(body.drop_first()[0].0 == "sessionId"@);
    assert(field_of(body.drop_first(), "sessionId"@) == Some(Json::Text(session)));
    assert("files"@.len() != "sessionId"@.len());
    let listed = tokens_json(tokens@)->Object_0;
    assert forall|a: int, b: int| 0 <= a < b < listed.len() implies (#[trigger] listed[a]).0 != (
    #[trigger] listed[b]).0 by {
        assert(tokens@[a].0@ != tokens@[b].0@);
    }
    a_field_is_found(listed, k);
}

/// A token that was handed out for one file opens no other.
pub proof fn a_token_opens_no_other_file(
    receiver: Receiver,
    request: Request,
    r: Result<Granted, Reply>,
    i: int,
    mine: int,
    other: int,
)
    requires
        sessions_wf(receiver.sessions@),
        0 <= i < receiver.sessions@.len(),
        0 <= mine < receiver.sessions@[i].tokens@.len(),
        0 <= other < receiver.sessions@[i].tokens@.len(),
        forall|a: int, b: int|
            0 <= a < b < receiver.sessions@[i].tokens@.len() ==> (
            #[trigger] receiver.sessions@[i].tokens@[a]).0@ != (
            #[trigger] receiver.sessions@[i].tokens@[b]).0@,
        receiver.sessions@[i].tokens@[mine].1@ != receiver.sessions@[i].tokens@[other].1@,
        last_value(pair_views(request.query@), "sessionId"@) == Some(
            receiver.sessions@[i].transfer.session@,
        ),
        last_value(pair_views(request.query@), "fileId"@) == Some(
            receiver.sessions@[i].tokens@[other].0@,
        ),
        last_value(pair_views(request.query@), "token"@) == Some(
            receiver.sessions@[i].tokens@[mine].1@,
        ),
        is_upload(r, receiver, request),
    ensures
        r matches Err(reply) && reply.status@ == "403 Forbidden"@,
{
    let s = receiver.sessions@[i];
    session_index_is_first(receiver.sessions@, s.transfer.session@);
    let at = session_index(receiver.sessions@, s.transfer.session@);
    if at < i {
        assert(receiver.sessions@[at].transfer.session@ == receiver.sessions@[i].transfer.session@);
    }
    let views = pair_views(s.tokens@);
    assert forall|j: int| other < j < views.len() implies (#[trigger] views[j]).0
        != s.tokens@[other].0@ by {
        assert(s.tokens@[other].0@ != s.tokens@[j].0@);
    }
    last_value_is_last(views, s.tokens@[other].0@, other);
}

/// A file under whose name nothing is there yet keeps that name; whatever is there stays, for the
/// destination is never one that is taken; and the name of the file is all that a sender decides:
/// the destination is in the directory.
pub proof fn a_file_keeps_a_name_that_is_free(name: Seq<char>, taken: Seq<String>, free: Seq<char>)
    requires
        is_free_name(free, name, taken),
        is_plain_name(name),
    ensures
        forall|i: int| 0 <= i < taken.len() ==> (#[trigger] taken[i])@ != free,
        (forall|i: int| 0 <= i < taken.len() ==> (#[trigger] taken[i])@ != name) ==> free == name,
        forall|i: int| 0 <= i < free.len() ==> free[i] != '/',
        free.len() > 0,
{
    plain_name_is_kept(name);
    let index = choose|index: nat|
        index < 1000 && free == #[trigger] candidate_name(cleaned_name(name), index) && forall|
            j: nat,
        |
            j < index ==> is_taken(taken, #[trigger] candidate_name(cleaned_name(name), j));
    if index > 0 {
        assert(is_taken(taken, candidate_name(cleaned_name(name), 0)));
    }
}

/// A name that leads neither up nor down is kept as it is.
proof fn plain_name_is_kept(name: Seq<char>)
    requires
        is_plain_name(name),
    ensures
        cleaned_name(name) == name,
{
    first_of_is_unique(name, '/', name.len() as int);
    let parts = split_on(name, '/');
    assert(parts =~= seq![name]);
    assert(parts.last() == name);
}

/// Whether every line feed is followed by something else than a carriage return, so that no empty line
/// stands in the text.
spec fn has_no_empty_line(s: Seq<char>) -> bool {
    forall|p: int|
        0 <= p < s.len() && #[trigger] breaks_at(s, p) ==> p + 1 < s.len() && s[p + 1] != '\r'
}

/// Whether a line feed stands there.
spec fn breaks_at(s: Seq<char>, p: int) -> bool {
    s[p] == '\n'
}

/// What stands before an empty line is the head.
proof fn a_head_ends_at_its_empty_line(head: Seq<char>, body: Seq<u8>)
    requires
        is_ascii_chars(head),
        has_no_empty_line(head),
    ensures
        first_bytes(encode_utf8(head + "\r\n\r\n"@) + body, head_gap()) == Some(head.len() as int),
        lossy_of((encode_utf8(head + "\r\n\r\n"@) + body).take(head.len() as int)) == head,
        (encode_utf8(head + "\r\n\r\n"@) + body).skip(head.len() as int + 4) == body,
{
    reveal_strlit("\r\n\r\n");
    let gap = "\r\n\r\n"@;
    let all = head + gap;
    assert(gap =~= seq!['\r', '\n', '\r', '\n']);
    assert(is_ascii_chars(all)) by {
        assert forall|i: int| 0 <= i < all.len() implies '\0' <= #[trigger] all[i] <= '\u{7f}' by {
            if i < head.len() {
                assert(all[i] == head[i]);
            }
        }
    }
    is_ascii_chars_encode_utf8(all);
    is_ascii_chars_encode_utf8(head);
    let bytes = encode_utf8(all);
    let raw = bytes + body;
    let e = head.len() as int;
    assert(all[e] == '\r' && all[e + 1] == '\n' && all[e + 2] == '\r' && all[e + 3] == '\n');
    assert(raw.subrange(e, e + 4) =~= head_gap()) by {
        assert(raw[e] == all[e] as u8 && raw[e + 1] == all[e + 1] as u8 && raw[e + 2] == all[e
            + 2] as u8 && raw[e + 3] == all[e + 3] as u8);
    }
    assert(bytes_at(raw, head_gap(), e));
    assert forall|j: int| 0 <= j < e implies !bytes_at(raw, head_gap(), j) by {
        if bytes_at(raw, head_gap(), j) {
            let part = raw.subrange(j, j + 4);
            assert(part[1] == 10 && part[2] == 13);
            assert(raw[j + 1] == 10 && raw[j + 2] == 13);
            assert(raw[j + 1] == all[j + 1] as u8 && raw[j + 2] == all[j + 2] as u8);
            assert('\0' <= all[j + 1] <= '\u{7f}' && '\0' <= all[j + 2] <= '\u{7f}');
            assert(all[j + 1] == '\n' && all[j + 2] == '\r');
            if j + 1 < e {
                assert(breaks_at(head, j + 1));
                assert(head[j + 2] != '\r');
                assert(all[j + 2] == head[j + 2]);
            }
        }
    }
    first_bytes_is_unique(raw, head_gap(), e);
    assert(raw.take(e) =~= encode_utf8(head)) by {
        assert forall|i: int| 0 <= i < e implies raw.take(e)[i] == encode_utf8(head)[i] by {
            assert(raw[i] == all[i] as u8);
            assert(encode_utf8(head)[i] == head[i] as u8);
        }
    }
    encode_utf8_valid_utf8(head);
    encode_utf8_decode_utf8(head);
    assert(raw.skip(e + 4) =~= body);
}

/// Texts that have no empty line have none together.
proof fn no_empty_line_together(a: Seq<char>, b: Seq<char>)
    requires
        has_no_empty_line(a),
        has_no_empty_line(b),
        is_ascii_chars(a),
        is_ascii_chars(b),
    ensures
        has_no_empty_line(a + b),
        is_ascii_chars(a + b),
{
    let s = a + b;
    assert forall|p: int| 0 <= p < s.len() && #[trigger] breaks_at(s, p) implies p + 1 < s.len()
        && s[p + 1] != '\r' by {
        if p < a.len() {
            assert(breaks_at(a, p));
            assert(a[p + 1] != '\r');
        } else {
            assert(breaks_at(b, p - a.len()));
            assert(b[p - a.len() + 1] != '\r');
        }
    }
    assert forall|i: int| 0 <= i < s.len() implies '\0' <= #[trigger] s[i] <= '\u{7f}' by {
        if i < a.len() {
            assert(s[i] == a[i]);
        } else {
            assert(s[i] == b[i - a.len()]);
        }
    }
}

/// Whether a text can stand in a line of a head: it is ASCII and has no line break in it.
pub open spec fn is_line_text(s: Seq<char>) -> bool {
    is_ascii_chars(s) && forall|i: int| 0 <= i < s.len() ==> s[i] != '\n' && s[i] != '\r'
}

/// The digits of a number can stand in a line.
proof fn digits_are_line_text(n: nat)
    ensures
        is_line_text(decimal(n)),
        decimal(n).len() > 0,
        !is_white(decimal(n)[0]),
        !is_white(decimal(n).last()),
        forall|i: int| 0 <= i < decimal(n).len() ==> '0' <= #[trigger] decimal(n)[i] <= '9',
{
    crate::number::decimal_reads_back(n);
    let d = decimal(n);
    assert forall|i: int| 0 <= i < d.len() implies '0' <= #[trigger] d[i] <= '9' by {
        assert(crate::number::is_digit(d[i]));
    }
}

/// What is sent is what arrives: the request that is made of a path and a body is read as that path
/// and that body, none of it lost and nothing added.
pub proof fn what_is_sent_is_what_arrives(
    target: Seq<char>,
    host: Seq<char>,
    content_type: Seq<char>,
    body: Seq<u8>,
    closed: bool,
    r: Reading,
)
    requires
        is_line_text(target),
        is_line_text(host),
        is_line_text(content_type),
        target.len() > 0,
        forall|i: int| 0 <= i < target.len() ==> !is_white(#[trigger] target[i]),
        body.len() <= usize::MAX,
        is_reading(
            r,
            encode_utf8(request_head(target, host, content_type, body.len())) + body,
            closed,
        ),
    ensures
        r matches Reading::Done(request) && request.method@ == "POST"@ && request.path@
            == before_first(target, '?') && request.body@ == body && pair_views(request.query@)
            == query_pairs(split_on(after_first(target, '?'), '&')),
{
    reveal_strlit("POST ");
    reveal_strlit("POST");
    reveal_strlit(" HTTP/1.1\r\nHost: ");
    reveal_strlit("\r\nContent-Type: ");
    reveal_strlit("\r\nContent-Length: ");
    reveal_strlit("\r\nConnection: close\r\n\r\n");
    reveal_strlit("\r\n\r\n");
    let digits = decimal(body.len());
    digits_are_line_text(body.len());
    let a = "POST "@ + target;
    let b = a + " HTTP/1.1\r\nHost: "@;
    let c = b + host;
    let d = c + "\r\nContent-Type: "@;
    let e = d + content_type;
    let f = e + "\r\nContent-Length: "@;
    let g = f + digits;
    let end = seq![
        '\r',
        '\n',
        'C',
        'o',
        'n',
        'n',
        'e',
        'c',
        't',
        'i',
        'o',
        'n',
        ':',
        ' ',
        'c',
        'l',
        'o',
        's',
        'e',
    ];
    let head = g + end;
    assert("\r\nConnection: close\r\n\r\n"@ =~= end + "\r\n\r\n"@);
    assert(request_head(target, host, content_type, body.len()) =~= head + "\r\n\r\n"@);
    no_empty_line_together("POST "@, target);
    no_empty_line_together(a, " HTTP/1.1\r\nHost: "@);
    no_empty_line_together(b, host);
    no_empty_line_together(c, "\r\nContent-Type: "@);
    no_empty_line_together(d, content_type);
    no_empty_line_together(e, "\r\nContent-Length: "@);
    no_empty_line_together(f, digits);
    no_empty_line_together(g, end);
    a_head_ends_at_its_empty_line(head, body);
    request_lines(target, host, content_type, digits, head, end);
    assert(content_length(head) == body.len()) by {
        crate::number::unsigned_reads_back(body.len(), usize::MAX as nat);
    }
    assert(at_most(body, body.len()) == body);
}

/// The lines of the head of a request, and what they say.
proof fn request_lines(
    target: Seq<char>,
    host: Seq<char>,
    content_type: Seq<char>,
    digits: Seq<char>,
    head: Seq<char>,
    end: Seq<char>,
)
    requires
        is_line_text(target) && is_line_text(host) && is_line_text(content_type) && is_line_text(
            digits,
        ),
        target.len() > 0,
        forall|i: int| 0 <= i < target.len() ==> !is_white(#[trigger] target[i]),
        digits.len() > 0 && !is_white(digits[0]) && !is_white(digits.last()),
        end == seq![
            '\r',
            '\n',
            'C',
            'o',
            'n',
            'n',
            'e',
            'c',
            't',
            'i',
            'o',
            'n',
            ':',
            ' ',
            'c',
            'l',
            'o',
            's',
            'e',
        ],
        head == "POST "@ + target + " HTTP/1.1\r\nHost: "@ + host + "\r\nContent-Type: "@
            + content_type + "\r\nContent-Length: "@ + digits + end,
    ensures
        word_at(start_words(head), 0) == "POST"@,
        word_at(start_words(head), 1) == target,
        header_value(header_lines(head), "content-length"@) is Some,
        trim_of(header_value(header_lines(head), "content-length"@)->0) == digits,
{
    reveal_strlit("POST ");
    reveal_strlit("POST");
    reveal_strlit(" HTTP/1.1\r\nHost: ");
    reveal_strlit("\r\nContent-Type: ");
    reveal_strlit("\r\nContent-Length: ");
    reveal_strlit("content-length");
    let crlf = seq!['\r', '\n'];
    let version = seq!['H', 'T', 'T', 'P', '/', '1', '.', '1'];
    let first = "POST"@ + seq![' '] + (target + seq![' '] + version);
    let host_name = seq!['H', 'o', 's', 't'];
    let kind_name = seq!['C', 'o', 'n', 't', 'e', 'n', 't', '-', 'T', 'y', 'p', 'e'];
    let length_name = seq![
        'C',
        'o',
        'n',
        't',
        'e',
        'n',
        't',
        '-',
        'L',
        'e',
        'n',
        'g',
        't',
        'h',
    ];
    let second = host_name + seq![':'] + (seq![' '] + host);
    let third = kind_name + seq![':'] + (seq![' '] + content_type);
    let fourth = length_name + seq![':'] + (seq![' '] + digits);
    let last = end.skip(2);
    let rest3 = fourth + crlf + last;
    let rest2 = third + crlf + rest3;
    let rest1 = second + crlf + rest2;
    assert(head =~= first + crlf + rest1);
    a_line_ends_with_its_break(first, rest1);
    a_line_ends_with_its_break(second, rest2);
    a_line_ends_with_its_break(third, rest3);
    a_line_ends_with_its_break(fourth, last);
    let ls = lines_of(head);
    assert(ls[0] == first);
    assert(header_lines(head) =~= seq![second] + (seq![third] + (seq![fourth] + lines_of(last))));
    a_word_ends_at_a_blank("POST"@, target + seq![' '] + version);
    a_word_ends_at_a_blank(target, version);
    assert(start_words(head)[0] == "POST"@);
    assert(start_words(head)[1] == target);
    let h = header_lines(head);
    a_text_is_cut_at_the_first(host_name, ':', seq![' '] + host);
    a_text_is_cut_at_the_first(kind_name, ':', seq![' '] + content_type);
    a_text_is_cut_at_the_first(length_name, ':', seq![' '] + digits);
    first_of_is_unique(second, ':', host_name.len() as int);
    first_of_is_unique(third, ':', kind_name.len() as int);
    first_of_is_unique(fourth, ':', length_name.len() as int);
    assert("content-length"@.len() == 14);
    let low = |c: char| ascii_lower(c);
    assert(host_name.map_values(low).len() == 4 && kind_name.map_values(low).len() == 12
        && "content-length"@.map_values(low).len() == 14);
    assert(!same_but_case(host_name, "content-length"@)) by {
        crate::text::case_is_no_difference(host_name, "content-length"@, 0);
    }
    assert(!same_but_case(kind_name, "content-length"@)) by {
        crate::text::case_is_no_difference(kind_name, "content-length"@, 0);
    }
    assert(same_but_case(length_name, "content-length"@)) by {
        let x = length_name.map_values(|c: char| ascii_lower(c));
        let y = "content-length"@.map_values(|c: char| ascii_lower(c));
        assert(x =~= y);
    }
    assert(h[0] == second);
    let h1 = h.drop_first();
    assert(h1[0] == third);
    let h2 = h1.drop_first();
    assert(h2[0] == fourth);
    assert(header_value(h2, "content-length"@) == Some(seq![' '] + digits));
    assert(header_value(h1, "content-length"@) == header_value(h2, "content-length"@));
    assert(header_value(h, "content-length"@) == header_value(h1, "content-length"@));
    let value = seq![' '] + digits;
    assert(value.drop_first() =~= digits);
    assert(trim_start_of(value) == trim_start_of(digits));
    crate::text::what_is_trimmed_stays(digits);
    assert(trim_start_of(digits) == digits);
}

/// An upload names its session, its file and its token, and the one who reads it is told each.
pub proof fn an_upload_target_reads_back(session: Seq<char>, id: Seq<char>, token: Seq<char>)
    requires
        forall|i: int| 0 <= i < session.len() ==> session[i] != '&' && session[i] != '?',
        forall|i: int| 0 <= i < id.len() ==> id[i] != '&',
        forall|i: int| 0 <= i < token.len() ==> token[i] != '&',
    ensures
        before_first(
            "/api/localsend/v2/upload?sessionId="@ + session + "&fileId="@ + id + "&token="@ + token,
            '?',
        ) == "/api/localsend/v2/upload"@,
        ({
            let pairs = query_pairs(
                split_on(
                    after_first(
                        "/api/localsend/v2/upload?sessionId="@ + session + "&fileId="@ + id
                            + "&token="@ + token,
                        '?',
                    ),
                    '&',
                ),
            );
            last_value(pairs, "sessionId"@) == Some(session) && last_value(pairs, "fileId"@) == Some(
                id,
            ) && last_value(pairs, "token"@) == Some(token)
        }),
{
    reveal_strlit("/api/localsend/v2/upload?sessionId=");
    reveal_strlit("/api/localsend/v2/upload");
    reveal_strlit("&fileId=");
    reveal_strlit("&token=");
    reveal_strlit("sessionId");
    reveal_strlit("fileId");
    reveal_strlit("token");
    let target = "/api/localsend/v2/upload?sessionId="@ + session + "&fileId="@ + id + "&token="@
        + token;
    let a = "sessionId"@ + seq!['='] + session;
    let b = "fileId"@ + seq!['='] + id;
    let c = "token"@ + seq!['='] + token;
    let query = a + seq!['&'] + (b + seq!['&'] + c);
    assert(target =~= "/api/localsend/v2/upload"@ + seq!['?'] + query);
    let path = "/api/localsend/v2/upload"@;
    assert(forall|i: int| 0 <= i < path.len() ==> path[i] != '?');
    a_text_is_cut_at_the_first(path, '?', query);
    assert forall|i: int| 0 <= i < a.len() implies a[i] != '&' by {
        if i >= 10 {
            assert(a[i] == session[i - 10]);
        }
    }
    assert forall|i: int| 0 <= i < b.len() implies b[i] != '&' by {
        if i >= 7 {
            assert(b[i] == id[i - 7]);
        }
    }
    assert forall|i: int| 0 <= i < c.len() implies c[i] != '&' by {
        if i >= 6 {
            assert(c[i] == token[i - 6]);
        }
    }
    first_of_is_unique(query, '&', a.len() as int);
    assert(query.take(a.len() as int) =~= a);
    assert(query.skip(a.len() as int + 1) =~= b + seq!['&'] + c);
    let rest = b + seq!['&'] + c;
    first_of_is_unique(rest, '&', b.len() as int);
    assert(rest.take(b.len() as int) =~= b);
    assert(rest.skip(b.len() as int + 1) =~= c);
    first_of_is_unique(c, '&', c.len() as int);
    let parts = split_on(query, '&');
    assert(split_on(c, '&') =~= seq![c]);
    assert(split_on(rest, '&') =~= seq![b, c]);
    assert(parts =~= seq![a, b, c]);
    assert("sessionId"@ =~= seq!['s', 'e', 's', 's', 'i', 'o', 'n', 'I', 'd']);
    assert("fileId"@ =~= seq!['f', 'i', 'l', 'e', 'I', 'd']);
    assert("token"@ =~= seq!['t', 'o', 'k', 'e', 'n']);
    a_text_is_cut_at_the_first("sessionId"@, '=', session);
    a_text_is_cut_at_the_first("fileId"@, '=', id);
    a_text_is_cut_at_the_first("token"@, '=', token);
    first_of_is_unique(a, '=', 9);
    first_of_is_unique(b, '=', 6);
    first_of_is_unique(c, '=', 5);
    assert(parts.drop_last() =~= seq![a, b]);
    assert(parts.drop_last().drop_last() =~= seq![a]);
    assert(parts.drop_last().drop_last().drop_last() =~= Seq::empty());
    let pairs = query_pairs(parts);
    assert(query_pairs(seq![a].drop_last()) =~= Seq::empty());
    assert(query_pairs(seq![a]) =~= seq![("sessionId"@, session)]);
    assert(seq![a, b].drop_last() =~= seq![a]);
    assert(query_pairs(seq![a, b]) =~= seq![("sessionId"@, session), ("fileId"@, id)]);
    assert(pairs =~= seq![("sessionId"@, session), ("fileId"@, id), ("token"@, token)]);
    assert("sessionId"@.len() == 9 && "fileId"@.len() == 6 && "token"@.len() == 5);
    last_value_is_last(pairs, "sessionId"@, 0);
    last_value_is_last(pairs, "fileId"@, 1);
    last_value_is_last(pairs, "token"@, 2);
}

/// What is answered is what arrives: the one who sent a request reads the status and the body of the
/// answer as they were given, as a success where the status says so and as a failure where it does not.
pub proof fn what_is_answered_is_what_arrives(code: nat, reason: Seq<char>, body: Seq<u8>)
    requires
        code <= 65535,
        is_line_text(reason),
    ensures
        200 <= code < 300 ==> answer_of(
            encode_utf8(response_head(decimal(code) + " "@ + reason, body.len())) + body,
        ) == Ok::<Seq<u8>, Seq<char>>(body),
        !(200 <= code < 300) ==> answer_of(
            encode_utf8(response_head(decimal(code) + " "@ + reason, body.len())) + body,
        ) is Err,
{
    reveal_strlit("HTTP/1.1 ");
    reveal_strlit(" ");
    reveal_strlit("\r\nContent-Type: application/json\r\nContent-Length: ");
    reveal_strlit("\r\nConnection: close\r\n\r\n");
    reveal_strlit("\r\n\r\n");
    let number = decimal(code);
    let digits = decimal(body.len());
    digits_are_line_text(code);
    digits_are_line_text(body.len());
    let status = number + " "@ + reason;
    let end = seq![
        '\r',
        '\n',
        'C',
        'o',
        'n',
        'n',
        'e',
        'c',
        't',
        'i',
        'o',
        'n',
        ':',
        ' ',
        'c',
        'l',
        'o',
        's',
        'e',
    ];
    let a = "HTTP/1.1 "@ + status;
    let b = a + "\r\nContent-Type: application/json\r\nContent-Length: "@;
    let c = b + digits;
    let head = c + end;
    assert("\r\nConnection: close\r\n\r\n"@ =~= end + "\r\n\r\n"@);
    assert(response_head(status, body.len()) =~= head + "\r\n\r\n"@);
    no_empty_line_together(number, " "@);
    no_empty_line_together(number + " "@, reason);
    no_empty_line_together("HTTP/1.1 "@, status);
    no_empty_line_together(a, "\r\nContent-Type: application/json\r\nContent-Length: "@);
    no_empty_line_together(b, digits);
    no_empty_line_together(c, end);
    a_head_ends_at_its_empty_line(head, body);
    response_lines(number, reason, digits, head, end);
    crate::number::unsigned_reads_back(code, 65535);
    assert(head_gap() =~= seq![13u8, 10u8, 13u8, 10u8]);
}

/// The lines of the head of a response, and what they say.
proof fn response_lines(
    number: Seq<char>,
    reason: Seq<char>,
    digits: Seq<char>,
    head: Seq<char>,
    end: Seq<char>,
)
    requires
        is_line_text(number) && is_line_text(reason) && is_line_text(digits),
        number.len() > 0,
        forall|i: int| 0 <= i < number.len() ==> '0' <= #[trigger] number[i] <= '9',
        end == seq![
            '\r',
            '\n',
            'C',
            'o',
            'n',
            'n',
            'e',
            'c',
            't',
            'i',
            'o',
            'n',
            ':',
            ' ',
            'c',
            'l',
            'o',
            's',
            'e',
        ],
        head == "HTTP/1.1 "@ + (number + " "@ + reason)
            + "\r\nContent-Type: application/json\r\nContent-Length: "@ + digits + end,
    ensures
        lines_of(head).len() > 0,
        words_of(lines_of(head)[0]).len() >= 2,
        words_of(lines_of(head)[0])[1] == number,
        !chunked_head(head),
{
    reveal_strlit("HTTP/1.1 ");
    reveal_strlit(" ");
    reveal_strlit("\r\nContent-Type: application/json\r\nContent-Length: ");
    reveal_strlit("transfer-encoding");
    let crlf = seq!['\r', '\n'];
    let version = seq!['H', 'T', 'T', 'P', '/', '1', '.', '1'];
    let first = version + seq![' '] + (number + seq![' '] + reason);
    let kind_name = seq!['C', 'o', 'n', 't', 'e', 'n', 't', '-', 'T', 'y', 'p', 'e'];
    let kind = seq![
        ' ',
        'a',
        'p',
        'p',
        'l',
        'i',
        'c',
        'a',
        't',
        'i',
        'o',
        'n',
        '/',
        'j',
        's',
        'o',
        'n',
    ];
    let length_name = seq![
        'C',
        'o',
        'n',
        't',
        'e',
        'n',
        't',
        '-',
        'L',
        'e',
        'n',
        'g',
        't',
        'h',
    ];
    let end_name = seq!['C', 'o', 'n', 'n', 'e', 'c', 't', 'i', 'o', 'n'];
    let end_value = seq![' ', 'c', 'l', 'o', 's', 'e'];
    let second = kind_name + seq![':'] + kind;
    let third = length_name + seq![':'] + (seq![' '] + digits);
    let last = end_name + seq![':'] + end_value;
    assert(end.skip(2) =~= last);
    let rest2 = third + crlf + last;
    let rest1 = second + crlf + rest2;
    assert(head =~= first + crlf + rest1);
    a_line_ends_with_its_break(first, rest1);
    a_line_ends_with_its_break(second, rest2);
    a_line_ends_with_its_break(third, last);
    first_of_is_unique(last, '\n', last.len() as int);
    assert(lines_of(last) =~= seq![last]);
    let ls = lines_of(head);
    assert(ls =~= seq![first, second, third, last]);
    a_word_ends_at_a_blank(version, number + seq![' '] + reason);
    a_word_ends_at_a_blank(number, reason);
    assert(words_of(ls[0])[1] == number);
    a_text_is_cut_at_the_first(kind_name, ':', kind);
    a_text_is_cut_at_the_first(length_name, ':', seq![' '] + digits);
    a_text_is_cut_at_the_first(end_name, ':', end_value);
    crate::text::case_is_no_difference(kind_name, "transfer-encoding"@, 0);
    crate::text::case_is_no_difference(length_name, "transfer-encoding"@, 0);
    crate::text::case_is_no_difference(end_name, "transfer-encoding"@, 0);
    assert("transfer-encoding"@.len() == 17);
    assert(before_first(second, ':') == kind_name);
    assert(before_first(third, ':') == length_name);
    assert(before_first(last, ':') == end_name);
    assert(!says_chunked(second) && !says_chunked(third) && !says_chunked(last));
    assert forall|i: int| 1 <= i < ls.len() implies !says_chunked(#[trigger] ls[i]) by {
        assert(ls[1] == second && ls[2] == third && ls[3] == last);
    }
}

/// A request is what its path says, and what delivers something has to be a `POST`.
pub proof fn a_request_is_what_its_path_says(method: Seq<char>, path: Seq<char>)
    ensures
        path == "/api/localsend/v2/register"@ ==> route_of(method, path) == Route::Register,
        path == "/api/localsend/v2/info"@ && method == "GET"@ ==> route_of(method, path)
            == Route::Info,
        path == "/api/localsend/v2/prepare-upload"@ && method == "POST"@ ==> route_of(method, path)
            == Route::Prepare,
        path == "/api/localsend/v2/upload"@ && method == "POST"@ ==> route_of(method, path)
            == Route::Upload,
        path == "/api/localsend/v2/cancel"@ && method == "POST"@ ==> route_of(method, path)
            == Route::Cancel,
        method != "POST"@ ==> route_of(method, path) != Route::Prepare && route_of(method, path)
            != Route::Upload && route_of(method, path) != Route::Cancel,
        method != "GET"@ ==> route_of(method, path) != Route::Info,
{
    reveal_strlit("/api/localsend/v2/register");
    reveal_strlit("/api/localsend/v2/info");
    reveal_strlit("/api/localsend/v2/prepare-upload");
    reveal_strlit("/api/localsend/v2/upload");
    reveal_strlit("/api/localsend/v2/cancel");
    reveal_strlit("GET");
    reveal_strlit("POST");
    assert("GET"@.len() == 3 && "POST"@.len() == 4);
    assert("/api/localsend/v2/register"@[18] == 'r' && "/api/localsend/v2/info"@[18] == 'i');
    assert("/api/localsend/v2/prepare-upload"@[18] == 'p');
    assert("/api/localsend/v2/upload"@[18] == 'u' && "/api/localsend/v2/cancel"@[18] == 'c');
}

/// An offer is refused as a bad one where it cannot be read or offers nothing, and as one that comes at a
/// bad time only where there is nothing wrong with it.
pub proof fn an_offer_is_refused_for_what_is_wrong(value: Json, busy: bool)
    ensures
        offer_refusal(None, busy) is Some && (offer_refusal(None, busy)->0).0 == "400 Bad Request"@,
        offered_entries(value) is None ==> offer_refusal(Some(value), busy) is Some && (offer_refusal(
            Some(value),
            busy,
        )->0).0 == "400 Bad Request"@,
        offered_entries(value) is Some && offered_entries(value)->0.len() > 0 && !any_too_large(
            offered_entries(value)->0,
        ) ==> (offer_refusal(Some(value), busy) is Some <==> busy),
        offered_entries(value) is Some && offered_entries(value)->0.len() > 0 && !any_too_large(
            offered_entries(value)->0,
        ) && busy ==> (offer_refusal(Some(value), busy)->0).0 == "409 Conflict"@,
        offered_entries(value) is Some && any_too_large(offered_entries(value)->0) ==> (offer_refusal(
            Some(value),
            busy,
        )->0).0 == "400 Bad Request"@,
{
}

} // verus!
