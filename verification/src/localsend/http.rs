//! The requests to another device and what it answers, and the pinning of its certificate.
//!
//! There is no certificate authority. A device announces the SHA-256 fingerprint of its
//! certificate, and a connection is accepted only if the certificate that is presented hashes to
//! that value.

use vstd::prelude::*;
use vstd::seq_lib::*;
use vstd::string::*;
use vstd::utf8::{
    encode_utf8, encode_utf8_decode_utf8, encode_utf8_valid_utf8, is_ascii_chars,
    is_ascii_chars_encode_utf8,
};

use crate::bytes::{
    bytes_at, extend, extend_text, first_bytes, first_bytes_is_unique, hex_digit, hex_number_of,
    hex_text, hex_text_reads_back, hex_upper_of, hex_value, parse_hex, part, position, same_bytes,
};
use crate::localsend::cert::{fingerprint_spec, sha256, sha256_of, DIGEST_LIMIT};
use crate::number::{decimal, parse_unsigned, unsigned_of, write_u64};
use crate::text::{
    chars_of, contains, first_of, first_of_is_unique, has, index_of, lines, lines_of, lossy,
    lossy_of, lower_of, lowercase, same_but_case, same_ignoring_case, slice, split, split_on,
    string_of, texts, trim, trim_of, words, words_of,
};

verus! {

/// How many seconds a device may take to answer. It answers only once a person has accepted the
/// transfer, and a large file holds the connection for as long as it takes.
pub const TIMEOUT_SECONDS: u64 = 180;

/// Where a request is going, and how it should be secured.
#[derive(Debug)]
pub struct Endpoint {
    pub host: String,
    pub port: u16,
    pub https: bool,
    /// The SHA-256 certificate fingerprint that the device announced, in hexadecimal.
    pub fingerprint: String,
}

/// Accepts exactly one certificate: the one whose SHA-256 matches what the device announced.
#[derive(Debug)]
pub struct PinnedFingerprint {
    pub expected: Vec<u8>,
}

/// A character that may stand between the digits of a fingerprint.
pub open spec fn is_separator(c: char) -> bool {
    c == ':' || c == ' ' || c == '-'
}

/// A text without the separators.
pub open spec fn unseparated(s: Seq<char>) -> Seq<char> {
    s.filter(|c: char| !is_separator(c))
}

/// The value of two characters as a byte: two digits, or a plus sign and a digit.
pub open spec fn pair_value(a: char, b: char) -> Option<nat> {
    match (hex_value(a), hex_value(b)) {
        (Some(x), Some(y)) => Some(16 * x + y),
        (None, Some(y)) => if a == '+' {
            Some(y)
        } else {
            None
        },
        _ => None,
    }
}

/// The bytes that pairs of characters write, if there are only pairs and each has a value.
pub open spec fn pairs_value(s: Seq<char>) -> Option<Seq<u8>>
    decreases s.len(),
{
    if s.len() == 0 {
        Some(Seq::empty())
    } else if s.len() == 1 {
        None
    } else {
        match (pairs_value(s.take(s.len() - 2)), pair_value(s[s.len() - 2], s[s.len() - 1])) {
            (Some(before), Some(v)) => Some(before.push(v as u8)),
            _ => None,
        }
    }
}

/// The bytes that a fingerprint writes.
pub open spec fn hex_bytes_of(s: Seq<char>) -> Option<Seq<u8>> {
    pairs_value(unseparated(s))
}

/// A pair without a value leaves the whole without one.
proof fn pairs_value_of_start(s: Seq<char>, i: int)
    requires
        0 <= i <= s.len(),
        (s.len() - i) % 2 == 0,
    ensures
        pairs_value(s.take(i)) is None ==> pairs_value(s) is None,
    decreases s.len() - i,
{
    if i < s.len() {
        pairs_value_of_start(s, i + 2);
        assert(s.take(i + 2).take(i) =~= s.take(i));
    } else {
        assert(s.take(i) =~= s);
    }
}

/// A text of odd length has no pairs.
proof fn pairs_value_of_odd(s: Seq<char>)
    requires
        s.len() % 2 == 1,
    ensures
        pairs_value(s) is None,
    decreases s.len(),
{
    if s.len() > 1 {
        pairs_value_of_odd(s.take(s.len() - 2));
    }
}

/// The bytes that a fingerprint writes, with or without separators between the digits.
pub fn decode_hex(value: &str) -> (r: Option<Vec<u8>>)
    ensures
        match r {
            Some(bytes) => hex_bytes_of(value@) == Some(bytes@),
            None => hex_bytes_of(value@) is None,
        },
{
    let chars = chars_of(value);
    let mut cleaned: Vec<char> = Vec::new();
    let ghost keep = |c: char| !is_separator(c);
    let mut i: usize = 0;
    reveal(Seq::filter);
    assert(chars@.take(0).filter(keep) =~= Seq::empty());
    while i < chars.len()
        invariant
            i <= chars@.len(),
            keep == (|c: char| !is_separator(c)),
            cleaned@ == chars@.take(i as int).filter(keep),
        decreases chars.len() - i,
    {
        reveal(Seq::filter);
        let c = chars[i];
        assert(chars@.take(i + 1).drop_last() =~= chars@.take(i as int));
        if !(c == ':' || c == ' ' || c == '-') {
            cleaned.push(c);
        }
        i += 1;
    }
    assert(chars@.take(i as int) =~= chars@);
    let n: usize = cleaned.len();
    if n % 2 != 0 {
        proof {
            pairs_value_of_odd(cleaned@);
        }
        return None;
    }
    let mut out: Vec<u8> = Vec::new();
    let mut k: usize = 0;
    assert(cleaned@.take(0) =~= Seq::empty());
    while k < n
        invariant
            n == cleaned@.len(),
            n % 2 == 0,
            k % 2 == 0,
            k <= n,
            cleaned@ == unseparated(value@),
            pairs_value(cleaned@.take(k as int)) == Some(out@),
        decreases n - k,
    {
        let ghost next = cleaned@.take(k + 2);
        assert(next.take(k as int) =~= cleaned@.take(k as int));
        let first = cleaned[k];
        match (hex_digit(first), hex_digit(cleaned[k + 1])) {
            (Some(a), Some(b)) => {
                out.push(a * 16 + b);
            },
            (None, Some(b)) if first == '+' => {
                out.push(b);
            },
            _ => {
                proof {
                    pairs_value_of_start(cleaned@, k + 2);
                }
                return None;
            },
        }
        k += 2;
    }
    assert(cleaned@.take(k as int) =~= cleaned@);
    Some(out)
}

/// Whether the pin is the one of a fingerprint.
pub open spec fn is_pinned(r: Result<PinnedFingerprint, String>, fingerprint: Seq<char>) -> bool {
    match r {
        Ok(pin) => hex_bytes_of(fingerprint) == Some(pin.expected@),
        Err(message) => hex_bytes_of(fingerprint) is None && message@
            == "device announced an unreadable fingerprint"@,
    }
}

/// Whether a certificate is the one that is expected.
pub open spec fn is_accepted(pin: PinnedFingerprint, certificate: Seq<u8>) -> bool {
    sha256_of(certificate) == pin.expected@
}

impl PinnedFingerprint {
    /// Expects the certificate with the announced fingerprint. A fingerprint that cannot be read
    /// is refused.
    pub fn new(fingerprint: &str) -> (r: Result<PinnedFingerprint, String>)
        ensures
            is_pinned(r, fingerprint@),
    {
        match decode_hex(fingerprint) {
            Some(expected) => Ok(PinnedFingerprint { expected }),
            None => Err("device announced an unreadable fingerprint".to_owned()),
        }
    }

    /// Whether this is the certificate that is expected.
    pub fn accepts(&self, certificate: &[u8]) -> (r: bool)
        requires
            certificate@.len() < DIGEST_LIMIT,
        ensures
            r == is_accepted(*self, certificate@),
    {
        same_bytes(&sha256(certificate), self.expected.as_slice())
    }
}

/// The head of a request.
pub open spec fn request_head(
    path: Seq<char>,
    host: Seq<char>,
    content_type: Seq<char>,
    length: nat,
) -> Seq<char> {
    "POST "@ + path + " HTTP/1.1\r\nHost: "@ + host + "\r\nContent-Type: "@ + content_type
        + "\r\nContent-Length: "@ + decimal(length) + "\r\nConnection: close\r\n\r\n"@
}

/// The bytes of a POST request.
pub fn request_bytes(path: &str, host: &str, content_type: &str, body: &[u8]) -> (r: Vec<u8>)
    ensures
        r@ == encode_utf8(request_head(path@, host@, content_type@, body@.len())) + body@,
{
    let n: usize = body.len();
    let mut head = "POST ".to_owned();
    head.append(path);
    head.append(" HTTP/1.1\r\nHost: ");
    head.append(host);
    head.append("\r\nContent-Type: ");
    head.append(content_type);
    head.append("\r\nContent-Length: ");
    head.append(write_u64(n as u64).as_str());
    head.append("\r\nConnection: close\r\n\r\n");
    let mut out: Vec<u8> = Vec::new();
    extend_text(&mut out, head.as_str());
    extend(&mut out, body, 0, n);
    assert(body@.subrange(0, n as int) =~= body@);
    assert(out@ =~= encode_utf8(head@) + body@);
    out
}

/// The status code that stands second in the first line of the head.
pub open spec fn status_of(head: Seq<char>) -> Option<nat> {
    let ls = lines_of(head);
    if ls.len() == 0 {
        None
    } else {
        let ws = words_of(ls[0]);
        if ws.len() < 2 {
            None
        } else {
            unsigned_of(ws[1], 65535)
        }
    }
}

/// Whether a header line says that the body comes in chunks.
pub open spec fn says_chunked(line: Seq<char>) -> bool {
    let c = first_of(line, ':');
    c < line.len() && same_but_case(line.take(c), "transfer-encoding"@) && has(
        lower_of(line.skip(c + 1)),
        "chunked"@,
    )
}

/// Whether any line after the first says that the body comes in chunks.
pub open spec fn chunked_head(head: Seq<char>) -> bool {
    exists|i: int| 1 <= i < lines_of(head).len() && says_chunked(#[trigger] lines_of(head)[i])
}

/// The size text of a chunk header: what stands before any extension.
pub open spec fn size_text(header: Seq<char>) -> Seq<char> {
    trim_of(split_on(header, ';')[0])
}

/// The body that a row of chunks carries, or the size that cannot be read.
///
/// A chunk is its size in hexadecimal, a line break, its bytes and another line break; a chunk of
/// size zero ends the row. What has arrived of a chunk that is cut short is kept.
pub open spec fn dechunked(rest: Seq<u8>) -> Result<Seq<u8>, Seq<char>>
    decreases rest.len(),
    via dechunked_ends
{
    match first_bytes(rest, seq![13u8, 10u8]) {
        None => Ok(Seq::empty()),
        Some(e) => {
            let text = size_text(lossy_of(rest.take(e)));
            let data = rest.skip(e + 2);
            match hex_number_of(text) {
                Some(size) => if size > usize::MAX {
                    Err(text)
                } else if size == 0 {
                    Ok(Seq::empty())
                } else if data.len() < size {
                    Ok(data)
                } else {
                    let next = if size + 2 <= data.len() {
                        data.skip(size as int + 2)
                    } else {
                        Seq::empty()
                    };
                    match dechunked(next) {
                        Ok(more) => Ok(data.take(size as int) + more),
                        Err(bad) => Err(bad),
                    }
                },
                None => Err(text),
            }
        },
    }
}

#[via_fn]
proof fn dechunked_ends(rest: Seq<u8>) {
    crate::bytes::first_bytes_is_first(rest, seq![13u8, 10u8]);
}

/// The message for a chunk size that cannot be read.
pub open spec fn bad_chunk(text: Seq<char>) -> Seq<char> {
    "device sent an unreadable chunk size \""@ + text + "\""@
}

/// Strips chunked framing.
pub fn dechunk(body: &[u8]) -> (r: Result<Vec<u8>, String>)
    ensures
        match r {
            Ok(out) => dechunked(body@) == Ok::<Seq<u8>, Seq<char>>(out@),
            Err(message) => dechunked(body@) is Err && message@ == bad_chunk(
                dechunked(body@)->Err_0,
            ),
        },
{
    let n: usize = body.len();
    let mut out: Vec<u8> = Vec::new();
    let mut from: usize = 0;
    let crlf: Vec<u8> = vec![13u8, 10u8];
    assert(crlf@ =~= seq![13u8, 10u8]);
    assert(body@.skip(0) =~= body@);
    proof {
        if dechunked(body@) is Ok {
            assert(out@ + dechunked(body@)->Ok_0 =~= dechunked(body@)->Ok_0);
        }
    }
    loop
        invariant
            n == body@.len(),
            from <= n,
            crlf@ == seq![13u8, 10u8],
            match dechunked(body@.skip(from as int)) {
                Ok(more) => dechunked(body@) == Ok::<Seq<u8>, Seq<char>>(out@ + more),
                Err(bad) => dechunked(body@) == Err::<Seq<u8>, Seq<char>>(bad),
            },
        decreases n - from,
    {
        let ghost all = body@.skip(from as int);
        let rest = part(body, from, n);
        assert(rest@ =~= all);
        let end = match position(&rest, &crlf) {
            None => {
                assert(out@ + Seq::<u8>::empty() =~= out@);
                return Ok(out);
            },
            Some(end) => end,
        };
        let header = lossy(&part(&rest, 0, end));
        assert(rest@.subrange(0, end as int) =~= all.take(end as int));
        let pieces = split(header.as_str(), ';');
        assert(texts(pieces@)[0] == pieces@[0]@);
        let text = trim(pieces[0].as_str());
        let start: usize = from + end + 2;
        let ghost data = all.skip(end + 2);
        assert(data =~= body@.skip(start as int));
        match parse_hex(text.as_str()) {
            None => {
                let mut message = "device sent an unreadable chunk size \"".to_owned();
                message.append(text.as_str());
                message.append("\"");
                return Err(message);
            },
            Some(size) => {
                if size == 0 {
                    assert(out@ + Seq::<u8>::empty() =~= out@);
                    return Ok(out);
                }
                if n - start < size {
                    extend(&mut out, body, start, n);
                    assert(body@.subrange(start as int, n as int) =~= data);
                    return Ok(out);
                }
                let ghost before = out@;
                extend(&mut out, body, start, start + size);
                assert(body@.subrange(start as int, start + size) =~= data.take(size as int));
                let next: usize = if n - start - size >= 2 { start + size + 2 } else { n };
                let ghost next_seq = if size + 2 <= data.len() {
                    data.skip(size + 2)
                } else {
                    Seq::empty()
                };
                assert(next_seq =~= body@.skip(next as int));
                proof {
                    if dechunked(next_seq) is Ok {
                        let more = dechunked(next_seq)->Ok_0;
                        assert(before + (data.take(size as int) + more) =~= out@ + more);
                    }
                }
                from = next;
            },
        }
    }
}

/// What a raw response holds: the status and the body, or what is wrong with it.
pub open spec fn response_of(raw: Seq<u8>) -> Result<(nat, Seq<u8>), Seq<char>> {
    match first_bytes(raw, seq![13u8, 10u8, 13u8, 10u8]) {
        None => Err("malformed response from device"@),
        Some(e) => {
            let head = lossy_of(raw.take(e));
            let body = raw.skip(e + 4);
            match status_of(head) {
                None => Err("device sent no status line"@),
                Some(status) => if chunked_head(head) {
                    match dechunked(body) {
                        Ok(out) => Ok((status, out)),
                        Err(text) => Err(bad_chunk(text)),
                    }
                } else {
                    Ok((status, body))
                },
            }
        },
    }
}

/// Reads the status code of a head.
fn read_status(head: &str) -> (r: Option<u16>)
    ensures
        match r {
            Some(status) => status_of(head@) == Some(status as nat),
            None => status_of(head@) is None,
        },
{
    let ls = lines(head);
    if ls.len() == 0 {
        assert(texts(ls@).len() == 0);
        return None;
    }
    assert(texts(ls@)[0] == ls@[0]@);
    let ws = words(ls[0].as_str());
    if ws.len() < 2 {
        assert(texts(ws@).len() < 2);
        return None;
    }
    assert(texts(ws@)[1] == ws@[1]@);
    match parse_unsigned(ws[1].as_str(), 65535) {
        Some(n) => Some(n as u16),
        None => None,
    }
}

/// Whether a header line says that the body comes in chunks.
fn line_says_chunked(line: &str) -> (r: bool)
    ensures
        r == says_chunked(line@),
{
    let chars = chars_of(line);
    assert(line@.skip(0) =~= line@);
    let c: usize = index_of(&chars, ':', 0);
    if c >= chars.len() {
        return false;
    }
    let name = string_of(&slice(&chars, 0, c));
    let value = string_of(&slice(&chars, c + 1, chars.len()));
    assert(name@ =~= line@.take(c as int));
    assert(value@ =~= line@.skip(c + 1));
    same_ignoring_case(name.as_str(), "transfer-encoding") && contains(
        lowercase(value.as_str()).as_str(),
        "chunked",
    )
}

/// Whether a head says that the body comes in chunks.
fn head_says_chunked(head: &str) -> (r: bool)
    ensures
        r == chunked_head(head@),
{
    let ls = lines(head);
    let ghost all = lines_of(head@);
    let mut i: usize = 1;
    while i < ls.len()
        invariant
            texts(ls@) == all,
            all == lines_of(head@),
            1 <= i,
            forall|k: int| 1 <= k < i && k < all.len() ==> !says_chunked(#[trigger] all[k]),
        decreases ls.len() - i,
    {
        assert(all[i as int] == ls@[i as int]@);
        if line_says_chunked(ls[i].as_str()) {
            return true;
        }
        i += 1;
    }
    assert(all.len() == ls@.len());
    false
}

/// Splits a raw response into its status code and body.
pub fn parse_response(raw: &[u8]) -> (r: Result<(u16, Vec<u8>), String>)
    ensures
        match r {
            Ok((status, body)) => response_of(raw@) == Ok::<(nat, Seq<u8>), Seq<char>>(
                (status as nat, body@),
            ),
            Err(message) => response_of(raw@) == Err::<(nat, Seq<u8>), Seq<char>>(message@),
        },
{
    let n: usize = raw.len();
    let gap: Vec<u8> = vec![13u8, 10u8, 13u8, 10u8];
    assert(gap@ =~= seq![13u8, 10u8, 13u8, 10u8]);
    match position(raw, &gap) {
        None => Err("malformed response from device".to_owned()),
        Some(e) => {
            let head = lossy(&part(raw, 0, e));
            assert(raw@.subrange(0, e as int) =~= raw@.take(e as int));
            match read_status(head.as_str()) {
                None => Err("device sent no status line".to_owned()),
                Some(status) => {
                    let body = part(raw, e + 4, n);
                    assert(body@ =~= raw@.skip(e + 4));
                    if head_says_chunked(head.as_str()) {
                        match dechunk(&body) {
                            Ok(out) => Ok((status, out)),
                            Err(message) => Err(message),
                        }
                    } else {
                        Ok((status, body))
                    }
                },
            }
        },
    }
}

/// The message for an answer that is not a success.
pub open spec fn refusal(status: nat, detail: Seq<char>) -> Seq<char> {
    if detail.len() == 0 {
        "device answered HTTP "@ + decimal(status)
    } else {
        "device answered HTTP "@ + decimal(status) + ": "@ + detail
    }
}

/// What a raw response to a request comes to: the body of a success, or what went wrong.
pub open spec fn answer_of(raw: Seq<u8>) -> Result<Seq<u8>, Seq<char>> {
    match response_of(raw) {
        Err(message) => Err(message),
        Ok((status, body)) => if 200 <= status < 300 {
            Ok(body)
        } else {
            Err(refusal(status, trim_of(lossy_of(body))))
        },
    }
}

impl Endpoint {
    /// The bytes of the POST of `body` to `path` at this endpoint.
    pub fn post(&self, path: &str, content_type: &str, body: &[u8]) -> (r: Vec<u8>)
        ensures
            r@ == encode_utf8(request_head(path@, self.host@, content_type@, body@.len())) + body@,
    {
        request_bytes(path, self.host.as_str(), content_type, body)
    }
}

/// The body of a response, failing on any status that is not a success.
pub fn answer(raw: &[u8]) -> (r: Result<Vec<u8>, String>)
    ensures
        match r {
            Ok(body) => answer_of(raw@) == Ok::<Seq<u8>, Seq<char>>(body@),
            Err(message) => answer_of(raw@) == Err::<Seq<u8>, Seq<char>>(message@),
        },
{
    match parse_response(raw) {
        Err(message) => Err(message),
        Ok((status, body)) => {
            if 200 <= status && status < 300 {
                return Ok(body);
            }
            let detail = trim(lossy(&body).as_str());
            let mut message = "device answered HTTP ".to_owned();
            message.append(write_u64(status as u64).as_str());
            if chars_of(detail.as_str()).len() > 0 {
                message.append(": ");
                message.append(detail.as_str());
            }
            Err(message)
        },
    }
}

/// A text that holds no separator is left as it is.
proof fn unseparated_keeps(s: Seq<char>)
    requires
        forall|i: int| 0 <= i < s.len() ==> !is_separator(#[trigger] s[i]),
    ensures
        unseparated(s) == s,
    decreases s.len(),
{
    reveal(Seq::filter);
    if s.len() > 0 {
        unseparated_keeps(s.drop_last());
        assert(s.drop_last().push(s.last()) =~= s);
    } else {
        assert(unseparated(s) =~= s);
    }
}

/// Bytes written in capital hexadecimal read back as those bytes.
pub proof fn fingerprint_reads_back(bytes: Seq<u8>)
    ensures
        hex_bytes_of(hex_upper_of(bytes)) == Some(bytes),
    decreases bytes.len(),
{
    let s = hex_upper_of(bytes);
    unseparated_keeps(s);
    if bytes.len() == 0 {
        assert(s =~= Seq::empty());
        assert(bytes =~= Seq::empty());
    } else {
        let front = bytes.drop_last();
        fingerprint_reads_back(front);
        unseparated_keeps(hex_upper_of(front));
        assert(s.take(s.len() - 2) =~= hex_upper_of(front));
        assert(front.push(bytes.last()) =~= bytes);
    }
}

/// A pin made from the fingerprint of a certificate expects the digest of that certificate, so it
/// accepts the certificate and every other that it accepts has the same digest.
pub proof fn pin_expects_the_announced_certificate(der: Seq<u8>)
    ensures
        hex_bytes_of(fingerprint_spec(der)) == Some(sha256_of(der)),
{
    fingerprint_reads_back(sha256_of(der));
}

/// A body in chunks: each its size, a line break, its bytes and a line break, and a chunk of size
/// zero at the end.
pub open spec fn chunked_body(chunks: Seq<Seq<u8>>) -> Seq<u8>
    decreases chunks.len(),
{
    if chunks.len() == 0 {
        encode_utf8(hex_text(0)) + seq![13u8, 10u8] + seq![13u8, 10u8]
    } else {
        encode_utf8(hex_text(chunks[0].len())) + seq![13u8, 10u8] + (chunks[0] + seq![13u8, 10u8]
            + chunked_body(chunks.drop_first()))
    }
}

/// The chunks one after the other.
pub open spec fn chunks_joined(chunks: Seq<Seq<u8>>) -> Seq<u8>
    decreases chunks.len(),
{
    if chunks.len() == 0 {
        Seq::empty()
    } else {
        chunks[0] + chunks_joined(chunks.drop_first())
    }
}

/// A chunk header reads as the size that was written.
proof fn chunk_header_reads(n: nat, tail: Seq<u8>)
    ensures
        ({
            let rest = encode_utf8(hex_text(n)) + seq![13u8, 10u8] + tail;
            first_bytes(rest, seq![13u8, 10u8]) matches Some(e) && hex_number_of(
                size_text(lossy_of(rest.take(e))),
            ) == Some(n) && rest.skip(e + 2) == tail
        }),
{
    let t = hex_text(n);
    let b = encode_utf8(t);
    let rest = b + seq![13u8, 10u8] + tail;
    hex_text_reads_back(n);
    assert(is_ascii_chars(t)) by {
        assert forall|i: int| 0 <= i < t.len() implies 0 <= #[trigger] (t[i] as nat) < 128 by {
            assert(hex_value(t[i]) is Some);
        }
    }
    is_ascii_chars_encode_utf8(t);
    let e = b.len() as int;
    assert(b.len() == t.len());
    assert(bytes_at(rest, seq![13u8, 10u8], e)) by {
        assert(rest.subrange(e, e + 2) =~= seq![13u8, 10u8]);
    }
    assert forall|j: int| 0 <= j < e implies !bytes_at(rest, seq![13u8, 10u8], j) by {
        assert(hex_value(t[j]) is Some);
        assert(b[j] == t[j] as u8);
        assert(rest[j] == b[j]);
        if bytes_at(rest, seq![13u8, 10u8], j) {
            assert(rest.subrange(j, j + 2)[0] == 13u8);
        }
    }
    first_bytes_is_unique(rest, seq![13u8, 10u8], e);
    assert(rest.take(e) =~= b);
    assert(rest.skip(e + 2) =~= tail);
    encode_utf8_valid_utf8(t);
    encode_utf8_decode_utf8(t);
    assert(lossy_of(b) == t);
    assert forall|j: int| 0 <= j < t.len() implies t[j] != ';' by {
        assert(hex_value(t[j]) is Some);
    }
    first_of_is_unique(t, ';', t.len() as int);
    assert(split_on(t, ';') == seq![t]);
    assert(hex_value(t[0]) is Some);
    assert(hex_value(t.last()) is Some);
    assert(trim_of(t) == t);
}

/// Stripping the framing of chunks gives the chunks one after the other.
pub proof fn dechunking_undoes_chunking(chunks: Seq<Seq<u8>>)
    requires
        forall|i: int| 0 <= i < chunks.len() ==> 0 < (#[trigger] chunks[i]).len() <= usize::MAX,
    ensures
        dechunked(chunked_body(chunks)) == Ok::<Seq<u8>, Seq<char>>(chunks_joined(chunks)),
    decreases chunks.len(),
{
    if chunks.len() == 0 {
        chunk_header_reads(0, seq![13u8, 10u8]);
    } else {
        let chunk = chunks[0];
        let more = chunked_body(chunks.drop_first());
        let tail = chunk + seq![13u8, 10u8] + more;
        chunk_header_reads(chunk.len(), tail);
        dechunking_undoes_chunking(chunks.drop_first());
        assert(tail.take(chunk.len() as int) =~= chunk);
        assert(tail.skip(chunk.len() as int + 2) =~= more);
    }
}

/// A pin that was made from the fingerprint of a certificate lets that certificate through, and no
/// other but one with the same digest.
pub proof fn only_the_announced_certificate_is_accepted(
    pin: Result<PinnedFingerprint, String>,
    announced: Seq<u8>,
    presented: Seq<u8>,
    accepted: bool,
)
    requires
        is_pinned(pin, fingerprint_spec(announced)),
        pin is Ok ==> accepted == is_accepted(pin->Ok_0, presented),
    ensures
        pin is Ok,
        presented == announced ==> accepted,
        accepted ==> sha256_of(presented) == sha256_of(announced),
{
    pin_expects_the_announced_certificate(announced);
}

/// Separators between the digits of a fingerprint change nothing, and another letter than a digit has
/// is refused.
pub proof fn separators_change_nothing(a: Seq<char>, c: char, b: Seq<char>)
    requires
        c == ':' || c == ' ' || c == '-',
    ensures
        hex_bytes_of(a + seq![c] + b) == hex_bytes_of(a + b),
{
    let keep = |c: char| !is_separator(c);
    Seq::filter_distributes_over_add(a + seq![c], b, keep);
    Seq::filter_distributes_over_add(a, seq![c], keep);
    Seq::filter_distributes_over_add(a, b, keep);
    assert(seq![c].filter(keep) =~= Seq::empty()) by {
        reveal(Seq::filter);
        assert(seq![c].drop_last() =~= Seq::empty());
        assert(Seq::<char>::empty().filter(keep) =~= Seq::empty());
    }
    assert(unseparated(a + seq![c] + b) =~= unseparated(a + b));
}

/// A status of success gives the body, and any other is a failure that names the status.
pub proof fn only_success_is_an_answer(raw: Seq<u8>, status: nat, body: Seq<u8>)
    requires
        response_of(raw) == Ok::<(nat, Seq<u8>), Seq<char>>((status, body)),
    ensures
        200 <= status <= 299 ==> answer_of(raw) == Ok::<Seq<u8>, Seq<char>>(body),
        status < 200 || status > 299 ==> answer_of(raw) is Err && answer_of(raw)->Err_0.take(
            ("device answered HTTP "@ + decimal(status)).len() as int,
        ) == "device answered HTTP "@ + decimal(status),
{
    let start = "device answered HTTP "@ + decimal(status);
    if status < 200 || status > 299 {
        let said = answer_of(raw)->Err_0;
        assert(said.take(start.len() as int) =~= start);
    }
}

/// A header says that the body comes in chunks where it is the one for that and speaks of chunks, in
/// whatever case and whatever stands around it.
pub proof fn chunks_are_announced(name: Seq<char>, value: Seq<char>)
    requires
        forall|i: int| 0 <= i < name.len() ==> name[i] != ':',
    ensures
        same_but_case(name, "transfer-encoding"@) ==> (says_chunked(name + seq![':'] + value) <==> has(
            lower_of(value),
            "chunked"@,
        )),
        !same_but_case(name, "transfer-encoding"@) ==> !says_chunked(name + seq![':'] + value),
        !says_chunked(name),
{
    let line = name + seq![':'] + value;
    crate::text::first_of_is_unique(line, ':', name.len() as int);
    crate::text::first_of_is_unique(name, ':', name.len() as int);
    assert(line.take(name.len() as int) =~= name);
    assert(line.skip(name.len() as int + 1) =~= value);
}

} // verus!
