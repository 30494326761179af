//! This device's identity: a self-signed certificate and the fingerprint derived from it.
//!
//! The fingerprint that a device announces is its identity, and peers pin it.

use vstd::prelude::*;
use vstd::string::*;

use crate::bytes::{hex_upper, hex_upper_of};
use crate::text::{
    all_ascii, begins_with, chars_of, joined, lines, lines_of, starts, texts, trim, trim_of,
};

verus! {

/// The greatest number of bytes that can be digested, plus one.
pub const DIGEST_LIMIT: u64 = 0x2000_0000_0000_0000;

/// A certificate, its private key and its fingerprint.
#[derive(Debug)]
pub struct Identity {
    /// PEM-encoded certificate.
    pub certificate_pem: String,
    /// PEM-encoded private key.
    pub key_pem: String,
    /// SHA-256 of the certificate DER in capital hexadecimal.
    pub fingerprint: String,
}

/// The SHA-256 digest of the bytes.
pub uninterp spec fn sha256_of(data: Seq<u8>) -> Seq<u8>;

/// `ring::digest::digest` with `ring::digest::SHA256` gives the digest of the data: 32 bytes that
/// depend on the data alone. It panics on data whose length in bits does not fit 64 bits.
#[verifier::external_body]
pub(crate) fn sha256(data: &[u8]) -> (r: Vec<u8>)
    requires
        data@.len() < DIGEST_LIMIT,
    ensures
        r@ == sha256_of(data@),
        r@.len() == 32,
{
    ring::digest::digest(&ring::digest::SHA256, data).as_ref().to_vec()
}

/// The value of a base64 character.
pub open spec fn sextet(c: char) -> Option<nat> {
    if 'A' <= c <= 'Z' {
        Some((c as nat - 'A' as nat) as nat)
    } else if 'a' <= c <= 'z' {
        Some((c as nat - 'a' as nat + 26) as nat)
    } else if '0' <= c <= '9' {
        Some((c as nat - '0' as nat + 52) as nat)
    } else if c == '+' {
        Some(62nat)
    } else if c == '/' {
        Some(63nat)
    } else {
        None
    }
}

/// Padding, or white space within ASCII.
pub open spec fn is_filler(c: char) -> bool {
    c == '=' || c == ' ' || c == '\t' || c == '\n' || c == '\u{c}' || c == '\r'
}

/// The values of the characters that are not filler, if each of them has one.
pub open spec fn sextets(s: Seq<char>) -> Option<Seq<nat>>
    decreases s.len(),
{
    if s.len() == 0 {
        Some(Seq::empty())
    } else if is_filler(s.last()) {
        sextets(s.drop_last())
    } else {
        match (sextets(s.drop_last()), sextet(s.last())) {
            (Some(before), Some(v)) => Some(before.push(v)),
            _ => None,
        }
    }
}

/// The bytes that six-bit values spell: each four of them give three bytes, a rest of three gives
/// two and a rest of two gives one.
pub open spec fn spelled(v: Seq<nat>) -> Seq<u8>
    decreases v.len(),
{
    if v.len() < 2 {
        Seq::empty()
    } else {
        let first = (v[0] * 4 + v[1] / 16) as u8;
        if v.len() == 2 {
            seq![first]
        } else {
            let second = (v[1] % 16 * 16 + v[2] / 4) as u8;
            if v.len() == 3 {
                seq![first, second]
            } else {
                seq![first, second, (v[2] % 4 * 64 + v[3]) as u8] + spelled(v.skip(4))
            }
        }
    }
}

/// The bytes that a base64 text encodes.
pub open spec fn base64_of(s: Seq<char>) -> Option<Seq<u8>> {
    match sextets(s) {
        Some(v) => Some(spelled(v)),
        None => None,
    }
}

/// Values that come from characters are below 64, and there is at most one for each character.
pub proof fn sextets_are_small(s: Seq<char>)
    ensures
        match sextets(s) {
            Some(v) => v.len() <= s.len() && forall|i: int| 0 <= i < v.len() ==> v[i] < 64,
            None => true,
        },
    decreases s.len(),
{
    if s.len() > 0 {
        sextets_are_small(s.drop_last());
    }
}

/// A text whose start has a character without value has none itself.
proof fn sextets_of_start(s: Seq<char>, i: int)
    requires
        0 <= i <= s.len(),
    ensures
        sextets(s.take(i)) is None ==> sextets(s) is None,
    decreases s.len() - i,
{
    if i < s.len() {
        sextets_of_start(s, i + 1);
        assert(s.take(i + 1).drop_last() =~= s.take(i));
    } else {
        assert(s.take(i) =~= s);
    }
}

/// The value of a base64 character.
fn sextet_value(c: char) -> (r: Option<u8>)
    ensures
        match r {
            Some(v) => sextet(c) == Some(v as nat) && v < 64,
            None => sextet(c) is None,
        },
{
    if 'A' <= c && c <= 'Z' {
        Some(c as u8 - 'A' as u8)
    } else if 'a' <= c && c <= 'z' {
        Some(c as u8 - 'a' as u8 + 26)
    } else if '0' <= c && c <= '9' {
        Some(c as u8 - '0' as u8 + 52)
    } else if c == '+' {
        Some(62)
    } else if c == '/' {
        Some(63)
    } else {
        None
    }
}

/// The numbers that bytes hold.
spec fn values(v: Seq<u8>) -> Seq<nat> {
    v.map_values(|b: u8| b as nat)
}

/// Decodes base64, passing over padding and white space.
pub fn base64_decode(input: &str) -> (r: Option<Vec<u8>>)
    ensures
        match r {
            Some(bytes) => base64_of(input@) == Some(bytes@) && bytes@.len() <= input@.len(),
            None => base64_of(input@) is None,
        },
{
    let chars = chars_of(input);
    let mut six: Vec<u8> = Vec::new();
    let mut i: usize = 0;
    assert(chars@.take(0) =~= Seq::empty());
    assert(values(six@) =~= Seq::empty());
    while i < chars.len()
        invariant
            chars@ == input@,
            i <= chars@.len(),
            six@.len() <= i,
            sextets(chars@.take(i as int)) == Some(values(six@)),
            forall|k: int| 0 <= k < six@.len() ==> six@[k] < 64,
        decreases chars.len() - i,
    {
        let c = chars[i];
        assert(chars@.take(i + 1).drop_last() =~= chars@.take(i as int));
        if !(c == '=' || c == ' ' || c == '\t' || c == '\n' || c == '\u{c}' || c == '\r') {
            match sextet_value(c) {
                Some(v) => {
                    let ghost before = values(six@);
                    six.push(v);
                    assert(values(six@) =~= before.push(v as nat));
                },
                None => {
                    proof {
                        sextets_of_start(chars@, i + 1);
                    }
                    return None;
                },
            }
        }
        i += 1;
    }
    assert(chars@.take(i as int) =~= input@);
    let ghost all = values(six@);
    let n: usize = six.len();
    let mut out: Vec<u8> = Vec::new();
    let mut k: usize = 0;
    assert(all.skip(0) =~= all);
    assert(out@ + spelled(all) =~= spelled(all));
    while n - k >= 4
        invariant
            n == six@.len(),
            k <= n,
            all == values(six@),
            forall|j: int| 0 <= j < n ==> six@[j] < 64,
            out@.len() <= k,
            out@ + spelled(all.skip(k as int)) == spelled(all),
        decreases n - k,
    {
        let ghost rest = all.skip(k as int);
        let ghost before = out@;
        let first: u8 = six[k] * 4 + six[k + 1] / 16;
        let second: u8 = six[k + 1] % 16 * 16 + six[k + 2] / 4;
        let third: u8 = six[k + 2] % 4 * 64 + six[k + 3];
        out.push(first);
        out.push(second);
        out.push(third);
        assert(rest.skip(4) =~= all.skip(k + 4));
        assert(spelled(rest) =~= seq![first, second, third] + spelled(all.skip(k + 4)));
        assert(out@ + spelled(all.skip(k + 4)) =~= before + spelled(rest));
        k += 4;
    }
    let ghost rest = all.skip(k as int);
    let ghost before = out@;
    if n - k >= 2 {
        out.push(six[k] * 4 + six[k + 1] / 16);
    }
    if n - k == 3 {
        out.push(six[k + 1] % 16 * 16 + six[k + 2] / 4);
    }
    assert(out@ =~= before + spelled(rest));
    Some(out)
}

/// The lines of a PEM file that are not armour.
pub open spec fn pem_body_lines(lines: Seq<Seq<char>>) -> Seq<char>
    decreases lines.len(),
{
    if lines.len() == 0 {
        Seq::empty()
    } else if begins_with(lines.last(), "-----"@) {
        pem_body_lines(lines.drop_last())
    } else {
        pem_body_lines(lines.drop_last()) + lines.last()
    }
}

/// The bytes that a PEM text holds: the lines between the armour, decoded.
pub open spec fn der_of(pem: Seq<char>) -> Option<Seq<u8>> {
    base64_of(trim_of(pem_body_lines(lines_of(pem))))
}

/// Strips the armour of a PEM text and decodes its body. The label is not looked at.
pub fn der_from_pem(pem: &str) -> (r: Option<Vec<u8>>)
    ensures
        match r {
            Some(bytes) => der_of(pem@) == Some(bytes@),
            None => der_of(pem@) is None,
        },
{
    let all = lines(pem);
    let mut body = String::new();
    let mut i: usize = 0;
    assert(texts(all@).take(0) =~= Seq::empty());
    while i < all.len()
        invariant
            i <= all@.len(),
            body@ == pem_body_lines(texts(all@).take(i as int)),
        decreases all.len() - i,
    {
        assert(texts(all@).take(i + 1).drop_last() =~= texts(all@).take(i as int));
        if !starts(all[i].as_str(), "-----") {
            body.append(all[i].as_str());
        }
        i += 1;
    }
    assert(texts(all@).take(i as int) =~= texts(all@));
    base64_decode(trim(body.as_str()).as_str())
}

/// The fingerprint of a certificate: the digest of its bytes in capital hexadecimal.
pub open spec fn fingerprint_spec(der: Seq<u8>) -> Seq<char> {
    hex_upper_of(sha256_of(der))
}

/// The fingerprint of a certificate given by its bytes.
pub fn fingerprint_of_der(der: &[u8]) -> (r: String)
    requires
        der@.len() < DIGEST_LIMIT,
    ensures
        r@ == fingerprint_spec(der@),
        r@.len() == 64,
{
    hex_upper(&sha256(der))
}

/// The fingerprint of a PEM certificate.
///
/// The text must decode to fewer bytes than can be digested, which any text that fits in memory
/// does.
pub fn fingerprint_of(certificate_pem: &str) -> (r: Result<String, String>)
    requires
        match der_of(certificate_pem@) {
            Some(der) => der.len() < DIGEST_LIMIT,
            None => true,
        },
    ensures
        match r {
            Ok(fingerprint) => der_of(certificate_pem@) matches Some(der) && fingerprint@
                == fingerprint_spec(der) && fingerprint@.len() == 64,
            Err(message) => der_of(certificate_pem@) is None && message@
                == "reading the certificate"@,
        },
{
    match der_from_pem(certificate_pem) {
        Some(der) => Ok(fingerprint_of_der(&der)),
        None => Err("reading the certificate".to_owned()),
    }
}

impl Identity {
    /// The bytes of the certificate, which both ends present to each other.
    pub fn chain(&self) -> (r: Result<Vec<u8>, String>)
        ensures
            match r {
                Ok(der) => der_of(self.certificate_pem@) == Some(der@),
                Err(message) => der_of(self.certificate_pem@) is None && message@
                    == "could not read the certificate"@,
            },
    {
        match der_from_pem(self.certificate_pem.as_str()) {
            Some(der) => Ok(der),
            None => Err("could not read the certificate".to_owned()),
        }
    }

    /// The bytes of the private key.
    pub fn key(&self) -> (r: Result<Vec<u8>, String>)
        ensures
            match r {
                Ok(der) => der_of(self.key_pem@) == Some(der@),
                Err(message) => der_of(self.key_pem@) is None && message@
                    == "could not read the private key"@,
            },
    {
        match der_from_pem(self.key_pem.as_str()) {
            Some(der) => Ok(der),
            None => Err("could not read the private key".to_owned()),
        }
    }

    /// Whether the fingerprint is that of the certificate.
    pub open spec fn wf(&self) -> bool {
        der_of(self.certificate_pem@) matches Some(der) && self.fingerprint@ == fingerprint_spec(der)
    }
}

/// The identity of a certificate and its key.
pub fn identity_of(certificate_pem: String, key_pem: String) -> (r: Result<Identity, String>)
    requires
        match der_of(certificate_pem@) {
            Some(der) => der.len() < DIGEST_LIMIT,
            None => true,
        },
    ensures
        match r {
            Ok(identity) => identity.wf() && identity.certificate_pem@ == certificate_pem@
                && identity.key_pem@ == key_pem@,
            Err(message) => der_of(certificate_pem@) is None && message@
                == "reading the certificate"@,
        },
{
    match fingerprint_of(certificate_pem.as_str()) {
        Ok(fingerprint) => Ok(Identity { certificate_pem, key_pem, fingerprint }),
        Err(message) => Err(message),
    }
}

/// The identity that the two files hold, where both could be read and the certificate decodes.
/// Otherwise a new one has to be made.
pub fn stored_identity(certificate_pem: Option<String>, key_pem: Option<String>) -> (r: Option<
    Identity,
>)
    requires
        match certificate_pem {
            Some(pem) => match der_of(pem@) {
                Some(der) => der.len() < DIGEST_LIMIT,
                None => true,
            },
            None => true,
        },
    ensures
        match r {
            Some(identity) => {
                &&& identity.wf()
                &&& certificate_pem is Some && identity.certificate_pem@ == certificate_pem->0@
                &&& key_pem is Some && identity.key_pem@ == key_pem->0@
            },
            None => certificate_pem is None || key_pem is None || der_of(certificate_pem->0@) is None,
        },
{
    match (certificate_pem, key_pem) {
        (Some(pem), Some(key)) => match identity_of(pem, key) {
            Ok(identity) => Some(identity),
            Err(_) => None,
        },
        _ => None,
    }
}

/// A step in making a certificate.
#[derive(Debug, PartialEq, Eq, Structural, Clone, Copy)]
pub enum Making {
    Parameters,
    Key,
    Signature,
}

/// What was being done in a step.
pub open spec fn making_text(step: Making) -> Seq<char> {
    match step {
        Making::Parameters => "building certificate parameters"@,
        Making::Key => "generating a key pair"@,
        Making::Signature => "self-signing the certificate"@,
    }
}

/// `rcgen::CertificateParams::new` takes the names, and `rcgen::DistinguishedName::push` adds the
/// common name; `rcgen::KeyPair::generate` makes a key, `rcgen::CertificateParams::self_signed` a
/// certificate with it, and `rcgen::Certificate::pem` and `rcgen::KeyPair::serialize_pem` write both
/// as text. The parameters are refused where a name is not ASCII, and only there. Which key it is
/// depends on chance, and so do both texts; the other two steps fail where the system or the
/// signing does.
#[verifier::external_body]
fn generate(names: Vec<String>, common_name: &str) -> (r: Result<
    (String, String),
    (Making, String),
>)
    ensures
        (r is Err && r->Err_0.0 == Making::Parameters) == !(forall|i: int|
            0 <= i < names@.len() ==> all_ascii(#[trigger] names@[i]@)),
{
    let mut params = rcgen::CertificateParams::new(names)
        .map_err(|err| (Making::Parameters, err.to_string()))?;
    params.distinguished_name.push(rcgen::DnType::CommonName, common_name);
    let key = rcgen::KeyPair::generate().map_err(|err| (Making::Key, err.to_string()))?;
    let certificate = params
        .self_signed(&key)
        .map_err(|err| (Making::Signature, err.to_string()))?;
    Ok((certificate.pem(), key.serialize_pem()))
}

/// What keeps an identity from being made: what was being done, and what went wrong there.
#[derive(Debug)]
pub struct Unmade {
    pub doing: String,
    pub cause: Option<String>,
}

/// What a certificate is made for: the names that it holds, and the common name of its subject.
pub fn subject() -> (r: (Vec<String>, String))
    ensures
        texts(r.0@) == seq!["localsend"@],
        r.1@ == "LocalSend User"@,
{
    let names = vec!["localsend".to_owned()];
    assert(texts(names@) =~= seq!["localsend"@]);
    (names, "LocalSend User".to_owned())
}

/// The identity of what was generated: the text of a certificate and that of its key, or else the
/// step that failed and why.
pub fn generated_identity(made: Result<(String, String), (Making, String)>) -> (r: Result<
    Identity,
    Unmade,
>)
    requires
        match made {
            Ok(pair) => match der_of(pair.0@) {
                Some(der) => der.len() < DIGEST_LIMIT,
                None => true,
            },
            Err(_) => true,
        },
    ensures
        match made {
            Ok(pair) => match r {
                Ok(identity) => identity.wf() && identity.certificate_pem@ == pair.0@
                    && identity.key_pem@ == pair.1@,
                Err(unmade) => der_of(pair.0@) is None && unmade.doing@
                    == "reading the certificate"@ && unmade.cause is None,
            },
            Err((step, cause)) => r is Err && r->Err_0.doing@ == making_text(step)
                && r->Err_0.cause is Some && r->Err_0.cause->0@ == cause@,
        },
{
    match made {
        Ok((certificate_pem, key_pem)) => match identity_of(certificate_pem, key_pem) {
            Ok(identity) => Ok(identity),
            Err(doing) => Err(Unmade { doing, cause: None }),
        },
        Err((step, cause)) => {
            let doing = match step {
                Making::Parameters => "building certificate parameters",
                Making::Key => "generating a key pair",
                Making::Signature => "self-signing the certificate",
            };
            Err(Unmade { doing: doing.to_owned(), cause: Some(cause) })
        },
    }
}

/// A new identity. Its parameters are never what keeps it from being made. A certificate that could
/// not be digested could not be read.
pub fn create() -> (r: Result<Identity, Unmade>)
    ensures
        match r {
            Ok(identity) => identity.wf(),
            Err(unmade) => match unmade.cause {
                Some(_) => unmade.doing@ == making_text(Making::Key) || unmade.doing@
                    == making_text(Making::Signature),
                None => unmade.doing@ == "reading the certificate"@,
            },
        },
{
    let (names, common_name) = subject();
    proof {
        reveal_strlit("localsend");
    }
    assert(texts(names@).len() == 1);
    assert(names@[0]@ == texts(names@)[0]);
    let made = generate(names, common_name.as_str());
    if let Ok(pair) = &made {
        if let Some(der) = der_from_pem(pair.0.as_str()) {
            if der.len() as u64 >= DIGEST_LIMIT {
                return Err(
                    Unmade { doing: "reading the certificate".to_owned(), cause: None },
                );
            }
        }
    }
    generated_identity(made)
}

/// Where an identity is from.
#[derive(Debug)]
pub enum Loaded {
    /// From the two files that hold it.
    Stored(Identity),
    /// Just made, and to be saved.
    Created(Identity),
}

/// The identity that the two files hold, or else a new one: it is made once and kept, for peers know
/// the device by it.
pub fn load_or_create(certificate_pem: Option<String>, key_pem: Option<String>) -> (r: Result<
    Loaded,
    Unmade,
>)
    requires
        match certificate_pem {
            Some(pem) => match der_of(pem@) {
                Some(der) => der.len() < DIGEST_LIMIT,
                None => true,
            },
            None => true,
        },
    ensures
        if certificate_pem is Some && key_pem is Some && der_of(certificate_pem->0@) is Some {
            r matches Ok(Loaded::Stored(identity)) && identity.wf() && identity.certificate_pem@
                == certificate_pem->0@ && identity.key_pem@ == key_pem->0@
        } else {
            match r {
                Ok(Loaded::Created(identity)) => identity.wf(),
                Ok(Loaded::Stored(_)) => false,
                Err(unmade) => match unmade.cause {
                    Some(_) => unmade.doing@ == making_text(Making::Key) || unmade.doing@
                        == making_text(Making::Signature),
                    None => unmade.doing@ == "reading the certificate"@,
                },
            }
        },
{
    match stored_identity(certificate_pem, key_pem) {
        Some(identity) => Ok(Loaded::Stored(identity)),
        None => match create() {
            Ok(identity) => Ok(Loaded::Created(identity)),
            Err(unmade) => Err(unmade),
        },
    }
}

/// The character of a six-bit value.
pub open spec fn base64_char(v: nat) -> char {
    if v < 26 {
        ('A' as nat + v) as char
    } else if v < 52 {
        ('a' as nat + v - 26) as char
    } else if v < 62 {
        ('0' as nat + v - 52) as char
    } else if v == 62 {
        '+'
    } else {
        '/'
    }
}

/// Bytes written in base64 with padding.
pub open spec fn base64_text(b: Seq<u8>) -> Seq<char>
    decreases b.len(),
{
    if b.len() == 0 {
        Seq::empty()
    } else {
        let first = base64_char(b[0] as nat / 4);
        if b.len() == 1 {
            seq![first, base64_char(b[0] as nat % 4 * 16), '=', '=']
        } else {
            let second = base64_char(b[0] as nat % 4 * 16 + b[1] as nat / 16);
            if b.len() == 2 {
                seq![first, second, base64_char(b[1] as nat % 16 * 4), '=']
            } else {
                seq![
                    first,
                    second,
                    base64_char(b[1] as nat % 16 * 4 + b[2] as nat / 64),
                    base64_char(b[2] as nat % 64),
                ] + base64_text(b.skip(3))
            }
        }
    }
}

/// The values of two texts one after the other.
proof fn sextets_of_sum(a: Seq<char>, b: Seq<char>)
    ensures
        sextets(a + b) == (match (sextets(a), sextets(b)) {
            (Some(x), Some(y)) => Some(x + y),
            _ => None,
        }),
    decreases b.len(),
{
    if b.len() == 0 {
        assert(a + b =~= a);
        if sextets(a) is Some {
            assert(sextets(a)->0 + Seq::<nat>::empty() =~= sextets(a)->0);
        }
    } else {
        sextets_of_sum(a, b.drop_last());
        assert((a + b).drop_last() =~= a + b.drop_last());
        if sextets(a) is Some && sextets(b.drop_last()) is Some && sextet(b.last()) is Some {
            let x = sextets(a)->0;
            let y = sextets(b.drop_last())->0;
            let v = sextet(b.last())->0;
            assert((x + y).push(v) =~= x + y.push(v));
        }
    }
}

/// The value of a written six-bit value is that value.
proof fn sextet_of_char(v: nat)
    requires
        v < 64,
    ensures
        sextet(base64_char(v)) == Some(v),
        !is_filler(base64_char(v)),
{
}

/// What a single character gives.
proof fn sextets_of_one(c: char)
    ensures
        is_filler(c) ==> sextets(seq![c]) == Some(Seq::<nat>::empty()),
        !is_filler(c) && sextet(c) is Some ==> sextets(seq![c]) == Some(seq![sextet(c)->0]),
{
    assert(seq![c].drop_last() =~= Seq::empty());
    assert(sextets(Seq::<char>::empty()) == Some(Seq::<nat>::empty()));
    if !is_filler(c) && sextet(c) is Some {
        assert(Seq::<nat>::empty().push(sextet(c)->0) =~= seq![sextet(c)->0]);
    }
}

/// What four characters give, of which the last two may be padding.
proof fn sextets_of_four(a: nat, b: nat, c: Option<nat>, d: Option<nat>)
    requires
        a < 64,
        b < 64,
        c is Some ==> c->0 < 64,
        d is Some ==> d->0 < 64 && c is Some,
    ensures
        ({
            let third = if c is Some { base64_char(c->0) } else { '=' };
            let fourth = if d is Some { base64_char(d->0) } else { '=' };
            sextets(seq![base64_char(a), base64_char(b), third, fourth]) == Some(
                if d is Some {
                    seq![a, b, c->0, d->0]
                } else if c is Some {
                    seq![a, b, c->0]
                } else {
                    seq![a, b]
                },
            )
        }),
{
    let third = if c is Some { base64_char(c->0) } else { '=' };
    let fourth = if d is Some { base64_char(d->0) } else { '=' };
    sextet_of_char(a);
    sextet_of_char(b);
    if c is Some {
        sextet_of_char(c->0);
    }
    if d is Some {
        sextet_of_char(d->0);
    }
    let s = seq![base64_char(a), base64_char(b), third, fourth];
    let s3 = s.drop_last();
    let s2 = s3.drop_last();
    let s1 = s2.drop_last();
    sextets_of_one(base64_char(a));
    assert(s1 =~= seq![base64_char(a)]);
    assert(s2.last() == base64_char(b));
    assert(sextets(s2) == Some(seq![a].push(b)));
    assert(seq![a].push(b) =~= seq![a, b]);
    if c is Some {
        assert(sextets(s3) == Some(seq![a, b].push(c->0)));
        assert(seq![a, b].push(c->0) =~= seq![a, b, c->0]);
        if d is Some {
            assert(seq![a, b, c->0].push(d->0) =~= seq![a, b, c->0, d->0]);
        }
    } else {
        assert(sextets(s3) == Some(seq![a, b]));
    }
}

/// Decoding what bytes are written as in base64 gives the bytes.
pub proof fn base64_round_trips(b: Seq<u8>)
    ensures
        base64_of(base64_text(b)) == Some(b),
    decreases b.len(),
{
    if b.len() == 0 {
        assert(spelled(Seq::<nat>::empty()) =~= b);
    } else if b.len() == 1 {
        sextets_of_four(b[0] as nat / 4, b[0] as nat % 4 * 16, None, None);
        assert(spelled(sextets(base64_text(b))->0) =~= b);
    } else if b.len() == 2 {
        sextets_of_four(
            b[0] as nat / 4,
            b[0] as nat % 4 * 16 + b[1] as nat / 16,
            Some(b[1] as nat % 16 * 4),
            None,
        );
        assert(spelled(sextets(base64_text(b))->0) =~= b);
    } else {
        let v0 = b[0] as nat / 4;
        let v1 = b[0] as nat % 4 * 16 + b[1] as nat / 16;
        let v2 = b[1] as nat % 16 * 4 + b[2] as nat / 64;
        let v3 = b[2] as nat % 64;
        sextets_of_four(v0, v1, Some(v2), Some(v3));
        base64_round_trips(b.skip(3));
        let head = seq![base64_char(v0), base64_char(v1), base64_char(v2), base64_char(v3)];
        let rest = base64_text(b.skip(3));
        sextets_of_sum(head, rest);
        let v = seq![v0, v1, v2, v3] + sextets(rest)->0;
        assert(v.skip(4) =~= sextets(rest)->0);
        assert(spelled(v) =~= b);
    }
}

/// Padding and white space count for nothing wherever they stand, and a character of no value spoils the
/// whole.
pub proof fn filler_counts_for_nothing(a: Seq<char>, c: char, b: Seq<char>)
    ensures
        c == '=' || c == ' ' || c == '\n' || c == '\r' || c == '\t' ==> base64_of(a + seq![c] + b)
            == base64_of(a + b),
        c == '!' || c == '-' || c == '_' || c == '.' ==> base64_of(a + seq![c] + b) is None,
{
    sextets_of_sum(a, b);
    sextets_of_sum(a, seq![c]);
    sextets_of_sum(a + seq![c], b);
    sextets_of_one(c);
    if is_filler(c) {
        if let Some(x) = sextets(a) {
            assert(x + Seq::<nat>::empty() =~= x);
        }
    } else {
        assert(seq![c].last() == c);
    }
}

/// The characters of base64 in the order of their values: capitals, small letters, digits, plus and
/// slash.
pub proof fn characters_count_in_order(c: char)
    ensures
        'A' <= c <= 'Z' ==> sextet(c) == Some((c as int - 65) as nat),
        'a' <= c <= 'z' ==> sextet(c) == Some((c as int - 71) as nat),
        '0' <= c <= '9' ==> sextet(c) == Some((c as int + 4) as nat),
        sextet('+') == Some(62nat),
        sextet('/') == Some(63nat),
{
}

/// The armour around a PEM text is passed over, whatever it says: what is read is what stands between.
pub proof fn armour_is_passed_over(head: Seq<char>, body: Seq<Seq<char>>, tail: Seq<char>)
    requires
        begins_with(head, "-----"@),
        begins_with(tail, "-----"@),
        forall|i: int| 0 <= i < body.len() ==> !begins_with(#[trigger] body[i], "-----"@),
    ensures
        pem_body_lines(seq![head] + body + seq![tail]) == joined(body, Seq::empty()),
{
    let all = seq![head] + body + seq![tail];
    assert(all.drop_last() =~= seq![head] + body);
    assert(all.last() == tail);
    body_lines_are_joined(head, body);
}

/// The lines behind the armour, one after another.
proof fn body_lines_are_joined(head: Seq<char>, body: Seq<Seq<char>>)
    requires
        begins_with(head, "-----"@),
        forall|i: int| 0 <= i < body.len() ==> !begins_with(#[trigger] body[i], "-----"@),
    ensures
        pem_body_lines(seq![head] + body) == joined(body, Seq::empty()),
    decreases body.len(),
{
    let all = seq![head] + body;
    if body.len() == 0 {
        assert(all =~= seq![head]);
        assert(all.drop_last() =~= Seq::empty());
        assert(pem_body_lines(all.drop_last()) =~= Seq::empty());
    } else {
        let front = body.drop_last();
        assert(all.drop_last() =~= seq![head] + front);
        assert(all.last() == body.last());
        assert(body[body.len() - 1] == body.last());
        assert forall|i: int| 0 <= i < front.len() implies !begins_with(
            #[trigger] front[i],
            "-----"@,
        ) by {
            assert(front[i] == body[i]);
        }
        body_lines_are_joined(head, front);
        if body.len() == 1 {
            assert(joined(front, Seq::empty()) =~= Seq::empty());
            assert(Seq::<char>::empty() + body.last() =~= body[0]);
        } else {
            let before = joined(front, Seq::empty());
            assert(before + Seq::<char>::empty() + body.last() =~= before + body.last());
        }
    }
}

} // verus!
