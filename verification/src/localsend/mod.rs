//! Sending files to devices on the local network and receiving files from them.
//!
//! Discovery is an announcement that other devices answer. Sending is an exchange in two steps:
//! the transfer is registered, and then each file is uploaded with the token that came back.

pub mod cert;
pub mod http;
pub mod server;

use vstd::prelude::*;
use vstd::string::*;
use vstd::utf8::encode_utf8;

use crate::bytes::{hex_lower, hex_lower_of};
use crate::config::{expand_in, is_expanded_in};
use crate::json::{a_field_is_found, field_models, field_of, object, pair, text, whole, Json, Value};
use crate::localsend::cert::{sha256, sha256_of, DIGEST_LIMIT};
use crate::localsend::http::Endpoint;
use crate::localsend::server::{is_offered, is_offered_transfer, IncomingTransfer};
use crate::number::{decimal, write_u64};
use crate::order::{
    comes_before, comes_before_is_total, is_arrangement, picked, reorder, sorted_order, TextKey,
};
use crate::path::{file_name, file_name_of};
use crate::text::{
    join, joined, lower_of, lowercase, maybe, same, same_but_case, same_ignoring_case, texts, trim,
    trim_of,
};

verus! {

/// The port on which every device listens.
pub const PORT: u16 = 53317;

/// How many milliseconds discovery listens for answers.
pub const DISCOVERY_WINDOW_MS: u64 = 1200;

/// A device that answered.
#[derive(Debug)]
pub struct Device {
    /// The name that the device shows to people.
    pub alias: String,
    /// Stable per-device id; for a device that is reached over HTTPS the SHA-256 of its
    /// certificate.
    pub fingerprint: String,
    pub device_model: String,
    pub device_type: String,
    pub ip: String,
    pub port: u16,
    /// "http" or "https".
    pub protocol: String,
    /// Whether the device also offers files for download.
    pub download: bool,
}

impl Device {
    /// Where requests to the device go.
    pub fn endpoint(&self) -> (r: Endpoint)
        ensures
            r.host@ == self.ip@,
            r.port == self.port,
            r.https == same_but_case(self.protocol@, "https"@),
            r.fingerprint@ == self.fingerprint@,
    {
        Endpoint {
            host: self.ip.clone(),
            port: self.port,
            https: same_ignoring_case(self.protocol.as_str(), "https"),
            fingerprint: self.fingerprint.clone(),
        }
    }

    /// A device that is described in the same way.
    pub fn copy(&self) -> (r: Device)
        ensures
            r == *self,
    {
        Device {
            alias: self.alias.clone(),
            fingerprint: self.fingerprint.clone(),
            device_model: self.device_model.clone(),
            device_type: self.device_type.clone(),
            ip: self.ip.clone(),
            port: self.port,
            protocol: self.protocol.clone(),
            download: self.download,
        }
    }
}

/// What was sent, and to which device.
#[derive(Debug)]
pub struct Sent {
    pub device: String,
    pub files: Vec<String>,
}

/// A text, or another where it is empty.
pub open spec fn text_or(s: Seq<char>, other: Seq<char>) -> Seq<char> {
    if s.len() == 0 {
        other
    } else {
        s
    }
}

/// Whether `device` is what an announcement that came from `address` describes.
pub open spec fn is_announced(
    device: Device,
    value: Json,
    address: Seq<char>,
    default_port: u16,
) -> bool {
    &&& device.alias@ == text_or(value.text_or_empty("alias"@), address)
    &&& device.fingerprint@ == value.text_or_empty("fingerprint"@)
    &&& device.device_model@ == value.text_or_empty("deviceModel"@)
    &&& device.device_type@ == value.text_or_empty("deviceType"@)
    &&& device.ip@ == address
    &&& device.port == (match value.whole_at("port"@, 0, 65535) {
        Some(port) => port,
        None => default_port as int,
    })
    &&& device.protocol@ == text_or(value.text_or_empty("protocol"@), "https"@)
    &&& device.download == (value.flag_at("download"@) == Some(true))
}

/// A text, or another where it is empty.
fn or_text(s: String, other: &str) -> (r: String)
    ensures
        r@ == text_or(s@, other@),
{
    if s.as_str().is_empty() {
        other.to_owned()
    } else {
        s
    }
}

/// The device that an announcement describes. The address comes from the connection, so a device
/// cannot claim to be somewhere it is not. Without a fingerprint there is nothing to pin, and the
/// announcement is passed over.
pub fn device_from_announcement(value: &Value, address: &str, default_port: u16) -> (r: Option<
    Device,
>)
    ensures
        match r {
            Some(device) => value@.text_or_empty("fingerprint"@).len() > 0 && is_announced(
                device,
                value@,
                address@,
                default_port,
            ),
            None => value@.text_or_empty("fingerprint"@).len() == 0,
        },
{
    let fingerprint = value.text_or_empty("fingerprint");
    if fingerprint.as_str().is_empty() {
        return None;
    }
    let port: u16 = match value.u64_at("port") {
        Some(port) => if port <= 65535 {
            port as u16
        } else {
            default_port
        },
        None => default_port,
    };
    Some(
        Device {
            alias: or_text(value.text_or_empty("alias"), address),
            fingerprint,
            device_model: value.text_or_empty("deviceModel"),
            device_type: value.text_or_empty("deviceType"),
            ip: address.to_owned(),
            port,
            protocol: or_text(value.text_or_empty("protocol"), "https"),
            download: match value.flag_at("download") {
                Some(flag) => flag,
                None => false,
            },
        },
    )
}

/// The device that a datagram announces. A datagram that could not be read announces none.
pub fn parse_announcement(payload: Option<&Value>, address: &str) -> (r: Option<Device>)
    ensures
        match r {
            Some(device) => payload is Some && payload->0@.text_or_empty("fingerprint"@).len() > 0
                && is_announced(device, payload->0@, address@, PORT),
            None => payload is None || payload->0@.text_or_empty("fingerprint"@).len() == 0,
        },
{
    match payload {
        Some(value) => device_from_announcement(value, address, PORT),
        None => None,
    }
}

/// The name under which this machine announces itself: its host name where there is one.
pub open spec fn alias_spec(hostname: Option<Seq<char>>) -> Seq<char> {
    match hostname {
        Some(name) => text_or(trim_of(name), "Epoch"@),
        None => "Epoch"@,
    }
}

/// The name under which this machine announces itself.
pub fn alias(hostname: Option<&str>) -> (r: String)
    ensures
        r@ == alias_spec(
            maybe(hostname),
        ),
{
    match hostname {
        Some(name) => or_text(trim(name), "Epoch"),
        None => "Epoch".to_owned(),
    }
}

/// The name and the directory with which receiving starts: the configured name where there is
/// one, and the directory with its tilde expanded.
pub fn settings(
    configured: &str,
    hostname: Option<&str>,
    directory: &str,
    home: Option<&str>,
) -> (r: (String, String))
    ensures
        r.0@ == text_or(configured@, alias_spec(maybe(hostname))),
        is_expanded_in(directory@, maybe(home), r.1@),
{
    let name = if configured.is_empty() {
        alias(hostname)
    } else {
        configured.to_owned()
    };
    (name, expand_in(directory, home))
}

/// What the fingerprint of a machine that accepts no transfers is derived from.
pub open spec fn fingerprint_seed(alias: Seq<char>) -> Seq<u8> {
    encode_utf8("epochoxide:"@ + alias)
}

/// The fingerprint that this machine announces. While it accepts transfers this is the hash of its
/// certificate, which is what a peer pins.
pub open spec fn own_fingerprint_spec(receiving: Option<Seq<char>>, alias: Seq<char>) -> Seq<
    char,
> {
    match receiving {
        Some(fingerprint) => fingerprint,
        None => hex_lower_of(sha256_of(fingerprint_seed(alias))),
    }
}

/// The fingerprint that this machine announces, given that of the receiver where it runs.
pub fn own_fingerprint(receiving: Option<&str>, alias: &str) -> (r: String)
    requires
        fingerprint_seed(alias@).len() < DIGEST_LIMIT,
    ensures
        r@ == own_fingerprint_spec(
            maybe(receiving),
            alias@,
        ),
        receiving is None ==> r@.len() == 64,
{
    match receiving {
        Some(fingerprint) => fingerprint.to_owned(),
        None => {
            let mut seed = "epochoxide:".to_owned();
            seed.append(alias);
            hex_lower(&sha256(seed.as_str().as_bytes()))
        },
    }
}

/// How a device presents itself.
pub open spec fn identity_json(
    alias: Seq<char>,
    fingerprint: Seq<char>,
    port: u16,
    protocol: Seq<char>,
) -> Seq<(Seq<char>, Json)> {
    seq![
        ("alias"@, Json::Text(alias)),
        ("deviceModel"@, Json::Text("Linux"@)),
        ("deviceType"@, Json::Text("desktop"@)),
        ("download"@, Json::Bool(false)),
        ("fingerprint"@, Json::Text(fingerprint)),
        ("port"@, Json::Whole(port as int)),
        ("protocol"@, Json::Text(protocol)),
        ("version"@, Json::Text("2.0"@)),
    ]
}

/// How a device presents itself.
pub fn identity_fields(alias: &str, fingerprint: &str, port: u16, protocol: &str) -> (r: Vec<
    (String, Value),
>)
    ensures
        field_models(r@) == identity_json(alias@, fingerprint@, port, protocol@),
{
    let r = vec![
        pair("alias", text(alias)),
        pair("deviceModel", text("Linux")),
        pair("deviceType", text("desktop")),
        pair("download", Value::Bool(false)),
        pair("fingerprint", text(fingerprint)),
        pair("port", whole(port as u64)),
        pair("protocol", text(protocol)),
        pair("version", text("2.0")),
    ];
    assert(field_models(r@) =~= identity_json(alias@, fingerprint@, port, protocol@));
    r
}

/// This machine as it is announced while it accepts no transfers, or as the receiver has it.
/// HTTPS is claimed only where a server holds the certificate.
pub fn own_identity(receiving: Option<(&str, &str, u16)>, alias: &str) -> (r: Value)
    requires
        fingerprint_seed(alias@).len() < DIGEST_LIMIT,
    ensures
        receiving matches Some((name, fingerprint, port)) ==> r@ == Json::Object(
            identity_json(name@, fingerprint@, port, "https"@),
        ),
        receiving is None ==> r@ == Json::Object(
            identity_json(alias@, own_fingerprint_spec(None, alias@), PORT, "http"@),
        ),
{
    match receiving {
        Some((name, fingerprint, port)) => object(
            identity_fields(name, fingerprint, port, "https"),
        ),
        None => {
            let fingerprint = own_fingerprint(None, alias);
            object(identity_fields(alias, fingerprint.as_str(), PORT, "http"))
        },
    }
}

/// An identity with the question whether other devices should answer.
pub fn announcement(identity: &Value, announce: bool) -> (r: Value)
    requires
        identity@ is Object,
    ensures
        r@ == Json::Object(seq![("announce"@, Json::Bool(announce))] + identity@->Object_0),
{
    let mut out: Vec<(String, Value)> = Vec::new();
    out.push(pair("announce", Value::Bool(announce)));
    let ghost all = seq![("announce"@, Json::Bool(announce))] + identity@->Object_0;
    match identity.as_object() {
        Some(fields) => {
            let mut i: usize = 0;
            while i < fields.len()
                invariant
                    i <= fields@.len(),
                    all == seq![("announce"@, Json::Bool(announce))] + field_models(fields@),
                    field_models(out@) =~= all.take(i + 1),
                decreases fields.len() - i,
            {
                let value = fields[i].1.copy();
                let ghost before = field_models(out@);
                out.push((fields[i].0.clone(), value));
                assert(field_models(out@) =~= before.push(field_models(fields@)[i as int]));
                i += 1;
            }
        },
        None => {},
    }
    assert(all.take(all.len() as int) =~= all);
    object(out)
}

/// Whether a device with that fingerprint is among those found.
pub open spec fn is_known(found: Seq<Device>, fingerprint: Seq<char>) -> bool {
    exists|i: int| 0 <= i < found.len() && (#[trigger] found[i]).fingerprint@ == fingerprint
}

/// Those found with one more device, unless it is known already.
pub open spec fn with_device(found: Seq<Device>, device: Device) -> Seq<Device> {
    if is_known(found, device.fingerprint@) {
        found
    } else {
        found.push(device)
    }
}

/// Those found with more devices, one after the other.
pub open spec fn with_devices(found: Seq<Device>, more: Seq<Device>) -> Seq<Device>
    decreases more.len(),
{
    if more.len() == 0 {
        found
    } else {
        with_device(with_devices(found, more.drop_last()), more.last())
    }
}

/// The devices whose fingerprint is not `own`.
pub open spec fn others(devices: Seq<Device>, own: Seq<char>) -> Seq<Device> {
    devices.filter(|d: Device| d.fingerprint@ != own)
}

/// Whether a device with that fingerprint is among those found.
fn knows(found: &Vec<Device>, fingerprint: &str) -> (r: bool)
    ensures
        r == is_known(found@, fingerprint@),
{
    let mut i: usize = 0;
    while i < found.len()
        invariant
            i <= found@.len(),
            forall|k: int| 0 <= k < i ==> (#[trigger] found@[k]).fingerprint@ != fingerprint@,
        decreases found.len() - i,
    {
        if same(found[i].fingerprint.as_str(), fingerprint) {
            return true;
        }
        i += 1;
    }
    false
}

/// Adds a device unless it is known already. A device answers on every interface that it can see,
/// so the same one arrives more than once.
pub fn add_device(found: &mut Vec<Device>, device: Device)
    ensures
        final(found)@ == with_device(old(found)@, device),
{
    if !knows(found, device.fingerprint.as_str()) {
        found.push(device);
    }
}

/// The devices that answered and those that the receiver has heard, each once and without this
/// machine among the answers, by name.
pub fn devices(own: &str, answered: Vec<Device>, seen: Vec<Device>) -> (r: Vec<Device>)
    ensures
        is_by_alias(
            with_devices(with_devices(Seq::empty(), others(answered@, own@)), seen@),
            r@,
        ),
{
    let ghost all = answered@;
    let ghost keep = |d: Device| d.fingerprint@ != own@;
    let mut found: Vec<Device> = Vec::new();
    reveal(Seq::filter);
    for device in it: answered
        invariant
            it.seq() == all,
            keep == (|d: Device| d.fingerprint@ != own@),
            found@ == with_devices(Seq::empty(), all.take(it.index() as int).filter(keep)),
    {
        reveal(Seq::filter);
        let ghost i = it.index() as int;
        assert(all.take(i + 1).drop_last() =~= all.take(i));
        assert(all.take(i + 1).last() == device);
        if !same(device.fingerprint.as_str(), own) {
            let ghost front = all.take(i).filter(keep);
            assert(front.push(device).drop_last() =~= front);
            add_device(&mut found, device);
        }
    }
    assert(all.take(all.len() as int) =~= all);
    let ghost first = found@;
    let ghost more = seen@;
    for device in it: seen
        invariant
            it.seq() == more,
            found@ == with_devices(first, more.take(it.index() as int)),
    {
        assert(more.take(it.index() + 1).drop_last() =~= more.take(it.index() as int));
        add_device(&mut found, device);
    }
    assert(more.take(more.len() as int) =~= more);
    sort_devices(found)
}

/// Whether `after` is `before` in the order of the aliases in lower case, devices with the same
/// one staying in order.
pub open spec fn is_by_alias(before: Seq<Device>, after: Seq<Device>) -> bool {
    exists|order: Seq<usize>| #[trigger]
        is_arrangement(order, before.len()) && after == picked(before, order) && forall|
            a: int,
            b: int,
        |
            0 <= a < b < order.len() ==> alias_before(before, #[trigger] order[a], #[trigger] order[b])
}

/// Whether the device at `i` comes before the one at `j`.
pub open spec fn alias_before(devices: Seq<Device>, i: usize, j: usize) -> bool {
    let x = lower_of(devices[i as int].alias@);
    let y = lower_of(devices[j as int].alias@);
    comes_before(x, y) || (!comes_before(y, x) && i < j)
}

/// Sorts devices by name.
fn sort_devices(found: Vec<Device>) -> (r: Vec<Device>)
    ensures
        is_by_alias(found@, r@),
{
    let ghost all = found@;
    let mut keys: Vec<TextKey> = Vec::new();
    let mut i: usize = 0;
    while i < found.len()
        invariant
            i <= found@.len(),
            keys@.len() == i,
            forall|k: int|
                0 <= k < i ==> (#[trigger] keys@[k]).0@ == lower_of(found@[k].alias@),
        decreases found.len() - i,
    {
        keys.push(TextKey(lowercase(found[i].alias.as_str())));
        i += 1;
    }
    let order = sorted_order(&keys);
    let r = reorder(found, &order);
    proof {
        assert forall|a: int, b: int| 0 <= a < b < order@.len() implies alias_before(
            all,
            #[trigger] order@[a],
            #[trigger] order@[b],
        ) by {
            assert(crate::order::index_before(keys@, order@[a], order@[b]));
        }
        assert(is_arrangement(order@, all.len()));
    }
    r
}

/// Whether a device goes by that name, its alias or its fingerprint in any case.
pub open spec fn goes_by(device: Device, wanted: Seq<char>) -> bool {
    let needle = lower_of(trim_of(wanted));
    lower_of(device.alias@) == needle || lower_of(device.fingerprint@) == needle
}

/// The aliases of devices.
pub open spec fn aliases(devices: Seq<Device>) -> Seq<Seq<char>> {
    devices.map_values(|d: Device| d.alias@)
}

/// What is said when no device goes by the wanted name.
pub open spec fn not_found(known: Seq<Seq<char>>, wanted: Seq<char>) -> Seq<char> {
    if known.len() == 0 {
        "no LocalSend devices answered; is the app open on the other device?"@
    } else {
        "no LocalSend device named \""@ + wanted + "\" (found: "@ + joined(known, ", "@) + ")"@
    }
}

/// Whether this is the first device that goes by the wanted name, or why there is none.
pub open spec fn is_found(r: Result<&Device, String>, devices: Seq<Device>, wanted: Seq<char>) -> bool {
    match r {
        Ok(device) => exists|i: int|
            0 <= i < devices.len() && *device == #[trigger] devices[i] && goes_by(
                devices[i],
                wanted,
            ) && forall|j: int| 0 <= j < i ==> !goes_by(#[trigger] devices[j], wanted),
        Err(message) => (forall|j: int|
            0 <= j < devices.len() ==> !goes_by(#[trigger] devices[j], wanted)) && message@
            == not_found(aliases(devices), wanted),
    }
}

/// The first device that goes by the wanted name, or a message that names those that answered.
pub fn find<'a>(devices: &'a Vec<Device>, wanted: &str) -> (r: Result<&'a Device, String>)
    ensures
        is_found(r, devices@, wanted@),
{
    let trimmed = trim(wanted);
    let needle = lowercase(trimmed.as_str());
    let mut known: Vec<String> = Vec::new();
    let mut i: usize = 0;
    while i < devices.len()
        invariant
            needle@ == lower_of(trim_of(wanted@)),
            i <= devices@.len(),
            texts(known@) =~= aliases(devices@).take(i as int),
            forall|j: int| 0 <= j < i ==> !goes_by(#[trigger] devices@[j], wanted@),
        decreases devices.len() - i,
    {
        let device = &devices[i];
        if same(lowercase(device.alias.as_str()).as_str(), needle.as_str()) || same(
            lowercase(device.fingerprint.as_str()).as_str(),
            needle.as_str(),
        ) {
            assert(goes_by(devices@[i as int], wanted@));
            return Ok(device);
        }
        let ghost before = texts(known@);
        known.push(device.alias.clone());
        assert(texts(known@) =~= before.push(devices@[i as int].alias@));
        i += 1;
    }
    assert(texts(known@) =~= aliases(devices@));
    if known.len() == 0 {
        Err("no LocalSend devices answered; is the app open on the other device?".to_owned())
    } else {
        let mut message = "no LocalSend device named \"".to_owned();
        message.append(wanted);
        message.append("\" (found: ");
        message.append(join(&known, ", ").as_str());
        message.append(")");
        Err(message)
    }
}

/// What is at a path that is to be sent.
#[derive(Debug)]
pub enum FileKind {
    /// Nothing could be learned about it, for the given reason.
    Unreadable(String),
    /// A directory or another thing that is not a file.
    NotAFile,
    /// A file of the given size.
    File(u64),
}

/// A file that is offered to a device.
#[derive(Debug)]
pub struct Offer {
    pub path: String,
    pub name: String,
    pub size: u64,
}

/// What is wrong with a path that is to be sent.
pub open spec fn offer_problem(path: Seq<char>, kind: FileKind) -> Option<Seq<char>> {
    match kind {
        FileKind::Unreadable(cause) => Some("reading "@ + path + ": "@ + cause@),
        FileKind::NotAFile => Some(path + " is not a file"@),
        FileKind::File(_) => match file_name_of(path) {
            Some(_) => None,
            None => Some(path + " has no file name"@),
        },
    }
}

/// Whether the offer is what is made of a file.
pub open spec fn is_offer_of(offer: Offer, path: Seq<char>, kind: FileKind) -> bool {
    &&& kind is File
    &&& offer.path@ == path
    &&& file_name_of(path) == Some(offer.name@)
    &&& offer.size == kind->File_0
}

/// Whether these are the offers for files, or what is wrong with the first that cannot be sent.
pub open spec fn are_offers(
    r: Result<Vec<Offer>, String>,
    files: Seq<String>,
    kinds: Seq<FileKind>,
) -> bool {
    match r {
        Ok(offers) => files.len() > 0 && offers@.len() == files.len() && forall|i: int|
            0 <= i < files.len() ==> offer_problem(files[i]@, kinds[i]) is None
                && is_offer_of(#[trigger] offers@[i], files[i]@, kinds[i]),
        Err(message) => (files.len() == 0 && message@ == "no files given"@) || exists|i: int|
            0 <= i < files.len() && offer_problem(#[trigger] files[i]@, kinds[i]) == Some(
                message@,
            ) && forall|j: int|
                0 <= j < i ==> offer_problem(#[trigger] files[j]@, kinds[j]) is None,
    }
}

/// The offers for files, or what is wrong with the first that cannot be sent.
pub fn prepare_files(files: &Vec<String>, kinds: &Vec<FileKind>) -> (r: Result<Vec<Offer>, String>)
    requires
        files@.len() == kinds@.len(),
    ensures
        are_offers(r, files@, kinds@),
{
    if files.len() == 0 {
        return Err("no files given".to_owned());
    }
    let mut out: Vec<Offer> = Vec::new();
    let mut i: usize = 0;
    while i < files.len()
        invariant
            files@.len() == kinds@.len(),
            i <= files@.len(),
            out@.len() == i,
            forall|j: int|
                0 <= j < i ==> offer_problem(#[trigger] files@[j]@, kinds@[j]) is None,
            forall|j: int| 0 <= j < i ==> is_offer_of(#[trigger] out@[j], files@[j]@, kinds@[j]),
        decreases files.len() - i,
    {
        let path = files[i].as_str();
        assert(path@ == files@[i as int]@);
        match &kinds[i] {
            FileKind::Unreadable(cause) => {
                let mut message = "reading ".to_owned();
                message.append(path);
                message.append(": ");
                message.append(cause.as_str());
                return Err(message);
            },
            FileKind::NotAFile => {
                let mut message = path.to_owned();
                message.append(" is not a file");
                return Err(message);
            },
            FileKind::File(size) => match file_name(path) {
                Some(name) => {
                    out.push(Offer { path: path.to_owned(), name, size: *size });
                },
                None => {
                    let mut message = path.to_owned();
                    message.append(" has no file name");
                    return Err(message);
                },
            },
        }
        i += 1;
    }
    Ok(out)
}

/// How an offer stands in the manifest.
pub open spec fn offer_json(index: int, offer: Offer) -> (Seq<char>, Json) {
    (
        decimal(index as nat),
        Json::Object(
            seq![
                ("fileName"@, Json::Text(offer.name@)),
                ("fileType"@, Json::Text("application/octet-stream"@)),
                ("id"@, Json::Text(decimal(index as nat))),
                ("size"@, Json::Whole(offer.size as int)),
            ],
        ),
    )
}

/// The request that registers a transfer.
pub open spec fn transfer_json(identity: Json, offers: Seq<Offer>) -> Json {
    Json::Object(
        seq![
            ("files"@, Json::Object(Seq::new(offers.len(), |i: int| offer_json(i, offers[i])))),
            ("info"@, identity),
        ],
    )
}

/// The request that registers a transfer: who sends, and the files by their index.
pub fn prepare_request(identity: Value, offers: &Vec<Offer>) -> (r: Value)
    ensures
        r@ == transfer_json(identity@, offers@),
{
    let mut files: Vec<(String, Value)> = Vec::new();
    let ghost all = Seq::new(offers@.len(), |i: int| offer_json(i, offers@[i]));
    let mut i: usize = 0;
    while i < offers.len()
        invariant
            i <= offers@.len(),
            all == Seq::new(offers@.len(), |i: int| offer_json(i, offers@[i])),
            field_models(files@) =~= all.take(i as int),
        decreases offers.len() - i,
    {
        let id = write_u64(i as u64);
        let fields = vec![
            pair("fileName", text(offers[i].name.as_str())),
            pair("fileType", text("application/octet-stream")),
            pair("id", text(id.as_str())),
            pair("size", whole(offers[i].size)),
        ];
        assert(Json::Object(field_models(fields@)) == offer_json(i as int, offers@[i as int]).1) by {
            assert(field_models(fields@) =~= offer_json(i as int, offers@[i as int]).1->Object_0);
        }
        let ghost before = field_models(files@);
        let entry = object(fields);
        files.push((id, entry));
        assert(field_models(files@) =~= before.push(offer_json(i as int, offers@[i as int])));
        i += 1;
    }
    assert(field_models(files@) =~= all);
    let r = vec![pair("files", object(files)), pair("info", identity)];
    assert(field_models(r@) =~= seq![("files"@, Json::Object(all)), ("info"@, identity@)]);
    object(r)
}

/// A file that a device took, and where it is uploaded.
#[derive(Debug)]
pub struct Upload {
    pub path: String,
    pub name: String,
    pub target: String,
}

/// Where a file is uploaded.
pub open spec fn upload_target(session: Seq<char>, id: Seq<char>, token: Seq<char>) -> Seq<char> {
    "/api/localsend/v2/upload?sessionId="@ + session + "&fileId="@ + id + "&token="@ + token
}

/// Whether the device gave a token for the file at `index`.
pub open spec fn took(tokens: Json, index: int) -> bool {
    tokens.text_at(decimal(index as nat)) is Some
}

/// The indices, below `n`, of the files for which the device gave a token.
pub open spec fn taken_files(tokens: Json, n: nat) -> Seq<int>
    decreases n,
{
    if n == 0 {
        Seq::empty()
    } else if took(tokens, n - 1) {
        taken_files(tokens, (n - 1) as nat).push(n - 1)
    } else {
        taken_files(tokens, (n - 1) as nat)
    }
}

/// Whether the upload is that of the offer at `index`.
pub open spec fn is_upload_of(
    upload: Upload,
    offers: Seq<Offer>,
    index: int,
    session: Seq<char>,
    tokens: Json,
) -> bool {
    &&& 0 <= index < offers.len()
    &&& upload.path@ == offers[index].path@
    &&& upload.name@ == offers[index].name@
    &&& tokens.text_at(decimal(index as nat)) is Some
    &&& upload.target@ == upload_target(
        session,
        decimal(index as nat),
        tokens.text_at(decimal(index as nat))->0,
    )
}

/// Whether these are the uploads that follow when a device has answered the offer, or why there are
/// none.
pub open spec fn are_uploads(
    r: Result<Vec<Upload>, String>,
    offers: Seq<Offer>,
    response: Json,
    device: Seq<char>,
) -> bool {
    match r {
        Ok(list) => {
            let tokens = response.field("files"@)->0;
            let indices = taken_files(tokens, offers.len());
            &&& response.text_at("sessionId"@) is Some
            &&& response.field("files"@) is Some && tokens is Object
            &&& list@.len() == indices.len()
            &&& forall|k: int|
                0 <= k < list@.len() ==> is_upload_of(
                    #[trigger] list@[k],
                    offers,
                    indices[k],
                    response.text_at("sessionId"@)->0,
                    tokens,
                )
        },
        Err(message) => if response.text_at("sessionId"@) is None {
            message@ == device + " did not open a transfer session"@
        } else {
            &&& response.field("files"@) is None || !(response.field("files"@)->0 is Object)
            &&& message@ == device + " returned no upload tokens"@
        },
    }
}

/// The uploads that follow when a device has answered the offer. It may take only some of the
/// files that it was offered.
pub fn uploads(offers: &Vec<Offer>, response: &Value, device: &str) -> (r: Result<
    Vec<Upload>,
    String,
>)
    ensures
        are_uploads(r, offers@, response@, device@),
{
    let session = match response.text_at("sessionId") {
        Some(session) => session,
        None => {
            let mut message = device.to_owned();
            message.append(" did not open a transfer session");
            return Err(message);
        },
    };
    let tokens = match response.get("files") {
        Some(tokens) => tokens,
        None => {
            let mut message = device.to_owned();
            message.append(" returned no upload tokens");
            return Err(message);
        },
    };
    if tokens.as_object().is_none() {
        let mut message = device.to_owned();
        message.append(" returned no upload tokens");
        return Err(message);
    }
    let mut out: Vec<Upload> = Vec::new();
    let mut i: usize = 0;
    while i < offers.len()
        invariant
            i <= offers@.len(),
            out@.len() == taken_files(tokens@, i as nat).len(),
            forall|k: int|
                0 <= k < out@.len() ==> is_upload_of(
                    #[trigger] out@[k],
                    offers@,
                    taken_files(tokens@, i as nat)[k],
                    session@,
                    tokens@,
                ),
        decreases offers.len() - i,
    {
        let id = write_u64(i as u64);
        match tokens.text_at(id.as_str()) {
            Some(token) => {
                let mut target = "/api/localsend/v2/upload?sessionId=".to_owned();
                target.append(session.as_str());
                target.append("&fileId=");
                target.append(id.as_str());
                target.append("&token=");
                target.append(token.as_str());
                out.push(
                    Upload {
                        path: offers[i].path.clone(),
                        name: offers[i].name.clone(),
                        target,
                    },
                );
            },
            None => {},
        }
        i += 1;
    }
    Ok(out)
}

/// What a send comes to once the uploads are done.
pub fn sent(device: &str, done: Vec<String>) -> (r: Result<Sent, String>)
    ensures
        match r {
            Ok(sent) => done@.len() > 0 && sent.device@ == device@ && sent.files == done,
            Err(message) => done@.len() == 0 && message@ == device@ + " declined every file"@,
        },
{
    if done.len() == 0 {
        let mut message = device.to_owned();
        message.append(" declined every file");
        Err(message)
    } else {
        Ok(Sent { device: device.to_owned(), files: done })
    }
}

/// Whether no two devices have the same fingerprint.
pub open spec fn all_different(devices: Seq<Device>) -> bool {
    forall|i: int, j: int|
        0 <= i < j < devices.len() ==> (#[trigger] devices[i]).fingerprint@ != (
        #[trigger] devices[j]).fingerprint@
}

/// However often a device answers, it is listed once, and no device is lost.
pub proof fn each_device_is_listed_once(found: Seq<Device>, more: Seq<Device>)
    requires
        all_different(found),
    ensures
        all_different(with_devices(found, more)),
        forall|i: int|
            0 <= i < found.len() ==> is_known(
                with_devices(found, more),
                (#[trigger] found[i]).fingerprint@,
            ),
        forall|i: int|
            0 <= i < more.len() ==> is_known(
                with_devices(found, more),
                (#[trigger] more[i]).fingerprint@,
            ),
    decreases more.len(),
{
    if more.len() == 0 {
        assert forall|i: int| 0 <= i < found.len() implies is_known(
            with_devices(found, more),
            (#[trigger] found[i]).fingerprint@,
        ) by {
            assert(with_devices(found, more)[i] == found[i]);
        }
    } else {
        let front = with_devices(found, more.drop_last());
        let all = with_devices(found, more);
        each_device_is_listed_once(found, more.drop_last());
        assert forall|f: Seq<char>| is_known(front, f) implies is_known(all, f) by {
            let k = choose|k: int| 0 <= k < front.len() && (#[trigger] front[k]).fingerprint@ == f;
            assert(all[k] == front[k]);
        }
        assert(is_known(all, more.last().fingerprint@)) by {
            if !is_known(front, more.last().fingerprint@) {
                assert(all[all.len() - 1] == more.last());
            }
        }
        assert forall|i: int| 0 <= i < more.len() implies is_known(
            all,
            (#[trigger] more[i]).fingerprint@,
        ) by {
            if i < more.len() - 1 {
                assert(more.drop_last()[i] == more[i]);
            }
        }
    }
}

/// No two fields under which a device presents itself have the same name.
proof fn identity_names_differ(fields: Seq<(Seq<char>, Json)>)
    requires
        fields.len() == 8,
        fields[0].0 == "alias"@,
        fields[1].0 == "deviceModel"@,
        fields[2].0 == "deviceType"@,
        fields[3].0 == "download"@,
        fields[4].0 == "fingerprint"@,
        fields[5].0 == "port"@,
        fields[6].0 == "protocol"@,
        fields[7].0 == "version"@,
    ensures
        forall|a: int, b: int|
            0 <= a < b < fields.len() ==> (#[trigger] fields[a]).0 != (#[trigger] fields[b]).0,
        forall|a: int| 0 <= a < fields.len() ==> (#[trigger] fields[a]).0 != "announce"@,
{
    reveal_strlit("alias");
    reveal_strlit("deviceModel");
    reveal_strlit("deviceType");
    reveal_strlit("download");
    reveal_strlit("fingerprint");
    reveal_strlit("port");
    reveal_strlit("protocol");
    reveal_strlit("version");
    reveal_strlit("announce");
    assert("alias"@.len() == 5 && "deviceModel"@.len() == 11 && "deviceType"@.len() == 10
        && "download"@.len() == 8 && "fingerprint"@.len() == 11 && "port"@.len() == 4
        && "protocol"@.len() == 8 && "version"@.len() == 7 && "announce"@.len() == 8);
    assert("deviceModel"@[0] == 'd' && "fingerprint"@[0] == 'f');
    assert("download"@[0] == 'd' && "protocol"@[0] == 'p' && "announce"@[0] == 'a');
}

/// What a machine announces of itself is what others find: its name, its fingerprint, its port and
/// its protocol, at the address from which the announcement came and at no other.
pub proof fn an_announcement_is_read_as_it_was_made(
    identity: Json,
    announced: Json,
    announce: bool,
    alias: Seq<char>,
    fingerprint: Seq<char>,
    port: u16,
    protocol: Seq<char>,
    device: Device,
    address: Seq<char>,
    default_port: u16,
)
    requires
        identity == Json::Object(identity_json(alias, fingerprint, port, protocol)),
        announced == identity || announced == Json::Object(
            seq![("announce"@, Json::Bool(announce))] + identity->Object_0,
        ),
        alias.len() > 0,
        protocol.len() > 0,
        is_announced(device, announced, address, default_port),
    ensures
        device.alias@ == alias,
        device.fingerprint@ == fingerprint,
        device.port == port,
        device.protocol@ == protocol,
        device.ip@ == address,
        !device.download,
        announced != identity ==> announced.flag_at("announce"@) == Some(announce),
{
    let fields = identity_json(alias, fingerprint, port, protocol);
    identity_names_differ(fields);
    a_field_is_found(fields, 0);
    a_field_is_found(fields, 3);
    a_field_is_found(fields, 4);
    a_field_is_found(fields, 5);
    a_field_is_found(fields, 6);
    if announced != identity {
        let all = announced->Object_0;
        assert(all[0].0 == "announce"@);
        assert(all.drop_first() =~= fields);
        assert(fields[0].0 != "announce"@ && fields[3].0 != "announce"@ && fields[4].0
            != "announce"@ && fields[5].0 != "announce"@ && fields[6].0 != "announce"@);
        assert(field_of(all, fields[0].0) == field_of(fields, fields[0].0));
        assert(field_of(all, fields[3].0) == field_of(fields, fields[3].0));
        assert(field_of(all, fields[4].0) == field_of(fields, fields[4].0));
        assert(field_of(all, fields[5].0) == field_of(fields, fields[5].0));
        assert(field_of(all, fields[6].0) == field_of(fields, fields[6].0));
    }
}

/// What is sent is what is taken: the files that a sender offers are, in order and under their
/// names and sizes, those of the transfer that the receiver takes up.
pub proof fn an_offer_is_read_as_it_was_made(
    identity: Json,
    offers: Seq<Offer>,
    transfer: IncomingTransfer,
    session: Seq<char>,
    now: u64,
    k: int,
)
    requires
        is_offered_transfer(transfer, transfer_json(identity, offers), session, now),
        0 <= k < offers.len(),
    ensures
        transfer.files@.len() == offers.len(),
        transfer.files@[k].name@ == offers[k].name@,
        transfer.files@[k].size == offers[k].size,
        transfer.files@[k].id@ == decimal(k as nat),
        identity.text_at("alias"@) is Some ==> transfer.device@ == identity.text_at("alias"@)->0,
        transfer.fingerprint@ == identity.text_or_empty("fingerprint"@),
{
    reveal_strlit("files");
    reveal_strlit("info");
    let all = transfer_json(identity, offers)->Object_0;
    assert("files"@.len() == 5 && "info"@.len() == 4);
    assert(all.drop_first()[0] == ("info"@, identity));
    assert(field_of(all.drop_first(), "info"@) == Some(identity));
    assert(field_of(all, "info"@) == Some(identity));
    let entries = all[0].1->Object_0;
    assert(field_of(all, "files"@) == Some(all[0].1));
    assert(is_offered(transfer.files@[k], entries[k]));
    let fields = offer_json(k, offers[k]).1->Object_0;
    reveal_strlit("fileName");
    reveal_strlit("fileType");
    reveal_strlit("id");
    reveal_strlit("size");
    assert("fileName"@.len() == 8 && "fileType"@.len() == 8 && "id"@.len() == 2 && "size"@.len()
        == 4);
    assert("fileName"@[4] == 'N' && "fileType"@[4] == 'T');
    assert forall|a: int, b: int| 0 <= a < b < fields.len() implies (#[trigger] fields[a]).0 != (
    #[trigger] fields[b]).0 by {}
    a_field_is_found(fields, 0);
    a_field_is_found(fields, 3);
}

/// Each file that is uploaded is one that was offered, and is read from where it lies; no two
/// uploads are of the same file, and they come in the order of the offer. A file for which the
/// device gave a token is uploaded, with that token.
pub proof fn what_the_device_took_is_uploaded(
    r: Result<Vec<Upload>, String>,
    offers: Seq<Offer>,
    response: Json,
    device: Seq<char>,
    session: Seq<char>,
    k: int,
    v: int,
)
    requires
        are_uploads(r, offers, response, device),
        response.text_at("sessionId"@) == Some(session),
        response.field("files"@) matches Some(tokens) && tokens is Object,
        0 <= k < offers.len(),
    ensures
        r is Ok,
        r->Ok_0@.len() <= offers.len(),
        (response.field("files"@)->0).text_at(decimal(k as nat)) matches Some(token) ==> exists|
            u: int,
        |
            0 <= u < r->Ok_0@.len() && (#[trigger] r->Ok_0@[u]).path@ == offers[k].path@
                && r->Ok_0@[u].name@ == offers[k].name@ && r->Ok_0@[u].target@
                == "/api/localsend/v2/upload?sessionId="@ + session + "&fileId="@ + decimal(
                k as nat,
            ) + "&token="@ + token,
        0 <= v < r->Ok_0@.len() ==> exists|o: int|
            0 <= o < offers.len() && r->Ok_0@[v].path@ == (#[trigger] offers[o]).path@
                && r->Ok_0@[v].name@ == offers[o].name@,
{
    let tokens = response.field("files"@)->0;
    let list = r->Ok_0@;
    let all = taken_files(tokens, offers.len());
    taken_files_are_those_taken(tokens, offers.len());
    if tokens.text_at(decimal(k as nat)) is Some {
        assert(took(tokens, k));
        let u = choose|u: int| 0 <= u < all.len() && all[u] == k;
        assert(is_upload_of(list[u], offers, all[u], session, tokens));
    }
    if 0 <= v < list.len() {
        assert(is_upload_of(list[v], offers, all[v], session, tokens));
        assert(list[v].path@ == offers[all[v]].path@);
    }
}

/// The files that were taken are listed in order, each once, and no other is.
proof fn taken_files_are_those_taken(tokens: Json, n: nat)
    ensures
        taken_files(tokens, n).len() <= n,
        forall|k: int|
            0 <= k < n && #[trigger] took(tokens, k) ==> taken_files(tokens, n).contains(k),
        forall|u: int|
            0 <= u < taken_files(tokens, n).len() ==> 0 <= #[trigger] taken_files(tokens, n)[u] < n,
    decreases n,
{
    if n > 0 {
        taken_files_are_those_taken(tokens, (n - 1) as nat);
        let front = taken_files(tokens, (n - 1) as nat);
        let all = taken_files(tokens, n);
        assert forall|k: int| 0 <= k < n && #[trigger] took(tokens, k) implies all.contains(k) by {
            if k == n - 1 {
                assert(all[all.len() - 1] == k);
            } else {
                assert(front.contains(k));
                let u = choose|u: int| 0 <= u < front.len() && front[u] == k;
                assert(all[u] == k);
            }
        }
    }
}

/// The device to which files go is one that answered, and goes by the name that was given: its alias
/// or its fingerprint, in any case and without white space around it. Where one does, it is found.
pub proof fn files_go_to_the_device_that_was_named(
    devices: Seq<Device>,
    wanted: Seq<char>,
    r: Result<&Device, String>,
    k: int,
)
    requires
        is_found(r, devices, wanted),
        0 <= k < devices.len(),
        lower_of(devices[k].alias@) == lower_of(trim_of(wanted)) || lower_of(
            devices[k].fingerprint@,
        ) == lower_of(trim_of(wanted)),
    ensures
        r is Ok,
        devices.contains(*r->Ok_0),
        lower_of(r->Ok_0.alias@) == lower_of(trim_of(wanted)) || lower_of(r->Ok_0.fingerprint@)
            == lower_of(trim_of(wanted)),
{
    assert(goes_by(devices[k], wanted));
}

/// Nothing is sent where no device goes by the name.
pub proof fn nothing_goes_to_another_device(
    devices: Seq<Device>,
    wanted: Seq<char>,
    r: Result<&Device, String>,
)
    requires
        is_found(r, devices, wanted),
        forall|k: int|
            0 <= k < devices.len() ==> lower_of((#[trigger] devices[k]).alias@) != lower_of(
                trim_of(wanted),
            ) && lower_of(devices[k].fingerprint@) != lower_of(trim_of(wanted)),
    ensures
        r is Err,
{
}

/// The devices are listed by their names: none stands before another whose name comes first, and
/// those listed are those found.
pub proof fn devices_are_listed_by_name(before: Seq<Device>, after: Seq<Device>, a: int, b: int)
    requires
        is_by_alias(before, after),
        0 <= a < b < after.len(),
    ensures
        after.len() == before.len(),
        !comes_before(lower_of(after[b].alias@), lower_of(after[a].alias@)),
        before.contains(after[a]),
{
    let order = choose|order: Seq<usize>| #[trigger]
        is_arrangement(order, before.len()) && after == picked(before, order) && forall|
            a: int,
            b: int,
        |
            0 <= a < b < order.len() ==> alias_before(before, #[trigger] order[a], #[trigger] order[b]);
    assert(alias_before(before, order[a], order[b]));
    comes_before_is_total(lower_of(after[a].alias@), lower_of(after[b].alias@));
    assert(after[a] == before[order[a] as int]);
}

/// The offers are for the files that are given, in order, each under its own file name.
pub proof fn an_offer_is_of_its_file(
    r: Result<Vec<Offer>, String>,
    files: Seq<String>,
    kinds: Seq<FileKind>,
    k: int,
)
    requires
        files.len() == kinds.len(),
        are_offers(r, files, kinds),
        r is Ok,
        0 <= k < files.len(),
    ensures
        r->Ok_0@.len() == files.len(),
        r->Ok_0@[k].path@ == files[k]@,
        file_name_of(files[k]@) == Some(r->Ok_0@[k].name@),
        kinds[k] matches FileKind::File(size) && r->Ok_0@[k].size == size,
{
    assert(is_offer_of(r->Ok_0@[k], files[k]@, kinds[k]));
}

/// A machine goes by its own name where it has one, and the fingerprint it announces is that of its
/// certificate while it takes transfers.
pub proof fn a_machine_goes_by_its_own_name(
    name: Seq<char>,
    fingerprint: Seq<char>,
    alias: Seq<char>,
)
    ensures
        trim_of(name).len() > 0 ==> alias_spec(Some(name)) == trim_of(name),
        trim_of(name).len() == 0 ==> alias_spec(Some(name)) == "Epoch"@,
        alias_spec(None) == "Epoch"@,
        own_fingerprint_spec(Some(fingerprint), alias) == fingerprint,
        own_fingerprint_spec(None, alias) == hex_lower_of(
            sha256_of(encode_utf8("epochoxide:"@ + alias)),
        ),
{
}

/// A device that is not known yet is added behind the others, and one that is known changes nothing.
pub proof fn a_device_is_added_once(found: Seq<Device>, device: Device)
    ensures
        (forall|i: int|
            0 <= i < found.len() ==> (#[trigger] found[i]).fingerprint@ != device.fingerprint@)
            ==> with_device(found, device) == found.push(device),
        (exists|i: int|
            0 <= i < found.len() && (#[trigger] found[i]).fingerprint@ == device.fingerprint@)
            ==> with_device(found, device) == found,
{
}

} // verus!
