//! The state of Tailscale.
//!
//! What `tailscale status --json` answers is large and differs between versions. Only what is shown
//! is lifted out of it.

use vstd::prelude::*;
use vstd::string::*;

use crate::json::{field_models, models, texts_among, texts_in, Json, Value};
use crate::order::{
    comes_before, comes_before_is_total, index_before, is_arrangement, picked, reorder,
    sorted_order, TextKey,
};
use crate::text::{
    is_in, join, joined, list_has, lossy, lossy_of, same, same_but_case, same_ignoring_case,
    strip_suffixes, texts, trim, trim_of, without_suffixes,
};

verus! {

/// A machine in the tailnet.
#[derive(Debug)]
pub struct Machine {
    pub id: String,
    /// The short name of the host.
    pub name: String,
    /// The full name, without a dot at its end.
    pub dns_name: String,
    pub os: String,
    pub online: bool,
    pub ips: Vec<String>,
    /// Whether this machine is the exit node in use.
    pub exit_node: bool,
    /// Whether this machine offers itself as an exit node.
    pub exit_node_option: bool,
    /// Whether this is the device itself and no peer.
    pub is_self: bool,
}

/// What a machine is.
#[verifier::ext_equal]
pub struct MachineModel {
    pub id: Seq<char>,
    pub name: Seq<char>,
    pub dns_name: Seq<char>,
    pub os: Seq<char>,
    pub online: bool,
    pub ips: Seq<Seq<char>>,
    pub exit_node: bool,
    pub exit_node_option: bool,
    pub is_self: bool,
}

impl View for Machine {
    type V = MachineModel;

    open spec fn view(&self) -> MachineModel {
        MachineModel {
            id: self.id@,
            name: self.name@,
            dns_name: self.dns_name@,
            os: self.os@,
            online: self.online,
            ips: texts(self.ips@),
            exit_node: self.exit_node,
            exit_node_option: self.exit_node_option,
            is_self: self.is_self,
        }
    }
}

/// The state of the tailnet.
#[derive(Debug)]
pub struct Status {
    /// Whether the backend is fully up.
    pub running: bool,
    /// The state of the backend in its own words.
    pub state: String,
    pub version: String,
    pub tailnet: String,
    pub magic_dns_suffix: String,
    pub self_machine: Option<Machine>,
    /// The name of the exit node in use.
    pub exit_node: Option<String>,
    /// What Tailscale warns of.
    pub health: Vec<String>,
}

/// Whether Tailscale is installed.
pub fn available(installed: bool) -> (r: bool)
    ensures
        r == installed,
{
    installed
}

/// A flag that is off where it is not said.
pub open spec fn flag_of(node: Json, name: Seq<char>) -> bool {
    node.flag_at(name) == Some(true)
}

/// A flag that is off where it is not said.
fn read_flag(node: &Value, name: &str) -> (r: bool)
    ensures
        r == flag_of(node@, name@),
{
    match node.flag_at(name) {
        Some(flag) => flag,
        None => false,
    }
}

/// The addresses of a node: they stand under one name in current versions and under another in
/// older ones.
pub open spec fn ips_of(node: Json) -> Seq<Seq<char>> {
    match node.inner("TailscaleIPs"@) {
        Json::List(items) => texts_among(items),
        _ => match node.inner("Addrs"@) {
            Json::List(items) => texts_among(items),
            _ => Seq::empty(),
        },
    }
}

/// The items of a field, where it is a list.
fn items_at<'a>(node: &'a Value, name: &str) -> (r: Option<&'a Vec<Value>>)
    ensures
        match r {
            Some(items) => node@.inner(name@) == Json::List(models(items@)),
            None => !(node@.inner(name@) is List),
        },
{
    match node.get(name) {
        Some(v) => v.as_array(),
        None => None,
    }
}

/// The machine that a node describes. Whether a peer is online is what the node says. Of the device
/// itself it says so only where it reaches the coordination server, so there the backend decides.
pub open spec fn machine_of(node: Json, is_self: bool, running: bool) -> MachineModel {
    MachineModel {
        id: node.text_or_empty("ID"@),
        name: node.text_or_empty("HostName"@),
        dns_name: without_suffixes(node.text_or_empty("DNSName"@), "."@),
        os: node.text_or_empty("OS"@),
        online: if is_self {
            running
        } else {
            flag_of(node, "Online"@)
        },
        ips: ips_of(node),
        exit_node: flag_of(node, "ExitNode"@),
        exit_node_option: flag_of(node, "ExitNodeOption"@),
        is_self,
    }
}

/// The machine that a node describes.
pub fn machine(node: &Value, is_self: bool, running: bool) -> (r: Machine)
    ensures
        r@ == machine_of(node@, is_self, running),
{
    let ips = match items_at(node, "TailscaleIPs") {
        Some(items) => texts_in(items),
        None => match items_at(node, "Addrs") {
            Some(items) => texts_in(items),
            None => Vec::new(),
        },
    };
    assert(texts(ips@) =~= ips_of(node@));
    Machine {
        id: node.text_or_empty("ID"),
        name: node.text_or_empty("HostName"),
        dns_name: strip_suffixes(node.text_or_empty("DNSName").as_str(), "."),
        os: node.text_or_empty("OS"),
        online: if is_self {
            running
        } else {
            read_flag(node, "Online")
        },
        ips,
        exit_node: read_flag(node, "ExitNode"),
        exit_node_option: read_flag(node, "ExitNodeOption"),
        is_self,
    }
}

/// The peers that an answer names.
pub open spec fn peers_of(raw: Json) -> Seq<Json> {
    match raw.inner("Peer"@) {
        Json::Object(fields) => fields.map_values(|f: (Seq<char>, Json)| f.1),
        _ => Seq::empty(),
    }
}

/// The name of the first of the nodes that is the exit node in use.
pub open spec fn exit_node_of(nodes: Seq<Json>) -> Option<Seq<char>>
    decreases nodes.len(),
{
    if nodes.len() == 0 {
        None
    } else if flag_of(nodes[0], "ExitNode"@) {
        Some(nodes[0].text_or_empty("HostName"@))
    } else {
        exit_node_of(nodes.drop_first())
    }
}

/// Whether the backend is fully up.
pub open spec fn is_running(raw: Json) -> bool {
    raw.text_or_empty("BackendState"@) == "Running"@
}

/// The name of the exit node in use.
fn read_exit_node(raw: &Value) -> (r: Option<String>)
    ensures
        match r {
            Some(name) => exit_node_of(peers_of(raw@)) == Some(name@),
            None => exit_node_of(peers_of(raw@)) is None,
        },
{
    let peers = match raw.get("Peer") {
        Some(v) => v,
        None => return None,
    };
    let fields = match peers.as_object() {
        Some(fields) => fields,
        None => return None,
    };
    let ghost all = peers_of(raw@);
    assert(all.skip(0) =~= all);
    let mut i: usize = 0;
    while i < fields.len()
        invariant
            all == peers_of(raw@),
            raw@.inner("Peer"@) == Json::Object(field_models(fields@)),
            i <= fields@.len(),
            exit_node_of(all) == exit_node_of(all.skip(i as int)),
        decreases fields.len() - i,
    {
        assert(all.skip(i as int)[0] == fields@[i as int].1@);
        assert(all.skip(i as int).drop_first() =~= all.skip(i + 1));
        if read_flag(&fields[i].1, "ExitNode") {
            return Some(fields[i].1.text_or_empty("HostName"));
        }
        i += 1;
    }
    assert(all.skip(i as int).len() == 0);
    None
}

/// What is reported of what Tailscale answered.
pub open spec fn is_reported(r: Status, raw: Json) -> bool {
    &&& r.running == is_running(raw)
    &&& r.state@ == raw.text_or_empty("BackendState"@)
    &&& r.version@ == raw.text_or_empty("Version"@)
    &&& r.tailnet@ == raw.inner("CurrentTailnet"@).text_or_empty("Name"@)
    &&& r.magic_dns_suffix@ == raw.text_or_empty("MagicDNSSuffix"@)
    &&& match r.self_machine {
        Some(own) => raw.field("Self"@) is Some && own@ == machine_of(
            raw.inner("Self"@),
            true,
            is_running(raw),
        ),
        None => raw.field("Self"@) is None,
    }
    &&& match r.exit_node {
        Some(name) => exit_node_of(peers_of(raw)) == Some(name@),
        None => exit_node_of(peers_of(raw)) is None,
    }
    &&& texts(r.health@) == texts_among(raw.list_at("Health"@))
}

/// The state of the tailnet, from what Tailscale answered.
pub fn status(raw: &Value) -> (r: Status)
    ensures
        is_reported(r, raw@),
{
    let state = raw.text_or_empty("BackendState");
    let running = same(state.as_str(), "Running");
    let self_machine = match raw.get("Self") {
        Some(node) => Some(machine(node, true, running)),
        None => None,
    };
    let health = match items_at(raw, "Health") {
        Some(items) => texts_in(items),
        None => Vec::new(),
    };
    assert(texts(health@) =~= texts_among(raw@.list_at("Health"@)));
    let tailnet = match raw.get("CurrentTailnet") {
        Some(tailnet) => tailnet.text_or_empty("Name"),
        None => String::new(),
    };
    Status {
        running,
        state,
        version: raw.text_or_empty("Version"),
        tailnet,
        magic_dns_suffix: raw.text_or_empty("MagicDNSSuffix"),
        self_machine,
        exit_node: read_exit_node(raw),
        health,
    }
}

/// What each of some machines is.
pub open spec fn machine_models(machines: Seq<Machine>) -> Seq<MachineModel> {
    machines.map_values(|m: Machine| m@)
}

/// The machines that some nodes describe.
pub open spec fn peer_machines(nodes: Seq<Json>, running: bool) -> Seq<MachineModel> {
    nodes.map_values(|node: Json| machine_of(node, false, running))
}

/// Whether the machine at `i` comes before that at `j`: by name, and equal names as they were.
pub open spec fn machine_before(all: Seq<MachineModel>, i: usize, j: usize) -> bool {
    comes_before(all[i as int].name, all[j as int].name) || (all[i as int].name
        == all[j as int].name && i < j)
}

/// Whether the order puts the machines by name.
pub open spec fn by_name(all: Seq<MachineModel>, order: Seq<usize>) -> bool {
    forall|a: int, b: int|
        0 <= a < b < order.len() ==> #[trigger] machine_before(all, order[a], order[b])
}

/// Whether `sorted` are the machines by name.
pub open spec fn is_sorted(sorted: Seq<MachineModel>, all: Seq<MachineModel>) -> bool {
    exists|order: Seq<usize>| #[trigger]
        is_arrangement(order, all.len()) && sorted == picked(all, order) && by_name(all, order)
}

/// The device itself, where the answer names it.
pub open spec fn own_machine(raw: Json) -> Seq<MachineModel> {
    match raw.field("Self"@) {
        Some(node) => seq![machine_of(node, true, is_running(raw))],
        None => Seq::empty(),
    }
}

/// Sorts machines by name.
fn sort_machines(machines: Vec<Machine>) -> (r: Vec<Machine>)
    ensures
        is_sorted(machine_models(r@), machine_models(machines@)),
{
    let ghost all = machine_models(machines@);
    let mut keys: Vec<TextKey> = Vec::new();
    let mut i: usize = 0;
    while i < machines.len()
        invariant
            i <= machines@.len(),
            all == machine_models(machines@),
            keys@.len() == i,
            forall|k: int| 0 <= k < i ==> (#[trigger] keys@[k]).0@ == all[k].name,
        decreases machines.len() - i,
    {
        keys.push(TextKey(machines[i].name.as_str().to_owned()));
        i += 1;
    }
    let order = sorted_order(&keys);
    let out = reorder(machines, &order);
    proof {
        assert(machine_models(out@) =~= picked(all, order@));
        assert forall|a: int, b: int| 0 <= a < b < order@.len() implies #[trigger] machine_before(
            all,
            order@[a],
            order@[b],
        ) by {
            assert(index_before(keys@, order@[a], order@[b]));
            assert(keys@[order@[a] as int].0@ == all[order@[a] as int].name);
            assert(keys@[order@[b] as int].0@ == all[order@[b] as int].name);
            comes_before_is_total(all[order@[a] as int].name, all[order@[b] as int].name);
        }
        assert(is_arrangement(order@, all.len()));
    }
    out
}

/// The peers that an answer names, as it names them.
fn read_peers(raw: &Value, running: bool) -> (r: Vec<Machine>)
    ensures
        machine_models(r@) == peer_machines(peers_of(raw@), running),
{
    let mut out: Vec<Machine> = Vec::new();
    let ghost all = peer_machines(peers_of(raw@), running);
    assert(machine_models(out@) =~= Seq::empty());
    let peers = match raw.get("Peer") {
        Some(v) => v,
        None => {
            assert(all =~= Seq::empty());
            return out;
        },
    };
    let fields = match peers.as_object() {
        Some(fields) => fields,
        None => {
            assert(all =~= Seq::empty());
            return out;
        },
    };
    let mut i: usize = 0;
    while i < fields.len()
        invariant
            all == peer_machines(peers_of(raw@), running),
            raw@.inner("Peer"@) == Json::Object(field_models(fields@)),
            i <= fields@.len(),
            machine_models(out@) == all.take(i as int),
        decreases fields.len() - i,
    {
        let ghost before = machine_models(out@);
        assert(peers_of(raw@)[i as int] == fields@[i as int].1@);
        out.push(machine(&fields[i].1, false, running));
        assert(machine_models(out@) =~= before.push(all[i as int]));
        assert(all.take(i + 1) =~= before.push(all[i as int]));
        i += 1;
    }
    assert(all.take(i as int) =~= all);
    out
}

/// Whether these are the machines in the tailnet: this device first, and then the peers by name.
pub open spec fn are_machines(r: Seq<MachineModel>, raw: Json) -> bool {
    exists|peers: Seq<MachineModel>| #[trigger]
        is_sorted(peers, peer_machines(peers_of(raw), is_running(raw))) && r == own_machine(raw)
            + peers
}

/// Every machine in the tailnet: this device first, and then the peers by name.
pub fn machines(raw: &Value) -> (r: Vec<Machine>)
    ensures
        are_machines(machine_models(r@), raw@),
{
    let running = same(raw.text_or_empty("BackendState").as_str(), "Running");
    let mut peers = sort_machines(read_peers(raw, running));
    let ghost sorted = machine_models(peers@);
    assert(is_sorted(sorted, peer_machines(peers_of(raw@), is_running(raw@))));
    let mut out: Vec<Machine> = Vec::new();
    if let Some(node) = raw.get("Self") {
        out.push(machine(node, true, running));
    }
    assert(machine_models(out@) =~= own_machine(raw@));
    out.append(&mut peers);
    assert(machine_models(out@) =~= own_machine(raw@) + sorted);
    out
}

/// What is said of a `tailscale status` that failed.
pub fn status_failure(stderr: &[u8]) -> (r: String)
    ensures
        r@ == (if trim_of(lossy_of(stderr@)).len() > 0 {
            trim_of(lossy_of(stderr@))
        } else {
            "tailscale status failed"@
        }),
{
    let detail = trim(lossy(stderr).as_str());
    if detail.as_str().is_empty() {
        "tailscale status failed".to_owned()
    } else {
        detail
    }
}

/// Whether a machine is the peer of that name, by its short or its full name.
pub open spec fn is_peer(machine: MachineModel, peer: Seq<char>) -> bool {
    !machine.is_self && (same_but_case(machine.name, peer) || same_but_case(machine.dns_name, peer))
}

/// The index of the first machine that is the peer of that name, or the number of machines.
pub open spec fn peer_index(machines: Seq<MachineModel>, peer: Seq<char>) -> int
    decreases machines.len(),
{
    if machines.len() == 0 || is_peer(machines[0], peer) {
        0
    } else {
        1 + peer_index(machines.drop_first(), peer)
    }
}

/// The short names of the peers.
pub open spec fn peer_names(machines: Seq<MachineModel>) -> Seq<Seq<char>>
    decreases machines.len(),
{
    if machines.len() == 0 {
        Seq::empty()
    } else if machines.last().is_self {
        peer_names(machines.drop_last())
    } else {
        peer_names(machines.drop_last()).push(machines.last().name)
    }
}

/// The index of the first of the files that is not there, or the number of files.
pub open spec fn missing_index(files: Seq<Seq<char>>, there: Seq<String>) -> int
    decreases files.len(),
{
    if files.len() == 0 || !is_in(there, files[0]) {
        0
    } else {
        1 + missing_index(files.drop_first(), there)
    }
}

/// The transfer that is wanted of `tailscale`.
#[derive(Debug)]
pub struct Transfer {
    pub arguments: Vec<String>,
    /// The short name of the peer.
    pub name: String,
}

/// Whether a transfer of the files to a peer is what was asked for, or else why not.
pub open spec fn is_transfer(
    r: Result<Transfer, String>,
    peer: Seq<char>,
    files: Seq<Seq<char>>,
    known: Seq<MachineModel>,
    there: Seq<String>,
) -> bool {
    let i = peer_index(known, peer);
    let missing = missing_index(files, there);
    if i >= known.len() {
        r matches Err(m) && m@ == "no tailnet peer named \""@ + peer + "\" (known: "@ + joined(
            peer_names(known),
            ", "@,
        ) + ")"@
    } else if missing < files.len() {
        r matches Err(m) && m@ == "no such file: "@ + files[missing]
    } else {
        r matches Ok(transfer) && texts(transfer.arguments@) == seq!["file"@, "cp"@] + files + seq![
            known[i].dns_name + ":"@,
        ] && transfer.name@ == known[i].name
    }
}

/// The short names of the peers.
fn list_peers(known: &Vec<Machine>) -> (r: Vec<String>)
    ensures
        texts(r@) == peer_names(machine_models(known@)),
{
    let ghost all = machine_models(known@);
    let mut out: Vec<String> = Vec::new();
    assert(all.take(0) =~= Seq::empty());
    assert(texts(out@) =~= Seq::empty());
    let mut i: usize = 0;
    while i < known.len()
        invariant
            all == machine_models(known@),
            i <= known@.len(),
            texts(out@) == peer_names(all.take(i as int)),
        decreases known.len() - i,
    {
        let ghost before = texts(out@);
        assert(all.take(i + 1).drop_last() =~= all.take(i as int));
        assert(all.take(i + 1).last() == known@[i as int]@);
        if !known[i].is_self {
            out.push(known[i].name.as_str().to_owned());
            assert(texts(out@) =~= before.push(known@[i as int].name@));
        }
        i += 1;
    }
    assert(all.take(i as int) =~= all);
    out
}

/// The first machine that is the peer of that name.
fn find_peer<'a>(known: &'a Vec<Machine>, peer: &str) -> (r: Option<&'a Machine>)
    ensures
        match r {
            Some(found) => peer_index(machine_models(known@), peer@) < known@.len() && found@
                == machine_models(known@)[peer_index(machine_models(known@), peer@)],
            None => peer_index(machine_models(known@), peer@) >= known@.len(),
        },
{
    let ghost all = machine_models(known@);
    assert(all.skip(0) =~= all);
    let mut i: usize = 0;
    while i < known.len()
        invariant
            all == machine_models(known@),
            i <= known@.len(),
            peer_index(all, peer@) == i + peer_index(all.skip(i as int), peer@),
        decreases known.len() - i,
    {
        assert(all.skip(i as int)[0] == known@[i as int]@);
        assert(all.skip(i as int).drop_first() =~= all.skip(i + 1));
        if !known[i].is_self && (same_ignoring_case(known[i].name.as_str(), peer)
            || same_ignoring_case(known[i].dns_name.as_str(), peer)) {
            return Some(&known[i]);
        }
        i += 1;
    }
    None
}

/// Sends files to a peer, which is named as `machines` reports it. `known` is what that reported,
/// and `there` are the files that exist.
pub fn send(
    peer: &str,
    files: &Vec<String>,
    known: Result<Vec<Machine>, String>,
    there: &Vec<String>,
) -> (r: Result<Transfer, String>)
    ensures
        if files@.len() == 0 {
            r matches Err(m) && m@ == "no files given"@
        } else {
            match known {
                Err(message) => r matches Err(m) && m == message,
                Ok(machines) => is_transfer(
                    r,
                    peer@,
                    texts(files@),
                    machine_models(machines@),
                    there@,
                ),
            }
        },
{
    if files.len() == 0 {
        return Err("no files given".to_owned());
    }
    let machines = match known {
        Ok(machines) => machines,
        Err(message) => return Err(message),
    };
    let target = match find_peer(&machines, peer) {
        Some(target) => target,
        None => {
            let mut message = "no tailnet peer named \"".to_owned();
            message.append(peer);
            message.append("\" (known: ");
            message.append(join(&list_peers(&machines), ", ").as_str());
            message.append(")");
            return Err(message);
        },
    };
    let ghost all = texts(files@);
    let mut arguments: Vec<String> = Vec::new();
    arguments.push("file".to_owned());
    arguments.push("cp".to_owned());
    assert(texts(arguments@) =~= seq!["file"@, "cp"@] + all.take(0));
    assert(all.skip(0) =~= all);
    let mut i: usize = 0;
    while i < files.len()
        invariant
            all == texts(files@),
            i <= files@.len(),
            files@.len() > 0,
            known == Ok::<Vec<Machine>, String>(machines),
            peer_index(machine_models(machines@), peer@) < machines@.len(),
            missing_index(all, there@) == i + missing_index(all.skip(i as int), there@),
            texts(arguments@) == seq!["file"@, "cp"@] + all.take(i as int),
        decreases files.len() - i,
    {
        assert(all.skip(i as int)[0] == files@[i as int]@);
        assert(all.skip(i as int).drop_first() =~= all.skip(i + 1));
        if !list_has(there, files[i].as_str()) {
            let mut message = "no such file: ".to_owned();
            message.append(files[i].as_str());
            return Err(message);
        }
        let ghost before = texts(arguments@);
        arguments.push(files[i].as_str().to_owned());
        assert(texts(arguments@) =~= before.push(all[i as int]));
        assert(all.take(i + 1) =~= all.take(i as int).push(all[i as int]));
        assert(texts(arguments@) =~= seq!["file"@, "cp"@] + all.take(i + 1));
        i += 1;
    }
    assert(all.take(i as int) =~= all);
    let ghost before = texts(arguments@);
    let mut address = target.dns_name.as_str().to_owned();
    address.append(":");
    arguments.push(address);
    assert(texts(arguments@) =~= before.push(address@));
    assert(texts(arguments@) =~= seq!["file"@, "cp"@] + all + seq![target.dns_name@ + ":"@]);
    Ok(Transfer { arguments, name: target.name.as_str().to_owned() })
}

/// What is said of a transfer that failed.
pub fn send_failure(stderr: &[u8], name: &str) -> (r: String)
    ensures
        r@ == (if trim_of(lossy_of(stderr@)).len() > 0 {
            trim_of(lossy_of(stderr@))
        } else {
            "sending to "@ + name@ + " failed"@
        }),
{
    let detail = trim(lossy(stderr).as_str());
    if detail.as_str().is_empty() {
        let mut message = "sending to ".to_owned();
        message.append(name);
        message.append(" failed");
        message
    } else {
        detail
    }
}

/// Where the backend is up, this device is online, whatever its own node says.
pub proof fn this_device_is_online_with_the_backend(node: Json, running: bool)
    ensures
        machine_of(node, true, running).online == running,
{
}

/// Nothing is sent to the device itself.
pub proof fn nothing_is_sent_to_this_device(machines: Seq<MachineModel>, peer: Seq<char>)
    ensures
        0 <= peer_index(machines, peer) <= machines.len(),
        peer_index(machines, peer) < machines.len() ==> !machines[peer_index(
            machines,
            peer,
        )].is_self,
    decreases machines.len(),
{
    if machines.len() > 0 && !is_peer(machines[0], peer) {
        nothing_is_sent_to_this_device(machines.drop_first(), peer);
    }
}

/// Files go to the peer that was named, by its short or its full name and in whatever case: all of
/// them, in their order, and to no other machine.
pub proof fn files_go_to_the_peer_that_was_named(
    r: Result<Transfer, String>,
    peer: Seq<char>,
    files: Seq<Seq<char>>,
    known: Seq<MachineModel>,
    there: Seq<String>,
    k: int,
)
    requires
        is_transfer(r, peer, files, known, there),
        0 <= k < known.len(),
        !known[k].is_self,
        same_but_case(known[k].name, peer) || same_but_case(known[k].dns_name, peer),
        forall|j: int|
            0 <= j < k ==> known[j].is_self || !(same_but_case((#[trigger] known[j]).name, peer)
                || same_but_case(known[j].dns_name, peer)),
    ensures
        (forall|i: int| 0 <= i < files.len() ==> is_in(there, #[trigger] files[i])) ==> (r matches Ok(
            transfer,
        ) && transfer.name@ == known[k].name && texts(transfer.arguments@) == seq!["file"@, "cp"@]
            + files + seq![known[k].dns_name + ":"@]),
        (exists|i: int| 0 <= i < files.len() && !is_in(there, #[trigger] files[i])) ==> r is Err,
{
    peer_index_finds(known, peer, k);
    missing_index_is_first(files, there);
}

/// The first machine that is the peer is found.
proof fn peer_index_finds(machines: Seq<MachineModel>, peer: Seq<char>, k: int)
    requires
        0 <= k < machines.len(),
        is_peer(machines[k], peer),
        forall|j: int| 0 <= j < k ==> !is_peer(#[trigger] machines[j], peer),
    ensures
        peer_index(machines, peer) == k,
    decreases k,
{
    if k > 0 {
        assert(!is_peer(machines[0], peer));
        let rest = machines.drop_first();
        assert forall|j: int| 0 <= j < k - 1 implies !is_peer(#[trigger] rest[j], peer) by {
            assert(rest[j] == machines[j + 1]);
        }
        peer_index_finds(rest, peer, k - 1);
    }
}

/// The first file that is not there is found.
proof fn missing_index_is_first(files: Seq<Seq<char>>, there: Seq<String>)
    ensures
        0 <= missing_index(files, there) <= files.len(),
        missing_index(files, there) < files.len() ==> !is_in(
            there,
            files[missing_index(files, there)],
        ),
        forall|i: int|
            0 <= i < missing_index(files, there) ==> is_in(there, #[trigger] files[i]),
    decreases files.len(),
{
    if files.len() > 0 && is_in(there, files[0]) {
        let rest = files.drop_first();
        missing_index_is_first(rest, there);
        assert forall|i: int| 0 <= i < missing_index(files, there) implies is_in(
            there,
            #[trigger] files[i],
        ) by {
            if i > 0 {
                assert(rest[i - 1] == files[i]);
            }
        }
    }
}

/// Nothing is sent to a name that no peer has.
pub proof fn nothing_is_sent_to_a_stranger(
    r: Result<Transfer, String>,
    peer: Seq<char>,
    files: Seq<Seq<char>>,
    known: Seq<MachineModel>,
    there: Seq<String>,
)
    requires
        is_transfer(r, peer, files, known, there),
        forall|j: int|
            0 <= j < known.len() ==> known[j].is_self || !(same_but_case(
                (#[trigger] known[j]).name,
                peer,
            ) || same_but_case(known[j].dns_name, peer)),
    ensures
        r is Err,
{
    peer_index_is_of(known, peer);
}

/// Where an index is found the machine is the peer.
proof fn peer_index_is_of(machines: Seq<MachineModel>, peer: Seq<char>)
    ensures
        0 <= peer_index(machines, peer) <= machines.len(),
        peer_index(machines, peer) < machines.len() ==> is_peer(
            machines[peer_index(machines, peer)],
            peer,
        ),
    decreases machines.len(),
{
    if machines.len() > 0 && !is_peer(machines[0], peer) {
        peer_index_is_of(machines.drop_first(), peer);
    }
}

/// A machine is read as it is reported: a peer is online where it says so, and is the exit node in use
/// where it says so.
pub proof fn a_machine_is_read_as_reported(
    node: Json,
    running: bool,
    id: Seq<char>,
    name: Seq<char>,
    os: Seq<char>,
)
    requires
        node.field("ID"@) == Some(Json::Text(id)),
        node.field("HostName"@) == Some(Json::Text(name)),
        node.field("OS"@) == Some(Json::Text(os)),
    ensures
        machine_of(node, false, running).id == id,
        machine_of(node, false, running).name == name,
        machine_of(node, false, running).os == os,
        machine_of(node, false, running).online <==> node.field("Online"@) == Some(Json::Bool(true)),
        machine_of(node, false, running).exit_node <==> node.field("ExitNode"@) == Some(
            Json::Bool(true),
        ),
        machine_of(node, false, running).exit_node_option <==> node.field("ExitNodeOption"@) == Some(
            Json::Bool(true),
        ),
        !machine_of(node, false, running).is_self,
        machine_of(node, true, running).is_self,
        machine_of(node, true, running).name == name,
{
}

/// The backend is up where it says that it is running, and the exit node is the first peer that is one.
pub proof fn the_state_is_what_the_backend_says(r: Status, raw: Json, state: Seq<char>, k: int)
    requires
        is_reported(r, raw),
        raw.field("BackendState"@) == Some(Json::Text(state)),
    ensures
        r.running <==> state == "Running"@,
        r.state@ == state,
        0 <= k < peers_of(raw).len() && peers_of(raw)[k].field("ExitNode"@) == Some(Json::Bool(true))
            && (forall|j: int|
            0 <= j < k ==> (#[trigger] peers_of(raw)[j]).field("ExitNode"@) != Some(
                Json::Bool(true),
            )) ==> (r.exit_node matches Some(name) && name@ == peers_of(raw)[k].text_or_empty(
            "HostName"@,
        )),
        (forall|j: int|
            0 <= j < peers_of(raw).len() ==> (#[trigger] peers_of(raw)[j]).field("ExitNode"@) != Some(
                Json::Bool(true),
            )) ==> r.exit_node is None,
{
    let nodes = peers_of(raw);
    if 0 <= k < nodes.len() && nodes[k].field("ExitNode"@) == Some(Json::Bool(true)) && (forall|
        j: int,
    |
        0 <= j < k ==> (#[trigger] nodes[j]).field("ExitNode"@) != Some(Json::Bool(true))) {
        the_first_exit_node_counts(nodes, k);
    }
    if forall|j: int|
        0 <= j < nodes.len() ==> (#[trigger] nodes[j]).field("ExitNode"@) != Some(
            Json::Bool(true),
        ) {
        the_first_exit_node_counts(nodes, nodes.len() as int);
    }
}

/// The exit node is the first of the nodes that is one.
proof fn the_first_exit_node_counts(nodes: Seq<Json>, k: int)
    requires
        0 <= k <= nodes.len(),
        k < nodes.len() ==> nodes[k].field("ExitNode"@) == Some(Json::Bool(true)),
        forall|j: int|
            0 <= j < k ==> (#[trigger] nodes[j]).field("ExitNode"@) != Some(Json::Bool(true)),
    ensures
        k < nodes.len() ==> exit_node_of(nodes) == Some(nodes[k].text_or_empty("HostName"@)),
        k == nodes.len() ==> exit_node_of(nodes) is None,
    decreases k,
{
    if k > 0 {
        assert(nodes[0].field("ExitNode"@) != Some(Json::Bool(true)));
        let rest = nodes.drop_first();
        assert forall|j: int| 0 <= j < k - 1 implies (#[trigger] rest[j]).field("ExitNode"@) != Some(
            Json::Bool(true),
        ) by {
            assert(rest[j] == nodes[j + 1]);
        }
        the_first_exit_node_counts(rest, k - 1);
    }
}

/// This device comes first, and then the peers by name, none of them lost.
pub proof fn peers_are_listed_by_name(r: Seq<MachineModel>, raw: Json, node: Json, i: int, j: int)
    requires
        are_machines(r, raw),
        raw.field("Self"@) == Some(node),
        1 <= i < j < r.len(),
    ensures
        r[0].is_self,
        r.len() == 1 + peers_of(raw).len(),
        !comes_before(r[j].name, r[i].name),
        !r[i].is_self && !r[j].is_self,
{
    let all = peer_machines(peers_of(raw), is_running(raw));
    let peers = choose|peers: Seq<MachineModel>| #[trigger]
        is_sorted(peers, all) && r == own_machine(raw) + peers;
    let order = choose|order: Seq<usize>| #[trigger]
        is_arrangement(order, all.len()) && peers == picked(all, order) && by_name(all, order);
    assert(r[i] == peers[i - 1] && r[j] == peers[j - 1]);
    assert(machine_before(all, order[i - 1], order[j - 1]));
    assert(peers[i - 1] == all[order[i - 1] as int] && peers[j - 1] == all[order[j - 1] as int]);
    comes_before_is_total(r[i].name, r[j].name);
}

} // verus!
