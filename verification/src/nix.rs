//! Whether a Nix flake can be updated, and how its hosts are rebuilt.
//!
//! Checking changes nothing: two locks are compared, the present one and the one that an update
//! would write. Updating and rebuilding run commands that the user configured, and only when asked.

use vstd::prelude::*;
use vstd::string::*;

use crate::config::{expand_in, is_expanded_in, Config, NixHost};
use crate::json::{field_models, field_of, Json, Value};
use crate::number::{decimal, write_u64};
use crate::order::{
    comes_before, index_before, is_arrangement, picked, reorder, sorted_order, TextKey,
};
use crate::terminal::{script_of, terminal_line};
use crate::text::{
    blank, contains, copy_texts, has, join, joined, lines, lines_of, list_has, lossy, lossy_of,
    maybe, replace, replaced, same, shell_quoted, texts, trim, trim_of,
};

verus! {

/// A host of the flake, and the command that rebuilds it.
#[derive(Debug)]
pub struct Host {
    pub name: String,
    /// Empty where nothing is configured, so that no rebuild is offered that would do nothing.
    pub rebuild: String,
    /// Whether the host was named in the settings.
    pub configured: bool,
}

impl Host {
    /// A host that is described in the same way.
    pub fn copy(&self) -> (r: Host)
        ensures
            r == *self,
    {
        Host {
            name: self.name.clone(),
            rebuild: self.rebuild.clone(),
            configured: self.configured,
        }
    }
}

/// An input of the flake, as it is pinned now and as it would be pinned after an update.
#[derive(Debug)]
pub struct Input {
    pub name: String,
    /// The kind as the lock records it, such as `github`.
    pub kind: String,
    /// Where the input comes from, as the flake asked for it.
    pub source: String,
    pub current_rev: String,
    pub current_date: i64,
    pub latest_rev: String,
    pub latest_date: i64,
    pub update_available: bool,
}

impl Input {
    /// An input that is described in the same way.
    pub fn copy(&self) -> (r: Input)
        ensures
            r == *self,
    {
        Input {
            name: self.name.clone(),
            kind: self.kind.clone(),
            source: self.source.clone(),
            current_rev: self.current_rev.clone(),
            current_date: self.current_date,
            latest_rev: self.latest_rev.clone(),
            latest_date: self.latest_date,
            update_available: self.update_available,
        }
    }
}

/// What the last check found, and all that is shown with it.
#[derive(Debug)]
pub struct Status {
    /// The configured flake, empty where there is none.
    pub flake: String,
    pub configured: bool,
    /// Whether checking can work here.
    pub available: bool,
    pub reason: Option<String>,
    /// When the lock was last written.
    pub locked_at: i64,
    /// When the last check ran; zero where none did.
    pub checked_at: i64,
    /// Whether a check is running.
    pub checking: bool,
    /// How many inputs have something newer.
    pub updates: usize,
    pub inputs: Vec<Input>,
    /// What the last check failed with, where it failed.
    pub error: Option<String>,
    pub update_command: String,
    pub rebuild_command: String,
    pub hosts: Vec<Host>,
    /// Minutes between automatic checks; zero where there are none.
    pub interval_minutes: u64,
}

/// The settings that concern the flake.
#[derive(Debug)]
pub struct Settings {
    pub flake: String,
    pub interval_minutes: u64,
    pub update_command: String,
    pub rebuild_command: String,
    pub hosts: Vec<NixHost>,
    pub terminal: String,
    pub notify: bool,
}

/// A check that was made.
#[derive(Debug)]
pub struct Checked {
    pub at: i64,
    pub inputs: Vec<Input>,
    pub hosts: Vec<Host>,
    pub error: Option<String>,
}

/// The same hosts as the settings name.
fn copy_configured(hosts: &Vec<NixHost>) -> (r: Vec<NixHost>)
    ensures
        r@ == hosts@,
{
    let mut out: Vec<NixHost> = Vec::new();
    let mut i: usize = 0;
    while i < hosts.len()
        invariant
            i <= hosts@.len(),
            out@ =~= hosts@.take(i as int),
        decreases hosts.len() - i,
    {
        out.push(NixHost { name: hosts[i].name.clone(), rebuild: hosts[i].rebuild.clone() });
        i += 1;
    }
    assert(out@ =~= hosts@);
    out
}

impl Settings {
    /// The settings that concern the flake, with the tilde in its path expanded.
    pub fn from_config(config: &Config, home: Option<&str>) -> (r: Settings)
        ensures
            is_expanded_in(config.nix_flake@, maybe(home), r.flake@),
            r.interval_minutes == config.nix_check_interval_minutes,
            r.update_command == config.nix_update_command,
            r.rebuild_command == config.nix_rebuild_command,
            r.hosts@ == config.nix_hosts@,
            r.terminal == config.terminal_cmd,
            r.notify == config.nix_notify,
    {
        Settings {
            flake: expand_in(config.nix_flake.as_str(), home),
            interval_minutes: config.nix_check_interval_minutes,
            update_command: config.nix_update_command.clone(),
            rebuild_command: config.nix_rebuild_command.clone(),
            hosts: copy_configured(&config.nix_hosts),
            terminal: config.terminal_cmd.clone(),
            notify: config.nix_notify,
        }
    }

    /// Whether a flake is configured.
    pub fn configured(&self) -> (r: bool)
        ensures
            r == (self.flake@.len() > 0),
    {
        !self.flake.as_str().is_empty()
    }
}

/// The settings that concern the flake.
pub fn configure(config: &Config, home: Option<&str>) -> (r: Settings)
    ensures
        is_expanded_in(config.nix_flake@, maybe(home), r.flake@),
        r.interval_minutes == config.nix_check_interval_minutes,
        r.update_command == config.nix_update_command,
        r.rebuild_command == config.nix_rebuild_command,
        r.hosts@ == config.nix_hosts@,
        r.terminal == config.terminal_cmd,
        r.notify == config.nix_notify,
{
    Settings::from_config(config, home)
}

/// Why checking cannot work here, if it cannot.
pub open spec fn unavailable(flake: Seq<char>, nix: bool, is_flake: bool) -> Option<Seq<char>> {
    if flake.len() == 0 {
        Some("no flake configured (set nix_flake)"@)
    } else if !nix {
        Some("nix is not installed"@)
    } else if !is_flake {
        Some(flake + " is not a flake (no flake.nix)"@)
    } else {
        None
    }
}

/// Whether checking can work here: a flake is configured, nix is installed, and the path holds a
/// flake.
pub fn available(settings: &Settings, nix: bool, is_flake: bool) -> (r: Result<(), String>)
    ensures
        match unavailable(settings.flake@, nix, is_flake) {
            Some(reason) => r matches Err(m) && m@ == reason,
            None => r is Ok,
        },
{
    if !settings.configured() {
        return Err("no flake configured (set nix_flake)".to_owned());
    }
    if !nix {
        return Err("nix is not installed".to_owned());
    }
    if !is_flake {
        let mut message = settings.flake.clone();
        message.append(" is not a flake (no flake.nix)");
        return Err(message);
    }
    Ok(())
}

/// An input that a lock pins.
#[derive(Debug)]
pub struct LockedInput {
    pub name: String,
    pub kind: String,
    pub source: String,
    pub rev: String,
    pub date: i64,
}

/// What an input that a lock pins is.
#[verifier::ext_equal]
pub struct LockedModel {
    pub name: Seq<char>,
    pub kind: Seq<char>,
    pub source: Seq<char>,
    pub rev: Seq<char>,
    pub date: int,
}

impl View for LockedInput {
    type V = LockedModel;

    open spec fn view(&self) -> LockedModel {
        LockedModel {
            name: self.name@,
            kind: self.kind@,
            source: self.source@,
            rev: self.rev@,
            date: self.date as int,
        }
    }
}

/// What the root flake of a lock asked for, and how it is pinned.
#[derive(Debug)]
pub struct Lock {
    pub inputs: Vec<LockedInput>,
}

/// A reference with the branch or the revision that it names.
pub open spec fn with_reference(base: Seq<char>, original: Json) -> Seq<char> {
    let branch = original.text_or_empty("ref"@);
    let rev = original.text_or_empty("rev"@);
    if branch.len() > 0 {
        base + "/"@ + branch
    } else if rev.len() > 0 {
        base + "/"@ + rev
    } else {
        base
    }
}

/// A reference to a flake as a person would have typed it.
pub open spec fn described(original: Json) -> Seq<char> {
    let kind = original.text_or_empty("type"@);
    let url = original.text_or_empty("url"@);
    if kind == "github"@ || kind == "gitlab"@ || kind == "sourcehut"@ {
        with_reference(
            kind + ":"@ + original.text_or_empty("owner"@) + "/"@ + original.text_or_empty("repo"@),
            original,
        )
    } else if kind == "git"@ {
        if original.text_or_empty("ref"@).len() == 0 {
            url
        } else {
            url + " ("@ + original.text_or_empty("ref"@) + ")"@
        }
    } else if kind == "path"@ {
        original.text_or_empty("path"@)
    } else if kind == "indirect"@ {
        original.text_or_empty("id"@)
    } else if url.len() == 0 {
        kind
    } else {
        url
    }
}

/// A reference to a flake as a person would have typed it.
pub fn describe(original: &Value) -> (r: String)
    ensures
        r@ == described(original@),
{
    let kind = original.text_or_empty("type");
    let k = kind.as_str();
    if same(k, "github") || same(k, "gitlab") || same(k, "sourcehut") {
        let mut base = kind.clone();
        base.append(":");
        base.append(original.text_or_empty("owner").as_str());
        base.append("/");
        base.append(original.text_or_empty("repo").as_str());
        let branch = original.text_or_empty("ref");
        let rev = original.text_or_empty("rev");
        if !branch.as_str().is_empty() {
            base.append("/");
            base.append(branch.as_str());
        } else if !rev.as_str().is_empty() {
            base.append("/");
            base.append(rev.as_str());
        }
        return base;
    }
    let url = original.text_or_empty("url");
    if same(k, "git") {
        let branch = original.text_or_empty("ref");
        if branch.as_str().is_empty() {
            return url;
        }
        let mut out = url;
        out.append(" (");
        out.append(branch.as_str());
        out.append(")");
        return out;
    }
    if same(k, "path") {
        return original.text_or_empty("path");
    }
    if same(k, "indirect") {
        return original.text_or_empty("id");
    }
    if url.as_str().is_empty() {
        kind
    } else {
        url
    }
}

/// The input that a name and the node that it leads to describe. One that follows another has no
/// revision of its own and is left out.
pub open spec fn locked_input(name: Seq<char>, target: Json, nodes: Seq<(Seq<char>, Json)>) -> Option<
    LockedModel,
> {
    match target.text() {
        None => None,
        Some(id) => match field_of(nodes, id) {
            None => None,
            Some(node) => match node.field("locked"@) {
                None => None,
                Some(locked) => Some(
                    LockedModel {
                        name,
                        kind: locked.text_or_empty("type"@),
                        source: described(
                            match node.field("original"@) {
                                Some(original) => original,
                                None => locked,
                            },
                        ),
                        rev: locked.text_or_empty("rev"@),
                        date: locked.i64_or("lastModified"@, 0),
                    },
                ),
            },
        },
    }
}

/// The inputs that the root asks for.
pub open spec fn locked_inputs(
    root: Seq<(Seq<char>, Json)>,
    nodes: Seq<(Seq<char>, Json)>,
) -> Seq<LockedModel>
    decreases root.len(),
{
    if root.len() == 0 {
        Seq::empty()
    } else {
        let before = locked_inputs(root.drop_last(), nodes);
        match locked_input(root.last().0, root.last().1, nodes) {
            Some(input) => before.push(input),
            None => before,
        }
    }
}

/// The name of the root node of a lock.
pub open spec fn root_name(value: Json) -> Seq<char> {
    match value.text_at("root"@) {
        Some(name) => name,
        None => "root"@,
    }
}

/// The inputs that a lock pins for its root.
pub open spec fn inputs_in(value: Json) -> Seq<LockedModel> {
    match value.inner("nodes"@) {
        Json::Object(nodes) => match field_of(nodes, root_name(value)) {
            Some(root) => match root.inner("inputs"@) {
                Json::Object(inputs) => locked_inputs(inputs, nodes),
                _ => Seq::empty(),
            },
            None => Seq::empty(),
        },
        _ => Seq::empty(),
    }
}

/// What inputs that a lock pins are.
pub open spec fn locked_models(inputs: Seq<LockedInput>) -> Seq<LockedModel> {
    inputs.map_values(|i: LockedInput| i@)
}

/// Whether `after` is `before` by name, inputs of the same name staying in order.
pub open spec fn is_by_name(before: Seq<LockedModel>, after: Seq<LockedModel>) -> bool {
    exists|order: Seq<usize>| #[trigger]
        is_arrangement(order, before.len()) && after == picked(before, order) && forall|
            a: int,
            b: int,
        |
            0 <= a < b < order.len() ==> #[trigger] input_before(before, order[a], order[b])
}

/// Whether the input at `i` comes before that at `j`.
pub open spec fn input_before(inputs: Seq<LockedModel>, i: usize, j: usize) -> bool {
    let x = inputs[i as int].name;
    let y = inputs[j as int].name;
    comes_before(x, y) || (!comes_before(y, x) && i < j)
}

/// The input that a name and the node that it leads to describe.
fn read_input(name: &str, target: &Value, nodes: &Value) -> (r: Option<LockedInput>)
    requires
        nodes@ is Object,
    ensures
        match r {
            Some(input) => locked_input(name@, target@, nodes@->Object_0) == Some(input@),
            None => locked_input(name@, target@, nodes@->Object_0) is None,
        },
{
    let id = match target.as_str() {
        Some(id) => id,
        None => return None,
    };
    let node = match nodes.get(id) {
        Some(node) => node,
        None => return None,
    };
    let locked = match node.get("locked") {
        Some(locked) => locked,
        None => return None,
    };
    let source = match node.get("original") {
        Some(original) => describe(original),
        None => describe(locked),
    };
    Some(
        LockedInput {
            name: name.to_owned(),
            kind: locked.text_or_empty("type"),
            source,
            rev: locked.text_or_empty("rev"),
            date: locked.i64_or("lastModified", 0),
        },
    )
}

/// A lock without inputs.
fn no_inputs() -> (r: Lock)
    ensures
        is_by_name(Seq::empty(), locked_models(r.inputs@)),
{
    let r = Lock { inputs: Vec::new() };
    proof {
        let order: Seq<usize> = Seq::empty();
        let none: Seq<LockedModel> = Seq::empty();
        assert(is_arrangement(order, none.len()));
        assert(locked_models(r.inputs@) =~= picked(none, order));
    }
    r
}

/// What the root of a lock asks for, by name. Only the root's own inputs count: they are what a user
/// updates.
pub fn parse_lock(value: &Value) -> (r: Lock)
    ensures
        is_by_name(inputs_in(value@), locked_models(r.inputs@)),
{
    let nodes = match value.get("nodes") {
        Some(nodes) => nodes,
        None => return no_inputs(),
    };
    if nodes.as_object().is_none() {
        return no_inputs();
    }
    let name = match value.text_at("root") {
        Some(name) => name,
        None => "root".to_owned(),
    };
    let root = match nodes.get_in(name.as_str(), "inputs") {
        Some(root) => root,
        None => return no_inputs(),
    };
    let fields = match root.as_object() {
        Some(fields) => fields,
        None => return no_inputs(),
    };
    let ghost all = field_models(fields@);
    let ghost ns = nodes@->Object_0;
    let mut inputs: Vec<LockedInput> = Vec::new();
    let mut keys: Vec<TextKey> = Vec::new();
    let mut i: usize = 0;
    assert(all.take(0) =~= Seq::empty());
    assert(locked_models(inputs@) =~= Seq::empty());
    while i < fields.len()
        invariant
            all == field_models(fields@),
            nodes@ == Json::Object(ns),
            i <= fields@.len(),
            locked_models(inputs@) == locked_inputs(all.take(i as int), ns),
            keys@.len() == inputs@.len(),
            forall|k: int| 0 <= k < keys@.len() ==> (#[trigger] keys@[k]).0@ == inputs@[k].name@,
        decreases fields.len() - i,
    {
        assert(all.take(i + 1).drop_last() =~= all.take(i as int));
        assert(all.take(i + 1).last() == (fields@[i as int].0@, fields@[i as int].1@));
        if let Some(input) = read_input(fields[i].0.as_str(), &fields[i].1, nodes) {
            let ghost before = locked_models(inputs@);
            keys.push(TextKey(input.name.clone()));
            inputs.push(input);
            assert(locked_models(inputs@) =~= before.push(input@));
        }
        i += 1;
    }
    assert(all.take(i as int) =~= all);
    let ghost list = locked_models(inputs@);
    assert(list == inputs_in(value@));
    let order = sorted_order(&keys);
    let sorted = reorder(inputs, &order);
    proof {
        assert(locked_models(sorted@) =~= picked(list, order@));
        assert forall|a: int, b: int| 0 <= a < b < order@.len() implies #[trigger] input_before(
            list,
            order@[a],
            order@[b],
        ) by {
            assert(index_before(keys@, order@[a], order@[b]));
        }
        assert(is_arrangement(order@, list.len()));
    }
    Lock { inputs: sorted }
}

/// The index of the input of that name, or the number of inputs.
pub open spec fn input_index(inputs: Seq<LockedInput>, name: Seq<char>) -> int
    decreases inputs.len(),
{
    if inputs.len() == 0 || inputs[0].name@ == name {
        0
    } else {
        1 + input_index(inputs.drop_first(), name)
    }
}

/// Whether an input has something newer. Revisions decide; where there is none the dates do. An
/// input that the candidate does not have has nothing newer to move to.
pub open spec fn has_update(current: LockedInput, latest: Option<LockedInput>) -> bool {
    match latest {
        None => false,
        Some(other) => if current.rev@.len() > 0 && other.rev@.len() > 0 {
            current.rev@ != other.rev@
        } else {
            other.date > current.date
        },
    }
}

/// Whether `input` is the current input beside its candidate.
pub open spec fn is_compared(input: Input, current: LockedInput, latest: Option<LockedInput>) -> bool {
    &&& input.name@ == current.name@
    &&& input.kind@ == current.kind@
    &&& input.source@ == current.source@
    &&& input.current_rev@ == current.rev@
    &&& input.current_date == current.date
    &&& input.latest_rev@ == (match latest {
        Some(other) => other.rev@,
        None => Seq::empty(),
    })
    &&& input.latest_date == (match latest {
        Some(other) => other.date,
        None => 0,
    })
    &&& input.update_available == has_update(current, latest)
}

/// The candidate of an input.
pub open spec fn candidate_of(candidate: Lock, name: Seq<char>) -> Option<LockedInput> {
    let i = input_index(candidate.inputs@, name);
    if 0 <= i < candidate.inputs@.len() {
        Some(candidate.inputs@[i])
    } else {
        None
    }
}

/// The index of an input.
fn locate_input(inputs: &Vec<LockedInput>, name: &str) -> (r: usize)
    ensures
        r == input_index(inputs@, name@),
        r <= inputs@.len(),
{
    let mut i: usize = 0;
    assert(inputs@.skip(0) =~= inputs@);
    while i < inputs.len()
        invariant
            i <= inputs@.len(),
            input_index(inputs@, name@) == i + input_index(inputs@.skip(i as int), name@),
        decreases inputs.len() - i,
    {
        assert(inputs@.skip(i as int).drop_first() =~= inputs@.skip(i + 1));
        if same(inputs[i].name.as_str(), name) {
            return i;
        }
        i += 1;
    }
    i
}

/// Whether these are the current inputs, each beside its candidate.
pub open spec fn are_compared(r: Seq<Input>, current: Lock, candidate: Lock) -> bool {
    r.len() == current.inputs@.len() && forall|i: int|
        0 <= i < r.len() ==> is_compared(
            #[trigger] r[i],
            current.inputs@[i],
            candidate_of(candidate, current.inputs@[i].name@),
        )
}

/// Each current input beside its candidate.
pub fn compare(current: &Lock, candidate: &Lock) -> (r: Vec<Input>)
    ensures
        are_compared(r@, *current, *candidate),
{
    let mut out: Vec<Input> = Vec::new();
    let mut i: usize = 0;
    while i < current.inputs.len()
        invariant
            i <= current.inputs@.len(),
            out@.len() == i,
            forall|k: int|
                0 <= k < i ==> is_compared(
                    #[trigger] out@[k],
                    current.inputs@[k],
                    candidate_of(*candidate, current.inputs@[k].name@),
                ),
        decreases current.inputs.len() - i,
    {
        let input = &current.inputs[i];
        let k: usize = locate_input(&candidate.inputs, input.name.as_str());
        let (latest_rev, latest_date, update_available) = if k < candidate.inputs.len() {
            let other = &candidate.inputs[k];
            let newer = if !input.rev.as_str().is_empty() && !other.rev.as_str().is_empty() {
                !same(input.rev.as_str(), other.rev.as_str())
            } else {
                other.date > input.date
            };
            (other.rev.clone(), other.date, newer)
        } else {
            (String::new(), 0, false)
        };
        let compared = Input {
            name: input.name.clone(),
            kind: input.kind.clone(),
            source: input.source.clone(),
            current_rev: input.rev.clone(),
            current_date: input.date,
            latest_rev,
            latest_date,
            update_available,
        };
        assert(compared.latest_rev@.len() == 0 ==> compared.latest_rev@ =~= Seq::empty());
        out.push(compared);
        i += 1;
    }
    out
}

/// The names of the inputs that can be updated.
pub open spec fn updatable(inputs: Seq<Input>) -> Seq<Seq<char>>
    decreases inputs.len(),
{
    if inputs.len() == 0 {
        Seq::empty()
    } else if inputs.last().update_available {
        updatable(inputs.drop_last()).push(inputs.last().name@)
    } else {
        updatable(inputs.drop_last())
    }
}

/// The names of the inputs that can be updated.
fn read_updatable(inputs: &Vec<Input>) -> (r: Vec<String>)
    ensures
        texts(r@) == updatable(inputs@),
{
    let mut out: Vec<String> = Vec::new();
    let mut i: usize = 0;
    assert(inputs@.take(0) =~= Seq::empty());
    assert(texts(out@) =~= Seq::empty());
    while i < inputs.len()
        invariant
            i <= inputs@.len(),
            texts(out@) == updatable(inputs@.take(i as int)),
        decreases inputs.len() - i,
    {
        assert(inputs@.take(i + 1).drop_last() =~= inputs@.take(i as int));
        if inputs[i].update_available {
            let ghost before = texts(out@);
            out.push(inputs[i].name.clone());
            assert(texts(out@) =~= before.push(inputs@[i as int].name@));
        }
        i += 1;
    }
    assert(inputs@.take(i as int) =~= inputs@);
    out
}

/// The names that were not there before.
pub open spec fn fresh(now: Seq<Seq<char>>, was: Seq<Seq<char>>) -> Seq<Seq<char>> {
    now.filter(|n: Seq<char>| !was.contains(n))
}

/// What is said of updates: how many there are, and which are new. Of many only the first four are
/// named.
pub open spec fn update_summary(count: nat) -> Seq<char> {
    if count == 1 {
        "1 flake input can be updated"@
    } else {
        decimal(count) + " flake inputs can be updated"@
    }
}

/// Which updates are new, of many only the first four by name.
pub open spec fn update_body(names: Seq<Seq<char>>) -> Seq<char> {
    if names.len() > 4 {
        joined(names.take(4), ", "@) + ", and "@ + decimal((names.len() - 4) as nat) + " more"@
    } else {
        joined(names, ", "@)
    }
}

/// The inputs of the check before, if there was one.
pub open spec fn inputs_before(previous: Option<&Vec<Input>>) -> Seq<Seq<char>> {
    match previous {
        Some(inputs) => updatable(inputs@),
        None => Seq::empty(),
    }
}

/// Whether this is the notification of what a check found.
pub open spec fn is_announced(
    r: Option<(String, String)>,
    notify: bool,
    was: Seq<Seq<char>>,
    now: Seq<Seq<char>>,
) -> bool {
    let new = fresh(now, was);
    match r {
        Some((summary, body)) => notify && new.len() > 0 && summary@ == update_summary(now.len())
            && body@ == update_body(new),
        None => !notify || new.len() == 0,
    }
}

/// The notification of what a check found: a summary and a body. It is given only where an input
/// has something newer that it did not have at the check before.
pub fn announce(notify: bool, previous: Option<&Vec<Input>>, inputs: &Vec<Input>) -> (r: Option<
    (String, String),
>)
    ensures
        is_announced(r, notify, inputs_before(previous), updatable(inputs@)),
{
    if !notify {
        return None;
    }
    let was = match previous {
        Some(inputs) => read_updatable(inputs),
        None => {
            let none: Vec<String> = Vec::new();
            assert(texts(none@) =~= Seq::empty());
            none
        },
    };
    let now = read_updatable(inputs);
    let ghost before = texts(was@);
    let ghost all = texts(now@);
    let ghost keep = |n: Seq<char>| !before.contains(n);
    let mut new: Vec<String> = Vec::new();
    let mut i: usize = 0;
    reveal(Seq::filter);
    assert(all.take(0).filter(keep) =~= Seq::empty());
    assert(texts(new@) =~= Seq::empty());
    while i < now.len()
        invariant
            before == texts(was@),
            all == texts(now@),
            keep == (|n: Seq<char>| !before.contains(n)),
            i <= now@.len(),
            texts(new@) == all.take(i as int).filter(keep),
        decreases now.len() - i,
    {
        reveal(Seq::filter);
        assert(all.take(i + 1).drop_last() =~= all.take(i as int));
        assert(all.take(i + 1).last() == now@[i as int]@);
        proof {
            crate::text::is_in_texts(was@, now@[i as int]@);
        }
        if !list_has(&was, now[i].as_str()) {
            let ghost listed = texts(new@);
            new.push(now[i].clone());
            assert(texts(new@) =~= listed.push(now@[i as int]@));
        }
        i += 1;
    }
    assert(all.take(i as int) =~= all);
    let ghost names = texts(new@);
    assert(names.len() == new@.len() && all.len() == now@.len());
    if new.len() == 0 {
        return None;
    }
    let summary = if now.len() == 1 {
        "1 flake input can be updated".to_owned()
    } else {
        let mut out = write_u64(now.len() as u64);
        out.append(" flake inputs can be updated");
        out
    };
    let body = if new.len() > 4 {
        let rest: usize = new.len() - 4;
        let mut first: Vec<String> = copy_texts(&new);
        first.truncate(4);
        assert(texts(first@) =~= names.take(4));
        let mut out = join(&first, ", ");
        out.append(", and ");
        out.append(write_u64(rest as u64).as_str());
        out.append(" more");
        out
    } else {
        join(&new, ", ")
    };
    Some((summary, body))
}

/// The common command with the host filled in, or nothing where none is configured.
pub open spec fn fallback_of(template: Seq<char>, host: Seq<char>) -> Seq<char> {
    if trim_of(template).len() == 0 {
        Seq::empty()
    } else {
        replaced(template, "%HOST%"@, host)
    }
}

/// The common command with the host filled in.
pub fn fallback_command(template: &str, host: &str) -> (r: String)
    ensures
        r@ == fallback_of(template@, host@),
{
    if blank(template) {
        return String::new();
    }
    proof {
        reveal_strlit("%HOST%");
    }
    replace(template, "%HOST%", host)
}

/// Whether `host` is the configured one, which keeps its own command where it has one.
pub open spec fn is_configured_host(host: Host, from: NixHost, template: Seq<char>) -> bool {
    &&& host.name@ == from.name@
    &&& host.rebuild@ == (if trim_of(from.rebuild@).len() == 0 {
        fallback_of(template, from.name@)
    } else {
        from.rebuild@
    })
    &&& host.configured
}

/// The configured hosts that have a name.
pub open spec fn named_hosts(hosts: Seq<NixHost>) -> Seq<NixHost> {
    hosts.filter(|h: NixHost| trim_of(h.name@).len() > 0)
}

/// Whether the hosts are the configured ones.
pub open spec fn are_configured(hosts: Seq<Host>, from: Seq<NixHost>, template: Seq<char>) -> bool {
    hosts.len() == from.len() && forall|i: int|
        0 <= i < hosts.len() ==> is_configured_host(#[trigger] hosts[i], from[i], template)
}

/// The configured hosts.
pub fn configured_hosts(settings: &Settings) -> (r: Vec<Host>)
    ensures
        are_configured(r@, named_hosts(settings.hosts@), settings.rebuild_command@),
{
    let ghost all = settings.hosts@;
    let ghost keep = |h: NixHost| trim_of(h.name@).len() > 0;
    let ghost template = settings.rebuild_command@;
    let mut out: Vec<Host> = Vec::new();
    let mut i: usize = 0;
    reveal(Seq::filter);
    assert(all.take(0).filter(keep) =~= Seq::empty());
    while i < settings.hosts.len()
        invariant
            all == settings.hosts@,
            keep == (|h: NixHost| trim_of(h.name@).len() > 0),
            template == settings.rebuild_command@,
            i <= settings.hosts@.len(),
            are_configured(out@, all.take(i as int).filter(keep), template),
        decreases settings.hosts.len() - i,
    {
        reveal(Seq::filter);
        assert(all.take(i + 1).drop_last() =~= all.take(i as int));
        let host = &settings.hosts[i];
        if !blank(host.name.as_str()) {
            let rebuild = if blank(host.rebuild.as_str()) {
                fallback_command(settings.rebuild_command.as_str(), host.name.as_str())
            } else {
                host.rebuild.clone()
            };
            out.push(Host { name: host.name.clone(), rebuild, configured: true });
        }
        i += 1;
    }
    assert(all.take(i as int) =~= all);
    out
}

/// Whether a host of that name is in a list.
pub open spec fn has_host(hosts: Seq<Host>, name: Seq<char>) -> bool {
    exists|i: int| 0 <= i < hosts.len() && (#[trigger] hosts[i]).name@ == name
}

/// Whether `after` is `before` with the hosts of some names added that were not there yet, each with
/// the common command.
pub open spec fn are_added(
    before: Seq<Host>,
    after: Seq<Host>,
    names: Seq<Seq<char>>,
    template: Seq<char>,
) -> bool
    decreases names.len(),
{
    if names.len() == 0 {
        after == before
    } else {
        exists|middle: Seq<Host>|
            are_added(before, middle, names.drop_last(), template) && #[trigger] one_added(
                middle,
                after,
                names.last(),
                template,
            )
    }
}

/// Whether `after` is `before` with the host of a name added, unless it was there.
pub open spec fn one_added(
    before: Seq<Host>,
    after: Seq<Host>,
    name: Seq<char>,
    template: Seq<char>,
) -> bool {
    if has_host(before, name) {
        after == before
    } else {
        &&& after.len() == before.len() + 1
        &&& after.drop_last() == before
        &&& after.last().name@ == name
        &&& after.last().rebuild@ == fallback_of(template, name)
        &&& !after.last().configured
    }
}

/// The hosts that the flake defines, and how each is rebuilt: the configured ones first, and then
/// those that were discovered. Where checking cannot work, the configured ones are still worth
/// answering with.
pub fn hosts(
    settings: &Settings,
    availability: Result<(), String>,
    discovered: Result<Vec<String>, String>,
) -> (r: Result<Vec<Host>, String>)
    ensures
        ({
            let from = named_hosts(settings.hosts@);
            let template = settings.rebuild_command@;
            match availability {
                Err(reason) => if from.len() == 0 {
                    r matches Err(m) && m == reason
                } else {
                    r matches Ok(hosts) && are_configured(hosts@, from, template)
                },
                Ok(_) => match discovered {
                    Err(message) => r matches Err(m) && m == message,
                    Ok(names) => r matches Ok(hosts) && exists|first: Seq<Host>| #[trigger]
                        are_configured(first, from, template) && are_added(
                            first,
                            hosts@,
                            texts(names@),
                            template,
                        ),
                },
            }
        }),
{
    let mut list = configured_hosts(settings);
    let ghost first = list@;
    let ghost template = settings.rebuild_command@;
    if let Err(reason) = availability {
        if list.len() == 0 {
            return Err(reason);
        }
        return Ok(list);
    }
    let names = match discovered {
        Ok(names) => names,
        Err(message) => return Err(message),
    };
    let ghost all = texts(names@);
    let mut i: usize = 0;
    assert(all.take(0) =~= Seq::empty());
    while i < names.len()
        invariant
            all == texts(names@),
            template == settings.rebuild_command@,
            i <= names@.len(),
            are_added(first, list@, all.take(i as int), template),
        decreases names.len() - i,
    {
        assert(all.take(i + 1).drop_last() =~= all.take(i as int));
        assert(all.take(i + 1).last() == names@[i as int]@);
        let name = names[i].as_str();
        let ghost middle = list@;
        let mut known = false;
        let mut k: usize = 0;
        while k < list.len() && !known
            invariant
                k <= list@.len(),
                known ==> has_host(list@, name@),
                !known ==> forall|j: int| 0 <= j < k ==> (#[trigger] list@[j]).name@ != name@,
            decreases list.len() - k,
        {
            if same(list[k].name.as_str(), name) {
                known = true;
            }
            k += 1;
        }
        if !known {
            list.push(
                Host {
                    rebuild: fallback_command(settings.rebuild_command.as_str(), name),
                    name: name.to_owned(),
                    configured: false,
                },
            );
            assert(list@.drop_last() =~= middle);
        }
        assert(one_added(middle, list@, all.take(i + 1).last(), template));
        i += 1;
    }
    assert(all.take(i as int) =~= all);
    Ok(list)
}

/// The last line that is not blank, without white space around it.
pub open spec fn last_line_of(lines: Seq<Seq<char>>) -> Seq<char>
    decreases lines.len(),
{
    if lines.len() == 0 {
        "nix said nothing"@
    } else if trim_of(lines.last()).len() > 0 {
        trim_of(lines.last())
    } else {
        last_line_of(lines.drop_last())
    }
}

/// The last line that is not blank.
pub fn last_line(text: &str) -> (r: String)
    ensures
        r@ == last_line_of(lines_of(text@)),
{
    let all = lines(text);
    let ghost ls = texts(all@);
    let mut i: usize = all.len();
    assert(ls.take(i as int) =~= ls);
    while i > 0
        invariant
            ls == texts(all@),
            ls == lines_of(text@),
            i <= all@.len(),
            last_line_of(ls) == last_line_of(ls.take(i as int)),
        decreases i,
    {
        assert(ls.take(i as int).last() == all@[i - 1]@);
        assert(ls.take(i as int).drop_last() =~= ls.take(i - 1));
        let line = trim(all[i - 1].as_str());
        if !line.as_str().is_empty() {
            return line;
        }
        i -= 1;
    }
    "nix said nothing".to_owned()
}

/// What is said where nix could not resolve the inputs.
pub fn resolve_failure(stderr: &[u8]) -> (r: String)
    ensures
        r@ == "nix could not resolve the flake's inputs: "@ + last_line_of(
            lines_of(trim_of(lossy_of(stderr@))),
        ),
{
    let detail = trim(lossy(stderr).as_str());
    let mut out = "nix could not resolve the flake's inputs: ".to_owned();
    out.append(last_line(detail.as_str()).as_str());
    out
}

/// The hosts that were discovered, where nix did not list them: none where the flake defines none,
/// which is no fault, and otherwise what nix said.
pub fn discover_failure(stderr: &[u8]) -> (r: Result<Vec<String>, String>)
    ensures
        ({
            let detail = trim_of(lossy_of(stderr@));
            if has(detail, "does not provide attribute"@) {
                r matches Ok(names) && names@.len() == 0
            } else {
                r matches Err(m) && m@ == "nix could not list the flake's hosts: "@ + last_line_of(
                    lines_of(detail),
                )
            }
        }),
{
    let detail = trim(lossy(stderr).as_str());
    if contains(detail.as_str(), "does not provide attribute") {
        return Ok(Vec::new());
    }
    let mut out = "nix could not list the flake's hosts: ".to_owned();
    out.append(last_line(detail.as_str()).as_str());
    Err(out)
}

/// The index of the host of that name, or the number of hosts.
pub open spec fn host_index(hosts: Seq<Host>, name: Seq<char>) -> int
    decreases hosts.len(),
{
    if hosts.len() == 0 || hosts[0].name@ == name {
        0
    } else {
        1 + host_index(hosts.drop_first(), name)
    }
}

/// The names of hosts.
pub open spec fn host_names(hosts: Seq<Host>) -> Seq<Seq<char>> {
    hosts.map_values(|h: Host| h.name@)
}

/// Which host is to be rebuilt, as its name and its command, or why none can be. One host is
/// unambiguous. Several are not, and none is picked for the user.
pub open spec fn chosen_host(wanted: Seq<char>, known: Seq<Host>, template: Seq<char>) -> Result<
    (Seq<char>, Seq<char>),
    Seq<char>,
> {
    let i = host_index(known, wanted);
    if wanted.len() == 0 {
        if known.len() == 0 {
            Ok((Seq::empty(), template))
        } else if known.len() == 1 {
            Ok((known[0].name@, known[0].rebuild@))
        } else {
            Err("which host? this flake knows "@ + joined(host_names(known), ", "@))
        }
    } else if i < known.len() {
        Ok((known[i].name@, known[i].rebuild@))
    } else {
        Err(
            "no host \""@ + wanted + "\" ("@ + (if known.len() == 0 {
                "this flake defines none"@
            } else {
                joined(host_names(known), ", "@)
            }) + ")"@,
        )
    }
}

/// The command that rebuilds a host, or why there is none.
pub open spec fn rebuild_command_of(
    wanted: Seq<char>,
    known: Seq<Host>,
    template: Seq<char>,
) -> Result<Seq<char>, Seq<char>> {
    match chosen_host(wanted, known, template) {
        Err(message) => Err(message),
        Ok((name, command)) => if trim_of(command).len() == 0 {
            Err(
                "no rebuild command for "@ + (if name.len() == 0 {
                    "this flake"@
                } else {
                    name
                }) + " (set nix_rebuild_command, or a rebuild for it in nix_hosts)"@,
            )
        } else {
            Ok(command)
        },
    }
}

/// The names of hosts.
fn read_names(hosts: &Vec<Host>) -> (r: Vec<String>)
    ensures
        texts(r@) == host_names(hosts@),
{
    let mut out: Vec<String> = Vec::new();
    let mut i: usize = 0;
    while i < hosts.len()
        invariant
            i <= hosts@.len(),
            texts(out@) =~= host_names(hosts@).take(i as int),
        decreases hosts.len() - i,
    {
        let ghost before = texts(out@);
        out.push(hosts[i].name.clone());
        assert(texts(out@) =~= before.push(hosts@[i as int].name@));
        i += 1;
    }
    assert(texts(out@) =~= host_names(hosts@));
    out
}

/// Which host is to be rebuilt.
fn choose_host(wanted: &str, known: &Vec<Host>, template: &str) -> (r: Result<
    (String, String),
    String,
>)
    ensures
        match r {
            Ok((name, command)) => chosen_host(wanted@, known@, template@) == Ok::<
                (Seq<char>, Seq<char>),
                Seq<char>,
            >((name@, command@)),
            Err(message) => chosen_host(wanted@, known@, template@) == Err::<
                (Seq<char>, Seq<char>),
                Seq<char>,
            >(message@),
        },
{
    if wanted.is_empty() {
        if known.len() == 0 {
            let none = String::new();
            assert(none@ =~= Seq::empty());
            return Ok((none, template.to_owned()));
        }
        if known.len() == 1 {
            return Ok((known[0].name.clone(), known[0].rebuild.clone()));
        }
        let mut message = "which host? this flake knows ".to_owned();
        message.append(join(&read_names(known), ", ").as_str());
        return Err(message);
    }
    let mut i: usize = 0;
    assert(known@.skip(0) =~= known@);
    while i < known.len()
        invariant
            wanted@.len() > 0,
            i <= known@.len(),
            host_index(known@, wanted@) == i + host_index(known@.skip(i as int), wanted@),
        decreases known.len() - i,
    {
        assert(known@.skip(i as int).drop_first() =~= known@.skip(i + 1));
        if same(known[i].name.as_str(), wanted) {
            return Ok((known[i].name.clone(), known[i].rebuild.clone()));
        }
        i += 1;
    }
    let mut message = "no host \"".to_owned();
    message.append(wanted);
    message.append("\" (");
    if known.len() == 0 {
        message.append("this flake defines none");
    } else {
        message.append(join(&read_names(known), ", ").as_str());
    }
    message.append(")");
    Err(message)
}

/// Whether this is the command that rebuilds a host, or why there is none.
pub open spec fn is_rebuild(
    r: Result<String, String>,
    wanted: Seq<char>,
    known: Seq<Host>,
    template: Seq<char>,
) -> bool {
    match rebuild_command_of(wanted, known, template) {
        Ok(command) => r matches Ok(c) && c@ == command,
        Err(message) => r matches Err(m) && m@ == message,
    }
}

/// The command that rebuilds the wanted host, or why there is none. Nothing is guessed: guessing
/// wrong would rebuild the wrong machine.
pub fn rebuild(settings: &Settings, host: Option<&str>, known: &Vec<Host>) -> (r: Result<String, String>)
    ensures
        is_rebuild(
            r,
            match host {
                Some(host) => trim_of(host@),
                None => Seq::empty(),
            },
            known@,
            settings.rebuild_command@,
        ),
{
    let wanted = match host {
        Some(host) => trim(host),
        None => {
            let none = String::new();
            assert(none@ =~= Seq::empty());
            none
        },
    };
    let (name, command) = match choose_host(
        wanted.as_str(),
        known,
        settings.rebuild_command.as_str(),
    ) {
        Ok(chosen) => chosen,
        Err(message) => return Err(message),
    };
    if blank(command.as_str()) {
        let mut message = "no rebuild command for ".to_owned();
        if name.as_str().is_empty() {
            message.append("this flake");
        } else {
            message.append(name.as_str());
        }
        message.append(" (set nix_rebuild_command, or a rebuild for it in nix_hosts)");
        return Err(message);
    }
    Ok(command)
}

/// What running a command in a terminal, from the directory of the flake, comes to.
pub open spec fn run_result(
    r: Result<String, String>,
    settings: Settings,
    command: Seq<char>,
    key: Seq<char>,
    found: Option<Seq<char>>,
    shell: Seq<char>,
) -> bool {
    if trim_of(command).len() == 0 {
        r matches Err(m) && m@ == "no "@ + key + " is configured"@
    } else if settings.flake@.len() == 0 {
        r matches Err(m) && m@ == "no flake configured (set nix_flake)"@
    } else if trim_of(settings.terminal@).len() > 0 {
        r matches Ok(line) && line@ == terminal_line(
            settings.terminal@,
            shell,
            script_of(command, Some(settings.flake@)),
        )
    } else {
        match found {
            Some(terminal) => r matches Ok(line) && line@ == terminal_line(
                terminal,
                shell,
                script_of(command, Some(settings.flake@)),
            ),
            None => r matches Err(m) && m@
                == "no terminal found; set terminal_cmd to the terminal to run this in"@,
        }
    }
}

/// The line that runs a command in a terminal from the directory of the flake, or why it cannot be
/// run. The key names the setting that holds the command.
pub fn run_in_terminal(
    settings: &Settings,
    command: &str,
    key: &str,
    found: Option<&str>,
    shell: &str,
) -> (r: Result<String, String>)
    ensures
        run_result(r, *settings, command@, key@, maybe(found), shell@),
{
    if blank(command) {
        let mut message = "no ".to_owned();
        message.append(key);
        message.append(" is configured");
        return Err(message);
    }
    if !settings.configured() {
        return Err("no flake configured (set nix_flake)".to_owned());
    }
    if blank(settings.terminal.as_str()) && found.is_none() {
        return Err(
            "no terminal found; set terminal_cmd to the terminal to run this in".to_owned(),
        );
    }
    crate::terminal::run(
        command,
        Some(settings.flake.as_str()),
        settings.terminal.as_str(),
        found,
        shell,
    )
}

/// The line that updates the flake in a terminal, or why it cannot be updated.
pub fn update(settings: &Settings, found: Option<&str>, shell: &str) -> (r: Result<String, String>)
    ensures
        run_result(
            r,
            *settings,
            settings.update_command@,
            "nix_update_command"@,
            maybe(found),
            shell@,
        ),
{
    run_in_terminal(
        settings,
        settings.update_command.as_str(),
        "nix_update_command",
        found,
        shell,
    )
}

/// Whether a check may start. Two at once would do the same work twice and race over the result.
pub fn check(availability: Result<(), String>, checking: bool) -> (r: Result<(), String>)
    ensures
        match availability {
            Err(reason) => r matches Err(m) && m == reason,
            Ok(_) => if checking {
                r matches Err(m) && m@ == "a check is already running"@
            } else {
                r is Ok
            },
        },
{
    if let Err(reason) = availability {
        return Err(reason);
    }
    if checking {
        return Err("a check is already running".to_owned());
    }
    Ok(())
}

/// What is kept of a check: what it found, or what it failed with. That the hosts could not be
/// listed is no failure of the check.
pub fn checked(
    at: i64,
    outcome: Result<Vec<Input>, String>,
    hosts: Result<Vec<Host>, String>,
) -> (r: Checked)
    ensures
        r.at == at,
        match outcome {
            Ok(inputs) => r.inputs == inputs && r.error is None,
            Err(message) => r.inputs@.len() == 0 && r.error == Some(message),
        },
        match hosts {
            Ok(list) => r.hosts == list,
            Err(_) => r.hosts@.len() == 0,
        },
{
    let hosts = match hosts {
        Ok(list) => list,
        Err(_) => Vec::new(),
    };
    match outcome {
        Ok(inputs) => Checked { at, inputs, hosts, error: None },
        Err(message) => Checked { at, inputs: Vec::new(), hosts, error: Some(message) },
    }
}

/// The same inputs in the same order.
fn copy_inputs(inputs: &Vec<Input>) -> (r: Vec<Input>)
    ensures
        r@ == inputs@,
{
    let mut out: Vec<Input> = Vec::new();
    let mut i: usize = 0;
    while i < inputs.len()
        invariant
            i <= inputs@.len(),
            out@ =~= inputs@.take(i as int),
        decreases inputs.len() - i,
    {
        out.push(inputs[i].copy());
        i += 1;
    }
    assert(out@ =~= inputs@);
    out
}

/// The same hosts in the same order.
fn copy_hosts(hosts: &Vec<Host>) -> (r: Vec<Host>)
    ensures
        r@ == hosts@,
{
    let mut out: Vec<Host> = Vec::new();
    let mut i: usize = 0;
    while i < hosts.len()
        invariant
            i <= hosts@.len(),
            out@ =~= hosts@.take(i as int),
        decreases hosts.len() - i,
    {
        out.push(hosts[i].copy());
        i += 1;
    }
    assert(out@ =~= hosts@);
    out
}

/// What is known, from memory alone.
pub fn status(
    settings: &Settings,
    last: Option<&Checked>,
    checking: bool,
    availability: Result<(), String>,
    locked_at: i64,
) -> (r: Status)
    ensures
        r.flake == settings.flake,
        r.configured == (settings.flake@.len() > 0),
        r.available == availability is Ok,
        r.reason == (match availability {
            Ok(_) => None,
            Err(reason) => Some(reason),
        }),
        r.locked_at == locked_at,
        r.checking == checking,
        r.update_command == settings.update_command,
        r.rebuild_command == settings.rebuild_command,
        r.interval_minutes == settings.interval_minutes,
        match last {
            Some(c) => r.checked_at == c.at && r.inputs@ == c.inputs@ && r.updates == updatable(
                c.inputs@,
            ).len() && r.error == c.error,
            None => r.checked_at == 0 && r.inputs@.len() == 0 && r.updates == 0 && r.error is None,
        },
        if last is Some && last->0.hosts@.len() > 0 {
            r.hosts@ == last->0.hosts@
        } else {
            are_configured(r.hosts@, named_hosts(settings.hosts@), settings.rebuild_command@)
        },
{
    let (checked_at, inputs, updates, error) = match last {
        Some(c) => {
            let names = read_updatable(&c.inputs);
            assert(texts(names@).len() == names@.len());
            (
                c.at,
                copy_inputs(&c.inputs),
                names.len(),
                match &c.error {
                    Some(message) => Some(message.clone()),
                    None => None,
                },
            )
        },
        None => (0, Vec::new(), 0, None),
    };
    let listed = match last {
        Some(c) => c.hosts.len() > 0,
        None => false,
    };
    let hosts = match last {
        Some(c) => if listed {
            copy_hosts(&c.hosts)
        } else {
            configured_hosts(settings)
        },
        None => configured_hosts(settings),
    };
    let (available, reason) = match availability {
        Ok(_) => (true, None),
        Err(reason) => (false, Some(reason)),
    };
    Status {
        flake: settings.flake.clone(),
        configured: settings.configured(),
        available,
        reason,
        locked_at,
        checked_at,
        checking,
        updates,
        inputs,
        error,
        update_command: settings.update_command.clone(),
        rebuild_command: settings.rebuild_command.clone(),
        hosts,
        interval_minutes: settings.interval_minutes,
    }
}

/// Minutes between automatic checks, where there are any: a flake is configured and the interval is
/// not zero.
pub fn watch(settings: &Settings) -> (r: Option<u64>)
    ensures
        r == (if settings.flake@.len() > 0 && settings.interval_minutes > 0 {
            Some(settings.interval_minutes)
        } else {
            None
        }),
{
    if settings.configured() && settings.interval_minutes > 0 {
        Some(settings.interval_minutes)
    } else {
        None
    }
}

/// An update that was told once is not told again while it stays: a check that finds only what the
/// one before found announces nothing.
pub proof fn nothing_new_is_not_announced(now: Seq<Seq<char>>, was: Seq<Seq<char>>)
    requires
        forall|i: int| 0 <= i < now.len() ==> was.contains(#[trigger] now[i]),
    ensures
        fresh(now, was).len() == 0,
    decreases now.len(),
{
    reveal(Seq::filter);
    if now.len() > 0 {
        assert forall|i: int| 0 <= i < now.drop_last().len() implies was.contains(
            #[trigger] now.drop_last()[i],
        ) by {
            assert(now.drop_last()[i] == now[i]);
        }
        nothing_new_is_not_announced(now.drop_last(), was);
        assert(was.contains(now[now.len() - 1]));
    }
}

/// Where a flake knows several hosts and none is named, nothing is rebuilt.
pub proof fn no_host_is_picked_for_the_user(known: Seq<Host>, template: Seq<char>)
    requires
        known.len() > 1,
    ensures
        rebuild_command_of(Seq::empty(), known, template) is Err,
{
}

/// Without a command that was configured nothing is rebuilt: there is no default.
pub proof fn there_is_no_default_rebuild(wanted: Seq<char>, known: Seq<Host>, template: Seq<char>)
    requires
        trim_of(template).len() == 0,
        forall|i: int| 0 <= i < known.len() ==> trim_of((#[trigger] known[i]).rebuild@).len() == 0,
    ensures
        rebuild_command_of(wanted, known, template) is Err,
{
    let i = host_index(known, wanted);
    host_index_bounds(known, wanted);
    if 0 <= i < known.len() {
        assert(trim_of(known[i].rebuild@).len() == 0);
    }
    if known.len() > 0 {
        assert(trim_of(known[0].rebuild@).len() == 0);
    }
}

proof fn host_index_bounds(hosts: Seq<Host>, name: Seq<char>)
    ensures
        0 <= host_index(hosts, name) <= hosts.len(),
    decreases hosts.len(),
{
    if hosts.len() > 0 && hosts[0].name@ != name {
        host_index_bounds(hosts.drop_first(), name);
    }
}

/// An input is compared with the one of its own name. It can be updated where the revisions differ, or,
/// where one has none, where the date is later; where the candidate does not have it, it cannot be.
pub proof fn an_input_is_compared_with_its_own(
    r: Seq<Input>,
    current: Lock,
    candidate: Lock,
    i: int,
    k: int,
)
    requires
        are_compared(r, current, candidate),
        0 <= i < current.inputs@.len(),
        0 <= k <= candidate.inputs@.len(),
        k < candidate.inputs@.len() ==> candidate.inputs@[k].name@ == current.inputs@[i].name@,
        forall|j: int|
            0 <= j < k ==> (#[trigger] candidate.inputs@[j]).name@ != current.inputs@[i].name@,
    ensures
        r.len() == current.inputs@.len(),
        r[i].name@ == current.inputs@[i].name@,
        r[i].current_rev@ == current.inputs@[i].rev@,
        r[i].current_date == current.inputs@[i].date,
        k < candidate.inputs@.len() ==> r[i].latest_rev@ == candidate.inputs@[k].rev@
            && r[i].latest_date == candidate.inputs@[k].date,
        k < candidate.inputs@.len() && current.inputs@[i].rev@.len() > 0
            && candidate.inputs@[k].rev@.len() > 0 ==> (r[i].update_available
            <==> current.inputs@[i].rev@ != candidate.inputs@[k].rev@),
        k < candidate.inputs@.len() && (current.inputs@[i].rev@.len() == 0
            || candidate.inputs@[k].rev@.len() == 0) ==> (r[i].update_available
            <==> candidate.inputs@[k].date > current.inputs@[i].date),
        k == candidate.inputs@.len() ==> !r[i].update_available,
{
    input_index_finds(candidate.inputs@, current.inputs@[i].name@, k);
}

/// The first input of a name is found.
proof fn input_index_finds(inputs: Seq<LockedInput>, name: Seq<char>, k: int)
    requires
        0 <= k <= inputs.len(),
        k < inputs.len() ==> inputs[k].name@ == name,
        forall|j: int| 0 <= j < k ==> (#[trigger] inputs[j]).name@ != name,
    ensures
        input_index(inputs, name) == k,
    decreases k,
{
    if k > 0 {
        assert(inputs[0].name@ != name);
        let rest = inputs.drop_first();
        assert forall|j: int| 0 <= j < k - 1 implies (#[trigger] rest[j]).name@ != name by {
            assert(rest[j] == inputs[j + 1]);
        }
        input_index_finds(rest, name, k - 1);
    }
}

/// A lock that pins each name once has nothing newer than itself.
pub proof fn a_lock_is_up_to_date_with_itself(r: Seq<Input>, lock: Lock, i: int)
    requires
        are_compared(r, lock, lock),
        0 <= i < lock.inputs@.len(),
        forall|a: int, b: int|
            0 <= a < b < lock.inputs@.len() ==> (#[trigger] lock.inputs@[a]).name@ != (
            #[trigger] lock.inputs@[b]).name@,
    ensures
        !r[i].update_available,
        r[i].latest_rev@ == r[i].current_rev@,
{
    an_input_is_compared_with_its_own(r, lock, lock, i, i);
}

/// An input is read as the lock pins it.
pub proof fn an_input_is_read_as_pinned(
    name: Seq<char>,
    id: Seq<char>,
    nodes: Seq<(Seq<char>, Json)>,
    node: Json,
    locked: Json,
    kind: Seq<char>,
    rev: Seq<char>,
)
    requires
        field_of(nodes, id) == Some(node),
        node.field("locked"@) == Some(locked),
        locked.field("type"@) == Some(Json::Text(kind)),
        locked.field("rev"@) == Some(Json::Text(rev)),
    ensures
        locked_input(name, Json::Text(id), nodes) matches Some(input) && input.name == name
            && input.kind == kind && input.rev == rev,
{
}

/// An input comes from where the flake asked for it: its owner, its repository, and the branch where
/// one is named.
pub proof fn a_source_is_told_as_it_was_asked_for(
    original: Json,
    owner: Seq<char>,
    repo: Seq<char>,
    branch: Seq<char>,
)
    requires
        original.field("type"@) == Some(Json::Text("github"@)),
        original.field("owner"@) == Some(Json::Text(owner)),
        original.field("repo"@) == Some(Json::Text(repo)),
    ensures
        original.field("ref"@) == Some(Json::Text(branch)) && branch.len() > 0 ==> described(original)
            == "github"@ + ":"@ + owner + "/"@ + repo + "/"@ + branch,
        original.field("ref"@) is None && original.field("rev"@) is None ==> described(original)
            == "github"@ + ":"@ + owner + "/"@ + repo,
{
}

/// The inputs of a lock stand by name, and none of them is lost.
pub proof fn inputs_stand_by_name(before: Seq<LockedModel>, after: Seq<LockedModel>, a: int, b: int)
    requires
        is_by_name(before, after),
        0 <= a < b < after.len(),
    ensures
        after.len() == before.len(),
        !comes_before(after[b].name, after[a].name),
        before.contains(after[a]),
{
    let order = choose|order: Seq<usize>| #[trigger]
        is_arrangement(order, before.len()) && after == picked(before, order) && forall|
            a: int,
            b: int,
        |
            0 <= a < b < order.len() ==> #[trigger] input_before(before, order[a], order[b]);
    assert(input_before(before, order[a], order[b]));
    assert(after[a] == before[order[a] as int] && after[b] == before[order[b] as int]);
    crate::order::comes_before_is_total(after[a].name, after[b].name);
    assert(before[order[a] as int] == after[a]);
}

/// An input can be updated where it was found so, and in no other case.
pub proof fn what_can_be_updated_is_told(inputs: Seq<Input>, name: Seq<char>)
    ensures
        updatable(inputs).contains(name) <==> exists|i: int|
            0 <= i < inputs.len() && (#[trigger] inputs[i]).update_available && inputs[i].name@ == name,
    decreases inputs.len(),
{
    if inputs.len() > 0 {
        let front = inputs.drop_last();
        what_can_be_updated_is_told(front, name);
        let before = updatable(front);
        let all = updatable(inputs);
        if before.contains(name) {
            let i = choose|i: int|
                0 <= i < front.len() && (#[trigger] front[i]).update_available && front[i].name@ == name;
            assert(inputs[i] == front[i]);
            let x = choose|x: int| 0 <= x < before.len() && before[x] == name;
            assert(all[x] == name);
        }
        if inputs.last().update_available && inputs.last().name@ == name {
            assert(inputs[inputs.len() - 1] == inputs.last());
            assert(all[before.len() as int] == name);
        }
        if exists|i: int|
            0 <= i < inputs.len() && (#[trigger] inputs[i]).update_available && inputs[i].name@
                == name {
            let i = choose|i: int|
                0 <= i < inputs.len() && (#[trigger] inputs[i]).update_available && inputs[i].name@
                    == name;
            if i < front.len() {
                assert(front[i] == inputs[i]);
            }
        }
        if all.contains(name) {
            let x = choose|x: int| 0 <= x < all.len() && all[x] == name;
            if x < before.len() {
                assert(before[x] == name);
            } else {
                assert(inputs[inputs.len() - 1] == inputs.last());
            }
        }
    }
}

/// An update that was not there at the check before is told, where such things are told at all.
pub proof fn a_new_update_is_announced(
    r: Option<(String, String)>,
    notify: bool,
    was: Seq<Seq<char>>,
    now: Seq<Seq<char>>,
    name: Seq<char>,
)
    requires
        is_announced(r, notify, was, now),
        now.contains(name),
        !was.contains(name),
    ensures
        r is Some <==> notify,
        notify && now.len() == 1 ==> ((r->0).0)@ == "1 flake input can be updated"@,
        notify && now.len() != 1 ==> ((r->0).0)@ == decimal(now.len())
            + " flake inputs can be updated"@,
        notify && now.len() == 1 ==> ((r->0).1)@ == name,
{
    let p = |n: Seq<char>| !was.contains(n);
    let k = choose|k: int| 0 <= k < now.len() && now[k] == name;
    assert(p(now[k]));
    now.lemma_filter_contains_rev(p, name);
    now.filter_lemma(p);
    assert(fresh(now, was) == now.filter(p));
    assert(fresh(now, was).contains(name));
    if now.len() == 1 {
        let new = fresh(now, was);
        let x = choose|x: int| 0 <= x < new.len() && new[x] == name;
        now.lemma_filter_len(p);
        assert(new.len() == 1);
        assert(new =~= seq![name]);
    }
}

/// The host that is wanted is rebuilt, with its own command and no other.
pub proof fn the_wanted_host_is_rebuilt(
    r: Result<String, String>,
    wanted: Seq<char>,
    known: Seq<Host>,
    template: Seq<char>,
    k: int,
)
    requires
        is_rebuild(r, wanted, known, template),
        wanted.len() > 0,
        0 <= k <= known.len(),
        k < known.len() ==> known[k].name@ == wanted,
        forall|j: int| 0 <= j < k ==> (#[trigger] known[j]).name@ != wanted,
    ensures
        k < known.len() && trim_of(known[k].rebuild@).len() > 0 ==> (r matches Ok(command) && command@
            == known[k].rebuild@),
        k < known.len() && trim_of(known[k].rebuild@).len() == 0 ==> r is Err,
        k == known.len() ==> r is Err,
{
    host_index_finds(known, wanted, k);
}

/// The first host of a name is found.
proof fn host_index_finds(hosts: Seq<Host>, name: Seq<char>, k: int)
    requires
        0 <= k <= hosts.len(),
        k < hosts.len() ==> hosts[k].name@ == name,
        forall|j: int| 0 <= j < k ==> (#[trigger] hosts[j]).name@ != name,
    ensures
        host_index(hosts, name) == k,
    decreases k,
{
    if k > 0 {
        assert(hosts[0].name@ != name);
        let rest = hosts.drop_first();
        assert forall|j: int| 0 <= j < k - 1 implies (#[trigger] rest[j]).name@ != name by {
            assert(rest[j] == hosts[j + 1]);
        }
        host_index_finds(rest, name, k - 1);
    }
}

/// The only host is rebuilt where none is named, and the common command is run where there is none.
pub proof fn the_only_host_is_rebuilt(
    r: Result<String, String>,
    known: Seq<Host>,
    template: Seq<char>,
)
    requires
        is_rebuild(r, Seq::empty(), known, template),
    ensures
        known.len() == 1 && trim_of(known[0].rebuild@).len() > 0 ==> (r matches Ok(command) && command@
            == known[0].rebuild@),
        known.len() == 0 && trim_of(template).len() > 0 ==> (r matches Ok(command) && command@
            == template),
{
}

/// The hosts of a flake are those that are configured, first and in their order, and those that were
/// discovered, each of them once more only where it was not there.
pub proof fn discovered_hosts_are_added(
    first: Seq<Host>,
    hosts: Seq<Host>,
    names: Seq<Seq<char>>,
    template: Seq<char>,
    k: int,
)
    requires
        are_added(first, hosts, names, template),
        0 <= k < names.len(),
    ensures
        has_host(hosts, names[k]),
        hosts.len() >= first.len(),
        hosts.take(first.len() as int) == first,
        forall|i: int|
            first.len() <= i < hosts.len() ==> !(#[trigger] hosts[i]).configured && names.contains(
                hosts[i].name@,
            ) && hosts[i].rebuild@ == fallback_of(template, hosts[i].name@),
{
    added_hosts(first, hosts, names, template);
    assert(has_host(hosts, names[k]));
}

/// What adding hosts leaves.
proof fn added_hosts(
    first: Seq<Host>,
    hosts: Seq<Host>,
    names: Seq<Seq<char>>,
    template: Seq<char>,
)
    requires
        are_added(first, hosts, names, template),
    ensures
        forall|k: int| 0 <= k < names.len() ==> has_host(hosts, #[trigger] names[k]),
        hosts.len() >= first.len(),
        hosts.take(first.len() as int) == first,
        forall|i: int|
            first.len() <= i < hosts.len() ==> !(#[trigger] hosts[i]).configured && names.contains(
                hosts[i].name@,
            ) && hosts[i].rebuild@ == fallback_of(template, hosts[i].name@),
    decreases names.len(),
{
    if names.len() == 0 {
        assert(hosts.take(first.len() as int) =~= first);
    } else {
        let front = names.drop_last();
        let middle = choose|middle: Seq<Host>|
            are_added(first, middle, front, template) && #[trigger] one_added(
                middle,
                hosts,
                names.last(),
                template,
            );
        added_hosts(first, middle, front, template);
        assert forall|i: int| 0 <= i < middle.len() implies hosts[i] == #[trigger] middle[i] by {
            if !has_host(middle, names.last()) {
                assert(hosts.drop_last()[i] == middle[i]);
            }
        }
        assert forall|i: int| 0 <= i < first.len() implies hosts[i] == #[trigger] first[i] by {
            assert(middle.take(first.len() as int)[i] == first[i]);
            assert(hosts[i] == middle[i]);
        }
        assert(hosts.take(first.len() as int) =~= first);
        assert forall|k: int| 0 <= k < names.len() implies has_host(hosts, #[trigger] names[k]) by {
            if k < front.len() {
                assert(has_host(middle, front[k]));
                let x = choose|x: int| 0 <= x < middle.len() && (#[trigger] middle[x]).name@ == front[k];
                assert(hosts[x] == middle[x]);
            } else if has_host(middle, names.last()) {
                let x = choose|x: int|
                    0 <= x < middle.len() && (#[trigger] middle[x]).name@ == names.last();
                assert(hosts[x] == middle[x]);
            } else {
                assert(hosts[hosts.len() - 1].name@ == names[k]);
            }
        }
        assert forall|i: int| first.len() <= i < hosts.len() implies !(
        #[trigger] hosts[i]).configured && names.contains(hosts[i].name@) && hosts[i].rebuild@
            == fallback_of(template, hosts[i].name@) by {
            if i < middle.len() {
                assert(hosts[i] == middle[i]);
                let x = choose|x: int| 0 <= x < front.len() && front[x] == middle[i].name@;
                assert(names[x] == front[x]);
            } else {
                assert(names[names.len() - 1] == hosts[i].name@);
            }
        }
    }
}

/// A configured host keeps its own command, and has the common one where it has none of its own.
pub proof fn a_host_keeps_its_command(hosts: Seq<Host>, from: Seq<NixHost>, template: Seq<char>, i: int)
    requires
        are_configured(hosts, from, template),
        0 <= i < from.len(),
    ensures
        hosts[i].name@ == from[i].name@,
        hosts[i].configured,
        trim_of(from[i].rebuild@).len() > 0 ==> hosts[i].rebuild@ == from[i].rebuild@,
        trim_of(from[i].rebuild@).len() == 0 ==> hosts[i].rebuild@ == fallback_of(
            template,
            from[i].name@,
        ),
{
}

/// A flake is updated and rebuilt from its own directory, with the command as it was given.
pub proof fn a_command_is_run_from_the_flake(
    r: Result<String, String>,
    settings: Settings,
    command: Seq<char>,
    key: Seq<char>,
    found: Option<Seq<char>>,
    shell: Seq<char>,
    chosen: Seq<char>,
    rest: Seq<char>,
)
    requires
        run_result(r, settings, command, key, found, shell),
        trim_of(command).len() > 0,
        settings.flake@.len() > 0,
        trim_of(settings.terminal@).len() > 0 ==> chosen == settings.terminal@,
        trim_of(settings.terminal@).len() == 0 ==> found == Some(chosen),
        rest == "\nstatus=$?\nprintf '\\n[exited %s] press enter to close ' \"$status\"\nread _"@,
    ensures
        r matches Ok(line) && line@ == chosen + " "@ + shell + " -i -c "@ + shell_quoted(
            "cd "@ + shell_quoted(settings.flake@) + " && "@ + command + rest,
        ),
{
}

/// What nix said last is what is told: the line after which only blank ones come.
pub proof fn the_last_line_is_told(lines: Seq<Seq<char>>, k: int)
    requires
        0 <= k < lines.len(),
        trim_of(lines[k]).len() > 0,
        forall|j: int| k < j < lines.len() ==> trim_of(#[trigger] lines[j]).len() == 0,
    ensures
        last_line_of(lines) == trim_of(lines[k]),
    decreases lines.len(),
{
    if k < lines.len() - 1 {
        assert(trim_of(lines[lines.len() - 1]).len() == 0);
        let front = lines.drop_last();
        assert forall|j: int| k < j < front.len() implies trim_of(#[trigger] front[j]).len() == 0 by {
            assert(front[j] == lines[j]);
        }
        the_last_line_is_told(front, k);
    }
}

/// The common command rebuilds the host that it is filled in with: its name stands where the
/// placeholder stood.
pub proof fn the_common_command_names_the_host(
    head: Seq<char>,
    tail: Seq<char>,
    host: Seq<char>,
    template: Seq<char>,
)
    requires
        template == head + "%HOST%"@ + tail,
        trim_of(template).len() > 0,
        forall|i: int| 0 <= i < head.len() ==> head[i] != '%',
        forall|i: int| 0 <= i < tail.len() ==> tail[i] != '%',
    ensures
        fallback_of(template, host) == head + host + tail,
{
    reveal_strlit("%HOST%");
    crate::text::what_stands_once_is_replaced(head, "%HOST%"@, tail, host);
}

/// Every input that the root asks for and that is pinned is there.
pub proof fn every_pinned_input_is_there(
    root: Seq<(Seq<char>, Json)>,
    nodes: Seq<(Seq<char>, Json)>,
    k: int,
)
    requires
        0 <= k < root.len(),
        locked_input(root[k].0, root[k].1, nodes) is Some,
    ensures
        locked_inputs(root, nodes).contains(locked_input(root[k].0, root[k].1, nodes)->0),
    decreases root.len(),
{
    let front = root.drop_last();
    let before = locked_inputs(front, nodes);
    let all = locked_inputs(root, nodes);
    let input = locked_input(root[k].0, root[k].1, nodes)->0;
    if k == root.len() - 1 {
        assert(all[before.len() as int] == input);
    } else {
        assert(front[k] == root[k]);
        every_pinned_input_is_there(front, nodes, k);
        let i = choose|i: int| 0 <= i < before.len() && before[i] == input;
        assert(all[i] == input);
    }
}

/// A lock is read from its root: the one that it names, and `root` where it names none.
pub proof fn a_lock_is_read_from_its_root(
    value: Json,
    nodes: Seq<(Seq<char>, Json)>,
    name: Seq<char>,
    root: Json,
    inputs: Seq<(Seq<char>, Json)>,
)
    requires
        value.field("nodes"@) == Some(Json::Object(nodes)),
        value.field("root"@) == Some(Json::Text(name)) || (value.field("root"@) is None && name
            == "root"@),
        field_of(nodes, name) == Some(root),
        root.field("inputs"@) == Some(Json::Object(inputs)),
    ensures
        inputs_in(value) == locked_inputs(inputs, nodes),
{
}

/// A host that is configured counts where it has a name.
pub proof fn a_host_counts_by_its_name(hosts: Seq<NixHost>, host: NixHost)
    requires
        hosts.contains(host),
    ensures
        named_hosts(hosts).contains(host) <==> trim_of(host.name@).len() > 0,
{
    let keep = |h: NixHost| trim_of(h.name@).len() > 0;
    hosts.filter_lemma(keep);
    if keep(host) {
        let k = choose|k: int| 0 <= k < hosts.len() && hosts[k] == host;
        assert(keep(hosts[k]));
    }
    if named_hosts(hosts).contains(host) {
        let i = choose|i: int| 0 <= i < named_hosts(hosts).len() && named_hosts(hosts)[i] == host;
        assert(keep(named_hosts(hosts)[i]));
    }
}

/// What comes from elsewhere than a forge is told by what leads to it: its URL, its path or its id.
pub proof fn other_sources_are_told_by_what_leads_to_them(original: Json, s: Seq<char>)
    requires
        original.field("ref"@) is None,
    ensures
        original.field("type"@) == Some(Json::Text("git"@)) && original.field("url"@) == Some(
            Json::Text(s),
        ) ==> described(original) == s,
        original.field("type"@) == Some(Json::Text("path"@)) && original.field("path"@) == Some(
            Json::Text(s),
        ) ==> described(original) == s,
        original.field("type"@) == Some(Json::Text("indirect"@)) && original.field("id"@) == Some(
            Json::Text(s),
        ) ==> described(original) == s,
{
    reveal_strlit("github");
    reveal_strlit("gitlab");
    reveal_strlit("sourcehut");
    reveal_strlit("git");
    reveal_strlit("path");
    reveal_strlit("indirect");
    assert("github"@.len() == 6 && "gitlab"@.len() == 6 && "sourcehut"@.len() == 9);
    assert("git"@.len() == 3 && "path"@.len() == 4 && "indirect"@.len() == 8);
}

} // verus!
