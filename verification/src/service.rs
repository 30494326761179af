//! The unit under which the daemon runs in the user's session.

use vstd::prelude::*;
use vstd::string::*;

use crate::text::{
    chars_of, double_quote, double_quoted, double_quoted_reads_back, has, join, joined, maybe,
    occurs_at, reads_double_quoted, texts,
};

verus! {

/// Whether a character needs no quotes.
pub open spec fn is_bare(c: char) -> bool {
    ('0' <= c <= '9') || ('a' <= c <= 'z') || ('A' <= c <= 'Z') || c == '/' || c == '.' || c == '_'
        || c == '-' || c == ':' || c == '@'
}

/// An argument as it stands in a unit: as it is where no character needs quotes, and otherwise
/// between double quotes with backslashes and quotes escaped.
pub open spec fn unit_argument(arg: Seq<char>) -> Seq<char> {
    if forall|i: int| 0 <= i < arg.len() ==> is_bare(#[trigger] arg[i]) {
        arg
    } else {
        double_quoted(arg)
    }
}

/// An argument as it stands in a unit.
pub fn quote_systemd_arg(arg: &str) -> (r: String)
    ensures
        r@ == unit_argument(arg@),
{
    let chars = chars_of(arg);
    let mut bare = true;
    let mut i: usize = 0;
    while i < chars.len() && bare
        invariant
            chars@ == arg@,
            i <= chars@.len(),
            bare ==> forall|k: int| 0 <= k < i ==> is_bare(#[trigger] chars@[k]),
            !bare ==> exists|k: int| 0 <= k < chars@.len() && !is_bare(#[trigger] chars@[k]),
        decreases chars.len() - i,
    {
        let c = chars[i];
        bare = ('0' <= c && c <= '9') || ('a' <= c && c <= 'z') || ('A' <= c && c <= 'Z') || c == '/'
            || c == '.' || c == '_' || c == '-' || c == ':' || c == '@';
        assert(bare == is_bare(chars@[i as int]));
        i += 1;
    }
    if bare {
        return arg.to_owned();
    }
    double_quote(arg)
}

/// The command line of the daemon.
pub open spec fn command_line(exe: Seq<char>, config: Option<Seq<char>>, socket: Seq<char>) -> Seq<
    Seq<char>,
> {
    let first = seq![unit_argument(exe)];
    let second = match config {
        Some(path) => first + seq!["--config"@, unit_argument(path)],
        None => first,
    };
    second + seq!["serve"@, "--socket"@, unit_argument(socket)]
}

/// The text of the unit.
pub open spec fn unit_text(readme: Seq<char>, exec: Seq<char>) -> Seq<char> {
    "[Unit]\nDescription=EpochOxide desktop shell data provider\nDocumentation=file://"@ + readme
        + "\nAfter=graphical-session.target\nPartOf=graphical-session.target\n\n[Service]\nType=simple\nExecStart="@
        + exec
        + "\nRestart=on-failure\nRestartSec=1\nEnvironment=RUST_LOG=info\n\n[Install]\nWantedBy=graphical-session.target\n"@
}

/// The text of the unit that runs the daemon.
pub fn install(exe: &str, config: Option<&str>, socket: &str, readme: &str) -> (r: String)
    ensures
        r@ == unit_text(
            readme@,
            joined(
                command_line(
                    exe@,
                    maybe(config),
                    socket@,
                ),
                " "@,
            ),
        ),
{
    let mut args: Vec<String> = Vec::new();
    args.push(quote_systemd_arg(exe));
    if let Some(path) = config {
        args.push("--config".to_owned());
        args.push(quote_systemd_arg(path));
    }
    args.push("serve".to_owned());
    args.push("--socket".to_owned());
    args.push(quote_systemd_arg(socket));
    assert(texts(args@) =~= command_line(
        exe@,
        maybe(config),
        socket@,
    ));
    let mut out =
        "[Unit]\nDescription=EpochOxide desktop shell data provider\nDocumentation=file://".to_owned();
    out.append(readme);
    out.append(
        "\nAfter=graphical-session.target\nPartOf=graphical-session.target\n\n[Service]\nType=simple\nExecStart=",
    );
    out.append(join(&args, " ").as_str());
    out.append(
        "\nRestart=on-failure\nRestartSec=1\nEnvironment=RUST_LOG=info\n\n[Install]\nWantedBy=graphical-session.target\n",
    );
    out
}

/// An argument that needs quotes reads back as it was once the quotes are taken off.
pub proof fn quoted_arguments_read_back(arg: Seq<char>)
    requires
        exists|i: int| 0 <= i < arg.len() && !is_bare(#[trigger] arg[i]),
    ensures
        unit_argument(arg)[0] == '"',
        reads_double_quoted(unit_argument(arg).drop_first()) == Some(arg),
{
    double_quoted_reads_back(arg);
}

/// The daemon is run as it was asked for: the program comes first, the socket follows `--socket`, and
/// the configuration follows `--config` where there is one.
pub proof fn the_daemon_is_run_as_asked(exe: Seq<char>, config: Seq<char>, socket: Seq<char>)
    ensures
        command_line(exe, None, socket) == seq![
            unit_argument(exe),
            "serve"@,
            "--socket"@,
            unit_argument(socket),
        ],
        command_line(exe, Some(config), socket) == seq![
            unit_argument(exe),
            "--config"@,
            unit_argument(config),
            "serve"@,
            "--socket"@,
            unit_argument(socket),
        ],
        (forall|i: int|
            0 <= i < socket.len() ==> (('a' <= #[trigger] socket[i] <= 'z') || socket[i] == '/'
                || socket[i] == '.' || socket[i] == '-')) ==> unit_argument(socket) == socket,
{
    assert(command_line(exe, None, socket) =~= seq![
        unit_argument(exe),
        "serve"@,
        "--socket"@,
        unit_argument(socket),
    ]);
    assert(command_line(exe, Some(config), socket) =~= seq![
        unit_argument(exe),
        "--config"@,
        unit_argument(config),
        "serve"@,
        "--socket"@,
        unit_argument(socket),
    ]);
}

/// Different arguments stand differently in a unit.
pub proof fn arguments_are_told_apart(a: Seq<char>, b: Seq<char>)
    requires
        a != b,
    ensures
        unit_argument(a) != unit_argument(b),
{
    if exists|i: int| 0 <= i < a.len() && !is_bare(#[trigger] a[i]) {
        quoted_arguments_read_back(a);
    }
    if exists|i: int| 0 <= i < b.len() && !is_bare(#[trigger] b[i]) {
        quoted_arguments_read_back(b);
    }
    let bare_a = forall|i: int| 0 <= i < a.len() ==> is_bare(#[trigger] a[i]);
    let bare_b = forall|i: int| 0 <= i < b.len() ==> is_bare(#[trigger] b[i]);
    if bare_a && !bare_b && unit_argument(a) == unit_argument(b) {
        reveal_strlit("\"");
        assert(double_quoted(b).len() > 0);
        assert(a[0] == '"');
        assert(is_bare(a[0]));
    }
    if !bare_a && bare_b && unit_argument(a) == unit_argument(b) {
        reveal_strlit("\"");
        assert(double_quoted(a).len() > 0);
        assert(b[0] == '"');
        assert(is_bare(b[0]));
    }
}

/// The unit starts what it is to start, on a line of its own.
pub proof fn the_unit_starts_the_daemon(readme: Seq<char>, exec: Seq<char>)
    ensures
        has(unit_text(readme, exec), "\nExecStart="@ + exec + "\n"@),
{
    let head =
        "[Unit]\nDescription=EpochOxide desktop shell data provider\nDocumentation=file://"@;
    let middle =
        "\nAfter=graphical-session.target\nPartOf=graphical-session.target\n\n[Service]\nType=simple\nExecStart="@;
    let end =
        "\nRestart=on-failure\nRestartSec=1\nEnvironment=RUST_LOG=info\n\n[Install]\nWantedBy=graphical-session.target\n"@;
    reveal_strlit(
        "\nAfter=graphical-session.target\nPartOf=graphical-session.target\n\n[Service]\nType=simple\nExecStart=",
    );
    reveal_strlit(
        "\nRestart=on-failure\nRestartSec=1\nEnvironment=RUST_LOG=info\n\n[Install]\nWantedBy=graphical-session.target\n",
    );
    reveal_strlit("\nExecStart=");
    reveal_strlit("\n");
    let unit = head + readme + middle + exec + end;
    assert(unit_text(readme, exec) == unit);
    let line = "\nExecStart="@ + exec + "\n"@;
    let key = "\nExecStart="@;
    let at = head.len() + readme.len() + middle.len() - key.len();
    assert(middle.skip(middle.len() - key.len()) =~= key);
    assert(end[0] == '\n');
    assert forall|i: int| 0 <= i < line.len() implies unit[at + i] == line[i] by {
        if i < key.len() {
            assert(middle.skip(middle.len() - key.len())[i] == middle[middle.len() - key.len() + i]);
        }
    }
    assert(unit.subrange(at as int, at + line.len()) =~= line);
    assert(occurs_at(unit, line, at as int));
}

} // verus!
