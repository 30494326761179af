//! Running a command where the user can watch it.
//!
//! The command runs in the user's own shell, so that aliases are known, and the terminal stays
//! open after it, so that its output can be read.

use vstd::prelude::*;
use vstd::string::*;

use crate::path::after_last;
use crate::text::{
    blank, chars_of, is_in, list_has, maybe, shell_quote, shell_quoted, slice, string_of, trim,
    trim_of,
};

verus! {

/// The terminals that are tried where none is configured, in order.
pub open spec fn known_terminals() -> Seq<Seq<char>> {
    seq!["ghostty"@, "kitty"@, "alacritty"@, "foot"@, "wezterm"@, "xterm"@]
}

/// Whether `i` is the first index whose name is among those installed.
pub open spec fn is_first_installed(names: Seq<Seq<char>>, installed: Seq<String>, i: int) -> bool {
    &&& 0 <= i < names.len()
    &&& is_in(installed, names[i])
    &&& forall|j: int| 0 <= j < i ==> !is_in(installed, #[trigger] names[j])
}

/// Whether none of the names is among those installed.
pub open spec fn none_installed(names: Seq<Seq<char>>, installed: Seq<String>) -> bool {
    forall|j: int| 0 <= j < names.len() ==> !is_in(installed, #[trigger] names[j])
}

/// The first of the names that is among those installed.
pub fn first_installed(names: &Vec<&str>, installed: &Vec<String>) -> (r: Option<usize>)
    ensures
        ({
            let all = Seq::new(names@.len(), |i: int| names@[i]@);
            match r {
                Some(i) => is_first_installed(all, installed@, i as int),
                None => none_installed(all, installed@),
            }
        }),
{
    let ghost all = Seq::new(names@.len(), |i: int| names@[i]@);
    let mut i: usize = 0;
    while i < names.len()
        invariant
            all == Seq::new(names@.len(), |i: int| names@[i]@),
            i <= names@.len(),
            forall|j: int| 0 <= j < i ==> !is_in(installed@, #[trigger] all[j]),
        decreases names.len() - i,
    {
        if list_has(installed, names[i]) {
            assert(all[i as int] == names@[i as int]@);
            return Some(i);
        }
        i += 1;
    }
    None
}

/// Whether this is the terminal to use where none is configured.
pub open spec fn is_default_terminal(r: Option<String>, installed: Seq<String>) -> bool {
    match r {
        Some(terminal) => exists|i: int| #[trigger]
            is_first_installed(known_terminals(), installed, i) && terminal@ == known_terminals()[i]
                + " -e"@,
        None => none_installed(known_terminals(), installed),
    }
}

/// The terminal to use where none is configured: the first that is installed, with the option
/// behind which it takes a command.
pub fn default_terminal(installed: &Vec<String>) -> (r: Option<String>)
    ensures
        is_default_terminal(r, installed@),
{
    let names: Vec<&str> = vec!["ghostty", "kitty", "alacritty", "foot", "wezterm", "xterm"];
    assert(Seq::new(names@.len(), |i: int| names@[i]@) =~= known_terminals());
    match first_installed(&names, installed) {
        Some(i) => {
            let mut out = names[i].to_owned();
            out.append(" -e");
            assert(is_first_installed(known_terminals(), installed@, i as int));
            Some(out)
        },
        None => None,
    }
}

/// What stands behind the last colon.
pub open spec fn last_field(line: Seq<char>) -> Seq<char> {
    line.skip(crate::path::last_of(line, ':') + 1)
}

/// The user's shell: the variable where it is set, otherwise the last field of the user's entry in
/// the list of accounts, otherwise `sh`.
pub open spec fn shell_of(variable: Option<Seq<char>>, account: Option<Seq<char>>) -> Seq<char> {
    match variable {
        Some(shell) => if trim_of(shell).len() > 0 {
            shell
        } else {
            account_shell(account)
        },
        None => account_shell(account),
    }
}

/// The shell of the user's entry in the list of accounts, otherwise `sh`.
pub open spec fn account_shell(account: Option<Seq<char>>) -> Seq<char> {
    match account {
        Some(line) => if last_field(trim_of(line)).len() > 0 {
            last_field(trim_of(line))
        } else {
            "sh"@
        },
        None => "sh"@,
    }
}

/// The user's shell.
pub fn user_shell(variable: Option<&str>, account: Option<&str>) -> (r: String)
    ensures
        r@ == shell_of(
            maybe(variable),
            maybe(account),
        ),
{
    if let Some(shell) = variable {
        if !blank(shell) {
            return shell.to_owned();
        }
    }
    if let Some(line) = account {
        let trimmed = trim(line);
        let chars = chars_of(trimmed.as_str());
        let from: usize = after_last(&chars, ':');
        let field = slice(&chars, from, chars.len());
        assert(field@ =~= last_field(trimmed@));
        if field.len() > 0 {
            return string_of(&field);
        }
    }
    "sh".to_owned()
}

/// What follows the command: the terminal waits until the user has read the output.
pub open spec fn closing() -> Seq<char> {
    "\nstatus=$?\nprintf '\\n[exited %s] press enter to close ' \"$status\"\nread _"@
}

/// The script that runs a command.
pub open spec fn script_of(command: Seq<char>, directory: Option<Seq<char>>) -> Seq<char> {
    match directory {
        Some(dir) => "cd "@ + shell_quoted(dir) + " && "@ + command + closing(),
        None => command + closing(),
    }
}

/// The line for the shell that opens the terminal.
pub open spec fn terminal_line(terminal: Seq<char>, shell: Seq<char>, script: Seq<char>) -> Seq<char> {
    terminal + " "@ + shell + " -i -c "@ + shell_quoted(script)
}

/// Whether this is the line that runs a command in a terminal, or why it cannot be run.
pub open spec fn is_run(
    r: Result<String, String>,
    command: Seq<char>,
    directory: Option<Seq<char>>,
    terminal: Seq<char>,
    found: Option<Seq<char>>,
    shell: Seq<char>,
) -> bool {
    if trim_of(command).len() == 0 {
        r matches Err(m) && m@ == "nothing to run"@
    } else if trim_of(terminal).len() > 0 {
        r matches Ok(line) && line@ == terminal_line(
            terminal,
            shell,
            script_of(command, directory),
        )
    } else {
        match found {
            Some(f) => r matches Ok(line) && line@ == terminal_line(
                f,
                shell,
                script_of(command, directory),
            ),
            None => r matches Err(m) && m@
                == "no terminal found; set terminal_cmd to the one to use"@,
        }
    }
}

/// The line that runs a command in a terminal, or why it cannot be run. The configured terminal is
/// used where there is one, and otherwise the one that was found.
pub fn run(
    command: &str,
    directory: Option<&str>,
    terminal: &str,
    found: Option<&str>,
    shell: &str,
) -> (r: Result<String, String>)
    ensures
        is_run(r, command@, maybe(directory), terminal@, maybe(found), shell@),
{
    if blank(command) {
        return Err("nothing to run".to_owned());
    }
    let chosen = if blank(terminal) {
        match found {
            Some(found) => found,
            None => {
                return Err("no terminal found; set terminal_cmd to the one to use".to_owned());
            },
        }
    } else {
        terminal
    };
    let mut script = String::new();
    if let Some(directory) = directory {
        script.append("cd ");
        script.append(shell_quote(directory).as_str());
        script.append(" && ");
    }
    script.append(command);
    script.append("\nstatus=$?\nprintf '\\n[exited %s] press enter to close ' \"$status\"\nread _");
    assert(script@ =~= script_of(
        command@,
        maybe(directory),
    ));
    let mut line = chosen.to_owned();
    line.append(" ");
    line.append(shell);
    line.append(" -i -c ");
    line.append(shell_quote(script.as_str()).as_str());
    Ok(line)
}

/// A command is run as it was given: the user's shell gets it at the start of its script, after a change
/// to the directory where there is one, in the terminal that is configured or else the one that was
/// found.
pub proof fn a_command_is_run_as_it_was_given(
    r: Result<String, String>,
    command: Seq<char>,
    directory: Option<Seq<char>>,
    terminal: Seq<char>,
    found: Option<Seq<char>>,
    shell: Seq<char>,
    chosen: Seq<char>,
    rest: Seq<char>,
)
    requires
        is_run(r, command, directory, terminal, found, shell),
        trim_of(command).len() > 0,
        trim_of(terminal).len() > 0 ==> chosen == terminal,
        trim_of(terminal).len() == 0 ==> found == Some(chosen),
        rest == "\nstatus=$?\nprintf '\\n[exited %s] press enter to close ' \"$status\"\nread _"@,
    ensures
        directory is None ==> (r matches Ok(line) && line@ == chosen + " "@ + shell + " -i -c "@
            + shell_quoted(command + rest)),
        directory matches Some(dir) ==> (r matches Ok(line) && line@ == chosen + " "@ + shell
            + " -i -c "@ + shell_quoted("cd "@ + shell_quoted(dir) + " && "@ + command + rest)),
{
}

/// Nothing is run where nothing was given, or where there is no terminal.
pub proof fn nothing_is_run_without_a_command_or_a_terminal(
    r: Result<String, String>,
    command: Seq<char>,
    directory: Option<Seq<char>>,
    terminal: Seq<char>,
    found: Option<Seq<char>>,
    shell: Seq<char>,
)
    requires
        is_run(r, command, directory, terminal, found, shell),
    ensures
        trim_of(command).len() == 0 ==> r is Err,
        trim_of(terminal).len() == 0 && found is None ==> r is Err,
{
}

/// The shell is the one of the variable where it is set, otherwise what stands behind the last colon of
/// the user's entry, and otherwise `sh`.
pub proof fn the_shell_is_the_users_own(variable: Seq<char>, head: Seq<char>, shell: Seq<char>)
    requires
        trim_of(variable).len() > 0,
        shell.len() > 0,
        forall|i: int| 0 <= i < shell.len() ==> shell[i] != ':',
        trim_of(head + seq![':'] + shell) == head + seq![':'] + shell,
    ensures
        shell_of(Some(variable), Some(head + seq![':'] + shell)) == variable,
        shell_of(Some(variable), None) == variable,
        shell_of(None, Some(head + seq![':'] + shell)) == shell,
        shell_of(None, None) == "sh"@,
{
    let line = head + seq![':'] + shell;
    crate::path::last_of_is_unique(line, ':', head.len() as int);
    assert(line.skip(head.len() as int + 1) =~= shell);
}

/// The terminal that is used is installed, and none that is tried before it is.
pub proof fn the_first_terminal_is_used(
    r: Option<String>,
    installed: Seq<String>,
    i: int,
)
    requires
        is_default_terminal(r, installed),
        0 <= i < known_terminals().len(),
        is_in(installed, known_terminals()[i]),
        forall|j: int| 0 <= j < i ==> !is_in(installed, #[trigger] known_terminals()[j]),
    ensures
        r is Some && (r->0)@ == known_terminals()[i] + " -e"@,
        known_terminals()[0] == "ghostty"@,
        known_terminals().last() == "xterm"@,
{
}

/// Each terminal is used where it is installed and none of those before it is.
pub proof fn terminals_are_tried_in_order(r: Option<String>, installed: Seq<String>)
    requires
        is_default_terminal(r, installed),
    ensures
        is_in(installed, "ghostty"@) ==> r is Some && (r->0)@ == "ghostty"@ + " -e"@,
        !is_in(installed, "ghostty"@) && is_in(installed, "kitty"@) ==> r is Some && (r->0)@
            == "kitty"@ + " -e"@,
        !is_in(installed, "ghostty"@) && !is_in(installed, "kitty"@) && is_in(
            installed,
            "alacritty"@,
        ) ==> r is Some && (r->0)@ == "alacritty"@ + " -e"@,
        !is_in(installed, "ghostty"@) && !is_in(installed, "kitty"@) && !is_in(
            installed,
            "alacritty"@,
        ) && is_in(installed, "foot"@) ==> r is Some && (r->0)@ == "foot"@ + " -e"@,
        r is None ==> !is_in(installed, "wezterm"@) && !is_in(installed, "xterm"@),
{
    let all = known_terminals();
    assert(all[0] == "ghostty"@ && all[1] == "kitty"@ && all[2] == "alacritty"@);
    assert(all[3] == "foot"@ && all[4] == "wezterm"@ && all[5] == "xterm"@);
}

} // verus!
