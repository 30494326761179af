//! Commands: those on the path, those that are configured, and any other line for the shell.

use vstd::prelude::*;
use vstd::string::*;

use crate::config::{Config, RunnerCommand};
use crate::fuzzy::{indices, is_match, match_of, score_lower, Match};
use crate::keyed::TextMap;
use crate::number::{wrapped, wrapping_sum};
use crate::path::{file_name, file_name_of};
use crate::providers::{
    hits_stand_in_order, is_top, matching_texts, matching_texts_bounds, nothing_better_is_left_out,
    nothing_is_left_out_below_the_limit, top_items, what_matches_is_a_hit,
};
use crate::terminal::{first_installed, is_first_installed, none_installed};
use crate::text::{
    after_prefix, begins_with, chars_of, finishes_with, is_white, join, joined, list_has, lower_of,
    lowercase, maybe, replace, replaced, replacing_changes_what_it_finds, same, shell_quote,
    shell_quoted, texts, trim, trim_of, what_stands_once_is_replaced, white,
};
use crate::types::{ActionCapability, FuzzyInfo, Item, ItemType, ProviderCapability};

verus! {

/// A command that can be run.
#[derive(Debug)]
pub struct CommandEntry {
    pub id: String,
    pub name: String,
    pub command: String,
    /// What is searched, in lower case.
    pub search: String,
    pub icon: String,
    pub terminal: bool,
    pub custom: bool,
}

/// The commands that can be run.
#[derive(Debug)]
pub struct RunnerProvider {
    pub commands: Vec<CommandEntry>,
}

/// Whether the entry is that of a configured command.
pub open spec fn is_custom_entry(entry: CommandEntry, command: RunnerCommand) -> bool {
    &&& entry.id@ == "custom:"@ + command.name@
    &&& entry.name@ == command.name@
    &&& entry.command@ == command.command@
    &&& entry.search@ == lower_of(
        command.name@ + " "@ + command.command@ + " "@ + joined(texts(command.keywords@), " "@),
    )
    &&& entry.icon@ == (match command.icon {
        Some(icon) => icon@,
        None => "system-run"@,
    })
    &&& entry.terminal == command.terminal
    &&& entry.custom
}

/// The entry of a configured command.
pub fn entry_from_custom(command: &RunnerCommand) -> (r: CommandEntry)
    ensures
        is_custom_entry(r, *command),
{
    let mut id = "custom:".to_owned();
    id.append(command.name.as_str());
    let mut search = command.name.clone();
    search.append(" ");
    search.append(command.command.as_str());
    search.append(" ");
    search.append(join(&command.keywords, " ").as_str());
    CommandEntry {
        id,
        name: command.name.clone(),
        command: command.command.clone(),
        search: lowercase(search.as_str()),
        icon: match &command.icon {
            Some(icon) => icon.clone(),
            None => "system-run".to_owned(),
        },
        terminal: command.terminal,
        custom: true,
    }
}

/// Whether the entry is that of a program.
pub open spec fn is_program_entry(entry: CommandEntry, path: Seq<char>) -> bool {
    let name = file_name_of(path)->0;
    &&& file_name_of(path) is Some
    &&& entry.id@ == "path:"@ + name
    &&& entry.name@ == name
    &&& entry.command@ == path
    &&& entry.search@ == lower_of(name)
    &&& entry.icon@ == "application-x-executable"@
    &&& !entry.terminal
    &&& !entry.custom
}

/// Whether a configured command can be offered.
pub open spec fn is_usable(command: RunnerCommand) -> bool {
    command.name@.len() > 0 && command.command@.len() > 0
}

/// The configured commands that can be offered.
pub open spec fn usable(commands: Seq<RunnerCommand>) -> Seq<RunnerCommand> {
    commands.filter(|c: RunnerCommand| is_usable(c))
}

/// The programs that are offered: of those with the same name the first.
pub open spec fn programs(paths: Seq<String>) -> Seq<Seq<char>>
    decreases paths.len(),
{
    if paths.len() == 0 {
        Seq::empty()
    } else {
        let before = programs(paths.drop_last());
        let path = paths.last()@;
        if file_name_of(path) is None || has_name(before, file_name_of(path)->0) {
            before
        } else {
            before.push(path)
        }
    }
}

/// Whether a program of that name is among the paths.
pub open spec fn has_name(paths: Seq<Seq<char>>, name: Seq<char>) -> bool {
    exists|i: int| 0 <= i < paths.len() && file_name_of(#[trigger] paths[i]) == Some(name)
}

/// Whether the entries are those of the configured commands and then those of the programs.
pub open spec fn are_entries(
    entries: Seq<CommandEntry>,
    custom: Seq<RunnerCommand>,
    paths: Seq<Seq<char>>,
) -> bool {
    &&& entries.len() == custom.len() + paths.len()
    &&& forall|i: int| 0 <= i < custom.len() ==> is_custom_entry(#[trigger] entries[i], custom[i])
    &&& forall|i: int|
        custom.len() <= i < entries.len() ==> is_program_entry(
            #[trigger] entries[i],
            paths[i - custom.len()],
        )
}

impl RunnerProvider {
    /// The commands that can be run: the configured ones, and the programs at the given paths
    /// where they are to be offered.
    pub fn new(config: &Config, found: &Vec<String>) -> (r: RunnerProvider)
        ensures
            are_entries(
                r.commands@,
                usable(config.runner_commands@),
                if config.runner_scan_path {
                    programs(found@)
                } else {
                    Seq::empty()
                },
            ),
    {
        let mut out: Vec<CommandEntry> = Vec::new();
        let ghost all = config.runner_commands@;
        let ghost keep = |c: RunnerCommand| is_usable(c);
        let ghost none: Seq<Seq<char>> = Seq::empty();
        let mut i: usize = 0;
        reveal(Seq::filter);
        assert(all.take(0).filter(keep) =~= Seq::empty());
        while i < config.runner_commands.len()
            invariant
                i <= config.runner_commands@.len(),
                all == config.runner_commands@,
                keep == (|c: RunnerCommand| is_usable(c)),
                none.len() == 0,
                are_entries(out@, all.take(i as int).filter(keep), none),
            decreases config.runner_commands.len() - i,
        {
            reveal(Seq::filter);
            assert(all.take(i + 1).drop_last() =~= all.take(i as int));
            let command = &config.runner_commands[i];
            if !command.name.as_str().is_empty() && !command.command.as_str().is_empty() {
                out.push(entry_from_custom(command));
            }
            i += 1;
        }
        assert(all.take(i as int) =~= all);
        let ghost custom = usable(all);
        if !config.runner_scan_path {
            return RunnerProvider { commands: out };
        }
        let mut seen: Vec<String> = Vec::new();
        let ghost mut listed: Seq<Seq<char>> = Seq::empty();
        let mut j: usize = 0;
        assert(found@.take(0) =~= Seq::empty());
        while j < found.len()
            invariant
                j <= found@.len(),
                listed == programs(found@.take(j as int)),
                are_entries(out@, custom, listed),
                seen@.len() == listed.len(),
                forall|k: int|
                    0 <= k < seen@.len() ==> file_name_of(listed[k]) == Some(
                        (#[trigger] seen@[k])@,
                    ),
            decreases found.len() - j,
        {
            assert(found@.take(j + 1).drop_last() =~= found@.take(j as int));
            let path = found[j].as_str();
            match file_name(path) {
                None => {},
                Some(name) => {
                    let known = list_has(&seen, name.as_str());
                    proof {
                        if known {
                            let k = choose|k: int|
                                0 <= k < seen@.len() && (#[trigger] seen@[k])@ == name@;
                            assert(file_name_of(listed[k]) == Some(name@));
                        }
                        if has_name(listed, name@) {
                            let k = choose|k: int|
                                0 <= k < listed.len() && file_name_of(#[trigger] listed[k]) == Some(
                                    name@,
                                );
                            assert(seen@[k]@ == name@);
                        }
                    }
                    if !known {
                        let mut id = "path:".to_owned();
                        id.append(name.as_str());
                        let entry = CommandEntry {
                            id,
                            search: lowercase(name.as_str()),
                            name: name.clone(),
                            command: path.to_owned(),
                            icon: "application-x-executable".to_owned(),
                            terminal: false,
                            custom: false,
                        };
                        assert(is_program_entry(entry, path@));
                        let ghost earlier = out@;
                        let ghost was = listed;
                        out.push(entry);
                        seen.push(name);
                        proof {
                            listed = listed.push(path@);
                            assert forall|i: int| custom.len() <= i < out@.len() implies is_program_entry(
                                #[trigger] out@[i],
                                listed[i - custom.len()],
                            ) by {
                                if i < earlier.len() {
                                    assert(out@[i] == earlier[i]);
                                    assert(listed[i - custom.len()] == was[i - custom.len()]);
                                }
                            }
                        }
                    }
                },
            }
            j += 1;
        }
        assert(found@.take(j as int) =~= found@);
        RunnerProvider { commands: out }
    }
}

/// Whether a line looks like one for a shell: it has white space or characters that a shell
/// treats specially.
pub open spec fn is_shell_like(command: Seq<char>) -> bool {
    exists|i: int| 0 <= i < command.len() && is_shell_char(#[trigger] command[i])
}

/// White space, or a character that a shell treats specially.
pub open spec fn is_shell_char(c: char) -> bool {
    is_white(c) || c == '|' || c == '&' || c == ';' || c == '<' || c == '>' || c == '$' || c == '`'
        || c == '(' || c == ')' || c == '*' || c == '?' || c == '='
}

/// Whether a line looks like one for a shell.
pub fn looks_like_shell_command(command: &str) -> (r: bool)
    ensures
        r == is_shell_like(command@),
{
    let chars = chars_of(command);
    let mut i: usize = 0;
    while i < chars.len()
        invariant
            chars@ == command@,
            i <= chars@.len(),
            forall|k: int| 0 <= k < i ==> !is_shell_char(#[trigger] chars@[k]),
        decreases chars.len() - i,
    {
        let c = chars[i];
        if white(c) || c == '|' || c == '&' || c == ';' || c == '<' || c == '>' || c == '$' || c
            == '`' || c == '(' || c == ')' || c == '*' || c == '?' || c == '=' {
            assert(is_shell_char(chars@[i as int]));
            return true;
        }
        i += 1;
    }
    false
}

/// Whether the item offers to run a query as a line for the shell.
pub open spec fn is_fallback(item: Item, query: Seq<char>) -> bool {
    let command = trim_of(query);
    &&& item.provider@ == "runner"@
    &&& item.identifier@ == "shell:"@ + command
    &&& item.text@ == "Run: "@ + command
    &&& item.subtext@ == "Run as shell command"@
    &&& item.icon@ == "utilities-terminal"@
    &&& texts(item.actions@) == seq!["run"@]
    &&& texts(item.state@) == seq!["shell"@, "terminal"@]
    &&& item.score == if is_shell_like(command) {
        50_000int
    } else {
        500
    }
    &&& item.fuzzyinfo is None
    &&& item.item_type == ItemType::Regular
    &&& item.mimetype@.len() == 0
    &&& item.preview@.len() == 0
    &&& item.preview_type@.len() == 0
    &&& item.icon_path is None
    &&& item.thumbnail is None
}

/// The offer to run a query as a line for the shell, unless it is blank.
pub fn shell_fallback_item(query: &str) -> (r: Option<Item>)
    ensures
        match r {
            Some(item) => trim_of(query@).len() > 0 && is_fallback(item, query@),
            None => trim_of(query@).len() == 0,
        },
{
    let command = trim(query);
    if command.as_str().is_empty() {
        return None;
    }
    let mut id = "shell:".to_owned();
    id.append(command.as_str());
    let mut title = "Run: ".to_owned();
    title.append(command.as_str());
    let mut item = Item::new("runner", id.as_str(), title.as_str());
    item.subtext = "Run as shell command".to_owned();
    item.icon = "utilities-terminal".to_owned();
    item.actions = vec!["run".to_owned()];
    item.state = vec!["shell".to_owned(), "terminal".to_owned()];
    assert(texts(item.actions@) =~= seq!["run"@]);
    assert(texts(item.state@) =~= seq!["shell"@, "terminal"@]);
    item.score = if looks_like_shell_command(command.as_str()) { 50_000 } else { 500 };
    Some(item)
}

/// What the entries are searched by.
pub open spec fn searches(entries: Seq<CommandEntry>) -> Seq<Seq<char>> {
    entries.map_values(|c: CommandEntry| c.search@)
}

/// The states of a command.
pub open spec fn command_states(entry: CommandEntry) -> Seq<Seq<char>> {
    (if entry.terminal {
        seq!["terminal"@]
    } else {
        Seq::empty()
    }) + (if entry.custom {
        seq!["custom"@]
    } else {
        Seq::empty()
    })
}

/// Whether the item is that of a command that matched.
pub open spec fn is_command_item(item: Item, entry: CommandEntry, m: Match) -> bool {
    &&& item.provider@ == "runner"@
    &&& item.identifier@ == entry.id@
    &&& item.text@ == entry.name@
    &&& item.subtext@ == entry.command@
    &&& item.icon@ == entry.icon@
    &&& texts(item.actions@) == seq!["run"@]
    &&& texts(item.state@) == command_states(entry)
    &&& item.score == wrapped(m.score + if entry.custom {
        15_000int
    } else {
        1_000
    })
    &&& item.fuzzyinfo is Some
    &&& item.fuzzyinfo->0.start == m.start
    &&& item.fuzzyinfo->0.field@ == "text"@
    &&& indices(item.fuzzyinfo->0.positions@) == m.positions
    &&& item.item_type == ItemType::Regular
    &&& item.mimetype@.len() == 0
    &&& item.preview@.len() == 0
    &&& item.preview_type@.len() == 0
    &&& item.icon_path is None
    &&& item.thumbnail is None
}

/// Whether the items are those of the commands that matched, in order.
pub open spec fn are_command_items(
    items: Seq<Item>,
    entries: Seq<CommandEntry>,
    found: Seq<int>,
    query: Seq<char>,
    exact: bool,
) -> bool {
    &&& items.len() == found.len()
    &&& forall|k: int| 0 <= k < found.len() ==> 0 <= (#[trigger] found[k]) < entries.len()
    &&& forall|k: int|
        0 <= k < items.len() ==> is_command_item(
            #[trigger] items[k],
            entries[found[k]],
            match_of(query, entries[found[k]].search@, exact)->0,
        )
}

/// Whether these are the offers for a query, the best first and not more than the limit.
pub open spec fn are_results(
    r: Seq<Item>,
    commands: Seq<CommandEntry>,
    query: Seq<char>,
    limit: nat,
    exact: bool,
) -> bool {
    exists|offers: Seq<Item>| #[trigger]
        are_offers(offers, commands, query, exact) && is_top(offers, r, limit)
}

/// Whether the offers are the commands that matched and, unless the query is blank, the offer to
/// run it as a line for the shell.
pub open spec fn are_offers(
    offers: Seq<Item>,
    entries: Seq<CommandEntry>,
    query: Seq<char>,
    exact: bool,
) -> bool {
    let found = matching_texts(searches(entries), lower_of(query), exact);
    if trim_of(query).len() == 0 {
        are_command_items(offers, entries, found, lower_of(query), exact)
    } else {
        &&& offers.len() == found.len() + 1
        &&& are_command_items(offers.drop_last(), entries, found, lower_of(query), exact)
        &&& is_fallback(offers.last(), query)
    }
}

/// The item of a command that matched.
fn command_item(entry: &CommandEntry, score: i32, info: FuzzyInfo, m: Ghost<Match>) -> (r: Item)
    requires
        is_match((score, info), m@, "text"@),
    ensures
        is_command_item(r, *entry, m@),
{
    let mut item = Item::new("runner", entry.id.as_str(), entry.name.as_str());
    item.subtext = entry.command.clone();
    item.icon = entry.icon.clone();
    item.actions = vec!["run".to_owned()];
    assert(texts(item.actions@) =~= seq!["run"@]);
    let mut state: Vec<String> = Vec::new();
    if entry.terminal {
        state.push("terminal".to_owned());
    }
    if entry.custom {
        state.push("custom".to_owned());
    }
    assert(texts(state@) =~= command_states(*entry));
    item.state = state;
    item.score = wrapping_sum(score, if entry.custom { 15_000 } else { 1_000 });
    item.fuzzyinfo = Some(info);
    item
}

/// What activating a command comes to.
#[derive(Debug)]
pub enum RunnerStep {
    /// To run a line in a shell.
    Run(String),
    /// To look for commands again.
    Reindex,
}

/// The index of the command with that id, or the number of commands where there is none.
pub open spec fn command_index(entries: Seq<CommandEntry>, id: Seq<char>) -> int
    decreases entries.len(),
{
    if entries.len() == 0 || entries[0].id@ == id {
        0
    } else {
        1 + command_index(entries.drop_first(), id)
    }
}

/// The terminals and how each runs a command.
pub open spec fn terminal_programs() -> Seq<Seq<char>> {
    seq![
        "x-terminal-emulator"@,
        "ghostty"@,
        "kitty"@,
        "alacritty"@,
        "foot"@,
        "wezterm"@,
        "gnome-terminal"@,
        "konsole"@,
        "xterm"@,
    ]
}

/// How each of the terminals runs a command.
pub open spec fn terminal_templates() -> Seq<Seq<char>> {
    seq![
        "x-terminal-emulator -e sh -lc %COMMAND%"@,
        "ghostty -e sh -lc %COMMAND%"@,
        "kitty sh -lc %COMMAND%"@,
        "alacritty -e sh -lc %COMMAND%"@,
        "foot sh -lc %COMMAND%"@,
        "wezterm start -- sh -lc %COMMAND%"@,
        "gnome-terminal -- sh -lc %COMMAND%"@,
        "konsole -e sh -lc %COMMAND%"@,
        "xterm -e sh -lc %COMMAND%"@,
    ]
}

/// How a command is run in a terminal where none is configured: in the user's own terminal, where
/// it is installed, and otherwise in the first that is.
pub fn default_terminal_cmd(own: Option<&str>, installed: &Vec<String>) -> (r: Option<String>)
    ensures
        match own {
            Some(terminal) => r is Some && r->0@ == shell_quoted(terminal@)
                + " -e sh -lc %COMMAND%"@,
            None => match r {
                Some(template) => exists|i: int| #[trigger]
                    is_first_installed(terminal_programs(), installed@, i) && template@
                        == terminal_templates()[i],
                None => none_installed(terminal_programs(), installed@),
            },
        },
{
    if let Some(terminal) = own {
        let mut out = shell_quote(terminal);
        out.append(" -e sh -lc %COMMAND%");
        return Some(out);
    }
    let names: Vec<&str> = vec![
        "x-terminal-emulator",
        "ghostty",
        "kitty",
        "alacritty",
        "foot",
        "wezterm",
        "gnome-terminal",
        "konsole",
        "xterm",
    ];
    let templates: Vec<&str> = vec![
        "x-terminal-emulator -e sh -lc %COMMAND%",
        "ghostty -e sh -lc %COMMAND%",
        "kitty sh -lc %COMMAND%",
        "alacritty -e sh -lc %COMMAND%",
        "foot sh -lc %COMMAND%",
        "wezterm start -- sh -lc %COMMAND%",
        "gnome-terminal -- sh -lc %COMMAND%",
        "konsole -e sh -lc %COMMAND%",
        "xterm -e sh -lc %COMMAND%",
    ];
    assert(Seq::new(names@.len(), |i: int| names@[i]@) =~= terminal_programs());
    assert(Seq::new(templates@.len(), |i: int| templates@[i]@) =~= terminal_templates());
    match first_installed(&names, installed) {
        Some(i) => {
            assert(is_first_installed(terminal_programs(), installed@, i as int));
            assert(Seq::new(templates@.len(), |i: int| templates@[i]@)[i as int]
                == terminal_templates()[i as int]);
            Some(templates[i].to_owned())
        },
        None => None,
    }
}

/// The line that runs a command in a terminal.
pub open spec fn in_terminal(template: Seq<char>, command: Seq<char>) -> Seq<char> {
    replaced(template, "%COMMAND%"@, shell_quoted(command))
}

/// Which template runs commands in a terminal, if any.
pub open spec fn template_of(configured: Seq<char>, found: Option<Seq<char>>) -> Option<Seq<char>> {
    if configured.len() > 0 {
        Some(configured)
    } else {
        found
    }
}

/// The line that runs a command in a terminal: by the configured template where there is one, and
/// otherwise by the one that was found.
pub fn terminal_command(configured: &str, found: Option<&str>, command: &str) -> (r: Result<
    String,
    String,
>)
    ensures
        match template_of(
            configured@,
            maybe(found),
        ) {
            Some(template) => r matches Ok(line) && line@ == in_terminal(template, command@),
            None => r matches Err(m) && m@ == "no terminal found; set terminal_cmd"@,
        },
{
    proof {
        reveal_strlit("%COMMAND%");
    }
    let template = if configured.is_empty() {
        match found {
            Some(found) => found,
            None => {
                return Err("no terminal found; set terminal_cmd".to_owned());
            },
        }
    } else {
        configured
    };
    Ok(replace(template, "%COMMAND%", shell_quote(command).as_str()))
}

impl RunnerProvider {
    /// The commands that match a query, the best first and not more than the limit.
    pub fn query(&self, query: &str, limit: usize, exact: bool) -> (r: Vec<Item>)
        ensures
            are_results(r@, self.commands@, query@, limit as nat, exact),
    {
        let lower = lowercase(query);
        let ghost q = lower_of(query@);
        let ghost all = searches(self.commands@);
        let mut out: Vec<Item> = Vec::new();
        let ghost mut found: Seq<int> = Seq::empty();
        let mut i: usize = 0;
        assert(all.take(0) =~= Seq::empty());
        while i < self.commands.len()
            invariant
                i <= self.commands@.len(),
                lower@ == q,
                all == searches(self.commands@),
                found == matching_texts(all.take(i as int), q, exact),
                are_command_items(out@, self.commands@, found, q, exact),
            decreases self.commands.len() - i,
        {
            let entry = &self.commands[i];
            assert(all.take(i + 1).drop_last() =~= all.take(i as int));
            assert(all.take(i + 1).last() == entry.search@);
            match score_lower(lower.as_str(), entry.search.as_str(), exact, "text") {
                Some((points, info)) => {
                    let ghost m = match_of(q, entry.search@, exact)->0;
                    let item = command_item(entry, points, info, Ghost(m));
                    out.push(item);
                    proof {
                        found = found.push(i as int);
                    }
                },
                None => {},
            }
            i += 1;
        }
        assert(all.take(i as int) =~= all);
        let ghost before = out@;
        if let Some(item) = shell_fallback_item(query) {
            out.push(item);
            assert(out@.drop_last() =~= before);
        }
        assert(are_offers(out@, self.commands@, query@, exact));
        top_items(out, limit)
    }

    /// The index of a command.
    fn locate(&self, id: &str) -> (r: usize)
        ensures
            r == command_index(self.commands@, id@),
            r <= self.commands@.len(),
    {
        let mut i: usize = 0;
        assert(self.commands@.skip(0) =~= self.commands@);
        while i < self.commands.len()
            invariant
                i <= self.commands@.len(),
                command_index(self.commands@, id@) == i + command_index(
                    self.commands@.skip(i as int),
                    id@,
                ),
            decreases self.commands.len() - i,
        {
            assert(self.commands@.skip(i as int).drop_first() =~= self.commands@.skip(i + 1));
            if same(self.commands[i].id.as_str(), id) {
                return i;
            }
            i += 1;
        }
        i
    }

    /// What activating a command comes to. A line for the shell runs in a terminal; a command runs
    /// with the arguments in the place that it has for them.
    pub fn activate(
        &self,
        identifier: &str,
        action: &str,
        arguments: &str,
        configured: &str,
        found: Option<&str>,
    ) -> (r: Result<RunnerStep, String>)
        ensures
            is_runner_step(
                r,
                self.commands@,
                identifier@,
                action@,
                arguments@,
                template_of(
                    configured@,
                    maybe(found),
                ),
            ),
    {
        if same(action, "run") {
            let (line, terminal) = match after_prefix(identifier, "shell:") {
                Some(command) => (command, true),
                None => {
                    let i: usize = self.locate(identifier);
                    if i >= self.commands.len() {
                        return Err("runner command not found".to_owned());
                    }
                    proof {
                        reveal_strlit("%ARGS%");
                        command_index_in_bounds(self.commands@, identifier@);
                    }
                    let entry = &self.commands[i];
                    (replace(entry.command.as_str(), "%ARGS%", arguments), entry.terminal)
                },
            };
            if terminal {
                match terminal_command(configured, found, line.as_str()) {
                    Ok(line) => Ok(RunnerStep::Run(line)),
                    Err(message) => Err(message),
                }
            } else {
                Ok(RunnerStep::Run(line))
            }
        } else if same(action, "reindex") {
            Ok(RunnerStep::Reindex)
        } else {
            let mut message = "unsupported runner action: ".to_owned();
            message.append(action);
            Err(message)
        }
    }

    /// How the provider describes itself.
    pub fn capability(&self) -> (r: ProviderCapability)
        ensures
            r.name@ == "runner"@,
            r.name_pretty@ == "Runner"@,
            r.description@ == "Run executables from PATH and configured commands"@,
            r.icon@.len() == 0,
            r.prefixes@.len() == 0,
            r.actions.wf(),
            r.actions@.dom() == set!["run"@, "reindex"@],
            r.actions@["run"@].is_plain("Run"@),
            r.actions@["reindex"@].is_async("Reindex"@),
            r.supports_query && r.supports_activate && r.supports_streaming,
            !r.supports_subscriptions && !r.emits_events,
    {
        let mut actions: TextMap<ActionCapability> = TextMap::new();
        actions.insert("run".to_owned(), ActionCapability::new("Run"));
        actions.insert("reindex".to_owned(), ActionCapability::new("Reindex").async_action());
        proof {
            reveal_strlit("run");
            reveal_strlit("reindex");
            assert("run"@.len() == 3 && "reindex"@.len() == 7);
            assert(actions@.dom() =~= set!["run"@, "reindex"@]);
        }
        ProviderCapability {
            name: "runner".to_owned(),
            name_pretty: "Runner".to_owned(),
            description: "Run executables from PATH and configured commands".to_owned(),
            icon: String::new(),
            prefixes: Vec::new(),
            actions,
            supports_query: true,
            supports_activate: true,
            supports_streaming: true,
            supports_subscriptions: false,
            emits_events: false,
        }
    }
}

proof fn command_index_in_bounds(entries: Seq<CommandEntry>, id: Seq<char>)
    ensures
        0 <= command_index(entries, id) <= entries.len(),
    decreases entries.len(),
{
    if entries.len() > 0 && entries[0].id@ != id {
        command_index_in_bounds(entries.drop_first(), id);
    }
}

/// Whether the step runs a line, in a terminal where that is asked for.
pub open spec fn is_run_step(
    r: Result<RunnerStep, String>,
    line: Seq<char>,
    terminal: bool,
    template: Option<Seq<char>>,
) -> bool {
    if terminal {
        match template {
            Some(template) => r matches Ok(RunnerStep::Run(l)) && l@ == in_terminal(template, line),
            None => r matches Err(m) && m@ == "no terminal found; set terminal_cmd"@,
        }
    } else {
        r matches Ok(RunnerStep::Run(l)) && l@ == line
    }
}

/// Whether the step is what activating a command comes to.
pub open spec fn is_runner_step(
    r: Result<RunnerStep, String>,
    entries: Seq<CommandEntry>,
    identifier: Seq<char>,
    action: Seq<char>,
    arguments: Seq<char>,
    template: Option<Seq<char>>,
) -> bool {
    if action == "run"@ {
        let i = command_index(entries, identifier);
        if begins_with(identifier, "shell:"@) {
            is_run_step(r, identifier.skip("shell:"@.len() as int), true, template)
        } else if i < entries.len() {
            is_run_step(
                r,
                replaced(entries[i].command@, "%ARGS%"@, arguments),
                entries[i].terminal,
                template,
            )
        } else {
            r matches Err(m) && m@ == "runner command not found"@
        }
    } else if action == "reindex"@ {
        r matches Ok(RunnerStep::Reindex)
    } else {
        r matches Err(m) && m@ == "unsupported runner action: "@ + action
    }
}

/// The first command of an id is found.
proof fn command_index_finds(entries: Seq<CommandEntry>, id: Seq<char>, k: int)
    requires
        0 <= k < entries.len(),
        entries[k].id@ == id,
        forall|j: int| 0 <= j < k ==> (#[trigger] entries[j]).id@ != id,
    ensures
        command_index(entries, id) == k,
    decreases k,
{
    if k > 0 {
        assert(entries[0].id@ != id);
        let rest = entries.drop_first();
        assert forall|j: int| 0 <= j < k - 1 implies (#[trigger] rest[j]).id@ != id by {
            assert(rest[j] == entries[j + 1]);
        }
        command_index_finds(rest, id, k - 1);
    }
}

/// A line that was typed is run as it was typed: the offer to run it runs, in a terminal, a shell that
/// is given the line as one word.
pub proof fn a_line_is_run_as_it_was_typed(
    item: Item,
    query: Seq<char>,
    entries: Seq<CommandEntry>,
    arguments: Seq<char>,
    head: Seq<char>,
    tail: Seq<char>,
    r: Result<RunnerStep, String>,
)
    requires
        is_fallback(item, query),
        forall|i: int| 0 <= i < head.len() ==> head[i] != '%',
        forall|i: int| 0 <= i < tail.len() ==> tail[i] != '%',
        is_runner_step(
            r,
            entries,
            item.identifier@,
            "run"@,
            arguments,
            Some(head + "%COMMAND%"@ + tail),
        ),
    ensures
        r matches Ok(RunnerStep::Run(l)) && l@ == head + shell_quoted(trim_of(query)) + tail,
        item.text@ == "Run: "@ + trim_of(query),
{
    reveal_strlit("shell:");
    reveal_strlit("%COMMAND%");
    let line = trim_of(query);
    let id = "shell:"@ + line;
    assert(id.subrange(0, "shell:"@.len() as int) =~= "shell:"@);
    assert(id.skip("shell:"@.len() as int) =~= line);
    assert("%COMMAND%"@[0] == '%');
    what_stands_once_is_replaced(head, "%COMMAND%"@, tail, shell_quoted(line));
}

/// What is listed is what is run: the result of a command runs its own command with the arguments
/// where it has a place for them, in a terminal where it asks for one.
pub proof fn a_result_runs_what_it_names(
    item: Item,
    entries: Seq<CommandEntry>,
    k: int,
    m: Match,
    arguments: Seq<char>,
    template: Seq<char>,
    command: RunnerCommand,
    path: Seq<char>,
    r: Result<RunnerStep, String>,
)
    requires
        0 <= k < entries.len(),
        forall|j: int| 0 <= j < k ==> (#[trigger] entries[j]).id@ != entries[k].id@,
        is_command_item(item, entries[k], m),
        is_runner_step(r, entries, item.identifier@, "run"@, arguments, Some(template)),
    ensures
        is_custom_entry(entries[k], command) && !command.terminal ==> (r matches Ok(
            RunnerStep::Run(l),
        ) && l@ == replaced(command.command@, "%ARGS%"@, arguments)),
        is_custom_entry(entries[k], command) && command.terminal ==> (r matches Ok(
            RunnerStep::Run(l),
        ) && l@ == replaced(
            template,
            "%COMMAND%"@,
            shell_quoted(replaced(command.command@, "%ARGS%"@, arguments)),
        )),
        is_program_entry(entries[k], path) && (forall|i: int| 0 <= i < path.len() ==> path[i] != '%')
            ==> (r matches Ok(RunnerStep::Run(l)) && l@ == path),
{
    reveal_strlit("shell:");
    reveal_strlit("custom:");
    reveal_strlit("path:");
    reveal_strlit("%ARGS%");
    let id = entries[k].id@;
    command_index_finds(entries, id, k);
    if is_custom_entry(entries[k], command) {
        assert(id[0] == 'c');
        if begins_with(id, "shell:"@) {
            assert(id.subrange(0, "shell:"@.len() as int)[0] == 's');
        }
    }
    if is_program_entry(entries[k], path) {
        assert(id[0] == 'p');
        if begins_with(id, "shell:"@) {
            assert(id.subrange(0, "shell:"@.len() as int)[0] == 's');
        }
        assert("%ARGS%"@[0] == '%');
        replacing_changes_what_it_finds(path, "%ARGS%"@);
    }
}

/// What is not known is not run: another action, a command that is not there, or a line for a shell
/// where there is no terminal.
pub proof fn what_is_not_known_is_not_run(
    entries: Seq<CommandEntry>,
    identifier: Seq<char>,
    action: Seq<char>,
    arguments: Seq<char>,
    template: Option<Seq<char>>,
    r: Result<RunnerStep, String>,
)
    requires
        is_runner_step(r, entries, identifier, action, arguments, template),
    ensures
        action != "run"@ && action != "reindex"@ ==> r is Err,
        action == "reindex"@ ==> (r matches Ok(RunnerStep::Reindex)),
        action == "run"@ && begins_with(identifier, "shell:"@) && template is None ==> r is Err,
        action == "run"@ && !begins_with(identifier, "shell:"@) && (forall|j: int|
            0 <= j < entries.len() ==> (#[trigger] entries[j]).id@ != identifier) ==> r is Err,
{
    reveal_strlit("run");
    reveal_strlit("reindex");
    assert("run"@.len() == 3 && "reindex"@.len() == 7);
    command_index_is_of(entries, identifier);
}

/// Where an index is found a command has the id.
proof fn command_index_is_of(entries: Seq<CommandEntry>, id: Seq<char>)
    ensures
        0 <= command_index(entries, id) <= entries.len(),
        command_index(entries, id) < entries.len() ==> entries[command_index(entries, id)].id@
            == id,
    decreases entries.len(),
{
    if entries.len() > 0 && entries[0].id@ != id {
        command_index_is_of(entries.drop_first(), id);
    }
}

/// Of programs with the same name the first is offered, and every name is offered once.
pub proof fn the_first_program_of_a_name_is_offered(paths: Seq<String>, k: int)
    requires
        0 <= k < paths.len(),
        file_name_of(paths[k]@) is Some,
    ensures
        has_name(programs(paths), file_name_of(paths[k]@)->0),
        (forall|j: int|
            0 <= j < k ==> file_name_of((#[trigger] paths[j])@) != file_name_of(paths[k]@))
            ==> programs(paths).contains(paths[k]@),
        forall|a: int, b: int|
            0 <= a < b < programs(paths).len() ==> file_name_of(#[trigger] programs(paths)[a])
                != file_name_of(#[trigger] programs(paths)[b]),
    decreases paths.len(),
{
    programs_have_names(paths);
    let front = paths.drop_last();
    let before = programs(front);
    let all = programs(paths);
    let last = paths.last()@;
    if k < front.len() {
        assert(front[k] == paths[k]);
        the_first_program_of_a_name_is_offered(front, k);
        let x = choose|x: int|
            0 <= x < before.len() && file_name_of(#[trigger] before[x]) == Some(
                file_name_of(paths[k]@)->0,
            );
        assert(all[x] == before[x]);
        if forall|j: int|
            0 <= j < k ==> file_name_of((#[trigger] paths[j])@) != file_name_of(paths[k]@) {
            assert forall|j: int| 0 <= j < k implies file_name_of((#[trigger] front[j])@)
                != file_name_of(front[k]@) by {
                assert(front[j] == paths[j]);
            }
            let y = choose|y: int| 0 <= y < before.len() && before[y] == paths[k]@;
            assert(all[y] == paths[k]@);
        }
    } else {
        let name = file_name_of(last)->0;
        if has_name(before, name) {
            let x = choose|x: int|
                0 <= x < before.len() && file_name_of(#[trigger] before[x]) == Some(name);
            assert(all[x] == before[x]);
            programs_are_paths(front);
            let y = choose|y: int| 0 <= y < front.len() && (#[trigger] front[y])@ == before[x];
            assert(paths[y] == front[y]);
            assert(file_name_of(paths[y]@) == file_name_of(paths[k]@));
        } else {
            assert(all[before.len() as int] == last);
        }
    }
}

/// The programs that are offered are among the paths.
proof fn programs_are_paths(paths: Seq<String>)
    ensures
        forall|a: int|
            0 <= a < programs(paths).len() ==> exists|y: int|
                0 <= y < paths.len() && (#[trigger] paths[y])@ == #[trigger] programs(paths)[a],
    decreases paths.len(),
{
    if paths.len() > 0 {
        let front = paths.drop_last();
        programs_are_paths(front);
        let before = programs(front);
        let all = programs(paths);
        assert forall|a: int| 0 <= a < all.len() implies exists|y: int|
            0 <= y < paths.len() && (#[trigger] paths[y])@ == #[trigger] all[a] by {
            if a < before.len() {
                assert(all[a] == before[a]);
                let y = choose|y: int| 0 <= y < front.len() && (#[trigger] front[y])@ == before[a];
                assert(paths[y] == front[y]);
            } else {
                assert(paths[paths.len() - 1]@ == all[a]);
            }
        }
    }
}

/// The programs that are offered have names, which differ.
proof fn programs_have_names(paths: Seq<String>)
    ensures
        forall|a: int|
            0 <= a < programs(paths).len() ==> file_name_of(#[trigger] programs(paths)[a]) is Some,
        forall|a: int, b: int|
            0 <= a < b < programs(paths).len() ==> file_name_of(#[trigger] programs(paths)[a])
                != file_name_of(#[trigger] programs(paths)[b]),
    decreases paths.len(),
{
    if paths.len() > 0 {
        programs_have_names(paths.drop_last());
        let before = programs(paths.drop_last());
        let all = programs(paths);
        assert forall|a: int| 0 <= a < all.len() implies file_name_of(
            #[trigger] all[a],
        ) is Some by {
            if a < before.len() {
                assert(all[a] == before[a]);
            }
        }
        assert forall|a: int, b: int| 0 <= a < b < all.len() implies file_name_of(
            #[trigger] all[a],
        ) != file_name_of(#[trigger] all[b]) by {
            assert(all[a] == before[a]);
            if b < before.len() {
                assert(all[b] == before[b]);
            }
        }
    }
}

/// A line that looks like one for a shell is offered before all that matches by name, and one that
/// does not after all of it: a word of letters does not, one with white space does.
pub proof fn a_shell_line_is_told_by_its_characters(item: Item, query: Seq<char>, i: int)
    requires
        is_fallback(item, query),
        0 <= i < trim_of(query).len(),
    ensures
        is_white(trim_of(query)[i]) || trim_of(query)[i] == '|' || trim_of(query)[i] == '&'
            || trim_of(query)[i] == ';' || trim_of(query)[i] == '>' || trim_of(query)[i] == '$'
            ==> item.score == 50_000,
        (forall|j: int|
            0 <= j < trim_of(query).len() ==> 'a' <= #[trigger] trim_of(query)[j] <= 'z')
            ==> item.score == 500,
{
    let line = trim_of(query);
    if is_white(line[i]) || line[i] == '|' || line[i] == '&' || line[i] == ';' || line[i] == '>'
        || line[i] == '$' {
        assert(is_shell_char(line[i]));
    }
}

/// A configured command comes before a program that matches as well.
pub proof fn a_configured_command_comes_first(
    a: Item,
    b: Item,
    custom: CommandEntry,
    program: CommandEntry,
    m: Match,
)
    requires
        custom.custom,
        !program.custom,
        is_command_item(a, custom, m),
        is_command_item(b, program, m),
        0 <= m.score <= 1_000_000,
    ensures
        a.score > b.score,
        a.subtext@ == custom.command@,
        b.subtext@ == program.command@,
{
}

/// A command is offered where the query matches what it is searched by, and what was typed is offered as
/// a line for the shell; nothing else is offered.
pub proof fn a_command_that_matches_is_offered(
    r: Seq<Item>,
    commands: Seq<CommandEntry>,
    query: Seq<char>,
    limit: nat,
    exact: bool,
    k: int,
    i: int,
)
    requires
        are_results(r, commands, query, limit, exact),
        commands.len() < limit,
        commands.len() < usize::MAX,
    ensures
        0 <= k < commands.len() && match_of(lower_of(query), commands[k].search@, exact) is Some
            ==> exists|x: int|
            0 <= x < r.len() && (#[trigger] r[x]).identifier@ == commands[k].id@ && r[x].text@
                == commands[k].name@ && r[x].subtext@ == commands[k].command@,
        trim_of(query).len() > 0 ==> exists|x: int|
            0 <= x < r.len() && (#[trigger] r[x]).identifier@ == "shell:"@ + trim_of(query)
                && r[x].text@ == "Run: "@ + trim_of(query),
        0 <= i < r.len() ==> (trim_of(query).len() > 0 && r[i].identifier@ == "shell:"@ + trim_of(
            query,
        )) || exists|c: int|
            0 <= c < commands.len() && r[i].identifier@ == (#[trigger] commands[c]).id@ && match_of(
                lower_of(query),
                commands[c].search@,
                exact,
            ) is Some,
{
    let all = searches(commands);
    let q = lower_of(query);
    let found = matching_texts(all, q, exact);
    let offers = choose|offers: Seq<Item>| #[trigger]
        are_offers(offers, commands, query, exact) && is_top(offers, r, limit);
    let typed = trim_of(query).len() > 0;
    let items = if typed {
        offers.drop_last()
    } else {
        offers
    };
    assert(are_command_items(items, commands, found, q, exact));
    hits_stand_in_order(all, q, exact, 0, 0);
    matching_texts_bounds(all, q, exact);
    assert(offers.len() <= limit && offers.len() <= usize::MAX);
    if 0 <= k < commands.len() {
        what_matches_is_a_hit(all, q, exact, k);
        assert(all[k] == commands[k].search@);
        if found.contains(k) {
            let x = choose|x: int| 0 <= x < found.len() && found[x] == k;
            assert(is_command_item(
                items[x],
                commands[k],
                match_of(q, commands[k].search@, exact)->0,
            ));
            assert(offers[x] == items[x]);
            nothing_is_left_out_below_the_limit(offers, r, limit, x);
            let y = choose|y: int| 0 <= y < r.len() && r[y] == offers[x];
            assert(r[y].identifier@ == commands[k].id@);
        }
    }
    if typed {
        nothing_is_left_out_below_the_limit(offers, r, limit, offers.len() - 1);
        let y = choose|y: int| 0 <= y < r.len() && r[y] == offers[offers.len() - 1];
        assert(is_fallback(r[y], query));
    }
    if 0 <= i < r.len() {
        assert(offers.len() > 0);
        nothing_better_is_left_out(offers, r, limit, 0);
        assert(offers.contains(r[i]));
        let x = choose|x: int| 0 <= x < offers.len() && offers[x] == r[i];
        if x < items.len() {
            assert(items[x] == offers[x]);
            let c = found[x];
            assert(all[c] == commands[c].search@);
            assert(is_command_item(
                items[x],
                commands[c],
                match_of(q, commands[c].search@, exact)->0,
            ));
            assert(r[i].identifier@ == commands[c].id@);
        }
    }
}

/// Each terminal is run by its own template, which says where the command goes.
pub proof fn a_template_runs_its_terminal(i: int)
    requires
        0 <= i < terminal_programs().len(),
    ensures
        terminal_templates().len() == terminal_programs().len(),
        begins_with(terminal_templates()[i], terminal_programs()[i] + " "@),
        finishes_with(terminal_templates()[i], " sh -lc %COMMAND%"@),
{
    reveal_strlit(" ");
    reveal_strlit(" sh -lc %COMMAND%");
    reveal_strlit("x-terminal-emulator");
    reveal_strlit("ghostty");
    reveal_strlit("kitty");
    reveal_strlit("alacritty");
    reveal_strlit("foot");
    reveal_strlit("wezterm");
    reveal_strlit("gnome-terminal");
    reveal_strlit("konsole");
    reveal_strlit("xterm");
    reveal_strlit("x-terminal-emulator -e sh -lc %COMMAND%");
    reveal_strlit("ghostty -e sh -lc %COMMAND%");
    reveal_strlit("kitty sh -lc %COMMAND%");
    reveal_strlit("alacritty -e sh -lc %COMMAND%");
    reveal_strlit("foot sh -lc %COMMAND%");
    reveal_strlit("wezterm start -- sh -lc %COMMAND%");
    reveal_strlit("gnome-terminal -- sh -lc %COMMAND%");
    reveal_strlit("konsole -e sh -lc %COMMAND%");
    reveal_strlit("xterm -e sh -lc %COMMAND%");
    let template = terminal_templates()[i];
    let name = terminal_programs()[i] + " "@;
    let end = " sh -lc %COMMAND%"@;
    assert(template.subrange(0, name.len() as int) =~= name);
    assert(template.subrange(template.len() - end.len(), template.len() as int) =~= end);
}

/// A command is run in the terminal that is configured, and otherwise in the one that was found.
pub proof fn the_configured_terminal_is_used(configured: Seq<char>, found: Option<Seq<char>>)
    ensures
        configured.len() > 0 ==> template_of(configured, found) == Some(configured),
        configured.len() == 0 ==> template_of(configured, found) == found,
{
}

/// A command that is configured can be used where it has a name and a line to run, and each that can be
/// is there, before the programs.
pub proof fn what_is_configured_can_be_used(
    entries: Seq<CommandEntry>,
    commands: Seq<RunnerCommand>,
    paths: Seq<Seq<char>>,
    command: RunnerCommand,
)
    requires
        are_entries(entries, usable(commands), paths),
        commands.contains(command),
    ensures
        command.name@.len() > 0 && command.command@.len() > 0 ==> exists|i: int|
            0 <= i < entries.len() - paths.len() && (#[trigger] entries[i]).name@ == command.name@
                && entries[i].command@ == command.command@,
        command.name@.len() == 0 || command.command@.len() == 0 ==> !usable(commands).contains(
            command,
        ),
{
    let keep = |c: RunnerCommand| is_usable(c);
    let kept = usable(commands);
    commands.filter_lemma(keep);
    if is_usable(command) {
        let k = choose|k: int| 0 <= k < commands.len() && commands[k] == command;
        assert(keep(commands[k]));
        assert(kept.contains(command));
        let i = choose|i: int| 0 <= i < kept.len() && kept[i] == command;
        assert(is_custom_entry(entries[i], kept[i]));
        assert(entries[i].name@ == command.name@);
    } else if kept.contains(command) {
        let i = choose|i: int| 0 <= i < kept.len() && kept[i] == command;
        assert(keep(kept[i]));
    }
}

} // verus!
