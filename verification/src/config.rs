//! The settings, their defaults and how a file overrides them.

use vstd::prelude::*;
use vstd::string::*;

use crate::keyed::TextMap;
use crate::path::{join_path, joined_path};
use crate::text::{borrowed, finishes_with, maybe, owned, same, texts};

verus! {

/// How files are searched.
///
/// The index in memory answers at once, but holds every path; the search program needs no memory
/// and takes longer.
#[derive(Debug, Clone, Copy, PartialEq, Eq, Structural)]
pub enum FileIndex {
    /// With the search program, and with an index only where it is not installed.
    Auto,
    /// Always with an index.
    Always,
    /// Never with an index. Nothing is found where the search program is not installed.
    Never,
}

impl Default for FileIndex {
    fn default() -> (r: FileIndex)
        ensures
            r == FileIndex::Auto,
    {
        FileIndex::Auto
    }
}

/// One host of the flake, and how it is rebuilt.
#[derive(Debug)]
pub struct NixHost {
    pub name: String,
    /// What rebuilds this host. Empty falls back to the common command.
    pub rebuild: String,
}

/// A command that is offered by name.
#[derive(Debug)]
pub struct RunnerCommand {
    pub name: String,
    pub command: String,
    pub keywords: Vec<String>,
    pub icon: Option<String>,
    pub terminal: bool,
}

/// The settings.
#[derive(Debug)]
pub struct Config {
    /// Where the socket is.
    pub socket: String,
    /// Where files are searched.
    pub file_roots: Vec<String>,
    /// What is left out of the search: whole paths, or names of components.
    pub ignored_dirs: Vec<String>,
    /// Where menus are defined.
    pub menus_dir: String,
    /// What applications are launched with.
    pub launch_prefix: String,
    /// What terminals are opened with. Empty means to look for one.
    pub terminal_cmd: String,
    /// How many clipboard entries are kept.
    pub clipboard_max_items: usize,
    /// Where clipboard images are kept.
    pub clipboard_image_dir: String,
    /// What edits clipboard texts.
    pub clipboard_text_editor: String,
    /// What edits clipboard images.
    pub clipboard_image_editor: String,
    /// Whether clipboard images are read for text.
    pub clipboard_ocr: bool,
    /// Whether transfers are accepted.
    pub localsend_receive: bool,
    /// Where accepted transfers are written.
    pub localsend_download_dir: String,
    /// The name shown to other devices. Empty means the host name.
    pub localsend_alias: String,
    /// Where screenshots are saved.
    pub screenshot_dir: String,
    /// The name of a saved screenshot, with the fields of `date` in it.
    pub screenshot_filename: String,
    /// Whether each screenshot is put on the clipboard as well.
    pub screenshot_copy: bool,
    /// Whether each screenshot is kept as a file.
    pub screenshot_save: bool,
    /// Whether each screenshot is announced.
    pub screenshot_notify: bool,
    /// The language in which text is read from images.
    pub ocr_language: String,
    /// Where recordings are written.
    pub recording_dir: String,
    /// The name of a recording, with the fields of `date` in it.
    pub recording_filename: String,
    /// Whether a finished recording is announced.
    pub recording_notify: bool,
    /// Frames per second to record at. Zero leaves the timing to the recorder.
    pub recording_framerate: u32,
    /// The flake that is watched. Empty means none.
    pub nix_flake: String,
    /// Minutes between automatic checks. Zero means none.
    pub nix_check_interval_minutes: u64,
    /// What updates the flake, in a terminal.
    pub nix_update_command: String,
    /// What rebuilds a host, with `%HOST%` for its name. Empty by default.
    pub nix_rebuild_command: String,
    /// Hosts to offer a rebuild for. Empty means those of the flake.
    pub nix_hosts: Vec<NixHost>,
    /// The colour temperature of night mode, in kelvin.
    pub night_light_temperature: u32,
    /// Whether an input that gained an update is announced.
    pub nix_notify: bool,
    /// Milliseconds between looks at the clipboard.
    pub clipboard_capture_interval_ms: u64,
    /// Whether the programs on the path are offered.
    pub runner_scan_path: bool,
    /// Commands that are offered besides.
    pub runner_commands: Vec<RunnerCommand>,
    /// Which providers are switched on.
    pub provider_enabled: TextMap<bool>,
    /// What each provider's results are raised by.
    pub provider_weights: TextMap<i32>,
    /// Which prefix leads to which provider.
    pub query_prefixes: TextMap<String>,
    /// The icon theme. Empty means the default.
    pub icon_theme: String,
    /// Where thumbnails are kept.
    pub icon_cache_dir: String,
    /// Whether thumbnails are kept.
    pub thumbnail_cache_enabled: bool,
    /// Whether the file index is kept between runs.
    pub persistent_index: bool,
    /// How files are searched.
    pub file_index: FileIndex,
}

/// The settings that a file holds. What it does not hold stays as it was.
#[derive(Debug)]
pub struct PartialConfig {
    pub socket: Option<String>,
    pub file_roots: Option<Vec<String>>,
    pub ignored_dirs: Option<Vec<String>>,
    pub menus_dir: Option<String>,
    pub launch_prefix: Option<String>,
    pub terminal_cmd: Option<String>,
    pub clipboard_max_items: Option<usize>,
    pub clipboard_image_dir: Option<String>,
    pub clipboard_text_editor: Option<String>,
    pub clipboard_image_editor: Option<String>,
    pub clipboard_ocr: Option<bool>,
    pub localsend_receive: Option<bool>,
    pub localsend_download_dir: Option<String>,
    pub localsend_alias: Option<String>,
    pub screenshot_dir: Option<String>,
    pub screenshot_filename: Option<String>,
    pub screenshot_copy: Option<bool>,
    pub screenshot_save: Option<bool>,
    pub screenshot_notify: Option<bool>,
    pub ocr_language: Option<String>,
    pub recording_dir: Option<String>,
    pub recording_filename: Option<String>,
    pub recording_notify: Option<bool>,
    pub recording_framerate: Option<u32>,
    pub nix_flake: Option<String>,
    pub nix_check_interval_minutes: Option<u64>,
    pub nix_update_command: Option<String>,
    pub nix_rebuild_command: Option<String>,
    pub nix_hosts: Option<Vec<NixHost>>,
    pub night_light_temperature: Option<u32>,
    pub nix_notify: Option<bool>,
    pub clipboard_capture_interval_ms: Option<u64>,
    pub runner_scan_path: Option<bool>,
    pub runner_commands: Option<Vec<RunnerCommand>>,
    pub provider_enabled: Option<TextMap<bool>>,
    pub provider_weights: Option<TextMap<i32>>,
    pub query_prefixes: Option<TextMap<String>>,
    pub icon_theme: Option<String>,
    pub icon_cache_dir: Option<String>,
    pub thumbnail_cache_enabled: Option<bool>,
    pub persistent_index: Option<bool>,
    pub file_index: Option<FileIndex>,
}

/// What the defaults depend on: directories and variables of the session.
#[derive(Debug)]
pub struct Surroundings {
    pub home: Option<String>,
    /// What a tilde stands for: the home directory, where its name is a text.
    pub tilde: Option<String>,
    pub cache_dir: Option<String>,
    pub temp_dir: String,
    pub config_dir: Option<String>,
    /// The value of `EDITOR`.
    pub editor: Option<String>,
    /// The value of `XDG_RUNTIME_DIR`.
    pub runtime_dir: Option<String>,
}

/// The home directory, or the root where it is not known.
pub open spec fn home_of(at: Surroundings) -> Seq<char> {
    match at.home {
        Some(home) => home@,
        None => "/"@,
    }
}

/// The cache directory, or that for temporary files where it is not known.
pub open spec fn cache_of(at: Surroundings) -> Seq<char> {
    match at.cache_dir {
        Some(dir) => dir@,
        None => at.temp_dir@,
    }
}

/// The socket within the session's runtime directory, or within that for temporary files.
pub open spec fn default_socket_of(runtime_dir: Option<String>) -> Seq<char> {
    match runtime_dir {
        Some(dir) => joined_path(dir@, "epochoxide.sock"@),
        None => "/tmp/epochoxide.sock"@,
    }
}

/// What is left out of the search by default.
pub open spec fn ignored_in(home: Seq<char>) -> Seq<Seq<char>> {
    seq![
        joined_path(home, ".cache"@),
        joined_path(home, ".local/share/Trash"@),
        joined_path(home, ".cargo/registry"@),
        joined_path(home, ".rustup"@),
        joined_path(home, ".npm"@),
        joined_path(home, ".pnpm-store"@),
        joined_path(home, ".var/app"@),
        ".git"@,
        "node_modules"@,
        "target"@,
        "dist"@,
        "build"@,
        ".direnv"@,
    ]
}

/// The providers that there are by default.
pub open spec fn default_enabled() -> Map<Seq<char>, bool> {
    Map::<Seq<char>, bool>::empty().insert("apps"@, true).insert("files"@, true).insert(
        "runner"@,
        true,
    ).insert("clipboard"@, true).insert("windows"@, true).insert("calc"@, true).insert(
        "menus"@,
        true,
    )
}

/// What providers are raised by, by default.
pub open spec fn default_weights() -> Map<Seq<char>, i32> {
    Map::<Seq<char>, i32>::empty().insert("apps"@, 20_000).insert("runner"@, 12_000).insert(
        "calc"@,
        10_000,
    ).insert("windows"@, 6_000).insert("files"@, 0).insert("clipboard"@, 0)
}

/// The texts that a map leads to.
pub open spec fn text_values(m: Map<Seq<char>, String>) -> Map<Seq<char>, Seq<char>> {
    m.map_values(|s: String| s@)
}

/// Which prefix leads to which provider, by default.
pub open spec fn default_prefixes() -> Map<Seq<char>, Seq<char>> {
    Map::<Seq<char>, Seq<char>>::empty().insert(">"@, "runner"@).insert("/"@, "files"@).insert(
        "#"@,
        "clipboard"@,
    ).insert("@"@, "windows"@).insert("="@, "calc"@)
}

/// Whether the settings are the defaults in these surroundings.
pub open spec fn is_default(c: Config, at: Surroundings) -> bool {
    let home = home_of(at);
    &&& c.wf()
    &&& c.socket@ == default_socket_of(at.runtime_dir)
    &&& texts(c.file_roots@) == seq![home]
    &&& texts(c.ignored_dirs@) == ignored_in(home)
    &&& c.menus_dir@ == joined_path(home, ".config/epochoxide/menus"@)
    &&& c.launch_prefix@.len() == 0
    &&& c.terminal_cmd@.len() == 0
    &&& c.clipboard_max_items == 100
    &&& c.clipboard_image_dir@ == joined_path(cache_of(at), "epochoxide/clipboard/images"@)
    &&& c.clipboard_text_editor@ == (match at.editor {
        Some(editor) => editor@,
        None => "xdg-open"@,
    })
    &&& c.clipboard_image_editor@.len() == 0
    &&& !c.clipboard_ocr
    &&& c.localsend_receive
    &&& c.localsend_download_dir@ == "~/Downloads"@
    &&& c.localsend_alias@.len() == 0
    &&& c.screenshot_dir@ == joined_path(home, "Pictures/Screenshots"@)
    &&& c.screenshot_filename@ == "screenshot-%Y%m%d-%H%M%S.png"@
    &&& c.screenshot_copy
    &&& c.screenshot_save
    &&& c.screenshot_notify
    &&& c.ocr_language@ == "eng"@
    &&& c.recording_dir@ == joined_path(home, "Videos/Recordings"@)
    &&& c.recording_filename@ == "recording-%Y%m%d-%H%M%S.mp4"@
    &&& c.recording_notify
    &&& c.recording_framerate == 30
    &&& c.nix_flake@.len() == 0
    &&& c.nix_check_interval_minutes == 60
    &&& c.nix_update_command@ == "nix flake update"@
    &&& c.nix_rebuild_command@.len() == 0
    &&& c.nix_hosts@.len() == 0
    &&& c.night_light_temperature == 4000
    &&& c.nix_notify
    &&& c.clipboard_capture_interval_ms == 250
    &&& c.runner_scan_path
    &&& c.runner_commands@.len() == 0
    &&& c.provider_enabled@ == default_enabled()
    &&& c.provider_weights@ == default_weights()
    &&& text_values(c.query_prefixes@) == default_prefixes()
    &&& c.icon_theme@.len() == 0
    &&& c.icon_cache_dir@ == joined_path(cache_of(at), "epochoxide/icons"@)
    &&& c.thumbnail_cache_enabled
    &&& c.persistent_index
    &&& c.file_index == FileIndex::Auto
}

/// A value, or another where there is none.
pub open spec fn given<T>(value: Option<T>, other: T) -> T {
    match value {
        Some(value) => value,
        None => other,
    }
}

/// A map with the entries of another over its own.
pub open spec fn overlaid<V>(map: TextMap<V>, over: Option<TextMap<V>>) -> Map<Seq<char>, V> {
    match over {
        Some(over) => map@.union_prefer_right(over@),
        None => map@,
    }
}

/// Whether `after` is `before` with what the file holds: a setting of the file takes the place of
/// the one before, and the maps are laid over those before.
pub open spec fn is_merged(before: Config, partial: PartialConfig, after: Config) -> bool {
    &&& after.socket == given(partial.socket, before.socket)
    &&& after.file_roots == given(partial.file_roots, before.file_roots)
    &&& after.ignored_dirs == given(partial.ignored_dirs, before.ignored_dirs)
    &&& after.menus_dir == given(partial.menus_dir, before.menus_dir)
    &&& after.launch_prefix == given(partial.launch_prefix, before.launch_prefix)
    &&& after.terminal_cmd == given(partial.terminal_cmd, before.terminal_cmd)
    &&& after.clipboard_max_items == given(partial.clipboard_max_items, before.clipboard_max_items)
    &&& after.clipboard_image_dir == given(partial.clipboard_image_dir, before.clipboard_image_dir)
    &&& after.clipboard_text_editor == given(partial.clipboard_text_editor, before.clipboard_text_editor)
    &&& after.clipboard_image_editor == given(partial.clipboard_image_editor, before.clipboard_image_editor)
    &&& after.clipboard_ocr == given(partial.clipboard_ocr, before.clipboard_ocr)
    &&& after.localsend_receive == given(partial.localsend_receive, before.localsend_receive)
    &&& after.localsend_download_dir == given(partial.localsend_download_dir, before.localsend_download_dir)
    &&& after.localsend_alias == given(partial.localsend_alias, before.localsend_alias)
    &&& after.screenshot_dir == given(partial.screenshot_dir, before.screenshot_dir)
    &&& after.screenshot_filename == given(partial.screenshot_filename, before.screenshot_filename)
    &&& after.screenshot_copy == given(partial.screenshot_copy, before.screenshot_copy)
    &&& after.screenshot_save == given(partial.screenshot_save, before.screenshot_save)
    &&& after.screenshot_notify == given(partial.screenshot_notify, before.screenshot_notify)
    &&& after.ocr_language == given(partial.ocr_language, before.ocr_language)
    &&& after.recording_dir == given(partial.recording_dir, before.recording_dir)
    &&& after.recording_filename == given(partial.recording_filename, before.recording_filename)
    &&& after.recording_notify == given(partial.recording_notify, before.recording_notify)
    &&& after.recording_framerate == given(partial.recording_framerate, before.recording_framerate)
    &&& after.nix_flake == given(partial.nix_flake, before.nix_flake)
    &&& after.nix_check_interval_minutes == given(partial.nix_check_interval_minutes, before.nix_check_interval_minutes)
    &&& after.nix_update_command == given(partial.nix_update_command, before.nix_update_command)
    &&& after.nix_rebuild_command == given(partial.nix_rebuild_command, before.nix_rebuild_command)
    &&& after.nix_hosts == given(partial.nix_hosts, before.nix_hosts)
    &&& after.night_light_temperature == given(partial.night_light_temperature, before.night_light_temperature)
    &&& after.nix_notify == given(partial.nix_notify, before.nix_notify)
    &&& after.clipboard_capture_interval_ms == given(partial.clipboard_capture_interval_ms, before.clipboard_capture_interval_ms)
    &&& after.runner_scan_path == given(partial.runner_scan_path, before.runner_scan_path)
    &&& after.runner_commands == given(partial.runner_commands, before.runner_commands)
    &&& after.icon_theme == given(partial.icon_theme, before.icon_theme)
    &&& after.icon_cache_dir == given(partial.icon_cache_dir, before.icon_cache_dir)
    &&& after.thumbnail_cache_enabled == given(partial.thumbnail_cache_enabled, before.thumbnail_cache_enabled)
    &&& after.persistent_index == given(partial.persistent_index, before.persistent_index)
    &&& after.file_index == given(partial.file_index, before.file_index)
    &&& after.provider_enabled@ == overlaid(before.provider_enabled, partial.provider_enabled)
    &&& after.provider_weights@ == overlaid(before.provider_weights, partial.provider_weights)
    &&& after.query_prefixes@ == overlaid(before.query_prefixes, partial.query_prefixes)
}

/// Whether a path begins with a tilde that stands for the home directory.
pub open spec fn has_tilde(path: Seq<char>) -> bool {
    path.len() > 0 && path[0] == '~' && (path.len() == 1 || path[1] == '/' || path[1] == '\\')
}

/// What can become of a path: a tilde at its start is replaced where the home directory is known,
/// and nothing else changes.
pub open spec fn is_expanded(path: Seq<char>, out: Seq<char>) -> bool {
    if has_tilde(path) {
        out == path || finishes_with(out, path.skip(1))
    } else {
        out == path
    }
}

/// `shellexpand::tilde` replaces a tilde at the start of a path by the home directory of the user,
/// where the path is the tilde alone or a separator follows it and the directory is known. It
/// leaves every other path as it is. Which directory that is depends on the session and is not
/// said.
#[verifier::external_body]
pub fn expand(path: &str) -> (r: String)
    ensures
        is_expanded(path@, r@),
{
    shellexpand::tilde(path).into_owned()
}

/// What a tilde stands for, where it became the text: one that stayed as it was stands for nothing
/// that is known.
pub fn known_home(expanded: String) -> (r: Option<String>)
    ensures
        match r {
            Some(home) => home@ == expanded@ && expanded@ != "~"@,
            None => expanded@ == "~"@,
        },
{
    if same(expanded.as_str(), "~") {
        None
    } else {
        Some(expanded)
    }
}

/// What a tilde stands for in this session, where that is known.
pub fn home_directory() -> (r: Option<String>)
    ensures
        r is Some ==> r->0@ != "~"@,
{
    known_home(expand("~"))
}

/// Whether a path became another where the home directory is as given: a tilde that stands alone or
/// before a slash is replaced by it where it is known, and nothing else changes. Before a backslash
/// the tilde is replaced on some systems and not on others.
pub open spec fn is_expanded_in(path: Seq<char>, home: Option<Seq<char>>, out: Seq<char>) -> bool {
    if has_tilde(path) && home is Some {
        if path.len() == 1 || path[1] == '/' {
            out == home->0 + path.skip(1)
        } else {
            out == path || out == home->0 + path.skip(1)
        }
    } else {
        out == path
    }
}

/// `shellexpand::tilde_with_context` replaces a tilde at the start of a path by the home directory
/// that it is given, where the path is the tilde alone or a slash follows it. It leaves every other
/// path as it is, and every path where it is given no directory. Before a backslash it replaces the
/// tilde on Windows only.
#[verifier::external_body]
pub(crate) fn expand_in(path: &str, home: Option<&str>) -> (r: String)
    ensures
        is_expanded_in(path@, maybe(home), r@),
{
    shellexpand::tilde_with_context(path, || home).into_owned()
}

/// Expands each path of a list.
fn expand_all(paths: &Vec<String>, home: Option<&str>) -> (r: Vec<String>)
    ensures
        all_expanded(paths@, maybe(home), r@),
{
    let mut out: Vec<String> = Vec::new();
    let mut i: usize = 0;
    while i < paths.len()
        invariant
            i <= paths@.len(),
            out@.len() == i,
            forall|k: int|
                0 <= k < i ==> is_expanded_in((#[trigger] paths@[k])@, maybe(home), out@[k]@),
        decreases paths.len() - i,
    {
        out.push(expand_in(paths[i].as_str(), home));
        i += 1;
    }
    out
}

/// Whether each path of a list became the path at its place in the other.
pub open spec fn all_expanded(
    paths: Seq<String>,
    home: Option<Seq<char>>,
    out: Seq<String>,
) -> bool {
    out.len() == paths.len() && forall|k: int|
        0 <= k < paths.len() ==> is_expanded_in((#[trigger] paths[k])@, home, out[k]@)
}

/// Whether the paths among the settings were expanded and all else is as before.
pub open spec fn paths_expanded(before: Config, home: Option<Seq<char>>, after: Config) -> bool {
    &&& all_expanded(before.file_roots@, home, after.file_roots@)
    &&& all_expanded(before.ignored_dirs@, home, after.ignored_dirs@)
    &&& is_expanded_in(before.menus_dir@, home, after.menus_dir@)
    &&& is_expanded_in(before.clipboard_image_dir@, home, after.clipboard_image_dir@)
    &&& is_expanded_in(before.screenshot_dir@, home, after.screenshot_dir@)
    &&& is_expanded_in(before.recording_dir@, home, after.recording_dir@)
    &&& is_expanded_in(before.nix_flake@, home, after.nix_flake@)
    &&& is_expanded_in(before.icon_cache_dir@, home, after.icon_cache_dir@)
    &&& after == (Config {
        file_roots: after.file_roots,
        ignored_dirs: after.ignored_dirs,
        menus_dir: after.menus_dir,
        clipboard_image_dir: after.clipboard_image_dir,
        screenshot_dir: after.screenshot_dir,
        recording_dir: after.recording_dir,
        nix_flake: after.nix_flake,
        icon_cache_dir: after.icon_cache_dir,
        ..before
    })
}

/// The socket by default.
fn default_socket(runtime_dir: &Option<String>) -> (r: String)
    ensures
        r@ == default_socket_of(*runtime_dir),
{
    match runtime_dir {
        Some(dir) => join_path(dir.as_str(), "epochoxide.sock"),
        None => "/tmp/epochoxide.sock".to_owned(),
    }
}

/// What is left out of the search by default.
pub fn default_ignored_dirs(home: &str) -> (r: Vec<String>)
    ensures
        texts(r@) == ignored_in(home@),
{
    let r = vec![
        join_path(home, ".cache"),
        join_path(home, ".local/share/Trash"),
        join_path(home, ".cargo/registry"),
        join_path(home, ".rustup"),
        join_path(home, ".npm"),
        join_path(home, ".pnpm-store"),
        join_path(home, ".var/app"),
        ".git".to_owned(),
        "node_modules".to_owned(),
        "target".to_owned(),
        "dist".to_owned(),
        "build".to_owned(),
        ".direnv".to_owned(),
    ];
    assert(texts(r@) =~= ignored_in(home@));
    r
}

/// The providers that there are by default.
pub fn default_provider_enabled() -> (r: TextMap<bool>)
    ensures
        r.wf(),
        r@ == default_enabled(),
{
    let mut r: TextMap<bool> = TextMap::new();
    r.insert("apps".to_owned(), true);
    r.insert("files".to_owned(), true);
    r.insert("runner".to_owned(), true);
    r.insert("clipboard".to_owned(), true);
    r.insert("windows".to_owned(), true);
    r.insert("calc".to_owned(), true);
    r.insert("menus".to_owned(), true);
    r
}

/// What providers are raised by, by default.
pub fn default_provider_weights() -> (r: TextMap<i32>)
    ensures
        r.wf(),
        r@ == default_weights(),
{
    let mut r: TextMap<i32> = TextMap::new();
    r.insert("apps".to_owned(), 20_000);
    r.insert("runner".to_owned(), 12_000);
    r.insert("calc".to_owned(), 10_000);
    r.insert("windows".to_owned(), 6_000);
    r.insert("files".to_owned(), 0);
    r.insert("clipboard".to_owned(), 0);
    r
}

/// Which prefix leads to which provider, by default.
pub fn default_query_prefixes() -> (r: TextMap<String>)
    ensures
        r.wf(),
        text_values(r@) == default_prefixes(),
{
    let mut r: TextMap<String> = TextMap::new();
    r.insert(">".to_owned(), "runner".to_owned());
    r.insert("/".to_owned(), "files".to_owned());
    r.insert("#".to_owned(), "clipboard".to_owned());
    r.insert("@".to_owned(), "windows".to_owned());
    r.insert("=".to_owned(), "calc".to_owned());
    assert(text_values(r@) =~= default_prefixes());
    r
}

/// Whether these are the settings that apply: the defaults where there is no file, and otherwise the
/// defaults with what the file holds laid over them and the paths expanded.
pub open spec fn is_loaded(r: Config, at: Surroundings, file: Option<PartialConfig>) -> bool {
    match file {
        None => is_default(r, at),
        Some(partial) => exists|base: Config, merged: Config| #[trigger]
            is_default(base, at) && #[trigger] is_merged(base, partial, merged) && paths_expanded(
                merged,
                owned(at.tilde),
                r,
            ),
    }
}

impl Config {
    /// Whether no key stands twice in any of the maps.
    pub open spec fn wf(&self) -> bool {
        self.provider_enabled.wf() && self.provider_weights.wf() && self.query_prefixes.wf()
    }

    /// The path of the file with the settings: the one that is given, or that in the directory
    /// for settings.
    pub fn resolved_path(path: Option<&str>, config_dir: Option<&str>) -> (r: Option<String>)
        ensures
            match path {
                Some(path) => r is Some && r->0@ == path@,
                None => match config_dir {
                    Some(dir) => r is Some && r->0@ == joined_path(
                        dir@,
                        "epochoxide/config.toml"@,
                    ),
                    None => r is None,
                },
            },
    {
        match path {
            Some(path) => Some(path.to_owned()),
            None => match config_dir {
                Some(dir) => Some(join_path(dir, "epochoxide/config.toml")),
                None => None,
            },
        }
    }

    /// The settings where no file holds any.
    pub fn defaults(at: &Surroundings) -> (r: Config)
        ensures
            is_default(r, *at),
    {
        let home = match &at.home {
            Some(home) => home.clone(),
            None => "/".to_owned(),
        };
        let cache = match &at.cache_dir {
            Some(dir) => dir.clone(),
            None => at.temp_dir.clone(),
        };
        let h = home.as_str();
        let file_roots = vec![home.clone()];
        assert(texts(file_roots@) =~= seq![home@]);
        Config {
            socket: default_socket(&at.runtime_dir),
            file_roots,
            ignored_dirs: default_ignored_dirs(h),
            menus_dir: join_path(h, ".config/epochoxide/menus"),
            launch_prefix: String::new(),
            terminal_cmd: String::new(),
            clipboard_max_items: 100,
            clipboard_image_dir: join_path(cache.as_str(), "epochoxide/clipboard/images"),
            clipboard_text_editor: match &at.editor {
                Some(editor) => editor.clone(),
                None => "xdg-open".to_owned(),
            },
            clipboard_image_editor: String::new(),
            clipboard_ocr: false,
            localsend_receive: true,
            localsend_download_dir: "~/Downloads".to_owned(),
            localsend_alias: String::new(),
            screenshot_dir: join_path(h, "Pictures/Screenshots"),
            screenshot_filename: "screenshot-%Y%m%d-%H%M%S.png".to_owned(),
            screenshot_copy: true,
            screenshot_save: true,
            screenshot_notify: true,
            ocr_language: "eng".to_owned(),
            recording_dir: join_path(h, "Videos/Recordings"),
            recording_filename: "recording-%Y%m%d-%H%M%S.mp4".to_owned(),
            recording_notify: true,
            recording_framerate: 30,
            nix_flake: String::new(),
            nix_check_interval_minutes: 60,
            nix_update_command: "nix flake update".to_owned(),
            nix_rebuild_command: String::new(),
            nix_hosts: Vec::new(),
            night_light_temperature: 4000,
            nix_notify: true,
            clipboard_capture_interval_ms: 250,
            runner_scan_path: true,
            runner_commands: Vec::new(),
            provider_enabled: default_provider_enabled(),
            provider_weights: default_provider_weights(),
            query_prefixes: default_query_prefixes(),
            icon_theme: String::new(),
            icon_cache_dir: join_path(cache.as_str(), "epochoxide/icons"),
            thumbnail_cache_enabled: true,
            persistent_index: true,
            file_index: FileIndex::Auto,
        }
    }

    /// The settings with what a file holds laid over them.
    pub fn merged(self, partial: PartialConfig) -> (r: Config)
        requires
            self.wf(),
        ensures
            r.wf(),
            is_merged(self, partial, r),
    {
        let mut provider_enabled = self.provider_enabled;
        if let Some(over) = partial.provider_enabled {
            provider_enabled.extend(over);
        }
        let mut provider_weights = self.provider_weights;
        if let Some(over) = partial.provider_weights {
            provider_weights.extend(over);
        }
        let mut query_prefixes = self.query_prefixes;
        if let Some(over) = partial.query_prefixes {
            query_prefixes.extend(over);
        }
        Config {
            socket: match partial.socket {
                Some(v) => v,
                None => self.socket,
            },
            file_roots: match partial.file_roots {
                Some(v) => v,
                None => self.file_roots,
            },
            ignored_dirs: match partial.ignored_dirs {
                Some(v) => v,
                None => self.ignored_dirs,
            },
            menus_dir: match partial.menus_dir {
                Some(v) => v,
                None => self.menus_dir,
            },
            launch_prefix: match partial.launch_prefix {
                Some(v) => v,
                None => self.launch_prefix,
            },
            terminal_cmd: match partial.terminal_cmd {
                Some(v) => v,
                None => self.terminal_cmd,
            },
            clipboard_max_items: match partial.clipboard_max_items {
                Some(v) => v,
                None => self.clipboard_max_items,
            },
            clipboard_image_dir: match partial.clipboard_image_dir {
                Some(v) => v,
                None => self.clipboard_image_dir,
            },
            clipboard_text_editor: match partial.clipboard_text_editor {
                Some(v) => v,
                None => self.clipboard_text_editor,
            },
            clipboard_image_editor: match partial.clipboard_image_editor {
                Some(v) => v,
                None => self.clipboard_image_editor,
            },
            clipboard_ocr: match partial.clipboard_ocr {
                Some(v) => v,
                None => self.clipboard_ocr,
            },
            localsend_receive: match partial.localsend_receive {
                Some(v) => v,
                None => self.localsend_receive,
            },
            localsend_download_dir: match partial.localsend_download_dir {
                Some(v) => v,
                None => self.localsend_download_dir,
            },
            localsend_alias: match partial.localsend_alias {
                Some(v) => v,
                None => self.localsend_alias,
            },
            screenshot_dir: match partial.screenshot_dir {
                Some(v) => v,
                None => self.screenshot_dir,
            },
            screenshot_filename: match partial.screenshot_filename {
                Some(v) => v,
                None => self.screenshot_filename,
            },
            screenshot_copy: match partial.screenshot_copy {
                Some(v) => v,
                None => self.screenshot_copy,
            },
            screenshot_save: match partial.screenshot_save {
                Some(v) => v,
                None => self.screenshot_save,
            },
            screenshot_notify: match partial.screenshot_notify {
                Some(v) => v,
                None => self.screenshot_notify,
            },
            ocr_language: match partial.ocr_language {
                Some(v) => v,
                None => self.ocr_language,
            },
            recording_dir: match partial.recording_dir {
                Some(v) => v,
                None => self.recording_dir,
            },
            recording_filename: match partial.recording_filename {
                Some(v) => v,
                None => self.recording_filename,
            },
            recording_notify: match partial.recording_notify {
                Some(v) => v,
                None => self.recording_notify,
            },
            recording_framerate: match partial.recording_framerate {
                Some(v) => v,
                None => self.recording_framerate,
            },
            nix_flake: match partial.nix_flake {
                Some(v) => v,
                None => self.nix_flake,
            },
            nix_check_interval_minutes: match partial.nix_check_interval_minutes {
                Some(v) => v,
                None => self.nix_check_interval_minutes,
            },
            nix_update_command: match partial.nix_update_command {
                Some(v) => v,
                None => self.nix_update_command,
            },
            nix_rebuild_command: match partial.nix_rebuild_command {
                Some(v) => v,
                None => self.nix_rebuild_command,
            },
            nix_hosts: match partial.nix_hosts {
                Some(v) => v,
                None => self.nix_hosts,
            },
            night_light_temperature: match partial.night_light_temperature {
                Some(v) => v,
                None => self.night_light_temperature,
            },
            nix_notify: match partial.nix_notify {
                Some(v) => v,
                None => self.nix_notify,
            },
            clipboard_capture_interval_ms: match partial.clipboard_capture_interval_ms {
                Some(v) => v,
                None => self.clipboard_capture_interval_ms,
            },
            runner_scan_path: match partial.runner_scan_path {
                Some(v) => v,
                None => self.runner_scan_path,
            },
            runner_commands: match partial.runner_commands {
                Some(v) => v,
                None => self.runner_commands,
            },
            provider_enabled,
            provider_weights,
            query_prefixes,
            icon_theme: match partial.icon_theme {
                Some(v) => v,
                None => self.icon_theme,
            },
            icon_cache_dir: match partial.icon_cache_dir {
                Some(v) => v,
                None => self.icon_cache_dir,
            },
            thumbnail_cache_enabled: match partial.thumbnail_cache_enabled {
                Some(v) => v,
                None => self.thumbnail_cache_enabled,
            },
            persistent_index: match partial.persistent_index {
                Some(v) => v,
                None => self.persistent_index,
            },
            file_index: match partial.file_index {
                Some(v) => v,
                None => self.file_index,
            },
        }
    }

    /// The settings with the tildes in their paths replaced by the home directory, where it is known.
    pub fn expand_paths(self, home: Option<&str>) -> (r: Config)
        ensures
            paths_expanded(self, maybe(home), r),
    {
        Config {
            file_roots: expand_all(&self.file_roots, home),
            ignored_dirs: expand_all(&self.ignored_dirs, home),
            menus_dir: expand_in(self.menus_dir.as_str(), home),
            clipboard_image_dir: expand_in(self.clipboard_image_dir.as_str(), home),
            screenshot_dir: expand_in(self.screenshot_dir.as_str(), home),
            recording_dir: expand_in(self.recording_dir.as_str(), home),
            nix_flake: expand_in(self.nix_flake.as_str(), home),
            icon_cache_dir: expand_in(self.icon_cache_dir.as_str(), home),
            ..self
        }
    }

    /// The settings that apply: the defaults where there is no file, and otherwise the defaults
    /// with what the file holds laid over them and the paths expanded.
    pub fn load(at: &Surroundings, file: Option<PartialConfig>) -> (r: Config)
        ensures
            r.wf(),
            is_loaded(r, *at, file),
    {
        let base = Config::defaults(at);
        match file {
            None => base,
            Some(partial) => {
                let ghost b = base;
                let merged = base.merged(partial);
                let ghost m = merged;
                let r = merged.expand_paths(borrowed(&at.tilde));
                assert(is_default(b, *at) && is_merged(b, partial, m) && paths_expanded(
                    m,
                    owned(at.tilde),
                    r,
                ));
                r
            },
        }
    }
}

/// A setting that the file does not hold keeps its value, so an empty file changes nothing.
pub proof fn an_empty_file_changes_nothing(before: Config, partial: PartialConfig, after: Config)
    requires
        is_merged(before, partial, after),
        partial.socket is None,
        partial.file_roots is None,
        partial.ignored_dirs is None,
        partial.menus_dir is None,
        partial.launch_prefix is None,
        partial.terminal_cmd is None,
        partial.clipboard_max_items is None,
        partial.clipboard_image_dir is None,
        partial.clipboard_text_editor is None,
        partial.clipboard_image_editor is None,
        partial.clipboard_ocr is None,
        partial.localsend_receive is None,
        partial.localsend_download_dir is None,
        partial.localsend_alias is None,
        partial.screenshot_dir is None,
        partial.screenshot_filename is None,
        partial.screenshot_copy is None,
        partial.screenshot_save is None,
        partial.screenshot_notify is None,
        partial.ocr_language is None,
        partial.recording_dir is None,
        partial.recording_filename is None,
        partial.recording_notify is None,
        partial.recording_framerate is None,
        partial.nix_flake is None,
        partial.nix_check_interval_minutes is None,
        partial.nix_update_command is None,
        partial.nix_rebuild_command is None,
        partial.nix_hosts is None,
        partial.night_light_temperature is None,
        partial.nix_notify is None,
        partial.clipboard_capture_interval_ms is None,
        partial.runner_scan_path is None,
        partial.runner_commands is None,
        partial.provider_enabled is None,
        partial.provider_weights is None,
        partial.query_prefixes is None,
        partial.icon_theme is None,
        partial.icon_cache_dir is None,
        partial.thumbnail_cache_enabled is None,
        partial.persistent_index is None,
        partial.file_index is None,
    ensures
        after.socket == before.socket,
        after.file_roots == before.file_roots,
        after.ignored_dirs == before.ignored_dirs,
        after.menus_dir == before.menus_dir,
        after.launch_prefix == before.launch_prefix,
        after.terminal_cmd == before.terminal_cmd,
        after.clipboard_max_items == before.clipboard_max_items,
        after.clipboard_image_dir == before.clipboard_image_dir,
        after.clipboard_text_editor == before.clipboard_text_editor,
        after.clipboard_image_editor == before.clipboard_image_editor,
        after.clipboard_ocr == before.clipboard_ocr,
        after.localsend_receive == before.localsend_receive,
        after.localsend_download_dir == before.localsend_download_dir,
        after.localsend_alias == before.localsend_alias,
        after.screenshot_dir == before.screenshot_dir,
        after.screenshot_filename == before.screenshot_filename,
        after.screenshot_copy == before.screenshot_copy,
        after.screenshot_save == before.screenshot_save,
        after.screenshot_notify == before.screenshot_notify,
        after.ocr_language == before.ocr_language,
        after.recording_dir == before.recording_dir,
        after.recording_filename == before.recording_filename,
        after.recording_notify == before.recording_notify,
        after.recording_framerate == before.recording_framerate,
        after.nix_flake == before.nix_flake,
        after.nix_check_interval_minutes == before.nix_check_interval_minutes,
        after.nix_update_command == before.nix_update_command,
        after.nix_rebuild_command == before.nix_rebuild_command,
        after.nix_hosts == before.nix_hosts,
        after.night_light_temperature == before.night_light_temperature,
        after.nix_notify == before.nix_notify,
        after.clipboard_capture_interval_ms == before.clipboard_capture_interval_ms,
        after.runner_scan_path == before.runner_scan_path,
        after.runner_commands == before.runner_commands,
        after.icon_theme == before.icon_theme,
        after.icon_cache_dir == before.icon_cache_dir,
        after.thumbnail_cache_enabled == before.thumbnail_cache_enabled,
        after.persistent_index == before.persistent_index,
        after.file_index == before.file_index,
        after.provider_enabled@ == before.provider_enabled@,
        after.provider_weights@ == before.provider_weights@,
        after.query_prefixes@ == before.query_prefixes@,
{
}

/// Switching one provider off leaves the others as they were.
pub proof fn maps_are_extended_not_replaced(
    before: Config,
    partial: PartialConfig,
    after: Config,
    name: Seq<char>,
)
    requires
        is_merged(before, partial, after),
        before.provider_enabled@.dom().contains(name),
        partial.provider_enabled is None || !partial.provider_enabled->0@.dom().contains(name),
    ensures
        after.provider_enabled@.dom().contains(name),
        after.provider_enabled@[name] == before.provider_enabled@[name],
{
}

/// What the file says of a setting applies, and what it says of an entry of a map does too.
pub proof fn what_the_file_says_applies(
    before: Config,
    partial: PartialConfig,
    after: Config,
    name: Seq<char>,
)
    requires
        is_merged(before, partial, after),
    ensures
        partial.socket is Some ==> after.socket == partial.socket->0,
        partial.file_roots is Some ==> after.file_roots == partial.file_roots->0,
        partial.ignored_dirs is Some ==> after.ignored_dirs == partial.ignored_dirs->0,
        partial.menus_dir is Some ==> after.menus_dir == partial.menus_dir->0,
        partial.launch_prefix is Some ==> after.launch_prefix == partial.launch_prefix->0,
        partial.terminal_cmd is Some ==> after.terminal_cmd == partial.terminal_cmd->0,
        partial.clipboard_max_items is Some ==> after.clipboard_max_items == partial.clipboard_max_items->0,
        partial.clipboard_image_dir is Some ==> after.clipboard_image_dir == partial.clipboard_image_dir->0,
        partial.clipboard_text_editor is Some ==> after.clipboard_text_editor == partial.clipboard_text_editor->0,
        partial.clipboard_image_editor is Some ==> after.clipboard_image_editor == partial.clipboard_image_editor->0,
        partial.clipboard_ocr is Some ==> after.clipboard_ocr == partial.clipboard_ocr->0,
        partial.localsend_receive is Some ==> after.localsend_receive == partial.localsend_receive->0,
        partial.localsend_download_dir is Some ==> after.localsend_download_dir == partial.localsend_download_dir->0,
        partial.localsend_alias is Some ==> after.localsend_alias == partial.localsend_alias->0,
        partial.screenshot_dir is Some ==> after.screenshot_dir == partial.screenshot_dir->0,
        partial.screenshot_filename is Some ==> after.screenshot_filename == partial.screenshot_filename->0,
        partial.screenshot_copy is Some ==> after.screenshot_copy == partial.screenshot_copy->0,
        partial.screenshot_save is Some ==> after.screenshot_save == partial.screenshot_save->0,
        partial.screenshot_notify is Some ==> after.screenshot_notify == partial.screenshot_notify->0,
        partial.ocr_language is Some ==> after.ocr_language == partial.ocr_language->0,
        partial.recording_dir is Some ==> after.recording_dir == partial.recording_dir->0,
        partial.recording_filename is Some ==> after.recording_filename == partial.recording_filename->0,
        partial.recording_notify is Some ==> after.recording_notify == partial.recording_notify->0,
        partial.recording_framerate is Some ==> after.recording_framerate == partial.recording_framerate->0,
        partial.nix_flake is Some ==> after.nix_flake == partial.nix_flake->0,
        partial.nix_check_interval_minutes is Some ==> after.nix_check_interval_minutes == partial.nix_check_interval_minutes->0,
        partial.nix_update_command is Some ==> after.nix_update_command == partial.nix_update_command->0,
        partial.nix_rebuild_command is Some ==> after.nix_rebuild_command == partial.nix_rebuild_command->0,
        partial.nix_hosts is Some ==> after.nix_hosts == partial.nix_hosts->0,
        partial.night_light_temperature is Some ==> after.night_light_temperature == partial.night_light_temperature->0,
        partial.nix_notify is Some ==> after.nix_notify == partial.nix_notify->0,
        partial.clipboard_capture_interval_ms is Some ==> after.clipboard_capture_interval_ms == partial.clipboard_capture_interval_ms->0,
        partial.runner_scan_path is Some ==> after.runner_scan_path == partial.runner_scan_path->0,
        partial.runner_commands is Some ==> after.runner_commands == partial.runner_commands->0,
        partial.icon_theme is Some ==> after.icon_theme == partial.icon_theme->0,
        partial.icon_cache_dir is Some ==> after.icon_cache_dir == partial.icon_cache_dir->0,
        partial.thumbnail_cache_enabled is Some ==> after.thumbnail_cache_enabled == partial.thumbnail_cache_enabled->0,
        partial.persistent_index is Some ==> after.persistent_index == partial.persistent_index->0,
        partial.file_index is Some ==> after.file_index == partial.file_index->0,
        partial.provider_enabled is Some && partial.provider_enabled->0@.dom().contains(name)
            ==> after.provider_enabled@.dom().contains(name) && after.provider_enabled@[name]
            == partial.provider_enabled->0@[name],
        partial.provider_weights is Some && partial.provider_weights->0@.dom().contains(name)
            ==> after.provider_weights@.dom().contains(name) && after.provider_weights@[name]
            == partial.provider_weights->0@[name],
        partial.query_prefixes is Some && partial.query_prefixes->0@.dom().contains(name)
            ==> after.query_prefixes@.dom().contains(name) && after.query_prefixes@[name]
            == partial.query_prefixes->0@[name],
{
}

/// A map keeps the entries that the file does not speak of.
pub proof fn entries_stay_that_the_file_does_not_name(
    before: Config,
    partial: PartialConfig,
    after: Config,
    name: Seq<char>,
)
    requires
        is_merged(before, partial, after),
    ensures
        !(partial.provider_weights is Some && partial.provider_weights->0@.dom().contains(name))
            && before.provider_weights@.dom().contains(name)
            ==> after.provider_weights@.dom().contains(name) && after.provider_weights@[name]
            == before.provider_weights@[name],
        !(partial.query_prefixes is Some && partial.query_prefixes->0@.dom().contains(name))
            && before.query_prefixes@.dom().contains(name)
            ==> after.query_prefixes@.dom().contains(name) && after.query_prefixes@[name]
            == before.query_prefixes@[name],
{
}

/// A tilde before a slash becomes the home directory, and a path without one stays as it is. What is
/// no path is not touched.
pub proof fn a_tilde_is_the_home(before: Config, home: Seq<char>, after: Config, rest: Seq<char>)
    requires
        paths_expanded(before, Some(home), after),
    ensures
        before.screenshot_dir@ == "~/"@ + rest ==> after.screenshot_dir@ == home + "/"@ + rest,
        before.recording_dir@ == "~/"@ + rest ==> after.recording_dir@ == home + "/"@ + rest,
        before.menus_dir@ == "~/"@ + rest ==> after.menus_dir@ == home + "/"@ + rest,
        before.nix_flake@ == "~/"@ + rest ==> after.nix_flake@ == home + "/"@ + rest,
        before.icon_cache_dir@ == "~/"@ + rest ==> after.icon_cache_dir@ == home + "/"@ + rest,
        before.clipboard_image_dir@ == "~/"@ + rest ==> after.clipboard_image_dir@ == home + "/"@
            + rest,
        before.screenshot_dir@ == "/"@ + rest ==> after.screenshot_dir@ == before.screenshot_dir@,
        before.recording_dir@ == "/"@ + rest ==> after.recording_dir@ == before.recording_dir@,
        before.menus_dir@ == "/"@ + rest ==> after.menus_dir@ == before.menus_dir@,
        before.nix_flake@ == "/"@ + rest ==> after.nix_flake@ == before.nix_flake@,
        forall|k: int|
            0 <= k < before.file_roots@.len() && (#[trigger] before.file_roots@[k])@ == "~/"@ + rest
                ==> after.file_roots@[k]@ == home + "/"@ + rest,
        after.file_roots@.len() == before.file_roots@.len(),
        after.socket == before.socket,
        after.launch_prefix == before.launch_prefix,
        after.terminal_cmd == before.terminal_cmd,
        after.provider_enabled == before.provider_enabled,
        after.query_prefixes == before.query_prefixes,
{
    reveal_strlit("~/");
    reveal_strlit("/");
    let path = "~/"@ + rest;
    assert(path[0] == '~' && path[1] == '/');
    assert(path.skip(1) =~= "/"@ + rest);
    assert(home + path.skip(1) =~= home + "/"@ + rest);
    assert(("/"@ + rest)[0] == '/');
}

/// By default everything lies where a user looks for it: within the home directory, under the usual
/// names.
pub proof fn the_defaults_lie_at_home(r: Config, at: Surroundings, home: Seq<char>)
    requires
        is_default(r, at),
        at.home is Some,
        (at.home->0)@ == home,
        home.len() > 0,
        home.last() != '/',
    ensures
        texts(r.file_roots@) == seq![home],
        r.menus_dir@ == home + "/"@ + ".config/epochoxide/menus"@,
        r.screenshot_dir@ == home + "/"@ + "Pictures/Screenshots"@,
        r.recording_dir@ == home + "/"@ + "Videos/Recordings"@,
        texts(r.ignored_dirs@)[0] == home + "/"@ + ".cache"@,
        texts(r.ignored_dirs@)[1] == home + "/"@ + ".local/share/Trash"@,
        at.runtime_dir is None ==> r.socket@ == "/tmp/epochoxide.sock"@,
{
    reveal_strlit("/");
    reveal_strlit(".config/epochoxide/menus");
    reveal_strlit("Pictures/Screenshots");
    reveal_strlit("Videos/Recordings");
    reveal_strlit(".cache");
    reveal_strlit(".local/share/Trash");
    is_within(home, ".config/epochoxide/menus"@);
    is_within(home, "Pictures/Screenshots"@);
    is_within(home, "Videos/Recordings"@);
    is_within(home, ".cache"@);
    is_within(home, ".local/share/Trash"@);
}

/// A name without a slash at its start stands within a directory.
proof fn is_within(dir: Seq<char>, name: Seq<char>)
    requires
        dir.len() > 0,
        dir.last() != '/',
        name.len() > 0,
        name[0] != '/',
    ensures
        joined_path(dir, name) == dir + "/"@ + name,
{
    reveal_strlit("/");
    if crate::text::begins_with(name, "/"@) {
        assert(name.subrange(0, 1)[0] == name[0]);
    }
}

/// By default every provider is on, and each prefix leads to one that is.
pub proof fn every_provider_is_on(r: Config, at: Surroundings)
    requires
        is_default(r, at),
    ensures
        forall|name: Seq<char>| #[trigger]
            r.provider_enabled@.dom().contains(name) ==> r.provider_enabled@[name],
        r.provider_enabled@.dom().contains("apps"@),
        r.provider_enabled@.dom().contains("files"@),
        r.provider_enabled@.dom().contains("runner"@),
        r.provider_enabled@.dom().contains("clipboard"@),
        r.provider_enabled@.dom().contains("windows"@),
        r.provider_enabled@.dom().contains("calc"@),
        r.provider_enabled@.dom().contains("menus"@),
        forall|prefix: Seq<char>| #[trigger]
            text_values(r.query_prefixes@).dom().contains(prefix)
                ==> r.provider_enabled@.dom().contains(text_values(r.query_prefixes@)[prefix]),
{
}

/// The settings that apply say what the file says, and what is usual where it is silent.
pub proof fn the_settings_are_those_of_the_file(r: Config, at: Surroundings, partial: PartialConfig)
    requires
        is_loaded(r, at, Some(partial)),
    ensures
        partial.launch_prefix is Some ==> r.launch_prefix == partial.launch_prefix->0,
        partial.launch_prefix is None ==> r.launch_prefix@.len() == 0,
        partial.clipboard_max_items is Some ==> r.clipboard_max_items
            == partial.clipboard_max_items->0,
        partial.clipboard_max_items is None ==> r.clipboard_max_items == 100,
        partial.recording_framerate is Some ==> r.recording_framerate
            == partial.recording_framerate->0,
        partial.recording_framerate is None ==> r.recording_framerate == 30,
        partial.night_light_temperature is Some ==> r.night_light_temperature
            == partial.night_light_temperature->0,
        partial.night_light_temperature is None ==> r.night_light_temperature == 4000,
        partial.nix_check_interval_minutes is Some ==> r.nix_check_interval_minutes
            == partial.nix_check_interval_minutes->0,
        partial.nix_check_interval_minutes is None ==> r.nix_check_interval_minutes == 60,
        partial.screenshot_copy is Some ==> r.screenshot_copy == partial.screenshot_copy->0,
        partial.screenshot_copy is None ==> r.screenshot_copy,
        partial.clipboard_ocr is Some ==> r.clipboard_ocr == partial.clipboard_ocr->0,
        partial.clipboard_ocr is None ==> !r.clipboard_ocr,
        partial.file_index is Some ==> r.file_index == partial.file_index->0,
        partial.file_index is None ==> r.file_index == FileIndex::Auto,
{
}

/// By default applications are raised most, then commands, calculations and windows; files and the
/// clipboard are not raised.
pub proof fn applications_are_raised_most(r: Config, at: Surroundings)
    requires
        is_default(r, at),
    ensures
        r.provider_weights@["apps"@] == 20_000,
        r.provider_weights@["runner"@] == 12_000,
        r.provider_weights@["calc"@] == 10_000,
        r.provider_weights@["windows"@] == 6_000,
        r.provider_weights@["files"@] == 0,
        r.provider_weights@["clipboard"@] == 0,
        text_values(r.query_prefixes@)[">"@] == "runner"@,
        text_values(r.query_prefixes@)["/"@] == "files"@,
        text_values(r.query_prefixes@)["#"@] == "clipboard"@,
        text_values(r.query_prefixes@)["@"@] == "windows"@,
        text_values(r.query_prefixes@)["="@] == "calc"@,
{
    reveal_strlit("apps");
    reveal_strlit("runner");
    reveal_strlit("calc");
    reveal_strlit("windows");
    reveal_strlit("files");
    reveal_strlit("clipboard");
    assert("apps"@.len() == 4 && "runner"@.len() == 6 && "calc"@.len() == 4);
    assert("windows"@.len() == 7 && "files"@.len() == 5 && "clipboard"@.len() == 9);
    assert("apps"@[0] == 'a' && "calc"@[0] == 'c');
    reveal_strlit(">");
    reveal_strlit("/");
    reveal_strlit("#");
    reveal_strlit("@");
    reveal_strlit("=");
    assert(">"@[0] == '>' && "/"@[0] == '/' && "#"@[0] == '#' && "@"@[0] == '@' && "="@[0] == '=');
}

/// By default what others keep in the home directory is left out of the search, and so is what tools
/// leave in projects.
pub proof fn caches_are_left_out(r: Config, at: Surroundings)
    requires
        is_default(r, at),
    ensures
        texts(r.ignored_dirs@).len() == 13,
        texts(r.ignored_dirs@)[2] == joined_path(home_of(at), ".cargo/registry"@),
        texts(r.ignored_dirs@)[3] == joined_path(home_of(at), ".rustup"@),
        texts(r.ignored_dirs@)[4] == joined_path(home_of(at), ".npm"@),
        texts(r.ignored_dirs@)[5] == joined_path(home_of(at), ".pnpm-store"@),
        texts(r.ignored_dirs@)[6] == joined_path(home_of(at), ".var/app"@),
        texts(r.ignored_dirs@).skip(7) == seq![
            ".git"@,
            "node_modules"@,
            "target"@,
            "dist"@,
            "build"@,
            ".direnv"@,
        ],
{
    assert(texts(r.ignored_dirs@).skip(7) =~= seq![
        ".git"@,
        "node_modules"@,
        "target"@,
        "dist"@,
        "build"@,
        ".direnv"@,
    ]);
}

} // verus!
