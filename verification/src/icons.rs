//! Icons of a theme, and thumbnails.

use vstd::prelude::*;
use vstd::string::*;
use vstd::utf8::*;

use crate::bytes::{hex_lower, hex_lower_of};
use crate::config::Config;
use crate::keyed::TextMap;
use crate::path::{extension_of, file_name, file_name_of, join_path, joined_path, split_extension};
use crate::text::{
    after_first, before_first, begins_with, contains, first_of, has, is_in, lines, lines_of,
    list_has, lower_of, lowercase, maybe, occurs_at, same, shell_quote, shell_quoted, split,
    split_first, split_on, starts, texts, trim, trim_of,
};

verus! {

/// What the settings say of icons.
#[derive(Debug)]
pub struct IconSettings {
    /// The theme in which icons are looked for first.
    pub theme: String,
    /// Where icons and thumbnails are kept.
    pub cache_dir: String,
    /// Whether thumbnails are made.
    pub thumbnails: bool,
}

/// What the settings say of icons, as contracts speak of it.
#[verifier::ext_equal]
pub struct IconModel {
    pub theme: Seq<char>,
    pub cache_dir: Seq<char>,
    pub thumbnails: bool,
}

/// What the settings say of icons.
pub open spec fn icons_of(config: Config) -> IconModel {
    IconModel {
        theme: config.icon_theme@,
        cache_dir: config.icon_cache_dir@,
        thumbnails: config.thumbnail_cache_enabled,
    }
}

impl View for IconSettings {
    type V = IconModel;

    open spec fn view(&self) -> IconModel {
        IconModel {
            theme: self.theme@,
            cache_dir: self.cache_dir@,
            thumbnails: self.thumbnails,
        }
    }
}

impl IconSettings {
    /// What the settings say of icons.
    pub fn of(config: &Config) -> (r: IconSettings)
        ensures
            r@ == icons_of(*config),
    {
        IconSettings {
            theme: config.icon_theme.as_str().to_owned(),
            cache_dir: config.icon_cache_dir.as_str().to_owned(),
            thumbnails: config.thumbnail_cache_enabled,
        }
    }
}

/// What a theme says of itself.
#[derive(Debug)]
pub struct ThemeIndex {
    pub inherits: Vec<String>,
    pub directories: Vec<String>,
}

/// What is known of a theme after some lines of its index.
#[verifier::ext_equal]
pub struct IndexModel {
    /// Whether the lines are in the part on the theme itself.
    pub inside: bool,
    pub inherits: Seq<Seq<char>>,
    pub directories: Seq<Seq<char>>,
}

/// The parts of a list that are not empty.
pub open spec fn list_parts(value: Seq<char>) -> Seq<Seq<char>> {
    split_on(value, ',').filter(|p: Seq<char>| p.len() > 0)
}

/// The parts of a list that are not empty.
pub fn split_list(value: &str) -> (r: Vec<String>)
    ensures
        texts(r@) == list_parts(value@),
{
    let parts = split(value, ',');
    let ghost all = texts(parts@);
    let ghost keep = |p: Seq<char>| p.len() > 0;
    let mut out: Vec<String> = Vec::new();
    let mut i: usize = 0;
    reveal(Seq::filter);
    assert(all.take(0).filter(keep) =~= Seq::empty());
    assert(texts(out@) =~= Seq::empty());
    while i < parts.len()
        invariant
            all == texts(parts@),
            keep == (|p: Seq<char>| p.len() > 0),
            i <= parts@.len(),
            texts(out@) == all.take(i as int).filter(keep),
        decreases parts.len() - i,
    {
        reveal(Seq::filter);
        let ghost before = texts(out@);
        assert(all.take(i + 1).drop_last() =~= all.take(i as int));
        assert(all.take(i + 1).last() == parts@[i as int]@);
        if !parts[i].as_str().is_empty() {
            out.push(parts[i].as_str().to_owned());
            assert(texts(out@) =~= before.push(parts@[i as int]@));
        }
        i += 1;
    }
    assert(all.take(i as int) =~= all);
    out
}

/// What one more line adds to what is known of a theme.
pub open spec fn after_line(before: IndexModel, raw: Seq<char>) -> IndexModel {
    let line = trim_of(raw);
    if line == "[Icon Theme]"@ {
        IndexModel { inside: true, ..before }
    } else if begins_with(line, "["@) {
        IndexModel { inside: false, ..before }
    } else if before.inside && first_of(line, '=') < line.len() {
        let key = before_first(line, '=');
        if key == "Inherits"@ {
            IndexModel { inherits: list_parts(after_first(line, '=')), ..before }
        } else if key == "Directories"@ {
            IndexModel { directories: list_parts(after_first(line, '=')), ..before }
        } else {
            before
        }
    } else {
        before
    }
}

/// What some lines say of a theme.
pub open spec fn index_in(lines: Seq<Seq<char>>) -> IndexModel
    decreases lines.len(),
{
    if lines.len() == 0 {
        IndexModel { inside: false, inherits: Seq::empty(), directories: Seq::empty() }
    } else {
        after_line(index_in(lines.drop_last()), lines.last())
    }
}

/// Reads the index of a theme.
pub fn read_theme_index(raw: &str) -> (r: ThemeIndex)
    ensures
        texts(r.inherits@) == index_in(lines_of(raw@)).inherits,
        texts(r.directories@) == index_in(lines_of(raw@)).directories,
{
    let all_lines = lines(raw);
    let ghost all = texts(all_lines@);
    let mut inside = false;
    let mut inherits: Vec<String> = Vec::new();
    let mut directories: Vec<String> = Vec::new();
    assert(all.take(0) =~= Seq::empty());
    assert(texts(inherits@) =~= Seq::empty());
    assert(texts(directories@) =~= Seq::empty());
    let mut i: usize = 0;
    while i < all_lines.len()
        invariant
            all == texts(all_lines@),
            i <= all_lines@.len(),
            index_in(all.take(i as int)) == (IndexModel {
                inside,
                inherits: texts(inherits@),
                directories: texts(directories@),
            }),
        decreases all_lines.len() - i,
    {
        assert(all.take(i + 1).drop_last() =~= all.take(i as int));
        assert(all.take(i + 1).last() == all_lines@[i as int]@);
        let line = trim(all_lines[i].as_str());
        if same(line.as_str(), "[Icon Theme]") {
            inside = true;
        } else if starts(line.as_str(), "[") {
            inside = false;
        } else if inside {
            if let (key, Some(value)) = split_first(line.as_str(), '=') {
                if same(key.as_str(), "Inherits") {
                    inherits = split_list(value.as_str());
                } else if same(key.as_str(), "Directories") {
                    directories = split_list(value.as_str());
                }
            }
        }
        i += 1;
    }
    assert(all.take(i as int) =~= all);
    ThemeIndex { inherits, directories }
}

/// Where themes are looked for.
pub open spec fn theme_bases(data: Option<Seq<char>>, cache: Seq<char>) -> Seq<Seq<char>> {
    let first = match data {
        Some(directory) => seq![joined_path(directory, "icons"@)],
        None => Seq::empty(),
    };
    let second = if cache.len() > 0 {
        first.push(cache)
    } else {
        first
    };
    second.push("/usr/share/icons"@)
}

/// The search through a theme and those that it inherits from. Whoever runs it reads the index of
/// each theme that comes next.
#[derive(Debug)]
pub struct ThemeSearch {
    /// Where themes are looked for.
    pub bases: Vec<String>,
    /// The themes still to come, the next of them last.
    pub queue: Vec<String>,
    /// The themes that came.
    pub seen: Vec<String>,
    /// The directories with icons, in the order in which they are searched.
    pub directories: Vec<String>,
}

/// The themes that are left when those at the end that came already are passed over.
pub open spec fn still_to_come(queue: Seq<Seq<char>>, seen: Seq<String>) -> Seq<Seq<char>>
    decreases queue.len(),
{
    if queue.len() > 0 && is_in(seen, queue.last()) {
        still_to_come(queue.drop_last(), seen)
    } else {
        queue
    }
}

/// Each directory of a theme within the root of the theme.
pub open spec fn within(root: Seq<char>, directories: Seq<Seq<char>>) -> Seq<Seq<char>> {
    directories.map_values(|d: Seq<char>| joined_path(root, d))
}

impl ThemeSearch {
    /// Starts the search at the configured theme.
    pub fn new(settings: &IconSettings, data: Option<&str>) -> (r: ThemeSearch)
        ensures
            texts(r.bases@) == theme_bases(maybe(data), settings.cache_dir@),
            texts(r.queue@) == seq![
                if settings.theme@.len() > 0 {
                    settings.theme@
                } else {
                    "hicolor"@
                },
            ],
            r.seen@.len() == 0,
            r.directories@.len() == 0,
    {
        let mut bases: Vec<String> = Vec::new();
        if let Some(directory) = data {
            bases.push(join_path(directory, "icons"));
        }
        if !settings.cache_dir.as_str().is_empty() {
            bases.push(settings.cache_dir.as_str().to_owned());
        }
        bases.push("/usr/share/icons".to_owned());
        assert(texts(bases@) =~= theme_bases(maybe(data), settings.cache_dir@));
        let start = if settings.theme.as_str().is_empty() {
            "hicolor".to_owned()
        } else {
            settings.theme.as_str().to_owned()
        };
        let mut queue: Vec<String> = Vec::new();
        queue.push(start);
        assert(texts(queue@) =~= seq![start@]);
        ThemeSearch { bases, queue, seen: Vec::new(), directories: Vec::new() }
    }

    /// The theme that comes next. None comes twice.
    pub fn next(&mut self) -> (r: Option<String>)
        ensures
            ({
                let left = still_to_come(texts(old(self).queue@), old(self).seen@);
                match r {
                    Some(theme) => {
                        &&& left.len() > 0
                        &&& theme@ == left.last()
                        &&& !is_in(old(self).seen@, theme@)
                        &&& texts(final(self).queue@) == left.drop_last()
                        &&& texts(final(self).seen@) == texts(old(self).seen@).push(theme@)
                    },
                    None => {
                        &&& left.len() == 0
                        &&& final(self).queue@.len() == 0
                        &&& final(self).seen@ == old(self).seen@
                    },
                }
            }),
            final(self).bases@ == old(self).bases@,
            final(self).directories@ == old(self).directories@,
    {
        let ghost start = texts(self.queue@);
        while self.queue.len() > 0
            invariant
                self.seen@ == old(self).seen@,
                self.bases@ == old(self).bases@,
                self.directories@ == old(self).directories@,
                start == texts(old(self).queue@),
                still_to_come(start, self.seen@) == still_to_come(texts(self.queue@), self.seen@),
            decreases self.queue@.len(),
        {
            let ghost whole = texts(self.queue@);
            if let Some(theme) = self.queue.pop() {
                assert(whole.last() == theme@);
                assert(whole.drop_last() =~= texts(self.queue@));
                if !list_has(&self.seen, theme.as_str()) {
                    let ghost before = texts(self.seen@);
                    self.seen.push(theme.as_str().to_owned());
                    assert(texts(self.seen@) =~= before.push(theme@));
                    return Some(theme);
                }
            }
        }
        assert(texts(self.queue@) =~= Seq::empty());
        None
    }

    /// Where the index of a theme can be.
    pub fn roots(&self, theme: &str) -> (r: Vec<String>)
        ensures
            texts(r@) == texts(self.bases@).map_values(|b: Seq<char>| joined_path(b, theme@)),
    {
        let ghost all = texts(self.bases@).map_values(|b: Seq<char>| joined_path(b, theme@));
        let mut out: Vec<String> = Vec::new();
        let mut i: usize = 0;
        while i < self.bases.len()
            invariant
                all == texts(self.bases@).map_values(|b: Seq<char>| joined_path(b, theme@)),
                i <= self.bases@.len(),
                texts(out@) == all.take(i as int),
            decreases self.bases.len() - i,
        {
            let ghost before = texts(out@);
            assert(texts(self.bases@)[i as int] == self.bases@[i as int]@);
            out.push(join_path(self.bases[i].as_str(), theme));
            assert(texts(out@) =~= before.push(all[i as int]));
            assert(all.take(i + 1) =~= before.push(all[i as int]));
            i += 1;
        }
        assert(all.take(i as int) =~= all);
        out
    }

    /// Adds the directories of a theme.
    pub fn add_directories(&mut self, root: &str, index: &ThemeIndex)
        ensures
            texts(final(self).directories@) == texts(old(self).directories@) + within(
                root@,
                texts(index.directories@),
            ),
            final(self).bases@ == old(self).bases@,
            final(self).queue@ == old(self).queue@,
            final(self).seen@ == old(self).seen@,
    {
        let ghost start = texts(self.directories@);
        let ghost all = within(root@, texts(index.directories@));
        let mut i: usize = 0;
        assert(start + all.take(0) =~= start);
        while i < index.directories.len()
            invariant
                all == within(root@, texts(index.directories@)),
                start == texts(old(self).directories@),
                i <= index.directories@.len(),
                texts(self.directories@) == start + all.take(i as int),
                self.bases@ == old(self).bases@,
                self.queue@ == old(self).queue@,
                self.seen@ == old(self).seen@,
            decreases index.directories.len() - i,
        {
            let ghost before = texts(self.directories@);
            assert(texts(index.directories@)[i as int] == index.directories@[i as int]@);
            self.directories.push(join_path(root, index.directories[i].as_str()));
            assert(texts(self.directories@) =~= before.push(all[i as int]));
            assert(start + all.take(i + 1) =~= before.push(all[i as int]));
            i += 1;
        }
        assert(all.take(i as int) =~= all);
    }

    /// Takes up a theme: its directories, and the themes that it inherits from.
    pub fn enter(&mut self, root: &str, index: &ThemeIndex)
        ensures
            texts(final(self).directories@) == texts(old(self).directories@) + within(
                root@,
                texts(index.directories@),
            ),
            texts(final(self).queue@) == texts(old(self).queue@) + texts(index.inherits@),
            final(self).bases@ == old(self).bases@,
            final(self).seen@ == old(self).seen@,
    {
        self.add_directories(root, index);
        let ghost start = texts(self.queue@);
        let ghost all = texts(index.inherits@);
        let mut i: usize = 0;
        assert(start + all.take(0) =~= start);
        while i < index.inherits.len()
            invariant
                all == texts(index.inherits@),
                start == texts(old(self).queue@),
                i <= index.inherits@.len(),
                texts(self.queue@) == start + all.take(i as int),
                texts(self.directories@) == texts(old(self).directories@) + within(
                    root@,
                    texts(index.directories@),
                ),
                self.bases@ == old(self).bases@,
                self.seen@ == old(self).seen@,
            decreases index.inherits.len() - i,
        {
            let ghost before = texts(self.queue@);
            self.queue.push(index.inherits[i].as_str().to_owned());
            assert(texts(self.queue@) =~= before.push(all[i as int]));
            assert(start + all.take(i + 1) =~= before.push(all[i as int]));
            i += 1;
        }
        assert(all.take(i as int) =~= all);
    }

    /// Whether the theme that every other falls back on is still to be looked at, once no more come.
    pub fn falls_back(&self) -> (r: bool)
        ensures
            r == !is_in(self.seen@, "hicolor"@),
    {
        !list_has(&self.seen, "hicolor")
    }

    /// The directories that are searched: those of the themes, and then those around them.
    pub fn finish(self) -> (r: Vec<String>)
        ensures
            texts(r@) == texts(self.directories@) + texts(self.bases@) + seq![
                "/usr/share/pixmaps"@,
            ],
    {
        let ThemeSearch { bases, queue, seen, directories } = self;
        let mut bases = bases;
        let mut out = directories;
        let ghost first = texts(out@);
        let ghost second = texts(bases@);
        out.append(&mut bases);
        assert(texts(out@) =~= first + second);
        out.push("/usr/share/pixmaps".to_owned());
        assert(texts(out@) =~= first + second + seq!["/usr/share/pixmaps"@]);
        out
    }
}

/// Finds icons by name, and remembers what was found.
#[derive(Debug)]
pub struct IconResolver {
    pub search_dirs: Vec<String>,
    pub cache: TextMap<Option<String>>,
}

/// How an icon is found.
#[derive(Debug)]
pub enum Lookup {
    /// It is known: where it is, or that there is none.
    Known(Option<String>),
    /// It is the file at this path, where there is one.
    File(String),
    /// It is the first of these paths at which there is a file, and what comes of it is remembered.
    Search(Vec<String>),
}

/// The file names that an icon can have.
pub open spec fn names_of(icon: Seq<char>) -> Seq<Seq<char>> {
    if has(icon, "."@) {
        seq![icon]
    } else {
        seq![icon + ".png"@, icon + ".svg"@, icon + ".xpm"@]
    }
}

/// The file names that an icon can have.
pub fn icon_names(icon: &str) -> (r: Vec<String>)
    ensures
        texts(r@) == names_of(icon@),
{
    let mut out: Vec<String> = Vec::new();
    if contains(icon, ".") {
        out.push(icon.to_owned());
    } else {
        let mut png = icon.to_owned();
        png.append(".png");
        let mut svg = icon.to_owned();
        svg.append(".svg");
        let mut xpm = icon.to_owned();
        xpm.append(".xpm");
        out.push(png);
        out.push(svg);
        out.push(xpm);
    }
    assert(texts(out@) =~= names_of(icon@));
    out
}

/// Where an icon can be: in each directory under each of its names.
pub open spec fn icon_paths(dirs: Seq<Seq<char>>, names: Seq<Seq<char>>) -> Seq<Seq<char>>
    decreases dirs.len(),
{
    if dirs.len() == 0 {
        Seq::empty()
    } else {
        icon_paths(dirs.drop_last(), names) + within(dirs.last(), names)
    }
}

impl IconResolver {
    /// Whether the cache holds no icon twice.
    pub open spec fn wf(&self) -> bool {
        self.cache.wf()
    }

    /// A resolver that knows nothing yet.
    pub fn new(search_dirs: Vec<String>) -> (r: IconResolver)
        ensures
            r.wf(),
            r.search_dirs == search_dirs,
            r.cache@ == Map::<Seq<char>, Option<String>>::empty(),
    {
        IconResolver { search_dirs, cache: TextMap::new() }
    }

    /// How an icon is found.
    pub open spec fn is_found(self, r: Lookup, icon: Seq<char>) -> bool {
        if icon.len() == 0 {
            r == Lookup::Known(None)
        } else if icon[0] == '/' {
            r matches Lookup::File(path) && path@ == icon
        } else if self.cache@.dom().contains(icon) {
            match self.cache@[icon] {
                Some(known) => r matches Lookup::Known(Some(path)) && path@ == known@,
                None => r == Lookup::Known(None),
            }
        } else {
            r matches Lookup::Search(paths) && texts(paths@) == icon_paths(
                texts(self.search_dirs@),
                names_of(icon),
            )
        }
    }

    /// How an icon is found. A path is one by itself, and a name is searched for once.
    pub fn resolve(&self, icon: &str) -> (r: Lookup)
        ensures
            self.is_found(r, icon@),
    {
        if icon.is_empty() {
            return Lookup::Known(None);
        }
        proof {
            reveal_strlit("/");
            assert(icon@.take(1) =~= seq![icon@[0]]);
            assert("/"@ =~= seq!['/']);
            assert(begins_with(icon@, "/"@) <==> icon@[0] == '/') by {
                if icon@[0] == '/' {
                    assert(icon@.subrange(0, 1) =~= "/"@);
                }
                if begins_with(icon@, "/"@) {
                    assert(icon@.subrange(0, 1)[0] == '/');
                }
            }
        }
        if starts(icon, "/") {
            return Lookup::File(icon.to_owned());
        }
        match self.cache.get(icon) {
            Some(Some(known)) => Lookup::Known(Some(known.as_str().to_owned())),
            Some(None) => Lookup::Known(None),
            None => Lookup::Search(self.paths(icon)),
        }
    }

    /// Where an icon can be.
    fn paths(&self, icon: &str) -> (r: Vec<String>)
        ensures
            texts(r@) == icon_paths(texts(self.search_dirs@), names_of(icon@)),
    {
        let names = icon_names(icon);
        let ghost dirs = texts(self.search_dirs@);
        let mut out: Vec<String> = Vec::new();
        assert(dirs.take(0) =~= Seq::empty());
        assert(texts(out@) =~= Seq::empty());
        let mut i: usize = 0;
        while i < self.search_dirs.len()
            invariant
                dirs == texts(self.search_dirs@),
                texts(names@) == names_of(icon@),
                i <= self.search_dirs@.len(),
                texts(out@) == icon_paths(dirs.take(i as int), names_of(icon@)),
            decreases self.search_dirs.len() - i,
        {
            let ghost start = texts(out@);
            let ghost all = within(dirs[i as int], names_of(icon@));
            assert(dirs.take(i + 1).drop_last() =~= dirs.take(i as int));
            let mut k: usize = 0;
            assert(start + all.take(0) =~= start);
            while k < names.len()
                invariant
                    i < self.search_dirs@.len(),
                    dirs == texts(self.search_dirs@),
                    texts(names@) == names_of(icon@),
                    all == within(dirs[i as int], names_of(icon@)),
                    k <= names@.len(),
                    texts(out@) == start + all.take(k as int),
                decreases names.len() - k,
            {
                let ghost before = texts(out@);
                assert(names_of(icon@)[k as int] == names@[k as int]@);
                assert(names_of(icon@).len() == names@.len());
                out.push(join_path(self.search_dirs[i].as_str(), names[k].as_str()));
                assert(texts(out@) =~= before.push(all[k as int]));
                assert(start + all.take(k + 1) =~= before.push(all[k as int]));
                k += 1;
            }
            assert(texts(names@).len() == names@.len());
            assert(all.take(k as int) =~= all);
            i += 1;
        }
        assert(dirs.take(i as int) =~= dirs);
        out
    }

    /// Remembers what a search for an icon found.
    pub fn remember(&mut self, icon: &str, found: Option<String>)
        requires
            old(self).wf(),
        ensures
            final(self).wf(),
            final(self).search_dirs == old(self).search_dirs,
            final(self).cache@ == old(self).cache@.insert(icon@, found),
    {
        self.cache.insert(icon.to_owned(), found);
    }
}

/// An icon that was searched for is not searched for again.
pub proof fn an_icon_is_searched_for_once(
    before: IconResolver,
    after: IconResolver,
    icon: Seq<char>,
    found: Option<String>,
    r: Lookup,
)
    requires
        icon.len() > 0,
        icon[0] != '/',
        after.cache@ == before.cache@.insert(icon, found),
        after.is_found(r, icon),
    ensures
        match found {
            Some(path) => r matches Lookup::Known(Some(known)) && known@ == path@,
            None => r == Lookup::Known(None),
        },
{
}

/// The stamp of bytes: each is mixed in, and the whole is multiplied and cut to 32 bits.
pub open spec fn stamp_of(bytes: Seq<u8>) -> u32
    decreases bytes.len(),
{
    if bytes.len() == 0 {
        0x811c_9dc5
    } else {
        (((stamp_of(bytes.drop_last()) ^ (bytes.last() as u32)) as nat * 0x0100_0193)
            % 0x1_0000_0000) as u32
    }
}

/// A number as four bytes, the most significant first.
pub open spec fn four_bytes(n: u32) -> Seq<u8> {
    seq![
        (n / 0x100_0000) as u8,
        (n / 0x1_0000 % 0x100) as u8,
        (n / 0x100 % 0x100) as u8,
        (n % 0x100) as u8,
    ]
}

/// What the thumbnail of a source is called.
pub open spec fn thumbnail_name(source: Seq<char>) -> Seq<char> {
    hex_lower_of(four_bytes(stamp_of(encode_utf8(source))))
}

/// The stamp of a source, as eight digits.
pub fn stamp_for(source: &str) -> (r: String)
    ensures
        r@ == thumbnail_name(source@),
{
    let bytes = source.as_bytes();
    let mut hash: u32 = 0x811c_9dc5;
    let mut i: usize = 0;
    assert(bytes@.take(0) =~= Seq::empty());
    while i < bytes.len()
        invariant
            i <= bytes@.len(),
            hash == stamp_of(bytes@.take(i as int)),
        decreases bytes.len() - i,
    {
        assert(bytes@.take(i + 1).drop_last() =~= bytes@.take(i as int));
        let mixed: u32 = hash ^ (bytes[i] as u32);
        assert(mixed as int * 0x0100_0193 <= u32::MAX as int * 0x0100_0193) by (nonlinear_arith)
            requires
                mixed <= u32::MAX,
        ;
        let product: u64 = (mixed as u64) * 0x0100_0193;
        hash = (product % 0x1_0000_0000) as u32;
        i += 1;
    }
    assert(bytes@.take(i as int) =~= bytes@);
    let mut out: Vec<u8> = Vec::new();
    out.push((hash / 0x100_0000) as u8);
    out.push((hash / 0x1_0000 % 0x100) as u8);
    out.push((hash / 0x100 % 0x100) as u8);
    out.push((hash % 0x100) as u8);
    assert(out@ =~= four_bytes(hash));
    hex_lower(out.as_slice())
}

/// Where the thumbnail of a source is kept.
pub open spec fn thumbnail_path(source: Seq<char>, directory: Seq<char>) -> Seq<char> {
    joined_path(directory, thumbnail_name(source) + ".png"@)
}

/// Where the thumbnail of a source is kept.
pub fn cached_thumbnail(source: &str, settings: &IconSettings) -> (r: String)
    ensures
        r@ == thumbnail_path(source@, settings.cache_dir@),
{
    let mut name = stamp_for(source);
    name.append(".png");
    join_path(settings.cache_dir.as_str(), name.as_str())
}

/// What is to be done for a thumbnail.
#[derive(Debug)]
pub enum Thumbnail {
    /// There is none.
    Nothing,
    /// It is there already.
    Cached(String),
    /// The command makes it, and it is there if that works.
    Render { path: String, command: String },
}

/// Whether a source is a drawing and not an image of pixels.
pub open spec fn is_drawing(source: Seq<char>) -> bool {
    match file_name_of(source) {
        Some(name) => match extension_of(name) {
            Some(extension) => lower_of(extension) == "svg"@,
            None => false,
        },
        None => false,
    }
}

/// The command that makes the thumbnail of a source.
pub open spec fn render_command(source: Seq<char>, path: Seq<char>) -> Seq<char> {
    if is_drawing(source) {
        "rsvg-convert -w 48 -h 48 -o "@ + shell_quoted(path) + " "@ + shell_quoted(source)
    } else {
        "convert "@ + shell_quoted(source) + " -thumbnail 48x48 -background none "@ + shell_quoted(
            path,
        )
    }
}

/// Whether a source is a drawing.
fn drawing(source: &str) -> (r: bool)
    ensures
        r == is_drawing(source@),
{
    match file_name(source) {
        Some(name) => match split_extension(name.as_str()).1 {
            Some(extension) => same(lowercase(extension.as_str()).as_str(), "svg"),
            None => false,
        },
        None => false,
    }
}

/// The command that makes the thumbnail of a source.
pub fn render_with(source: &str, path: &str) -> (r: String)
    ensures
        r@ == render_command(source@, path@),
{
    if drawing(source) {
        let mut out = "rsvg-convert -w 48 -h 48 -o ".to_owned();
        out.append(shell_quote(path).as_str());
        out.append(" ");
        out.append(shell_quote(source).as_str());
        out
    } else {
        let mut out = "convert ".to_owned();
        out.append(shell_quote(source).as_str());
        out.append(" -thumbnail 48x48 -background none ");
        out.append(shell_quote(path).as_str());
        out
    }
}

/// Whether this is what is to be done for the thumbnail of a source.
pub open spec fn is_thumbnail(
    r: Thumbnail,
    source: Seq<char>,
    settings: IconModel,
    directory: bool,
    cached: bool,
) -> bool {
    let path = thumbnail_path(source, settings.cache_dir);
    if !settings.thumbnails || source.len() == 0 || !directory {
        r == Thumbnail::Nothing
    } else if cached {
        r matches Thumbnail::Cached(at) && at@ == path
    } else {
        r matches Thumbnail::Render { path: at, command } && at@ == path && command@
            == render_command(source, path)
    }
}

/// The thumbnail of a source. `directory` says whether there is a directory to keep it in, and
/// `cached` whether it is there.
pub fn thumbnail(source: &str, settings: &IconSettings, directory: bool, cached: bool) -> (r: Thumbnail)
    ensures
        is_thumbnail(r, source@, settings@, directory, cached),
{
    if !settings.thumbnails || source.is_empty() || !directory {
        return Thumbnail::Nothing;
    }
    let path = cached_thumbnail(source, settings);
    if cached {
        return Thumbnail::Cached(path);
    }
    let command = render_with(source, path.as_str());
    Thumbnail::Render { path, command }
}

/// An icon is looked for in every directory under each of its names: all of them in one directory
/// before the next.
pub proof fn directories_are_searched_in_order(
    dirs: Seq<Seq<char>>,
    names: Seq<Seq<char>>,
    i: int,
    j: int,
)
    requires
        0 <= i < dirs.len(),
        0 <= j < names.len(),
    ensures
        icon_paths(dirs, names).len() == dirs.len() * names.len(),
        i * names.len() + j < icon_paths(dirs, names).len(),
        icon_paths(dirs, names)[i * names.len() + j] == joined_path(dirs[i], names[j]),
    decreases dirs.len(),
{
    let n = names.len() as int;
    let front = dirs.drop_last();
    let before = icon_paths(front, names);
    icon_paths_len(front, names);
    icon_paths_len(dirs, names);
    assert(i * n + j < dirs.len() * n) by (nonlinear_arith)
        requires
            0 <= i < dirs.len(),
            0 <= j < n,
    ;
    assert(0 <= i * n) by (nonlinear_arith)
        requires
            0 <= i,
            0 <= n,
    ;
    if i < front.len() {
        directories_are_searched_in_order(front, names, i, j);
        assert(icon_paths(dirs, names)[i * n + j] == before[i * n + j]);
    } else {
        assert(i == front.len());
        assert(before.len() == i * n);
        assert(icon_paths(dirs, names)[i * n + j] == within(dirs.last(), names)[j]);
    }
}

/// There are as many paths for an icon as directories and names.
proof fn icon_paths_len(dirs: Seq<Seq<char>>, names: Seq<Seq<char>>)
    ensures
        icon_paths(dirs, names).len() == dirs.len() * names.len(),
    decreases dirs.len(),
{
    let n = names.len() as int;
    if dirs.len() > 0 {
        icon_paths_len(dirs.drop_last(), names);
        assert((dirs.len() - 1) * n + n == dirs.len() * n) by (nonlinear_arith);
    } else {
        assert(0 * n == 0);
    }
}

/// An icon without an extension is a bitmap before it is a drawing, and one with an extension is what
/// it says.
pub proof fn an_icon_has_the_usual_extensions(icon: Seq<char>)
    ensures
        (forall|i: int| 0 <= i < icon.len() ==> icon[i] != '.') ==> names_of(icon) == seq![
            icon + ".png"@,
            icon + ".svg"@,
            icon + ".xpm"@,
        ],
        (exists|i: int| 0 <= i < icon.len() && icon[i] == '.') ==> names_of(icon) == seq![icon],
{
    reveal_strlit(".");
    if has(icon, "."@) {
        let i = choose|i: int| occurs_at(icon, "."@, i);
        assert(icon.subrange(i, i + 1)[0] == icon[i]);
        assert(icon[i] == '.');
    }
    if exists|i: int| 0 <= i < icon.len() && icon[i] == '.' {
        let i = choose|i: int| 0 <= i < icon.len() && icon[i] == '.';
        assert(icon.subrange(i, i + 1) =~= "."@);
        assert(occurs_at(icon, "."@, i));
    }
}

/// The theme that was named last comes next, unless it came already; one that came is passed over.
pub proof fn the_theme_named_last_comes_next(queue: Seq<Seq<char>>, theme: Seq<char>, seen: Seq<String>)
    ensures
        !is_in(seen, theme) ==> still_to_come(queue.push(theme), seen) == queue.push(theme),
        is_in(seen, theme) ==> still_to_come(queue.push(theme), seen) == still_to_come(queue, seen),
{
    assert(queue.push(theme).drop_last() =~= queue);
}

/// What a theme inherits from and where its icons lie is read from the part on the theme itself.
pub proof fn a_theme_is_read_from_its_own_part(
    before: IndexModel,
    inherits: Seq<char>,
    directories: Seq<char>,
    raw: Seq<char>,
)
    ensures
        trim_of(raw) == "[Icon Theme]"@ ==> after_line(before, raw).inside,
        before.inside && trim_of(raw) == "Inherits="@ + inherits ==> after_line(before, raw)
            == (IndexModel { inherits: list_parts(inherits), ..before }),
        before.inside && trim_of(raw) == "Directories="@ + directories ==> after_line(before, raw)
            == (IndexModel { directories: list_parts(directories), ..before }),
        !before.inside ==> after_line(before, raw).inherits == before.inherits && after_line(
            before,
            raw,
        ).directories == before.directories,
{
    reveal_strlit("[Icon Theme]");
    reveal_strlit("[");
    reveal_strlit("Inherits=");
    reveal_strlit("Inherits");
    reveal_strlit("Directories=");
    reveal_strlit("Directories");
    let line = trim_of(raw);
    if line == "Inherits="@ + inherits {
        assert(line[0] == 'I' && "[Icon Theme]"@[0] == '[' && "["@[0] == '[');
        if begins_with(line, "["@) {
            assert(line.subrange(0, 1)[0] == line[0]);
        }
        assert(line[8] == '=');
        crate::text::first_of_is_unique(line, '=', 8);
        assert(line.take(8) =~= "Inherits"@);
        assert(line.skip(9) =~= inherits);
    }
    if line == "Directories="@ + directories {
        assert(line[0] == 'D' && "[Icon Theme]"@[0] == '[' && "["@[0] == '[');
        if begins_with(line, "["@) {
            assert(line.subrange(0, 1)[0] == line[0]);
        }
        assert(line[11] == '=');
        crate::text::first_of_is_unique(line, '=', 11);
        assert(line.take(11) =~= "Directories"@);
        assert(line.skip(12) =~= directories);
        assert("Directories"@[0] == 'D' && "Inherits"@[0] == 'I');
    }
}

/// A list has the parts between its commas, and none that is empty.
pub proof fn a_list_has_its_parts(value: Seq<char>, part: Seq<char>)
    ensures
        list_parts(value).contains(part) <==> part.len() > 0 && split_on(value, ',').contains(part),
{
    let keep = |p: Seq<char>| p.len() > 0;
    let all = split_on(value, ',');
    all.filter_lemma(keep);
    if part.len() > 0 && all.contains(part) {
        let i = choose|i: int| 0 <= i < all.len() && all[i] == part;
        assert(keep(all[i]));
        assert(list_parts(value).contains(all[i]));
    }
    if list_parts(value).contains(part) {
        let i = choose|i: int| 0 <= i < list_parts(value).len() && list_parts(value)[i] == part;
        assert(keep(list_parts(value)[i]));
        all.lemma_filter_contains_rev(keep, part);
    }
}

/// A thumbnail is made where it is kept, from its source, and only where there is none and thumbnails
/// are wanted.
pub proof fn a_thumbnail_is_made_where_it_is_kept(
    r: Thumbnail,
    source: Seq<char>,
    settings: IconModel,
    directory: bool,
    cached: bool,
)
    requires
        is_thumbnail(r, source, settings, directory, cached),
    ensures
        r == Thumbnail::Nothing <==> !settings.thumbnails || source.len() == 0 || !directory,
        r is Cached ==> cached,
        r matches Thumbnail::Cached(at) ==> at@ == thumbnail_path(source, settings.cache_dir),
        r matches Thumbnail::Render { path, command } ==> !cached && path@ == thumbnail_path(
            source,
            settings.cache_dir,
        ),
        r matches Thumbnail::Render { path, command } ==> (is_drawing(source) ==> command@
            == "rsvg-convert -w 48 -h 48 -o "@ + shell_quoted(path@) + " "@ + shell_quoted(source)),
        r matches Thumbnail::Render { path, command } ==> (!is_drawing(source) ==> command@
            == "convert "@ + shell_quoted(source) + " -thumbnail 48x48 -background none "@
            + shell_quoted(path@)),
{
}

/// A thumbnail lies in the directory for thumbnails, under eight digits and the extension of a bitmap.
pub proof fn a_thumbnail_lies_in_its_directory(source: Seq<char>, directory: Seq<char>)
    requires
        directory.len() > 0,
        directory.last() != '/',
    ensures
        thumbnail_path(source, directory) == directory + "/"@ + thumbnail_name(source) + ".png"@,
        thumbnail_name(source).len() == 8,
{
    reveal_strlit("/");
    reveal_strlit(".png");
    crate::bytes::a_byte_reads_back_from_its_digits(four_bytes(stamp_of(encode_utf8(source))), 0);
    let name = thumbnail_name(source) + ".png"@;
    assert(directory + "/"@ + name =~= directory + "/"@ + thumbnail_name(source) + ".png"@);
    assert(name[0] != '/');
    if begins_with(name, "/"@) {
        assert(name.subrange(0, 1)[0] == name[0]);
    }
}

/// A number reads back from its four bytes, of which the first counts most.
pub proof fn a_number_reads_back_from_its_bytes(n: u32)
    ensures
        four_bytes(n).len() == 4,
        four_bytes(n)[0] * 0x100_0000 + four_bytes(n)[1] * 0x1_0000 + four_bytes(n)[2] * 0x100
            + four_bytes(n)[3] == n,
{
    let a = n as int / 0x100_0000;
    let b = n as int / 0x1_0000 % 0x100;
    let c = n as int / 0x100 % 0x100;
    let d = n as int % 0x100;
    assert(0 <= a < 0x100 && 0 <= b < 0x100 && 0 <= c < 0x100 && 0 <= d < 0x100);
    assert(a * 0x100_0000 + b * 0x1_0000 + c * 0x100 + d == n);
}

/// The stamp of no bytes is the offset, and each byte more is mixed into the lowest bits before the
/// whole is multiplied.
pub proof fn each_byte_is_mixed_into_the_stamp(bytes: Seq<u8>, byte: u8)
    ensures
        stamp_of(Seq::empty()) == 2166136261u32,
        stamp_of(bytes.push(byte)) == (((stamp_of(bytes) ^ (byte as u32)) as int) * 16777619)
            % 4294967296,
{
    assert(bytes.push(byte).drop_last() =~= bytes);
}

/// Themes are looked for among the user's own first, and among those of the system last.
pub proof fn own_themes_come_first(data: Seq<char>, cache: Seq<char>)
    ensures
        theme_bases(Some(data), cache)[0] == joined_path(data, "icons"@),
        theme_bases(Some(data), cache).last() == "/usr/share/icons"@,
        theme_bases(None, cache).last() == "/usr/share/icons"@,
        cache.len() > 0 ==> theme_bases(Some(data), cache) == seq![
            joined_path(data, "icons"@),
            cache,
            "/usr/share/icons"@,
        ],
        cache.len() == 0 ==> theme_bases(Some(data), cache).len() == 2,
{
    if cache.len() > 0 {
        assert(theme_bases(Some(data), cache) =~= seq![
            joined_path(data, "icons"@),
            cache,
            "/usr/share/icons"@,
        ]);
    }
}

} // verus!
