//! Search of files, in an index or with a search program.

use std::collections::{HashMap, HashSet};
use vstd::hash_map::StringHashMap;
use vstd::prelude::*;
use vstd::string::*;
use vstd::utf8::encode_utf8;

use crate::config::FileIndex;
use crate::fuzzy::{mask, mask_is_necessary_for_a_match, mask_of, match_of, score_lower};
use crate::json::{field_models, object, pair, text, Json, Value};
use crate::keyed::TextMap;
use crate::number::{decimal, wrapped, wrapping_sum, write_u64};
use crate::order::{is_arrangement, reorder, sorted_order};
use crate::path::{
    a_file_lies_in_its_directory, components, components_of, extension_of, file_name, file_name_of,
    is_plain_name, parent, parent_of, split_extension,
};
use crate::providers::ScoreKey;
use crate::text::{
    alphanumeric, begins_with, chars_of, has, is_alphanumeric, lines, lines_of, lossy, lossy_of,
    lower_of, lowercase, same, shell_quote, shell_quoted, starts, texts, trim_of,
};
use crate::types::{ActionCapability, Item, ItemType, ProviderCapability};

verus! {

broadcast use vstd::std_specs::hash::group_hash_axioms;

/// How many candidates a query looks at.
pub const QUERY_CANDIDATE_LIMIT: usize = 5_000;

/// How many milliseconds lie between two saves of the index.
pub const SAVE_DEBOUNCE_MS: u64 = 3_000;

/// Whether an index is built: where it was asked for, or where nothing else can answer.
pub fn wants_index(setting: FileIndex, program_found: bool) -> (r: bool)
    ensures
        r == (setting == FileIndex::Always || (setting == FileIndex::Auto && !program_found)),
{
    match setting {
        FileIndex::Always => true,
        FileIndex::Auto => !program_found,
        FileIndex::Never => false,
    }
}

/// A path without a slash at its end.
pub open spec fn without_slash(path: Seq<u8>) -> Seq<u8> {
    if path.len() > 0 && path.last() == 47 {
        path.drop_last()
    } else {
        path
    }
}

/// Where the last component of a path begins.
pub open spec fn name_start(path: Seq<u8>) -> int
    decreases path.len(),
{
    if path.len() == 0 || path.last() == 47 {
        path.len() as int
    } else {
        name_start(path.drop_last())
    }
}

/// What a match counts for that lies in the name and not in a directory above it.
pub open spec fn name_bonus(search: Seq<char>, start: int) -> int {
    if start >= name_start(without_slash(encode_utf8(search))) {
        2_000
    } else {
        0
    }
}

/// What a match counts for that lies in the name and not in a directory above it. A directory is
/// printed with a slash at its end, which is no part of its name.
pub fn name_match_bonus(search: &str, start: usize) -> (r: i32)
    ensures
        r == name_bonus(search@, start as int),
{
    let bytes = search.as_bytes();
    let n: usize = bytes.len();
    let end: usize = if n > 0 && bytes[n - 1] == 47 { n - 1 } else { n };
    let ghost path = without_slash(bytes@);
    assert(path =~= bytes@.take(end as int));
    let mut i: usize = end;
    while i > 0 && bytes[i - 1] != 47
        invariant
            end <= n == bytes@.len(),
            i <= end,
            name_start(bytes@.take(i as int)) == name_start(bytes@.take(end as int)),
        decreases i,
    {
        assert(bytes@.take(i as int).drop_last() =~= bytes@.take(i - 1));
        i -= 1;
    }
    if start >= i {
        2_000
    } else {
        0
    }
}

/// Whether an entry of the list of what is left out covers a path: a whole path covers all below
/// it, and a name covers every path with a component of that name.
pub open spec fn covers(entry: Seq<char>, path: Seq<char>) -> bool {
    if begins_with(entry, "/"@) {
        is_prefix(components_of(entry), components_of(path))
    } else {
        exists|i: int|
            0 <= i < components_of(path).len() && #[trigger] components_of(path)[i] == entry
    }
}

/// Whether the first list stands at the start of the second.
pub open spec fn is_prefix(a: Seq<Seq<char>>, b: Seq<Seq<char>>) -> bool {
    a.len() <= b.len() && b.take(a.len() as int) == a
}

/// Whether any entry covers a path.
pub open spec fn is_left_out(path: Seq<char>, ignored: Seq<String>) -> bool {
    exists|i: int| 0 <= i < ignored.len() && covers(#[trigger] ignored[i]@, path)
}

/// Whether an entry covers a path of the given components.
fn covers_path(entry: &str, path: &str) -> (r: bool)
    ensures
        r == covers(entry@, path@),
{
    let parts = components(path);
    let ghost all = components_of(path@);
    assert(texts(parts@).len() == parts@.len());
    if starts(entry, "/") {
        let head = components(entry);
        let ghost first = components_of(entry@);
        assert(texts(head@).len() == head@.len());
        if head.len() > parts.len() {
            return false;
        }
        let mut i: usize = 0;
        while i < head.len()
            invariant
                all == components_of(path@),
                first == components_of(entry@),
                begins_with(entry@, "/"@),
                texts(parts@) == all,
                texts(head@) == first,
                i <= head@.len() <= parts@.len(),
                forall|k: int| 0 <= k < i ==> all[k] == first[k],
            decreases head.len() - i,
        {
            assert(all[i as int] == parts@[i as int]@ && first[i as int] == head@[i as int]@);
            if !same(head[i].as_str(), parts[i].as_str()) {
                assert(all.take(first.len() as int)[i as int] != first[i as int]);
                return false;
            }
            i += 1;
        }
        assert(all.take(first.len() as int) =~= first);
        true
    } else {
        let mut i: usize = 0;
        while i < parts.len()
            invariant
                all == components_of(path@),
                !begins_with(entry@, "/"@),
                texts(parts@) == all,
                i <= parts@.len(),
                all.len() == parts@.len(),
                forall|k: int| 0 <= k < i ==> #[trigger] all[k] != entry@,
            decreases parts.len() - i,
        {
            assert(all[i as int] == parts@[i as int]@);
            if same(parts[i].as_str(), entry) {
                assert(all[i as int] == entry@);
                return true;
            }
            i += 1;
        }
        false
    }
}

/// Whether a path is left out of the search.
pub fn is_ignored_path(path: &str, ignored: &Vec<String>) -> (r: bool)
    ensures
        r == is_left_out(path@, ignored@),
{
    let mut i: usize = 0;
    while i < ignored.len()
        invariant
            i <= ignored@.len(),
            forall|k: int| 0 <= k < i ==> !covers(#[trigger] ignored@[k]@, path@),
        decreases ignored.len() - i,
    {
        if covers_path(ignored[i].as_str(), path) {
            assert(covers(ignored@[i as int]@, path@));
            return true;
        }
        i += 1;
    }
    false
}

/// Whether a character stands for itself in a pattern.
pub open spec fn is_literal(c: char) -> bool {
    is_alphanumeric(c) || c == '_' || c == '-' || c == '/'
}

/// A query as a pattern that matches it literally: every other character is escaped.
pub open spec fn pattern_of(query: Seq<char>) -> Seq<char>
    decreases query.len(),
{
    if query.len() == 0 {
        Seq::empty()
    } else if is_literal(query.last()) {
        pattern_of(query.drop_last()).push(query.last())
    } else {
        pattern_of(query.drop_last()).push('\\').push(query.last())
    }
}

/// A query as a pattern of the search program.
pub fn fd_pattern(query: &str) -> (r: String)
    ensures
        r@ == pattern_of(query@),
{
    let chars = chars_of(query);
    let mut out = String::new();
    let mut i: usize = 0;
    assert(chars@.take(0) =~= Seq::empty());
    while i < chars.len()
        invariant
            i <= chars@.len(),
            out@ == pattern_of(chars@.take(i as int)),
        decreases chars.len() - i,
    {
        let c = chars[i];
        assert(chars@.take(i + 1).drop_last() =~= chars@.take(i as int));
        if !alphanumeric(c) && c != '_' && c != '-' && c != '/' {
            out.push('\\');
        }
        out.push(c);
        i += 1;
    }
    assert(chars@.take(i as int) =~= chars@);
    out
}

/// What an extension in lower case says of an image.
pub open spec fn mime_of(extension: Seq<char>) -> Option<Seq<char>> {
    if extension == "png"@ {
        Some("image/png"@)
    } else if extension == "jpg"@ || extension == "jpeg"@ {
        Some("image/jpeg"@)
    } else if extension == "gif"@ {
        Some("image/gif"@)
    } else if extension == "bmp"@ {
        Some("image/bmp"@)
    } else if extension == "webp"@ {
        Some("image/webp"@)
    } else if extension == "svg"@ {
        Some("image/svg+xml"@)
    } else if extension == "tif"@ || extension == "tiff"@ {
        Some("image/tiff"@)
    } else if extension == "ico"@ {
        Some("image/vnd.microsoft.icon"@)
    } else if extension == "avif"@ {
        Some("image/avif"@)
    } else {
        None
    }
}

/// The extension of a path in lower case, or nothing.
pub open spec fn lower_extension(path: Seq<char>) -> Seq<char> {
    match file_name_of(path) {
        Some(name) => match extension_of(name) {
            Some(extension) => lower_of(extension),
            None => lower_of(Seq::empty()),
        },
        None => lower_of(Seq::empty()),
    }
}

/// The type of image that a path names.
pub fn image_mime(path: &str) -> (r: Option<String>)
    ensures
        match r {
            Some(mime) => mime_of(lower_extension(path@)) == Some(mime@),
            None => mime_of(lower_extension(path@)) is None,
        },
{
    let extension = match file_name(path) {
        Some(name) => match split_extension(name.as_str()).1 {
            Some(extension) => extension,
            None => String::new(),
        },
        None => String::new(),
    };
    assert(extension@.len() == 0 ==> extension@ =~= Seq::empty());
    let lower = lowercase(extension.as_str());
    let e = lower.as_str();
    let mime = if same(e, "png") {
        "image/png"
    } else if same(e, "jpg") || same(e, "jpeg") {
        "image/jpeg"
    } else if same(e, "gif") {
        "image/gif"
    } else if same(e, "bmp") {
        "image/bmp"
    } else if same(e, "webp") {
        "image/webp"
    } else if same(e, "svg") {
        "image/svg+xml"
    } else if same(e, "tif") || same(e, "tiff") {
        "image/tiff"
    } else if same(e, "ico") {
        "image/vnd.microsoft.icon"
    } else if same(e, "avif") {
        "image/avif"
    } else {
        return None;
    };
    Some(mime.to_owned())
}

/// What activating a file comes to.
#[derive(Debug)]
pub enum FileStep {
    /// To run a command in a shell.
    Run(String),
    /// To copy a text.
    CopyText(String),
    /// To copy the content of a file as the given type.
    CopyAs(String, String),
    /// To copy the content of a file, which has to be text.
    CopyContent(String),
    /// Nothing.
    Nothing,
}

/// The command that opens a path.
pub open spec fn open_command(path: Seq<char>) -> Seq<char> {
    "xdg-open "@ + shell_quoted(path)
}

/// The command that opens a path.
fn open_path(path: &str) -> (r: String)
    ensures
        r@ == open_command(path@),
{
    let mut out = "xdg-open ".to_owned();
    out.append(shell_quote(path).as_str());
    out
}

/// What activating a file comes to.
pub open spec fn is_file_step(
    r: Result<FileStep, String>,
    identifier: Seq<char>,
    action: Seq<char>,
    is_dir: bool,
) -> bool {
    if action == "open"@ {
        r matches Ok(FileStep::Run(c)) && c@ == open_command(identifier)
    } else if action == "open_dir"@ {
        if is_dir {
            r matches Ok(FileStep::Run(c)) && c@ == open_command(identifier)
        } else {
            match parent_of(identifier) {
                Some(dir) => r matches Ok(FileStep::Run(c)) && c@ == open_command(dir),
                None => r matches Err(m) && m@ == "file has no parent"@,
            }
        }
    } else if action == "copy_path"@ {
        r matches Ok(FileStep::CopyText(t)) && t@ == identifier
    } else if action == "copy_file"@ {
        match mime_of(lower_extension(identifier)) {
            Some(mime) => r matches Ok(FileStep::CopyAs(p, m)) && p@ == identifier && m@ == mime,
            None => r matches Ok(FileStep::CopyContent(p)) && p@ == identifier,
        }
    } else if action == "reindex"@ {
        r matches Ok(FileStep::Nothing)
    } else {
        r matches Err(m) && m@ == "unsupported files action: "@ + action
    }
}

/// What activating a file comes to.
pub fn activate_path(identifier: &str, action: &str, is_dir: bool) -> (r: Result<FileStep, String>)
    ensures
        is_file_step(r, identifier@, action@, is_dir),
{
    if same(action, "open") {
        Ok(FileStep::Run(open_path(identifier)))
    } else if same(action, "open_dir") {
        if is_dir {
            Ok(FileStep::Run(open_path(identifier)))
        } else {
            match parent(identifier) {
                Some(dir) => Ok(FileStep::Run(open_path(dir.as_str()))),
                None => Err("file has no parent".to_owned()),
            }
        }
    } else if same(action, "copy_path") {
        Ok(FileStep::CopyText(identifier.to_owned()))
    } else if same(action, "copy_file") {
        match image_mime(identifier) {
            Some(mime) => Ok(FileStep::CopyAs(identifier.to_owned(), mime)),
            None => Ok(FileStep::CopyContent(identifier.to_owned())),
        }
    } else if same(action, "reindex") {
        Ok(FileStep::Nothing)
    } else {
        let mut message = "unsupported files action: ".to_owned();
        message.append(action);
        Err(message)
    }
}

/// A file as it is searched.
#[derive(Debug)]
pub struct IndexedFile {
    pub display: String,
    /// The path in lower case.
    pub search: String,
    /// The mask of the path in lower case.
    pub mask: u64,
}

impl IndexedFile {
    /// Whether the mask is that of the searched text.
    pub open spec fn wf(&self) -> bool {
        self.mask == mask_of(encode_utf8(self.search@))
    }

    /// A file of that path.
    pub fn new(path: &str) -> (r: IndexedFile)
        ensures
            r.wf(),
            r.display@ == path@,
            r.search@ == lower_of(path@),
    {
        let search = lowercase(path);
        let bits: u64 = mask(search.as_str());
        IndexedFile { display: path.to_owned(), search, mask: bits }
    }
}

/// The score of a file.
pub open spec fn file_score(file: IndexedFile, query: Seq<char>, exact: bool) -> int {
    let m = match_of(query, file.search@, exact)->0;
    wrapped(m.score + name_bonus(file.search@, m.start))
}

/// Whether the item is that of a file that matched.
pub open spec fn is_file_item(item: Item, file: IndexedFile, query: Seq<char>, exact: bool) -> bool {
    let m = match_of(query, file.search@, exact)->0;
    &&& match_of(query, file.search@, exact) is Some
    &&& item.provider@ == "files"@
    &&& item.identifier@ == file.display@
    &&& item.text@ == file.display@
    &&& item.subtext@.len() == 0
    &&& item.icon@ == "text-x-generic"@
    &&& item.score == file_score(file, query, exact)
    &&& item.fuzzyinfo is Some
    &&& item.fuzzyinfo->0.start == m.start
    &&& item.fuzzyinfo->0.field@ == "text"@
    &&& crate::fuzzy::indices(item.fuzzyinfo->0.positions@) == m.positions
    &&& item.item_type == ItemType::File
    &&& item.mimetype@.len() == 0
    &&& item.preview@ == file.display@
    &&& item.preview_type@ == "file"@
    &&& item.state@.len() == 0
    &&& texts(item.actions@) == seq!["open"@, "open_dir"@, "copy_path"@, "copy_file"@]
    &&& item.icon_path is None
    &&& item.thumbnail is None
}

/// The indices of the files that match.
pub open spec fn matching(files: Seq<&IndexedFile>, query: Seq<char>, exact: bool) -> Seq<int>
    decreases files.len(),
{
    if files.len() == 0 {
        Seq::empty()
    } else {
        let before = matching(files.drop_last(), query, exact);
        if match_of(query, files.last().search@, exact) is Some {
            before.push(files.len() - 1)
        } else {
            before
        }
    }
}

/// Whether the items are those of the files at the given indices.
pub open spec fn are_items(
    items: Seq<Item>,
    files: Seq<&IndexedFile>,
    found: Seq<int>,
    query: Seq<char>,
    exact: bool,
) -> bool {
    &&& items.len() == found.len()
    &&& forall|k: int| 0 <= k < found.len() ==> 0 <= (#[trigger] found[k]) < files.len()
    &&& forall|k: int|
        0 <= k < items.len() ==> is_file_item(
            #[trigger] items[k],
            *files[found[k]],
            query,
            exact,
        )
}

/// Whether index `i` of the hits comes before index `j`: by the higher score, and then by the order
/// of the files.
pub open spec fn hit_before(
    files: Seq<&IndexedFile>,
    hits: Seq<int>,
    query: Seq<char>,
    exact: bool,
    i: usize,
    j: usize,
) -> bool {
    let x = file_score(*files[hits[i as int]], query, exact);
    let y = file_score(*files[hits[j as int]], query, exact);
    x > y || (x == y && i < j)
}

/// Whether the items are the matches among the files, the best first and not more than the limit.
pub open spec fn is_ranking(
    items: Seq<Item>,
    files: Seq<&IndexedFile>,
    query: Seq<char>,
    limit: nat,
    exact: bool,
) -> bool {
    let hits = matching(files, query, exact);
    &&& items.len() == if hits.len() <= limit {
        hits.len()
    } else {
        limit
    }
    &&& exists|order: Seq<usize>|
        #![trigger is_arrangement(order, hits.len())]
        {
            &&& is_arrangement(order, hits.len())
            &&& forall|a: int, b: int|
                0 <= a < b < order.len() ==> #[trigger] hit_before(
                    files,
                    hits,
                    query,
                    exact,
                    order[a],
                    order[b],
                )
            &&& forall|k: int|
                0 <= k < items.len() ==> is_file_item(
                    #[trigger] items[k],
                    *files[hits[order[k] as int]],
                    query,
                    exact,
                )
        }
}

/// The matches among the files, the best first and not more than the limit.
pub fn rank_files(files: &Vec<&IndexedFile>, query_lower: &str, limit: usize, exact: bool) -> (r: Vec<
    Item,
>)
    requires
        forall|i: int| 0 <= i < files@.len() ==> (#[trigger] files@[i]).wf(),
    ensures
        is_ranking(r@, files@, query_lower@, limit as nat, exact),
{
    let query_mask: u64 = mask(query_lower);
    let ghost q = query_lower@;
    let mut items: Vec<Item> = Vec::new();
    let mut keys: Vec<ScoreKey> = Vec::new();
    let mut i: usize = 0;
    let ghost mut found: Seq<int> = Seq::empty();
    assert(files@.take(0) =~= Seq::empty());
    while i < files.len()
        invariant
            i <= files@.len(),
            q == query_lower@,
            query_mask == mask_of(encode_utf8(q)),
            forall|i: int| 0 <= i < files@.len() ==> (#[trigger] files@[i]).wf(),
            found == matching(files@.take(i as int), q, exact),
            keys@.len() == items@.len(),
            are_items(items@, files@, found, q, exact),
            forall|k: int| 0 <= k < items@.len() ==> (#[trigger] keys@[k]).0 == items@[k].score,
        decreases files.len() - i,
    {
        let file = files[i];
        let ghost before = found;
        assert(files@.take(i + 1).drop_last() =~= files@.take(i as int));
        assert(files@.take(i + 1).last() == files@[i as int]);
        assert(file.wf());
        if file.mask & query_mask == query_mask {
            match score_lower(query_lower, file.search.as_str(), exact, "text") {
                None => {
                    assert(matching(files@.take(i + 1), q, exact) == before);
                },
                Some((score, info)) => {
                    let total: i32 = wrapping_sum(
                        score,
                        name_match_bonus(file.search.as_str(), info.start),
                    );
                    let mut item = Item::new("files", file.display.as_str(), file.display.as_str());
                    item.item_type = ItemType::File;
                    item.preview = file.display.clone();
                    item.preview_type = "file".to_owned();
                    item.icon = "text-x-generic".to_owned();
                    item.actions = vec![
                        "open".to_owned(),
                        "open_dir".to_owned(),
                        "copy_path".to_owned(),
                        "copy_file".to_owned(),
                    ];
                    assert(texts(item.actions@)
                        =~= seq!["open"@, "open_dir"@, "copy_path"@, "copy_file"@]);
                    item.score = total;
                    item.fuzzyinfo = Some(info);
                    assert(is_file_item(item, *file, q, exact));
                    keys.push(ScoreKey(total));
                    proof {
                        found = before.push(i as int);
                    }
                    items.push(item);
                },
            }
        } else {
            proof {
                if match_of(q, file.search@, exact) is Some {
                    mask_is_necessary_for_a_match(q, file.search@, exact);
                    let a = mask_of(encode_utf8(q));
                    let b = mask_of(encode_utf8(file.search@));
                    assert(a & b == b & a) by (bit_vector);
                }
                assert(matching(files@.take(i + 1), q, exact) == before);
            }
        }
        i += 1;
    }
    assert(files@.take(i as int) =~= files@);
    let ghost hits = matching(files@, q, exact);
    let ghost all = items@;
    let order = sorted_order(&keys);
    let mut sorted = reorder(items, &order);
    proof {
        assert(is_arrangement(order@, hits.len()));
        assert forall|a: int, b: int| 0 <= a < b < order@.len() implies #[trigger] hit_before(
            files@,
            hits,
            q,
            exact,
            order@[a],
            order@[b],
        ) by {
            assert(crate::order::index_before(keys@, order@[a], order@[b]));
            assert(is_file_item(all[order@[a] as int], *files@[hits[order@[a] as int]], q, exact));
            assert(is_file_item(all[order@[b] as int], *files@[hits[order@[b] as int]], q, exact));
            assert(keys@[order@[a] as int].0 == all[order@[a] as int].score);
            assert(keys@[order@[b] as int].0 == all[order@[b] as int].score);
        }
        assert forall|k: int| 0 <= k < sorted@.len() implies is_file_item(
            #[trigger] sorted@[k],
            *files@[hits[order@[k] as int]],
            q,
            exact,
        ) by {
            assert(sorted@[k] == all[order@[k] as int]);
        }
    }
    let ghost full = sorted@;
    if sorted.len() > limit {
        sorted.truncate(limit);
    }
    assert forall|k: int| 0 <= k < sorted@.len() implies is_file_item(
        #[trigger] sorted@[k],
        *files@[hits[order@[k] as int]],
        q,
        exact,
    ) by {
        assert(sorted@[k] == full[k]);
    }
    sorted
}

/// Three bytes as a number.
pub open spec fn trigram(bytes: Seq<u8>, i: int) -> u32 {
    (bytes[i] * 65536 + bytes[i + 1] * 256 + bytes[i + 2]) as u32
}

/// The trigrams of a text, each once and in the order in which they come first.
pub open spec fn trigrams_of(bytes: Seq<u8>) -> Seq<u32>
    decreases bytes.len(),
{
    if bytes.len() < 3 {
        Seq::empty()
    } else {
        let before = trigrams_of(bytes.drop_last());
        let last = trigram(bytes, bytes.len() - 3);
        if before.contains(last) {
            before
        } else {
            before.push(last)
        }
    }
}

/// Whether a list holds a number.
fn holds(list: &Vec<u32>, n: u32) -> (r: bool)
    ensures
        r == list@.contains(n),
{
    let mut i: usize = 0;
    while i < list.len()
        invariant
            i <= list@.len(),
            forall|k: int| 0 <= k < i ==> list@[k] != n,
        decreases list.len() - i,
    {
        if list[i] == n {
            assert(list@[i as int] == n);
            return true;
        }
        i += 1;
    }
    false
}

/// The trigrams of a text, each once.
pub fn unique_trigrams(s: &str) -> (r: Vec<u32>)
    ensures
        r@ == trigrams_of(encode_utf8(s@)),
{
    let bytes = s.as_bytes();
    let n: usize = bytes.len();
    let mut out: Vec<u32> = Vec::new();
    if n < 3 {
        return out;
    }
    let mut i: usize = 2;
    assert(trigrams_of(bytes@.take(2)) =~= Seq::empty());
    while i < n
        invariant
            n == bytes@.len(),
            2 <= i <= n,
            out@ == trigrams_of(bytes@.take(i as int)),
        decreases n - i,
    {
        let code: u32 = (bytes[i - 2] as u32) * 65536 + (bytes[i - 1] as u32) * 256 + (
        bytes[i] as u32);
        assert(bytes@.take(i + 1).drop_last() =~= bytes@.take(i as int));
        assert(code == trigram(bytes@.take(i + 1), i - 2));
        if !holds(&out, code) {
            out.push(code);
        }
        i += 1;
    }
    assert(bytes@.take(i as int) =~= bytes@);
    out
}

/// The trigrams of a text are those that stand at some index, each once.
pub proof fn trigrams_are_all(bytes: Seq<u8>)
    ensures
        forall|i: int|
            0 <= i && i + 3 <= bytes.len() ==> trigrams_of(bytes).contains(
                #[trigger] trigram(bytes, i),
            ),
        forall|t: u32|
            trigrams_of(bytes).contains(t) ==> exists|i: int|
                0 <= i && i + 3 <= bytes.len() && #[trigger] trigram(bytes, i) == t,
    decreases bytes.len(),
{
    if bytes.len() >= 3 {
        let front = bytes.drop_last();
        let before = trigrams_of(front);
        let all = trigrams_of(bytes);
        let last = trigram(bytes, bytes.len() - 3);
        trigrams_are_all(front);
        assert forall|t: u32| before.contains(t) implies all.contains(t) by {
            let k = choose|k: int| 0 <= k < before.len() && before[k] == t;
            assert(all[k] == t);
        }
        assert(all.contains(last)) by {
            if !before.contains(last) {
                assert(all[all.len() - 1] == last);
            }
        }
        assert forall|i: int| 0 <= i && i + 3 <= bytes.len() implies all.contains(
            #[trigger] trigram(bytes, i),
        ) by {
            if i + 3 < bytes.len() {
                assert(trigram(front, i) == trigram(bytes, i));
            }
        }
        assert forall|t: u32| all.contains(t) implies exists|i: int|
            0 <= i && i + 3 <= bytes.len() && #[trigger] trigram(bytes, i) == t by {
            if t == last {
                assert(trigram(bytes, bytes.len() - 3) == t);
            } else {
                let k = choose|k: int| 0 <= k < all.len() && all[k] == t;
                assert(before.contains(t)) by {
                    assert(before[k] == t);
                }
                let i = choose|i: int|
                    0 <= i && i + 3 <= front.len() && #[trigger] trigram(front, i) == t;
                assert(trigram(bytes, i) == t);
            }
        }
    }
}

/// A place in the index: a path and, while it is there, the file.
#[derive(Debug)]
pub struct Slot {
    pub key: String,
    pub file: Option<IndexedFile>,
}

/// The files that are indexed.
pub struct FilesProvider {
    pub ignored_dirs: Vec<String>,
    pub slots: Vec<Slot>,
    /// The slot of each path.
    pub ids: StringHashMap<usize>,
    /// For each trigram, the slots of the paths that hold it.
    pub lists: HashMap<u32, Vec<usize>>,
    /// Whether the index changed since it was last asked.
    pub changed: bool,
    /// Whether the index changed since it was saved.
    pub dirty: bool,
}

/// Whether the list of a trigram holds a slot.
pub open spec fn listed(lists: Map<u32, Vec<usize>>, t: u32, id: usize) -> bool {
    lists.dom().contains(t) && lists[t]@.contains(id)
}

impl FilesProvider {
    /// Whether the parts of the index agree: each path has one slot, each file stands in the slot
    /// of its path, and each slot of a file is in the lists of its trigrams.
    pub open spec fn wf(&self) -> bool {
        &&& self.ids_wf()
        &&& forall|i: int|
            0 <= i < self.slots@.len() ==> slot_wf(#[trigger] self.slots@[i])
        &&& forall|i: int|
            0 <= i < self.slots@.len() ==> slot_listed(
                #[trigger] self.slots@[i],
                i as usize,
                self.lists@,
            )
        &&& forall|t: u32, k: int|
            self.lists@.dom().contains(t) && 0 <= k < self.lists@[t]@.len() ==> (
            #[trigger] self.lists@[t]@[k]) < self.slots@.len()
    }

    /// Whether each path has exactly one slot.
    pub open spec fn ids_wf(&self) -> bool {
        &&& self.slots@.len() <= usize::MAX
        &&& forall|i: int|
            0 <= i < self.slots@.len() ==> self.ids@.dom().contains((#[trigger] self.slots@[i]).key@)
                && self.ids@[self.slots@[i].key@] == i
        &&& forall|k: Seq<char>| #[trigger]
            self.ids@.dom().contains(k) ==> self.ids@[k] < self.slots@.len()
                && self.slots@[self.ids@[k] as int].key@ == k
    }

    /// The file at a path.
    pub open spec fn file_at(&self, path: Seq<char>) -> Option<IndexedFile> {
        if self.ids@.dom().contains(path) {
            self.slots@[self.ids@[path] as int].file
        } else {
            None
        }
    }
}

/// Whether the file of a slot is that of its path.
pub open spec fn slot_wf(slot: Slot) -> bool {
    match slot.file {
        Some(file) => file.wf() && file.display@ == slot.key@,
        None => true,
    }
}

/// Whether a slot that holds a file is in the lists of the file's trigrams.
pub open spec fn slot_listed(slot: Slot, id: usize, lists: Map<u32, Vec<usize>>) -> bool {
    match slot.file {
        Some(file) => forall|t: u32| #[trigger]
            trigrams_of(encode_utf8(file.search@)).contains(t) ==> listed(lists, t, id),
        None => true,
    }
}

/// The list of a trigram, or nothing where it has none.
pub open spec fn list_of(lists: Map<u32, Vec<usize>>, t: u32) -> Seq<usize> {
    if lists.dom().contains(t) {
        lists[t]@
    } else {
        Seq::empty()
    }
}

/// A list with a slot added, unless it was the last to be added.
pub open spec fn with_slot(list: Seq<usize>, id: usize) -> Seq<usize> {
    if list.len() > 0 && list.last() == id {
        list
    } else {
        list.push(id)
    }
}

/// Whether the list of a trigram is as it should be after a slot was added to those of some.
pub open spec fn list_after(
    before: Map<u32, Vec<usize>>,
    after: Map<u32, Vec<usize>>,
    trigrams: Seq<u32>,
    id: usize,
    t: u32,
) -> bool {
    if trigrams.contains(t) {
        after.dom().contains(t) && after[t]@ == with_slot(list_of(before, t), id)
    } else {
        after.dom().contains(t) == before.dom().contains(t) && list_of(after, t) == list_of(
            before,
            t,
        )
    }
}

/// Whether the lists are as they should be after a slot was added to those of some trigrams.
pub open spec fn lists_with(
    before: Map<u32, Vec<usize>>,
    after: Map<u32, Vec<usize>>,
    trigrams: Seq<u32>,
    id: usize,
) -> bool {
    forall|t: u32| #[trigger] list_after(before, after, trigrams, id, t)
}

/// Adds a slot to the lists of the trigrams of a text, unless it was the last to be added there.
fn add_trigrams(lists: &mut HashMap<u32, Vec<usize>>, id: usize, search: &str)
    ensures
        lists_with(old(lists)@, final(lists)@, trigrams_of(encode_utf8(search@)), id),
{
    let all = unique_trigrams(search);
    let ghost before = lists@;
    let ghost bytes = encode_utf8(search@);
    let mut i: usize = 0;
    proof {
        trigrams_are_distinct(bytes);
        assert(lists_with(before, lists@, all@.take(0), id));
    }
    while i < all.len()
        invariant
            i <= all@.len(),
            all@ == trigrams_of(bytes),
            all@.no_duplicates(),
            lists_with(before, lists@, all@.take(i as int), id),
        decreases all.len() - i,
    {
        let t: u32 = all[i];
        let ghost mid = lists@;
        let mut list: Vec<usize> = match lists.remove(&t) {
            Some(list) => list,
            None => Vec::new(),
        };
        let ghost was = list@;
        assert(!all@.take(i as int).contains(t)) by {
            if all@.take(i as int).contains(t) {
                let k = choose|k: int| 0 <= k < i && all@.take(i as int)[k] == t;
                assert(all@[k] == all@[i as int]);
            }
        }
        assert(list_after(before, mid, all@.take(i as int), id, t));
        assert(was =~= list_of(before, t));
        let n: usize = list.len();
        if n == 0 || list[n - 1] != id {
            list.push(id);
        }
        let ghost now = list@;
        lists.insert(t, list);
        proof {
            let done = all@.take(i + 1);
            assert(done[i as int] == t);
            assert(done.contains(t));
            assert forall|u: u32| u != t implies done.contains(u) == all@.take(i as int).contains(
                u,
            ) by {
                if done.contains(u) {
                    let k = choose|k: int| 0 <= k < done.len() && done[k] == u;
                    assert(all@.take(i as int)[k] == u);
                }
                if all@.take(i as int).contains(u) {
                    let k = choose|k: int| 0 <= k < i && all@.take(i as int)[k] == u;
                    assert(done[k] == u);
                }
            }
            assert forall|u: u32| #[trigger] list_after(before, lists@, done, id, u) by {
                assert(list_after(before, mid, all@.take(i as int), id, u));
                if u == t {
                    assert(lists@[t]@ == now);
                }
            }
        }
        i += 1;
    }
    assert(all@.take(i as int) =~= all@);
}

/// No trigram is listed twice.
proof fn trigrams_are_distinct(bytes: Seq<u8>)
    ensures
        trigrams_of(bytes).no_duplicates(),
    decreases bytes.len(),
{
    if bytes.len() >= 3 {
        trigrams_are_distinct(bytes.drop_last());
    }
}

/// What is indexed stays in the lists when a slot is added to some of them.
proof fn listed_stays(
    before: Map<u32, Vec<usize>>,
    after: Map<u32, Vec<usize>>,
    trigrams: Seq<u32>,
    id: usize,
)
    requires
        lists_with(before, after, trigrams, id),
    ensures
        forall|t: u32, k: usize| #[trigger] listed(before, t, k) ==> listed(after, t, k),
        forall|t: u32| trigrams.contains(t) ==> #[trigger] listed(after, t, id),
{
    assert forall|t: u32, k: usize| #[trigger] listed(before, t, k) implies listed(after, t, k) by {
        assert(list_after(before, after, trigrams, id, t));
        let was = list_of(before, t);
        let j = choose|j: int| 0 <= j < was.len() && was[j] == k;
        assert(after[t]@[j] == k);
    }
    assert forall|t: u32| trigrams.contains(t) implies #[trigger] listed(after, t, id) by {
        assert(list_after(before, after, trigrams, id, t));
        let now = after[t]@;
        assert(now[now.len() - 1] == id);
    }
}

impl FilesProvider {
    /// An index without files.
    pub fn new(ignored_dirs: Vec<String>) -> (r: FilesProvider)
        ensures
            r.wf(),
            r.slots@.len() == 0,
            r.ignored_dirs == ignored_dirs,
            !r.changed,
            !r.dirty,
    {
        FilesProvider {
            ignored_dirs,
            slots: Vec::new(),
            ids: StringHashMap::new(),
            lists: HashMap::new(),
            changed: false,
            dirty: false,
        }
    }

    /// Whether a path is left out of the index.
    pub fn is_ignored(&self, path: &str) -> (r: bool)
        ensures
            r == is_left_out(path@, self.ignored_dirs@),
    {
        is_ignored_path(path, &self.ignored_dirs)
    }

    /// The slot of a path, which is made where there is none.
    fn slot_id(&mut self, key: &str) -> (r: usize)
        requires
            old(self).wf(),
        ensures
            final(self).wf(),
            r < final(self).slots@.len(),
            final(self).slots@[r as int].key@ == key@,
            final(self).lists == old(self).lists,
            forall|k: Seq<char>| final(self).file_at(k) == #[trigger] old(self).file_at(k),
            final(self).ignored_dirs == old(self).ignored_dirs,
            final(self).changed == old(self).changed,
            final(self).dirty == old(self).dirty,
    {
        if let Some(id) = self.ids.get(key) {
            return *id;
        }
        let id: usize = self.slots.len();
        let ghost before = *self;
        self.slots.push(Slot { key: key.to_owned(), file: None });
        self.ids.insert(key.to_owned(), id);
        proof {
            assert(self.slots@.len() == self.slots.len() <= usize::MAX);
            assert forall|t: u32, k: int|
                self.lists@.dom().contains(t) && 0 <= k < self.lists@[t]@.len() implies (
            #[trigger] self.lists@[t]@[k]) < self.slots@.len() by {
                assert(before.lists@[t]@[k] < before.slots@.len());
            }
            assert forall|i: int| 0 <= i < self.slots@.len() implies self.ids@.dom().contains(
                (#[trigger] self.slots@[i]).key@,
            ) && self.ids@[self.slots@[i].key@] == i by {
                if i < id {
                    assert(self.slots@[i] == before.slots@[i]);
                }
            }
            assert forall|k: Seq<char>| #[trigger] self.ids@.dom().contains(k) implies self.ids@[k]
                < self.slots@.len() && self.slots@[self.ids@[k] as int].key@ == k by {
                if k != key@ {
                    assert(before.ids@.dom().contains(k));
                }
            }
            assert forall|i: int| 0 <= i < self.slots@.len() implies slot_wf(
                #[trigger] self.slots@[i],
            ) && slot_listed(self.slots@[i], i as usize, self.lists@) by {
                if i < id {
                    assert(self.slots@[i] == before.slots@[i]);
                }
            }
            assert forall|k: Seq<char>| self.file_at(k) == #[trigger] before.file_at(k) by {
                if k != key@ && before.ids@.dom().contains(k) {
                    assert(self.slots@[before.ids@[k] as int] == before.slots@[before.ids@[k] as int]);
                }
            }
        }
        id
    }

    /// Puts a file into the index, in the place of what was known of its path.
    pub fn insert_file(&mut self, file: IndexedFile)
        requires
            old(self).wf(),
            file.wf(),
        ensures
            final(self).wf(),
            final(self).file_at(file.display@) == Some(file),
            forall|k: Seq<char>|
                k != file.display@ ==> final(self).file_at(k) == #[trigger] old(self).file_at(k),
            final(self).ignored_dirs == old(self).ignored_dirs,
            final(self).changed == old(self).changed,
            final(self).dirty == old(self).dirty,
    {
        let id: usize = self.slot_id(file.display.as_str());
        let ghost mid = *self;
        let ghost ts = trigrams_of(encode_utf8(file.search@));
        let ghost f = file;
        add_trigrams(&mut self.lists, id, file.search.as_str());
        self.slots[id].file = Some(file);
        proof {
            listed_stays(mid.lists@, self.lists@, ts, id);
            assert forall|i: int| 0 <= i < self.slots@.len() implies slot_wf(
                #[trigger] self.slots@[i],
            ) && slot_listed(self.slots@[i], i as usize, self.lists@) by {
                if i != id {
                    assert(self.slots@[i] == mid.slots@[i]);
                    assert(slot_listed(mid.slots@[i], i as usize, mid.lists@));
                    if self.slots@[i].file is Some {
                        let other = self.slots@[i].file->0;
                        assert forall|t: u32| #[trigger]
                            trigrams_of(encode_utf8(other.search@)).contains(t) implies listed(
                            self.lists@,
                            t,
                            i as usize,
                        ) by {
                            assert(listed(mid.lists@, t, i as usize));
                        }
                    }
                }
            }
            assert forall|t: u32, k: int|
                self.lists@.dom().contains(t) && 0 <= k < self.lists@[t]@.len() implies (
            #[trigger] self.lists@[t]@[k]) < self.slots@.len() by {
                assert(list_after(mid.lists@, self.lists@, ts, id, t));
                let was = list_of(mid.lists@, t);
                if k < was.len() {
                    assert(mid.lists@[t]@[k] < mid.slots@.len());
                    assert(self.lists@[t]@[k] == was[k]);
                }
            }
            assert forall|i: int| 0 <= i < self.slots@.len() implies self.ids@.dom().contains(
                (#[trigger] self.slots@[i]).key@,
            ) && self.ids@[self.slots@[i].key@] == i by {
                assert(self.slots@[i].key == mid.slots@[i].key);
            }
            assert forall|k: Seq<char>| k != f.display@ implies self.file_at(k)
                == #[trigger] old(self).file_at(k) by {
                assert(mid.file_at(k) == old(self).file_at(k));
                if self.ids@.dom().contains(k) {
                    assert(mid.slots@[mid.ids@[k] as int].key@ == k);
                    assert(self.ids@[k] != id);
                }
            }
            assert(mid.slots@[id as int].key@ == f.display@);
            assert(self.ids@[f.display@] == id);
        }
    }

    /// Adds a path to the index.
    pub fn add_path(&mut self, path: &str)
        requires
            old(self).wf(),
        ensures
            final(self).wf(),
            final(self).file_at(path@) matches Some(f) && f.display@ == path@ && f.search@
                == lower_of(path@),
            forall|k: Seq<char>|
                k != path@ ==> final(self).file_at(k) == #[trigger] old(self).file_at(k),
            final(self).ignored_dirs == old(self).ignored_dirs,
            final(self).changed == old(self).changed,
            final(self).dirty == old(self).dirty,
    {
        let file = IndexedFile::new(path);
        if let Some(id) = self.ids.get(path) {
            let id: usize = *id;
            if let Some(known) = &self.slots[id].file {
                assert(slot_wf(self.slots@[id as int]));
                if same(known.search.as_str(), file.search.as_str()) {
                    return;
                }
            }
        }
        self.insert_file(file);
    }

    /// Removes a path and all below it from the index.
    pub fn remove_path(&mut self, path: &str)
        requires
            old(self).wf(),
        ensures
            final(self).wf(),
            forall|k: Seq<char>| #[trigger]
                final(self).file_at(k) == (if is_within(k, path@) {
                    None
                } else {
                    old(self).file_at(k)
                }),
            final(self).ignored_dirs == old(self).ignored_dirs,
            final(self).changed == old(self).changed,
            final(self).dirty == old(self).dirty,
    {
        let mut prefix = path.to_owned();
        prefix.append("/");
        let ghost before = *self;
        let n: usize = self.slots.len();
        let mut i: usize = 0;
        while i < n
            invariant
                n == self.slots@.len(),
                n == before.slots@.len(),
                i <= n,
                prefix@ == path@ + "/"@,
                self.ids == before.ids,
                self.lists == before.lists,
                self.ignored_dirs == before.ignored_dirs,
                self.changed == before.changed,
                self.dirty == before.dirty,
                forall|k: int|
                    0 <= k < n ==> (#[trigger] self.slots@[k]).key == before.slots@[k].key,
                forall|k: int|
                    0 <= k < i ==> (#[trigger] self.slots@[k]).file == (if is_within(
                        before.slots@[k].key@,
                        path@,
                    ) {
                        None
                    } else {
                        before.slots@[k].file
                    }),
                forall|k: int| i <= k < n ==> (#[trigger] self.slots@[k]) == before.slots@[k],
            decreases n - i,
        {
            let key = self.slots[i].key.as_str();
            if same(key, path) || starts(key, prefix.as_str()) {
                self.slots[i].file = None;
            }
            i += 1;
        }
        proof {
            assert forall|i: int| 0 <= i < self.slots@.len() implies slot_wf(
                #[trigger] self.slots@[i],
            ) && slot_listed(self.slots@[i], i as usize, self.lists@) by {
                assert(slot_wf(before.slots@[i]));
                assert(slot_listed(before.slots@[i], i as usize, before.lists@));
            }
            assert forall|i: int| 0 <= i < self.slots@.len() implies self.ids@.dom().contains(
                (#[trigger] self.slots@[i]).key@,
            ) && self.ids@[self.slots@[i].key@] == i by {
                assert(before.ids@[before.slots@[i].key@] == i);
            }
            assert forall|k: Seq<char>| #[trigger] self.file_at(k) == (if is_within(k, path@) {
                None
            } else {
                before.file_at(k)
            }) by {
                if self.ids@.dom().contains(k) {
                    let id = self.ids@[k] as int;
                    assert(before.slots@[id].key@ == k);
                    assert(self.slots@[id].key == before.slots@[id].key);
                }
            }
        }
    }

    /// Takes up a change below a path: what is found there now, or that nothing is there any more.
    pub fn apply_change(&mut self, path: &str, found: Option<Vec<String>>)
        requires
            old(self).wf(),
        ensures
            final(self).wf(),
            final(self).changed,
            final(self).dirty,
            final(self).ignored_dirs == old(self).ignored_dirs,
            match found {
                None => forall|k: Seq<char>| #[trigger]
                    final(self).file_at(k) == (if is_within(k, path@) {
                        None
                    } else {
                        old(self).file_at(k)
                    }),
                Some(entries) => forall|k: Seq<char>|
                    if is_entry(entries@, k) && !is_left_out(k, old(self).ignored_dirs@) {
                        #[trigger] final(self).file_at(k) matches Some(f) && f.display@ == k
                            && f.search@ == lower_of(k)
                    } else {
                        final(self).file_at(k) == old(self).file_at(k)
                    },
            },
    {
        match found {
            None => {
                self.remove_path(path);
            },
            Some(entries) => {
                self.add_all(&entries);
            },
        }
        let ghost mid = *self;
        self.changed = true;
        self.dirty = true;
        proof {
            assert forall|k: Seq<char>| #[trigger] self.file_at(k) == mid.file_at(k) by {}
        }
    }

    /// Adds paths to the index, but for those that are left out.
    pub fn add_all(&mut self, entries: &Vec<String>)
        requires
            old(self).wf(),
        ensures
            final(self).wf(),
            final(self).ignored_dirs == old(self).ignored_dirs,
            final(self).changed == old(self).changed,
            final(self).dirty == old(self).dirty,
            forall|k: Seq<char>|
                if is_entry(entries@, k) && !is_left_out(k, old(self).ignored_dirs@) {
                    #[trigger] final(self).file_at(k) matches Some(f) && f.display@ == k && f.search@
                        == lower_of(k)
                } else {
                    final(self).file_at(k) == old(self).file_at(k)
                },
    {
        let ghost before = *self;
        let mut i: usize = 0;
        while i < entries.len()
            invariant
                i <= entries@.len(),
                self.wf(),
                self.ignored_dirs == before.ignored_dirs,
                self.changed == before.changed,
                self.dirty == before.dirty,
                forall|k: Seq<char>|
                    if is_entry(entries@.take(i as int), k) && !is_left_out(
                        k,
                        before.ignored_dirs@,
                    ) {
                        #[trigger] self.file_at(k) matches Some(f) && f.display@ == k && f.search@
                            == lower_of(k)
                    } else {
                        self.file_at(k) == before.file_at(k)
                    },
            decreases entries.len() - i,
        {
            let ghost mid = *self;
            let path = entries[i].as_str();
            if !self.is_ignored(path) {
                self.add_path(path);
            }
            proof {
                assert forall|k: Seq<char>|
                    if is_entry(entries@.take(i + 1), k) && !is_left_out(k, before.ignored_dirs@) {
                        #[trigger] self.file_at(k) matches Some(f) && f.display@ == k && f.search@
                            == lower_of(k)
                    } else {
                        self.file_at(k) == before.file_at(k)
                    } by {
                    is_entry_of_one_more(entries@, i as int, k);
                    if k != path@ {
                        assert(self.file_at(k) == mid.file_at(k));
                    }
                    assert(mid.file_at(k) == mid.file_at(k));
                }
            }
            i += 1;
        }
        assert(entries@.take(i as int) =~= entries@);
    }
}

/// Whether a path is among the entries.
pub open spec fn is_entry(entries: Seq<String>, path: Seq<char>) -> bool {
    exists|i: int| 0 <= i < entries.len() && (#[trigger] entries[i])@ == path
}

proof fn is_entry_of_one_more(entries: Seq<String>, i: int, path: Seq<char>)
    requires
        0 <= i < entries.len(),
    ensures
        is_entry(entries.take(i + 1), path) == (is_entry(entries.take(i), path) || entries[i]@
            == path),
{
    let a = entries.take(i);
    let b = entries.take(i + 1);
    if is_entry(a, path) {
        let k = choose|k: int| 0 <= k < a.len() && (#[trigger] a[k])@ == path;
        assert(b[k]@ == path);
    }
    if entries[i]@ == path {
        assert(b[i]@ == path);
    }
    if is_entry(b, path) {
        let k = choose|k: int| 0 <= k < b.len() && (#[trigger] b[k])@ == path;
        if k < i {
            assert(a[k]@ == path);
        }
    }
}

/// Whether a path is another or lies below it.
pub open spec fn is_within(path: Seq<char>, top: Seq<char>) -> bool {
    path == top || begins_with(path, top + "/"@)
}

/// Which of some trigrams has the shortest list, the first where several have.
pub open spec fn shortest(lists: Map<u32, Vec<usize>>, trigrams: Seq<u32>) -> int
    decreases trigrams.len(),
{
    if trigrams.len() <= 1 {
        0
    } else {
        let before = shortest(lists, trigrams.drop_last());
        if lists[trigrams.last()]@.len() < lists[trigrams[before]]@.len() {
            trigrams.len() - 1
        } else {
            before
        }
    }
}

/// Whether a slot is in the list of every one of some trigrams.
pub open spec fn in_all(lists: Map<u32, Vec<usize>>, trigrams: Seq<u32>, id: usize) -> bool {
    forall|i: int| 0 <= i < trigrams.len() ==> listed(lists, #[trigger] trigrams[i], id)
}

/// Whether every one of some trigrams has a list.
pub open spec fn all_have_lists(lists: Map<u32, Vec<usize>>, trigrams: Seq<u32>) -> bool {
    forall|i: int| 0 <= i < trigrams.len() ==> lists.dom().contains(#[trigger] trigrams[i])
}

/// The slots of the paths that can hold some trigrams all together, in the order of the shortest
/// list.
pub open spec fn candidates_in(lists: Map<u32, Vec<usize>>, trigrams: Seq<u32>) -> Seq<usize> {
    if all_have_lists(lists, trigrams) {
        lists[trigrams[shortest(lists, trigrams)]]@.filter(|id: usize| in_all(lists, trigrams, id))
    } else {
        Seq::empty()
    }
}

/// The slots that a query looks at, unless it is too short to have trigrams.
pub open spec fn candidates_of(lists: Map<u32, Vec<usize>>, query: Seq<char>) -> Option<Seq<usize>> {
    let trigrams = trigrams_of(encode_utf8(query));
    if trigrams.len() == 0 {
        None
    } else {
        let all = candidates_in(lists, trigrams);
        Some(
            if all.len() <= QUERY_CANDIDATE_LIMIT {
                all
            } else {
                all.take(QUERY_CANDIDATE_LIMIT as int)
            },
        )
    }
}

/// The shortest list is one of them.
proof fn shortest_is_one(lists: Map<u32, Vec<usize>>, trigrams: Seq<u32>)
    requires
        trigrams.len() > 0,
    ensures
        0 <= shortest(lists, trigrams) < trigrams.len(),
    decreases trigrams.len(),
{
    if trigrams.len() > 1 {
        shortest_is_one(lists, trigrams.drop_last());
    }
}

/// The set of the slots of a list.
fn slot_set(list: &Vec<usize>) -> (r: HashSet<usize>)
    ensures
        forall|id: usize| #[trigger] r@.contains(id) == list@.contains(id),
{
    let mut out: HashSet<usize> = HashSet::new();
    let mut i: usize = 0;
    while i < list.len()
        invariant
            i <= list@.len(),
            forall|id: usize| #[trigger] out@.contains(id) == list@.take(i as int).contains(id),
        decreases list.len() - i,
    {
        let ghost before = out@;
        out.insert(list[i]);
        proof {
            let a = list@.take(i as int);
            let b = list@.take(i + 1);
            assert forall|id: usize| #[trigger] out@.contains(id) == b.contains(id) by {
                if a.contains(id) {
                    let k = choose|k: int| 0 <= k < a.len() && a[k] == id;
                    assert(b[k] == id);
                }
                assert(b[i as int] == list@[i as int]);
                if b.contains(id) && id != list@[i as int] {
                    let k = choose|k: int| 0 <= k < b.len() && b[k] == id;
                    assert(a[k] == id);
                }
                assert(before.contains(id) == a.contains(id));
            }
        }
        i += 1;
    }
    assert(list@.take(i as int) =~= list@);
    out
}

impl FilesProvider {
    /// The slots that a query in lower case looks at.
    pub fn candidates(&self, query: &str) -> (r: Option<Vec<usize>>)
        ensures
            match r {
                Some(ids) => candidates_of(self.lists@, query@) == Some(ids@),
                None => candidates_of(self.lists@, query@) is None,
            },
    {
        let trigrams = unique_trigrams(query);
        let ghost ts = trigrams@;
        let n: usize = trigrams.len();
        if n == 0 {
            return None;
        }
        let mut sets: Vec<HashSet<usize>> = Vec::new();
        let mut best: usize = 0;
        let mut best_len: usize = 0;
        let mut i: usize = 0;
        while i < n
            invariant
                n == ts.len(),
                n > 0,
                ts == trigrams@,
                ts == trigrams_of(encode_utf8(query@)),
                i <= n,
                sets@.len() == i,
                forall|k: int| 0 <= k < i ==> self.lists@.dom().contains(#[trigger] ts[k]),
                forall|k: int, id: usize|
                    0 <= k < i ==> #[trigger] sets@[k]@.contains(id) == self.lists@[ts[k]]@.contains(
                        id,
                    ),
                i > 0 ==> best == shortest(self.lists@, ts.take(i as int)) && best < i,
                i > 0 ==> best_len == self.lists@[ts[best as int]]@.len(),
            decreases n - i,
        {
            match self.lists.get(&trigrams[i]) {
                None => {
                    assert(!self.lists@.dom().contains(ts[i as int]));
                    assert(!all_have_lists(self.lists@, ts));
                    let empty: Vec<usize> = Vec::new();
                    assert(empty@ =~= Seq::empty());
                    return Some(empty);
                },
                Some(list) => {
                    assert(ts.take(i + 1).drop_last() =~= ts.take(i as int));
                    assert(ts.take(i + 1).last() == ts[i as int]);
                    if i > 0 {
                        assert(ts.take(i as int)[best as int] == ts[best as int]);
                    }
                    if i == 0 || list.len() < best_len {
                        best = i;
                        best_len = list.len();
                    }
                    let ghost earlier = sets@;
                    let set = slot_set(list);
                    sets.push(set);
                    assert forall|k: int, id: usize| 0 <= k < i + 1 implies #[trigger] sets@[k]@.contains(
                    id) == self.lists@[ts[k]]@.contains(id) by {
                        if k < i {
                            assert(sets@[k] == earlier[k]);
                            assert(earlier[k]@.contains(id) == self.lists@[ts[k]]@.contains(id));
                        }
                    }
                },
            }
            i += 1;
        }
        assert(ts.take(i as int) =~= ts);
        assert(all_have_lists(self.lists@, ts));
        let ghost keep = |id: usize| in_all(self.lists@, ts, id);
        let first: &Vec<usize> = match self.lists.get(&trigrams[best]) {
            Some(list) => list,
            None => {
                assert(false);
                return None;
            },
        };
        let mut out: Vec<usize> = Vec::new();
        let mut j: usize = 0;
        reveal(Seq::filter);
        assert(first@.take(0).filter(keep) =~= Seq::empty());
        while j < first.len()
            invariant
                n == ts.len(),
                sets@.len() == n,
                keep == (|id: usize| in_all(self.lists@, ts, id)),
                all_have_lists(self.lists@, ts),
                forall|k: int, id: usize|
                    0 <= k < n ==> #[trigger] sets@[k]@.contains(id) == self.lists@[ts[k]]@.contains(
                        id,
                    ),
                j <= first@.len(),
                out@ == first@.take(j as int).filter(keep),
            decreases first.len() - j,
        {
            reveal(Seq::filter);
            let id: usize = first[j];
            assert(first@.take(j + 1).drop_last() =~= first@.take(j as int));
            let mut inside = true;
            let mut k: usize = 0;
            while k < n && inside
                invariant
                    n == ts.len(),
                    sets@.len() == n,
                    k <= n,
                    all_have_lists(self.lists@, ts),
                    forall|k: int, id: usize|
                        0 <= k < n ==> #[trigger] sets@[k]@.contains(id)
                            == self.lists@[ts[k]]@.contains(id),
                    inside ==> forall|m: int|
                        0 <= m < k ==> listed(self.lists@, #[trigger] ts[m], id),
                    !inside ==> !in_all(self.lists@, ts, id),
                decreases n - k,
            {
                if !sets[k].contains(&id) {
                    inside = false;
                    assert(!listed(self.lists@, ts[k as int], id));
                } else {
                    assert(sets@[k as int]@.contains(id));
                    assert(self.lists@.dom().contains(ts[k as int]));
                }
                k += 1;
            }
            assert(inside == in_all(self.lists@, ts, id));
            if inside {
                out.push(id);
            }
            j += 1;
        }
        assert(first@.take(j as int) =~= first@);
        if out.len() > QUERY_CANDIDATE_LIMIT {
            out.truncate(QUERY_CANDIDATE_LIMIT);
            assert(out@ =~= candidates_in(self.lists@, ts).take(QUERY_CANDIDATE_LIMIT as int));
        }
        Some(out)
    }

    /// The paths that a query in lower case looks at.
    pub fn candidate_keys(&self, query: &str) -> (r: Option<Vec<String>>)
        requires
            self.wf(),
        ensures
            match candidates_of(self.lists@, query@) {
                Some(ids) => r is Some && r->0@.len() == ids.len() && forall|k: int|
                    0 <= k < ids.len() ==> (#[trigger] r->0@[k])@
                        == self.slots@[ids[k] as int].key@,
                None => r is None,
            },
    {
        match self.candidates(query) {
            None => None,
            Some(ids) => {
                proof {
                    candidates_are_slots(*self, query@);
                }
                let mut out: Vec<String> = Vec::new();
                let mut i: usize = 0;
                while i < ids.len()
                    invariant
                        i <= ids@.len(),
                        out@.len() == i,
                        forall|k: int| 0 <= k < ids@.len() ==> (#[trigger] ids@[k]) < self.slots@.len(),
                        forall|k: int|
                            0 <= k < i ==> (#[trigger] out@[k])@ == self.slots@[ids@[k] as int].key@,
                    decreases ids.len() - i,
                {
                    out.push(self.slots[ids[i]].key.clone());
                    i += 1;
                }
                Some(out)
            },
        }
    }
}

/// Candidates are slots of the index.
proof fn candidates_are_slots(p: FilesProvider, query: Seq<char>)
    requires
        p.wf(),
    ensures
        match candidates_of(p.lists@, query) {
            Some(ids) => forall|k: int|
                0 <= k < ids.len() ==> (#[trigger] ids[k]) < p.slots@.len(),
            None => true,
        },
{
    let ts = trigrams_of(encode_utf8(query));
    if ts.len() > 0 && all_have_lists(p.lists@, ts) {
        shortest_is_one(p.lists@, ts);
        let t = ts[shortest(p.lists@, ts)];
        let first = p.lists@[t]@;
        let keep = |id: usize| in_all(p.lists@, ts, id);
        assert forall|k: int| 0 <= k < first.filter(keep).len() implies (
        #[trigger] first.filter(keep)[k]) < p.slots@.len() by {
            filtered_is_within(first, keep, k);
            let j = choose|j: int| 0 <= j < first.len() && first[j] == first.filter(keep)[k];
            assert(p.lists@[t]@[j] < p.slots@.len());
        }
    }
}

/// What is left of a list after filtering was in it and passes.
proof fn filtered_is_within(s: Seq<usize>, keep: spec_fn(usize) -> bool, k: int)
    requires
        0 <= k < s.filter(keep).len(),
    ensures
        exists|j: int| 0 <= j < s.len() && s[j] == s.filter(keep)[k],
        keep(s.filter(keep)[k]),
    decreases s.len(),
{
    reveal(Seq::filter);
    let front = s.drop_last();
    if s.len() > 0 {
        if k < front.filter(keep).len() {
            filtered_is_within(front, keep, k);
            let j = choose|j: int| 0 <= j < front.len() && front[j] == front.filter(keep)[k];
            assert(s[j] == s.filter(keep)[k]);
        } else {
            assert(s[s.len() - 1] == s.filter(keep)[k]);
        }
    }
}

/// The files in some slots, in order, those that are gone left out.
pub open spec fn present<'a>(slots: Seq<Slot>, ids: Seq<usize>) -> Seq<&'a IndexedFile>
    decreases ids.len(),
{
    if ids.len() == 0 {
        Seq::empty()
    } else {
        let before = present(slots, ids.drop_last());
        match slots[ids.last() as int].file {
            Some(file) => before.push(&file),
            None => before,
        }
    }
}

/// The first `n` slots.
pub open spec fn first_slots(n: nat) -> Seq<usize> {
    Seq::new(n, |i: int| i as usize)
}

/// The files that a query looks at: those of its candidates, or all where it is too short.
pub open spec fn looked_at<'a>(p: FilesProvider, query: Seq<char>) -> Seq<&'a IndexedFile> {
    match candidates_of(p.lists@, query) {
        Some(ids) => present(p.slots@, ids),
        None => present(p.slots@, first_slots(p.slots@.len())),
    }
}

impl FilesProvider {
    /// The files of some slots.
    fn files_in(&self, ids: &Vec<usize>) -> (r: Vec<&IndexedFile>)
        requires
            self.wf(),
            forall|k: int| 0 <= k < ids@.len() ==> (#[trigger] ids@[k]) < self.slots@.len(),
        ensures
            r@ == present(self.slots@, ids@),
            forall|k: int| 0 <= k < r@.len() ==> (#[trigger] r@[k]).wf(),
    {
        let mut out: Vec<&IndexedFile> = Vec::new();
        let mut i: usize = 0;
        assert(ids@.take(0) =~= Seq::empty());
        while i < ids.len()
            invariant
                self.wf(),
                forall|k: int| 0 <= k < ids@.len() ==> (#[trigger] ids@[k]) < self.slots@.len(),
                i <= ids@.len(),
                out@ == present(self.slots@, ids@.take(i as int)),
                forall|k: int| 0 <= k < out@.len() ==> (#[trigger] out@[k]).wf(),
            decreases ids.len() - i,
        {
            assert(ids@.take(i + 1).drop_last() =~= ids@.take(i as int));
            assert(ids@.take(i + 1).last() == ids@[i as int]);
            let id: usize = ids[i];
            assert(slot_wf(self.slots@[id as int]));
            if let Some(file) = &self.slots[id].file {
                out.push(file);
            }
            i += 1;
        }
        assert(ids@.take(i as int) =~= ids@);
        out
    }

    /// The files that match a query, the best first and not more than the limit. An empty query
    /// matches nothing.
    pub fn query(&self, query: &str, limit: usize, exact: bool) -> (r: Vec<Item>)
        requires
            self.wf(),
        ensures
            if query@.len() == 0 {
                r@.len() == 0
            } else {
                is_ranking(
                    r@,
                    looked_at(*self, lower_of(query@)),
                    lower_of(query@),
                    limit as nat,
                    exact,
                )
            },
    {
        if query.is_empty() {
            return Vec::new();
        }
        let lower = lowercase(query);
        let ids: Vec<usize> = match self.candidates(lower.as_str()) {
            Some(ids) => {
                proof {
                    candidates_are_slots(*self, lower@);
                }
                ids
            },
            None => {
                let n: usize = self.slots.len();
                let mut all: Vec<usize> = Vec::new();
                let mut i: usize = 0;
                while i < n
                    invariant
                        n == self.slots@.len(),
                        i <= n,
                        all@ =~= first_slots(i as nat),
                    decreases n - i,
                {
                    all.push(i);
                    i += 1;
                }
                assert(all@ == first_slots(self.slots@.len()));
                all
            },
        };
        let files = self.files_in(&ids);
        rank_files(&files, lower.as_str(), limit, exact)
    }

    /// What is to be told of changes since the last time this was asked.
    pub fn events(&mut self) -> (r: Vec<Value>)
        requires
            old(self).wf(),
        ensures
            final(self).wf(),
            *final(self) == (FilesProvider { changed: false, ..*old(self) }),
            if old(self).changed {
                r@.len() == 1 && r@[0]@ == index_changed()
            } else {
                r@.len() == 0
            },
    {
        let mut out: Vec<Value> = Vec::new();
        if self.changed {
            let fields = vec![pair("kind", text("index_changed")), pair("provider", text("files"))];
            assert(field_models(fields@) =~= index_changed()->Object_0);
            out.push(object(fields));
        }
        self.changed = false;
        out
    }
}

/// The event that the index changed.
pub open spec fn index_changed() -> Json {
    Json::Object(
        seq![("kind"@, Json::Text("index_changed"@)), ("provider"@, Json::Text("files"@))],
    )
}

/// Whether the index is to be saved now: where it changed, and a while after the last save.
pub fn should_save(dirty: bool, since_save_ms: Option<u64>) -> (r: bool)
    ensures
        r == (dirty && (since_save_ms is None || since_save_ms->0 >= SAVE_DEBOUNCE_MS)),
{
    dirty && match since_save_ms {
        Some(ms) => ms >= SAVE_DEBOUNCE_MS,
        None => true,
    }
}

/// The index once it has been built. Until then, or where none is wanted, the search program
/// answers.
pub struct LazyFilesProvider {
    pub index: Option<FilesProvider>,
}

impl LazyFilesProvider {
    /// The answer of the index, where there is one.
    pub fn query(&self, query: &str, limit: usize, exact: bool) -> (r: Option<Vec<Item>>)
        requires
            self.index is Some ==> self.index->0.wf(),
        ensures
            match self.index {
                None => r is None,
                Some(index) => r is Some && if query@.len() == 0 {
                    r->0@.len() == 0
                } else {
                    is_ranking(
                        r->0@,
                        looked_at(index, lower_of(query@)),
                        lower_of(query@),
                        limit as nat,
                        exact,
                    )
                },
            },
    {
        match &self.index {
            None => None,
            Some(index) => Some(index.query(query, limit, exact)),
        }
    }
}

/// The name of each directory that the search program is told to leave out: those without a
/// slash.
pub open spec fn exclusions(ignored: Seq<String>) -> Seq<Seq<char>>
    decreases ignored.len(),
{
    if ignored.len() == 0 {
        Seq::empty()
    } else if has(ignored.last()@, "/"@) {
        exclusions(ignored.drop_last())
    } else {
        exclusions(ignored.drop_last()).push("--exclude"@).push(ignored.last()@)
    }
}

/// How the search program is called.
pub open spec fn fd_call(
    roots: Seq<String>,
    ignored: Seq<String>,
    query: Seq<char>,
    limit: nat,
) -> Seq<Seq<char>> {
    seq![pattern_of(query)] + texts(roots) + seq![
        "--ignore-vcs"@,
        "--full-path"@,
        "--ignore-case"@,
        "--type"@,
        "file"@,
        "--type"@,
        "directory"@,
    ] + exclusions(ignored) + seq![
        "--max-results"@,
        decimal(
            if limit > QUERY_CANDIDATE_LIMIT {
                limit
            } else {
                QUERY_CANDIDATE_LIMIT as nat
            },
        ),
    ]
}

/// The arguments with which the search program is called. A name without a slash it leaves out by
/// itself; the other entries are applied to what it prints.
pub fn fd_arguments(roots: &Vec<String>, ignored: &Vec<String>, query: &str, limit: usize) -> (r: Vec<
    String,
>)
    ensures
        texts(r@) == fd_call(roots@, ignored@, query@, limit as nat),
{
    let mut out: Vec<String> = Vec::new();
    out.push(fd_pattern(query));
    let ghost head = seq![pattern_of(query@)];
    assert(texts(out@) =~= head);
    let mut i: usize = 0;
    while i < roots.len()
        invariant
            i <= roots@.len(),
            texts(out@) =~= head + texts(roots@).take(i as int),
        decreases roots.len() - i,
    {
        let ghost before = texts(out@);
        out.push(roots[i].clone());
        assert(texts(out@) =~= before.push(roots@[i as int]@));
        assert(texts(roots@).take(i + 1) =~= texts(roots@).take(i as int).push(roots@[i as int]@));
        i += 1;
    }
    assert(texts(roots@).take(i as int) =~= texts(roots@));
    let ghost so_far = texts(out@);
    out.push("--ignore-vcs".to_owned());
    out.push("--full-path".to_owned());
    out.push("--ignore-case".to_owned());
    out.push("--type".to_owned());
    out.push("file".to_owned());
    out.push("--type".to_owned());
    out.push("directory".to_owned());
    let ghost flags = seq![
        "--ignore-vcs"@,
        "--full-path"@,
        "--ignore-case"@,
        "--type"@,
        "file"@,
        "--type"@,
        "directory"@,
    ];
    assert(texts(out@) =~= so_far + flags);
    let ghost middle = texts(out@);
    let mut j: usize = 0;
    assert(ignored@.take(0) =~= Seq::empty());
    assert(middle + exclusions(ignored@.take(0)) =~= middle);
    while j < ignored.len()
        invariant
            j <= ignored@.len(),
            texts(out@) == middle + exclusions(ignored@.take(j as int)),
        decreases ignored.len() - j,
    {
        assert(ignored@.take(j + 1).drop_last() =~= ignored@.take(j as int));
        let ghost before = texts(out@);
        if !crate::text::contains(ignored[j].as_str(), "/") {
            out.push("--exclude".to_owned());
            out.push(ignored[j].clone());
            assert(texts(out@) =~= before.push("--exclude"@).push(ignored@[j as int]@));
            assert(texts(out@) =~= middle + exclusions(ignored@.take(j + 1)));
        }
        j += 1;
    }
    assert(ignored@.take(j as int) =~= ignored@);
    let ghost most = texts(out@);
    out.push("--max-results".to_owned());
    let count: usize = if limit > QUERY_CANDIDATE_LIMIT { limit } else { QUERY_CANDIDATE_LIMIT };
    out.push(write_u64(count as u64));
    assert(texts(out@) =~= fd_call(roots@, ignored@, query@, limit as nat));
    out
}

/// The lines that are not left out.
pub open spec fn kept_lines(lines: Seq<Seq<char>>, ignored: Seq<String>) -> Seq<Seq<char>> {
    lines.filter(|l: Seq<char>| !is_left_out(l, ignored))
}

/// Whether the files are those of the given paths.
pub open spec fn are_files(files: Seq<&IndexedFile>, paths: Seq<Seq<char>>) -> bool {
    &&& files.len() == paths.len()
    &&& forall|i: int|
        0 <= i < files.len() ==> (#[trigger] files[i]).wf() && files[i].display@ == paths[i]
            && files[i].search@ == lower_of(paths[i])
}

/// The results of the search program: what it printed, without what is left out, the best first
/// and not more than the limit. A blank query finds nothing.
pub fn fd_query(printed: &[u8], ignored: &Vec<String>, query: &str, limit: usize, exact: bool) -> (r:
    Vec<Item>)
    ensures
        if trim_of(query@).len() == 0 {
            r@.len() == 0
        } else {
            exists|files: Seq<&IndexedFile>| #[trigger]
                are_files(files, kept_lines(lines_of(lossy_of(printed@)), ignored@)) && is_ranking(
                    r@,
                    files,
                    lower_of(query@),
                    limit as nat,
                    exact,
                )
        },
{
    if crate::text::blank(query) {
        return Vec::new();
    }
    let said = lossy(printed);
    let all = lines(said.as_str());
    let ghost ls = texts(all@);
    let ghost keep = |l: Seq<char>| !is_left_out(l, ignored@);
    let mut kept: Vec<IndexedFile> = Vec::new();
    let mut i: usize = 0;
    reveal(Seq::filter);
    assert(ls.take(0).filter(keep) =~= Seq::empty());
    while i < all.len()
        invariant
            ls == texts(all@),
            keep == (|l: Seq<char>| !is_left_out(l, ignored@)),
            i <= all@.len(),
            kept@.len() == ls.take(i as int).filter(keep).len(),
            forall|k: int|
                0 <= k < kept@.len() ==> (#[trigger] kept@[k]).wf() && kept@[k].display@
                    == ls.take(i as int).filter(keep)[k] && kept@[k].search@ == lower_of(
                    ls.take(i as int).filter(keep)[k],
                ),
        decreases all.len() - i,
    {
        reveal(Seq::filter);
        assert(ls.take(i + 1).drop_last() =~= ls.take(i as int));
        assert(ls.take(i + 1).last() == all@[i as int]@);
        if !is_ignored_path(all[i].as_str(), ignored) {
            kept.push(IndexedFile::new(all[i].as_str()));
        }
        i += 1;
    }
    assert(ls.take(i as int) =~= ls);
    let mut files: Vec<&IndexedFile> = Vec::new();
    let mut j: usize = 0;
    while j < kept.len()
        invariant
            j <= kept@.len(),
            files@.len() == j,
            forall|k: int| 0 <= k < j ==> *(#[trigger] files@[k]) == kept@[k],
        decreases kept.len() - j,
    {
        files.push(&kept[j]);
        j += 1;
    }
    let lower = lowercase(query);
    let ghost paths = kept_lines(lines_of(lossy_of(printed@)), ignored@);
    assert forall|k: int| 0 <= k < files@.len() implies (#[trigger] files@[k]).wf()
        && files@[k].display@ == paths[k] && files@[k].search@ == lower_of(paths[k]) by {
        assert(kept@[k].wf());
    }
    assert(are_files(files@, paths));
    rank_files(&files, lower.as_str(), limit, exact)
}

/// How the provider describes itself.
pub fn files_capability() -> (r: ProviderCapability)
    ensures
        r.name@ == "files"@,
        r.name_pretty@ == "Files"@,
        r.description@ == "Search indexed files and directories"@,
        r.icon@.len() == 0,
        r.prefixes@.len() == 0,
        r.actions.wf(),
        r.actions@.dom() == set!["open"@, "open_dir"@, "copy_path"@, "copy_file"@, "reindex"@],
        r.actions@["open"@].is_plain("Open"@),
        r.actions@["open_dir"@].is_plain("Open Directory"@),
        r.actions@["copy_path"@].is_plain("Copy Path"@),
        r.actions@["copy_file"@].is_plain("Copy File Content"@),
        r.actions@["reindex"@].is_async("Reindex"@),
        r.supports_query && r.supports_activate && r.supports_streaming && r.supports_subscriptions
            && r.emits_events,
{
    let open = ActionCapability::new("Open");
    let open_dir = ActionCapability::new("Open Directory");
    let copy_path = ActionCapability::new("Copy Path");
    let copy_file = ActionCapability::new("Copy File Content");
    let reindex = ActionCapability::new("Reindex").async_action();
    let mut actions: TextMap<ActionCapability> = TextMap::new();
    actions.insert("open".to_owned(), open);
    actions.insert("open_dir".to_owned(), open_dir);
    actions.insert("copy_path".to_owned(), copy_path);
    actions.insert("copy_file".to_owned(), copy_file);
    actions.insert("reindex".to_owned(), reindex);
    proof {
        reveal_strlit("open");
        reveal_strlit("open_dir");
        reveal_strlit("copy_path");
        reveal_strlit("copy_file");
        reveal_strlit("reindex");
        assert("open"@.len() == 4 && "open_dir"@.len() == 8 && "copy_path"@.len() == 9
            && "copy_file"@.len() == 9 && "reindex"@.len() == 7);
        assert("copy_path"@[5] == 'p' && "copy_file"@[5] == 'f');
        assert(actions@.dom() =~= set![
            "open"@,
            "open_dir"@,
            "copy_path"@,
            "copy_file"@,
            "reindex"@,
        ]);
    }
    ProviderCapability {
        name: "files".to_owned(),
        name_pretty: "Files".to_owned(),
        description: "Search indexed files and directories".to_owned(),
        icon: String::new(),
        prefixes: Vec::new(),
        actions,
        supports_query: true,
        supports_activate: true,
        supports_streaming: true,
        supports_subscriptions: true,
        emits_events: true,
    }
}

/// A file that holds the query as a whole is among the candidates, before their number is limited:
/// the lists of trigrams lose no exact match.
pub proof fn candidates_are_complete(p: FilesProvider, query: Seq<char>, id: usize, at: int)
    requires
        p.wf(),
        id < p.slots@.len(),
        p.slots@[id as int].file is Some,
        crate::bytes::bytes_at(
            encode_utf8(p.slots@[id as int].file->0.search@),
            encode_utf8(query),
            at,
        ),
        trigrams_of(encode_utf8(query)).len() > 0,
    ensures
        candidates_in(p.lists@, trigrams_of(encode_utf8(query))).contains(id),
{
    let file = p.slots@[id as int].file->0;
    let s = encode_utf8(file.search@);
    let q = encode_utf8(query);
    let ts = trigrams_of(q);
    trigrams_are_all(q);
    trigrams_are_all(s);
    assert(slot_listed(p.slots@[id as int], id, p.lists@));
    assert forall|i: int| 0 <= i < ts.len() implies listed(p.lists@, #[trigger] ts[i], id) by {
        assert(ts.contains(ts[i]));
        let j = choose|j: int| 0 <= j && j + 3 <= q.len() && #[trigger] trigram(q, j) == ts[i];
        assert(s.subrange(at, at + q.len())[j] == s[at + j]);
        assert(s.subrange(at, at + q.len())[j + 1] == s[at + j + 1]);
        assert(s.subrange(at, at + q.len())[j + 2] == s[at + j + 2]);
        assert(trigram(s, at + j) == ts[i]);
        assert(trigrams_of(s).contains(ts[i]));
    }
    shortest_is_one(p.lists@, ts);
    let first = p.lists@[ts[shortest(p.lists@, ts)]]@;
    let keep = |id: usize| in_all(p.lists@, ts, id);
    assert(listed(p.lists@, ts[shortest(p.lists@, ts)], id));
    assert(first.contains(id));
    filter_keeps(first, keep, id);
}

/// Filtering keeps what passes.
proof fn filter_keeps(s: Seq<usize>, keep: spec_fn(usize) -> bool, x: usize)
    requires
        s.contains(x),
        keep(x),
    ensures
        s.filter(keep).contains(x),
    decreases s.len(),
{
    reveal(Seq::filter);
    let k = choose|k: int| 0 <= k < s.len() && s[k] == x;
    let front = s.drop_last();
    if k == s.len() - 1 {
        let f = s.filter(keep);
        assert(f[f.len() - 1] == x);
    } else {
        assert(front[k] == x);
        assert(front.contains(x));
        filter_keeps(front, keep, x);
        let j = choose|j: int|
            0 <= j < front.filter(keep).len() && front.filter(keep)[j] == x;
        assert(s.filter(keep)[j] == x);
    }
}

/// A match in the name of a file counts for more than one in a directory above it.
pub proof fn name_matches_outrank_ancestor_matches(search: Seq<char>, above: int, within: int)
    requires
        above < name_start(without_slash(encode_utf8(search))) <= within,
    ensures
        name_bonus(search, above) < name_bonus(search, within),
{
}

/// What is listed is what is acted on: the result of a file opens that file, shows the directory that it
/// lies in, copies its path or copies what it holds.
pub proof fn a_result_acts_on_its_file(
    item: Item,
    file: IndexedFile,
    query: Seq<char>,
    exact: bool,
    action: Seq<char>,
    is_dir: bool,
    dir: Seq<char>,
    name: Seq<char>,
    r: Result<FileStep, String>,
)
    requires
        is_file_item(item, file, query, exact),
        is_file_step(r, item.identifier@, action, is_dir),
        file.display@ == dir + seq!['/'] + name,
        dir.len() > 0,
        dir.last() != '/',
        dir.last() != '.',
        is_plain_name(name),
    ensures
        action == "open"@ ==> (r matches Ok(FileStep::Run(c)) && c@ == "xdg-open "@ + shell_quoted(
            file.display@,
        )),
        action == "open_dir"@ && !is_dir ==> (r matches Ok(FileStep::Run(c)) && c@ == "xdg-open "@
            + shell_quoted(dir)),
        action == "open_dir"@ && is_dir ==> (r matches Ok(FileStep::Run(c)) && c@ == "xdg-open "@
            + shell_quoted(file.display@)),
        action == "copy_path"@ ==> (r matches Ok(FileStep::CopyText(t)) && t@ == file.display@),
        action == "copy_file"@ ==> (r matches Ok(FileStep::CopyAs(p, _)) && p@ == file.display@) || (
        r matches Ok(FileStep::CopyContent(p)) && p@ == file.display@),
        !(seq!["open"@, "open_dir"@, "copy_path"@, "copy_file"@, "reindex"@].contains(action))
            ==> r is Err,
{
    file_actions_differ();
    a_file_lies_in_its_directory(dir, name);
    let all = seq!["open"@, "open_dir"@, "copy_path"@, "copy_file"@, "reindex"@];
    assert(all[0] == "open"@ && all[1] == "open_dir"@ && all[2] == "copy_path"@ && all[3]
        == "copy_file"@ && all[4] == "reindex"@);
}

/// No action is another.
proof fn file_actions_differ()
    ensures
        "open"@ != "open_dir"@ && "open"@ != "copy_path"@ && "open"@ != "copy_file"@,
        "open_dir"@ != "copy_path"@ && "open_dir"@ != "copy_file"@,
        "copy_path"@ != "copy_file"@,
{
    reveal_strlit("open");
    reveal_strlit("open_dir");
    reveal_strlit("copy_path");
    reveal_strlit("copy_file");
    assert("open"@.len() == 4 && "open_dir"@.len() == 8 && "copy_path"@.len() == 9
        && "copy_file"@.len() == 9);
    assert("copy_path"@[5] == 'p' && "copy_file"@[5] == 'f');
}

/// An image is copied as what its extension says that it is, in whatever case that is written; what is
/// no image is copied as text.
pub proof fn an_image_is_copied_as_one(
    path: Seq<char>,
    is_dir: bool,
    r: Result<FileStep, String>,
)
    requires
        is_file_step(r, path, "copy_file"@, is_dir),
    ensures
        lower_extension(path) == "png"@ ==> (r matches Ok(FileStep::CopyAs(p, m)) && p@ == path && m@
            == "image/png"@),
        lower_extension(path) == "jpg"@ || lower_extension(path) == "jpeg"@ ==> (r matches Ok(
            FileStep::CopyAs(p, m),
        ) && p@ == path && m@ == "image/jpeg"@),
        lower_extension(path) == "svg"@ ==> (r matches Ok(FileStep::CopyAs(p, m)) && p@ == path && m@
            == "image/svg+xml"@),
        lower_extension(path) == "txt"@ ==> (r matches Ok(FileStep::CopyContent(p)) && p@ == path),
{
    file_actions_differ();
    reveal_strlit("png");
    reveal_strlit("jpg");
    reveal_strlit("jpeg");
    reveal_strlit("gif");
    reveal_strlit("bmp");
    reveal_strlit("webp");
    reveal_strlit("svg");
    reveal_strlit("tif");
    reveal_strlit("tiff");
    reveal_strlit("ico");
    reveal_strlit("avif");
    reveal_strlit("txt");
    assert("png"@[0] == 'p' && "jpg"@[0] == 'j' && "jpeg"@[0] == 'j' && "gif"@[0] == 'g'
        && "bmp"@[0] == 'b' && "webp"@[0] == 'w' && "svg"@[0] == 's' && "tif"@[0] == 't'
        && "tiff"@[0] == 't' && "ico"@[0] == 'i' && "avif"@[0] == 'a' && "txt"@[0] == 't');
    assert("tif"@[1] == 'i' && "tiff"@[1] == 'i' && "txt"@[1] == 'x');
}

/// The results come by their scores, the highest first.
pub proof fn better_files_come_first(
    items: Seq<Item>,
    files: Seq<&IndexedFile>,
    query: Seq<char>,
    limit: nat,
    exact: bool,
    a: int,
    b: int,
)
    requires
        is_ranking(items, files, query, limit, exact),
        0 <= a < b < items.len(),
    ensures
        items[a].score >= items[b].score,
        items.len() <= limit,
{
    let hits = matching(files, query, exact);
    let order = choose|order: Seq<usize>|
        #![trigger is_arrangement(order, hits.len())]
        {
            &&& is_arrangement(order, hits.len())
            &&& forall|a: int, b: int|
                0 <= a < b < order.len() ==> #[trigger] hit_before(
                    files,
                    hits,
                    query,
                    exact,
                    order[a],
                    order[b],
                )
            &&& forall|k: int|
                0 <= k < items.len() ==> is_file_item(
                    #[trigger] items[k],
                    *files[hits[order[k] as int]],
                    query,
                    exact,
                )
        };
    assert(hit_before(files, hits, query, exact, order[a], order[b]));
    assert(is_file_item(items[a], *files[hits[order[a] as int]], query, exact));
    assert(is_file_item(items[b], *files[hits[order[b] as int]], query, exact));
}

/// A file that is in the index is found by any part of its path, as long as there are no more matches
/// than are asked for and no more candidates than are looked at.
pub proof fn an_indexed_file_is_found(
    p: FilesProvider,
    items: Seq<Item>,
    query: Seq<char>,
    path: Seq<char>,
    at: int,
    limit: nat,
    exact: bool,
)
    requires
        p.wf(),
        p.file_at(path) is Some,
        crate::bytes::bytes_at(encode_utf8(p.file_at(path)->0.search@), encode_utf8(query), at),
        match_of(query, p.file_at(path)->0.search@, exact) is Some,
        trigrams_of(encode_utf8(query)).len() > 0,
        candidates_in(p.lists@, trigrams_of(encode_utf8(query))).len() <= 5_000,
        is_ranking(items, looked_at(p, query), query, limit, exact),
        matching(looked_at(p, query), query, exact).len() <= limit,
        looked_at(p, query).len() <= usize::MAX,
    ensures
        exists|k: int| 0 <= k < items.len() && (#[trigger] items[k]).identifier@ == path,
{
    let id = p.ids@[path];
    let file = p.file_at(path)->0;
    assert(slot_wf(p.slots@[id as int]));
    candidates_are_complete(p, query, id, at);
    let ids = candidates_of(p.lists@, query)->0;
    assert(ids == candidates_in(p.lists@, trigrams_of(encode_utf8(query))));
    let files = looked_at(p, query);
    let n = choose|n: int| 0 <= n < ids.len() && ids[n] == id;
    present_holds(p.slots@, ids, n);
    let f = choose|f: int| 0 <= f < files.len() && *(#[trigger] files[f]) == file;
    matching_holds(files, query, exact, f);
    let hits = matching(files, query, exact);
    let h = choose|h: int| 0 <= h < hits.len() && (#[trigger] hits[h]) == f;
    matching_fits(files, query, exact);
    let order = choose|order: Seq<usize>|
        #![trigger is_arrangement(order, hits.len())]
        {
            &&& is_arrangement(order, hits.len())
            &&& forall|a: int, b: int|
                0 <= a < b < order.len() ==> #[trigger] hit_before(
                    files,
                    hits,
                    query,
                    exact,
                    order[a],
                    order[b],
                )
            &&& forall|k: int|
                0 <= k < items.len() ==> is_file_item(
                    #[trigger] items[k],
                    *files[hits[order[k] as int]],
                    query,
                    exact,
                )
        };
    assert(order.contains(h as usize));
    let k = choose|k: int| 0 <= k < order.len() && order[k] == h as usize;
    assert(is_file_item(items[k], *files[hits[order[k] as int]], query, exact));
    assert(items[k].identifier@ == path);
}

/// The file of a slot is among those of the slots.
proof fn present_holds(slots: Seq<Slot>, ids: Seq<usize>, n: int)
    requires
        0 <= n < ids.len(),
        slots[ids[n] as int].file is Some,
    ensures
        exists|f: int|
            0 <= f < present(slots, ids).len() && *(#[trigger] present(slots, ids)[f])
                == slots[ids[n] as int].file->0,
    decreases ids.len(),
{
    let front = ids.drop_last();
    let before = present(slots, front);
    let all = present(slots, ids);
    if n < front.len() {
        present_holds(slots, front, n);
        let f = choose|f: int|
            0 <= f < before.len() && *(#[trigger] before[f]) == slots[front[n] as int].file->0;
        assert(all[f] == before[f]);
    } else {
        assert(*all[before.len() as int] == slots[ids[n] as int].file->0);
    }
}

/// The files of slots are those of some of the slots.
proof fn present_is_of(slots: Seq<Slot>, ids: Seq<usize>, f: int)
    requires
        0 <= f < present(slots, ids).len(),
    ensures
        exists|n: int|
            0 <= n < ids.len() && slots[#[trigger] ids[n] as int].file == Some(
                *present(slots, ids)[f],
            ),
    decreases ids.len(),
{
    let front = ids.drop_last();
    let before = present(slots, front);
    if f < before.len() {
        present_is_of(slots, front, f);
        let n = choose|n: int|
            0 <= n < front.len() && slots[#[trigger] front[n] as int].file == Some(*before[f]);
        assert(ids[n] == front[n]);
    } else {
        assert(slots[ids[ids.len() - 1] as int].file == Some(*present(slots, ids)[f]));
    }
}

/// A file that matches is among the matches.
proof fn matching_holds(files: Seq<&IndexedFile>, query: Seq<char>, exact: bool, f: int)
    requires
        0 <= f < files.len(),
        match_of(query, files[f].search@, exact) is Some,
    ensures
        exists|h: int|
            0 <= h < matching(files, query, exact).len() && (#[trigger] matching(
                files,
                query,
                exact,
            )[h]) == f,
    decreases files.len(),
{
    let front = files.drop_last();
    let before = matching(front, query, exact);
    let all = matching(files, query, exact);
    if f < front.len() {
        matching_holds(front, query, exact, f);
        let h = choose|h: int| 0 <= h < before.len() && (#[trigger] before[h]) == f;
        assert(all[h] == before[h]);
    } else {
        assert(all[before.len() as int] == f);
    }
}

/// There are no more matches than files, and each is one of them.
proof fn matching_fits(files: Seq<&IndexedFile>, query: Seq<char>, exact: bool)
    ensures
        matching(files, query, exact).len() <= files.len(),
        forall|h: int|
            0 <= h < matching(files, query, exact).len() ==> 0 <= (#[trigger] matching(
                files,
                query,
                exact,
            )[h]) < files.len(),
    decreases files.len(),
{
    if files.len() > 0 {
        matching_fits(files.drop_last(), query, exact);
        let before = matching(files.drop_last(), query, exact);
        let all = matching(files, query, exact);
        assert forall|h: int| 0 <= h < all.len() implies 0 <= (#[trigger] all[h]) < files.len() by {
            if h < before.len() {
                assert(all[h] == before[h]);
            }
        }
    }
}

/// What is not in the index, or not any more, is not found.
pub proof fn what_is_gone_is_not_found(
    p: FilesProvider,
    items: Seq<Item>,
    query: Seq<char>,
    path: Seq<char>,
    limit: nat,
    exact: bool,
    k: int,
)
    requires
        p.wf(),
        p.file_at(path) is None,
        is_ranking(items, looked_at(p, query), query, limit, exact),
        0 <= k < items.len(),
    ensures
        items[k].identifier@ != path,
        p.file_at(items[k].identifier@) is Some,
{
    let files = looked_at(p, query);
    let hits = matching(files, query, exact);
    matching_fits(files, query, exact);
    let order = choose|order: Seq<usize>|
        #![trigger is_arrangement(order, hits.len())]
        {
            &&& is_arrangement(order, hits.len())
            &&& forall|a: int, b: int|
                0 <= a < b < order.len() ==> #[trigger] hit_before(
                    files,
                    hits,
                    query,
                    exact,
                    order[a],
                    order[b],
                )
            &&& forall|k: int|
                0 <= k < items.len() ==> is_file_item(
                    #[trigger] items[k],
                    *files[hits[order[k] as int]],
                    query,
                    exact,
                )
        };
    let f = hits[order[k] as int];
    assert(is_file_item(items[k], *files[f], query, exact));
    let ids = match candidates_of(p.lists@, query) {
        Some(ids) => ids,
        None => first_slots(p.slots@.len()),
    };
    present_is_of(p.slots@, ids, f);
    candidates_are_slots(p, query);
    let n = choose|n: int|
        0 <= n < ids.len() && p.slots@[#[trigger] ids[n] as int].file == Some(*files[f]);
    let slot = p.slots@[ids[n] as int];
    assert(slot_wf(slot));
    assert(p.ids@.dom().contains(slot.key@) && p.ids@[slot.key@] == ids[n]);
}

/// A directory that is removed takes along what lies below it, and nothing else: not what is only
/// called similarly.
pub proof fn what_lies_below_goes_along(top: Seq<char>, rest: Seq<char>, c: char)
    requires
        c != '/',
    ensures
        is_within(top, top),
        is_within(top + seq!['/'] + rest, top),
        !is_within(top + seq![c] + rest, top),
{
    reveal_strlit("/");
    assert("/"@ =~= seq!['/']);
    let below = top + seq!['/'] + rest;
    let n = top.len() as int + 1;
    assert(below.subrange(0, n) =~= top + seq!['/']);
    let beside = top + seq![c] + rest;
    assert(beside.len() > top.len());
    if begins_with(beside, top + "/"@) {
        assert(beside.subrange(0, n)[top.len() as int] == '/');
        assert(beside[top.len() as int] == c);
    }
}

/// A whole path leaves out what begins with its components, and a name what has it as a component
/// anywhere.
pub proof fn what_is_left_out_is_told_by_components(
    entry: Seq<char>,
    path: Seq<char>,
    i: int,
    ignored: Seq<String>,
    k: int,
)
    ensures
        entry.len() > 0 && entry[0] == '/' && covers(entry, path) ==> components_of(entry).len()
            <= components_of(path).len() && (0 <= i < components_of(entry).len() ==> components_of(
            path,
        )[i] == components_of(entry)[i]),
        entry.len() > 0 && entry[0] != '/' && 0 <= i < components_of(path).len() && components_of(
            path,
        )[i] == entry ==> covers(entry, path),
        covers(entry, entry) || entry.len() == 0 || entry[0] != '/',
        0 <= k < ignored.len() && covers(ignored[k]@, path) ==> is_left_out(path, ignored),
        ignored.len() == 0 ==> !is_left_out(path, ignored),
{
    reveal_strlit("/");
    if entry.len() > 0 && entry[0] == '/' {
        assert(entry.subrange(0, 1) =~= "/"@);
        let c = components_of(entry);
        assert(c.take(c.len() as int) =~= c);
        if covers(entry, path) && 0 <= i < c.len() {
            assert(components_of(path).take(c.len() as int)[i] == components_of(path)[i]);
        }
    }
    if entry.len() > 0 && entry[0] != '/' {
        if begins_with(entry, "/"@) {
            assert(entry.subrange(0, 1)[0] == entry[0]);
        }
    }
}

/// What a pattern in which characters are escaped stands for.
pub open spec fn pattern_reads(p: Seq<char>) -> Seq<char>
    decreases p.len(),
{
    if p.len() == 0 {
        Seq::empty()
    } else if p[0] == '\\' && p.len() >= 2 {
        seq![p[1]] + pattern_reads(p.skip(2))
    } else {
        seq![p[0]] + pattern_reads(p.drop_first())
    }
}

/// The pattern of a query stands for the query, character by character.
pub proof fn a_pattern_stands_for_its_query(query: Seq<char>)
    ensures
        pattern_reads(pattern_of(query)) == query,
    decreases query.len(),
{
    if query.len() > 0 {
        let c = query[0];
        let rest = query.drop_first();
        pattern_from_the_front(query);
        a_pattern_stands_for_its_query(rest);
        let p = pattern_of(query);
        if is_literal(c) {
            assert(c != '\\');
            assert(p.drop_first() =~= pattern_of(rest));
        } else {
            assert(p.skip(2) =~= pattern_of(rest));
        }
        assert(seq![c] + rest =~= query);
    }
}

/// The pattern of a query begins with that of its first character.
proof fn pattern_from_the_front(query: Seq<char>)
    requires
        query.len() > 0,
    ensures
        pattern_of(query) == (if is_literal(query[0]) {
            seq![query[0]]
        } else {
            seq!['\\', query[0]]
        }) + pattern_of(query.drop_first()),
    decreases query.len(),
{
    let head = if is_literal(query[0]) {
        seq![query[0]]
    } else {
        seq!['\\', query[0]]
    };
    let rest = query.drop_first();
    if query.len() == 1 {
        assert(query.drop_last() =~= Seq::empty());
        assert(pattern_of(query.drop_last()) =~= Seq::empty());
        assert(rest =~= Seq::empty());
        assert(pattern_of(query) =~= head + pattern_of(rest));
    } else {
        pattern_from_the_front(query.drop_last());
        assert(query.drop_last().drop_first() =~= rest.drop_last());
        assert(query.last() == rest.last());
        assert(pattern_of(query) =~= head + pattern_of(rest));
    }
}

/// The search program is told what to look for, where, and what to leave out: the pattern comes first,
/// every root is named, every name that is left out follows `--exclude`, and at least as many results
/// are asked for as are wanted.
pub proof fn the_search_program_is_told_everything(
    roots: Seq<String>,
    ignored: Seq<String>,
    query: Seq<char>,
    limit: nat,
    r: int,
    k: int,
)
    requires
        0 <= r < roots.len(),
        0 <= k < ignored.len(),
        !(has(ignored[k]@, "/"@)),
    ensures
        fd_call(roots, ignored, query, limit)[0] == pattern_of(query),
        fd_call(roots, ignored, query, limit)[1 + r] == roots[r]@,
        exists|i: int|
            0 <= i < fd_call(roots, ignored, query, limit).len() - 1 && #[trigger] fd_call(
                roots,
                ignored,
                query,
                limit,
            )[i] == "--exclude"@ && fd_call(roots, ignored, query, limit)[i + 1] == ignored[k]@,
        fd_call(roots, ignored, query, limit)[fd_call(roots, ignored, query, limit).len() - 2]
            == "--max-results"@,
        exists|n: nat| n >= limit && fd_call(roots, ignored, query, limit).last() == #[trigger] decimal(
            n,
        ),
{
    let call = fd_call(roots, ignored, query, limit);
    let head = seq![pattern_of(query)] + texts(roots) + seq![
        "--ignore-vcs"@,
        "--full-path"@,
        "--ignore-case"@,
        "--type"@,
        "file"@,
        "--type"@,
        "directory"@,
    ];
    let out = exclusions(ignored);
    exclusions_name(ignored, k);
    let x = choose|x: int|
        0 <= x < out.len() - 1 && #[trigger] out[x] == "--exclude"@ && out[x + 1] == ignored[k]@;
    assert(call[head.len() + x] == out[x]);
    assert(call[head.len() + x + 1] == out[x + 1]);
    assert(texts(roots)[r] == roots[r]@);
    let n: nat = if limit > QUERY_CANDIDATE_LIMIT {
        limit
    } else {
        QUERY_CANDIDATE_LIMIT as nat
    };
    assert(call.last() == decimal(n));
}

/// A name without a slash is excluded.
proof fn exclusions_name(ignored: Seq<String>, k: int)
    requires
        0 <= k < ignored.len(),
        !(has(ignored[k]@, "/"@)),
    ensures
        exists|x: int|
            0 <= x < exclusions(ignored).len() - 1 && #[trigger] exclusions(ignored)[x]
                == "--exclude"@ && exclusions(ignored)[x + 1] == ignored[k]@,
    decreases ignored.len(),
{
    let front = ignored.drop_last();
    let before = exclusions(front);
    let all = exclusions(ignored);
    if k < front.len() {
        exclusions_name(front, k);
        let x = choose|x: int|
            0 <= x < before.len() - 1 && #[trigger] before[x] == "--exclude"@ && before[x + 1]
                == front[k]@;
        assert(all[x] == before[x] && all[x + 1] == before[x + 1]);
    } else {
        let x = before.len() as int;
        assert(all[x] == "--exclude"@ && all[x + 1] == ignored[k]@);
    }
}

/// What the search program printed counts unless it is left out.
pub proof fn what_was_printed_counts(lines: Seq<Seq<char>>, ignored: Seq<String>, line: Seq<char>)
    requires
        lines.contains(line),
    ensures
        kept_lines(lines, ignored).contains(line) <==> !is_left_out(line, ignored),
        kept_lines(lines, ignored).len() <= lines.len(),
{
    let keep = |l: Seq<char>| !is_left_out(l, ignored);
    lines.filter_lemma(keep);
    lines.lemma_filter_len(keep);
    if keep(line) {
        let k = choose|k: int| 0 <= k < lines.len() && lines[k] == line;
        assert(keep(lines[k]));
    }
    let kept = kept_lines(lines, ignored);
    if kept.contains(line) {
        let i = choose|i: int| 0 <= i < kept.len() && kept[i] == line;
        assert(keep(kept[i]));
    }
}

/// An image is told by its extension: most are called as their kind.
pub proof fn an_image_is_told_by_its_extension(extension: Seq<char>)
    ensures
        extension == "png"@ || extension == "jpeg"@ || extension == "gif"@ || extension == "bmp"@
            || extension == "webp"@ || extension == "tiff"@ || extension == "avif"@ ==> mime_of(
            extension,
        ) == Some("image/"@ + extension),
        extension == "jpg"@ ==> mime_of(extension) == Some("image/jpeg"@),
        extension == "tif"@ ==> mime_of(extension) == Some("image/tiff"@),
        extension == "svg"@ ==> mime_of(extension) == Some("image/svg+xml"@),
        extension == "ico"@ ==> mime_of(extension) == Some("image/vnd.microsoft.icon"@),
        extension.len() == 0 || extension.len() > 4 ==> mime_of(extension) is None,
{
    reveal_strlit("image/");
    reveal_strlit("png");
    reveal_strlit("jpg");
    reveal_strlit("jpeg");
    reveal_strlit("gif");
    reveal_strlit("bmp");
    reveal_strlit("webp");
    reveal_strlit("svg");
    reveal_strlit("tif");
    reveal_strlit("tiff");
    reveal_strlit("ico");
    reveal_strlit("avif");
    reveal_strlit("image/png");
    reveal_strlit("image/jpeg");
    reveal_strlit("image/gif");
    reveal_strlit("image/bmp");
    reveal_strlit("image/webp");
    reveal_strlit("image/tiff");
    reveal_strlit("image/avif");
    assert("png"@[0] == 'p' && "jpg"@[0] == 'j' && "jpeg"@[0] == 'j' && "gif"@[0] == 'g');
    assert("bmp"@[0] == 'b' && "webp"@[0] == 'w' && "svg"@[0] == 's' && "tif"@[0] == 't');
    assert("tiff"@[0] == 't' && "ico"@[0] == 'i' && "avif"@[0] == 'a');
    assert("image/png"@ =~= "image/"@ + "png"@);
    assert("image/jpeg"@ =~= "image/"@ + "jpeg"@);
    assert("image/gif"@ =~= "image/"@ + "gif"@);
    assert("image/bmp"@ =~= "image/"@ + "bmp"@);
    assert("image/webp"@ =~= "image/"@ + "webp"@);
    assert("image/tiff"@ =~= "image/"@ + "tiff"@);
    assert("image/avif"@ =~= "image/"@ + "avif"@);
}

/// That the files changed is told as an event of this provider.
pub proof fn a_change_of_files_is_told()
    ensures
        index_changed().field("kind"@) == Some(Json::Text("index_changed"@)),
        index_changed().field("provider"@) == Some(Json::Text("files"@)),
{
    reveal_strlit("kind");
    reveal_strlit("provider");
    assert("kind"@.len() == 4 && "provider"@.len() == 8);
    crate::json::a_field_is_found(index_changed()->Object_0, 0);
    crate::json::a_field_is_found(index_changed()->Object_0, 1);
}

} // verus!
