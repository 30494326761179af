//! The history of the clipboard.

use vstd::prelude::*;
use vstd::string::*;
use vstd::utf8::encode_utf8;

use crate::bytes::{hex_text, write_hex};
use crate::fuzzy::{indices, match_of, score, Match};
use crate::keyed::TextMap;
use crate::number::{wrap, wrapped};
use crate::path::{join_path, joined_path};
use crate::providers::{
    hits_stand_in_order, is_top, matching_texts, matching_texts_bounds, nothing_better_is_left_out,
    nothing_is_left_out_below_the_limit, top_items, what_matches_is_a_hit,
};
use crate::text::{
    begins_with, blank, chars_of, lines, lines_of, lower_of, same, shell_quote, shell_quoted, slice,
    starts, string_of, texts, trim_of, trim_start, trim_start_of,
};
use crate::types::{ActionCapability, Item, ItemType, ProviderCapability};

verus! {

/// What kind of thing was copied.
#[derive(Debug, Clone, Copy, PartialEq, Eq, Structural)]
pub enum ClipKind {
    Text,
    Image,
}

/// Something that was copied.
#[derive(Debug)]
pub struct Clip {
    pub id: String,
    pub kind: ClipKind,
    pub content: String,
    pub image_path: Option<String>,
    pub mime: Option<String>,
    pub ocr: String,
    pub pinned: bool,
}

/// What was copied, the latest first but for what is pinned.
#[derive(Debug)]
pub struct ClipboardProvider {
    pub items: Vec<Clip>,
    pub max_items: usize,
    /// Whether images are read for text.
    pub ocr: bool,
}

/// The hash of bytes: each is mixed in, and the whole is multiplied and cut to 64 bits.
pub open spec fn hash_of(bytes: Seq<u8>) -> u64
    decreases bytes.len(),
{
    if bytes.len() == 0 {
        1469598103934665603
    } else {
        (((hash_of(bytes.drop_last()) ^ (bytes.last() as u64)) as nat * 1099511628211)
            % 0x1_0000_0000_0000_0000) as u64
    }
}

/// A hash that depends on the bytes alone.
pub fn stable_hash(bytes: &[u8]) -> (r: u64)
    ensures
        r == hash_of(bytes@),
{
    let mut hash: u64 = 1469598103934665603;
    let mut i: usize = 0;
    assert(bytes@.take(0) =~= Seq::empty());
    while i < bytes.len()
        invariant
            i <= bytes@.len(),
            hash == hash_of(bytes@.take(i as int)),
        decreases bytes.len() - i,
    {
        assert(bytes@.take(i + 1).drop_last() =~= bytes@.take(i as int));
        let mixed: u64 = hash ^ (bytes[i] as u64);
        assert(mixed as int * 1099511628211 <= u64::MAX as int * 1099511628211) by (nonlinear_arith)
            requires
                mixed <= u64::MAX,
        ;
        let product: u128 = (mixed as u128) * 1099511628211;
        hash = (product % 0x1_0000_0000_0000_0000) as u64;
        i += 1;
    }
    assert(bytes@.take(i as int) =~= bytes@);
    hash
}

/// The id of a text.
pub open spec fn text_id(content: Seq<char>) -> Seq<char> {
    "text-"@ + hex_text(hash_of(encode_utf8(content)) as nat)
}

/// The id of an image.
pub open spec fn image_id_of(data: Seq<u8>) -> Seq<char> {
    "image-"@ + hex_text(hash_of(data) as nat)
}

/// The id of a text.
fn id_of_text(content: &str) -> (r: String)
    ensures
        r@ == text_id(content@),
{
    let mut id = "text-".to_owned();
    id.append(write_hex(stable_hash(content.as_bytes())).as_str());
    id
}

/// The id of an image.
pub fn image_id(data: &[u8]) -> (r: String)
    ensures
        r@ == image_id_of(data@),
{
    let mut id = "image-".to_owned();
    id.append(write_hex(stable_hash(data)).as_str());
    id
}

/// The extension of the file of an image.
pub open spec fn extension_for(mime: Seq<char>) -> Seq<char> {
    if mime == "image/jpeg"@ {
        "jpg"@
    } else if mime == "image/gif"@ {
        "gif"@
    } else if mime == "image/webp"@ {
        "webp"@
    } else if mime == "image/bmp"@ {
        "bmp"@
    } else {
        "png"@
    }
}

/// The extension of the file of an image.
pub fn image_extension(mime: &str) -> (r: String)
    ensures
        r@ == extension_for(mime@),
{
    let extension = if same(mime, "image/jpeg") {
        "jpg"
    } else if same(mime, "image/gif") {
        "gif"
    } else if same(mime, "image/webp") {
        "webp"
    } else if same(mime, "image/bmp") {
        "bmp"
    } else {
        "png"
    };
    extension.to_owned()
}

/// Where the file of an image is kept.
pub fn image_file(directory: &str, id: &str, mime: &str) -> (r: String)
    ensures
        r@ == joined_path(directory@, id@ + "."@ + extension_for(mime@)),
{
    let mut name = id.to_owned();
    name.append(".");
    name.append(image_extension(mime).as_str());
    join_path(directory, name.as_str())
}

/// The index of the first line that names an image type, or the number of lines.
pub open spec fn image_line(lines: Seq<Seq<char>>) -> int
    decreases lines.len(),
{
    if lines.len() == 0 || begins_with(lines[0], "image/"@) {
        0
    } else {
        1 + image_line(lines.drop_first())
    }
}

/// The first of the types that the clipboard offers which is an image.
pub fn image_type(types: &str) -> (r: Option<String>)
    ensures
        ({
            let ls = lines_of(types@);
            match r {
                Some(mime) => image_line(ls) < ls.len() && mime@ == ls[image_line(ls)],
                None => image_line(ls) >= ls.len(),
            }
        }),
{
    let all = lines(types);
    let ghost ls = texts(all@);
    let mut i: usize = 0;
    assert(ls.skip(0) =~= ls);
    while i < all.len()
        invariant
            ls == texts(all@),
            ls == lines_of(types@),
            i <= all@.len(),
            image_line(ls) == i + image_line(ls.skip(i as int)),
        decreases all.len() - i,
    {
        assert(ls.skip(i as int).drop_first() =~= ls.skip(i + 1));
        assert(ls.skip(i as int)[0] == all@[i as int]@);
        if starts(all[i].as_str(), "image/") {
            return Some(all[i].clone());
        }
        i += 1;
    }
    assert(ls.skip(i as int).len() == 0);
    None
}

/// The pinned items, and then the others.
pub open spec fn pinned_first(items: Seq<Clip>) -> Seq<Clip> {
    items.filter(|c: Clip| c.pinned) + items.filter(|c: Clip| !c.pinned)
}

/// The first items, as many as are kept.
pub open spec fn kept(items: Seq<Clip>, most: nat) -> Seq<Clip> {
    if items.len() <= most {
        items
    } else {
        items.take(most as int)
    }
}

/// The items after compaction: the pinned ones first, and not more than are kept.
pub open spec fn compacted(items: Seq<Clip>, most: nat) -> Seq<Clip> {
    kept(pinned_first(items), most)
}

/// The items but for those of an id.
pub open spec fn without(items: Seq<Clip>, id: Seq<char>) -> Seq<Clip> {
    items.filter(|c: Clip| c.id@ != id)
}

/// Puts the pinned items first.
fn put_pinned_first(items: Vec<Clip>) -> (r: Vec<Clip>)
    ensures
        r@ == pinned_first(items@),
{
    let ghost all = items@;
    let ghost pin = |c: Clip| c.pinned;
    let ghost no_pin = |c: Clip| !c.pinned;
    let mut first: Vec<Clip> = Vec::new();
    let mut rest: Vec<Clip> = Vec::new();
    reveal(Seq::filter);
    assert(all.take(0).filter(pin) =~= Seq::empty());
    assert(all.take(0).filter(no_pin) =~= Seq::empty());
    for item in it: items
        invariant
            it.seq() == all,
            pin == (|c: Clip| c.pinned),
            no_pin == (|c: Clip| !c.pinned),
            first@ == all.take(it.index() as int).filter(pin),
            rest@ == all.take(it.index() as int).filter(no_pin),
    {
        reveal(Seq::filter);
        let ghost i = it.index() as int;
        assert(all.take(i + 1).drop_last() =~= all.take(i));
        assert(all.take(i + 1).last() == item);
        if item.pinned {
            first.push(item);
        } else {
            rest.push(item);
        }
    }
    assert(all.take(all.len() as int) =~= all);
    let ghost a = first@;
    let ghost b = rest@;
    first.append(&mut rest);
    assert(first@ =~= a + b);
    first
}

/// Removes the items of an id.
fn drop_id(items: Vec<Clip>, id: &str) -> (r: Vec<Clip>)
    ensures
        r@ == without(items@, id@),
{
    let ghost all = items@;
    let ghost keep = |c: Clip| c.id@ != id@;
    let mut out: Vec<Clip> = Vec::new();
    reveal(Seq::filter);
    assert(all.take(0).filter(keep) =~= Seq::empty());
    for item in it: items
        invariant
            it.seq() == all,
            keep == (|c: Clip| c.id@ != id@),
            out@ == all.take(it.index() as int).filter(keep),
    {
        reveal(Seq::filter);
        let ghost i = it.index() as int;
        assert(all.take(i + 1).drop_last() =~= all.take(i));
        assert(all.take(i + 1).last() == item);
        if !same(item.id.as_str(), id) {
            out.push(item);
        }
    }
    assert(all.take(all.len() as int) =~= all);
    out
}

/// Puts the pinned items first, and keeps not more than `most`.
pub fn compact(items: Vec<Clip>, most: usize) -> (r: Vec<Clip>)
    ensures
        r@ == compacted(items@, most as nat),
{
    let mut out = put_pinned_first(items);
    if out.len() > most {
        out.truncate(most);
    }
    assert(out@ =~= compacted(items@, most as nat));
    out
}

/// Whether the item is that of a text that was copied.
pub open spec fn is_text_clip(clip: Clip, content: Seq<char>) -> bool {
    &&& clip.id@ == text_id(content)
    &&& clip.kind == ClipKind::Text
    &&& clip.content@ == content
    &&& clip.image_path is None
    &&& clip.mime is Some && clip.mime->0@ == "text/plain"@
    &&& clip.ocr@.len() == 0
    &&& !clip.pinned
}

/// The first line of a text, or nothing.
pub open spec fn first_line(s: Seq<char>) -> Seq<char> {
    if lines_of(s).len() == 0 {
        Seq::empty()
    } else {
        lines_of(s)[0]
    }
}

/// Whether the item is that of an image that was copied.
pub open spec fn is_image_clip(
    clip: Clip,
    id: Seq<char>,
    mime: Seq<char>,
    path: Seq<char>,
    ocr: Seq<char>,
) -> bool {
    &&& clip.id@ == id
    &&& clip.kind == ClipKind::Image
    &&& clip.content@ == (if ocr.len() == 0 || lines_of(ocr).len() == 0 {
        "Image clipboard item"@
    } else {
        lines_of(ocr)[0]
    })
    &&& clip.image_path is Some && clip.image_path->0@ == path
    &&& clip.mime is Some && clip.mime->0@ == mime
    &&& clip.ocr@ == ocr
    &&& !clip.pinned
}

/// Whether `after` is `before` once an image was taken up whose file was written.
pub open spec fn image_noted(
    before: Seq<Clip>,
    after: Seq<Clip>,
    id: Seq<char>,
    mime: Seq<char>,
    path: Seq<char>,
    ocr: Seq<char>,
    most: nat,
) -> bool {
    exists|clip: Clip| #[trigger]
        is_image_clip(clip, id, mime, path, ocr) && put_in_front(before, after, clip, most)
}

/// Whether a clip was put in front of those before, in the place of any with its id.
pub open spec fn put_in_front(before: Seq<Clip>, after: Seq<Clip>, clip: Clip, most: nat) -> bool {
    after == compacted(seq![clip] + without(before, clip.id@), most)
}

/// Whether a text that is on the clipboard was taken up, unless it is blank or the latest already.
pub open spec fn noted(before: Seq<Clip>, after: Seq<Clip>, content: Seq<char>, most: nat) -> bool {
    if trim_of(content).len() == 0 || (before.len() > 0 && before[0].content@ == content) {
        after == before
    } else {
        exists|clip: Clip| #[trigger]
            is_text_clip(clip, content) && put_in_front(before, after, clip, most)
    }
}

impl ClipboardProvider {
    /// Puts a clip in front, in the place of any with its id.
    fn put(&mut self, clip: Clip)
        ensures
            put_in_front(old(self).items@, final(self).items@, clip, old(self).max_items as nat),
            *final(self) == (ClipboardProvider { items: final(self).items, ..*old(self) }),
    {
        let mut items: Vec<Clip> = Vec::new();
        std::mem::swap(&mut items, &mut self.items);
        let mut rest = drop_id(items, clip.id.as_str());
        let ghost after = rest@;
        let ghost c = clip;
        rest.insert(0, clip);
        assert(rest@ =~= seq![c] + after);
        self.items = compact(rest, self.max_items);
    }

    /// Takes up a text that is on the clipboard, unless it is blank or the latest already. A text
    /// that was copied before moves to the front.
    pub fn note_text(&mut self, content: String)
        ensures
            *final(self) == (ClipboardProvider { items: final(self).items, ..*old(self) }),
            noted(
                old(self).items@,
                final(self).items@,
                content@,
                old(self).max_items as nat,
            ),
            if trim_of(content@).len() == 0 || (old(self).items@.len() > 0
                && old(self).items@[0].content@ == content@) {
                final(self).items == old(self).items
            } else {
                exists|clip: Clip| #[trigger]
                    is_text_clip(clip, content@) && put_in_front(
                        old(self).items@,
                        final(self).items@,
                        clip,
                        old(self).max_items as nat,
                    )
            },
    {
        if blank(content.as_str()) {
            return;
        }
        if self.items.len() > 0 && same(self.items[0].content.as_str(), content.as_str()) {
            return;
        }
        let id = id_of_text(content.as_str());
        let clip = Clip {
            id,
            kind: ClipKind::Text,
            content,
            image_path: None,
            mime: Some("text/plain".to_owned()),
            ocr: String::new(),
            pinned: false,
        };
        let ghost c = clip;
        assert(is_text_clip(c, content@));
        self.put(clip);
    }

    /// Whether the latest item has that id.
    pub fn is_latest(&self, id: &str) -> (r: bool)
        ensures
            r == (self.items@.len() > 0 && self.items@[0].id@ == id@),
    {
        self.items.len() > 0 && same(self.items[0].id.as_str(), id)
    }

    /// Takes up an image whose file was written, with the text that was read from it.
    pub fn note_image(&mut self, id: String, mime: &str, path: String, ocr: String)
        ensures
            *final(self) == (ClipboardProvider { items: final(self).items, ..*old(self) }),
            image_noted(
                old(self).items@,
                final(self).items@,
                id@,
                mime@,
                path@,
                ocr@,
                old(self).max_items as nat,
            ),
    {
        let content = if ocr.as_str().is_empty() {
            "Image clipboard item".to_owned()
        } else {
            let ls = lines(ocr.as_str());
            assert(texts(ls@).len() == ls@.len());
            if ls.len() > 0 {
                assert(texts(ls@)[0] == ls@[0]@);
                ls[0].clone()
            } else {
                "Image clipboard item".to_owned()
            }
        };
        let clip = Clip {
            id,
            kind: ClipKind::Image,
            content,
            image_path: Some(path),
            mime: Some(mime.to_owned()),
            ocr,
            pinned: false,
        };
        let ghost c = clip;
        assert(is_image_clip(c, id@, mime@, path@, ocr@));
        self.put(clip);
    }
}

/// The score of an item: what is pinned counts most, then what was copied last, and how well it
/// matches only among the rest.
pub open spec fn clip_score(total: int, index: int, pinned: bool, fuzzy: int) -> int {
    (if pinned {
        50_000int
    } else {
        0
    }) + (if index <= total {
        total - index
    } else {
        0
    }) * 100 + (if fuzzy < 99 {
        fuzzy
    } else {
        99
    })
}

/// The score of an item.
pub fn clipboard_score(total: usize, index: usize, pinned: bool, fuzzy_score: i32) -> (r: i32)
    ensures
        r == wrapped(clip_score(total as int, index as int, pinned, fuzzy_score as int)),
{
    let recency: i128 = if index <= total { (total - index) as i128 } else { 0 };
    let fuzzy: i128 = if fuzzy_score < 99 { fuzzy_score as i128 } else { 99 };
    let pin: i128 = if pinned { 50_000 } else { 0 };
    wrap(pin + recency * 100 + fuzzy)
}

/// What is copied later comes first, however well something older matches.
pub proof fn recency_beats_the_match(total: int, newer: int, older: int, pinned: bool, a: int, b: int)
    requires
        0 <= newer < older <= total,
        a >= 0,
    ensures
        clip_score(total, newer, pinned, a) > clip_score(total, older, pinned, b),
{
}

/// What is pinned comes before what is not, in a history of up to five hundred items.
pub proof fn pinned_beats_recency(total: int, pinned: int, other: int, a: int, b: int)
    requires
        0 <= pinned < total <= 500,
        0 <= other < total,
        a >= 0,
    ensures
        clip_score(total, pinned, true, a) > clip_score(total, other, false, b),
{
}

/// The first characters of a text, up to a number of them.
pub open spec fn shortened(s: Seq<char>, most: int) -> Seq<char> {
    if s.len() <= most {
        s
    } else {
        s.take(most)
    }
}

/// The first 160 characters of a text.
fn shorten(s: &str) -> (r: String)
    ensures
        r@ == shortened(s@, 160),
{
    let chars = chars_of(s);
    if chars.len() <= 160 {
        s.to_owned()
    } else {
        let part = slice(&chars, 0, 160);
        assert(part@ =~= s@.take(160));
        string_of(&part)
    }
}

/// What of an item is searched.
pub open spec fn searched(clip: Clip) -> Seq<char> {
    clip.content@ + " "@ + clip.ocr@
}

/// What each item is searched by, in lower case.
pub open spec fn searches(items: Seq<Clip>) -> Seq<Seq<char>> {
    items.map_values(|c: Clip| lower_of(searched(c)))
}

/// The actions that an item offers.
pub open spec fn clip_actions(clip: Clip, ocr: bool) -> Seq<Seq<char>> {
    let all = seq![
        "copy"@,
        "edit"@,
        "remove"@,
        if clip.pinned {
            "unpin"@
        } else {
            "pin"@
        },
    ];
    if clip.kind == ClipKind::Image && ocr {
        all.push("ocr"@)
    } else {
        all
    }
}

/// The states of an item.
pub open spec fn clip_states(clip: Clip) -> Seq<Seq<char>> {
    let kind = match clip.kind {
        ClipKind::Text => "text"@,
        ClipKind::Image => "image"@,
    };
    if clip.pinned {
        seq!["pinned"@, kind]
    } else {
        seq![kind]
    }
}

/// Whether the result is that of an item of the clipboard that matched.
pub open spec fn is_clip_item(
    item: Item,
    clip: Clip,
    total: int,
    index: int,
    ocr: bool,
    m: Match,
) -> bool {
    &&& item.provider@ == "clipboard"@
    &&& item.identifier@ == clip.id@
    &&& item.text@ == first_line(trim_start_of(clip.content@))
    &&& item.subtext@ == (match clip.kind {
        ClipKind::Text => shortened(clip.content@, 160),
        ClipKind::Image => if clip.ocr@.len() == 0 {
            "Image"@
        } else {
            shortened(clip.ocr@, 160)
        },
    })
    &&& item.icon@ == (match clip.kind {
        ClipKind::Text => "edit-paste"@,
        ClipKind::Image => "image-x-generic"@,
    })
    &&& texts(item.actions@) == clip_actions(clip, ocr)
    &&& item.mimetype@ == (match clip.mime {
        Some(mime) => mime@,
        None => Seq::empty(),
    })
    &&& item.preview@ == (match clip.image_path {
        Some(path) => path@,
        None => clip.content@,
    })
    &&& item.preview_type@ == (match clip.image_path {
        Some(_) => "file"@,
        None => "text"@,
    })
    &&& texts(item.state@) == clip_states(clip)
    &&& item.score == wrapped(clip_score(total, index, clip.pinned, m.score))
    &&& item.fuzzyinfo is Some
    &&& item.fuzzyinfo->0.start == m.start
    &&& item.fuzzyinfo->0.field@ == "text"@
    &&& indices(item.fuzzyinfo->0.positions@) == m.positions
    &&& item.item_type == ItemType::Regular
    &&& item.icon_path is None
    &&& item.thumbnail is None
}

/// Whether these are the items that match a query, the best first and not more than the limit.
pub open spec fn are_results(
    r: Seq<Item>,
    items: Seq<Clip>,
    ocr: bool,
    query: Seq<char>,
    limit: nat,
    exact: bool,
) -> bool {
    exists|results: Seq<Item>| #[trigger]
        are_clip_items(
            results,
            items,
            matching_texts(searches(items), lower_of(query), exact),
            items.len() as int,
            ocr,
            lower_of(query),
            exact,
        ) && is_top(results, r, limit)
}

/// Whether the results are those of the items that matched, in order.
pub open spec fn are_clip_items(
    results: Seq<Item>,
    items: Seq<Clip>,
    found: Seq<int>,
    total: int,
    ocr: bool,
    query: Seq<char>,
    exact: bool,
) -> bool {
    &&& results.len() == found.len()
    &&& forall|k: int| 0 <= k < found.len() ==> 0 <= (#[trigger] found[k]) < items.len()
    &&& forall|k: int|
        0 <= k < results.len() ==> is_clip_item(
            #[trigger] results[k],
            items[found[k]],
            total,
            found[k],
            ocr,
            match_of(query, lower_of(searched(items[found[k]])), exact)->0,
        )
}

impl ClipboardProvider {
    /// The result for the item at `index`, which matched.
    fn item_at(&self, index: usize, score: i32, info: crate::types::FuzzyInfo, m: Ghost<Match>) -> (r:
        Item)
        requires
            index < self.items@.len(),
            crate::fuzzy::is_match((score, info), m@, "text"@),
        ensures
            is_clip_item(
                r,
                self.items@[index as int],
                self.items@.len() as int,
                index as int,
                self.ocr,
                m@,
            ),
    {
        let clip = &self.items[index];
        let start = trim_start(clip.content.as_str());
        let ls = lines(start.as_str());
        assert(texts(ls@).len() == ls@.len());
        let title = if ls.len() > 0 {
            assert(texts(ls@)[0] == ls@[0]@);
            ls[0].clone()
        } else {
            String::new()
        };
        let mut item = Item::new("clipboard", clip.id.as_str(), title.as_str());
        item.subtext = match clip.kind {
            ClipKind::Text => shorten(clip.content.as_str()),
            ClipKind::Image => if clip.ocr.as_str().is_empty() {
                "Image".to_owned()
            } else {
                shorten(clip.ocr.as_str())
            },
        };
        item.icon = match clip.kind {
            ClipKind::Text => "edit-paste".to_owned(),
            ClipKind::Image => "image-x-generic".to_owned(),
        };
        let last = if clip.pinned { "unpin".to_owned() } else { "pin".to_owned() };
        let mut actions = vec!["copy".to_owned(), "edit".to_owned(), "remove".to_owned(), last];
        item.mimetype = match &clip.mime {
            Some(mime) => mime.clone(),
            None => String::new(),
        };
        match &clip.image_path {
            Some(path) => {
                item.preview = path.clone();
                item.preview_type = "file".to_owned();
            },
            None => {
                item.preview = clip.content.clone();
                item.preview_type = "text".to_owned();
            },
        }
        let is_image = match clip.kind {
            ClipKind::Text => false,
            ClipKind::Image => true,
        };
        if is_image && self.ocr {
            actions.push("ocr".to_owned());
        }
        assert(texts(actions@) =~= clip_actions(*clip, self.ocr));
        item.actions = actions;
        let mut state: Vec<String> = Vec::new();
        if clip.pinned {
            state.push("pinned".to_owned());
        }
        state.push(if is_image { "image".to_owned() } else { "text".to_owned() });
        assert(texts(state@) =~= clip_states(*clip));
        item.state = state;
        item.score = clipboard_score(self.items.len(), index, clip.pinned, score);
        item.fuzzyinfo = Some(info);
        item
    }

    /// The items that match a query, the best first and not more than the limit.
    pub fn query(&self, query: &str, limit: usize, exact: bool) -> (r: Vec<Item>)
        ensures
            are_results(r@, self.items@, self.ocr, query@, limit as nat, exact),
    {
        let ghost q = lower_of(query@);
        let ghost all = searches(self.items@);
        let ghost total = self.items@.len() as int;
        let mut out: Vec<Item> = Vec::new();
        let ghost mut found: Seq<int> = Seq::empty();
        let mut i: usize = 0;
        assert(all.take(0) =~= Seq::empty());
        while i < self.items.len()
            invariant
                i <= self.items@.len(),
                q == lower_of(query@),
                all == searches(self.items@),
                total == self.items@.len(),
                found == matching_texts(all.take(i as int), q, exact),
                are_clip_items(out@, self.items@, found, total, self.ocr, q, exact),
            decreases self.items.len() - i,
        {
            let clip = &self.items[i];
            let mut searchable = clip.content.clone();
            searchable.append(" ");
            searchable.append(clip.ocr.as_str());
            assert(all.take(i + 1).drop_last() =~= all.take(i as int));
            assert(all.take(i + 1).last() == lower_of(searched(*clip)));
            match score(query, searchable.as_str(), exact, "text") {
                Some((points, info)) => {
                    let ghost m = match_of(q, lower_of(searched(*clip)), exact)->0;
                    let item = self.item_at(i, points, info, Ghost(m));
                    out.push(item);
                    proof {
                        found = found.push(i as int);
                    }
                },
                None => {},
            }
            i += 1;
        }
        assert(all.take(i as int) =~= all);
        assert(are_clip_items(out@, self.items@, found, total, self.ocr, q, exact));
        top_items(out, limit)
    }
}

/// The index of the item with that id, or the number of items where there is none.
pub open spec fn clip_index(items: Seq<Clip>, id: Seq<char>) -> int
    decreases items.len(),
{
    if items.len() == 0 || items[0].id@ == id {
        0
    } else {
        1 + clip_index(items.drop_first(), id)
    }
}

/// `clip_index` is the first index at which an item has the id.
pub proof fn clip_index_is_first(items: Seq<Clip>, id: Seq<char>)
    ensures
        0 <= clip_index(items, id) <= items.len(),
        clip_index(items, id) < items.len() ==> items[clip_index(items, id)].id@ == id,
    decreases items.len(),
{
    if items.len() > 0 && items[0].id@ != id {
        clip_index_is_first(items.drop_first(), id);
    }
}

/// What activating an item comes to, besides what it changes.
#[derive(Debug)]
pub enum ClipStep {
    /// To copy a text.
    CopyText(String),
    /// To run a command in a shell.
    Run(String),
    /// To edit a text: the name of the file to write it to, and the text.
    EditText(String, String),
    /// To read text from the image at a path.
    ReadImage(String),
    /// To save the history.
    Save,
    /// Nothing.
    Nothing,
}

/// The command that copies an image.
pub open spec fn copy_command(mime: Seq<char>, path: Seq<char>) -> Seq<char> {
    "wl-copy --type "@ + shell_quoted(mime) + " < "@ + shell_quoted(path)
}

/// The command that edits a file.
pub open spec fn editor_command_of(editor: Seq<char>, path: Seq<char>) -> Seq<char> {
    editor + " "@ + shell_quoted(path)
}

/// The command that edits a file.
pub fn editor_command(editor: &str, path: &str) -> (r: String)
    ensures
        r@ == editor_command_of(editor@, path@),
{
    let mut out = editor.to_owned();
    out.append(" ");
    out.append(shell_quote(path).as_str());
    out
}

/// What copying an item comes to.
pub open spec fn is_copy_step(r: Result<ClipStep, String>, clip: Clip) -> bool {
    match clip.kind {
        ClipKind::Text => r matches Ok(ClipStep::CopyText(t)) && t@ == clip.content@,
        ClipKind::Image => match clip.image_path {
            None => r matches Err(m) && m@ == "image clip has no file"@,
            Some(path) => r matches Ok(ClipStep::Run(c)) && c@ == copy_command(
                match clip.mime {
                    Some(mime) => mime@,
                    None => "image/png"@,
                },
                path@,
            ),
        },
    }
}

/// What copying an item comes to.
pub fn copy_clip(clip: &Clip) -> (r: Result<ClipStep, String>)
    ensures
        is_copy_step(r, *clip),
{
    match clip.kind {
        ClipKind::Text => Ok(ClipStep::CopyText(clip.content.clone())),
        ClipKind::Image => match &clip.image_path {
            None => Err("image clip has no file".to_owned()),
            Some(path) => {
                let mime = match &clip.mime {
                    Some(mime) => mime.clone(),
                    None => "image/png".to_owned(),
                };
                let mut command = "wl-copy --type ".to_owned();
                command.append(shell_quote(mime.as_str()).as_str());
                command.append(" < ");
                command.append(shell_quote(path.as_str()).as_str());
                Ok(ClipStep::Run(command))
            },
        },
    }
}

/// What editing an item comes to.
pub open spec fn is_edit_step(r: Result<ClipStep, String>, clip: Clip, image_editor: Seq<char>) -> bool {
    match clip.kind {
        ClipKind::Text => r matches Ok(ClipStep::EditText(name, text)) && name@ == "epochoxide-"@
            + clip.id@ + ".txt"@ && text@ == clip.content@,
        ClipKind::Image => match clip.image_path {
            None => r matches Ok(ClipStep::Nothing),
            Some(path) => r matches Ok(ClipStep::Run(c)) && c@ == editor_command_of(
                if image_editor.len() == 0 {
                    "xdg-open"@
                } else {
                    image_editor
                },
                path@,
            ),
        },
    }
}

/// The items with one of them changed in whether it is pinned.
pub open spec fn with_pin(items: Seq<Clip>, id: Seq<char>, pinned: bool) -> Seq<Clip> {
    let i = clip_index(items, id);
    if i < items.len() {
        items.update(i, Clip { pinned, ..items[i] })
    } else {
        items
    }
}

/// What carrying out an action on an item comes to, and what of the items is left.
pub open spec fn activated(
    before: Seq<Clip>,
    after: Seq<Clip>,
    most: nat,
    identifier: Seq<char>,
    action: Seq<char>,
    image_editor: Seq<char>,
    r: Result<ClipStep, String>,
) -> bool {
    let i = clip_index(before, identifier);
    let known = i < before.len();
    if action == "copy"@ {
        after == before && if known {
            is_copy_step(r, before[i])
        } else {
            r matches Ok(ClipStep::Nothing)
        }
    } else if action == "edit"@ {
        after == before && if known {
            is_edit_step(r, before[i], image_editor)
        } else {
            r matches Ok(ClipStep::Nothing)
        }
    } else if action == "ocr"@ {
        after == before && if known && before[i].image_path is Some {
            r matches Ok(ClipStep::ReadImage(p)) && p@ == before[i].image_path->0@
        } else {
            r matches Ok(ClipStep::Save)
        }
    } else if action == "remove"@ {
        after == without(before, identifier) && (r matches Ok(ClipStep::Save))
    } else if action == "remove_all"@ {
        after.len() == 0 && (r matches Ok(ClipStep::Save))
    } else if action == "pin"@ {
        after == compacted(
            with_pin(before, identifier, true),
            most,
        ) && (r matches Ok(ClipStep::Save))
    } else if action == "unpin"@ {
        after == compacted(
            with_pin(before, identifier, false),
            most,
        ) && (r matches Ok(ClipStep::Save))
    } else {
        after == before && (r matches Err(m) && m@ == "unsupported clipboard action: "@
            + action)
    }
}

/// Whether the first item of an id has a text as its content now, and the id of that text.
pub open spec fn was_edited(
    before: Seq<Clip>,
    after: Seq<Clip>,
    identifier: Seq<char>,
    content: String,
) -> bool {
    let i = clip_index(before, identifier);
    if i < before.len() {
        &&& after == before.update(i, after[i])
        &&& after[i].content == content
        &&& after[i].id@ == text_id(content@)
        &&& after[i] == (Clip { content: after[i].content, id: after[i].id, ..before[i] })
    } else {
        after == before
    }
}

impl ClipboardProvider {
    /// The index of an item.
    fn locate(&self, id: &str) -> (r: usize)
        ensures
            r == clip_index(self.items@, id@),
            r <= self.items@.len(),
    {
        let mut i: usize = 0;
        assert(self.items@.skip(0) =~= self.items@);
        while i < self.items.len()
            invariant
                i <= self.items@.len(),
                clip_index(self.items@, id@) == i + clip_index(self.items@.skip(i as int), id@),
            decreases self.items.len() - i,
        {
            assert(self.items@.skip(i as int).drop_first() =~= self.items@.skip(i + 1));
            if same(self.items[i].id.as_str(), id) {
                return i;
            }
            i += 1;
        }
        i
    }

    /// Pins an item or takes the pin off, and puts the pinned ones first.
    fn set_pin(&mut self, id: &str, pinned: bool)
        ensures
            final(self).items@ == compacted(
                with_pin(old(self).items@, id@, pinned),
                old(self).max_items as nat,
            ),
            *final(self) == (ClipboardProvider { items: final(self).items, ..*old(self) }),
    {
        proof {
            clip_index_is_first(self.items@, id@);
        }
        let i: usize = self.locate(id);
        if i < self.items.len() {
            self.items[i].pinned = pinned;
        }
        assert(self.items@ =~= with_pin(old(self).items@, id@, pinned));
        let mut items: Vec<Clip> = Vec::new();
        std::mem::swap(&mut items, &mut self.items);
        self.items = compact(items, self.max_items);
    }

    /// Carries out an action on an item, and says what is left to be done outside.
    pub fn activate(&mut self, identifier: &str, action: &str, image_editor: &str) -> (r: Result<
        ClipStep,
        String,
    >)
        ensures
            *final(self) == (ClipboardProvider { items: final(self).items, ..*old(self) }),
            activated(
                old(self).items@,
                final(self).items@,
                old(self).max_items as nat,
                identifier@,
                action@,
                image_editor@,
                r,
            ),
    {
        proof {
            clip_index_is_first(self.items@, identifier@);
        }
        let i: usize = self.locate(identifier);
        let known = i < self.items.len();
        if same(action, "copy") {
            if known {
                copy_clip(&self.items[i])
            } else {
                Ok(ClipStep::Nothing)
            }
        } else if same(action, "edit") {
            if !known {
                return Ok(ClipStep::Nothing);
            }
            let clip = &self.items[i];
            match clip.kind {
                ClipKind::Text => {
                    let mut name = "epochoxide-".to_owned();
                    name.append(clip.id.as_str());
                    name.append(".txt");
                    Ok(ClipStep::EditText(name, clip.content.clone()))
                },
                ClipKind::Image => match &clip.image_path {
                    None => Ok(ClipStep::Nothing),
                    Some(path) => {
                        let editor = if image_editor.is_empty() { "xdg-open" } else { image_editor };
                        Ok(ClipStep::Run(editor_command(editor, path.as_str())))
                    },
                },
            }
        } else if same(action, "ocr") {
            if known {
                if let Some(path) = &self.items[i].image_path {
                    return Ok(ClipStep::ReadImage(path.clone()));
                }
            }
            Ok(ClipStep::Save)
        } else if same(action, "remove") {
            let mut items: Vec<Clip> = Vec::new();
            std::mem::swap(&mut items, &mut self.items);
            self.items = drop_id(items, identifier);
            Ok(ClipStep::Save)
        } else if same(action, "remove_all") {
            self.items = Vec::new();
            Ok(ClipStep::Save)
        } else if same(action, "pin") {
            self.set_pin(identifier, true);
            Ok(ClipStep::Save)
        } else if same(action, "unpin") {
            self.set_pin(identifier, false);
            Ok(ClipStep::Save)
        } else {
            let mut message = "unsupported clipboard action: ".to_owned();
            message.append(action);
            Err(message)
        }
    }

    /// Takes up a text that was edited: the item has it as its content, and the id of it.
    pub fn edited(&mut self, identifier: &str, content: String)
        ensures
            *final(self) == (ClipboardProvider { items: final(self).items, ..*old(self) }),
            was_edited(old(self).items@, final(self).items@, identifier@, content),
            ({
                let before = old(self).items@;
                let i = clip_index(before, identifier@);
                if i < before.len() {
                    let now = final(self).items@[i];
                    &&& final(self).items@ == before.update(i, now)
                    &&& now.content == content
                    &&& now.id@ == text_id(content@)
                    &&& now == (Clip { content: now.content, id: now.id, ..before[i] })
                } else {
                    final(self).items == old(self).items
                }
            }),
    {
        proof {
            clip_index_is_first(self.items@, identifier@);
        }
        let i: usize = self.locate(identifier);
        if i < self.items.len() {
            self.items[i].id = id_of_text(content.as_str());
            self.items[i].content = content;
            assert(self.items@ =~= old(self).items@.update(i as int, self.items@[i as int]));
        }
    }

    /// Takes up the text that was read from an image.
    pub fn set_ocr(&mut self, identifier: &str, text: String)
        ensures
            *final(self) == (ClipboardProvider { items: final(self).items, ..*old(self) }),
            ({
                let before = old(self).items@;
                let i = clip_index(before, identifier@);
                if i < before.len() {
                    final(self).items@ == before.update(i, Clip { ocr: text, ..before[i] })
                } else {
                    final(self).items == old(self).items
                }
            }),
    {
        proof {
            clip_index_is_first(self.items@, identifier@);
        }
        let i: usize = self.locate(identifier);
        if i < self.items.len() {
            self.items[i].ocr = text;
            assert(self.items@ =~= old(self).items@.update(
                i as int,
                Clip { ocr: text, ..old(self).items@[i as int] },
            ));
        }
    }

    /// How the provider describes itself.
    pub fn capability(&self) -> (r: ProviderCapability)
        ensures
            r.name@ == "clipboard"@,
            r.name_pretty@ == "Clipboard"@,
            r.description@ == "Search text/image clipboard history with optional OCR"@,
            r.icon@.len() == 0,
            r.prefixes@.len() == 0,
            r.actions.wf(),
            r.actions@.dom() == set![
                "copy"@,
                "edit"@,
                "ocr"@,
                "pin"@,
                "unpin"@,
                "remove"@,
                "remove_all"@,
            ],
            r.actions@["copy"@].is_plain("Copy"@),
            r.actions@["edit"@].is_async("Edit"@),
            r.actions@["ocr"@].is_async("OCR"@),
            r.actions@["pin"@].is_plain("Pin"@),
            r.actions@["unpin"@].is_plain("Unpin"@),
            r.actions@["remove"@].is_destructive("Remove"@),
            r.actions@["remove_all"@].is_destructive("Remove All"@),
            r.supports_query && r.supports_activate && r.supports_streaming,
            !r.supports_subscriptions && !r.emits_events,
    {
        let mut actions: TextMap<ActionCapability> = TextMap::new();
        actions.insert("copy".to_owned(), ActionCapability::new("Copy"));
        actions.insert("edit".to_owned(), ActionCapability::new("Edit").async_action());
        actions.insert("ocr".to_owned(), ActionCapability::new("OCR").async_action());
        actions.insert("pin".to_owned(), ActionCapability::new("Pin"));
        actions.insert("unpin".to_owned(), ActionCapability::new("Unpin"));
        actions.insert("remove".to_owned(), ActionCapability::new("Remove").destructive());
        actions.insert("remove_all".to_owned(), ActionCapability::new("Remove All").destructive());
        proof {
            reveal_strlit("copy");
            reveal_strlit("edit");
            reveal_strlit("ocr");
            reveal_strlit("pin");
            reveal_strlit("unpin");
            reveal_strlit("remove");
            reveal_strlit("remove_all");
            assert("copy"@.len() == 4 && "edit"@.len() == 4 && "ocr"@.len() == 3 && "pin"@.len()
                == 3 && "unpin"@.len() == 5 && "remove"@.len() == 6 && "remove_all"@.len() == 10);
            assert("copy"@[0] == 'c' && "edit"@[0] == 'e' && "ocr"@[0] == 'o' && "pin"@[0] == 'p');
            assert(actions@.dom() =~= set![
                "copy"@,
                "edit"@,
                "ocr"@,
                "pin"@,
                "unpin"@,
                "remove"@,
                "remove_all"@,
            ]);
        }
        ProviderCapability {
            name: "clipboard".to_owned(),
            name_pretty: "Clipboard".to_owned(),
            description: "Search text/image clipboard history with optional OCR".to_owned(),
            icon: String::new(),
            prefixes: Vec::new(),
            actions,
            supports_query: true,
            supports_activate: true,
            supports_streaming: true,
            supports_subscriptions: false,
            emits_events: false,
        }
    }
}

/// However much is copied, no more items are kept than were asked for, and no item that is not
/// pinned stands before one that is.
pub proof fn compaction_keeps_pinned_items_in_front(items: Seq<Clip>, most: nat)
    ensures
        compacted(items, most).len() <= most,
        forall|i: int, j: int|
            0 <= i < j < compacted(items, most).len() && (#[trigger] compacted(
                items,
                most,
            )[j]).pinned ==> (#[trigger] compacted(items, most)[i]).pinned,
{
    let pin = |c: Clip| c.pinned;
    let no_pin = |c: Clip| !c.pinned;
    let a = items.filter(pin);
    let b = items.filter(no_pin);
    filtered_passes(items, pin);
    filtered_passes(items, no_pin);
    let all = compacted(items, most);
    assert forall|i: int, j: int| 0 <= i < j < all.len() && (#[trigger] all[j]).pinned implies (
    #[trigger] all[i]).pinned by {
        if j >= a.len() {
            assert(all[j] == b[j - a.len()]);
            assert(no_pin(b[j - a.len()]));
        } else {
            assert(all[i] == a[i]);
            assert(pin(a[i]));
        }
    }
}

/// Whether no id stands twice.
pub open spec fn ids_differ(items: Seq<Clip>) -> bool {
    forall|i: int, j: int|
        0 <= i < j < items.len() ==> (#[trigger] items[i]).id@ != (#[trigger] items[j]).id@
}

/// What is copied again is listed once: a clip that is put in front takes the place of any with its
/// id, and no id comes to stand twice.
pub proof fn a_clip_is_listed_once(before: Seq<Clip>, after: Seq<Clip>, clip: Clip, most: nat)
    requires
        ids_differ(before),
        put_in_front(before, after, clip, most),
    ensures
        ids_differ(after),
{
    let keep = |c: Clip| c.id@ != clip.id@;
    let rest = without(before, clip.id@);
    filtered_passes(before, keep);
    filtered_stays_apart(before, keep);
    let all = seq![clip] + rest;
    assert forall|i: int, j: int| 0 <= i < j < all.len() implies (#[trigger] all[i]).id@ != (
    #[trigger] all[j]).id@ by {
        assert(all[j] == rest[j - 1]);
        assert(keep(rest[j - 1]));
        if i > 0 {
            assert(all[i] == rest[i - 1]);
        }
    }
    compaction_keeps_ids_apart(all, most);
}

/// Compaction lists no item twice.
pub proof fn compaction_keeps_ids_apart(items: Seq<Clip>, most: nat)
    requires
        ids_differ(items),
    ensures
        ids_differ(compacted(items, most)),
{
    let pin = |c: Clip| c.pinned;
    let no_pin = |c: Clip| !c.pinned;
    let a = items.filter(pin);
    let b = items.filter(no_pin);
    filtered_passes(items, pin);
    filtered_passes(items, no_pin);
    filtered_stays_apart(items, pin);
    filtered_stays_apart(items, no_pin);
    let all = compacted(items, most);
    assert forall|i: int, j: int| 0 <= i < j < all.len() implies (#[trigger] all[i]).id@ != (
    #[trigger] all[j]).id@ by {
        if j < a.len() {
            assert(all[i] == a[i] && all[j] == a[j]);
        } else if i >= a.len() {
            assert(all[i] == b[i - a.len()] && all[j] == b[j - a.len()]);
        } else {
            assert(all[i] == a[i] && all[j] == b[j - a.len()]);
            assert(pin(a[i]) && no_pin(b[j - a.len()]));
            assert(items.contains(a[i]) && items.contains(b[j - a.len()]));
            let x = choose|x: int| 0 <= x < items.len() && items[x] == a[i];
            let y = choose|y: int| 0 <= y < items.len() && items[y] == b[j - a.len()];
            if x < y {
                assert(items[x].id@ != items[y].id@);
            } else {
                assert(items[y].id@ != items[x].id@);
            }
        }
    }
}

/// What is left of items with different ids has different ids, and stood among them.
proof fn filtered_stays_apart(s: Seq<Clip>, keep: spec_fn(Clip) -> bool)
    requires
        ids_differ(s),
    ensures
        ids_differ(s.filter(keep)),
        forall|k: int| 0 <= k < s.filter(keep).len() ==> s.contains(#[trigger] s.filter(keep)[k]),
    decreases s.len(),
{
    reveal(Seq::filter);
    if s.len() > 0 {
        let front = s.drop_last();
        let g = front.filter(keep);
        assert forall|i: int, j: int| 0 <= i < j < front.len() implies (#[trigger] front[i]).id@
            != (#[trigger] front[j]).id@ by {
            assert(s[i].id@ != s[j].id@);
        }
        filtered_stays_apart(front, keep);
        let f = s.filter(keep);
        assert forall|k: int| 0 <= k < f.len() implies s.contains(#[trigger] f[k]) by {
            if k < g.len() {
                assert(f[k] == g[k]);
                assert(front.contains(g[k]));
                let x = choose|x: int| 0 <= x < front.len() && front[x] == g[k];
                assert(s[x] == f[k]);
            } else {
                assert(s[s.len() - 1] == f[k]);
            }
        }
        assert forall|i: int, j: int| 0 <= i < j < f.len() implies (#[trigger] f[i]).id@ != (
        #[trigger] f[j]).id@ by {
            assert(f[i] == g[i]);
            if j < g.len() {
                assert(f[j] == g[j]);
            } else {
                assert(front.contains(g[i]));
                let x = choose|x: int| 0 <= x < front.len() && front[x] == g[i];
                assert(s[x].id@ != s[s.len() - 1].id@);
            }
        }
    }
}

/// What is left of items passes the test.
proof fn filtered_passes(s: Seq<Clip>, keep: spec_fn(Clip) -> bool)
    ensures
        forall|k: int| 0 <= k < s.filter(keep).len() ==> keep(#[trigger] s.filter(keep)[k]),
    decreases s.len(),
{
    reveal(Seq::filter);
    if s.len() > 0 {
        filtered_passes(s.drop_last(), keep);
        assert forall|k: int| 0 <= k < s.filter(keep).len() implies keep(
            #[trigger] s.filter(keep)[k],
        ) by {
            if k < s.drop_last().filter(keep).len() {
                assert(s.drop_last().filter(keep)[k] == s.filter(keep)[k]);
            }
        }
    }
}

/// The first item of an id is found.
proof fn clip_index_finds(items: Seq<Clip>, id: Seq<char>, k: int)
    requires
        0 <= k < items.len(),
        items[k].id@ == id,
        forall|j: int| 0 <= j < k ==> (#[trigger] items[j]).id@ != id,
    ensures
        clip_index(items, id) == k,
    decreases k,
{
    if k > 0 {
        assert(items[0].id@ != id);
        let rest = items.drop_first();
        assert forall|j: int| 0 <= j < k - 1 implies (#[trigger] rest[j]).id@ != id by {
            assert(rest[j] == items[j + 1]);
        }
        clip_index_finds(rest, id, k - 1);
    }
}

/// Of fewer items fewer are left.
proof fn filtering_twice_leaves_less(
    s: Seq<Clip>,
    keep: spec_fn(Clip) -> bool,
    pin: spec_fn(Clip) -> bool,
)
    ensures
        s.filter(keep).filter(pin).len() <= s.filter(pin).len(),
    decreases s.len(),
{
    reveal(Seq::filter);
    if s.len() > 0 {
        let front = s.drop_last();
        filtering_twice_leaves_less(front, keep, pin);
        if keep(s.last()) {
            assert(s.filter(keep).drop_last() =~= front.filter(keep));
            assert(s.filter(keep).last() == s.last());
        }
    }
}

/// A clip that is put in front stands before all that is not pinned, and no other has its id.
pub proof fn what_is_put_in_front_is_found(
    before: Seq<Clip>,
    after: Seq<Clip>,
    clip: Clip,
    most: nat,
) -> (at: int)
    requires
        put_in_front(before, after, clip, most),
        !clip.pinned,
        before.filter(|c: Clip| c.pinned).len() < most,
    ensures
        0 <= at < after.len(),
        after[at] == clip,
        clip_index(after, clip.id@) == at,
        forall|j: int| 0 <= j < at ==> (#[trigger] after[j]).pinned,
{
    let pin = |c: Clip| c.pinned;
    let no_pin = |c: Clip| !c.pinned;
    let keep = |c: Clip| c.id@ != clip.id@;
    let rest = without(before, clip.id@);
    let all = seq![clip] + rest;
    Seq::filter_distributes_over_add(seq![clip], rest, pin);
    Seq::filter_distributes_over_add(seq![clip], rest, no_pin);
    assert(seq![clip].filter(pin) =~= Seq::empty() && seq![clip].filter(no_pin) =~= seq![clip])
        by {
        reveal(Seq::filter);
        assert(seq![clip].drop_last() =~= Seq::empty());
        assert(Seq::<Clip>::empty().filter(pin) =~= Seq::empty());
        assert(Seq::<Clip>::empty().filter(no_pin) =~= Seq::empty());
    }
    let a = all.filter(pin);
    let b = all.filter(no_pin);
    assert(a =~= rest.filter(pin));
    assert(b[0] == clip);
    filtering_twice_leaves_less(before, keep, pin);
    let at = a.len() as int;
    filtered_passes(all, pin);
    filtered_passes(before, keep);
    filtered_is_of(rest, pin);
    assert(pinned_first(all)[at] == clip);
    assert(after[at] == clip);
    assert forall|j: int| 0 <= j < at implies (#[trigger] after[j]).pinned && after[j].id@
        != clip.id@ by {
        assert(after[j] == a[j]);
        assert(pin(a[j]));
        assert(rest.contains(rest.filter(pin)[j]));
        let x = choose|x: int| 0 <= x < rest.len() && rest[x] == a[j];
        assert(keep(rest[x]));
    }
    clip_index_finds(after, clip.id@, at);
    at
}

/// What is left of items stood among them.
proof fn filtered_is_of(s: Seq<Clip>, keep: spec_fn(Clip) -> bool)
    ensures
        forall|k: int| 0 <= k < s.filter(keep).len() ==> s.contains(#[trigger] s.filter(keep)[k]),
    decreases s.len(),
{
    reveal(Seq::filter);
    if s.len() > 0 {
        let front = s.drop_last();
        filtered_is_of(front, keep);
        let f = s.filter(keep);
        assert forall|k: int| 0 <= k < f.len() implies s.contains(#[trigger] f[k]) by {
            if k < front.filter(keep).len() {
                assert(f[k] == front.filter(keep)[k]);
                let x = choose|x: int| 0 <= x < front.len() && front[x] == f[k];
                assert(s[x] == f[k]);
            } else {
                assert(s[s.len() - 1] == f[k]);
            }
        }
    }
}

/// Copying gives back what was copied: once a text was taken up that is not blank, the latest item
/// holds it as a whole, and to copy that item is to copy the text as a whole. It is so unless the
/// pinned items leave no room, or an image that is the latest is called as the text reads.
pub proof fn copying_gives_back_what_was_copied(
    before: Seq<Clip>,
    after: Seq<Clip>,
    content: Seq<char>,
    most: nat,
) -> (latest: int)
    requires
        noted(before, after, content, most),
        trim_of(content).len() > 0,
        before.filter(|c: Clip| c.pinned).len() < most,
        before.len() > 0 && before[0].content@ == content ==> before[0].kind == ClipKind::Text,
    ensures
        0 <= latest < after.len(),
        forall|j: int| 0 <= j < latest ==> (#[trigger] after[j]).pinned,
        after[latest].content@ == content,
        after[latest].kind == ClipKind::Text,
        forall|later: Seq<Clip>, editor: Seq<char>, r: Result<ClipStep, String>| #[trigger]
            activated(after, later, most, after[latest].id@, "copy"@, editor, r) ==> later == after
                && (r matches Ok(ClipStep::CopyText(t)) && t@ == content),
{
    if before.len() > 0 && before[0].content@ == content {
        clip_index_finds(after, after[0].id@, 0);
        0
    } else {
        let clip = choose|clip: Clip| #[trigger]
            is_text_clip(clip, content) && put_in_front(before, after, clip, most);
        what_is_put_in_front_is_found(before, after, clip, most)
    }
}

/// To copy a text that stands in the history is to copy it as a whole, and to edit it is to edit it
/// as a whole; neither changes the history.
pub proof fn an_item_gives_its_whole_text(
    items: Seq<Clip>,
    later: Seq<Clip>,
    most: nat,
    k: int,
    editor: Seq<char>,
    r: Result<ClipStep, String>,
)
    requires
        0 <= k < items.len(),
        ids_differ(items),
        items[k].kind == ClipKind::Text,
    ensures
        activated(items, later, most, items[k].id@, "copy"@, editor, r) ==> later == items && (
        r matches Ok(ClipStep::CopyText(t)) && t@ == items[k].content@),
        activated(items, later, most, items[k].id@, "edit"@, editor, r) ==> later == items && (
        r matches Ok(ClipStep::EditText(_, t)) && t@ == items[k].content@),
{
    actions_differ();
    clip_index_finds(items, items[k].id@, k);
}

/// To copy an image is to have `wl-copy` read its file, and to edit it is to open its file; to read
/// its text is to read its file.
pub proof fn an_image_is_copied_from_its_file(
    items: Seq<Clip>,
    later: Seq<Clip>,
    most: nat,
    k: int,
    editor: Seq<char>,
    r: Result<ClipStep, String>,
)
    requires
        0 <= k < items.len(),
        ids_differ(items),
        items[k].kind == ClipKind::Image,
        items[k].image_path is Some,
        items[k].mime is Some,
    ensures
        activated(items, later, most, items[k].id@, "copy"@, editor, r) ==> later == items && (
        r matches Ok(ClipStep::Run(c)) && c@ == "wl-copy --type "@ + shell_quoted(
            items[k].mime->0@,
        ) + " < "@ + shell_quoted(items[k].image_path->0@)),
        activated(items, later, most, items[k].id@, "edit"@, editor, r) ==> later == items && (
        r matches Ok(ClipStep::Run(c)) && c@ == (if editor.len() > 0 {
            editor
        } else {
            "xdg-open"@
        }) + " "@ + shell_quoted(items[k].image_path->0@)),
        activated(items, later, most, items[k].id@, "ocr"@, editor, r) ==> later == items && (
        r matches Ok(ClipStep::ReadImage(p)) && p@ == items[k].image_path->0@),
{
    actions_differ();
    clip_index_finds(items, items[k].id@, k);
}

/// No action is another.
proof fn actions_differ()
    ensures
        "copy"@ != "edit"@ && "copy"@ != "ocr"@ && "copy"@ != "remove"@ && "copy"@ != "remove_all"@
            && "copy"@ != "pin"@ && "copy"@ != "unpin"@,
        "edit"@ != "ocr"@ && "edit"@ != "remove"@ && "edit"@ != "remove_all"@ && "edit"@ != "pin"@
            && "edit"@ != "unpin"@,
        "ocr"@ != "remove"@ && "ocr"@ != "remove_all"@ && "ocr"@ != "pin"@ && "ocr"@ != "unpin"@,
        "remove"@ != "remove_all"@ && "remove"@ != "pin"@ && "remove"@ != "unpin"@,
        "remove_all"@ != "pin"@ && "remove_all"@ != "unpin"@ && "pin"@ != "unpin"@,
{
    reveal_strlit("copy");
    reveal_strlit("edit");
    reveal_strlit("ocr");
    reveal_strlit("pin");
    reveal_strlit("unpin");
    reveal_strlit("remove");
    reveal_strlit("remove_all");
    assert("copy"@.len() == 4 && "edit"@.len() == 4 && "ocr"@.len() == 3 && "pin"@.len() == 3
        && "unpin"@.len() == 5 && "remove"@.len() == 6 && "remove_all"@.len() == 10);
    assert("copy"@[0] == 'c' && "edit"@[0] == 'e' && "ocr"@[0] == 'o' && "pin"@[0] == 'p');
}

/// A text that was edited is what the item gives back from then on, and no other item changes.
pub proof fn an_edited_text_is_given_back(
    before: Seq<Clip>,
    after: Seq<Clip>,
    later: Seq<Clip>,
    most: nat,
    k: int,
    content: String,
    editor: Seq<char>,
    r: Result<ClipStep, String>,
)
    requires
        0 <= k < before.len(),
        ids_differ(before),
        before[k].kind == ClipKind::Text,
        was_edited(before, after, before[k].id@, content),
        ids_differ(after),
        activated(after, later, most, after[k].id@, "copy"@, editor, r),
    ensures
        after.len() == before.len(),
        forall|j: int| 0 <= j < before.len() && j != k ==> #[trigger] after[j] == before[j],
        after[k].pinned == before[k].pinned,
        r matches Ok(ClipStep::CopyText(t)) && t@ == content@,
{
    clip_index_finds(before, before[k].id@, k);
    clip_index_finds(after, after[k].id@, k);
}

/// What is left after the items of an id are taken out, whichever way these are told.
proof fn without_is_the_rest(items: Seq<Clip>, id: Seq<char>, others: spec_fn(Clip) -> bool)
    requires
        forall|c: Clip| #[trigger] others(c) == (c.id@ != id),
    ensures
        without(items, id) == items.filter(others),
    decreases items.len(),
{
    reveal(Seq::filter);
    if items.len() > 0 {
        without_is_the_rest(items.drop_last(), id, others);
        assert(others(items.last()) == (items.last().id@ != id));
    }
}

/// What is removed is gone, and all else stays in its order; nothing stays where all is removed.
pub proof fn what_is_removed_is_gone(
    before: Seq<Clip>,
    after: Seq<Clip>,
    most: nat,
    identifier: Seq<char>,
    others: spec_fn(Clip) -> bool,
    editor: Seq<char>,
    r: Result<ClipStep, String>,
)
    requires
        forall|c: Clip| #[trigger] others(c) == (c.id@ != identifier),
    ensures
        activated(before, after, most, identifier, "remove"@, editor, r) ==> after == before.filter(
            others,
        ) && r is Ok,
        activated(before, after, most, identifier, "remove_all"@, editor, r) ==> after.len() == 0
            && r is Ok,
{
    actions_differ();
    without_is_the_rest(before, identifier, others);
}

/// An item that is pinned is pinned from then on and stands before all that is not; one whose pin is
/// taken off is so no more. Nothing else changes of any item, and none goes, as long as no more are
/// held than are kept.
pub proof fn a_pin_holds_an_item(
    before: Seq<Clip>,
    after: Seq<Clip>,
    most: nat,
    k: int,
    pinned: bool,
    editor: Seq<char>,
    r: Result<ClipStep, String>,
)
    requires
        0 <= k < before.len() <= most,
        ids_differ(before),
        activated(
            before,
            after,
            most,
            before[k].id@,
            if pinned {
                "pin"@
            } else {
                "unpin"@
            },
            editor,
            r,
        ),
    ensures
        r is Ok,
        after.contains(Clip { pinned, ..before[k] }),
        forall|j: int| 0 <= j < before.len() && j != k ==> after.contains(#[trigger] before[j]),
        after.len() == before.len(),
        forall|i: int, j: int|
            0 <= i < j < after.len() && (#[trigger] after[j]).pinned ==> (#[trigger] after[i]).pinned,
{
    actions_differ();
    clip_index_finds(before, before[k].id@, k);
    let now = before.update(k, Clip { pinned, ..before[k] });
    compaction_keeps_pinned_items_in_front(now, most);
    compaction_keeps_items(now, most);
    assert(now[k] == (Clip { pinned, ..before[k] }));
    assert forall|j: int| 0 <= j < before.len() && j != k implies after.contains(
        #[trigger] before[j],
    ) by {
        assert(now[j] == before[j]);
    }
}

/// Compaction drops nothing of what is few enough.
proof fn compaction_keeps_items(items: Seq<Clip>, most: nat)
    requires
        items.len() <= most,
    ensures
        compacted(items, most).len() == items.len(),
        forall|j: int|
            0 <= j < items.len() ==> compacted(items, most).contains(#[trigger] items[j]),
{
    let pin = |c: Clip| c.pinned;
    let no_pin = |c: Clip| !c.pinned;
    two_parts_are_all(items);
    let a = items.filter(pin);
    let b = items.filter(no_pin);
    let all = compacted(items, most);
    assert(all =~= a + b);
    assert forall|j: int| 0 <= j < items.len() implies all.contains(#[trigger] items[j]) by {
        if pin(items[j]) {
            items.lemma_filter_contains(pin, j);
            let x = choose|x: int| 0 <= x < a.len() && a[x] == items[j];
            assert(all[x] == items[j]);
        } else {
            assert(no_pin(items[j]));
            items.lemma_filter_contains(no_pin, j);
            let x = choose|x: int| 0 <= x < b.len() && b[x] == items[j];
            assert(all[a.len() + x] == items[j]);
        }
    }
}

/// What is pinned and what is not is all there is.
proof fn two_parts_are_all(items: Seq<Clip>)
    ensures
        items.filter(|c: Clip| c.pinned).len() + items.filter(|c: Clip| !c.pinned).len()
            == items.len(),
    decreases items.len(),
{
    reveal(Seq::filter);
    if items.len() > 0 {
        two_parts_are_all(items.drop_last());
    }
}

/// An action that the clipboard does not know is refused, and one on an item that it does not hold
/// comes to nothing; neither changes the history.
pub proof fn what_is_unknown_changes_nothing(
    before: Seq<Clip>,
    after: Seq<Clip>,
    most: nat,
    identifier: Seq<char>,
    action: Seq<char>,
    editor: Seq<char>,
    r: Result<ClipStep, String>,
)
    requires
        activated(before, after, most, identifier, action, editor, r),
    ensures
        !(seq![
            "copy"@,
            "edit"@,
            "ocr"@,
            "pin"@,
            "unpin"@,
            "remove"@,
            "remove_all"@,
        ].contains(action)) ==> r is Err && after == before,
        (forall|j: int| 0 <= j < before.len() ==> (#[trigger] before[j]).id@ != identifier) && (action
            == "copy"@ || action == "edit"@) ==> (r matches Ok(ClipStep::Nothing)) && after == before,
{
    let all = seq!["copy"@, "edit"@, "ocr"@, "pin"@, "unpin"@, "remove"@, "remove_all"@];
    assert(all[0] == "copy"@ && all[1] == "edit"@ && all[2] == "ocr"@ && all[3] == "pin"@ && all[4]
        == "unpin"@ && all[5] == "remove"@ && all[6] == "remove_all"@);
    clip_index_is_first(before, identifier);
}

/// What is listed leads to what it shows: each result stands for an item, is called by the first line
/// of it, and shows a text as a whole; to copy by the result's id is to copy that item.
pub proof fn a_result_leads_to_its_item(
    results: Seq<Item>,
    items: Seq<Clip>,
    found: Seq<int>,
    ocr: bool,
    query: Seq<char>,
    exact: bool,
    k: int,
    later: Seq<Clip>,
    most: nat,
    editor: Seq<char>,
    r: Result<ClipStep, String>,
)
    requires
        are_clip_items(results, items, found, items.len() as int, ocr, query, exact),
        ids_differ(items),
        0 <= k < results.len(),
        items[found[k]].kind == ClipKind::Text,
        items[found[k]].image_path is None,
        activated(items, later, most, results[k].identifier@, "copy"@, editor, r),
    ensures
        r matches Ok(ClipStep::CopyText(t)) && t@ == items[found[k]].content@,
        results[k].preview@ == items[found[k]].content@,
        results[k].provider@ == "clipboard"@,
        items[found[k]].pinned <==> texts(results[k].state@).contains("pinned"@),
        items[found[k]].pinned <==> texts(results[k].actions@).contains("unpin"@),
        !items[found[k]].pinned <==> texts(results[k].actions@).contains("pin"@),
{
    actions_differ();
    let clip = items[found[k]];
    assert(is_clip_item(
        results[k],
        clip,
        items.len() as int,
        found[k],
        ocr,
        match_of(query, lower_of(searched(clip)), exact)->0,
    ));
    clip_index_finds(items, clip.id@, found[k]);
    let states = clip_states(clip);
    let actions = clip_actions(clip, ocr);
    reveal_strlit("pinned");
    reveal_strlit("text");
    assert("pinned"@.len() == 6 && "text"@.len() == 4);
    if clip.pinned {
        assert(states[0] == "pinned"@);
        assert(actions[3] == "unpin"@);
    } else {
        assert(actions[3] == "pin"@);
    }
}

/// The first type that is an image is taken.
pub proof fn image_line_is_first(lines: Seq<Seq<char>>)
    ensures
        0 <= image_line(lines) <= lines.len(),
        image_line(lines) < lines.len() ==> begins_with(lines[image_line(lines)], "image/"@),
        forall|j: int|
            0 <= j < image_line(lines) ==> !begins_with(#[trigger] lines[j], "image/"@),
    decreases lines.len(),
{
    if lines.len() > 0 && !begins_with(lines[0], "image/"@) {
        let rest = lines.drop_first();
        image_line_is_first(rest);
        assert forall|j: int| 0 <= j < image_line(lines) implies !begins_with(
            #[trigger] lines[j],
            "image/"@,
        ) by {
            if j > 0 {
                assert(rest[j - 1] == lines[j]);
            }
        }
    }
}

/// An item is listed where the query matches its content and the text in its image, and nothing else is
/// listed.
pub proof fn an_item_that_matches_is_listed(
    r: Seq<Item>,
    items: Seq<Clip>,
    ocr: bool,
    query: Seq<char>,
    limit: nat,
    exact: bool,
    k: int,
    i: int,
)
    requires
        are_results(r, items, ocr, query, limit, exact),
        0 <= k < items.len() <= limit,
        items.len() <= usize::MAX,
    ensures
        match_of(
            lower_of(query),
            lower_of(items[k].content@ + " "@ + items[k].ocr@),
            exact,
        ) is Some ==> exists|x: int| 0 <= x < r.len() && (#[trigger] r[x]).identifier@ == items[k].id@,
        0 <= i < r.len() ==> exists|c: int|
            0 <= c < items.len() && r[i].identifier@ == (#[trigger] items[c]).id@ && match_of(
                lower_of(query),
                lower_of(items[c].content@ + " "@ + items[c].ocr@),
                exact,
            ) is Some,
{
    let all = searches(items);
    let q = lower_of(query);
    let found = matching_texts(all, q, exact);
    let results = choose|results: Seq<Item>| #[trigger]
        are_clip_items(results, items, found, items.len() as int, ocr, q, exact) && is_top(
            results,
            r,
            limit,
        );
    hits_stand_in_order(all, q, exact, 0, 0);
    what_matches_is_a_hit(all, q, exact, k);
    matching_texts_bounds(all, q, exact);
    assert(all[k] == lower_of(searched(items[k])));
    if found.contains(k) {
        let x = choose|x: int| 0 <= x < found.len() && found[x] == k;
        assert(is_clip_item(
            results[x],
            items[k],
            items.len() as int,
            k,
            ocr,
            match_of(q, lower_of(searched(items[k])), exact)->0,
        ));
        nothing_is_left_out_below_the_limit(results, r, limit, x);
        let y = choose|y: int| 0 <= y < r.len() && r[y] == results[x];
        assert(r[y].identifier@ == items[k].id@);
    }
    if 0 <= i < r.len() {
        assert(results.len() > 0);
        nothing_better_is_left_out(results, r, limit, 0);
        assert(results.contains(r[i]));
        let x = choose|x: int| 0 <= x < results.len() && results[x] == r[i];
        let c = found[x];
        assert(all[c] == lower_of(searched(items[c])));
        assert(r[i].identifier@ == items[c].id@);
    }
}

/// An image that was taken up stands before all that is not pinned, and copying it gives back the file
/// that was written for it, under its kind.
pub proof fn copying_an_image_gives_back_its_file(
    before: Seq<Clip>,
    after: Seq<Clip>,
    id: Seq<char>,
    mime: Seq<char>,
    path: Seq<char>,
    ocr: Seq<char>,
    most: nat,
) -> (latest: int)
    requires
        image_noted(before, after, id, mime, path, ocr, most),
        before.filter(|c: Clip| c.pinned).len() < most,
    ensures
        0 <= latest < after.len(),
        forall|j: int| 0 <= j < latest ==> (#[trigger] after[j]).pinned,
        after[latest].id@ == id,
        after[latest].kind == ClipKind::Image,
        after[latest].ocr@ == ocr,
        forall|later: Seq<Clip>, editor: Seq<char>, r: Result<ClipStep, String>| #[trigger]
            activated(after, later, most, id, "copy"@, editor, r) ==> later == after && (r matches Ok(
                ClipStep::Run(c),
            ) && c@ == "wl-copy --type "@ + shell_quoted(mime) + " < "@ + shell_quoted(path)),
{
    let clip = choose|clip: Clip| #[trigger]
        is_image_clip(clip, id, mime, path, ocr) && put_in_front(before, after, clip, most);
    actions_differ();
    what_is_put_in_front_is_found(before, after, clip, most)
}

/// An image is kept under the extension of its kind, and under that of a bitmap where the kind is
/// another.
pub proof fn an_image_has_the_extension_of_its_kind(kind: Seq<char>)
    ensures
        extension_for("image/jpeg"@) == "jpg"@,
        "image/"@ + kind == "image/gif"@ ==> extension_for("image/"@ + kind) == kind,
        "image/"@ + kind == "image/webp"@ ==> extension_for("image/"@ + kind) == kind,
        "image/"@ + kind == "image/bmp"@ ==> extension_for("image/"@ + kind) == kind,
        "image/"@ + kind == "image/png"@ ==> extension_for("image/"@ + kind) == kind,
{
    reveal_strlit("image/");
    reveal_strlit("image/jpeg");
    reveal_strlit("image/gif");
    reveal_strlit("image/webp");
    reveal_strlit("image/bmp");
    reveal_strlit("image/png");
    reveal_strlit("gif");
    reveal_strlit("webp");
    reveal_strlit("bmp");
    reveal_strlit("png");
    let mime = "image/"@ + kind;
    assert("image/jpeg"@.len() == 10 && "image/gif"@.len() == 9 && "image/webp"@.len() == 10);
    assert("image/bmp"@.len() == 9 && "image/png"@.len() == 9);
    assert("image/jpeg"@[6] == 'j' && "image/gif"@[6] == 'g' && "image/webp"@[6] == 'w');
    assert("image/bmp"@[6] == 'b' && "image/png"@[6] == 'p');
    assert(mime.skip(6) =~= kind);
    assert("image/gif"@.skip(6) =~= "gif"@);
    assert("image/webp"@.skip(6) =~= "webp"@);
    assert("image/bmp"@.skip(6) =~= "bmp"@);
    assert("image/png"@.skip(6) =~= "png"@);
}

/// The hash of no bytes is the offset, and each byte more is mixed into the lowest bits before the whole
/// is multiplied.
pub proof fn each_byte_is_mixed_into_the_hash(bytes: Seq<u8>, byte: u8)
    ensures
        hash_of(Seq::empty()) == 0x1465_0fb0_739d_0383u64,
        hash_of(bytes.push(byte)) == (((hash_of(bytes) ^ (byte as u64)) as int) * 0x100_0000_01b3)
            % 0x1_0000_0000_0000_0000,
        image_id_of(bytes) == "image-"@ + hex_text(hash_of(bytes) as nat),
{
    assert(bytes.push(byte).drop_last() =~= bytes);
}

} // verus!
