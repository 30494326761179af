//! The wallpaper of the desktop: what is on it, what could be, and switching between them.
//!
//! The switch is asked of `hyprpaper` through `hyprctl`. What is on screen is remembered here, for
//! `hyprpaper` goes on naming what it loaded at its start. Paths are used as they were found: a
//! path that was resolved is not one that `hyprpaper` knows.

use vstd::arithmetic::div_mod::{
    lemma_fundamental_div_mod, lemma_mod_multiples_vanish, lemma_small_mod,
};
use vstd::prelude::*;
use vstd::string::*;

use crate::order::{
    comes_before, comes_before_is_total, comes_before_is_transitive, index_before, is_arrangement,
    sorted_order, TextKey,
};
use crate::path::{
    a_file_has_its_own_name, a_name_is_its_stem_and_extension, extension_of, file_name,
    file_name_of, is_plain_name, split_extension,
};
use crate::text::{
    copy_texts, is_white, join, joined, lossy, lossy_of, maybe, same, same_but_case,
    same_ignoring_case, texts, trim, trim_end_of, trim_of, trim_start_of,
};

verus! {

/// How deep a directory is searched.
pub const MAX_DEPTH: usize = 2;

/// What is reported of the wallpaper.
#[derive(Debug)]
pub struct Wallpaper {
    /// Every image that was found, in order, so that each keeps its place.
    pub wallpapers: Vec<String>,
    /// What is on screen, as far as is known.
    pub current: String,
    pub directories: Vec<String>,
    pub fit_mode: String,
    pub available: bool,
    pub unavailable_reason: Option<String>,
}

/// What is configured of the wallpaper.
#[derive(Debug)]
pub struct Settings {
    pub directories: Vec<String>,
    pub fit_mode: String,
}

/// What is configured of the wallpaper: where images are, and how one is fitted to the screen.
pub fn configure(directories: &Vec<String>, fit_mode: &str) -> (r: Settings)
    ensures
        texts(r.directories@) == texts(directories@),
        r.fit_mode@ == fit_mode@,
{
    Settings { directories: copy_texts(directories), fit_mode: fit_mode.to_owned() }
}

/// Whether a path is that of an image that can be loaded.
pub open spec fn is_image(path: Seq<char>) -> bool {
    match file_name_of(path) {
        Some(name) => match extension_of(name) {
            Some(e) => same_but_case(e, "jpg"@) || same_but_case(e, "jpeg"@) || same_but_case(
                e,
                "png"@,
            ) || same_but_case(e, "webp"@),
            None => false,
        },
        None => false,
    }
}

/// Whether a path is that of an image that can be loaded.
pub fn loadable(path: &str) -> (r: bool)
    ensures
        r == is_image(path@),
{
    let name = match file_name(path) {
        Some(name) => name,
        None => return false,
    };
    match split_extension(name.as_str()).1 {
        Some(extension) => {
            let e = extension.as_str();
            same_ignoring_case(e, "jpg") || same_ignoring_case(e, "jpeg") || same_ignoring_case(
                e,
                "png",
            ) || same_ignoring_case(e, "webp")
        },
        None => false,
    }
}

/// Something in a directory, where links count as what they lead to.
#[derive(Debug)]
pub enum Entry {
    File(String),
    Folder(Vec<Entry>),
}

/// The images under some entries that are that deep.
pub open spec fn images_under(entries: Seq<Entry>, depth: nat) -> Seq<Seq<char>>
    decreases entries, 1int,
{
    images_before(entries, entries.len(), depth)
}

/// The images under the first of some entries.
pub open spec fn images_before(entries: Seq<Entry>, n: nat, depth: nat) -> Seq<Seq<char>>
    decreases entries, 0int, n,
{
    if n == 0 || n > entries.len() || depth > MAX_DEPTH {
        Seq::empty()
    } else {
        let before = images_before(entries, (n - 1) as nat, depth);
        match entries[n - 1] {
            Entry::File(path) => if is_image(path@) {
                before.push(path@)
            } else {
                before
            },
            Entry::Folder(inside) => before + images_under(inside@, depth + 1),
        }
    }
}

/// Adds the images under some entries.
fn scan_dir(entries: &Vec<Entry>, depth: usize, found: &mut Vec<String>)
    requires
        depth <= MAX_DEPTH + 1,
    ensures
        texts(final(found)@) == texts(old(found)@) + images_under(entries@, depth as nat),
    decreases MAX_DEPTH + 1 - depth,
{
    let ghost start = texts(found@);
    assert(start + Seq::<Seq<char>>::empty() =~= start);
    if depth > MAX_DEPTH {
        return;
    }
    let mut i: usize = 0;
    while i < entries.len()
        invariant
            depth <= MAX_DEPTH,
            i <= entries@.len(),
            start == texts(old(found)@),
            texts(found@) == start + images_before(entries@, i as nat, depth as nat),
        decreases entries.len() - i,
    {
        let ghost before = texts(found@);
        let ghost so_far = images_before(entries@, i as nat, depth as nat);
        match &entries[i] {
            Entry::File(path) => {
                if loadable(path.as_str()) {
                    found.push(path.as_str().to_owned());
                    assert(texts(found@) =~= before.push(path@));
                    assert(start + so_far.push(path@) =~= (start + so_far).push(path@));
                }
            },
            Entry::Folder(inside) => {
                scan_dir(inside, depth + 1, found);
                let ghost more = images_under(inside@, (depth + 1) as nat);
                assert(start + (so_far + more) =~= (start + so_far) + more);
            },
        }
        i += 1;
    }
}

/// The images under each of some directories.
pub open spec fn images_of(directories: Seq<Vec<Entry>>) -> Seq<Seq<char>>
    decreases directories.len(),
{
    if directories.len() == 0 {
        Seq::empty()
    } else {
        images_of(directories.drop_last()) + images_under(directories.last()@, 1)
    }
}

/// Whether texts are in order, each of them once.
pub open spec fn ascends(list: Seq<Seq<char>>) -> bool {
    forall|i: int, j: int|
        0 <= i < j < list.len() ==> comes_before(#[trigger] list[i], #[trigger] list[j])
}

/// Whether the list is that of the texts, in order and each of them once.
pub open spec fn is_ordered_set(list: Seq<Seq<char>>, all: Seq<Seq<char>>) -> bool {
    &&& ascends(list)
    &&& forall|s: Seq<char>| #[trigger] list.contains(s) <==> all.contains(s)
}

/// Texts in order, each of them once.
fn in_order(found: &Vec<String>) -> (r: Vec<String>)
    ensures
        is_ordered_set(texts(r@), texts(found@)),
{
    let ghost all = texts(found@);
    let mut keys: Vec<TextKey> = Vec::new();
    let mut i: usize = 0;
    while i < found.len()
        invariant
            i <= found@.len(),
            all == texts(found@),
            keys@.len() == i,
            forall|k: int| 0 <= k < i ==> (#[trigger] keys@[k]).0@ == all[k],
        decreases found.len() - i,
    {
        keys.push(TextKey(found[i].as_str().to_owned()));
        i += 1;
    }
    let order = sorted_order(&keys);
    let mut out: Vec<String> = Vec::new();
    let mut k: usize = 0;
    while k < order.len()
        invariant
            all == texts(found@),
            is_arrangement(order@, all.len()),
            k <= order@.len(),
            keys@.len() == all.len(),
            forall|j: int| 0 <= j < all.len() ==> (#[trigger] keys@[j]).0@ == all[j],
            forall|a: int, b: int|
                0 <= a < b < order@.len() ==> #[trigger] index_before(keys@, order@[a], order@[b]),
            ascends(texts(out@)),
            forall|j: int| 0 <= j < out@.len() ==> all.contains(#[trigger] texts(out@)[j]),
            forall|j: int| 0 <= j < k ==> texts(out@).contains(all[#[trigger] order@[j] as int]),
            out@.len() > 0 ==> k > 0 && texts(out@).last() == all[order@[k - 1] as int],
            k > 0 ==> out@.len() > 0,
        decreases order.len() - k,
    {
        let at = order[k];
        assert(at < all.len());
        let ghost before = texts(out@);
        let fresh = out.len() == 0 || !same(out[out.len() - 1].as_str(), found[at].as_str());
        if fresh {
            out.push(found[at].as_str().to_owned());
            proof {
                let now = texts(out@);
                assert(now =~= before.push(all[at as int]));
                assert forall|i: int, j: int| 0 <= i < j < now.len() implies comes_before(
                    #[trigger] now[i],
                    #[trigger] now[j],
                ) by {
                    if j == now.len() - 1 {
                        let last = before.last();
                        assert(index_before(keys@, order@[k - 1], order@[k as int]));
                        assert(keys@[order@[k - 1] as int].0@ == all[order@[k - 1] as int]);
                        assert(keys@[at as int].0@ == all[at as int]);
                        assert(last == before[before.len() - 1]);
                        comes_before_is_total(last, all[at as int]);
                        assert(comes_before(last, all[at as int]));
                        if i < before.len() - 1 {
                            assert(comes_before(before[i], before[before.len() - 1]));
                            comes_before_is_transitive(before[i], last, all[at as int]);
                        }
                    } else {
                        assert(comes_before(before[i], before[j]));
                    }
                }
                assert forall|j: int| 0 <= j < k + 1 implies now.contains(
                    all[#[trigger] order@[j] as int],
                ) by {
                    if j == k {
                        assert(now[now.len() - 1] == all[at as int]);
                    } else {
                        let x = all[order@[j] as int];
                        assert(before.contains(x));
                        let p = choose|p: int| 0 <= p < before.len() && before[p] == x;
                        assert(now[p] == x);
                    }
                }
                assert forall|j: int| 0 <= j < out@.len() implies all.contains(
                    #[trigger] now[j],
                ) by {
                    if j == now.len() - 1 {
                        assert(all[at as int] == now[j]);
                    } else {
                        assert(all.contains(before[j]));
                    }
                }
            }
        } else {
            proof {
                assert(before[before.len() - 1] == all[at as int]);
                assert forall|j: int| 0 <= j < k + 1 implies before.contains(
                    all[#[trigger] order@[j] as int],
                ) by {
                }
            }
        }
        k += 1;
    }
    proof {
        let list = texts(out@);
        assert forall|s: Seq<char>| #[trigger] list.contains(s) <==> all.contains(s) by {
            if all.contains(s) {
                let p = choose|p: int| 0 <= p < all.len() && all[p] == s;
                assert(order@.contains(p as usize));
                let j = choose|j: int| 0 <= j < order@.len() && order@[j] == p as usize;
                assert(list.contains(all[order@[j] as int]));
            }
            if list.contains(s) {
                let j = choose|j: int| 0 <= j < list.len() && list[j] == s;
                assert(all.contains(list[j]));
            }
        }
    }
    out
}

/// Every image in the directories, in order.
pub fn scan(directories: &Vec<Vec<Entry>>) -> (r: Vec<String>)
    ensures
        is_ordered_set(texts(r@), images_of(directories@)),
{
    let mut found: Vec<String> = Vec::new();
    let mut i: usize = 0;
    assert(directories@.take(0) =~= Seq::empty());
    assert(texts(found@) =~= Seq::empty());
    while i < directories.len()
        invariant
            i <= directories@.len(),
            texts(found@) == images_of(directories@.take(i as int)),
        decreases directories.len() - i,
    {
        assert(directories@.take(i + 1).drop_last() =~= directories@.take(i as int));
        scan_dir(&directories[i], 1, &mut found);
        i += 1;
    }
    assert(directories@.take(i as int) =~= directories@);
    in_order(&found)
}

/// Whether wallpapers can be switched here, and why not where they cannot.
pub fn available(installed: bool) -> (r: Result<(), String>)
    ensures
        match r {
            Ok(_) => installed,
            Err(reason) => !installed && reason@ == "hyprctl is not installed"@,
        },
{
    if installed {
        Ok(())
    } else {
        Err("hyprctl is not installed".to_owned())
    }
}

/// What was saved as the wallpaper, where anything was.
pub open spec fn remembered_in(saved: Option<Seq<char>>) -> Option<Seq<char>> {
    match saved {
        Some(text) => if trim_of(text).len() > 0 {
            Some(trim_of(text))
        } else {
            None
        },
        None => None,
    }
}

/// What was saved as the wallpaper, where anything was.
pub fn remembered(saved: Option<&str>) -> (r: Option<String>)
    ensures
        match r {
            Some(path) => remembered_in(maybe(saved)) == Some(path@),
            None => remembered_in(maybe(saved)) is None,
        },
{
    match saved {
        Some(text) => {
            let path = trim(text);
            if path.as_str().is_empty() {
                None
            } else {
                Some(path)
            }
        },
        None => None,
    }
}

/// What is saved of a wallpaper.
pub fn remember(path: &str) -> (r: String)
    ensures
        r@ == path@ + "\n"@,
{
    let mut out = path.to_owned();
    out.append("\n");
    out
}

/// What is on screen: what is held, or else what was saved. The second serves a call that no daemon
/// stands behind, which would else begin at the first image.
pub open spec fn current_of(held: Option<Seq<char>>, saved: Option<Seq<char>>) -> Seq<char> {
    match held {
        Some(path) => path,
        None => match remembered_in(saved) {
            Some(path) => path,
            None => Seq::empty(),
        },
    }
}

/// What is on screen.
pub fn current(held: Option<&str>, saved: Option<&str>) -> (r: String)
    ensures
        r@ == current_of(maybe(held), maybe(saved)),
{
    match held {
        Some(path) => path.to_owned(),
        None => match remembered(saved) {
            Some(path) => path,
            None => String::new(),
        },
    }
}

/// How `hyprctl` is asked for a wallpaper.
pub open spec fn wish_words(path: Seq<char>, fit_mode: Seq<char>) -> Seq<Seq<char>> {
    seq!["hyprpaper"@, "wallpaper"@, ","@ + path + ","@ + fit_mode]
}

/// The arguments with which `hyprctl` asks for a wallpaper on every output. The fit goes with it:
/// an image that is set like this has none from elsewhere.
pub fn apply(path: &str, settings: &Settings) -> (r: Vec<String>)
    ensures
        texts(r@) == wish_words(path@, settings.fit_mode@),
{
    let mut wish = ",".to_owned();
    wish.append(path);
    wish.append(",");
    wish.append(settings.fit_mode.as_str());
    let mut out: Vec<String> = Vec::new();
    out.push("hyprpaper".to_owned());
    out.push("wallpaper".to_owned());
    out.push(wish);
    assert(texts(out@) =~= seq![
        "hyprpaper"@,
        "wallpaper"@,
        ","@ + path@ + ","@ + settings.fit_mode@,
    ]);
    out
}

/// What `hyprctl` answered: it says nothing where the switch was made.
pub fn applied(stdout: &[u8]) -> (r: Result<(), String>)
    ensures
        match r {
            Ok(_) => trim_of(lossy_of(stdout@)).len() == 0,
            Err(message) => trim_of(lossy_of(stdout@)).len() > 0 && message@
                == "hyprpaper refused: "@ + trim_of(lossy_of(stdout@)),
        },
{
    let said = trim(lossy(stdout).as_str());
    if said.as_str().is_empty() {
        return Ok(());
    }
    let mut message = "hyprpaper refused: ".to_owned();
    message.append(said.as_str());
    Err(message)
}

/// What is reported of the wallpaper.
pub fn status(
    settings: &Settings,
    directories: &Vec<Vec<Entry>>,
    held: Option<&str>,
    saved: Option<&str>,
    installed: bool,
) -> (r: Wallpaper)
    ensures
        is_ordered_set(texts(r.wallpapers@), images_of(directories@)),
        r.current@ == current_of(maybe(held), maybe(saved)),
        texts(r.directories@) == texts(settings.directories@),
        r.fit_mode@ == settings.fit_mode@,
        r.available == installed,
        match r.unavailable_reason {
            Some(reason) => !installed && reason@ == "hyprctl is not installed"@,
            None => installed,
        },
{
    Wallpaper {
        wallpapers: scan(directories),
        current: current(held, saved),
        directories: copy_texts(&settings.directories),
        fit_mode: settings.fit_mode.as_str().to_owned(),
        available: installed,
        unavailable_reason: match available(installed) {
            Ok(_) => None,
            Err(reason) => Some(reason),
        },
    }
}

/// The wallpaper that is wanted, where there is such an image. `there` says so of the path without
/// the white space around it.
pub fn set(path: &str, there: bool) -> (r: Result<String, String>)
    ensures
        match r {
            Ok(wanted) => wanted@ == trim_of(path@) && wanted@.len() > 0 && there,
            Err(message) => if trim_of(path@).len() == 0 {
                message@ == "no wallpaper path given"@
            } else {
                !there && message@ == "no such image: "@ + trim_of(path@)
            },
        },
{
    let wanted = trim(path);
    if wanted.as_str().is_empty() {
        return Err("no wallpaper path given".to_owned());
    }
    if !there {
        let mut message = "no such image: ".to_owned();
        message.append(wanted.as_str());
        return Err(message);
    }
    Ok(wanted)
}

/// The index of the first text that is the wanted one, or the number of texts.
pub open spec fn text_index(list: Seq<Seq<char>>, wanted: Seq<char>) -> int
    decreases list.len(),
{
    if list.len() == 0 || list[0] == wanted {
        0
    } else {
        1 + text_index(list.drop_first(), wanted)
    }
}

/// Where the list is entered: at what is on screen, or else at its start.
pub open spec fn place_of(list: Seq<Seq<char>>, current: Seq<char>) -> int {
    if text_index(list, current) < list.len() {
        text_index(list, current)
    } else {
        0
    }
}

/// Where so many steps lead in a list. It is walked round and round.
pub open spec fn stepped(at: int, step: int, len: int) -> int {
    (at + step) % len
}

/// Whether this is the image so many steps after what is on screen.
pub open spec fn is_step(
    r: Result<String, String>,
    list: Seq<Seq<char>>,
    current: Seq<char>,
    by: int,
    directories: Seq<Seq<char>>,
) -> bool {
    match r {
        Ok(path) => {
            &&& list.len() > 0
            &&& path@ == list[stepped(place_of(list, current), by, list.len() as int)]
        },
        Err(message) => list.len() == 0 && message@ == "no images in "@ + joined(
            directories,
            ", "@,
        ),
    }
}

/// The image so many steps after what is on screen, or before it where the number is negative.
pub fn step(list: &Vec<String>, current: &str, by: i64, settings: &Settings) -> (r: Result<
    String,
    String,
>)
    ensures
        is_step(r, texts(list@), current@, by as int, texts(settings.directories@)),
{
    if list.len() == 0 {
        let mut message = "no images in ".to_owned();
        message.append(join(&settings.directories, ", ").as_str());
        return Err(message);
    }
    let ghost all = texts(list@);
    assert(all.skip(0) =~= all);
    let mut at: usize = 0;
    while at < list.len() && !same(list[at].as_str(), current)
        invariant
            all == texts(list@),
            at <= list@.len(),
            text_index(all, current@) == at + text_index(all.skip(at as int), current@),
        decreases list.len() - at,
    {
        assert(all.skip(at as int)[0] == list@[at as int]@);
        assert(all.skip(at as int).drop_first() =~= all.skip(at + 1));
        at += 1;
    }
    if at < list.len() {
        assert(all.skip(at as int)[0] == list@[at as int]@);
    } else {
        at = 0;
    }
    let sum = at as i128 + by as i128;
    let len = list.len() as i128;
    assert(0 <= sum % len < len);
    let to = match sum.checked_rem_euclid(len) {
        Some(to) => to,
        None => 0,
    };
    Ok(list[to as usize].as_str().to_owned())
}

/// What was chosen in the last session and is put back at the start of this one. A missing choice is
/// what a new machine has, and an image that has gone is not worth failing for.
pub fn restore(saved: Option<&str>, there: bool) -> (r: Option<String>)
    ensures
        match r {
            Some(path) => there && remembered_in(maybe(saved)) == Some(path@),
            None => !there || remembered_in(maybe(saved)) is None,
        },
{
    if there {
        remembered(saved)
    } else {
        None
    }
}

/// Steps lead to an image of the list, and as many back lead to where they began.
pub proof fn stepping_back_leads_back(at: int, step: int, len: int)
    requires
        0 <= at < len,
    ensures
        0 <= stepped(at, step, len) < len,
        stepped(stepped(at, step, len), -step, len) == at,
{
    let there = (at + step) % len;
    let turns = (at + step) / len;
    lemma_fundamental_div_mod(at + step, len);
    assert(there - step == at + len * (-turns)) by (nonlinear_arith)
        requires
            at + step == len * turns + there,
    ;
    lemma_mod_multiples_vanish(-turns, at, len);
    lemma_small_mod(at as nat, len as nat);
}

/// A wallpaper that was chosen is found again after it was saved.
pub proof fn a_choice_is_remembered(path: Seq<char>)
    requires
        path.len() > 0,
        trim_of(path) == path,
    ensures
        remembered_in(Some(path + "\n"@)) == Some(path),
        current_of(None, Some(path + "\n"@)) == path,
{
    reveal_strlit("\n");
    let saved = path + "\n"@;
    trim_keeps_ends(path);
    assert(saved[0] == path[0]);
    assert(saved.last() == '\n');
    assert(saved.drop_last() =~= path);
    assert(trim_start_of(saved) == saved);
    assert(trim_end_of(saved) == trim_end_of(path));
    assert(trim_end_of(path) == path);
}

/// What a trimmed text begins and ends with is no white space.
proof fn trim_keeps_ends(s: Seq<char>)
    requires
        s.len() > 0,
        trim_of(s) == s,
    ensures
        !is_white(s[0]),
        !is_white(s.last()),
{
    trim_start_shortens(s);
    trim_end_shortens(trim_start_of(s));
}

/// Taking off white space at the start makes a text no longer.
proof fn trim_start_shortens(s: Seq<char>)
    ensures
        trim_start_of(s).len() <= s.len(),
        s.len() > 0 && is_white(s[0]) ==> trim_start_of(s).len() < s.len(),
    decreases s.len(),
{
    if s.len() > 0 && is_white(s[0]) {
        trim_start_shortens(s.drop_first());
    }
}

/// Taking off white space at the end makes a text no longer.
proof fn trim_end_shortens(s: Seq<char>)
    ensures
        trim_end_of(s).len() <= s.len(),
        s.len() > 0 && is_white(s.last()) ==> trim_end_of(s).len() < s.len(),
    decreases s.len(),
{
    if s.len() > 0 && is_white(s.last()) {
        trim_end_shortens(s.drop_last());
    }
}

/// The first of some texts is found.
proof fn text_index_finds(list: Seq<Seq<char>>, k: int)
    requires
        0 <= k < list.len(),
        forall|j: int| 0 <= j < k ==> (#[trigger] list[j]) != list[k],
    ensures
        text_index(list, list[k]) == k,
    decreases k,
{
    if k > 0 {
        assert(list[0] != list[k]);
        let rest = list.drop_first();
        assert(rest[k - 1] == list[k]);
        assert forall|j: int| 0 <= j < k - 1 implies (#[trigger] rest[j]) != rest[k - 1] by {
            assert(rest[j] == list[j + 1]);
        }
        text_index_finds(rest, k - 1);
    }
}

/// A step leads to the next image of the list, or to the one before; after the last comes the first,
/// and before the first the last. What is not in the list counts as its first.
pub proof fn a_step_leads_to_the_next_image(
    r: Result<String, String>,
    list: Seq<Seq<char>>,
    k: int,
    by: int,
    directories: Seq<Seq<char>>,
)
    requires
        0 <= k < list.len(),
        forall|j: int| 0 <= j < k ==> (#[trigger] list[j]) != list[k],
        is_step(r, list, list[k], by, directories),
    ensures
        r is Ok,
        list.contains(r->Ok_0@),
        by == 1 && k + 1 < list.len() ==> r->Ok_0@ == list[k + 1],
        by == 1 && k + 1 == list.len() ==> r->Ok_0@ == list[0],
        by == -1 && k > 0 ==> r->Ok_0@ == list[k - 1],
        by == -1 && k == 0 ==> r->Ok_0@ == list.last(),
        by == 0 ==> r->Ok_0@ == list[k],
{
    text_index_finds(list, k);
    let len = list.len() as int;
    stepping_back_leads_back(k, by, len);
    if by == 1 && k + 1 < len {
        lemma_small_mod((k + 1) as nat, len as nat);
    }
    if by == 1 && k + 1 == len {
        assert(len % len == 0) by {
            vstd::arithmetic::div_mod::lemma_mod_self_0(len);
        }
    }
    if by == -1 && k > 0 {
        lemma_small_mod((k - 1) as nat, len as nat);
    }
    if by == -1 && k == 0 {
        lemma_mod_multiples_vanish(-1, len - 1, len);
        assert(len * -1 + (len - 1) == -1);
        lemma_small_mod((len - 1) as nat, len as nat);
    }
    if by == 0 {
        lemma_small_mod(k as nat, len as nat);
    }
}

/// To step and to step back as far is to be where one was.
pub proof fn a_step_is_undone(
    there: Result<String, String>,
    back: Result<String, String>,
    list: Seq<Seq<char>>,
    k: int,
    by: int,
    directories: Seq<Seq<char>>,
)
    requires
        0 <= k < list.len(),
        list.no_duplicates(),
        is_step(there, list, list[k], by, directories),
        there is Ok,
        is_step(back, list, there->Ok_0@, -by, directories),
    ensures
        back matches Ok(path) && path@ == list[k],
{
    let len = list.len() as int;
    assert forall|j: int| 0 <= j < k implies (#[trigger] list[j]) != list[k] by {}
    text_index_finds(list, k);
    stepping_back_leads_back(k, by, len);
    let to = stepped(k, by, len);
    assert forall|j: int| 0 <= j < to implies (#[trigger] list[j]) != list[to] by {}
    text_index_finds(list, to);
}

/// An image that lies in one of the directories is listed, once and in its place; what is no image
/// is not.
pub proof fn every_image_is_listed(
    list: Seq<Seq<char>>,
    directories: Seq<Vec<Entry>>,
    d: int,
    i: int,
    path: String,
    other: Seq<char>,
)
    requires
        is_ordered_set(list, images_of(directories)),
        0 <= d < directories.len(),
        0 <= i < directories[d]@.len(),
        directories[d]@[i] == Entry::File(path),
    ensures
        is_image(path@) ==> list.contains(path@),
        list.contains(other) ==> is_image(other),
        list.no_duplicates(),
{
    if is_image(path@) {
        a_file_is_among_the_images(directories[d]@, directories[d]@.len(), i);
        images_of_one_are_of_all(directories, d, path@);
    }
    if list.contains(other) {
        assert(images_of(directories).contains(other));
        all_are_images(directories, other);
    }
    assert forall|a: int, b: int| 0 <= a < list.len() && 0 <= b < list.len() && a != b implies list[a]
        != list[b] by {
        comes_before_is_total(list[a], list[a]);
        if a < b {
            assert(comes_before(list[a], list[b]));
        } else {
            assert(comes_before(list[b], list[a]));
        }
    }
}

/// A file that is an image is among those of its directory.
proof fn a_file_is_among_the_images(entries: Seq<Entry>, n: nat, i: int)
    requires
        0 <= i < n <= entries.len(),
        entries[i] is File,
        is_image(entries[i]->File_0@),
    ensures
        images_before(entries, n, 1).contains(entries[i]->File_0@),
    decreases n,
{
    let before = images_before(entries, (n - 1) as nat, 1);
    let all = images_before(entries, n, 1);
    let path = entries[i]->File_0@;
    if i < n - 1 {
        a_file_is_among_the_images(entries, (n - 1) as nat, i);
        let x = choose|x: int| 0 <= x < before.len() && before[x] == path;
        assert(all[x] == path);
    } else {
        assert(all[before.len() as int] == path);
    }
}

/// The images of one directory are among all.
proof fn images_of_one_are_of_all(directories: Seq<Vec<Entry>>, d: int, path: Seq<char>)
    requires
        0 <= d < directories.len(),
        images_under(directories[d]@, 1).contains(path),
    ensures
        images_of(directories).contains(path),
    decreases directories.len(),
{
    let front = directories.drop_last();
    let before = images_of(front);
    let last = images_under(directories.last()@, 1);
    if d < front.len() {
        assert(front[d] == directories[d]);
        images_of_one_are_of_all(front, d, path);
        let x = choose|x: int| 0 <= x < before.len() && before[x] == path;
        assert((before + last)[x] == path);
    } else {
        let x = choose|x: int| 0 <= x < last.len() && last[x] == path;
        assert((before + last)[before.len() + x] == path);
    }
}

/// What is found under directories are images.
proof fn all_are_images(directories: Seq<Vec<Entry>>, path: Seq<char>)
    requires
        images_of(directories).contains(path),
    ensures
        is_image(path),
    decreases directories.len(),
{
    let before = images_of(directories.drop_last());
    let last = images_under(directories.last()@, 1);
    let all = images_of(directories);
    let x = choose|x: int| 0 <= x < all.len() && all[x] == path;
    if x < before.len() {
        assert(before[x] == path);
        all_are_images(directories.drop_last(), path);
    } else {
        assert(last[x - before.len()] == path);
        images_under_are_images(directories.last()@, directories.last()@.len(), 1, path);
    }
}

/// What is found under entries are images.
proof fn images_under_are_images(entries: Seq<Entry>, n: nat, depth: nat, path: Seq<char>)
    requires
        images_before(entries, n, depth).contains(path),
    ensures
        is_image(path),
    decreases MAX_DEPTH + 1 - depth, n,
{
    let all = images_before(entries, n, depth);
    let before = images_before(entries, (n - 1) as nat, depth);
    let x = choose|x: int| 0 <= x < all.len() && all[x] == path;
    if x < before.len() {
        assert(before[x] == path);
        images_under_are_images(entries, (n - 1) as nat, depth, path);
    } else {
        match entries[n - 1] {
            Entry::File(_) => {},
            Entry::Folder(inside) => {
                let more = images_under(inside@, depth + 1);
                assert(more[x - before.len()] == path);
                images_under_are_images(inside@, inside@.len(), depth + 1, path);
            },
        }
    }
}

/// An image is told by its extension, in whatever case that is written.
pub proof fn an_image_is_told_by_its_extension(
    dir: Seq<char>,
    stem: Seq<char>,
    extension: Seq<char>,
)
    requires
        stem.len() > 0,
        is_plain_name(stem + seq!['.'] + extension),
        forall|i: int| 0 <= i < extension.len() ==> extension[i] != '.',
    ensures
        is_image(dir + seq!['/'] + (stem + seq!['.'] + extension)) <==> same_but_case(
            extension,
            "jpg"@,
        ) || same_but_case(extension, "jpeg"@) || same_but_case(extension, "png"@) || same_but_case(
            extension,
            "webp"@,
        ),
{
    a_file_has_its_own_name(dir, stem + seq!['.'] + extension);
    a_name_is_its_stem_and_extension(stem, extension);
}

/// What is asked for is the image that was chosen: different images are asked for differently.
pub proof fn the_chosen_image_is_asked_for(a: Seq<char>, b: Seq<char>, fit: Seq<char>)
    ensures
        wish_words(a, fit) == seq!["hyprpaper"@, "wallpaper"@, ","@ + a + ","@ + fit],
        a != b ==> wish_words(a, fit) != wish_words(b, fit),
{
    let x = ","@ + a + ","@ + fit;
    let y = ","@ + b + ","@ + fit;
    if wish_words(a, fit) == wish_words(b, fit) {
        assert(wish_words(a, fit)[2] == x && wish_words(b, fit)[2] == y);
        assert(x.len() == y.len());
        assert forall|i: int| 0 <= i < a.len() implies a[i] == b[i] by {
            assert(x[","@.len() + i] == a[i]);
            assert(y[","@.len() + i] == b[i]);
        }
        assert(a =~= b);
    }
}

/// Where the wallpaper is none of the images a step goes from the first.
pub proof fn a_step_from_elsewhere_goes_from_the_first(
    r: Result<String, String>,
    list: Seq<Seq<char>>,
    current: Seq<char>,
    by: int,
    directories: Seq<Seq<char>>,
)
    requires
        is_step(r, list, current, by, directories),
        list.len() > 0,
        !list.contains(current),
    ensures
        r is Ok,
        by == 0 ==> r->Ok_0@ == list[0],
        by == 1 && list.len() > 1 ==> r->Ok_0@ == list[1],
        by == -1 ==> r->Ok_0@ == list.last(),
{
    no_text_index(list, current);
    let len = list.len() as int;
    stepping_back_leads_back(0, by, len);
    if by == 1 && len > 1 {
        lemma_small_mod(1, len as nat);
    }
    if by == -1 {
        lemma_mod_multiples_vanish(-1, len - 1, len);
        lemma_small_mod((len - 1) as nat, len as nat);
        assert(len * (-1) + (len - 1) == -1) by (nonlinear_arith);
    }
    if by == 0 {
        lemma_small_mod(0, len as nat);
    }
}

/// A text that is not in a list has no index there.
proof fn no_text_index(list: Seq<Seq<char>>, wanted: Seq<char>)
    requires
        !list.contains(wanted),
    ensures
        text_index(list, wanted) == list.len(),
    decreases list.len(),
{
    if list.len() > 0 {
        assert(list[0] != wanted);
        let rest = list.drop_first();
        if rest.contains(wanted) {
            let i = choose|i: int| 0 <= i < rest.len() && rest[i] == wanted;
            assert(list[i + 1] == wanted);
        }
        no_text_index(rest, wanted);
    }
}

} // verus!
