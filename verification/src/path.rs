//! Paths written as text, with `/` between their components.

use vstd::prelude::*;
use vstd::string::*;

use crate::text::{
    begins_with, chars_of, first_of, first_of_is_first, same, slice, split, split_on, string_of,
    texts,
};

verus! {

/// The index of the last `c` in `s`, or -1 where there is none.
pub open spec fn last_of(s: Seq<char>, c: char) -> int
    decreases s.len(),
{
    if s.len() == 0 {
        -1
    } else if s.last() == c {
        s.len() - 1
    } else {
        last_of(s.drop_last(), c)
    }
}

/// `last_of` finds the character, and nothing after it is one.
pub proof fn last_of_is_last(s: Seq<char>, c: char)
    ensures
        -1 <= last_of(s, c) < s.len(),
        last_of(s, c) >= 0 ==> s[last_of(s, c)] == c,
        forall|j: int| last_of(s, c) < j < s.len() ==> s[j] != c,
    decreases s.len(),
{
    if s.len() > 0 && s.last() != c {
        last_of_is_last(s.drop_last(), c);
        assert forall|j: int| last_of(s, c) < j < s.len() implies s[j] != c by {
            if j < s.len() - 1 {
                assert(s.drop_last()[j] == s[j]);
            }
        }
    }
}

/// The last index of a character is the only one with no later occurrence.
pub proof fn last_of_is_unique(s: Seq<char>, c: char, i: int)
    requires
        -1 <= i < s.len(),
        i >= 0 ==> s[i] == c,
        forall|j: int| i < j < s.len() ==> s[j] != c,
    ensures
        last_of(s, c) == i,
{
    last_of_is_last(s, c);
}

/// The index after the last `c`, or zero where there is none.
pub fn after_last(chars: &[char], c: char) -> (r: usize)
    ensures
        r == last_of(chars@, c) + 1,
        r <= chars@.len(),
        r > 0 ==> chars@[r - 1] == c,
{
    let mut i: usize = chars.len();
    while i > 0 && chars[i - 1] != c
        invariant
            i <= chars@.len(),
            forall|j: int| i <= j < chars@.len() ==> chars@[j] != c,
        decreases i,
    {
        i -= 1;
    }
    proof {
        last_of_is_unique(chars@, c, i - 1);
    }
    i
}

/// Whether a part of a path names something: it is not empty and not the current directory.
pub open spec fn is_component(part: Seq<char>) -> bool {
    part.len() > 0 && part != "."@
}

/// The last of the parts that names something.
pub open spec fn last_component(parts: Seq<Seq<char>>) -> Option<Seq<char>>
    decreases parts.len(),
{
    if parts.len() == 0 {
        None
    } else if is_component(parts.last()) {
        Some(parts.last())
    } else {
        last_component(parts.drop_last())
    }
}

/// The final component of a path, unless it is the parent directory or there is none.
pub open spec fn file_name_of(path: Seq<char>) -> Option<Seq<char>> {
    match last_component(split_on(path, '/')) {
        Some(part) => if part == ".."@ {
            None
        } else {
            Some(part)
        },
        None => None,
    }
}

/// The final component of a path, unless it is the parent directory or there is none.
pub fn file_name(path: &str) -> (r: Option<String>)
    ensures
        match r {
            Some(name) => file_name_of(path@) == Some(name@),
            None => file_name_of(path@) is None,
        },
{
    let parts = split(path, '/');
    let ghost all = texts(parts@);
    let mut i: usize = parts.len();
    assert(all.take(i as int) =~= all);
    while i > 0
        invariant
            i <= parts@.len(),
            all == texts(parts@),
            all == split_on(path@, '/'),
            last_component(all) == last_component(all.take(i as int)),
        decreases i,
    {
        let part = parts[i - 1].as_str();
        assert(all.take(i as int).last() == part@);
        assert(all.take(i as int).drop_last() =~= all.take(i - 1));
        if !part.is_empty() && !same(part, ".") {
            if same(part, "..") {
                return None;
            }
            return Some(part.to_owned());
        }
        i -= 1;
    }
    None
}

/// `name` within `dir`; a name that begins with a slash stands for itself.
pub open spec fn joined_path(dir: Seq<char>, name: Seq<char>) -> Seq<char> {
    if begins_with(name, "/"@) || dir.len() == 0 {
        name
    } else if dir.last() == '/' {
        dir + name
    } else {
        dir + "/"@ + name
    }
}

/// Puts `name` within `dir`.
pub fn join_path(dir: &str, name: &str) -> (r: String)
    ensures
        r@ == joined_path(dir@, name@),
{
    let d = chars_of(dir);
    if crate::text::starts(name, "/") || d.len() == 0 {
        return name.to_owned();
    }
    let mut out = dir.to_owned();
    if d[d.len() - 1] != '/' {
        out.append("/");
    }
    out.append(name);
    out
}

/// A file name without its extension. A dot at the start begins no extension.
pub open spec fn stem_of(name: Seq<char>) -> Seq<char> {
    if last_of(name, '.') <= 0 {
        name
    } else {
        name.take(last_of(name, '.'))
    }
}

/// The extension of a file name, without its dot.
pub open spec fn extension_of(name: Seq<char>) -> Option<Seq<char>> {
    if last_of(name, '.') <= 0 {
        None
    } else {
        Some(name.skip(last_of(name, '.') + 1))
    }
}

/// A file name without its extension, and the extension.
pub fn split_extension(name: &str) -> (r: (String, Option<String>))
    ensures
        r.0@ == stem_of(name@),
        match r.1 {
            Some(extension) => extension_of(name@) == Some(extension@),
            None => extension_of(name@) is None,
        },
{
    let chars = chars_of(name);
    let dot: usize = after_last(&chars, '.');
    if dot <= 1 {
        (name.to_owned(), None)
    } else {
        let stem = string_of(&slice(&chars, 0, dot - 1));
        let extension = string_of(&slice(&chars, dot, chars.len()));
        assert(stem@ =~= stem_of(name@));
        assert(extension@ =~= name@.skip(dot as int));
        (stem, Some(extension))
    }
}

/// No part of a split text holds the separator.
pub proof fn split_parts_have_no_separator(s: Seq<char>, sep: char)
    ensures
        forall|i: int, k: int|
            0 <= i < split_on(s, sep).len() && 0 <= k < split_on(s, sep)[i].len()
                ==> #[trigger] split_on(s, sep)[i][k] != sep,
    decreases s.len(),
{
    first_of_is_first(s, sep);
    let c = first_of(s, sep);
    if c < s.len() {
        let rest = split_on(s.skip(c + 1), sep);
        split_parts_have_no_separator(s.skip(c + 1), sep);
        assert forall|i: int, k: int|
            0 <= i < split_on(s, sep).len() && 0 <= k < split_on(s, sep)[i].len() implies
            #[trigger] split_on(s, sep)[i][k] != sep by {
            if i > 0 {
                assert(split_on(s, sep)[i] == rest[i - 1]);
                assert(rest[i - 1][k] != sep);
            }
        }
    }
}

/// The last component is one of the parts.
proof fn last_component_is_a_part(parts: Seq<Seq<char>>)
    ensures
        match last_component(parts) {
            Some(p) => is_component(p) && exists|i: int| 0 <= i < parts.len() && parts[i] == p,
            None => true,
        },
    decreases parts.len(),
{
    if parts.len() > 0 {
        if is_component(parts.last()) {
            assert(parts[parts.len() - 1] == parts.last());
        } else {
            last_component_is_a_part(parts.drop_last());
            if last_component(parts) is Some {
                let i = choose|i: int|
                    0 <= i < parts.drop_last().len() && parts.drop_last()[i]
                        == last_component(parts)->0;
                assert(parts[i] == last_component(parts)->0);
            }
        }
    }
}

/// A name that can stand in a directory without leaving it.
pub open spec fn is_plain_name(name: Seq<char>) -> bool {
    &&& name.len() > 0
    &&& name != "."@
    &&& name != ".."@
    &&& forall|i: int| 0 <= i < name.len() ==> name[i] != '/'
}

/// A file name is a single component that leads neither up nor down.
pub proof fn file_name_is_plain(path: Seq<char>)
    ensures
        file_name_of(path) is Some ==> is_plain_name(file_name_of(path)->0),
{
    let parts = split_on(path, '/');
    split_parts_have_no_separator(path, '/');
    last_component_is_a_part(parts);
    if file_name_of(path) is Some {
        let name = file_name_of(path)->0;
        let i = choose|i: int| 0 <= i < parts.len() && parts[i] == name;
        assert forall|k: int| 0 <= k < name.len() implies name[k] != '/' by {
            assert(parts[i][k] != '/');
        }
    }
}

/// The parts of a path that name something.
pub open spec fn named_parts(parts: Seq<Seq<char>>) -> Seq<Seq<char>> {
    parts.filter(|p: Seq<char>| is_component(p))
}

/// The components of a path: the root or the current directory where it begins with one, and then
/// its parts.
pub open spec fn components_of(path: Seq<char>) -> Seq<Seq<char>> {
    let parts = split_on(path, '/');
    let first = if path.len() > 0 && path[0] == '/' {
        seq!["/"@]
    } else if parts[0] == "."@ {
        seq!["."@]
    } else {
        Seq::empty()
    };
    first + named_parts(parts)
}

/// The components of a path.
pub fn components(path: &str) -> (r: Vec<String>)
    ensures
        texts(r@) == components_of(path@),
{
    let parts = split(path, '/');
    let ghost all = texts(parts@);
    let ghost keep = |p: Seq<char>| is_component(p);
    let mut out: Vec<String> = Vec::new();
    let chars = chars_of(path);
    assert(all[0] == parts@[0]@);
    if chars.len() > 0 && chars[0] == '/' {
        out.push("/".to_owned());
        assert(texts(out@) =~= seq!["/"@]);
    } else if same(parts[0].as_str(), ".") {
        out.push(".".to_owned());
        assert(texts(out@) =~= seq!["."@]);
    } else {
        assert(texts(out@) =~= Seq::empty());
    }
    let ghost first = texts(out@);
    let mut i: usize = 0;
    reveal(Seq::filter);
    assert(all.take(0).filter(keep) =~= Seq::empty());
    assert(first + Seq::<Seq<char>>::empty() =~= first);
    while i < parts.len()
        invariant
            all == texts(parts@),
            keep == (|p: Seq<char>| is_component(p)),
            i <= parts@.len(),
            texts(out@) == first + all.take(i as int).filter(keep),
        decreases parts.len() - i,
    {
        reveal(Seq::filter);
        let part = parts[i].as_str();
        assert(all.take(i + 1).drop_last() =~= all.take(i as int));
        assert(all.take(i + 1).last() == part@);
        if !part.is_empty() && !same(part, ".") {
            let ghost before = texts(out@);
            out.push(part.to_owned());
            assert(texts(out@) =~= before.push(part@));
            assert(texts(out@) =~= first + all.take(i as int).filter(keep).push(part@));
        }
        i += 1;
    }
    assert(all.take(i as int) =~= all);
    out
}

/// A path without separators and current directories at its end.
pub open spec fn trim_right(s: Seq<char>) -> Seq<char>
    decreases s.len(),
{
    if s.len() > 1 && (s.last() == '/' || (s.last() == '.' && s[s.len() - 2] == '/')) {
        trim_right(s.drop_last())
    } else {
        s
    }
}

/// The path without its last component, unless there is none.
pub open spec fn parent_of(path: Seq<char>) -> Option<Seq<char>> {
    let t = trim_right(path);
    if t.len() == 0 || t == "/"@ {
        None
    } else {
        Some(trim_right(t.take(last_of(t, '/') + 1)))
    }
}

/// The length of a path without separators and current directories at its end.
fn trimmed_len(chars: &[char], len: usize) -> (r: usize)
    requires
        len <= chars@.len(),
    ensures
        r <= len,
        chars@.take(r as int) == trim_right(chars@.take(len as int)),
{
    let mut n: usize = len;
    while n > 1 && (chars[n - 1] == '/' || (chars[n - 1] == '.' && chars[n - 2] == '/'))
        invariant
            n <= len <= chars@.len(),
            trim_right(chars@.take(n as int)) == trim_right(chars@.take(len as int)),
        decreases n,
    {
        assert(chars@.take(n as int).drop_last() =~= chars@.take(n - 1));
        n -= 1;
    }
    n
}

/// The path without its last component.
pub fn parent(path: &str) -> (r: Option<String>)
    ensures
        match r {
            Some(dir) => parent_of(path@) == Some(dir@),
            None => parent_of(path@) is None,
        },
{
    let chars = chars_of(path);
    let n: usize = trimmed_len(&chars, chars.len());
    assert(chars@.take(chars@.len() as int) =~= path@);
    let t = slice(&chars, 0, n);
    assert(t@ =~= trim_right(path@));
    if n == 0 || same(string_of(&t).as_str(), "/") {
        return None;
    }
    let k: usize = after_last(&t, '/');
    let m: usize = trimmed_len(&t, k);
    let dir = slice(&t, 0, m);
    assert(dir@ =~= t@.take(m as int));
    Some(string_of(&dir))
}

/// A file in a directory is called as it was put there, and the directory comes before its name.
pub proof fn a_joined_path_ends_in_its_name(dir: Seq<char>, name: Seq<char>)
    requires
        dir.len() > 0,
        name.len() > 0,
        name[0] != '/',
    ensures
        joined_path(dir, name).len() >= dir.len() + name.len(),
        joined_path(dir, name).take(dir.len() as int) == dir,
        joined_path(dir, name).skip(joined_path(dir, name).len() - name.len()) == name,
        joined_path(dir, name)[joined_path(dir, name).len() - name.len() - 1] == '/',
{
    reveal_strlit("/");
    if begins_with(name, "/"@) {
        assert(name.subrange(0, 1)[0] == name[0]);
    }
    let p = joined_path(dir, name);
    assert(p.take(dir.len() as int) =~= dir);
    assert(p.skip(p.len() - name.len()) =~= name);
}

/// A name is its stem, a dot and its extension where it has one.
pub proof fn a_name_is_its_stem_and_extension(stem: Seq<char>, extension: Seq<char>)
    requires
        stem.len() > 0,
        forall|i: int| 0 <= i < extension.len() ==> extension[i] != '.',
    ensures
        stem_of(stem + seq!['.'] + extension) == stem,
        extension_of(stem + seq!['.'] + extension) == Some(extension),
{
    let name = stem + seq!['.'] + extension;
    last_of_is_unique(name, '.', stem.len() as int);
    assert(name.take(stem.len() as int) =~= stem);
    assert(name.skip(stem.len() as int + 1) =~= extension);
}

/// What lies in a directory has it as its parent.
pub proof fn a_file_lies_in_its_directory(dir: Seq<char>, name: Seq<char>)
    requires
        dir.len() > 0,
        dir.last() != '/',
        dir.last() != '.',
        is_plain_name(name),
    ensures
        parent_of(dir + seq!['/'] + name) == Some(dir),
{
    reveal_strlit("/");
    reveal_strlit(".");
    let path = dir + seq!['/'] + name;
    assert(path.last() == name.last());
    assert(path.last() != '/');
    if path.last() == '.' && path[path.len() - 2] == '/' {
        if name.len() > 1 {
            assert(path[path.len() - 2] == name[name.len() - 2]);
        }
        assert(name =~= "."@);
    }
    assert(trim_right(path) == path);
    assert(path.len() > 1);
    assert("/"@.len() == 1);
    assert forall|j: int| dir.len() < j < path.len() implies path[j] != '/' by {
        assert(path[j] == name[j - dir.len() - 1]);
    }
    last_of_is_unique(path, '/', dir.len() as int);
    let top = path.take(dir.len() as int + 1);
    assert(top =~= dir.push('/'));
    assert(top.drop_last() =~= dir);
    assert(trim_right(dir) == dir);
    assert(trim_right(top) == dir);
}

/// What lies in a directory is called by its own name.
pub proof fn a_file_has_its_own_name(dir: Seq<char>, name: Seq<char>)
    requires
        is_plain_name(name),
    ensures
        file_name_of(dir + seq!['/'] + name) == Some(name),
        file_name_of(name) == Some(name),
{
    parts_of_a_path(dir, name);
    let parts = split_on(dir, '/').push(name);
    assert(parts.last() == name);
    crate::text::first_of_is_unique(name, '/', name.len() as int);
    assert(split_on(name, '/') =~= seq![name]);
    assert(seq![name].last() == name);
}

/// The parts of a path are those of the directory and then the name.
proof fn parts_of_a_path(dir: Seq<char>, name: Seq<char>)
    requires
        forall|i: int| 0 <= i < name.len() ==> name[i] != '/',
    ensures
        split_on(dir + seq!['/'] + name, '/') == split_on(dir, '/').push(name),
    decreases dir.len(),
{
    let path = dir + seq!['/'] + name;
    crate::text::first_of_is_first(dir, '/');
    let i = crate::text::first_of(dir, '/');
    crate::text::first_of_is_unique(path, '/', i);
    assert(path.take(i) =~= dir.take(i));
    if i < dir.len() {
        let rest = dir.skip(i + 1);
        assert(path.skip(i + 1) =~= rest + seq!['/'] + name);
        parts_of_a_path(rest, name);
        assert(split_on(path, '/') =~= split_on(dir, '/').push(name));
    } else {
        assert(path.skip(i + 1) =~= name);
        crate::text::first_of_is_unique(name, '/', name.len() as int);
        assert(split_on(name, '/') =~= seq![name]);
        assert(dir.take(i) =~= dir);
        assert(split_on(path, '/') =~= split_on(dir, '/').push(name));
    }
}

/// A dot at the start of a name hides the file and begins no extension, and neither does a name without
/// a dot have one.
pub proof fn a_hidden_file_has_no_extension(name: Seq<char>)
    requires
        forall|i: int| 0 < i < name.len() ==> name[i] != '.',
    ensures
        extension_of(name) is None,
        stem_of(name) == name,
{
    last_of_is_last(name, '.');
}

} // verus!
