//! X11 through wmctrl, the last resort: windows only, without workspace, monitor or focus.

use vstd::prelude::*;
use vstd::string::*;

use crate::compositor::{
    a_qualified_id_leads_back, resolved, window_models, Backend, Window, WindowModel,
};
use crate::text::{join, joined, lines, lines_of, slice_texts, texts, words, words_of};

verus! {

/// wmctrl.
#[derive(Debug, Clone, Copy)]
pub struct Wmctrl;

/// A window as a line describes it: id, desktop, class, host, and then the title, which may hold
/// spaces. A line without a desktop describes none.
pub open spec fn window_of(line: Seq<char>) -> Option<WindowModel> {
    let w = words_of(line);
    if w.len() < 2 {
        None
    } else {
        Some(
            WindowModel {
                id: "wmctrl:"@ + w[0],
                app_id: if w.len() > 2 {
                    w[2]
                } else {
                    Seq::empty()
                },
                title: if w.len() > 4 {
                    joined(w.skip(4), " "@)
                } else {
                    Seq::empty()
                },
                workspace: Seq::empty(),
                monitor: Seq::empty(),
                focused: false,
                floating: false,
                x: 0,
                y: 0,
            },
        )
    }
}

/// A window as a line describes it.
pub fn parse(line: &str) -> (r: Option<Window>)
    ensures
        match r {
            Some(window) => window_of(line@) == Some(window@),
            None => window_of(line@) is None,
        },
{
    let w = words(line);
    let ghost all = texts(w@);
    assert(all.len() == w@.len());
    if w.len() < 2 {
        return None;
    }
    assert(all[0] == w@[0]@);
    let mut id = "wmctrl:".to_owned();
    id.append(w[0].as_str());
    let app_id = if w.len() > 2 {
        assert(all[2] == w@[2]@);
        w[2].clone()
    } else {
        String::new()
    };
    let title = if w.len() > 4 {
        let rest = slice_texts(&w, 4);
        assert(texts(rest@) =~= all.skip(4));
        join(&rest, " ")
    } else {
        String::new()
    };
    let window = Window {
        id,
        app_id,
        title,
        workspace: String::new(),
        monitor: String::new(),
        focused: false,
        floating: false,
        x: 0,
        y: 0,
    };
    assert(window@ =~= window_of(line@)->0);
    Some(window)
}

/// The windows that lines describe.
pub open spec fn windows_of(lines: Seq<Seq<char>>) -> Seq<WindowModel>
    decreases lines.len(),
{
    if lines.len() == 0 {
        Seq::empty()
    } else {
        let before = windows_of(lines.drop_last());
        match window_of(lines.last()) {
            Some(window) => before.push(window),
            None => before,
        }
    }
}

impl Wmctrl {
    /// The windows, from what was printed.
    pub fn windows(printed: &str) -> (r: Vec<Window>)
        ensures
            window_models(r@) == windows_of(lines_of(printed@)),
    {
        let all = lines(printed);
        let ghost ls = texts(all@);
        let mut out: Vec<Window> = Vec::new();
        let mut i: usize = 0;
        assert(ls.take(0) =~= Seq::empty());
        assert(window_models(out@) =~= Seq::empty());
        while i < all.len()
            invariant
                ls == texts(all@),
                i <= all@.len(),
                window_models(out@) == windows_of(ls.take(i as int)),
            decreases all.len() - i,
        {
            assert(ls.take(i + 1).drop_last() =~= ls.take(i as int));
            assert(ls.take(i + 1).last() == all@[i as int]@);
            if let Some(window) = parse(all[i].as_str()) {
                let ghost before = window_models(out@);
                out.push(window);
                assert(window_models(out@) =~= before.push(window@));
            }
            i += 1;
        }
        assert(ls.take(i as int) =~= ls);
        out
    }
}

/// A line with five words or more names a window: the first word is its handle, the third its class,
/// and what follows the fourth its title.
pub proof fn a_line_names_a_window(line: Seq<char>, w: Seq<Seq<char>>)
    requires
        w == words_of(line),
        w.len() >= 5,
    ensures
        window_of(line) is Some,
        window_of(line)->0.app_id == w[2],
        window_of(line)->0.title == joined(w.skip(4), " "@),
        !window_of(line)->0.focused,
        resolved(window_of(line)->0.id) == Ok::<(Backend, Seq<char>), Seq<char>>(
            (Backend::Wmctrl, w[0]),
        ),
{
    reveal_strlit("wmctrl:");
    reveal_strlit("wmctrl");
    reveal_strlit(":");
    assert("wmctrl:"@ =~= "wmctrl"@ + ":"@);
    a_qualified_id_leads_back(Backend::Wmctrl, w[0]);
}

/// Every line that names a window is listed.
pub proof fn every_line_is_listed(lines: Seq<Seq<char>>, k: int)
    requires
        0 <= k < lines.len(),
        window_of(lines[k]) is Some,
    ensures
        windows_of(lines).contains(window_of(lines[k])->0),
        windows_of(lines).len() <= lines.len(),
    decreases lines.len(),
{
    let front = lines.drop_last();
    let before = windows_of(front);
    let all = windows_of(lines);
    lines_bound_windows(lines);
    if k == lines.len() - 1 {
        assert(all[before.len() as int] == window_of(lines[k])->0);
    } else {
        assert(front[k] == lines[k]);
        every_line_is_listed(front, k);
        let i = choose|i: int| 0 <= i < before.len() && before[i] == window_of(lines[k])->0;
        assert(all[i] == before[i]);
    }
}

/// There are no more windows than lines.
proof fn lines_bound_windows(lines: Seq<Seq<char>>)
    ensures
        windows_of(lines).len() <= lines.len(),
    decreases lines.len(),
{
    if lines.len() > 0 {
        lines_bound_windows(lines.drop_last());
    }
}

} // verus!
