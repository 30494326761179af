//! The calculator: what is worth calculating, and results that were kept.

use vstd::prelude::*;
use vstd::string::*;
use vstd::utf8::encode_utf8;

use crate::fuzzy::{indices, is_match, match_of, score, Match};
use crate::number::is_digit;
use crate::providers::matching_texts;
use crate::text::{chars_of, lower_of, maybe, same, shell_quote, shell_quoted, texts, trim, trim_of};
use crate::types::{FuzzyInfo, Item, ItemType};

verus! {

/// Results that were kept, the latest first.
#[derive(Debug)]
pub struct CalcProvider {
    pub history: Vec<(String, String)>,
}

/// Whether a text without white space around it can be something to calculate: at least two bytes
/// with a digit among them.
pub open spec fn is_worth(q: Seq<char>) -> bool {
    encode_utf8(q).len() >= 2 && exists|i: int| 0 <= i < q.len() && is_digit(#[trigger] q[i])
}

/// What of a query is calculated, if anything.
pub fn expression(query: &str) -> (r: Option<String>)
    ensures
        match r {
            Some(q) => q@ == trim_of(query@) && is_worth(q@),
            None => !is_worth(trim_of(query@)),
        },
{
    let q = trim(query);
    if q.as_str().as_bytes().len() < 2 {
        return None;
    }
    let chars = chars_of(q.as_str());
    let mut i: usize = 0;
    while i < chars.len()
        invariant
            chars@ == q@,
            i <= chars@.len(),
            q@ == trim_of(query@),
            encode_utf8(q@).len() >= 2,
            forall|k: int| 0 <= k < i ==> !is_digit(#[trigger] chars@[k]),
        decreases chars.len() - i,
    {
        if '0' <= chars[i] && chars[i] <= '9' {
            assert(is_digit(q@[i as int]));
            return Some(q);
        }
        i += 1;
    }
    None
}

/// The result of a calculation: what the calculator program says, and otherwise what the built-in
/// evaluation gives.
pub fn choose_result(program: Option<String>, built_in: Option<String>) -> (r: Option<String>)
    ensures
        r == (if program is Some && program->0@.len() > 0 {
            program
        } else {
            built_in
        }),
{
    match program {
        Some(said) => if said.as_str().is_empty() {
            built_in
        } else {
            Some(said)
        },
        None => built_in,
    }
}

/// How a calculation and its result are shown.
pub open spec fn equation(input: Seq<char>, result: Seq<char>) -> Seq<char> {
    input + " = "@ + result
}

/// Whether the item shows the result of the query.
pub open spec fn is_result_item(item: Item, query: Seq<char>, result: Seq<char>) -> bool {
    &&& item.provider@ == "calc"@
    &&& item.identifier@ == query
    &&& item.text@ == equation(query, result)
    &&& item.subtext@ == "Copy or save result"@
    &&& item.icon@ == "accessories-calculator"@
    &&& texts(item.actions@) == seq!["copy"@, "save"@]
    &&& item.score == 1_000_000
    &&& item.fuzzyinfo is None
    &&& is_bare(item)
}

/// Whether nothing is set that no calculation has.
pub open spec fn is_bare(item: Item) -> bool {
    &&& item.item_type == ItemType::Regular
    &&& item.mimetype@.len() == 0
    &&& item.preview@.len() == 0
    &&& item.preview_type@.len() == 0
    &&& item.state@.len() == 0
    &&& item.icon_path is None
    &&& item.thumbnail is None
}

/// Whether the item shows a result that was kept.
pub open spec fn is_kept_item(item: Item, entry: (String, String), m: Match) -> bool {
    &&& item.provider@ == "calc"@
    &&& item.identifier@ == entry.0@
    &&& item.text@ == equation(entry.0@, entry.1@)
    &&& item.subtext@.len() == 0
    &&& item.icon@ == "accessories-calculator"@
    &&& texts(item.actions@) == seq!["copy"@, "delete"@]
    &&& item.score == m.score
    &&& item.fuzzyinfo is Some
    &&& item.fuzzyinfo->0.start == m.start
    &&& item.fuzzyinfo->0.field@ == "text"@
    &&& indices(item.fuzzyinfo->0.positions@) == m.positions
    &&& is_bare(item)
}

/// What the results that were kept are searched by.
pub open spec fn searches(history: Seq<(String, String)>) -> Seq<Seq<char>> {
    history.map_values(|e: (String, String)| lower_of(equation(e.0@, e.1@)))
}

/// Whether the items are those of the results that were kept and match.
pub open spec fn are_kept_items(
    items: Seq<Item>,
    history: Seq<(String, String)>,
    found: Seq<int>,
    query: Seq<char>,
    exact: bool,
) -> bool {
    &&& items.len() == found.len()
    &&& forall|k: int| 0 <= k < found.len() ==> 0 <= (#[trigger] found[k]) < history.len()
    &&& forall|k: int|
        0 <= k < items.len() ==> is_kept_item(
            #[trigger] items[k],
            history[found[k]],
            match_of(query, searches(history)[found[k]], exact)->0,
        )
}

/// Whether the items are the result of the query, where it has one, and then the results that were
/// kept and match.
pub open spec fn are_calc_items(
    items: Seq<Item>,
    history: Seq<(String, String)>,
    query: Seq<char>,
    result: Option<Seq<char>>,
    exact: bool,
) -> bool {
    let found = matching_texts(searches(history), lower_of(query), exact);
    match result {
        Some(value) => {
            &&& items.len() == found.len() + 1
            &&& is_result_item(items[0], query, value)
            &&& are_kept_items(items.drop_first(), history, found, lower_of(query), exact)
        },
        None => are_kept_items(items, history, found, lower_of(query), exact),
    }
}

/// What activating a calculation comes to, besides what it changes.
#[derive(Debug)]
pub enum CalcStep {
    /// To run a line in a shell.
    Run(String),
    /// Nothing.
    Nothing,
}

/// The line that copies a result.
pub open spec fn copy_line(result: Seq<char>) -> Seq<char> {
    "printf %s "@ + shell_quoted(result) + " | wl-copy"@
}

/// Tells the results of other inputs.
pub open spec fn not_of(input: Seq<char>) -> spec_fn((String, String)) -> bool {
    |e: (String, String)| e.0@ != input
}

/// Whether the step is what an action on an input with that result comes to, and what is kept
/// after it.
pub open spec fn is_calc_step(
    r: Result<CalcStep, String>,
    before: Seq<(String, String)>,
    after: Seq<(String, String)>,
    input: Seq<char>,
    action: Seq<char>,
    result: Option<String>,
) -> bool {
    match result {
        None => after == before && (r matches Ok(CalcStep::Nothing)),
        Some(value) => if action == "copy"@ {
            after == before && (r matches Ok(CalcStep::Run(l)) && l@ == copy_line(value@))
        } else if action == "save"@ {
            &&& r matches Ok(CalcStep::Nothing)
            &&& after.len() == before.len() + 1
            &&& after.drop_first() == before
            &&& after[0].0@ == input
            &&& after[0].1 == value
        } else if action == "delete"@ {
            &&& r matches Ok(CalcStep::Nothing)
            &&& after == before.filter(not_of(input))
        } else {
            after == before && (r matches Err(m) && m@ == "unsupported calc action: "@ + action)
        },
    }
}

/// The item of a result that was kept.
fn kept_item(entry: &(String, String), score: i32, info: FuzzyInfo, m: Ghost<Match>) -> (r: Item)
    requires
        is_match((score, info), m@, "text"@),
    ensures
        is_kept_item(r, *entry, m@),
{
    let mut text = entry.0.clone();
    text.append(" = ");
    text.append(entry.1.as_str());
    let mut item = Item::new("calc", entry.0.as_str(), text.as_str());
    item.actions = vec!["copy".to_owned(), "delete".to_owned()];
    assert(texts(item.actions@) =~= seq!["copy"@, "delete"@]);
    item.icon = "accessories-calculator".to_owned();
    item.score = score;
    item.fuzzyinfo = Some(info);
    item
}

impl CalcProvider {
    /// A calculator that keeps nothing yet.
    pub fn new() -> (r: CalcProvider)
        ensures
            r.history@.len() == 0,
    {
        CalcProvider { history: Vec::new() }
    }

    /// The result of a query, where it has one, and the results that were kept and match, not more
    /// than the limit.
    pub fn query(&self, query: &str, result: Option<&str>, limit: usize, exact: bool) -> (r: Vec<Item>)
        ensures
            exists|items: Seq<Item>| #[trigger]
                are_calc_items(
                    items,
                    self.history@,
                    query@,
                    maybe(result),
                    exact,
                ) && r@ == (if items.len() <= limit {
                    items
                } else {
                    items.take(limit as int)
                }),
    {
        let ghost value = maybe(result);
        let ghost q = lower_of(query@);
        let mut out: Vec<Item> = Vec::new();
        if let Some(result) = result {
            let mut text = query.to_owned();
            text.append(" = ");
            text.append(result);
            let mut item = Item::new("calc", query, text.as_str());
            item.subtext = "Copy or save result".to_owned();
            item.icon = "accessories-calculator".to_owned();
            item.actions = vec!["copy".to_owned(), "save".to_owned()];
            assert(texts(item.actions@) =~= seq!["copy"@, "save"@]);
            item.score = 1_000_000;
            out.push(item);
        }
        let ghost first = out@;
        let ghost all = searches(self.history@);
        let ghost mut kept: Seq<Item> = Seq::empty();
        let ghost mut found: Seq<int> = Seq::empty();
        let mut i: usize = 0;
        assert(all.take(0) =~= Seq::empty());
        assert(first + kept =~= first);
        while i < self.history.len()
            invariant
                i <= self.history@.len(),
                q == lower_of(query@),
                all == searches(self.history@),
                found == matching_texts(all.take(i as int), q, exact),
                out@ == first + kept,
                are_kept_items(kept, self.history@, found, q, exact),
            decreases self.history.len() - i,
        {
            let entry = &self.history[i];
            let mut text = entry.0.clone();
            text.append(" = ");
            text.append(entry.1.as_str());
            assert(all.take(i + 1).drop_last() =~= all.take(i as int));
            assert(all.take(i + 1).last() == lower_of(text@));
            match score(query, text.as_str(), exact, "text") {
                Some((points, info)) => {
                    let ghost m = match_of(q, lower_of(text@), exact)->0;
                    let item = kept_item(entry, points, info, Ghost(m));
                    let ghost before = out@;
                    out.push(item);
                    proof {
                        kept = kept.push(item);
                        found = found.push(i as int);
                        assert(out@ =~= first + kept);
                    }
                },
                None => {},
            }
            i += 1;
        }
        assert(all.take(i as int) =~= all);
        proof {
            if value is Some {
                assert(out@.drop_first() =~= kept);
            } else {
                assert(out@ =~= kept);
            }
            assert(are_calc_items(out@, self.history@, query@, value, exact));
        }
        let ghost items = out@;
        if out.len() > limit {
            out.truncate(limit);
            assert(out@ =~= items.take(limit as int));
        }
        out
    }

    /// What of an activation is calculated again: the item, or the query where there is none.
    pub fn input(identifier: &str, query: &str) -> (r: String)
        ensures
            r@ == (if identifier@.len() == 0 {
                query@
            } else {
                identifier@
            }),
    {
        if identifier.is_empty() {
            query.to_owned()
        } else {
            identifier.to_owned()
        }
    }

    /// Carries out an action on an input whose result is given. Where it has none, nothing is done.
    pub fn activate(&mut self, input: &str, action: &str, result: Option<String>) -> (r: Result<
        CalcStep,
        String,
    >)
        ensures
            is_calc_step(r, old(self).history@, final(self).history@, input@, action@, result),
    {
        let value = match result {
            Some(value) => value,
            None => {
                return Ok(CalcStep::Nothing);
            },
        };
        if same(action, "copy") {
            let mut line = "printf %s ".to_owned();
            line.append(shell_quote(value.as_str()).as_str());
            line.append(" | wl-copy");
            Ok(CalcStep::Run(line))
        } else if same(action, "save") {
            self.history.insert(0, (input.to_owned(), value));
            assert(self.history@.drop_first() =~= old(self).history@);
            Ok(CalcStep::Nothing)
        } else if same(action, "delete") {
            let mut all: Vec<(String, String)> = Vec::new();
            std::mem::swap(&mut all, &mut self.history);
            let ghost before = all@;
            let ghost keep = not_of(input@);
            let mut out: Vec<(String, String)> = Vec::new();
            reveal(Seq::filter);
            assert(before.take(0).filter(keep) =~= Seq::empty());
            for entry in it: all
                invariant
                    it.seq() == before,
                    keep == not_of(input@),
                    out@ == before.take(it.index() as int).filter(keep),
            {
                reveal(Seq::filter);
                let ghost i = it.index() as int;
                assert(before.take(i + 1).drop_last() =~= before.take(i));
                assert(before.take(i + 1).last() == entry);
                if !same(entry.0.as_str(), input) {
                    out.push(entry);
                }
            }
            assert(before.take(before.len() as int) =~= before);
            self.history = out;
            Ok(CalcStep::Nothing)
        } else {
            let mut message = "unsupported calc action: ".to_owned();
            message.append(action);
            Err(message)
        }
    }
}

/// Entries that all pass a test are all left.
proof fn all_are_left(s: Seq<(String, String)>, keep: spec_fn((String, String)) -> bool)
    requires
        forall|k: int| 0 <= k < s.len() ==> keep(#[trigger] s[k]),
    ensures
        s.filter(keep) == s,
    decreases s.len(),
{
    reveal(Seq::filter);
    if s.len() > 0 {
        assert(keep(s[s.len() - 1]));
        assert forall|k: int| 0 <= k < s.drop_last().len() implies keep(
            #[trigger] s.drop_last()[k],
        ) by {
            assert(s.drop_last()[k] == s[k]);
        }
        all_are_left(s.drop_last(), keep);
        assert(s.drop_last().push(s.last()) =~= s);
    } else {
        assert(s.filter(keep) =~= s);
    }
}

/// A result that is kept is the first from then on, and all that was kept stays; to delete it again
/// leaves what was kept before.
pub proof fn what_is_saved_is_deleted_again(
    before: Seq<(String, String)>,
    kept: Seq<(String, String)>,
    after: Seq<(String, String)>,
    input: Seq<char>,
    result: String,
    again: Option<String>,
    saved: Result<CalcStep, String>,
    deleted: Result<CalcStep, String>,
)
    requires
        is_calc_step(saved, before, kept, input, "save"@, Some(result)),
        again is Some,
        is_calc_step(deleted, kept, after, input, "delete"@, again),
        forall|k: int| 0 <= k < before.len() ==> (#[trigger] before[k]).0@ != input,
    ensures
        kept.len() == before.len() + 1,
        kept[0].0@ == input && kept[0].1@ == result@,
        kept.drop_first() == before,
        after == before,
{
    calc_actions_differ();
    let keep = not_of(input);
    let first = kept[0];
    assert(kept =~= seq![first] + before);
    Seq::filter_distributes_over_add(seq![first], before, keep);
    assert(seq![first].filter(keep) =~= Seq::empty()) by {
        reveal(Seq::filter);
        assert(seq![first].drop_last() =~= Seq::empty());
        assert(Seq::<(String, String)>::empty().filter(keep) =~= Seq::empty());
    }
    all_are_left(before, keep);
    assert(after =~= before);
}

/// No action is another.
proof fn calc_actions_differ()
    ensures
        "copy"@ != "save"@,
        "copy"@ != "delete"@,
        "save"@ != "delete"@,
{
    reveal_strlit("copy");
    reveal_strlit("save");
    reveal_strlit("delete");
    assert("copy"@.len() == 4 && "save"@.len() == 4 && "delete"@.len() == 6);
    assert("copy"@[0] == 'c' && "save"@[0] == 's');
}

/// To copy the result of a query is to hand that result, as one word, to `wl-copy`; what is kept
/// stays. What has no result comes to nothing, and an action that is not known is refused.
pub proof fn the_result_is_what_is_copied(
    item: Item,
    query: Seq<char>,
    result: String,
    before: Seq<(String, String)>,
    after: Seq<(String, String)>,
    action: Seq<char>,
    r: Result<CalcStep, String>,
)
    requires
        is_result_item(item, query, result@),
        is_calc_step(r, before, after, item.identifier@, action, Some(result)),
    ensures
        item.text@ == query + " = "@ + result@,
        action == "copy"@ ==> after == before && (r matches Ok(CalcStep::Run(l)) && l@
            == "printf %s "@ + shell_quoted(result@) + " | wl-copy"@),
        action == "save"@ ==> after.len() == before.len() + 1 && after[0].0@ == query && after[0].1@
            == result@,
        action != "copy"@ && action != "save"@ && action != "delete"@ ==> r is Err && after == before,
{
    calc_actions_differ();
}

/// The result of the query comes first, and before all that was kept.
pub proof fn the_result_comes_first(
    items: Seq<Item>,
    history: Seq<(String, String)>,
    query: Seq<char>,
    result: Seq<char>,
    exact: bool,
)
    requires
        are_calc_items(items, history, query, Some(result), exact),
    ensures
        items.len() >= 1,
        items[0].text@ == query + " = "@ + result,
        items[0].identifier@ == query,
        texts(items[0].actions@) == seq!["copy"@, "save"@],
        items[0].score == 1_000_000,
{
}

/// A query without a digit is nothing to calculate.
pub proof fn a_calculation_has_a_digit(q: Seq<char>)
    ensures
        (forall|i: int| 0 <= i < q.len() ==> !('0' <= #[trigger] q[i] <= '9')) ==> !is_worth(q),
        encode_utf8(q).len() < 2 ==> !is_worth(q),
        (exists|i: int| 0 <= i < q.len() && '0' <= #[trigger] q[i] <= '9') && encode_utf8(q).len()
            >= 2 ==> is_worth(q),
{
    if exists|i: int| 0 <= i < q.len() && '0' <= #[trigger] q[i] <= '9' {
        let i = choose|i: int| 0 <= i < q.len() && '0' <= #[trigger] q[i] <= '9';
        assert(is_digit(q[i]));
    }
}

/// A result is shown with what was asked, and can be copied and saved.
pub proof fn a_result_is_shown_with_what_was_asked(item: Item, query: Seq<char>, result: Seq<char>)
    requires
        is_result_item(item, query, result),
    ensures
        item.provider@ == "calc"@,
        item.identifier@ == query,
        item.text@ == query + " = "@ + result,
        texts(item.actions@).len() == 2,
        texts(item.actions@)[0] == "copy"@,
        texts(item.actions@)[1] == "save"@,
{
}

} // verus!
