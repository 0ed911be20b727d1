use vstd::prelude::*;

use unicode_width::UnicodeWidthStr;

verus! {

use vstd::multiset::Multiset;

use crate::fuzzy::{fuzzy_indices_score, fuzzy_positions, fuzzy_indices};
use crate::text::{spec_trim_end, is_suffix_of, trim_end_str, chars_of, ends_with_chars};
use crate::todo_ops::{TodoItem, todo_matches, position_range, lemma_filter_push};
use crate::utils::{spec_highlight, highlight_indices};

/// One line that matched a search query: its fuzzy score, the positions to
/// emphasize within the displayed line, and the displayed line itself.
pub struct SearchMatch {
    pub score: i64,
    pub indices: Vec<usize>,
    pub line: String,
}

/// The positions of the todos that match the query, in original order.
pub open spec fn matched_positions(todos: Seq<TodoItem>, q: Seq<char>) -> Seq<usize> {
    position_range(todos.len() as int).filter(|p: usize| todo_matches(todos, q, p as int))
}

/// How far the label stands from the start of the displayed line: the length
/// difference when the trimmed line ends with the label, zero otherwise.
pub open spec fn spec_offset(it: TodoItem) -> int {
    let lt = spec_trim_end(it.line@);
    if is_suffix_of(it.label@, lt) {
        lt.len() - it.label@.len()
    } else {
        0
    }
}

/// The positions shifted right by `off`.
pub open spec fn spec_shift(ps: Seq<usize>, off: int) -> Seq<usize> {
    ps.map_values(|x: usize| (x + off) as usize)
}

/// Whether `m` is the search result for the todo at position `p`: the
/// matcher's score, the todo's line without trailing whitespace, and the
/// matched label positions corrected by the label's offset in that line.
pub open spec fn match_for(todos: Seq<TodoItem>, q: Seq<char>, p: int, m: SearchMatch) -> bool {
    &&& m.score as int == fuzzy_indices_score(todos[p].label@, q)
    &&& m.line@ == spec_trim_end(todos[p].line@)
    &&& m.indices@ == spec_shift(fuzzy_positions(todos[p].label@, q), spec_offset(todos[p]))
}

/// Fuzzy-matches every todo label against the query and reports the matching
/// lines in their original order, each with its highlight positions.
pub fn search_matches(todos: &Vec<TodoItem>, query: &str) -> (r: Vec<SearchMatch>)
    ensures
        r@.len() == matched_positions(todos@, query@).len(),
        forall|t: int|
            0 <= t < r@.len() ==> match_for(
                todos@,
                query@,
                matched_positions(todos@, query@)[t] as int,
                #[trigger] r@[t],
            ),
{
    broadcast use vstd::seq_lib::group_filter_ensures;

    let ghost q = query@;
    let ghost pred = |p: usize| todo_matches(todos@, q, p as int);
    let mut r: Vec<SearchMatch> = Vec::new();
    let n = todos.len();
    let mut p: usize = 0;
    while p < n
        invariant
            n == todos@.len(),
            q == query@,
            pred == (|p: usize| todo_matches(todos@, q, p as int)),
            p <= n,
            r@.len() == position_range(p as int).filter(pred).len(),
            forall|t: int|
                0 <= t < r@.len() ==> match_for(
                    todos@,
                    q,
                    position_range(p as int).filter(pred)[t] as int,
                    #[trigger] r@[t],
                ),
        decreases n - p,
    {
        proof {
            assert(position_range(p + 1) =~= position_range(p as int).push(p as usize));
            lemma_filter_push(position_range(p as int), p as usize, pred);
        }
        match fuzzy_indices(todos[p].label.as_str(), query) {
            Some((score, idx)) => {
                let lt = trim_end_str(todos[p].line.as_str());
                let ltc = chars_of(lt.as_str());
                let labc = chars_of(todos[p].label.as_str());
                let off: usize = if ends_with_chars(&ltc, &labc) {
                    ltc.len() - labc.len()
                } else {
                    0
                };
                proof {
                    assert(off == spec_offset(todos@[p as int]));
                }
                let m = idx.len();
                let mut shifted: Vec<usize> = Vec::new();
                let mut k: usize = 0;
                while k < m
                    invariant
                        m == idx@.len(),
                        k <= m,
                        off == spec_offset(todos@[p as int]),
                        forall|a: int| 0 <= a < idx@.len() ==> (#[trigger] idx@[a]) + off
                            <= usize::MAX,
                        shifted@ == spec_shift(idx@.take(k as int), off as int),
                    decreases m - k,
                {
                    shifted.push(idx[k] + off);
                    proof {
                        assert(idx@.take(k + 1) =~= idx@.take(k as int).push(idx@[k as int]));
                        assert(shifted@ =~= spec_shift(idx@.take(k + 1), off as int));
                    }
                    k = k + 1;
                }
                proof {
                    assert(idx@.take(m as int) =~= idx@);
                }
                r.push(SearchMatch { score, indices: shifted, line: lt });
            },
            None => {},
        }
        p = p + 1;
    }
    r
}

/// Whether the scores run high to low.
pub open spec fn sorted_desc(s: Seq<SearchMatch>) -> bool {
    forall|a: int, b: int| 0 <= a < b < s.len() ==> s[a].score >= s[b].score
}

/// Orders search results by descending score, keeping exactly the same
/// results.
pub fn sort_matches(v: Vec<SearchMatch>) -> (r: Vec<SearchMatch>)
    ensures
        sorted_desc(r@),
        r@.to_multiset() == v@.to_multiset(),
{
    broadcast use vstd::seq_lib::group_to_multiset_ensures;
    broadcast use vstd::seq_lib::to_multiset_insert;

    let ghost orig = v@;
    let mut src = v;
    let mut out: Vec<SearchMatch> = Vec::new();
    while src.len() > 0
        invariant
            sorted_desc(out@),
            out@.to_multiset().add(src@.to_multiset()) == orig.to_multiset(),
        decreases src.len(),
    {
        let ghost src0 = src@;
        let x = src.remove(0);
        proof {
            assert(src0.remove(0) == src@);
            assert(src0[0] == x);
        }
        let mut j: usize = 0;
        while j < out.len() && out[j].score >= x.score
            invariant
                j <= out@.len(),
                forall|a: int| 0 <= a < j ==> (#[trigger] out@[a]).score >= x.score,
            decreases out.len() - j,
        {
            j = j + 1;
        }
        let ghost out0 = out@;
        out.insert(j, x);
        proof {
            vstd::seq_lib::to_multiset_insert(out0, j as int, x);
            vstd::seq_lib::to_multiset_remove(src0, 0);
            src0.to_multiset_ensures();
            assert(out@ == out0.insert(j as int, x));
            assert(out@.to_multiset() =~= out0.to_multiset().insert(x));
            assert(src0.contains(src0[0]));
            assert(src0.to_multiset().count(x) >= 1);
            assert(src@.to_multiset() =~= src0.to_multiset().remove(x));
            assert(out@.to_multiset().add(src@.to_multiset()) =~= out0.to_multiset().add(
                src0.to_multiset(),
            ));
            assert(sorted_desc(out@)) by {
                assert(forall|a: int|
                    0 <= a < out@.len() && a < j ==> out@[a] == out0[a] && (#[trigger] out@[a]).score
                        >= x.score);
                assert(forall|a: int|
                    j < a < out@.len() ==> out@[a] == out0[a - 1]);
                assert(out@[j as int] == x);
                assert(forall|a: int|
                    j <= a < out0.len() && j < out0.len() ==> (#[trigger] out0[a]).score
                        <= out0[j as int].score);
            }
        }
    }
    proof {
        assert(src@.to_multiset() =~= Multiset::<SearchMatch>::empty());
        assert(out@.to_multiset().add(Multiset::<SearchMatch>::empty()) =~= out@.to_multiset());
    }
    out
}

/// One keystroke of the live search, as the terminal reports it.
#[derive(Clone, Copy, Debug, PartialEq, Eq, Structural)]
pub enum Key {
    Char(char),
    Backspace,
    Enter,
    Esc,
    Other,
}

/// What the live-search loop does after a keystroke.
#[derive(Clone, Copy, Debug, PartialEq, Eq, Structural)]
pub enum LiveAction {
    Redraw,
    Exit,
    Ignore,
}

/// Advances the live-search query by one keystroke: characters extend it,
/// backspace shortens a non-empty query, enter and escape end the search,
/// and everything else is ignored.
pub fn live_step(query: &mut String, key: Key) -> (r: LiveAction)
    ensures
        key matches Key::Char(c) ==> final(query)@ == old(query)@.push(c) && r is Redraw,
        key is Backspace && old(query)@.len() > 0 ==> final(query)@ == old(query)@.drop_last()
            && r is Redraw,
        key is Backspace && old(query)@.len() == 0 ==> final(query)@ == old(query)@ && r is Ignore,
        key is Enter || key is Esc ==> final(query)@ == old(query)@ && r is Exit,
        key is Other ==> final(query)@ == old(query)@ && r is Ignore,
{
    match key {
        Key::Char(c) => {
            crate::text::push_char(query, c);
            LiveAction::Redraw
        },
        Key::Backspace => {
            if query.as_str().is_empty() {
                LiveAction::Ignore
            } else {
                crate::text::pop_char(query);
                LiveAction::Redraw
            }
        },
        Key::Enter => LiveAction::Exit,
        Key::Esc => LiveAction::Exit,
        Key::Other => LiveAction::Ignore,
    }
}

/// The terminal columns a string occupies, as unicode-width measures it: a
/// function of the characters alone.
pub uninterp spec fn display_width(s: Seq<char>) -> nat;

/// Relies on unicode-width's `UnicodeWidthStr::width`: the sum of the
/// columns of the string's characters.
#[verifier::external_body]
pub fn str_width(s: &str) -> (r: usize)
    ensures
        r as nat == display_width(s@),
{
    UnicodeWidthStr::width(s)
}

/// One rendered result line of the live search.
pub struct RenderLine {
    pub row: u16,
    pub text: String,
}

/// What one redraw of the live search paints: the highlighted results from
/// the bottom up, whether the exit hint fits, and the row of the input line.
pub struct RenderPlan {
    pub lines: Vec<RenderLine>,
    pub show_hint: bool,
    pub search_row: u16,
}

/// Lays out one redraw of the live search: up to a screen's worth of results
/// bottom-up above the input line at the bottom, and the exit hint exactly
/// when the width left of the query allows it.
pub fn live_render_plan(matches: &Vec<SearchMatch>, rows: u16, cols: u16, query: &str) -> (r:
    RenderPlan)
    requires
        rows >= 1,
    ensures
        r.search_row == rows - 1,
        r.lines@.len() == if matches@.len() < (rows - 1) as int {
            matches@.len() as int
        } else {
            (rows - 1) as int
        },
        forall|i: int|
            0 <= i < r.lines@.len() ==> (#[trigger] r.lines@[i]).row == rows - 2 - i
                && r.lines@[i].text@ == spec_highlight(matches@[i].line@, matches@[i].indices@),
        r.show_hint <==> cols as int > 27 + display_width(query@),
{
    let search_row = rows - 1;
    let max_results: usize = if matches.len() < (rows - 1) as usize {
        matches.len()
    } else {
        (rows - 1) as usize
    };
    let mut lines: Vec<RenderLine> = Vec::new();
    let mut i: usize = 0;
    while i < max_results
        invariant
            max_results <= matches@.len(),
            max_results <= (rows - 1) as int,
            rows >= 1,
            search_row == rows - 1,
            i <= max_results,
            lines@.len() == i,
            forall|t: int|
                0 <= t < i ==> (#[trigger] lines@[t]).row == rows - 2 - t && lines@[t].text@
                    == spec_highlight(matches@[t].line@, matches@[t].indices@),
        decreases max_results - i,
    {
        let row = search_row - 1 - (i as u16);
        let text = highlight_indices(matches[i].line.as_str(), &matches[i].indices);
        lines.push(RenderLine { row, text });
        i = i + 1;
    }
    let w = str_width(query);
    let show_hint = if w >= cols as usize {
        false
    } else {
        (cols as usize) - w > 27
    };
    RenderPlan { lines, show_hint, search_row }
}

} // verus!
