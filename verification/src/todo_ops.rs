use vstd::prelude::*;

verus! {

use crate::line::{
    CheckState, StateFilter, line_matches, spec_classify, spec_label, spec_flip_marker,
    classify_line, flip_first_marker, state_matches, marker_at, find_marker_from,
};
use crate::text::{line_views, spec_lines, spec_join, split_lines, join_lines, is_space_char};
use crate::fuzzy::{is_fuzzy_subsequence, has_ascii_upper, fuzzy_score, fuzzy_match};

/// One todo item of a file: the number of its line, the line itself, and the
/// trimmed label after its checkbox.
#[derive(Debug)]
pub struct TodoItem {
    pub index: usize,
    pub line: String,
    pub label: String,
}

/// Whether `it` correctly describes a todo item of `lines` that passes the
/// filter.
pub open spec fn todo_at(lines: Seq<String>, filter: StateFilter, it: TodoItem) -> bool {
    &&& (it.index as int) < lines.len()
    &&& line_matches(filter, lines[it.index as int]@)
    &&& it.line == lines[it.index as int]
    &&& it.label@ == spec_label(lines[it.index as int]@)
}

/// Decides `state_matches`.
pub fn passes_filter(filter: StateFilter, st: CheckState) -> (r: bool)
    ensures
        r == state_matches(filter, st),
{
    match filter {
        StateFilter::Unchecked => st == CheckState::Unchecked,
        StateFilter::Checked => st == CheckState::Checked,
        StateFilter::Any => true,
    }
}

/// The todo items among `lines` whose state passes `filter`, in line order:
/// every returned item describes a matching line, every matching line is
/// returned, and the items carry strictly increasing line numbers.
pub fn parse_todos(lines: &Vec<String>, filter: StateFilter) -> (r: Vec<TodoItem>)
    ensures
        forall|t: int| 0 <= t < r@.len() ==> todo_at(lines@, filter, #[trigger] r@[t]),
        forall|i: usize|
            i < lines@.len() && line_matches(filter, lines@[i as int]@) ==> exists|t: int|
                0 <= t < r@.len() && (#[trigger] r@[t]).index == i,
        forall|t1: int, t2: int| 0 <= t1 < t2 < r@.len() ==> r@[t1].index < r@[t2].index,
{
    let mut r: Vec<TodoItem> = Vec::new();
    let n = lines.len();
    let mut i: usize = 0;
    while i < n
        invariant
            n == lines@.len(),
            i <= n,
            forall|t: int| 0 <= t < r@.len() ==> todo_at(lines@, filter, #[trigger] r@[t]),
            forall|t: int| 0 <= t < r@.len() ==> (#[trigger] r@[t]).index < i,
            forall|j: usize|
                j < i && line_matches(filter, lines@[j as int]@) ==> exists|t: int|
                    0 <= t < r@.len() && (#[trigger] r@[t]).index == j,
            forall|t1: int, t2: int| 0 <= t1 < t2 < r@.len() ==> r@[t1].index < r@[t2].index,
        decreases n - i,
    {
        let ghost r0 = r@;
        match classify_line(lines[i].as_str()) {
            Some((st, label)) => {
                if passes_filter(filter, st) {
                    r.push(TodoItem { index: i, line: lines[i].clone(), label });
                    proof {
                        assert(r@[r@.len() - 1].index == i);
                        assert forall|j: usize|
                            j < i && line_matches(filter, lines@[j as int]@) implies exists|t: int|
                            0 <= t < r@.len() && (#[trigger] r@[t]).index == j by {
                            let t0 = choose|t: int|
                                0 <= t < r0.len() && (#[trigger] r0[t]).index == j;
                            assert(r@[t0].index == j);
                        }
                    }
                } else {
                    proof {
                        assert(!line_matches(filter, lines@[i as int]@));
                    }
                }
            },
            None => {
                proof {
                    assert(!line_matches(filter, lines@[i as int]@));
                }
            },
        }
        i = i + 1;
    }
    r
}

/// The todo items of a file's content, split into lines first.
pub fn parse_todos_content(content: &str, filter: StateFilter) -> (r: Vec<TodoItem>)
    ensures
        forall|t: int|
            0 <= t < r@.len() ==> {
                let it = #[trigger] r@[t];
                &&& (it.index as int) < spec_lines(content@).len()
                &&& line_matches(filter, spec_lines(content@)[it.index as int])
                &&& it.line@ == spec_lines(content@)[it.index as int]
                &&& it.label@ == spec_label(spec_lines(content@)[it.index as int])
            },
        forall|i: usize|
            i < spec_lines(content@).len() && line_matches(filter, spec_lines(content@)[i as int])
                ==> exists|t: int| 0 <= t < r@.len() && (#[trigger] r@[t]).index == i,
        forall|t1: int, t2: int| 0 <= t1 < t2 < r@.len() ==> r@[t1].index < r@[t2].index,
{
    let lines = split_lines(content);
    let r = parse_todos(&lines, filter);
    proof {
        assert(forall|t: int|
            0 <= t < r@.len() ==> (#[trigger] r@[t]).line@ == line_views(lines@)[r@[t].index as int]
                && r@[t].line@ == lines@[r@[t].index as int]@);
    }
    r
}

/// Whether `sel` holds the index `i`.
pub fn contains_index(sel: &Vec<usize>, i: usize) -> (r: bool)
    ensures
        r == sel@.contains(i),
{
    let mut t: usize = 0;
    while t < sel.len()
        invariant
            t <= sel@.len(),
            forall|j: int| 0 <= j < t ==> sel@[j] != i,
        decreases sel.len() - t,
    {
        if sel[t] == i {
            return true;
        }
        t = t + 1;
    }
    false
}

/// Every line of `ls` whose index stands in `sel` with the middle character
/// of its first `[`mid`]` checkbox replaced by `to`; every other line kept as
/// it is.
pub open spec fn spec_apply_mark(ls: Seq<Seq<char>>, sel: Seq<usize>, mid: char, to: char) -> Seq<
    Seq<char>,
> {
    Seq::new(
        ls.len(),
        |i: int|
            if sel.contains(i as usize) {
                spec_flip_marker(ls[i], mid, to)
            } else {
                ls[i]
            },
    )
}

/// Rewrites the selected lines through `flip_first_marker` and copies every
/// other line over byte for byte.
pub fn apply_mark(lines: &Vec<String>, sel: &Vec<usize>, mid: char, to: char) -> (r: Vec<String>)
    ensures
        r@.len() == lines@.len(),
        forall|i: int| 0 <= i < lines@.len() && !sel@.contains(i as usize) ==> r@[i] == lines@[i],
        line_views(r@) == spec_apply_mark(line_views(lines@), sel@, mid, to),
{
    let mut r: Vec<String> = Vec::new();
    let n = lines.len();
    let mut i: usize = 0;
    while i < n
        invariant
            n == lines@.len(),
            i <= n,
            r@.len() == i,
            forall|j: int| 0 <= j < i && !sel@.contains(j as usize) ==> r@[j] == lines@[j],
            forall|j: int|
                0 <= j < i ==> (#[trigger] r@[j])@ == spec_apply_mark(
                    line_views(lines@),
                    sel@,
                    mid,
                    to,
                )[j],
        decreases n - i,
    {
        if contains_index(sel, i) {
            r.push(flip_first_marker(lines[i].as_str(), mid, to));
        } else {
            r.push(lines[i].clone());
        }
        i = i + 1;
    }
    proof {
        assert(line_views(r@) =~= spec_apply_mark(line_views(lines@), sel@, mid, to));
    }
    r
}

/// Checks the selected lines: `[ ]` becomes `[x]` at the first checkbox of
/// each selected line; nothing else changes.
pub fn apply_check(lines: &Vec<String>, sel: &Vec<usize>) -> (r: Vec<String>)
    ensures
        r@.len() == lines@.len(),
        forall|i: int| 0 <= i < lines@.len() && !sel@.contains(i as usize) ==> r@[i] == lines@[i],
        line_views(r@) == spec_apply_mark(line_views(lines@), sel@, ' ', 'x'),
{
    apply_mark(lines, sel, ' ', 'x')
}

/// Unchecks the selected lines: `[x]` becomes `[ ]` at the first checkbox of
/// each selected line; nothing else changes.
pub fn apply_uncheck(lines: &Vec<String>, sel: &Vec<usize>) -> (r: Vec<String>)
    ensures
        r@.len() == lines@.len(),
        forall|i: int| 0 <= i < lines@.len() && !sel@.contains(i as usize) ==> r@[i] == lines@[i],
        line_views(r@) == spec_apply_mark(line_views(lines@), sel@, 'x', ' '),
{
    apply_mark(lines, sel, 'x', ' ')
}

/// The lines of `ls` from position `i` on whose index does not stand in
/// `sel`, in their original order.
pub open spec fn spec_remove_from(ls: Seq<Seq<char>>, sel: Seq<usize>, i: int) -> Seq<Seq<char>>
    decreases ls.len() - i when 0 <= i <= ls.len()
{
    if i >= ls.len() {
        Seq::empty()
    } else if sel.contains(i as usize) {
        spec_remove_from(ls, sel, i + 1)
    } else {
        seq![ls[i]] + spec_remove_from(ls, sel, i + 1)
    }
}

/// The lines of `ls` whose index does not stand in `sel`, in order.
pub open spec fn spec_remove(ls: Seq<Seq<char>>, sel: Seq<usize>) -> Seq<Seq<char>> {
    spec_remove_from(ls, sel, 0)
}

/// How many of the positions `0 <= i < n` stand in `sel`.
pub open spec fn count_selected(sel: Seq<usize>, n: int) -> int
    decreases n,
{
    if n <= 0 {
        0
    } else {
        count_selected(sel, n - 1) + if sel.contains((n - 1) as usize) {
            1int
        } else {
            0int
        }
    }
}

/// Removing from position `i` keeps one line for each unselected position.
pub proof fn lemma_remove_from_len(ls: Seq<Seq<char>>, sel: Seq<usize>, i: int)
    requires
        0 <= i <= ls.len(),
    ensures
        spec_remove_from(ls, sel, i).len() == (ls.len() - i) - (count_selected(sel, ls.len() as int)
            - count_selected(sel, i)),
    decreases ls.len() - i,
{
    if i < ls.len() {
        lemma_remove_from_len(ls, sel, i + 1);
        lemma_count_selected_step(sel, i + 1);
    }
}

proof fn lemma_count_selected_step(sel: Seq<usize>, n: int)
    requires
        n >= 1,
    ensures
        count_selected(sel, n) == count_selected(sel, n - 1) + if sel.contains((n - 1) as usize) {
            1int
        } else {
            0int
        },
{
}

/// Deletes the selected lines and keeps every other line, in order.
pub fn apply_remove(lines: &Vec<String>, sel: &Vec<usize>) -> (r: Vec<String>)
    ensures
        line_views(r@) == spec_remove(line_views(lines@), sel@),
        r@.len() == lines@.len() - count_selected(sel@, lines@.len() as int),
{
    let mut r: Vec<String> = Vec::new();
    let n = lines.len();
    let mut i: usize = 0;
    let ghost views = line_views(lines@);
    while i < n
        invariant
            n == lines@.len(),
            i <= n,
            views == line_views(lines@),
            spec_remove(views, sel@) == line_views(r@) + spec_remove_from(views, sel@, i as int),
            r@.len() == i - count_selected(sel@, i as int),
        decreases n - i,
    {
        let ghost old_r = r@;
        if !contains_index(sel, i) {
            r.push(lines[i].clone());
            proof {
                assert(line_views(r@) =~= line_views(old_r).push(views[i as int]));
                assert(line_views(old_r) + spec_remove_from(views, sel@, i as int) =~= line_views(
                    r@,
                ) + spec_remove_from(views, sel@, i + 1));
            }
        }
        proof {
            lemma_count_selected_step(sel@, i + 1);
        }
        i = i + 1;
    }
    proof {
        assert(spec_remove_from(views, sel@, n as int) =~= Seq::<Seq<char>>::empty());
        assert(line_views(r@) + Seq::<Seq<char>>::empty() =~= line_views(r@));
        lemma_count_selected_nonneg(sel@, n as int);
    }
    r
}

proof fn lemma_count_selected_nonneg(sel: Seq<usize>, n: int)
    ensures
        0 <= count_selected(sel, n) <= if n >= 0 {
            n
        } else {
            0int
        },
    decreases n,
{
    if n > 0 {
        lemma_count_selected_nonneg(sel, n - 1);
    }
}

/// Checks the selected lines of a file's content and hands the rewritten
/// content back, lines joined by single newlines.
pub fn check_content(content: &str, sel: &Vec<usize>) -> (r: String)
    ensures
        r@ == spec_join(spec_apply_mark(spec_lines(content@), sel@, ' ', 'x')),
{
    let lines = split_lines(content);
    let out = apply_check(&lines, sel);
    join_lines(&out)
}

/// Unchecks the selected lines of a file's content and hands the rewritten
/// content back, lines joined by single newlines.
pub fn uncheck_content(content: &str, sel: &Vec<usize>) -> (r: String)
    ensures
        r@ == spec_join(spec_apply_mark(spec_lines(content@), sel@, 'x', ' ')),
{
    let lines = split_lines(content);
    let out = apply_uncheck(&lines, sel);
    join_lines(&out)
}

/// Deletes the selected lines of a file's content and hands the rewritten
/// content back, lines joined by single newlines.
pub fn remove_content(content: &str, sel: &Vec<usize>) -> (r: String)
    ensures
        r@ == spec_join(spec_remove(spec_lines(content@), sel@)),
{
    let lines = split_lines(content);
    let out = apply_remove(&lines, sel);
    join_lines(&out)
}

/// Marking never selects a line that does not match the todo grammar, so
/// such a line stays byte-identical, at its position, whenever the selection
/// holds only line numbers of todo items — as every selection drawn from
/// `parse_todos` does.
pub proof fn lemma_mark_preserves_nontodo(
    ls: Seq<Seq<char>>,
    sel: Seq<usize>,
    mid: char,
    to: char,
    i: int,
)
    requires
        ls.len() <= usize::MAX,
        0 <= i < ls.len(),
        spec_classify(ls[i]) is None,
        forall|k: int|
            0 <= k < sel.len() ==> (#[trigger] sel[k] as int) < ls.len() && spec_classify(
                ls[sel[k] as int],
            ) is Some,
    ensures
        spec_apply_mark(ls, sel, mid, to)[i] == ls[i],
{
    if sel.contains(i as usize) {
        let k = choose|k: int| 0 <= k < sel.len() && sel[k] == i as usize;
        assert(spec_classify(ls[sel[k] as int]) is Some);
    }
}

/// A line whose checkbox is already checked is never selected by `check`,
/// whose selections hold only line numbers of unchecked todo items, so
/// checking leaves it untouched; the same holds with the states swapped for
/// `uncheck`.
pub proof fn lemma_mark_skips_other_state(
    ls: Seq<Seq<char>>,
    sel: Seq<usize>,
    mid: char,
    to: char,
    st: CheckState,
    i: int,
)
    requires
        ls.len() <= usize::MAX,
        0 <= i < ls.len(),
        spec_classify(ls[i]) != Some(st),
        forall|k: int|
            0 <= k < sel.len() ==> (#[trigger] sel[k] as int) < ls.len() && spec_classify(
                ls[sel[k] as int],
            ) == Some(st),
    ensures
        spec_apply_mark(ls, sel, mid, to)[i] == ls[i],
{
    if sel.contains(i as usize) {
        let k = choose|k: int| 0 <= k < sel.len() && sel[k] == i as usize;
        assert(spec_classify(ls[sel[k] as int]) == Some(st));
    }
}

proof fn lemma_filter_singleton(x: Seq<char>, pred: spec_fn(Seq<char>) -> bool)
    ensures
        seq![x].filter(pred) == if pred(x) {
            seq![x]
        } else {
            Seq::<Seq<char>>::empty()
        },
{
    reveal(Seq::filter);
    assert(seq![x].drop_last() =~= Seq::<Seq<char>>::empty());
    assert(Seq::<Seq<char>>::empty().filter(pred) =~= Seq::<Seq<char>>::empty());
    assert(seq![x].last() == x);
}

/// Removal keeps the subsequence of lines that do not match the todo grammar
/// exactly as it was, whenever the selection holds only line numbers of todo
/// items.
pub proof fn lemma_remove_preserves_nontodo(ls: Seq<Seq<char>>, sel: Seq<usize>)
    requires
        ls.len() <= usize::MAX,
        forall|k: int|
            0 <= k < sel.len() ==> (#[trigger] sel[k] as int) < ls.len() && spec_classify(
                ls[sel[k] as int],
            ) is Some,
    ensures
        spec_remove(ls, sel).filter(|l: Seq<char>| spec_classify(l) is None) == ls.filter(
            |l: Seq<char>| spec_classify(l) is None,
        ),
{
    lemma_remove_from_preserves_nontodo(ls, sel, 0);
    assert(ls.skip(0) =~= ls);
}

proof fn lemma_remove_from_preserves_nontodo(ls: Seq<Seq<char>>, sel: Seq<usize>, i: int)
    requires
        ls.len() <= usize::MAX,
        0 <= i <= ls.len(),
        forall|k: int|
            0 <= k < sel.len() ==> (#[trigger] sel[k] as int) < ls.len() && spec_classify(
                ls[sel[k] as int],
            ) is Some,
    ensures
        spec_remove_from(ls, sel, i).filter(|l: Seq<char>| spec_classify(l) is None)
            == ls.skip(i).filter(|l: Seq<char>| spec_classify(l) is None),
    decreases ls.len() - i,
{
    broadcast use vstd::seq_lib::group_filter_ensures;

    let pred = |l: Seq<char>| spec_classify(l) is None;
    if i == ls.len() {
        assert(ls.skip(i) =~= Seq::<Seq<char>>::empty());
        assert(Seq::<Seq<char>>::empty().filter(pred) =~= Seq::<Seq<char>>::empty()) by {
            reveal(Seq::filter);
        }
    } else {
        lemma_remove_from_preserves_nontodo(ls, sel, i + 1);
        lemma_filter_singleton(ls[i], pred);
        assert(ls.skip(i) =~= seq![ls[i]] + ls.skip(i + 1));
        Seq::filter_distributes_over_add(seq![ls[i]], ls.skip(i + 1), pred);
        if sel.contains(i as usize) {
            let k = choose|k: int| 0 <= k < sel.len() && sel[k] == i as usize;
            assert(spec_classify(ls[sel[k] as int]) is Some);
            assert(!pred(ls[i]));
            assert(seq![ls[i]].filter(pred) + ls.skip(i + 1).filter(pred) =~= ls.skip(i + 1).filter(
                pred,
            ));
        } else {
            Seq::filter_distributes_over_add(seq![ls[i]], spec_remove_from(ls, sel, i + 1), pred);
        }
    }
}

/// The first checkbox of a line, as `find_marker_from` finds it from
/// position `i`, is the least one at or after `i`; when the search fails, no
/// checkbox stands at or after `i`.
pub proof fn lemma_find_marker_least(s: Seq<char>, mid: char, i: int)
    requires
        0 <= i,
    ensures
        match find_marker_from(s, mid, i) {
            Some(m) => i <= m && marker_at(s, mid, m) && forall|j: int|
                i <= j < m ==> !marker_at(s, mid, j),
            None => forall|j: int| j >= i ==> !marker_at(s, mid, j),
        },
    decreases s.len() - i,
{
    if i + 3 > s.len() {
    } else if marker_at(s, mid, i) {
    } else {
        lemma_find_marker_least(s, mid, i + 1);
    }
}

/// Checking a selected line flips exactly the middle character of its first
/// unchecked checkbox: that character becomes `to`, and every other
/// character of the line stays as it was. A line without such a checkbox
/// stays whole.
pub proof fn lemma_flip_first_only(s: Seq<char>, mid: char, to: char)
    ensures
        match find_marker_from(s, mid, 0) {
            Some(m) => {
                &&& marker_at(s, mid, m)
                &&& forall|j: int| 0 <= j < m ==> !marker_at(s, mid, j)
                &&& spec_flip_marker(s, mid, to).len() == s.len()
                &&& spec_flip_marker(s, mid, to)[m + 1] == to
                &&& forall|j: int|
                    0 <= j < s.len() && j != m + 1 ==> spec_flip_marker(s, mid, to)[j] == s[j]
            },
            None => spec_flip_marker(s, mid, to) == s,
        },
{
    lemma_find_marker_least(s, mid, 0);
}

proof fn lemma_count_congruent(a: Seq<usize>, b: Seq<usize>, n: int)
    requires
        forall|x: usize| (x as int) < n ==> (#[trigger] a.contains(x) <==> #[trigger] b.contains(
            x,
        )),
    ensures
        count_selected(a, n) == count_selected(b, n),
    decreases n,
{
    if n > 0 {
        lemma_count_congruent(a, b, n - 1);
    }
}

proof fn lemma_count_distinct(sel: Seq<usize>, n: int)
    requires
        sel.no_duplicates(),
        forall|k: int| 0 <= k < sel.len() ==> (#[trigger] sel[k] as int) < n,
        0 <= n <= usize::MAX,
    ensures
        count_selected(sel, n) == sel.len(),
    decreases n,
{
    if n == 0 {
        if sel.len() > 0 {
            assert((sel[0] as int) < 0);
        }
    } else {
        let m = (n - 1) as usize;
        if sel.contains(m) {
            let j = choose|j: int| 0 <= j < sel.len() && sel[j] == m;
            let sel2 = sel.remove(j);
            sel.remove_ensures(j);
            assert forall|a: int, b: int|
                0 <= a < sel2.len() && 0 <= b < sel2.len() && a != b implies sel2[a] != sel2[b] by {
                let fa: int = if a < j {
                    a
                } else {
                    a + 1
                };
                let fb: int = if b < j {
                    b
                } else {
                    b + 1
                };
                assert(sel2[a] == sel[fa]);
                assert(sel2[b] == sel[fb]);
            }
            assert(sel2.no_duplicates());
            assert forall|x: usize| (x as int) < n - 1 implies (sel.contains(x) <==> sel2.contains(
                x,
            )) by {
                if sel.contains(x) {
                    let k = choose|k: int| 0 <= k < sel.len() && sel[k] == x;
                    assert(k != j);
                    if k < j {
                        assert(sel2[k] == x);
                    } else {
                        assert(sel2[k - 1] == x);
                    }
                }
                if sel2.contains(x) {
                    let k = choose|k: int| 0 <= k < sel2.len() && sel2[k] == x;
                    if k < j {
                        assert(sel[k] == x);
                    } else {
                        assert(sel[k + 1] == x);
                    }
                }
            }
            assert forall|k: int| 0 <= k < sel2.len() implies (#[trigger] sel2[k] as int) < n
                - 1 by {
                let fk: int = if k < j {
                    k
                } else {
                    k + 1
                };
                assert(sel2[k] == sel[fk]);
                if sel2[k] == m {
                    assert(sel[fk] == sel[j]);
                }
            }
            lemma_count_distinct(sel2, n - 1);
            lemma_count_congruent(sel, sel2, n - 1);
        } else {
            assert forall|k: int| 0 <= k < sel.len() implies (#[trigger] sel[k] as int) < n - 1 by {
                if (sel[k] as int) == n - 1 {
                    assert(sel.contains(m));
                }
            }
            lemma_count_distinct(sel, n - 1);
        }
    }
}


proof fn lemma_no_bracket_before_checkbox(s: Seq<char>)
    ensures
        forall|j: int| 0 <= j < crate::line::checkbox_start(s) ==> s[j] != '[',
{
    crate::line::lemma_ws_prefix_chars(s);
    crate::line::lemma_ws_prefix_len_bounds(s);
    let w = crate::line::ws_prefix_len(s);
    assert forall|j: int| 0 <= j < crate::line::checkbox_start(s) implies s[j] != '[' by {
        if j < w {
            assert(is_space_char(s[j]));
        } else if j == w {
            assert(crate::line::is_bullet(s[w]) || s[w] == ' ');
        } else {
            assert(j == w + 1 && s[j] == ' ');
        }
    }
}

proof fn lemma_first_marker_at_checkbox(s: Seq<char>, mid: char)
    requires
        marker_at(s, mid, crate::line::checkbox_start(s)),
        0 <= crate::line::checkbox_start(s),
        forall|j: int| 0 <= j < crate::line::checkbox_start(s) ==> s[j] != '[',
    ensures
        find_marker_from(s, mid, 0) == Some(crate::line::checkbox_start(s)),
{
    lemma_find_marker_least(s, mid, 0);
    let k = crate::line::checkbox_start(s);
    match find_marker_from(s, mid, 0) {
        None => {
            assert(!marker_at(s, mid, k));
        },
        Some(m) => {
            if m < k {
                assert(s[m] != '[');
            } else if m > k {
                assert(!marker_at(s, mid, k));
            }
        },
    }
}

/// Flipping a todo line's checkbox flips exactly its state: a line the
/// grammar reads as unchecked reads as checked after `check` rewrites it —
/// so checking it again finds nothing left to do — and flipping it back
/// restores the line byte for byte; the label never moves. The same holds
/// with the states swapped for `uncheck`.
pub proof fn lemma_flip_changes_state(s: Seq<char>, mid: char, to: char)
    requires
        (mid == ' ' && to == 'x' && spec_classify(s) == Some(CheckState::Unchecked)) || (mid == 'x'
            && to == ' ' && spec_classify(s) == Some(CheckState::Checked)),
    ensures
        spec_classify(spec_flip_marker(s, mid, to)) == (if to == 'x' {
            Some(CheckState::Checked)
        } else {
            Some(CheckState::Unchecked)
        }),
        spec_label(spec_flip_marker(s, mid, to)) == spec_label(s),
        spec_flip_marker(spec_flip_marker(s, mid, to), to, mid) == s,
{
    let k = crate::line::checkbox_start(s);
    crate::line::lemma_ws_prefix_len_bounds(s);
    crate::line::lemma_ws_prefix_chars(s);
    lemma_no_bracket_before_checkbox(s);
    assert(marker_at(s, mid, k));
    lemma_first_marker_at_checkbox(s, mid);
    let s2 = s.update(k + 1, to);
    assert(spec_flip_marker(s, mid, to) == s2);
    let w = crate::line::ws_prefix_len(s);
    assert forall|j: int| 0 <= j < w implies is_space_char(s2[j]) by {
        assert(s2[j] == s[j]);
    }
    assert(s2[w] == s[w]);
    crate::line::lemma_ws_prefix_len_is(s2, w);
    assert(crate::line::checkbox_start(s2) == k);
    assert(s2[k] == '[' && s2[k + 1] == to && s2[k + 2] == ']');
    assert(spec_classify(s2) == (if to == 'x' {
        Some(CheckState::Checked)
    } else {
        Some(CheckState::Unchecked)
    }));
    assert(s2.skip(k + 3) =~= s.skip(k + 3));
    assert forall|j: int| 0 <= j < k implies s2[j] != '[' by {
        assert(s2[j] == s[j]);
    }
    assert(marker_at(s2, to, k));
    lemma_first_marker_at_checkbox(s2, to);
    assert(s2.update(k + 1, mid) =~= s);
}

/// Checking a selection of unchecked todo lines makes each selected line a
/// checked todo with its label kept — a second `check` has nothing left on
/// them — and unchecking the same selection afterwards restores every line
/// byte for byte.
pub proof fn lemma_check_then_uncheck(ls: Seq<Seq<char>>, sel: Seq<usize>, i: int)
    requires
        ls.len() <= usize::MAX,
        0 <= i < ls.len(),
        forall|k: int|
            0 <= k < sel.len() ==> (#[trigger] sel[k] as int) < ls.len() && spec_classify(
                ls[sel[k] as int],
            ) == Some(CheckState::Unchecked),
    ensures
        sel.contains(i as usize) ==> spec_classify(spec_apply_mark(ls, sel, ' ', 'x')[i]) == Some(
            CheckState::Checked,
        ) && spec_label(spec_apply_mark(ls, sel, ' ', 'x')[i]) == spec_label(ls[i]),
        spec_apply_mark(spec_apply_mark(ls, sel, ' ', 'x'), sel, 'x', ' ')[i] == ls[i],
{
    let ls2 = spec_apply_mark(ls, sel, ' ', 'x');
    if sel.contains(i as usize) {
        let k = choose|k: int| 0 <= k < sel.len() && sel[k] == i as usize;
        assert(spec_classify(ls[sel[k] as int]) == Some(CheckState::Unchecked));
        lemma_flip_changes_state(ls[i], ' ', 'x');
        assert(ls2[i] == spec_flip_marker(ls[i], ' ', 'x'));
        assert(spec_apply_mark(ls2, sel, 'x', ' ')[i] == spec_flip_marker(ls2[i], 'x', ' '));
    } else {
        assert(ls2[i] == ls[i]);
        assert(spec_apply_mark(ls2, sel, 'x', ' ')[i] == ls2[i]);
    }
}

/// Whether the todo at position `p` matches the query under the skim
/// matcher's smart-case rule.
pub open spec fn todo_matches(todos: Seq<TodoItem>, q: Seq<char>, p: int) -> bool {
    is_fuzzy_subsequence(todos[p].label@, q, has_ascii_upper(q))
}

/// The fuzzy score of the todo at position `p` against the query.
pub open spec fn todo_score(todos: Seq<TodoItem>, q: Seq<char>, p: int) -> int {
    fuzzy_score(todos[p].label@, q)
}

/// Whether position `p` holds a matching todo none of whose rivals scores
/// higher.
pub open spec fn is_best_pos(todos: Seq<TodoItem>, q: Seq<char>, p: int) -> bool {
    &&& 0 <= p < todos.len()
    &&& todo_matches(todos, q, p)
    &&& forall|p2: int|
        0 <= p2 < todos.len() && todo_matches(todos, q, p2) ==> todo_score(todos, q, p2)
            <= todo_score(todos, q, p)
}

/// The positions `0, 1, ..., n - 1`.
pub open spec fn position_range(n: int) -> Seq<usize> {
    Seq::new(n as nat, |i: int| i as usize)
}

/// Every position tied for the best score, in increasing order.
pub open spec fn best_positions(todos: Seq<TodoItem>, q: Seq<char>) -> Seq<usize> {
    position_range(todos.len() as int).filter(|p: usize| is_best_pos(todos, q, p as int))
}

/// Filtering one more element keeps it exactly when it satisfies the
/// predicate.
pub proof fn lemma_filter_push<A>(s: Seq<A>, x: A, pred: spec_fn(A) -> bool)
    ensures
        (s.push(x)).filter(pred) == if pred(x) {
            s.filter(pred).push(x)
        } else {
            s.filter(pred)
        },
{
    reveal(Seq::filter);
    assert(s.push(x).drop_last() =~= s);
    assert(s.push(x).last() == x);
}

/// How an operation's target lines are chosen.
pub enum SelectionPlan {
    /// There are no candidate todos at all.
    NoTodos,
    /// These line numbers are selected outright, without a prompt.
    Direct(Vec<usize>),
    /// The todos at these positions are presented for a manual multi-select.
    Prompt(Vec<usize>),
    /// A non-empty query matched no todo; nothing is mutated.
    NoMatch,
}

/// Chooses the target of a mutating operation: everything under the `all`
/// flag; a prompt over every todo for an empty query; otherwise the todos of
/// best fuzzy score — selected outright when the best match is unique, and
/// presented for manual disambiguation when several tie.
pub fn plan_selection(todos: &Vec<TodoItem>, query: &str, all: bool) -> (r: SelectionPlan)
    ensures
        r is NoTodos <==> todos@.len() == 0,
        todos@.len() > 0 && all ==> (r matches SelectionPlan::Direct(v) && v@.len() == todos@.len()
            && (forall|t: int| 0 <= t < v@.len() ==> v@[t] == todos@[t as int].index)),
        todos@.len() > 0 && !all && query@.len() == 0 ==> (r matches SelectionPlan::Prompt(v)
            && v@ == position_range(todos@.len() as int)),
        todos@.len() > 0 && !all && query@.len() > 0 && (forall|p: int|
            0 <= p < todos@.len() ==> !todo_matches(todos@, query@, p)) ==> r is NoMatch,
        todos@.len() > 0 && !all && query@.len() > 0 && (exists|p: int|
            0 <= p < todos@.len() && todo_matches(todos@, query@, p)) ==> best_positions(
            todos@,
            query@,
        ).len() >= 1,
        todos@.len() > 0 && !all && query@.len() > 0 && (exists|p: int|
            0 <= p < todos@.len() && todo_matches(todos@, query@, p)) && best_positions(
            todos@,
            query@,
        ).len() == 1 ==> (r matches SelectionPlan::Direct(v) && v@ == seq![
            todos@[best_positions(todos@, query@)[0] as int].index,
        ]),
        todos@.len() > 0 && !all && query@.len() > 0 && (exists|p: int|
            0 <= p < todos@.len() && todo_matches(todos@, query@, p)) && best_positions(
            todos@,
            query@,
        ).len() != 1 ==> (r matches SelectionPlan::Prompt(v) && v@ == best_positions(
            todos@,
            query@,
        )),
{
    broadcast use vstd::seq_lib::group_filter_ensures;

    let n = todos.len();
    if n == 0 {
        return SelectionPlan::NoTodos;
    }
    if all {
        let mut v: Vec<usize> = Vec::new();
        let mut p: usize = 0;
        while p < n
            invariant
                n == todos@.len(),
                p <= n,
                v@.len() == p,
                forall|t: int| 0 <= t < p ==> v@[t] == todos@[t].index,
            decreases n - p,
        {
            v.push(todos[p].index);
            p = p + 1;
        }
        return SelectionPlan::Direct(v);
    }
    if query.is_empty() {
        let mut v: Vec<usize> = Vec::new();
        let mut p: usize = 0;
        while p < n
            invariant
                n == todos@.len(),
                p <= n,
                v@ == position_range(p as int),
            decreases n - p,
        {
            v.push(p);
            proof {
                assert(v@ =~= position_range(p + 1));
            }
            p = p + 1;
        }
        return SelectionPlan::Prompt(v);
    }
    let ghost q = query@;
    let mut scores: Vec<Option<i64>> = Vec::new();
    let mut p: usize = 0;
    while p < n
        invariant
            n == todos@.len(),
            q == query@,
            p <= n,
            scores@.len() == p,
            forall|j: int|
                0 <= j < p ==> ((#[trigger] scores@[j]) is Some <==> todo_matches(todos@, q, j)),
            forall|j: int|
                0 <= j < p ==> ((#[trigger] scores@[j]) matches Some(s) ==> s as int == todo_score(todos@, q, j)),
        decreases n - p,
    {
        let sc = fuzzy_match(todos[p].label.as_str(), query);
        scores.push(sc);
        proof {
            assert(sc is Some <==> todo_matches(todos@, q, p as int));
        }
        p = p + 1;
    }
    let mut best: Option<i64> = None;
    let mut p: usize = 0;
    while p < n
        invariant
            n == todos@.len() == scores@.len(),
            q == query@,
            p <= n,
            forall|j: int|
                0 <= j < n ==> ((#[trigger] scores@[j]) is Some <==> todo_matches(todos@, q, j)),
            forall|j: int|
                0 <= j < n ==> ((#[trigger] scores@[j]) matches Some(s) ==> s as int == todo_score(todos@, q, j)),
            best is Some <==> exists|j: int| 0 <= j < p && todo_matches(todos@, q, j),
            best matches Some(b) ==> exists|j: int|
                0 <= j < p && todo_matches(todos@, q, j) && todo_score(todos@, q, j) == b as int,
            best matches Some(b) ==> forall|j: int|
                0 <= j < p && todo_matches(todos@, q, j) ==> todo_score(todos@, q, j) <= b as int,
        decreases n - p,
    {
        match scores[p] {
            Some(s) => {
                match best {
                    Some(b) => {
                        if s > b {
                            best = Some(s);
                        }
                    },
                    None => {
                        best = Some(s);
                    },
                }
                proof {
                    assert(todo_matches(todos@, q, p as int));
                }
            },
            None => {},
        }
        p = p + 1;
    }
    match best {
        None => {
            proof {
                assert(forall|j: int| 0 <= j < n ==> !todo_matches(todos@, q, j));
            }
            SelectionPlan::NoMatch
        },
        Some(b) => {
            let ghost pred = |p: usize| is_best_pos(todos@, q, p as int);
            proof {
                let w = choose|j: int|
                    0 <= j < n && todo_matches(todos@, q, j) && todo_score(todos@, q, j)
                        == b as int;
                assert(is_best_pos(todos@, q, w));
                assert(forall|j: int|
                    0 <= j < n ==> (is_best_pos(todos@, q, j) <==> (todo_matches(todos@, q, j)
                        && todo_score(todos@, q, j) == b as int)));
                assert(position_range(n as int)[w] == w as usize);
                assert(best_positions(todos@, q).contains(w as usize));
                assert(best_positions(todos@, q).len() >= 1);
            }
            let mut bests: Vec<usize> = Vec::new();
            let mut p: usize = 0;
            while p < n
                invariant
                    n == todos@.len() == scores@.len(),
                    q == query@,
                    p <= n,
                    pred == (|p: usize| is_best_pos(todos@, q, p as int)),
                    forall|j: int|
                        0 <= j < n ==> ((#[trigger] scores@[j]) is Some <==> todo_matches(
                            todos@,
                            q,
                            j,
                        )),
                    forall|j: int|
                        0 <= j < n ==> ((#[trigger] scores@[j]) matches Some(s) ==> s as int
                            == todo_score(todos@, q, j)),
                    forall|j: int|
                        0 <= j < n ==> (is_best_pos(todos@, q, j) <==> (todo_matches(todos@, q, j)
                            && todo_score(todos@, q, j) == b as int)),
                    bests@ == position_range(p as int).filter(pred),
                decreases n - p,
            {
                proof {
                    assert(position_range(p + 1) =~= position_range(p as int).push(p as usize));
                    lemma_filter_push(position_range(p as int), p as usize, pred);
                }
                match scores[p] {
                    Some(s) => {
                        if s == b {
                            bests.push(p);
                        }
                    },
                    None => {},
                }
                p = p + 1;
            }
            proof {
                assert(bests@ == best_positions(todos@, q));
            }
            if bests.len() == 1 {
                proof {
                    assert(pred(bests@[0]));
                    assert(is_best_pos(todos@, q, bests@[0] as int));
                }
                let b0 = bests[0];
                let v = vec![todos[b0].index];
                proof {
                    assert(v@ =~= seq![todos@[best_positions(todos@, q)[0] as int].index]);
                }
                SelectionPlan::Direct(v)
            } else {
                SelectionPlan::Prompt(bests)
            }
        },
    }
}

/// Two candidates tied for the best score are both presented for manual
/// disambiguation: each of their positions stands in `best_positions`, which
/// then holds at least two entries, so the selector prompts instead of
/// picking one of them.
pub proof fn lemma_ties_are_presented(todos: Seq<TodoItem>, q: Seq<char>, p1: int, p2: int)
    requires
        todos.len() <= usize::MAX,
        is_best_pos(todos, q, p1),
        is_best_pos(todos, q, p2),
        p1 != p2,
    ensures
        best_positions(todos, q).contains(p1 as usize),
        best_positions(todos, q).contains(p2 as usize),
        best_positions(todos, q).len() >= 2,
{
    broadcast use vstd::seq_lib::group_filter_ensures;

    let rng = position_range(todos.len() as int);
    let pred = |p: usize| is_best_pos(todos, q, p as int);
    let bests = best_positions(todos, q);
    assert(rng[p1] == p1 as usize && pred(rng[p1]));
    assert(rng[p2] == p2 as usize && pred(rng[p2]));
    assert(bests.contains(p1 as usize));
    assert(bests.contains(p2 as usize));
    let i1 = choose|i: int| 0 <= i < bests.len() && bests[i] == p1 as usize;
    let i2 = choose|i: int| 0 <= i < bests.len() && bests[i] == p2 as usize;
    assert(i1 != i2);
}

/// The line number of the first todo among `positions` whose label reads
/// `lab`, if any.
pub open spec fn find_labeled(todos: Seq<TodoItem>, positions: Seq<usize>, lab: Seq<char>) -> Option<
    usize,
>
    decreases positions.len(),
{
    if positions.len() == 0 {
        None
    } else if todos[positions.first() as int].label@ == lab {
        Some(positions.first())
    } else {
        find_labeled(todos, positions.drop_first(), lab)
    }
}

/// The line numbers that a prompt's picks stand for: each pick is looked up
/// among the presented positions, first todo with that label wins, and picks
/// that name no presented label are dropped.
pub open spec fn spec_resolve(todos: Seq<TodoItem>, positions: Seq<usize>, picks: Seq<String>) -> Seq<
    usize,
>
    decreases picks.len(),
{
    if picks.len() == 0 {
        Seq::empty()
    } else {
        let rest = spec_resolve(todos, positions, picks.drop_first());
        match find_labeled(todos, positions, picks.first()@) {
            Some(p) => seq![todos[p as int].index] + rest,
            None => rest,
        }
    }
}

/// Maps the labels picked at a prompt back to line numbers, as
/// `spec_resolve` describes.
pub fn resolve_picks(todos: &Vec<TodoItem>, positions: &Vec<usize>, picks: &Vec<String>) -> (r: Vec<
    usize,
>)
    requires
        forall|k: int| 0 <= k < positions@.len() ==> (#[trigger] positions@[k] as int)
            < todos@.len(),
    ensures
        r@ == spec_resolve(todos@, positions@, picks@),
{
    let mut r: Vec<usize> = Vec::new();
    let np = picks.len();
    let mut i: usize = 0;
    proof {
        assert(picks@.skip(0) =~= picks@);
    }
    while i < np
        invariant
            np == picks@.len(),
            i <= np,
            forall|k: int| 0 <= k < positions@.len() ==> (#[trigger] positions@[k] as int)
                < todos@.len(),
            spec_resolve(todos@, positions@, picks@) == r@ + spec_resolve(
                todos@,
                positions@,
                picks@.skip(i as int),
            ),
        decreases np - i,
    {
        let ghost r0 = r@;
        proof {
            assert(picks@.skip(i as int).first() == picks@[i as int]);
            assert(picks@.skip(i as int).drop_first() =~= picks@.skip(i + 1));
        }
        match find_pick(todos, positions, &picks[i]) {
            Some(p) => {
                r.push(todos[p].index);
                proof {
                    assert(r@ =~= r0.push(todos@[p as int].index));
                    assert(r0 + spec_resolve(todos@, positions@, picks@.skip(i as int)) =~= r@
                        + spec_resolve(todos@, positions@, picks@.skip(i + 1)));
                }
            },
            None => {},
        }
        i = i + 1;
    }
    proof {
        assert(spec_resolve(todos@, positions@, picks@.skip(np as int)) =~= Seq::<usize>::empty());
        assert(r@ + Seq::<usize>::empty() =~= r@);
    }
    r
}

/// The first presented position whose todo carries the picked label.
fn find_pick(todos: &Vec<TodoItem>, positions: &Vec<usize>, pick: &String) -> (r: Option<usize>)
    requires
        forall|k: int| 0 <= k < positions@.len() ==> (#[trigger] positions@[k] as int)
            < todos@.len(),
    ensures
        r == find_labeled(todos@, positions@, pick@),
        r matches Some(p) ==> (p as int) < todos@.len(),
{
    let m = positions.len();
    let mut k: usize = 0;
    proof {
        assert(positions@.skip(0) =~= positions@);
    }
    while k < m
        invariant
            m == positions@.len(),
            k <= m,
            forall|j: int| 0 <= j < positions@.len() ==> (#[trigger] positions@[j] as int)
                < todos@.len(),
            find_labeled(todos@, positions@, pick@) == find_labeled(
                todos@,
                positions@.skip(k as int),
                pick@,
            ),
        decreases m - k,
    {
        proof {
            assert(positions@.skip(k as int).first() == positions@[k as int]);
            assert(positions@.skip(k as int).drop_first() =~= positions@.skip(k + 1));
        }
        let p = positions[k];
        if todos[p].label.eq(pick) {
            return Some(p);
        }
        k = k + 1;
    }
    None
}

/// Removal deletes exactly one line for each selected line number: with a
/// selection of distinct numbers within the file, the line count drops by
/// the size of the selection, while checking and unchecking keep it.
pub proof fn lemma_remove_len_distinct(ls: Seq<Seq<char>>, sel: Seq<usize>)
    requires
        ls.len() <= usize::MAX,
        sel.no_duplicates(),
        forall|k: int| 0 <= k < sel.len() ==> (#[trigger] sel[k] as int) < ls.len(),
    ensures
        spec_remove(ls, sel).len() == ls.len() - sel.len(),
        spec_apply_mark(ls, sel, ' ', 'x').len() == ls.len(),
        spec_apply_mark(ls, sel, 'x', ' ').len() == ls.len(),
{
    lemma_remove_from_len(ls, sel, 0);
    lemma_count_distinct(sel, ls.len() as int);
}

} // verus!
