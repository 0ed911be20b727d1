use vstd::prelude::*;

verus! {

use crate::text::{is_space_char, space_char, spec_trim, trim_range, chars_of, string_from_range};

/// The state of a todo line's checkbox marker.
#[derive(Clone, Copy, Debug, PartialEq, Eq, Structural)]
pub enum CheckState {
    Unchecked,
    Checked,
}

/// The bullet characters a todo line may start with.
pub open spec fn is_bullet(c: char) -> bool {
    c == '-' || c == '*' || c == '+'
}

/// The length of the longest whitespace prefix of `s`.
pub open spec fn ws_prefix_len(s: Seq<char>) -> int
    decreases s.len(),
{
    if s.len() > 0 && is_space_char(s.first()) {
        1 + ws_prefix_len(s.drop_first())
    } else {
        0
    }
}

/// The whitespace prefix never runs past the end of the line.
pub proof fn lemma_ws_prefix_len_bounds(s: Seq<char>)
    ensures
        0 <= ws_prefix_len(s) <= s.len(),
    decreases s.len(),
{
    if s.len() > 0 && is_space_char(s.first()) {
        lemma_ws_prefix_len_bounds(s.drop_first());
    }
}

/// The whitespace prefix is exactly the characters before the first
/// non-whitespace character.
pub proof fn lemma_ws_prefix_len_is(s: Seq<char>, i: int)
    requires
        0 <= i <= s.len(),
        forall|j: int| 0 <= j < i ==> is_space_char(s[j]),
        i == s.len() || !is_space_char(s[i]),
    ensures
        ws_prefix_len(s) == i,
    decreases s.len(),
{
    if i == 0 {
    } else {
        assert(is_space_char(s.first()));
        lemma_ws_prefix_len_is(s.drop_first(), i - 1);
    }
}

/// The whitespace prefix holds only whitespace and ends at the first other
/// character.
pub proof fn lemma_ws_prefix_chars(s: Seq<char>)
    ensures
        forall|j: int| 0 <= j < ws_prefix_len(s) ==> is_space_char(s[j]),
        ws_prefix_len(s) < s.len() ==> !is_space_char(s[ws_prefix_len(s)]),
    decreases s.len(),
{
    if s.len() > 0 && is_space_char(s.first()) {
        lemma_ws_prefix_chars(s.drop_first());
        lemma_ws_prefix_len_bounds(s.drop_first());
        assert forall|j: int| 0 <= j < ws_prefix_len(s) implies is_space_char(s[j]) by {
            if j > 0 {
                assert(s.drop_first()[j - 1] == s[j]);
            }
        }
        if ws_prefix_len(s) < s.len() {
            assert(s.drop_first()[ws_prefix_len(s.drop_first())] == s[ws_prefix_len(s)]);
        }
    }
}

/// Where a todo line's `[` would stand: after the longest whitespace prefix,
/// one optional bullet, and one optional plain space.
pub open spec fn checkbox_start(s: Seq<char>) -> int {
    let w = ws_prefix_len(s);
    let b = if w < s.len() && is_bullet(s[w]) {
        w + 1
    } else {
        w
    };
    if b < s.len() && s[b] == ' ' {
        b + 1
    } else {
        b
    }
}

/// Classifies one line of text against the todo-line grammar: optional
/// leading whitespace, an optional bullet (`-`, `*` or `+`), an optional
/// single space, a checkbox (`[ ]` or `[x]`), and at least one further
/// character. Lines of any other shape are no todo items.
pub open spec fn spec_classify(s: Seq<char>) -> Option<CheckState> {
    let k = checkbox_start(s);
    if k + 3 < s.len() && s[k] == '[' && (s[k + 1] == ' ' || s[k + 1] == 'x') && s[k + 2] == ']' {
        if s[k + 1] == 'x' {
            Some(CheckState::Checked)
        } else {
            Some(CheckState::Unchecked)
        }
    } else {
        None
    }
}

/// The label of a todo line: the text after its checkbox, trimmed.
pub open spec fn spec_label(s: Seq<char>) -> Seq<char> {
    spec_trim(s.skip(checkbox_start(s) + 3))
}

/// The position of the first non-whitespace character of `v`.
pub fn ws_prefix(v: &Vec<char>) -> (r: usize)
    ensures
        r == ws_prefix_len(v@),
{
    let mut i: usize = 0;
    while i < v.len() && space_char(v[i])
        invariant
            i <= v@.len(),
            forall|j: int| 0 <= j < i ==> is_space_char(v@[j]),
        decreases v.len() - i,
    {
        i = i + 1;
    }
    proof {
        lemma_ws_prefix_len_is(v@, i as int);
    }
    i
}

/// Classifies a line and, when it is a todo item, returns its checkbox state
/// and trimmed label.
pub fn classify_line(line: &str) -> (r: Option<(CheckState, String)>)
    ensures
        r is Some <==> spec_classify(line@) is Some,
        r matches Some(p) ==> Some(p.0) == spec_classify(line@) && p.1@ == spec_label(line@),
{
    let cs = chars_of(line);
    let w = ws_prefix(&cs);
    proof {
        lemma_ws_prefix_len_bounds(cs@);
    }
    let b = if w < cs.len() && (cs[w] == '-' || cs[w] == '*' || cs[w] == '+') {
        w + 1
    } else {
        w
    };
    let k = if b < cs.len() && cs[b] == ' ' {
        b + 1
    } else {
        b
    };
    proof {
        assert(k == checkbox_start(line@));
    }
    if k < cs.len() && cs.len() - k > 3 && cs[k] == '[' && (cs[k + 1] == ' ' || cs[k + 1] == 'x')
        && cs[k + 2] == ']' {
        let state = if cs[k + 1] == 'x' {
            CheckState::Checked
        } else {
            CheckState::Unchecked
        };
        let (lo, hi) = trim_range(&cs, k + 3, cs.len());
        let label = string_from_range(&cs, lo, hi);
        proof {
            assert(cs@.subrange(k + 3, cs@.len() as int) =~= cs@.skip(k + 3));
        }
        Some((state, label))
    } else {
        None
    }
}

/// Which checkbox states an operation works on.
#[derive(Clone, Copy, Debug, PartialEq, Eq, Structural)]
pub enum StateFilter {
    Unchecked,
    Checked,
    Any,
}

/// Whether a checkbox state passes the filter.
pub open spec fn state_matches(filter: StateFilter, st: CheckState) -> bool {
    match filter {
        StateFilter::Unchecked => st is Unchecked,
        StateFilter::Checked => st is Checked,
        StateFilter::Any => true,
    }
}

/// Whether a line is a todo item whose state passes the filter.
pub open spec fn line_matches(filter: StateFilter, s: Seq<char>) -> bool {
    match spec_classify(s) {
        Some(st) => state_matches(filter, st),
        None => false,
    }
}

/// Whether a checkbox with `mid` as its middle character stands at `i`.
pub open spec fn marker_at(s: Seq<char>, mid: char, i: int) -> bool {
    i + 3 <= s.len() && s[i] == '[' && s[i + 1] == mid && s[i + 2] == ']'
}

/// The first position at or after `i` where a checkbox with middle character
/// `mid` stands, if any.
pub open spec fn find_marker_from(s: Seq<char>, mid: char, i: int) -> Option<int>
    decreases s.len() - i,
{
    if i < 0 || i + 3 > s.len() {
        None
    } else if marker_at(s, mid, i) {
        Some(i)
    } else {
        find_marker_from(s, mid, i + 1)
    }
}

/// A line with the middle character of its first `[`mid`]` checkbox replaced
/// by `to`; the line itself when it has no such checkbox.
pub open spec fn spec_flip_marker(s: Seq<char>, mid: char, to: char) -> Seq<char> {
    match find_marker_from(s, mid, 0) {
        Some(i) => s.update(i + 1, to),
        None => s,
    }
}

/// Replaces the middle character of the first `[`mid`]` checkbox of `line`
/// with `to`, leaving every other character unchanged.
pub fn flip_first_marker(line: &str, mid: char, to: char) -> (r: String)
    ensures
        r@ == spec_flip_marker(line@, mid, to),
{
    let mut cs = chars_of(line);
    let n = cs.len();
    if n >= 3 {
        let mut i: usize = 0;
        while i <= n - 3
            invariant
                cs@ == line@,
                n == cs@.len(),
                3 <= n,
                i <= n - 2,
                find_marker_from(line@, mid, 0) == find_marker_from(line@, mid, i as int),
            decreases n - i,
        {
            if cs[i] == '[' && cs[i + 1] == mid && cs[i + 2] == ']' {
                cs.set(i + 1, to);
                proof {
                    assert(find_marker_from(line@, mid, i as int) == Some(i as int));
                }
                return crate::text::string_of(&cs);
            }
            i = i + 1;
        }
        proof {
            assert(find_marker_from(line@, mid, i as int) is None);
        }
    }
    crate::text::string_of(&cs)
}

} // verus!
