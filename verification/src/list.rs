use vstd::prelude::*;

verus! {

use crate::cli::{ListArgs, ListSubcommand};
use crate::line::{StateFilter, line_matches, classify_line};
use crate::text::{line_views, spec_trim_end, trim_end_str};
use crate::todo_ops::passes_filter;

/// How `list` shows the file.
#[derive(Debug, Clone, Copy, PartialEq, Eq, Structural)]
pub enum ListMode {
    Raw,
    All,
    Checked,
    Unchecked,
}

/// The checkbox states a non-raw list mode shows.
pub open spec fn list_state_filter(m: ListMode) -> StateFilter {
    match m {
        ListMode::Checked => StateFilter::Checked,
        ListMode::Unchecked => StateFilter::Unchecked,
        _ => StateFilter::Any,
    }
}

impl ListMode {
    /// Returns `true` if the list mode is [`Raw`].
    ///
    /// [`Raw`]: ListMode::Raw
    #[must_use]
    pub fn is_raw(&self) -> (r: bool)
        ensures
            r == (*self is Raw),
    {
        matches!(self, ListMode::Raw)
    }

    /// The mode the `list` arguments name. Raw excludes the filters.
    pub fn from_args(value: ListArgs) -> (r: ListMode)
        requires
            !(value.raw && value.filter is Some),
        ensures
            value.raw ==> r is Raw,
            !value.raw && value.filter == Some(ListSubcommand::Checked) ==> r is Checked,
            !value.raw && value.filter == Some(ListSubcommand::Unchecked) ==> r is Unchecked,
            !value.raw && value.filter is None ==> r is All,
    {
        if value.raw {
            return ListMode::Raw;
        }
        match value.filter {
            Some(ListSubcommand::Checked) => ListMode::Checked,
            Some(ListSubcommand::Unchecked) => ListMode::Unchecked,
            None => ListMode::All,
        }
    }

    /// Decides `list_state_filter`.
    pub fn state_filter(&self) -> (r: StateFilter)
        ensures
            r == list_state_filter(*self),
    {
        match self {
            ListMode::Checked => StateFilter::Checked,
            ListMode::Unchecked => StateFilter::Unchecked,
            _ => StateFilter::Any,
        }
    }
}

/// The todo lines that a non-raw mode shows: every line whose state passes
/// the mode's filter, without trailing whitespace, in file order.
pub fn list_lines(lines: &Vec<String>, mode: ListMode) -> (r: Vec<String>)
    requires
        !(mode is Raw),
    ensures
        r@.len() == line_views(lines@).filter(
            |l: Seq<char>| line_matches(list_state_filter(mode), l),
        ).len(),
        forall|t: int|
            0 <= t < r@.len() ==> (#[trigger] r@[t])@ == spec_trim_end(
                line_views(lines@).filter(|l: Seq<char>| line_matches(list_state_filter(mode), l))[t],
            ),
{
    broadcast use vstd::seq_lib::group_filter_ensures;

    let sf = mode.state_filter();
    let ghost views = line_views(lines@);
    let ghost pred = |l: Seq<char>| line_matches(list_state_filter(mode), l);
    let n = lines.len();
    let mut r: Vec<String> = Vec::new();
    let mut i: usize = 0;
    proof {
        assert(views.take(0) =~= Seq::<Seq<char>>::empty());
        assert(Seq::<Seq<char>>::empty().filter(pred) =~= Seq::<Seq<char>>::empty()) by {
            reveal(Seq::filter);
        }
    }
    while i < n
        invariant
            n == lines@.len(),
            views == line_views(lines@),
            pred == (|l: Seq<char>| line_matches(list_state_filter(mode), l)),
            sf == list_state_filter(mode),
            i <= n,
            r@.len() == views.take(i as int).filter(pred).len(),
            forall|t: int|
                0 <= t < r@.len() ==> (#[trigger] r@[t])@ == spec_trim_end(
                    views.take(i as int).filter(pred)[t],
                ),
        decreases n - i,
    {
        proof {
            assert(views.take(i + 1) =~= views.take(i as int).push(views[i as int]));
            crate::todo_ops::lemma_filter_push(views.take(i as int), views[i as int], pred);
        }
        match classify_line(lines[i].as_str()) {
            Some((st, _label)) => {
                if passes_filter(sf, st) {
                    r.push(trim_end_str(lines[i].as_str()));
                }
            },
            None => {},
        }
        i = i + 1;
    }
    proof {
        assert(views.take(n as int) =~= views);
    }
    r
}

} // verus!
