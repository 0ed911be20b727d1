use vstd::prelude::*;

verus! {

use crate::cli::CountSubcommand;
use crate::line::{StateFilter, line_matches, classify_line};
use crate::text::line_views;
use crate::todo_ops::passes_filter;

/// Which todos `count` counts.
#[derive(Debug, Clone, Copy, PartialEq, Eq, Structural)]
pub enum CountFilter {
    All,
    Checked,
    Unchecked,
}

/// The checkbox states a count filter stands for.
pub open spec fn count_state_filter(f: CountFilter) -> StateFilter {
    match f {
        CountFilter::All => StateFilter::Any,
        CountFilter::Checked => StateFilter::Checked,
        CountFilter::Unchecked => StateFilter::Unchecked,
    }
}

impl CountFilter {
    /// The filter a `count` subcommand names; none counts everything.
    pub fn from_sub(value: Option<CountSubcommand>) -> (r: CountFilter)
        ensures
            value == Some(CountSubcommand::Checked) ==> r is Checked,
            value == Some(CountSubcommand::Unchecked) ==> r is Unchecked,
            value is None ==> r is All,
    {
        match value {
            Some(CountSubcommand::Checked) => CountFilter::Checked,
            Some(CountSubcommand::Unchecked) => CountFilter::Unchecked,
            None => CountFilter::All,
        }
    }

    /// Decides `count_state_filter`.
    pub fn state_filter(&self) -> (r: StateFilter)
        ensures
            r == count_state_filter(*self),
    {
        match self {
            CountFilter::All => StateFilter::Any,
            CountFilter::Checked => StateFilter::Checked,
            CountFilter::Unchecked => StateFilter::Unchecked,
        }
    }
}

/// How many of the lines are todo items whose state passes the filter.
pub open spec fn spec_count(lines: Seq<Seq<char>>, filter: StateFilter) -> int {
    lines.filter(|l: Seq<char>| line_matches(filter, l)).len() as int
}

/// Counts the todo lines that pass the filter.
pub fn count_todos(lines: &Vec<String>, filter: CountFilter) -> (r: usize)
    ensures
        r == spec_count(line_views(lines@), count_state_filter(filter)),
        r <= lines@.len(),
{
    broadcast use vstd::seq_lib::group_filter_ensures;

    let sf = filter.state_filter();
    let ghost views = line_views(lines@);
    let ghost pred = |l: Seq<char>| line_matches(count_state_filter(filter), l);
    let n = lines.len();
    let mut c: usize = 0;
    let mut i: usize = 0;
    proof {
        assert(views.take(0) =~= Seq::<Seq<char>>::empty());
        assert(Seq::<Seq<char>>::empty().filter(pred) =~= Seq::<Seq<char>>::empty()) by {
            reveal(Seq::filter);
        }
    }
    while i < n
        invariant
            n == lines@.len(),
            views == line_views(lines@),
            pred == (|l: Seq<char>| line_matches(count_state_filter(filter), l)),
            sf == count_state_filter(filter),
            i <= n,
            c == views.take(i as int).filter(pred).len(),
            c <= i,
        decreases n - i,
    {
        proof {
            assert(views.take(i + 1) =~= views.take(i as int).push(views[i as int]));
            crate::todo_ops::lemma_filter_push(views.take(i as int), views[i as int], pred);
        }
        match classify_line(lines[i].as_str()) {
            Some((st, _label)) => {
                if passes_filter(sf, st) {
                    c = c + 1;
                }
            },
            None => {},
        }
        i = i + 1;
    }
    proof {
        assert(views.take(n as int) =~= views);
    }
    c
}

} // verus!
