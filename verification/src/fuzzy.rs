use vstd::prelude::*;

use fuzzy_matcher::FuzzyMatcher;

verus! {

/// Whether `p` holds an ASCII capital letter. The skim matcher's smart-case
/// rule compares exactly when the pattern does, case-insensitively otherwise.
pub open spec fn has_ascii_upper(p: Seq<char>) -> bool {
    exists|i: int| 0 <= i < p.len() && 0x41 <= (#[trigger] p[i]) as u32 <= 0x5A
}

/// Whether `a` and `b` are the same character up to ASCII case.
pub open spec fn chars_eq_nocase(a: char, b: char) -> bool {
    ||| a == b
    ||| (0x41 <= a as u32 <= 0x5A && a as u32 + 0x20 == b as u32)
    ||| (0x41 <= b as u32 <= 0x5A && b as u32 + 0x20 == a as u32)
}

/// The skim matcher's character comparison: exact, or up to ASCII case.
pub open spec fn chars_match(c: char, p: char, exact: bool) -> bool {
    if exact {
        c == p
    } else {
        chars_eq_nocase(c, p)
    }
}

/// Whether `pattern` can be read out of `choice` in order, character by
/// character, under `chars_match`. The greedy reading below finds an
/// embedding exactly when one exists, and is the test the skim matcher runs
/// before it scores.
pub open spec fn is_fuzzy_subsequence(choice: Seq<char>, pattern: Seq<char>, exact: bool) -> bool
    decreases choice.len(),
{
    if pattern.len() == 0 {
        true
    } else if choice.len() == 0 {
        false
    } else if chars_match(choice.first(), pattern.first(), exact) {
        is_fuzzy_subsequence(choice.drop_first(), pattern.drop_first(), exact)
    } else {
        is_fuzzy_subsequence(choice.drop_first(), pattern, exact)
    }
}

/// The score `SkimMatcherV2::fuzzy_match` gives `pattern` against `choice`,
/// with the matcher's default settings: a function of the two strings alone.
pub uninterp spec fn fuzzy_score(choice: Seq<char>, pattern: Seq<char>) -> int;

/// The score `SkimMatcherV2::fuzzy_indices` reports for `pattern` against
/// `choice`, with the matcher's default settings: a function of the two
/// strings alone. It is scored over the full matrix where `fuzzy_match`
/// works on a compressed one, so the two scores get separate names.
pub uninterp spec fn fuzzy_indices_score(choice: Seq<char>, pattern: Seq<char>) -> int;

/// The character positions of `choice` that the skim matcher reports as the
/// matched ones for `pattern`, with the matcher's default settings: a
/// function of the two strings alone.
pub uninterp spec fn fuzzy_positions(choice: Seq<char>, pattern: Seq<char>) -> Seq<usize>;

/// Relies on `SkimMatcherV2::fuzzy_match` of the fuzzy-matcher crate, with
/// the default settings: it returns a score exactly when the pattern is a
/// character subsequence of the choice — compared exactly when the pattern
/// holds an ASCII capital, up to ASCII case otherwise — and an empty pattern
/// scores 0 against every choice.
#[verifier::external_body]
pub fn fuzzy_match(choice: &str, pattern: &str) -> (r: Option<i64>)
    ensures
        r is Some <==> is_fuzzy_subsequence(choice@, pattern@, has_ascii_upper(pattern@)),
        r matches Some(s) ==> s as int == fuzzy_score(choice@, pattern@),
        pattern@.len() == 0 ==> r == Some(0i64),
{
    fuzzy_matcher::skim::SkimMatcherV2::default().fuzzy_match(choice, pattern)
}

/// Relies on `SkimMatcherV2::fuzzy_indices` of the fuzzy-matcher crate, with
/// the default settings: it succeeds on exactly the same inputs as
/// `fuzzy_match` — both gate on the same subsequence test — and reports the
/// matched character positions, strictly increasing and all within the
/// choice; an empty pattern yields score 0 and no positions.
#[verifier::external_body]
pub fn fuzzy_indices(choice: &str, pattern: &str) -> (r: Option<(i64, Vec<usize>)>)
    ensures
        r is Some <==> is_fuzzy_subsequence(choice@, pattern@, has_ascii_upper(pattern@)),
        r matches Some(p) ==> p.0 as int == fuzzy_indices_score(choice@, pattern@),
        r matches Some(p) ==> p.1@ == fuzzy_positions(choice@, pattern@),
        r matches Some(p) ==> (forall|a: int, b: int| 0 <= a < b < p.1@.len() ==> p.1@[a] < p.1@[b]),
        r matches Some(p) ==> (forall|a: int| 0 <= a < p.1@.len() ==> (p.1@[a] as int) < choice@.len()),
        r is Some && pattern@.len() == 0 ==> r.unwrap().0 == 0 && r.unwrap().1@.len() == 0,
{
    fuzzy_matcher::skim::SkimMatcherV2::default().fuzzy_indices(choice, pattern)
}

} // verus!
