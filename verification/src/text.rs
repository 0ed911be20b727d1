use vstd::prelude::*;

verus! {

use vstd::std_specs::iter::IteratorSpec;

broadcast use vstd::string::group_string_axioms;

/// True for the characters with the Unicode `White_Space` property: the set
/// that the todo-line grammar treats as blank space.
pub open spec fn is_space_char(c: char) -> bool {
    c == ' ' || c == '\t' || c == '\n' || c == '\u{B}' || c == '\u{C}' || c == '\r'
        || c == '\u{85}' || c == '\u{A0}' || c == '\u{1680}'
        || (0x2000 <= c as u32 && c as u32 <= 0x200A)
        || c == '\u{2028}' || c == '\u{2029}' || c == '\u{202F}' || c == '\u{205F}'
        || c == '\u{3000}'
}

/// Decides `is_space_char`.
pub fn space_char(c: char) -> (r: bool)
    ensures
        r == is_space_char(c),
{
    c == ' ' || c == '\t' || c == '\n' || c == '\u{B}' || c == '\u{C}' || c == '\r'
        || c == '\u{85}' || c == '\u{A0}' || c == '\u{1680}'
        || (0x2000 <= c as u32 && c as u32 <= 0x200A)
        || c == '\u{2028}' || c == '\u{2029}' || c == '\u{202F}' || c == '\u{205F}'
        || c == '\u{3000}'
}

/// The characters of a string slice, as a vector.
pub fn chars_of(s: &str) -> (r: Vec<char>)
    ensures
        r@ == s@,
{
    let mut v: Vec<char> = Vec::new();
    let mut it = s.chars();
    loop
        invariant
            it.obeys_prophetic_iter_laws(),
            it.decrease() is Some,
            v@ + it.remaining() == s@,
        ensures
            v@ == s@,
        decreases it.decrease()->0,
    {
        match it.next() {
            Some(c) => { v.push(c); },
            None => {
                proof {
                    assert(v@ =~= s@);
                }
                break;
            },
        }
    }
    v
}

/// Appends one character to a string.
///
/// Relies on `String::push`, which appends the given character to the end of
/// the string.
#[verifier::external_body]
pub fn push_char(s: &mut String, c: char)
    ensures
        final(s)@ == old(s)@.push(c),
{
    s.push(c);
}

/// A string made of the given characters, in order.
pub fn string_of(chars: &Vec<char>) -> (r: String)
    ensures
        r@ == chars@,
{
    let mut s = String::new();
    let mut i: usize = 0;
    while i < chars.len()
        invariant
            i <= chars.len(),
            s@ == chars@.take(i as int),
        decreases chars.len() - i,
    {
        push_char(&mut s, chars[i]);
        i = i + 1;
        proof {
            assert(s@ =~= chars@.take(i as int));
        }
    }
    proof {
        assert(chars@.take(chars@.len() as int) =~= chars@);
    }
    s
}

/// The views of a sequence of strings.
pub open spec fn line_views(v: Seq<String>) -> Seq<Seq<char>> {
    v.map_values(|s: String| s@)
}

/// A string holding the given range of `v`.
pub fn string_from_range(v: &Vec<char>, lo: usize, hi: usize) -> (r: String)
    requires
        lo <= hi <= v@.len(),
    ensures
        r@ == v@.subrange(lo as int, hi as int),
{
    let mut s = String::new();
    let mut i: usize = lo;
    while i < hi
        invariant
            lo <= i <= hi <= v@.len(),
            s@ == v@.subrange(lo as int, i as int),
        decreases hi - i,
    {
        push_char(&mut s, v[i]);
        i = i + 1;
        proof {
            assert(s@ =~= v@.subrange(lo as int, i as int));
        }
    }
    s
}

/// `s` without its trailing whitespace.
pub open spec fn spec_trim_end(s: Seq<char>) -> Seq<char>
    decreases s.len(),
{
    if s.len() > 0 && is_space_char(s.last()) {
        spec_trim_end(s.drop_last())
    } else {
        s
    }
}

/// `s` without its leading whitespace.
pub open spec fn spec_trim_start(s: Seq<char>) -> Seq<char>
    decreases s.len(),
{
    if s.len() > 0 && is_space_char(s.first()) {
        spec_trim_start(s.drop_first())
    } else {
        s
    }
}

/// `s` without leading or trailing whitespace.
pub open spec fn spec_trim(s: Seq<char>) -> Seq<char> {
    spec_trim_start(spec_trim_end(s))
}

/// The trimmed range of `v@.subrange(lo, hi)`: the bounds that remain after
/// dropping whitespace from both ends.
pub fn trim_range(v: &Vec<char>, lo: usize, hi: usize) -> (r: (usize, usize))
    requires
        lo <= hi <= v@.len(),
    ensures
        lo <= r.0 <= r.1 <= hi,
        v@.subrange(r.0 as int, r.1 as int) == spec_trim(v@.subrange(lo as int, hi as int)),
{
    let mut hi2: usize = hi;
    while hi2 > lo && space_char(v[hi2 - 1])
        invariant
            lo <= hi2 <= hi <= v@.len(),
            spec_trim_end(v@.subrange(lo as int, hi2 as int)) == spec_trim_end(
                v@.subrange(lo as int, hi as int),
            ),
        decreases hi2 - lo,
    {
        proof {
            assert(v@.subrange(lo as int, hi2 as int).drop_last() =~= v@.subrange(
                lo as int,
                hi2 - 1,
            ));
        }
        hi2 = hi2 - 1;
    }
    proof {
        assert(spec_trim_end(v@.subrange(lo as int, hi2 as int)) == v@.subrange(
            lo as int,
            hi2 as int,
        ));
    }
    let mut lo2: usize = lo;
    while lo2 < hi2 && space_char(v[lo2])
        invariant
            lo <= lo2 <= hi2 <= v@.len(),
            spec_trim_start(v@.subrange(lo2 as int, hi2 as int)) == spec_trim_start(
                v@.subrange(lo as int, hi2 as int),
            ),
        decreases hi2 - lo2,
    {
        proof {
            assert(v@.subrange(lo2 as int, hi2 as int).drop_first() =~= v@.subrange(
                lo2 + 1,
                hi2 as int,
            ));
        }
        lo2 = lo2 + 1;
    }
    proof {
        assert(spec_trim_start(v@.subrange(lo2 as int, hi2 as int)) == v@.subrange(
            lo2 as int,
            hi2 as int,
        ));
    }
    (lo2, hi2)
}

/// `s` with one trailing carriage return removed, if it has one.
pub open spec fn strip_trailing_cr(s: Seq<char>) -> Seq<char> {
    if s.len() > 0 && s.last() == '\r' {
        s.drop_last()
    } else {
        s
    }
}

/// The lines of `s` when the characters of `cur` have already been read and
/// the lines of `acc` are already complete: a line ends at each newline, a
/// carriage return directly before a newline is dropped, and a last line is
/// kept only when it is not empty.
pub open spec fn lines_from(s: Seq<char>, cur: Seq<char>, acc: Seq<Seq<char>>) -> Seq<Seq<char>>
    decreases s.len(),
{
    if s.len() == 0 {
        if cur.len() == 0 {
            acc
        } else {
            acc.push(cur)
        }
    } else if s.first() == '\n' {
        lines_from(s.drop_first(), Seq::empty(), acc.push(strip_trailing_cr(cur)))
    } else {
        lines_from(s.drop_first(), cur.push(s.first()), acc)
    }
}

/// The lines of `s`, split at newlines, with a carriage return before each
/// newline dropped and without a trailing empty line.
pub open spec fn spec_lines(s: Seq<char>) -> Seq<Seq<char>> {
    lines_from(s, Seq::empty(), Seq::empty())
}

/// Splits a file's content into its lines, as `spec_lines` describes.
pub fn split_lines(content: &str) -> (r: Vec<String>)
    ensures
        line_views(r@) == spec_lines(content@),
{
    let cs = chars_of(content);
    let mut out: Vec<String> = Vec::new();
    let mut cur: Vec<char> = Vec::new();
    let mut i: usize = 0;
    proof {
        assert(cs@.skip(0) =~= cs@);
        assert(line_views(out@) =~= Seq::<Seq<char>>::empty());
    }
    while i < cs.len()
        invariant
            i <= cs@.len(),
            cs@ == content@,
            spec_lines(content@) == lines_from(cs@.skip(i as int), cur@, line_views(out@)),
        decreases cs.len() - i,
    {
        let c = cs[i];
        proof {
            assert(cs@.skip(i as int).first() == cs@[i as int]);
            assert(cs@.skip(i as int).drop_first() =~= cs@.skip(i + 1));
        }
        if c == '\n' {
            let mut line = cur;
            if line.len() > 0 && line[line.len() - 1] == '\r' {
                let ghost before = line@;
                line.pop();
                proof {
                    assert(line@ =~= strip_trailing_cr(before));
                }
            }
            let ghost old_out = out@;
            out.push(string_of(&line));
            cur = Vec::new();
            proof {
                assert(line_views(out@) =~= line_views(old_out).push(line@));
            }
        } else {
            cur.push(c);
        }
        i = i + 1;
    }
    if cur.len() > 0 {
        let ghost old_out = out@;
        let last = string_of(&cur);
        out.push(last);
        proof {
            assert(line_views(out@) =~= line_views(old_out).push(cur@));
        }
    }
    out
}

/// The lines joined with a newline between each pair.
pub open spec fn spec_join(ls: Seq<Seq<char>>) -> Seq<char>
    decreases ls.len(),
{
    if ls.len() == 0 {
        Seq::empty()
    } else if ls.len() == 1 {
        ls.first()
    } else {
        ls.first() + seq!['\n'] + spec_join(ls.drop_first())
    }
}

/// Appending one more line to a join adds a newline separator unless the join
/// was empty of lines.
pub proof fn lemma_join_push(ls: Seq<Seq<char>>, x: Seq<char>)
    ensures
        spec_join(ls.push(x)) == if ls.len() == 0 {
            x
        } else {
            spec_join(ls) + seq!['\n'] + x
        },
    decreases ls.len(),
{
    if ls.len() == 0 {
        assert(ls.push(x).len() == 1);
        assert(ls.push(x).first() == x);
    } else {
        assert(ls.push(x).drop_first() =~= ls.drop_first().push(x));
        lemma_join_push(ls.drop_first(), x);
        if ls.len() == 1 {
            assert(spec_join(ls) == ls.first());
        }
    }
}

/// Joins lines with single newlines, as `spec_join` describes.
pub fn join_lines(lines: &Vec<String>) -> (r: String)
    ensures
        r@ == spec_join(line_views(lines@)),
{
    let mut s = String::new();
    let mut i: usize = 0;
    while i < lines.len()
        invariant
            i <= lines@.len(),
            s@ == spec_join(line_views(lines@).take(i as int)),
        decreases lines.len() - i,
    {
        if i > 0 {
            push_char(&mut s, '\n');
        }
        s.append(lines[i].as_str());
        proof {
            let views = line_views(lines@);
            assert(views.take(i + 1) =~= views.take(i as int).push(views[i as int]));
            lemma_join_push(views.take(i as int), views[i as int]);
        }
        i = i + 1;
    }
    proof {
        assert(line_views(lines@).take(lines@.len() as int) =~= line_views(lines@));
    }
    s
}

/// A string that neither starts nor ends with whitespace trims to itself.
pub proof fn lemma_trim_noop(s: Seq<char>)
    requires
        s.len() > 0,
        !is_space_char(s.first()),
        !is_space_char(s.last()),
    ensures
        spec_trim(s) == s,
{
    assert(spec_trim_end(s) == s);
    assert(spec_trim_start(s) == s);
}

proof fn lemma_lines_from_extend(l: Seq<char>, rest: Seq<char>, cur: Seq<char>, acc: Seq<Seq<char>>)
    requires
        !l.contains('\n'),
    ensures
        lines_from(l + rest, cur, acc) == lines_from(rest, cur + l, acc),
    decreases l.len(),
{
    if l.len() == 0 {
        assert(l + rest =~= rest);
        assert(cur + l =~= cur);
    } else {
        assert(l[0] != '\n') by {
            if l[0] == '\n' {
                assert(l.contains('\n'));
            }
        }
        assert((l + rest).len() > 0);
        assert((l + rest).first() == l.first());
        assert((l + rest).drop_first() =~= l.drop_first() + rest);
        assert(!l.drop_first().contains('\n')) by {
            if l.drop_first().contains('\n') {
                let i = choose|i: int| 0 <= i < l.drop_first().len() && l.drop_first()[i] == '\n';
                assert(l[i + 1] == '\n');
                assert(l.contains('\n'));
            }
        }
        lemma_lines_from_extend(l.drop_first(), rest, cur.push(l.first()), acc);
        assert(cur.push(l.first()) + l.drop_first() =~= cur + l);
    }
}

proof fn lemma_lines_from_join(ls: Seq<Seq<char>>, acc: Seq<Seq<char>>)
    requires
        forall|i: int| 0 <= i < ls.len() ==> !(#[trigger] ls[i]).contains('\n'),
        forall|i: int|
            0 <= i < ls.len() - 1 ==> !((#[trigger] ls[i]).len() > 0 && ls[i].last() == '\r'),
        ls.len() > 0 ==> ls.last().len() > 0,
    ensures
        lines_from(spec_join(ls), Seq::empty(), acc) == acc + ls,
    decreases ls.len(),
{
    if ls.len() == 0 {
        assert(lines_from(Seq::empty(), Seq::empty(), acc) == acc);
        assert(acc + ls =~= acc);
    } else if ls.len() == 1 {
        lemma_lines_from_extend(ls.first(), Seq::empty(), Seq::empty(), acc);
        assert(ls.first() + Seq::empty() =~= ls.first());
        assert(Seq::empty() + ls.first() =~= ls.first());
        assert(lines_from(Seq::empty(), ls.first(), acc) == acc.push(ls.first()));
        assert(acc.push(ls.first()) =~= acc + ls);
    } else {
        let tail = seq!['\n'] + spec_join(ls.drop_first());
        assert(spec_join(ls) =~= ls.first() + tail);
        lemma_lines_from_extend(ls.first(), tail, Seq::empty(), acc);
        assert(Seq::empty() + ls.first() =~= ls.first());
        assert(tail.first() == '\n');
        assert(tail.drop_first() =~= spec_join(ls.drop_first()));
        assert(strip_trailing_cr(ls.first()) == ls.first());
        assert(lines_from(tail, ls.first(), acc) == lines_from(
            spec_join(ls.drop_first()),
            Seq::empty(),
            acc.push(ls.first()),
        ));
        assert(forall|i: int|
            0 <= i < ls.drop_first().len() ==> (#[trigger] ls.drop_first()[i]) == ls[i + 1]);
        lemma_lines_from_join(ls.drop_first(), acc.push(ls.first()));
        assert(acc.push(ls.first()) + ls.drop_first() =~= acc + ls);
    }
}

/// Joining lines and splitting the result gives the lines back, as long as
/// none holds a newline, none but the last ends with a carriage return, and
/// the last is not empty.
pub proof fn lemma_lines_of_join(ls: Seq<Seq<char>>)
    requires
        forall|i: int| 0 <= i < ls.len() ==> !(#[trigger] ls[i]).contains('\n'),
        forall|i: int|
            0 <= i < ls.len() - 1 ==> !((#[trigger] ls[i]).len() > 0 && ls[i].last() == '\r'),
        ls.len() > 0 ==> ls.last().len() > 0,
    ensures
        spec_lines(spec_join(ls)) == ls,
{
    lemma_lines_from_join(ls, Seq::empty());
    assert(Seq::empty() + ls =~= ls);
}

/// Removes the last character of a string, if it has one.
///
/// Relies on `String::pop`, which removes and returns the last character of
/// the string, or returns `None` when the string is empty.
#[verifier::external_body]
pub fn pop_char(s: &mut String) -> (r: Option<char>)
    ensures
        old(s)@.len() == 0 ==> r is None && final(s)@ == old(s)@,
        old(s)@.len() > 0 ==> r == Some(old(s)@.last()) && final(s)@ == old(s)@.drop_last(),
{
    s.pop()
}

/// `s` without its trailing whitespace, as a fresh string.
pub fn trim_end_str(s: &str) -> (r: String)
    ensures
        r@ == spec_trim_end(s@),
{
    let cs = chars_of(s);
    let mut hi: usize = cs.len();
    proof {
        assert(cs@.subrange(0, cs@.len() as int) =~= cs@);
    }
    while hi > 0 && space_char(cs[hi - 1])
        invariant
            hi <= cs@.len(),
            cs@ == s@,
            spec_trim_end(cs@.subrange(0, hi as int)) == spec_trim_end(cs@),
        decreases hi,
    {
        proof {
            assert(cs@.subrange(0, hi as int).drop_last() =~= cs@.subrange(0, hi - 1));
        }
        hi = hi - 1;
    }
    proof {
        assert(spec_trim_end(cs@.subrange(0, hi as int)) == cs@.subrange(0, hi as int));
    }
    string_from_range(&cs, 0, hi)
}

/// Decides whether `b` is a prefix of `a`.
pub fn starts_with_chars(a: &Vec<char>, b: &Vec<char>) -> (r: bool)
    ensures
        r == (a@.len() >= b@.len() && a@.take(b@.len() as int) == b@),
{
    if b.len() > a.len() {
        return false;
    }
    let mut i: usize = 0;
    while i < b.len()
        invariant
            i <= b@.len() <= a@.len(),
            forall|j: int| 0 <= j < i ==> a@[j] == b@[j],
        decreases b.len() - i,
    {
        if a[i] != b[i] {
            proof {
                assert(a@.take(b@.len() as int)[i as int] != b@[i as int]);
            }
            return false;
        }
        i = i + 1;
    }
    proof {
        assert(a@.take(b@.len() as int) =~= b@);
    }
    true
}

/// Whether `b` is a suffix of `a`.
pub open spec fn is_suffix_of(b: Seq<char>, a: Seq<char>) -> bool {
    b.len() <= a.len() && a.skip(a.len() - b.len()) == b
}

/// Decides `is_suffix_of` on character vectors.
pub fn ends_with_chars(a: &Vec<char>, b: &Vec<char>) -> (r: bool)
    ensures
        r == is_suffix_of(b@, a@),
{
    if b.len() > a.len() {
        proof {
            assert(!is_suffix_of(b@, a@));
        }
        return false;
    }
    let off = a.len() - b.len();
    let mut i: usize = 0;
    while i < b.len()
        invariant
            i <= b@.len() <= a@.len() <= usize::MAX,
            off == a@.len() - b@.len(),
            forall|j: int| 0 <= j < i ==> a@[off + j] == b@[j],
        decreases b.len() - i,
    {
        if a[off + i] != b[i] {
            proof {
                assert(a@.skip(off as int)[i as int] != b@[i as int]);
            }
            return false;
        }
        i = i + 1;
    }
    proof {
        assert(a@.skip(off as int) =~= b@);
    }
    true
}

} // verus!
