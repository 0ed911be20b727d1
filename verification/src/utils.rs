use vstd::prelude::*;

verus! {

use vstd::string::StringExecFns;

use crate::config::Config;
use crate::text::{chars_of, push_char, string_from_range};
use crate::todo_ops::contains_index;

/// The todo store under the home directory.
pub fn get_todo_path(home: &str) -> (r: String)
    ensures
        r@ == home@ + "/.todo/todos"@,
{
    let mut s = home.to_owned();
    s.append("/.todo/todos");
    s
}

/// The config file under the home directory.
pub fn get_config_path(home: &str) -> (r: String)
    ensures
        r@ == home@ + "/.todo/config.toml"@,
{
    let mut s = home.to_owned();
    s.append("/.todo/config.toml");
    s
}

/// The working directory's path relative to the home directory: empty for
/// the home directory itself, and the working directory unchanged when it
/// does not lie under the home directory.
pub open spec fn spec_strip_home(home: Seq<char>, cwd: Seq<char>) -> Seq<char> {
    if cwd == home {
        Seq::empty()
    } else if cwd.len() > home.len() && cwd.take(home.len() as int) == home && cwd[home.len() as int]
        == '/' {
        cwd.skip(home.len() as int + 1)
    } else {
        cwd
    }
}

/// `s` without its leading path separators.
pub open spec fn drop_leading_slashes(s: Seq<char>) -> Seq<char>
    decreases s.len(),
{
    if s.len() > 0 && s.first() == '/' {
        drop_leading_slashes(s.drop_first())
    } else {
        s
    }
}

/// Where a relative path lands under a base directory: the base alone for an
/// empty tail, else the two with a separator, the tail's own leading
/// separators dropped so that the result always stays under the base.
pub open spec fn spec_join_under(base: Seq<char>, tail: Seq<char>) -> Seq<char> {
    let t = drop_leading_slashes(tail);
    if t.len() == 0 {
        base
    } else {
        base + seq!['/'] + t
    }
}

/// The directory of the working directory's todo file: its path relative to
/// home, placed under the todo store. A working directory outside the home
/// keeps its whole path, so every todo directory lies under the store root.
pub fn get_cwd_todo_dir(home: &str, cwd: &str) -> (r: String)
    ensures
        r@ == spec_join_under(home@ + "/.todo/todos"@, spec_strip_home(home@, cwd@)),
{
    let todo_path = get_todo_path(home);
    let hc = chars_of(home);
    let cc = chars_of(cwd);
    let stripped: String = if hc.len() == cc.len() && crate::text::starts_with_chars(&cc, &hc) {
        proof {
            assert(cc@.take(hc@.len() as int) =~= cc@);
            assert(cwd@ == home@);
        }
        String::new()
    } else if cc.len() > hc.len() && crate::text::starts_with_chars(&cc, &hc) && cc[hc.len()]
        == '/' {
        proof {
            assert(cc@.subrange(hc@.len() as int + 1, cc@.len() as int) =~= cwd@.skip(
                hc@.len() as int + 1,
            ));
        }
        string_from_range(&cc, hc.len() + 1, cc.len())
    } else {
        proof {
            if cwd@ == home@ {
                assert(cc@.take(hc@.len() as int) =~= cc@);
            }
        }
        cwd.to_owned()
    };
    proof {
        assert(stripped@ == spec_strip_home(home@, cwd@));
    }
    let sc = chars_of(stripped.as_str());
    let mut lo: usize = 0;
    proof {
        assert(stripped@.skip(0) =~= stripped@);
    }
    while lo < sc.len() && sc[lo] == '/'
        invariant
            lo <= sc@.len(),
            sc@ == stripped@,
            drop_leading_slashes(stripped@) == drop_leading_slashes(stripped@.skip(lo as int)),
        decreases sc.len() - lo,
    {
        proof {
            assert(stripped@.skip(lo as int).drop_first() =~= stripped@.skip(lo + 1));
        }
        lo = lo + 1;
    }
    proof {
        assert(drop_leading_slashes(stripped@.skip(lo as int)) == stripped@.skip(lo as int));
    }
    if lo == sc.len() {
        proof {
            assert(stripped@.skip(lo as int).len() == 0);
        }
        todo_path
    } else {
        let mut s = todo_path;
        push_char(&mut s, '/');
        let tail = string_from_range(&sc, lo, sc.len());
        s.append(tail.as_str());
        proof {
            assert(sc@.subrange(lo as int, sc@.len() as int) =~= stripped@.skip(lo as int));
            assert(s@ =~= (home@ + "/.todo/todos"@) + seq!['/'] + stripped@.skip(lo as int));
        }
        s
    }
}

/// The working directory's todo file: the configured name and extension
/// under the directory's todo dir.
pub fn get_todo_file_path(cwd_todo_dir: &str, config: &Config) -> (r: String)
    ensures
        r@ == cwd_todo_dir@ + seq!['/'] + config.filename@ + config.extension@,
{
    let mut s = cwd_todo_dir.to_owned();
    push_char(&mut s, '/');
    s.append(config.filename.as_str());
    s.append(config.extension.as_str());
    proof {
        assert(s@ =~= cwd_todo_dir@ + seq!['/'] + config.filename@ + config.extension@);
    }
    s
}

/// The file name that every todo file carries under a config: the
/// configured name and extension.
pub fn todo_file_name(config: &Config) -> (r: String)
    ensures
        r@ == config.filename@ + config.extension@,
{
    let mut s = config.filename.clone();
    s.append(config.extension.as_str());
    s
}

/// The environment variable an editor setting names, when it uses the
/// `$NAME` convention; a plain command names none.
pub fn editor_var_name(editor: &str) -> (r: Option<String>)
    ensures
        editor@.len() > 0 && editor@.first() == '$' ==> (r matches Some(v) && v@ == editor@.skip(
            1,
        )),
        !(editor@.len() > 0 && editor@.first() == '$') ==> r is None,
{
    let cs = chars_of(editor);
    if cs.len() > 0 && cs[0] == '$' {
        Some(string_from_range(&cs, 1, cs.len()))
    } else {
        None
    }
}

/// The characters that start emphasis on a terminal.
pub open spec fn emphasis_on() -> Seq<char> {
    seq!['\u{1b}', '[', '1', 'm']
}

/// The characters that end emphasis on a terminal.
pub open spec fn emphasis_off() -> Seq<char> {
    seq!['\u{1b}', '[', '0', 'm']
}

/// The characters of `s` from position `i` on, with every character whose
/// position stands in `idx` wrapped in terminal emphasis.
pub open spec fn spec_highlight_from(s: Seq<char>, idx: Seq<usize>, i: int) -> Seq<char>
    decreases s.len() - i,
{
    if i < 0 || i >= s.len() {
        Seq::empty()
    } else {
        let here = if idx.contains(i as usize) {
            emphasis_on() + seq![s[i]] + emphasis_off()
        } else {
            seq![s[i]]
        };
        here + spec_highlight_from(s, idx, i + 1)
    }
}

/// `s` with the characters at the given positions emphasized.
pub open spec fn spec_highlight(s: Seq<char>, idx: Seq<usize>) -> Seq<char> {
    spec_highlight_from(s, idx, 0)
}

/// Renders a line with the characters at the given positions wrapped in
/// terminal emphasis, for match highlighting.
pub fn highlight_indices(line: &str, indices: &Vec<usize>) -> (r: String)
    ensures
        r@ == spec_highlight(line@, indices@),
{
    let cs = chars_of(line);
    let mut out = String::new();
    let n = cs.len();
    let mut i: usize = 0;
    while i < n
        invariant
            n == cs@.len(),
            cs@ == line@,
            i <= n,
            spec_highlight(line@, indices@) == out@ + spec_highlight_from(line@, indices@, i as int),
        decreases n - i,
    {
        let ghost out0 = out@;
        if contains_index(indices, i) {
            out.append("\u{1b}[1m");
            push_char(&mut out, cs[i]);
            out.append("\u{1b}[0m");
            proof {
                reveal_strlit("\u{1b}[1m");
                reveal_strlit("\u{1b}[0m");
                assert(out@ =~= out0 + (emphasis_on() + seq![line@[i as int]] + emphasis_off()));
            }
        } else {
            push_char(&mut out, cs[i]);
            proof {
                assert(out@ =~= out0 + seq![line@[i as int]]);
            }
        }
        proof {
            assert(out0 + spec_highlight_from(line@, indices@, i as int) =~= out@
                + spec_highlight_from(line@, indices@, i + 1));
        }
        i = i + 1;
    }
    proof {
        assert(spec_highlight_from(line@, indices@, n as int) =~= Seq::<char>::empty());
        assert(out@ + Seq::<char>::empty() =~= out@);
    }
    out
}

} // verus!
