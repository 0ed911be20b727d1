use vstd::prelude::*;

verus! {

use vstd::string::StringExecFns;

use crate::text::{line_views, push_char, spec_join, join_lines};

/// The keys a config file may set, each optional.
pub struct RawConfig {
    pub filename: Option<String>,
    pub extension: Option<String>,
    pub editor: Option<String>,
    pub flags: Option<Vec<String>>,
}

/// The settings of the tool: the todo files' name and extension, the editor
/// command (a `$NAME` form names an environment variable), and the editor's
/// extra flags.
pub struct Config {
    pub filename: String,
    pub extension: String,
    pub editor: String,
    pub flags: Vec<String>,
}

/// The default todo file name.
pub open spec fn default_filename() -> Seq<char> {
    "todo"@
}

/// The default todo file extension.
pub open spec fn default_extension() -> Seq<char> {
    ".md"@
}

/// The default editor setting: the `EDITOR` environment variable.
pub open spec fn default_editor() -> Seq<char> {
    "$EDITOR"@
}

/// Whether `c` holds exactly the default settings.
pub open spec fn is_default_config(c: Config) -> bool {
    &&& c.filename@ == default_filename()
    &&& c.extension@ == default_extension()
    &&& c.editor@ == default_editor()
    &&& c.flags@.len() == 0
}

impl Default for Config {
    /// The defaults: `todo`, `.md`, `$EDITOR`, and no flags.
    fn default() -> (r: Config)
        ensures
            is_default_config(r),
    {
        Config {
            filename: String::from_str("todo"),
            extension: String::from_str(".md"),
            editor: String::from_str("$EDITOR"),
            flags: Vec::new(),
        }
    }
}

impl Default for RawConfig {
    /// Every key set to its default.
    fn default() -> (r: RawConfig)
        ensures
            r.filename matches Some(s) && s@ == default_filename(),
            r.extension matches Some(s) && s@ == default_extension(),
            r.editor matches Some(s) && s@ == default_editor(),
            r.flags matches Some(v) && v@.len() == 0,
    {
        RawConfig {
            filename: Some(String::from_str("todo")),
            extension: Some(String::from_str(".md")),
            editor: Some(String::from_str("$EDITOR")),
            flags: Some(Vec::new()),
        }
    }
}

impl Config {
    /// A config from the keys a file set, with the default for each absent
    /// key.
    pub fn from_raw(raw: RawConfig) -> (r: Config)
        ensures
            raw.filename matches Some(s) ==> r.filename == s,
            raw.filename is None ==> r.filename@ == default_filename(),
            raw.extension matches Some(s) ==> r.extension == s,
            raw.extension is None ==> r.extension@ == default_extension(),
            raw.editor matches Some(s) ==> r.editor == s,
            raw.editor is None ==> r.editor@ == default_editor(),
            raw.flags matches Some(v) ==> r.flags == v,
            raw.flags is None ==> r.flags@.len() == 0,
    {
        let filename = match raw.filename {
            Some(s) => s,
            None => String::from_str("todo"),
        };
        let extension = match raw.extension {
            Some(s) => s,
            None => String::from_str(".md"),
        };
        let editor = match raw.editor {
            Some(s) => s,
            None => String::from_str("$EDITOR"),
        };
        let flags = match raw.flags {
            Some(v) => v,
            None => Vec::new(),
        };
        Config { filename, extension, editor, flags }
    }

    /// Whether the two configs hold the same settings, field for field; the
    /// wizard writes nothing when they do.
    pub fn same_as(&self, other: &Config) -> (r: bool)
        ensures
            r == (self.filename@ == other.filename@ && self.extension@ == other.extension@
                && self.editor@ == other.editor@ && line_views(self.flags@) == line_views(
                other.flags@,
            )),
    {
        if !(self.filename.eq(&other.filename) && self.extension.eq(&other.extension)
            && self.editor.eq(&other.editor)) {
            return false;
        }
        if self.flags.len() != other.flags.len() {
            proof {
                assert(line_views(self.flags@).len() != line_views(other.flags@).len());
            }
            return false;
        }
        let n = self.flags.len();
        let mut i: usize = 0;
        while i < n
            invariant
                n == self.flags@.len() == other.flags@.len(),
                i <= n,
                forall|j: int| 0 <= j < i ==> (#[trigger] self.flags@[j])@ == other.flags@[j]@,
            decreases n - i,
        {
            if !self.flags[i].eq(&other.flags[i]) {
                proof {
                    assert(line_views(self.flags@)[i as int] != line_views(other.flags@)[i as int]);
                }
                return false;
            }
            i = i + 1;
        }
        proof {
            assert(line_views(self.flags@) =~= line_views(other.flags@));
        }
        true
    }

    /// Whether the two configs name the todo files differently, so that a
    /// rename pass over the store is due.
    pub fn names_changed(old_c: &Config, new_c: &Config) -> (r: bool)
        ensures
            r == (old_c.filename@ != new_c.filename@ || old_c.extension@ != new_c.extension@),
    {
        !old_c.filename.eq(&new_c.filename) || !old_c.extension.eq(&new_c.extension)
    }
}

/// How one character is written inside a quoted value: quotes and
/// backslashes behind a backslash, newlines, carriage returns and tabs as
/// `\n`, `\r` and `\t`, everything else as itself.
pub open spec fn spec_escape_char(c: char) -> Seq<char> {
    if c == '"' || c == '\\' {
        seq!['\\', c]
    } else if c == '\n' {
        seq!['\\', 'n']
    } else if c == '\r' {
        seq!['\\', 'r']
    } else if c == '\t' {
        seq!['\\', 't']
    } else {
        seq![c]
    }
}

/// `v` with every character written as `spec_escape_char` says.
pub open spec fn spec_escape(v: Seq<char>) -> Seq<char>
    decreases v.len(),
{
    if v.len() == 0 {
        Seq::empty()
    } else {
        spec_escape_char(v.first()) + spec_escape(v.drop_first())
    }
}

/// `v` escaped, between quotes.
pub open spec fn spec_quote(v: Seq<char>) -> Seq<char> {
    seq!['"'] + spec_escape(v) + seq!['"']
}

/// The quoted items, separated by comma and space.
pub open spec fn spec_flags_body(fl: Seq<Seq<char>>) -> Seq<char>
    decreases fl.len(),
{
    if fl.len() == 0 {
        Seq::empty()
    } else if fl.len() == 1 {
        spec_quote(fl.first())
    } else {
        spec_quote(fl.first()) + seq![',', ' '] + spec_flags_body(fl.drop_first())
    }
}

/// The flags as one bracketed list.
pub open spec fn spec_flags_text(fl: Seq<Seq<char>>) -> Seq<char> {
    seq!['['] + spec_flags_body(fl) + seq![']']
}

/// The lines of the config file for the given settings, one `key = value`
/// line per key, in a fixed order.
pub open spec fn spec_config_out_lines(
    f: Seq<char>,
    e: Seq<char>,
    ed: Seq<char>,
    fl: Seq<Seq<char>>,
) -> Seq<Seq<char>> {
    seq![
        "filename = "@ + spec_quote(f),
        "extension = "@ + spec_quote(e),
        "editor = "@ + spec_quote(ed),
        "flags = "@ + spec_flags_text(fl),
    ]
}

/// The whole config file text for the given settings.
pub open spec fn spec_config_toml(
    f: Seq<char>,
    e: Seq<char>,
    ed: Seq<char>,
    fl: Seq<Seq<char>>,
) -> Seq<char> {
    spec_join(spec_config_out_lines(f, e, ed, fl))
}

/// Escaping one more character appends its escape.
pub proof fn lemma_escape_push(s: Seq<char>, c: char)
    ensures
        spec_escape(s.push(c)) == spec_escape(s) + spec_escape_char(c),
    decreases s.len(),
{
    let esc = spec_escape_char(c);
    if s.len() == 0 {
        assert(s.push(c).drop_first() =~= Seq::<char>::empty());
        assert(s.push(c).first() == c);
        assert(spec_escape(Seq::<char>::empty()) == Seq::<char>::empty());
        assert(spec_escape(s.push(c)) == esc + Seq::<char>::empty());
        assert(esc + Seq::<char>::empty() =~= esc);
        assert(spec_escape(s) + esc =~= esc);
    } else {
        assert(s.push(c).drop_first() =~= s.drop_first().push(c));
        lemma_escape_push(s.drop_first(), c);
        assert(spec_escape(s.push(c)) =~= spec_escape(s) + esc);
    }
}

/// Appends `spec_escape(v@)` to `out`.
fn escape_into(out: &mut String, v: &str)
    ensures
        final(out)@ == old(out)@ + spec_escape(v@),
{
    let cs = crate::text::chars_of(v);
    let n = cs.len();
    let mut i: usize = 0;
    proof {
        assert(old(out)@ + spec_escape(cs@.take(0)) =~= old(out)@);
    }
    while i < n
        invariant
            n == cs@.len(),
            cs@ == v@,
            i <= n,
            out@ == old(out)@ + spec_escape(cs@.take(i as int)),
        decreases n - i,
    {
        let c = cs[i];
        if c == '"' || c == '\\' {
            push_char(out, '\\');
            push_char(out, c);
        } else if c == '\n' {
            push_char(out, '\\');
            push_char(out, 'n');
        } else if c == '\r' {
            push_char(out, '\\');
            push_char(out, 'r');
        } else if c == '\t' {
            push_char(out, '\\');
            push_char(out, 't');
        } else {
            push_char(out, c);
        }
        proof {
            assert(cs@.take(i + 1) =~= cs@.take(i as int).push(cs@[i as int]));
            lemma_escape_push(cs@.take(i as int), cs@[i as int]);
            assert(out@ =~= old(out)@ + spec_escape(cs@.take(i + 1)));
        }
        i = i + 1;
    }
    proof {
        assert(cs@.take(n as int) =~= cs@);
    }
}

/// Appends `spec_quote(v@)` to `out`.
fn quote_into(out: &mut String, v: &str)
    ensures
        final(out)@ == old(out)@ + spec_quote(v@),
{
    push_char(out, '"');
    escape_into(out, v);
    push_char(out, '"');
    proof {
        assert(out@ =~= old(out)@ + spec_quote(v@));
    }
}

/// One more item extends the list body with a separator unless it is the
/// first.
pub proof fn lemma_flags_body_push(fl: Seq<Seq<char>>, x: Seq<char>)
    ensures
        spec_flags_body(fl.push(x)) == if fl.len() == 0 {
            spec_quote(x)
        } else {
            spec_flags_body(fl) + seq![',', ' '] + spec_quote(x)
        },
    decreases fl.len(),
{
    if fl.len() == 0 {
        assert(fl.push(x).len() == 1);
        assert(fl.push(x).first() == x);
    } else {
        assert(fl.push(x).drop_first() =~= fl.drop_first().push(x));
        lemma_flags_body_push(fl.drop_first(), x);
        if fl.len() == 1 {
            assert(spec_flags_body(fl) == spec_quote(fl.first()));
            assert(spec_flags_body(fl.push(x)) =~= spec_flags_body(fl) + seq![',', ' ']
                + spec_quote(x));
        } else {
            assert(spec_flags_body(fl.push(x)) =~= spec_flags_body(fl) + seq![',', ' ']
                + spec_quote(x));
        }
    }
}

/// The flags as a bracketed list of quoted items.
fn flags_text(flags: &Vec<String>) -> (r: String)
    ensures
        r@ == spec_flags_text(line_views(flags@)),
{
    let mut out = String::new();
    push_char(&mut out, '[');
    let n = flags.len();
    let mut i: usize = 0;
    proof {
        assert(line_views(flags@).take(0) =~= Seq::<Seq<char>>::empty());
        assert(out@ =~= seq!['['] + spec_flags_body(line_views(flags@).take(0)));
    }
    while i < n
        invariant
            n == flags@.len(),
            i <= n,
            out@ == seq!['['] + spec_flags_body(line_views(flags@).take(i as int)),
        decreases n - i,
    {
        if i > 0 {
            push_char(&mut out, ',');
            push_char(&mut out, ' ');
        }
        let ghost before = out@;
        quote_into(&mut out, flags[i].as_str());
        proof {
            let views = line_views(flags@);
            assert(views.take(i + 1) =~= views.take(i as int).push(views[i as int]));
            lemma_flags_body_push(views.take(i as int), views[i as int]);
            assert(out@ =~= seq!['['] + spec_flags_body(views.take(i + 1)));
        }
        i = i + 1;
    }
    push_char(&mut out, ']');
    proof {
        assert(line_views(flags@).take(n as int) =~= line_views(flags@));
        assert(out@ =~= spec_flags_text(line_views(flags@)));
    }
    out
}

/// Writes a config out as its file text: one `key = value` line per key,
/// values quoted and escaped, flags as a bracketed list.
pub fn config_to_toml(c: &Config) -> (r: String)
    ensures
        r@ == spec_config_toml(c.filename@, c.extension@, c.editor@, line_views(c.flags@)),
{
    let mut l0 = String::from_str("filename = ");
    quote_into(&mut l0, c.filename.as_str());
    let mut l1 = String::from_str("extension = ");
    quote_into(&mut l1, c.extension.as_str());
    let mut l2 = String::from_str("editor = ");
    quote_into(&mut l2, c.editor.as_str());
    let mut l3 = String::from_str("flags = ");
    let ft = flags_text(&c.flags);
    l3.append(ft.as_str());
    let mut lines: Vec<String> = Vec::new();
    lines.push(l0);
    lines.push(l1);
    lines.push(l2);
    lines.push(l3);
    proof {
        assert(line_views(lines@) =~= spec_config_out_lines(
            c.filename@,
            c.extension@,
            c.editor@,
            line_views(c.flags@),
        ));
    }
    join_lines(&lines)
}

/// The length of the run of spaces and tabs at position `i` of `t`.
pub open spec fn ws_run(t: Seq<char>, i: int) -> int
    decreases t.len() - i,
{
    if 0 <= i < t.len() && (t[i] == ' ' || t[i] == '\t') {
        1 + ws_run(t, i + 1)
    } else {
        0
    }
}

/// The run of spaces and tabs at `i` covers exactly the blank positions up
/// to the first other character.
pub proof fn lemma_ws_run_is(t: Seq<char>, i: int, k: int)
    requires
        0 <= i,
        0 <= k,
        i + k <= t.len(),
        forall|j: int| i <= j < i + k ==> t[j] == ' ' || t[j] == '\t',
        i + k == t.len() || !(t[i + k] == ' ' || t[i + k] == '\t'),
    ensures
        ws_run(t, i) == k,
    decreases k,
{
    if k > 0 {
        lemma_ws_run_is(t, i + 1, k - 1);
    }
}

/// The value text of a `key = value` line: the trimmed line must start with
/// exactly the given key, then an equals sign between optional spaces or
/// tabs, and the rest is the value.
pub open spec fn entry_val(t: Seq<char>, key: Seq<char>) -> Option<Seq<char>> {
    if t.len() >= key.len() && t.take(key.len() as int) == key {
        let a = key.len() + ws_run(t, key.len() as int);
        if a < t.len() && t[a] == '=' {
            Some(t.skip(a + 1 + ws_run(t, a + 1)))
        } else {
            None
        }
    } else {
        None
    }
}

/// The escape codes a quoted value may use after a backslash.
pub open spec fn is_escape_code(c: char) -> bool {
    c == '"' || c == '\\' || c == 'n' || c == 'r' || c == 't'
}

/// The character an escape code stands for.
pub open spec fn spec_unescape_code(c: char) -> char {
    if c == 'n' {
        '\n'
    } else if c == 'r' {
        '\r'
    } else if c == 't' {
        '\t'
    } else {
        c
    }
}

/// Reads a quoted string from the front of `cs`, starting after the opening
/// quote: the unescaped content up to the first unescaped closing quote, and
/// what follows it. Only the `\"`, `\\`, `\n`, `\r` and `\t` escapes
/// are understood; an unfinished string or an unknown escape reads as
/// nothing.
pub open spec fn spec_unescape(cs: Seq<char>) -> Option<(Seq<char>, Seq<char>)>
    decreases cs.len(),
{
    if cs.len() == 0 {
        None
    } else if cs.first() == '"' {
        Some((Seq::empty(), cs.drop_first()))
    } else if cs.first() == '\\' {
        if cs.len() >= 2 && is_escape_code(cs[1]) {
            match spec_unescape(cs.skip(2)) {
                Some(p) => Some((seq![spec_unescape_code(cs[1])] + p.0, p.1)),
                None => None,
            }
        } else {
            None
        }
    } else {
        match spec_unescape(cs.drop_first()) {
            Some(p) => Some((seq![cs.first()] + p.0, p.1)),
            None => None,
        }
    }
}

/// A whole value that is one quoted string.
pub open spec fn spec_string_value(cs: Seq<char>) -> Option<Seq<char>> {
    if cs.len() >= 1 && cs.first() == '"' {
        match spec_unescape(cs.drop_first()) {
            Some(p) => if p.1.len() == 0 {
                Some(p.0)
            } else {
                None
            },
            None => None,
        }
    } else {
        None
    }
}

/// Reading a quoted string consumes at least the closing quote.
pub proof fn lemma_unescape_shrinks(cs: Seq<char>)
    ensures
        spec_unescape(cs) matches Some(p) ==> p.1.len() < cs.len(),
    decreases cs.len(),
{
    if cs.len() == 0 {
    } else if cs.first() == '"' {
    } else if cs.first() == '\\' {
        if cs.len() >= 2 && is_escape_code(cs[1]) {
            lemma_unescape_shrinks(cs.skip(2));
        }
    } else {
        lemma_unescape_shrinks(cs.drop_first());
    }
}

/// One or more quoted strings, separated by comma and space, filling `cs`
/// exactly.
pub open spec fn spec_items(cs: Seq<char>) -> Option<Seq<Seq<char>>>
    decreases cs.len(),
    via spec_items_decreases
{
    if cs.len() == 0 || cs.first() != '"' {
        None
    } else {
        match spec_unescape(cs.drop_first()) {
            Some(p) => if p.1.len() == 0 {
                Some(seq![p.0])
            } else if p.1.len() >= 2 && p.1[0] == ',' && p.1[1] == ' ' {
                match spec_items(p.1.skip(2)) {
                    Some(vs) => Some(seq![p.0] + vs),
                    None => None,
                }
            } else {
                None
            },
            None => None,
        }
    }
}

#[via_fn]
proof fn spec_items_decreases(cs: Seq<char>) {
    if cs.len() > 0 && cs.first() == '"' {
        lemma_unescape_shrinks(cs.drop_first());
    }
}

/// A whole value that is a bracketed list of quoted strings.
pub open spec fn spec_array_value(cs: Seq<char>) -> Option<Seq<Seq<char>>> {
    if cs.len() >= 2 && cs.first() == '[' && cs.last() == ']' {
        let body = cs.subrange(1, cs.len() - 1);
        if body.len() == 0 {
            Some(Seq::empty())
        } else {
            spec_items(body)
        }
    } else {
        None
    }
}

/// Reads the config keys out of the lines from position `i` on, with the
/// values read so far: blank lines and `#` comments are skipped, each known
/// key may be set once, to a quoted string — a quoted list for `flags` —
/// and any other line spoils the whole file.
pub open spec fn spec_parse_lines(
    lines: Seq<Seq<char>>,
    i: int,
    f: Option<Seq<char>>,
    e: Option<Seq<char>>,
    ed: Option<Seq<char>>,
    fl: Option<Seq<Seq<char>>>,
) -> Option<(Option<Seq<char>>, Option<Seq<char>>, Option<Seq<char>>, Option<Seq<Seq<char>>>)>
    decreases lines.len() - i,
{
    if i < 0 || i >= lines.len() {
        Some((f, e, ed, fl))
    } else {
        let t = crate::text::spec_trim(lines[i]);
        if t.len() == 0 || t.first() == '#' {
            spec_parse_lines(lines, i + 1, f, e, ed, fl)
        } else if entry_val(t, "filename"@) is Some {
            match spec_string_value(entry_val(t, "filename"@).unwrap()) {
                Some(v) => if f is Some {
                    None
                } else {
                    spec_parse_lines(lines, i + 1, Some(v), e, ed, fl)
                },
                None => None,
            }
        } else if entry_val(t, "extension"@) is Some {
            match spec_string_value(entry_val(t, "extension"@).unwrap()) {
                Some(v) => if e is Some {
                    None
                } else {
                    spec_parse_lines(lines, i + 1, f, Some(v), ed, fl)
                },
                None => None,
            }
        } else if entry_val(t, "editor"@) is Some {
            match spec_string_value(entry_val(t, "editor"@).unwrap()) {
                Some(v) => if ed is Some {
                    None
                } else {
                    spec_parse_lines(lines, i + 1, f, e, Some(v), fl)
                },
                None => None,
            }
        } else if entry_val(t, "flags"@) is Some {
            match spec_array_value(entry_val(t, "flags"@).unwrap()) {
                Some(vs) => if fl is Some {
                    None
                } else {
                    spec_parse_lines(lines, i + 1, f, e, ed, Some(vs))
                },
                None => None,
            }
        } else {
            None
        }
    }
}

/// The keys a config file text sets, if it is well-formed.
pub open spec fn spec_parse_config(content: Seq<char>) -> Option<
    (Option<Seq<char>>, Option<Seq<char>>, Option<Seq<char>>, Option<Seq<Seq<char>>>),
> {
    spec_parse_lines(crate::text::spec_lines(content), 0, None, None, None, None)
}

/// Whether `cs@.subrange(lo, lo + pat.len())` spells out `pat`.
fn range_eq(cs: &Vec<char>, lo: usize, pat: &Vec<char>) -> (r: bool)
    requires
        lo + pat@.len() <= cs@.len(),
    ensures
        r == (cs@.subrange(lo as int, lo + pat@.len()) == pat@),
{
    let m = pat.len();
    let n = cs.len();
    let mut k: usize = 0;
    while k < m
        invariant
            m == pat@.len(),
            n == cs@.len(),
            lo + m <= cs@.len(),
            k <= m,
            forall|j: int| 0 <= j < k ==> cs@[lo + j] == pat@[j],
        decreases m - k,
    {
        if cs[lo + k] != pat[k] {
            proof {
                assert(cs@.subrange(lo as int, lo + pat@.len())[k as int] != pat@[k as int]);
            }
            return false;
        }
        k = k + 1;
    }
    proof {
        assert(cs@.subrange(lo as int, lo + pat@.len()) =~= pat@);
    }
    true
}

/// Finds the value start of a `key = value` entry in the trimmed range
/// `[lo, hi)`, as `entry_val` describes.
fn try_entry(cs: &Vec<char>, lo: usize, hi: usize, key: &Vec<char>) -> (r: Option<usize>)
    requires
        lo <= hi <= cs@.len(),
    ensures
        r matches Some(vs) ==> lo <= vs <= hi && entry_val(cs@.subrange(lo as int, hi as int), key@)
            == Some(cs@.subrange(vs as int, hi as int)),
        r is None ==> entry_val(cs@.subrange(lo as int, hi as int), key@) is None,
{
    let ghost t = cs@.subrange(lo as int, hi as int);
    let m = key.len();
    if hi - lo < m {
        return None;
    }
    if !range_eq(cs, lo, key) {
        proof {
            assert(t.take(m as int) =~= cs@.subrange(lo as int, lo + m));
        }
        return None;
    }
    proof {
        assert(t.take(m as int) =~= cs@.subrange(lo as int, lo + m));
    }
    let mut a: usize = lo + m;
    while a < hi && (cs[a] == ' ' || cs[a] == '\t')
        invariant
            lo + m <= a <= hi <= cs@.len(),
            t == cs@.subrange(lo as int, hi as int),
            forall|j: int| lo + m <= j < a ==> cs@[j] == ' ' || cs@[j] == '\t',
        decreases hi - a,
    {
        a = a + 1;
    }
    proof {
        assert(forall|j: int| m <= j < a - lo ==> t[j] == cs@[j + lo]);
        assert(a - lo == t.len() || t[a - lo] == cs@[a as int]);
        lemma_ws_run_is(t, m as int, a - lo - m);
    }
    if a == hi || cs[a] != '=' {
        return None;
    }
    let mut b: usize = a + 1;
    while b < hi && (cs[b] == ' ' || cs[b] == '\t')
        invariant
            a + 1 <= b <= hi <= cs@.len(),
            lo <= a < hi,
            t == cs@.subrange(lo as int, hi as int),
            forall|j: int| a + 1 <= j < b ==> cs@[j] == ' ' || cs@[j] == '\t',
        decreases hi - b,
    {
        b = b + 1;
    }
    proof {
        assert(forall|j: int| a + 1 - lo <= j < b - lo ==> t[j] == cs@[j + lo]);
        assert(b - lo == t.len() || t[b - lo] == cs@[b as int]);
        lemma_ws_run_is(t, a + 1 - lo, b - a - 1);
        assert(t.skip(b - lo) =~= cs@.subrange(b as int, hi as int));
    }
    Some(b)
}

/// Reads a quoted string's content from `start` up to its closing quote
/// within `[start, hi)`, as `spec_unescape` describes; the returned position
/// stands just after the closing quote.
fn unescape_range(cs: &Vec<char>, start: usize, hi: usize) -> (r: Option<(String, usize)>)
    requires
        start <= hi <= cs@.len(),
    ensures
        r matches Some(p) ==> start <= p.1 <= hi && spec_unescape(
            cs@.subrange(start as int, hi as int),
        ) == Some((p.0@, cs@.subrange(p.1 as int, hi as int))),
        r is None ==> spec_unescape(cs@.subrange(start as int, hi as int)) is None,
{
    let mut acc = String::new();
    let mut i: usize = start;
    while i < hi
        invariant
            start <= i <= hi <= cs@.len(),
            ({
                match spec_unescape(cs@.subrange(i as int, hi as int)) {
                    Some(p) => spec_unescape(cs@.subrange(start as int, hi as int)) == Some(
                        (acc@ + p.0, p.1),
                    ),
                    None => spec_unescape(cs@.subrange(start as int, hi as int)) is None,
                }
            }),
        decreases hi - i,
    {
        let ghost sub = cs@.subrange(i as int, hi as int);
        proof {
            assert(sub.first() == cs@[i as int]);
            assert(sub.drop_first() =~= cs@.subrange(i + 1, hi as int));
        }
        let c = cs[i];
        if c == '"' {
            proof {
                assert(spec_unescape(sub) == Some(
                    (Seq::<char>::empty(), cs@.subrange(i + 1, hi as int)),
                ));
                assert(acc@ + Seq::<char>::empty() =~= acc@);
            }
            return Some((acc, i + 1));
        }
        if c == '\\' {
            if i + 1 < hi && (cs[i + 1] == '"' || cs[i + 1] == '\\' || cs[i + 1] == 'n' || cs[i
                + 1] == 'r' || cs[i + 1] == 't') {
                proof {
                    assert(sub.len() >= 2 && sub[1] == cs@[i + 1]);
                    assert(sub.skip(2) =~= cs@.subrange(i + 2, hi as int));
                }
                let decoded = if cs[i + 1] == 'n' {
                    '\n'
                } else if cs[i + 1] == 'r' {
                    '\r'
                } else if cs[i + 1] == 't' {
                    '\t'
                } else {
                    cs[i + 1]
                };
                let ghost acc0 = acc@;
                push_char(&mut acc, decoded);
                proof {
                    assert(decoded == spec_unescape_code(cs@[i + 1]));
                    assert(forall|x: Seq<char>|
                        acc0 + (seq![spec_unescape_code(cs@[i + 1])] + x) =~= (#[trigger] (acc@
                            + x)));
                }
                i = i + 2;
            } else {
                proof {
                    assert(sub.len() >= 2 ==> sub[1] == cs@[i + 1]);
                    assert(spec_unescape(sub) is None);
                }
                return None;
            }
        } else {
            let ghost acc0 = acc@;
            push_char(&mut acc, c);
            proof {
                assert(forall|x: Seq<char>| acc0 + (seq![cs@[i as int]] + x) =~= (#[trigger] (acc@
                    + x)));
            }
            i = i + 1;
        }
    }
    proof {
        assert(cs@.subrange(i as int, hi as int).len() == 0);
    }
    None
}

/// Reads a whole quoted-string value, as `spec_string_value` describes.
fn parse_string_value(cs: &Vec<char>, vs: usize, hi: usize) -> (r: Option<String>)
    requires
        vs <= hi <= cs@.len(),
    ensures
        r matches Some(s) ==> spec_string_value(cs@.subrange(vs as int, hi as int)) == Some(s@),
        r is None ==> spec_string_value(cs@.subrange(vs as int, hi as int)) is None,
{
    let ghost sub = cs@.subrange(vs as int, hi as int);
    if vs < hi && cs[vs] == '"' {
        proof {
            assert(sub.first() == cs@[vs as int]);
            assert(sub.drop_first() =~= cs@.subrange(vs + 1, hi as int));
        }
        match unescape_range(cs, vs + 1, hi) {
            Some((s, j)) => {
                if j == hi {
                    proof {
                        assert(cs@.subrange(j as int, hi as int).len() == 0);
                    }
                    Some(s)
                } else {
                    proof {
                        assert(cs@.subrange(j as int, hi as int).len() > 0);
                    }
                    None
                }
            },
            None => None,
        }
    } else {
        None
    }
}

/// Reads a whole bracketed-list value, as `spec_array_value` describes.
fn parse_array_value(cs: &Vec<char>, vs: usize, hi: usize) -> (r: Option<Vec<String>>)
    requires
        vs <= hi <= cs@.len(),
    ensures
        r matches Some(v) ==> spec_array_value(cs@.subrange(vs as int, hi as int)) == Some(
            line_views(v@),
        ),
        r is None ==> spec_array_value(cs@.subrange(vs as int, hi as int)) is None,
{
    let ghost sub = cs@.subrange(vs as int, hi as int);
    if hi - vs >= 2 && cs[vs] == '[' && cs[hi - 1] == ']' {
        let blo = vs + 1;
        let bhi = hi - 1;
        proof {
            assert(sub.first() == cs@[vs as int]);
            assert(sub.last() == cs@[hi - 1]);
            assert(sub.subrange(1, sub.len() - 1) =~= cs@.subrange(blo as int, bhi as int));
        }
        if blo == bhi {
            let empty_flags: Vec<String> = Vec::new();
            proof {
                assert(line_views(empty_flags@) =~= Seq::<Seq<char>>::empty());
            }
            return Some(empty_flags);
        }
        let mut out: Vec<String> = Vec::new();
        let mut k: usize = blo;
        proof {
            assert(line_views(out@) =~= Seq::<Seq<char>>::empty());
        }
        while k < bhi
            invariant
                blo <= k < bhi < cs@.len(),
                bhi == hi - 1,
                blo == vs + 1,
                vs <= hi <= cs@.len(),
                sub == cs@.subrange(vs as int, hi as int),
                sub.len() >= 2 && sub.first() == '[' && sub.last() == ']',
                sub.subrange(1, sub.len() - 1) == cs@.subrange(blo as int, bhi as int),
                ({
                    match spec_items(cs@.subrange(k as int, bhi as int)) {
                        Some(vs2) => spec_items(cs@.subrange(blo as int, bhi as int)) == Some(
                            line_views(out@) + vs2,
                        ),
                        None => spec_items(cs@.subrange(blo as int, bhi as int)) is None,
                    }
                }),
            decreases bhi - k,
        {
            let ghost seg = cs@.subrange(k as int, bhi as int);
            proof {
                assert(seg.first() == cs@[k as int]);
                assert(seg.drop_first() =~= cs@.subrange(k + 1, bhi as int));
            }
            if cs[k] != '"' {
                return None;
            }
            match unescape_range(cs, k + 1, bhi) {
                None => {
                    return None;
                },
                Some((s, j)) => {
                    proof {
                        lemma_unescape_shrinks(cs@.subrange(k + 1, bhi as int));
                    }
                    let ghost out0 = out@;
                    let ghost sv = s@;
                    out.push(s);
                    proof {
                        assert(line_views(out@) =~= line_views(out0).push(sv));
                    }
                    if j == bhi {
                        proof {
                            assert(cs@.subrange(j as int, bhi as int).len() == 0);
                            assert(spec_items(seg) == Some(seq![sv]));
                            assert(line_views(out0) + seq![sv] =~= line_views(out@));
                        }
                        return Some(out);
                    }
                    proof {
                        assert(cs@.subrange(j as int, bhi as int).len() > 0);
                        assert(cs@.subrange(j as int, bhi as int)[0] == cs@[j as int]);
                        assert(cs@.subrange(j as int, bhi as int).len() >= 2 ==> cs@.subrange(
                            j as int,
                            bhi as int,
                        )[1] == cs@[j + 1]);
                    }
                    if j + 2 <= bhi && cs[j] == ',' && cs[j + 1] == ' ' {
                        proof {
                            assert(cs@.subrange(j as int, bhi as int).skip(2) =~= cs@.subrange(
                                j + 2,
                                bhi as int,
                            ));
                            assert forall|ws: Seq<Seq<char>>|
                                line_views(out0) + (seq![sv] + ws) =~= (#[trigger] (line_views(out@)
                                    + ws)) by {}
                        }
                        if j + 2 == bhi {
                            proof {
                                assert(cs@.subrange(j + 2, bhi as int).len() == 0);
                                assert(spec_items(cs@.subrange(j + 2, bhi as int)) is None);
                                assert(spec_items(seg) is None);
                            }
                            return None;
                        }
                        k = j + 2;
                    } else {
                        return None;
                    }
                },
            }
        }
        proof {
            assert(false);
        }
        None
    } else {
        None
    }
}

/// What one config line holds.
pub enum LineEntry {
    Blank,
    Filename(String),
    Extension(String),
    Editor(String),
    Flags(Vec<String>),
    Bad,
}

/// Whether a trimmed line is blank or a comment.
pub open spec fn line_blank(t: Seq<char>) -> bool {
    t.len() == 0 || t.first() == '#'
}

/// Whether `r` reads line `l` exactly as `spec_parse_lines` would: the keys
/// are tried in a fixed order, and a line that sets no known key to a
/// well-formed value is bad.
pub open spec fn line_entry_ok(r: LineEntry, l: Seq<char>) -> bool {
    let t = crate::text::spec_trim(l);
    match r {
        LineEntry::Blank => line_blank(t),
        LineEntry::Filename(s) => !line_blank(t) && entry_val(t, "filename"@) is Some
            && spec_string_value(entry_val(t, "filename"@).unwrap()) == Some(s@),
        LineEntry::Extension(s) => !line_blank(t) && entry_val(t, "filename"@) is None && entry_val(
            t,
            "extension"@,
        ) is Some && spec_string_value(entry_val(t, "extension"@).unwrap()) == Some(s@),
        LineEntry::Editor(s) => !line_blank(t) && entry_val(t, "filename"@) is None && entry_val(
            t,
            "extension"@,
        ) is None && entry_val(t, "editor"@) is Some && spec_string_value(
            entry_val(t, "editor"@).unwrap(),
        ) == Some(s@),
        LineEntry::Flags(v) => !line_blank(t) && entry_val(t, "filename"@) is None && entry_val(
            t,
            "extension"@,
        ) is None && entry_val(t, "editor"@) is None && entry_val(t, "flags"@) is Some
            && spec_array_value(entry_val(t, "flags"@).unwrap()) == Some(line_views(v@)),
        LineEntry::Bad => !line_blank(t) && ({
            ||| (entry_val(t, "filename"@) is Some && spec_string_value(
                entry_val(t, "filename"@).unwrap(),
            ) is None)
            ||| (entry_val(t, "filename"@) is None && entry_val(t, "extension"@) is Some
                && spec_string_value(entry_val(t, "extension"@).unwrap()) is None)
            ||| (entry_val(t, "filename"@) is None && entry_val(t, "extension"@) is None
                && entry_val(t, "editor"@) is Some && spec_string_value(
                entry_val(t, "editor"@).unwrap(),
            ) is None)
            ||| (entry_val(t, "filename"@) is None && entry_val(t, "extension"@) is None
                && entry_val(t, "editor"@) is None && entry_val(t, "flags"@) is Some
                && spec_array_value(entry_val(t, "flags"@).unwrap()) is None)
            ||| (entry_val(t, "filename"@) is None && entry_val(t, "extension"@) is None
                && entry_val(t, "editor"@) is None && entry_val(t, "flags"@) is None)
        }),
    }
}

/// Reads one line of a config file.
fn parse_config_line(line: &String) -> (r: LineEntry)
    ensures
        line_entry_ok(r, line@),
{
    let cs = crate::text::chars_of(line.as_str());
    let n = cs.len();
    let (lo, hi) = crate::text::trim_range(&cs, 0, n);
    proof {
        assert(cs@.subrange(0, cs@.len() as int) =~= cs@);
        assert(cs@.subrange(lo as int, hi as int) == crate::text::spec_trim(line@));
    }
    let ghost t = crate::text::spec_trim(line@);
    if lo == hi {
        return LineEntry::Blank;
    }
    if cs[lo] == '#' {
        proof {
            assert(t.first() == cs@[lo as int]);
        }
        return LineEntry::Blank;
    }
    proof {
        assert(t.first() == cs@[lo as int]);
        assert(!line_blank(t));
    }
    let key_f = crate::text::chars_of("filename");
    match try_entry(&cs, lo, hi, &key_f) {
        Some(vs) => {
            return match parse_string_value(&cs, vs, hi) {
                Some(s) => LineEntry::Filename(s),
                None => LineEntry::Bad,
            };
        },
        None => {},
    }
    let key_e = crate::text::chars_of("extension");
    match try_entry(&cs, lo, hi, &key_e) {
        Some(vs) => {
            return match parse_string_value(&cs, vs, hi) {
                Some(s) => LineEntry::Extension(s),
                None => LineEntry::Bad,
            };
        },
        None => {},
    }
    let key_ed = crate::text::chars_of("editor");
    match try_entry(&cs, lo, hi, &key_ed) {
        Some(vs) => {
            return match parse_string_value(&cs, vs, hi) {
                Some(s) => LineEntry::Editor(s),
                None => LineEntry::Bad,
            };
        },
        None => {},
    }
    let key_fl = crate::text::chars_of("flags");
    match try_entry(&cs, lo, hi, &key_fl) {
        Some(vs) => {
            return match parse_array_value(&cs, vs, hi) {
                Some(v) => LineEntry::Flags(v),
                None => LineEntry::Bad,
            };
        },
        None => {},
    }
    LineEntry::Bad
}

/// The view of an optional string.
pub open spec fn opt_view(o: Option<String>) -> Option<Seq<char>> {
    match o {
        Some(s) => Some(s@),
        None => None,
    }
}

/// The views of an optional list of strings.
pub open spec fn opt_views(o: Option<Vec<String>>) -> Option<Seq<Seq<char>>> {
    match o {
        Some(v) => Some(line_views(v@)),
        None => None,
    }
}

/// Whether the exec raw config carries exactly the parsed values.
pub open spec fn raw_matches(
    rc: RawConfig,
    t: (Option<Seq<char>>, Option<Seq<char>>, Option<Seq<char>>, Option<Seq<Seq<char>>>),
) -> bool {
    &&& (rc.filename is Some <==> t.0 is Some)
    &&& (rc.filename matches Some(s) ==> s@ == t.0.unwrap())
    &&& (rc.extension is Some <==> t.1 is Some)
    &&& (rc.extension matches Some(s) ==> s@ == t.1.unwrap())
    &&& (rc.editor is Some <==> t.2 is Some)
    &&& (rc.editor matches Some(s) ==> s@ == t.2.unwrap())
    &&& (rc.flags is Some <==> t.3 is Some)
    &&& (rc.flags matches Some(v) ==> line_views(v@) == t.3.unwrap())
}

/// Reads a config file's text: the values of the four known keys, each set
/// at most once, with blank and comment lines skipped; any other content
/// spoils the file, as `spec_parse_config` describes.
pub fn parse_config(content: &str) -> (r: Option<RawConfig>)
    ensures
        r is Some <==> spec_parse_config(content@) is Some,
        r matches Some(rc) ==> raw_matches(rc, spec_parse_config(content@).unwrap()),
{
    let lines = crate::text::split_lines(content);
    let ghost lv = crate::text::spec_lines(content@);
    let mut f: Option<String> = None;
    let mut e: Option<String> = None;
    let mut ed: Option<String> = None;
    let mut fl: Option<Vec<String>> = None;
    let n = lines.len();
    let mut i: usize = 0;
    while i < n
        invariant
            n == lines@.len(),
            lv == line_views(lines@),
            i <= n,
            spec_parse_config(content@) == spec_parse_lines(
                lv,
                i as int,
                opt_view(f),
                opt_view(e),
                opt_view(ed),
                opt_views(fl),
            ),
        decreases n - i,
    {
        let entry = parse_config_line(&lines[i]);
        proof {
            assert(lv[i as int] == lines@[i as int]@);
        }
        match entry {
            LineEntry::Blank => {},
            LineEntry::Filename(s) => {
                if f.is_some() {
                    return None;
                }
                f = Some(s);
            },
            LineEntry::Extension(s) => {
                if e.is_some() {
                    return None;
                }
                e = Some(s);
            },
            LineEntry::Editor(s) => {
                if ed.is_some() {
                    return None;
                }
                ed = Some(s);
            },
            LineEntry::Flags(v) => {
                if fl.is_some() {
                    return None;
                }
                fl = Some(v);
            },
            LineEntry::Bad => {
                return None;
            },
        }
        i = i + 1;
    }
    Some(RawConfig { filename: f, extension: e, editor: ed, flags: fl })
}

/// A config read out of a file's text: the values it sets, the default for
/// every key it does not, and all defaults when the text is not well-formed.
pub fn config_from_str(content: &str) -> (r: Config)
    ensures
        spec_parse_config(content@) matches Some(t) ==> {
            &&& (t.0 matches Some(v) ==> r.filename@ == v)
            &&& (t.0 is None ==> r.filename@ == default_filename())
            &&& (t.1 matches Some(v) ==> r.extension@ == v)
            &&& (t.1 is None ==> r.extension@ == default_extension())
            &&& (t.2 matches Some(v) ==> r.editor@ == v)
            &&& (t.2 is None ==> r.editor@ == default_editor())
            &&& (t.3 matches Some(v) ==> line_views(r.flags@) == v)
            &&& (t.3 is None ==> r.flags@.len() == 0)
        },
        spec_parse_config(content@) is None ==> is_default_config(r),
{
    match parse_config(content) {
        Some(rc) => {
            let r = Config::from_raw(rc);
            proof {
                if spec_parse_config(content@).unwrap().3 is None {
                    assert(line_views(r.flags@) =~= Seq::<Seq<char>>::empty());
                }
            }
            r
        },
        None => Config::default(),
    }
}

/// Reading back an escaped string consumes it up to its closing quote and
/// yields the original characters.
pub proof fn lemma_unescape_of_escaped(v: Seq<char>, rest: Seq<char>)
    ensures
        spec_unescape(spec_escape(v) + seq!['"'] + rest) == Some((v, rest)),
    decreases v.len(),
{
    if v.len() == 0 {
        let cs = spec_escape(v) + seq!['"'] + rest;
        assert(cs =~= seq!['"'] + rest);
        assert(cs.first() == '"');
        assert(cs.drop_first() =~= rest);
        assert(Seq::<char>::empty() =~= v);
    } else {
        let c = v.first();
        let cs = spec_escape(v) + seq!['"'] + rest;
        let inner = spec_escape(v.drop_first()) + seq!['"'] + rest;
        lemma_unescape_of_escaped(v.drop_first(), rest);
        if c == '"' || c == '\\' {
            assert(spec_escape(v) == seq!['\\', c] + spec_escape(v.drop_first()));
            assert(cs.len() >= 2);
            assert(cs.first() == '\\');
            assert(cs[1] == c);
            assert(spec_unescape_code(c) == c);
            assert(cs.skip(2) =~= inner);
            assert(seq![c] + v.drop_first() =~= v);
        } else if c == '\n' || c == '\r' || c == '\t' {
            let code = if c == '\n' {
                'n'
            } else if c == '\r' {
                'r'
            } else {
                't'
            };
            assert(spec_escape(v) == seq!['\\', code] + spec_escape(v.drop_first()));
            assert(cs.len() >= 2);
            assert(cs.first() == '\\');
            assert(cs[1] == code);
            assert(spec_unescape_code(code) == c);
            assert(cs.skip(2) =~= inner);
            assert(seq![c] + v.drop_first() =~= v);
        } else {
            assert(spec_escape(v) == seq![c] + spec_escape(v.drop_first()));
            assert(cs.first() == c);
            assert(c != '"' && c != '\\');
            assert(cs.drop_first() =~= inner);
            assert(seq![c] + v.drop_first() =~= v);
        }
    }
}

/// A quoted value reads back as itself.
pub proof fn lemma_string_value_of_quote(v: Seq<char>)
    ensures
        spec_string_value(spec_quote(v)) == Some(v),
{
    let q = spec_quote(v);
    assert(q.first() == '"');
    assert(q.drop_first() =~= spec_escape(v) + seq!['"'] + Seq::<char>::empty());
    lemma_unescape_of_escaped(v, Seq::empty());
}

/// A non-empty list body reads back as its items.
proof fn lemma_items_of_flags_body(fl: Seq<Seq<char>>)
    requires
        fl.len() >= 1,
    ensures
        spec_items(spec_flags_body(fl)) == Some(fl),
    decreases fl.len(),
{
    let body = spec_flags_body(fl);
    if fl.len() == 1 {
        assert(body == spec_quote(fl.first()));
        assert(body.first() == '"');
        assert(body.drop_first() =~= spec_escape(fl.first()) + seq!['"'] + Seq::<char>::empty());
        lemma_unescape_of_escaped(fl.first(), Seq::empty());
        assert(seq![fl.first()] =~= fl);
    } else {
        let sep_rest = seq![',', ' '] + spec_flags_body(fl.drop_first());
        assert(body =~= seq!['"'] + (spec_escape(fl.first()) + seq!['"'] + sep_rest));
        assert(body.first() == '"');
        assert(body.drop_first() =~= spec_escape(fl.first()) + seq!['"'] + sep_rest);
        lemma_unescape_of_escaped(fl.first(), sep_rest);
        assert(sep_rest.len() >= 2);
        assert(sep_rest[0] == ',');
        assert(sep_rest[1] == ' ');
        assert(sep_rest.skip(2) =~= spec_flags_body(fl.drop_first()));
        lemma_items_of_flags_body(fl.drop_first());
        assert(seq![fl.first()] + fl.drop_first() =~= fl);
    }
}

/// A bracketed list value reads back as its items.
pub proof fn lemma_array_of_flags_text(fl: Seq<Seq<char>>)
    ensures
        spec_array_value(spec_flags_text(fl)) == Some(fl),
{
    let t = spec_flags_text(fl);
    let body = spec_flags_body(fl);
    assert(t.len() >= 2);
    assert(t.first() == '[');
    assert(t.last() == ']');
    assert(t.subrange(1, t.len() - 1) =~= body);
    if fl.len() == 0 {
        assert(body.len() == 0);
        assert(Seq::<Seq<char>>::empty() =~= fl);
    } else {
        assert(body.len() > 0) by {
            if fl.len() == 1 {
                assert(body == spec_quote(fl.first()));
            }
        }
        lemma_items_of_flags_body(fl);
    }
}

/// Escaping leaves no newline in the written text: a newline itself is
/// written as the two characters `\n`.
proof fn lemma_escape_no_newline(v: Seq<char>)
    ensures
        !spec_escape(v).contains('\n'),
    decreases v.len(),
{
    if v.len() == 0 {
        if spec_escape(v).contains('\n') {
            let i = choose|i: int| 0 <= i < spec_escape(v).len() && spec_escape(v)[i] == '\n';
        }
    } else {
        lemma_escape_no_newline(v.drop_first());
        let esc = spec_escape(v);
        let head = spec_escape_char(v.first());
        assert(!head.contains('\n')) by {
            if head.contains('\n') {
                let i = choose|i: int| 0 <= i < head.len() && head[i] == '\n';
            }
        }
        assert(!esc.contains('\n')) by {
            if esc.contains('\n') {
                let i = choose|i: int| 0 <= i < esc.len() && esc[i] == '\n';
                assert(esc == head + spec_escape(v.drop_first()));
                if i < head.len() {
                    assert(head[i] == '\n');
                    assert(head.contains('\n'));
                } else {
                    assert(spec_escape(v.drop_first())[i - head.len()] == '\n');
                    assert(spec_escape(v.drop_first()).contains('\n'));
                }
            }
        }
    }
}

proof fn lemma_singleton_no_newline(c: char)
    requires
        c != '\n',
    ensures
        !seq![c].contains('\n'),
{
    if seq![c].contains('\n') {
        let i = choose|i: int| 0 <= i < 1 && seq![c][i] == '\n';
        assert(seq![c][i] == c);
    }
}

proof fn lemma_concat_no_newline(a: Seq<char>, b: Seq<char>)
    requires
        !a.contains('\n'),
        !b.contains('\n'),
    ensures
        !(a + b).contains('\n'),
{
    if (a + b).contains('\n') {
        let i = choose|i: int| 0 <= i < (a + b).len() && (a + b)[i] == '\n';
        if i < a.len() {
            assert(a[i] == '\n');
            assert(a.contains('\n'));
        } else {
            assert(b[i - a.len()] == '\n');
            assert(b.contains('\n'));
        }
    }
}

proof fn lemma_quote_no_newline(v: Seq<char>)
    ensures
        !spec_quote(v).contains('\n'),
{
    lemma_escape_no_newline(v);
    lemma_singleton_no_newline('"');
    lemma_concat_no_newline(seq!['"'], spec_escape(v));
    lemma_concat_no_newline(seq!['"'] + spec_escape(v), seq!['"']);
}

proof fn lemma_flags_body_no_newline(fl: Seq<Seq<char>>)
    ensures
        !spec_flags_body(fl).contains('\n'),
    decreases fl.len(),
{
    if fl.len() == 0 {
        if spec_flags_body(fl).contains('\n') {
            let i = choose|i: int|
                0 <= i < spec_flags_body(fl).len() && spec_flags_body(fl)[i] == '\n';
        }
    } else if fl.len() == 1 {
        lemma_quote_no_newline(fl.first());
    } else {
        lemma_quote_no_newline(fl.first());
        lemma_singleton_no_newline(',');
        lemma_singleton_no_newline(' ');
        lemma_concat_no_newline(seq![','], seq![' ']);
        assert(seq![','] + seq![' '] =~= seq![',', ' ']);
        lemma_flags_body_no_newline(fl.drop_first());
        lemma_concat_no_newline(spec_quote(fl.first()), seq![',', ' ']);
        lemma_concat_no_newline(
            spec_quote(fl.first()) + seq![',', ' '],
            spec_flags_body(fl.drop_first()),
        );
    }
}

proof fn lemma_lit_no_newline(l: Seq<char>)
    requires
        forall|i: int| 0 <= i < l.len() ==> l[i] != '\n',
    ensures
        !l.contains('\n'),
{
    if l.contains('\n') {
        let i = choose|i: int| 0 <= i < l.len() && l[i] == '\n';
    }
}

proof fn lemma_entry_of_line(prefix: Seq<char>, key: Seq<char>, val: Seq<char>)
    requires
        prefix == key + " = "@,
        " = "@ == seq![' ', '=', ' '],
        val.len() > 0,
        val.first() != ' ',
        val.first() != '\t',
    ensures
        entry_val(prefix + val, key) == Some(val),
{
    let t = prefix + val;
    let m = key.len() as int;
    assert(t.len() >= m + 3);
    assert(t.take(m) =~= key);
    assert(t[m] == ' ');
    assert(t[m + 1] == '=');
    assert(t[m + 2] == ' ');
    assert(t[m + 3] == val.first());
    lemma_ws_run_is(t, m, 1);
    lemma_ws_run_is(t, m + 2, 1);
    assert(t.skip(m + 3) =~= val);
}

/// Writing a config out and reading the text back yields exactly the values
/// that were written, field for field, whatever characters they hold.
pub proof fn lemma_config_roundtrip(f: Seq<char>, e: Seq<char>, ed: Seq<char>, fl: Seq<Seq<char>>)
    ensures
        spec_parse_config(spec_config_toml(f, e, ed, fl)) == Some(
            (Some(f), Some(e), Some(ed), Some(fl)),
        ),
{
    reveal_strlit("filename = ");
    reveal_strlit("extension = ");
    reveal_strlit("editor = ");
    reveal_strlit("flags = ");
    reveal_strlit("filename");
    reveal_strlit("extension");
    reveal_strlit("editor");
    reveal_strlit("flags");
    reveal_strlit(" = ");
    reveal_strlit("#");
    let l0 = "filename = "@ + spec_quote(f);
    let l1 = "extension = "@ + spec_quote(e);
    let l2 = "editor = "@ + spec_quote(ed);
    let l3 = "flags = "@ + spec_flags_text(fl);
    let ls = spec_config_out_lines(f, e, ed, fl);
    assert(ls.len() == 4 && ls[0] == l0 && ls[1] == l1 && ls[2] == l2 && ls[3] == l3);

    // None of the four lines holds a newline, none ends with a carriage
    // return, and the last is not empty.
    lemma_quote_no_newline(f);
    lemma_quote_no_newline(e);
    lemma_quote_no_newline(ed);
    lemma_flags_body_no_newline(fl);
    lemma_singleton_no_newline('[');
    lemma_singleton_no_newline(']');
    lemma_concat_no_newline(seq!['['], spec_flags_body(fl));
    lemma_concat_no_newline(seq!['['] + spec_flags_body(fl), seq![']']);
    assert(forall|i: int| 0 <= i < "filename = "@.len() ==> "filename = "@[i] != '\n');
    lemma_lit_no_newline("filename = "@);
    assert(forall|i: int| 0 <= i < "extension = "@.len() ==> "extension = "@[i] != '\n');
    lemma_lit_no_newline("extension = "@);
    assert(forall|i: int| 0 <= i < "editor = "@.len() ==> "editor = "@[i] != '\n');
    lemma_lit_no_newline("editor = "@);
    assert(forall|i: int| 0 <= i < "flags = "@.len() ==> "flags = "@[i] != '\n');
    lemma_lit_no_newline("flags = "@);
    lemma_concat_no_newline("filename = "@, spec_quote(f));
    lemma_concat_no_newline("extension = "@, spec_quote(e));
    lemma_concat_no_newline("editor = "@, spec_quote(ed));
    lemma_concat_no_newline("flags = "@, spec_flags_text(fl));
    assert(l0.last() == '"');
    assert(l1.last() == '"');
    assert(l2.last() == '"');
    assert(l3.last() == ']');
    crate::text::lemma_lines_of_join(ls);
    assert(crate::text::spec_lines(spec_config_toml(f, e, ed, fl)) == ls);

    // Each line trims to itself and is no comment.
    assert(l0.first() == 'f' && l1.first() == 'e' && l2.first() == 'e' && l3.first() == 'f');
    crate::text::lemma_trim_noop(l0);
    crate::text::lemma_trim_noop(l1);
    crate::text::lemma_trim_noop(l2);
    crate::text::lemma_trim_noop(l3);
    assert(!line_blank(l0) && !line_blank(l1) && !line_blank(l2) && !line_blank(l3));

    // Each line sets exactly its own key.
    assert("filename = "@ =~= "filename"@ + " = "@);
    assert("extension = "@ =~= "extension"@ + " = "@);
    assert("editor = "@ =~= "editor"@ + " = "@);
    assert("flags = "@ =~= "flags"@ + " = "@);
    assert(" = "@ =~= seq![' ', '=', ' ']);
    assert(spec_quote(f).first() == '"');
    assert(spec_quote(e).first() == '"');
    assert(spec_quote(ed).first() == '"');
    assert(spec_flags_text(fl).first() == '[');
    lemma_entry_of_line("filename = "@, "filename"@, spec_quote(f));
    lemma_entry_of_line("extension = "@, "extension"@, spec_quote(e));
    lemma_entry_of_line("editor = "@, "editor"@, spec_quote(ed));
    lemma_entry_of_line("flags = "@, "flags"@, spec_flags_text(fl));
    lemma_string_value_of_quote(f);
    lemma_string_value_of_quote(e);
    lemma_string_value_of_quote(ed);
    lemma_array_of_flags_text(fl);
    assert(entry_val(l1, "filename"@) is None) by {
        if l1.len() >= "filename"@.len() + 3 {
            assert(l1.take(8)[0] == 'e');
        }
    }
    assert(entry_val(l2, "filename"@) is None) by {
        if l2.len() >= "filename"@.len() + 3 {
            assert(l2.take(8)[1] == 'd');
        }
    }
    assert(entry_val(l2, "extension"@) is None) by {
        if l2.len() >= "extension"@.len() + 3 {
            assert(l2.take(9)[1] == 'd');
        }
    }
    assert(entry_val(l3, "filename"@) is None) by {
        if l3.len() >= "filename"@.len() + 3 {
            assert(l3.take(8)[1] == 'l');
        }
    }
    assert(entry_val(l3, "extension"@) is None) by {
        if l3.len() >= "extension"@.len() + 3 {
            assert(l3.take(9)[0] == 'f');
        }
    }
    assert(entry_val(l3, "editor"@) is None) by {
        if l3.len() >= "editor"@.len() + 3 {
            assert(l3.take(6)[0] == 'f');
        }
    }

    // Walk the four lines.
    assert(spec_parse_lines(ls, 0, None, None, None, None) == spec_parse_lines(
        ls,
        1,
        Some(f),
        None,
        None,
        None,
    ));
    assert(spec_parse_lines(ls, 1, Some(f), None, None, None) == spec_parse_lines(
        ls,
        2,
        Some(f),
        Some(e),
        None,
        None,
    ));
    assert(spec_parse_lines(ls, 2, Some(f), Some(e), None, None) == spec_parse_lines(
        ls,
        3,
        Some(f),
        Some(e),
        Some(ed),
        None,
    ));
    assert(spec_parse_lines(ls, 3, Some(f), Some(e), Some(ed), None) == spec_parse_lines(
        ls,
        4,
        Some(f),
        Some(e),
        Some(ed),
        Some(fl),
    ));
}

} // verus!
