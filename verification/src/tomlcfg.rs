//! Reading and writing the ports configuration document: a table per port,
//! keyed by its name, with `path`, `baud_rate`, `line_ending` and `color`
//! keys. Unknown keys are ignored; a malformed line or value rejects the
//! whole document. Reading back a written document yields the same ports.

use vstd::prelude::*;

use crate::config::{Color, ConfigError, LineEnding, PortConfig};
use crate::text::{
    all_digits, chars_of, dec_digits, dec_val, parse_u32, str_eq_chars, u64_to_string,
};

verus! {

/// A blank-ish character inside a line.
pub open spec fn is_space(c: char) -> bool {
    c == ' ' || c == '\t'
}

/// `s` with leading and trailing spaces and tabs removed.
pub open spec fn trim(s: Seq<char>) -> Seq<char>
    decreases s.len(),
{
    if s.len() > 0 && is_space(s[0]) {
        trim(s.skip(1))
    } else if s.len() > 0 && is_space(s.last()) {
        trim(s.drop_last())
    } else {
        s
    }
}

/// A sequence whose edges are not spaces trims to itself.
proof fn lemma_trim_id(s: Seq<char>)
    requires
        s.len() == 0 || (!is_space(s[0]) && !is_space(s.last())),
    ensures
        trim(s) == s,
{
}

/// Trimming `s` with one trailing space appended gives `trim(s)`.
proof fn lemma_trim_trailing_space(s: Seq<char>)
    requires
        s.len() == 0 || !is_space(s[0]),
    ensures
        trim(s + seq![' ']) == trim(s),
    decreases s.len(),
{
    let t = s + seq![' '];
    assert(t.last() == ' ');
    assert(t.drop_last() =~= s);
    if s.len() > 0 {
        assert(t[0] == s[0]);
    } else {
        assert(t.skip(1) =~= s);
    }
}

/// Trimming one leading space prepended to `s` gives `trim(s)`.
proof fn lemma_trim_leading_space(s: Seq<char>)
    ensures
        trim(seq![' '] + s) == trim(s),
{
    let t = seq![' '] + s;
    assert(t[0] == ' ');
    assert(t.skip(1) =~= s);
}

/// The index of the first newline in `s`, or its length.
pub open spec fn first_nl(s: Seq<char>) -> int
    decreases s.len(),
{
    if s.len() == 0 {
        0
    } else if s[0] == '\n' {
        0
    } else {
        1 + first_nl(s.skip(1))
    }
}

/// Where the first newline stands: before it there is none, and either the
/// whole string is clean or position `first_nl` holds one.
pub proof fn lemma_first_nl(s: Seq<char>)
    ensures
        0 <= first_nl(s) <= s.len(),
        forall|j: int| 0 <= j < first_nl(s) ==> s[j] != '\n',
        first_nl(s) < s.len() ==> s[first_nl(s)] == '\n',
    decreases s.len(),
{
    if s.len() > 0 && s[0] != '\n' {
        lemma_first_nl(s.skip(1));
        assert forall|j: int| 0 <= j < first_nl(s) implies s[j] != '\n' by {
            if j > 0 {
                assert(s.skip(1)[j - 1] == s[j]);
            }
        }
        if first_nl(s) < s.len() {
            assert(s.skip(1)[first_nl(s) - 1] == s[first_nl(s)]);
        }
    }
}

/// The text split at newlines; the separators disappear. An empty text is
/// one empty line.
pub open spec fn split_lines(s: Seq<char>) -> Seq<Seq<char>>
    decreases s.len(),
    via split_lines_decreases
{
    let i = first_nl(s);
    if i == s.len() {
        seq![s]
    } else {
        seq![s.take(i)] + split_lines(s.skip(i + 1))
    }
}

#[via_fn]
proof fn split_lines_decreases(s: Seq<char>) {
    lemma_first_nl(s);
}

/// Lines joined by single newlines, no trailing newline.
pub open spec fn join_lines(ls: Seq<Seq<char>>) -> Seq<char>
    decreases ls.len(),
{
    if ls.len() == 0 {
        Seq::empty()
    } else if ls.len() == 1 {
        ls[0]
    } else {
        ls[0] + seq!['\n'] + join_lines(ls.skip(1))
    }
}

/// A first segment without newlines pushes the first newline past it.
proof fn lemma_first_nl_concat(a: Seq<char>, b: Seq<char>)
    requires
        forall|j: int| 0 <= j < a.len() ==> a[j] != '\n',
    ensures
        first_nl(a + b) == a.len() + first_nl(b),
    decreases a.len(),
{
    if a.len() == 0 {
        assert(a + b =~= b);
    } else {
        assert((a + b)[0] == a[0]);
        assert((a + b).skip(1) =~= a.skip(1) + b);
        assert(forall|j: int| 0 <= j < a.skip(1).len() ==> #[trigger] a.skip(1)[j] == a[j + 1]);
        lemma_first_nl_concat(a.skip(1), b);
    }
}

/// Splitting what `join_lines` wrote gives the lines back, provided no line
/// holds a newline.
pub proof fn lemma_split_join(ls: Seq<Seq<char>>)
    requires
        ls.len() > 0,
        forall|i: int, j: int|
            0 <= i < ls.len() && 0 <= j < ls[i].len() ==> (#[trigger] ls[i][j]) != '\n',
    ensures
        split_lines(join_lines(ls)) == ls,
    decreases ls.len(),
{
    if ls.len() == 1 {
        let s = ls[0];
        lemma_first_nl(s);
        assert(first_nl(s) == s.len()) by {
            if first_nl(s) < s.len() {
                assert(s[first_nl(s)] == '\n');
            }
        }
        assert(split_lines(join_lines(ls)) =~= ls);
    } else {
        let s = join_lines(ls);
        assert(s == ls[0] + seq!['\n'] + join_lines(ls.skip(1)));
        assert(forall|j: int| 0 <= j < ls[0].len() ==> #[trigger] ls[0][j] != '\n');
        lemma_first_nl_concat(ls[0], seq!['\n'] + join_lines(ls.skip(1)));
        assert(s =~= ls[0] + (seq!['\n'] + join_lines(ls.skip(1))));
        assert((seq!['\n'] + join_lines(ls.skip(1)))[0] == '\n');
        assert(first_nl(seq!['\n'] + join_lines(ls.skip(1))) == 0);
        let i = first_nl(s);
        assert(i == ls[0].len());
        assert(i < s.len()) by {
            assert(s.len() == ls[0].len() + 1 + join_lines(ls.skip(1)).len());
        }
        assert(s.take(i) =~= ls[0]);
        assert(s.skip(i + 1) =~= join_lines(ls.skip(1)));
        assert(forall|a: int, j: int|
            0 <= a < ls.skip(1).len() && 0 <= j < ls.skip(1)[a].len() ==> (#[trigger] ls.skip(
                1,
            )[a][j]) == ls[a + 1][j]);
        lemma_split_join(ls.skip(1));
        assert(split_lines(s) =~= seq![ls[0]] + ls.skip(1));
        assert(seq![ls[0]] + ls.skip(1) =~= ls);
    }
}

/// The index of the first `=` in `s`, or its length.
pub open spec fn first_eq(s: Seq<char>) -> int
    decreases s.len(),
{
    if s.len() == 0 {
        0
    } else if s[0] == '=' {
        0
    } else {
        1 + first_eq(s.skip(1))
    }
}

/// Where the first `=` stands.
proof fn lemma_first_eq(s: Seq<char>)
    ensures
        0 <= first_eq(s) <= s.len(),
        forall|j: int| 0 <= j < first_eq(s) ==> s[j] != '=',
        first_eq(s) < s.len() ==> s[first_eq(s)] == '=',
    decreases s.len(),
{
    if s.len() > 0 && s[0] != '=' {
        lemma_first_eq(s.skip(1));
        assert forall|j: int| 0 <= j < first_eq(s) implies s[j] != '=' by {
            if j > 0 {
                assert(s.skip(1)[j - 1] == s[j]);
            }
        }
        if first_eq(s) < s.len() {
            assert(s.skip(1)[first_eq(s) - 1] == s[first_eq(s)]);
        }
    }
}

/// A first segment without `=` pushes the first `=` past it.
proof fn lemma_first_eq_concat(a: Seq<char>, b: Seq<char>)
    requires
        forall|j: int| 0 <= j < a.len() ==> a[j] != '=',
    ensures
        first_eq(a + b) == a.len() + first_eq(b),
    decreases a.len(),
{
    if a.len() == 0 {
        assert(a + b =~= b);
    } else {
        assert((a + b)[0] == a[0]);
        assert((a + b).skip(1) =~= a.skip(1) + b);
        assert(forall|j: int| 0 <= j < a.skip(1).len() ==> #[trigger] a.skip(1)[j] == a[j + 1]);
        lemma_first_eq_concat(a.skip(1), b);
    }
}

/// One classified line of the document.
pub ghost enum LineItem {
    /// Empty, whitespace, or a comment.
    Blank,
    /// `[name]`.
    Header(Seq<char>),
    /// `key = value`, both trimmed.
    KeyVal(Seq<char>, Seq<char>),
    /// None of these.
    Bad,
}

/// Classifies one line: blank and comment lines vanish, `[...]` opens a
/// table, a line with `=` binds a key, anything else is an error.
pub open spec fn classify(line: Seq<char>) -> LineItem {
    let t = trim(line);
    if t.len() == 0 {
        LineItem::Blank
    } else if t[0] == '#' {
        LineItem::Blank
    } else if t[0] == '[' {
        if t.len() >= 2 && t.last() == ']' {
            LineItem::Header(trim(t.subrange(1, t.len() - 1)))
        } else {
            LineItem::Bad
        }
    } else {
        let i = first_eq(t);
        if i == t.len() {
            LineItem::Bad
        } else {
            LineItem::KeyVal(trim(t.take(i)), trim(t.skip(i + 1)))
        }
    }
}

/// The text between the quotes of a string value, with its escapes
/// resolved: `\"` stands for a quote, `\\` for a backslash; a bare quote,
/// a bare trailing backslash, or any other escape is a fault.
pub open spec fn unescape_inner(s: Seq<char>) -> Option<Seq<char>>
    decreases s.len(),
{
    if s.len() == 0 {
        Some(Seq::empty())
    } else if s[0] == '\\' {
        if s.len() >= 2 && (s[1] == '"' || s[1] == '\\') {
            match unescape_inner(s.skip(2)) {
                Some(r) => Some(seq![s[1]] + r),
                None => None,
            }
        } else {
            None
        }
    } else if s[0] == '"' {
        None
    } else {
        match unescape_inner(s.skip(1)) {
            Some(r) => Some(seq![s[0]] + r),
            None => None,
        }
    }
}

/// The contents of a basic string value: the text between the quotes, its
/// escapes resolved. Anything else is not a string.
pub open spec fn unquote(v: Seq<char>) -> Option<Seq<char>> {
    if v.len() >= 2 && v[0] == '"' && v.last() == '"' {
        unescape_inner(v.subrange(1, v.len() - 1))
    } else {
        None
    }
}

/// Text with its quotes and backslashes escaped.
pub open spec fn escape(s: Seq<char>) -> Seq<char>
    decreases s.len(),
{
    if s.len() == 0 {
        Seq::empty()
    } else if s[0] == '"' || s[0] == '\\' {
        seq!['\\', s[0]] + escape(s.skip(1))
    } else {
        seq![s[0]] + escape(s.skip(1))
    }
}

/// Text wrapped in quotes.
pub open spec fn quote(s: Seq<char>) -> Seq<char> {
    seq!['"'] + s + seq!['"']
}

/// Resolving the escapes that `escape` wrote gives the text back.
proof fn lemma_unescape_escape(s: Seq<char>)
    ensures
        unescape_inner(escape(s)) == Some(s),
    decreases s.len(),
{
    if s.len() > 0 {
        lemma_unescape_escape(s.skip(1));
        let e = escape(s);
        if s[0] == '"' || s[0] == '\\' {
            assert(e == seq!['\\', s[0]] + escape(s.skip(1)));
            assert(e[0] == '\\');
            assert(e[1] == s[0]);
            assert(e.len() >= 2);
            assert(e.skip(2) =~= escape(s.skip(1)));
            assert(seq![s[0]] + s.skip(1) =~= s);
        } else {
            assert(e == seq![s[0]] + escape(s.skip(1)));
            assert(e[0] == s[0]);
            assert(e.skip(1) =~= escape(s.skip(1)));
            assert(seq![s[0]] + s.skip(1) =~= s);
        }
    } else {
        assert(escape(s) =~= Seq::<char>::empty());
    }
}

/// Text without quote or backslash needs no escapes and resolves to
/// itself.
proof fn lemma_unescape_clean(s: Seq<char>)
    requires
        forall|j: int| 0 <= j < s.len() ==> (#[trigger] s[j]) != '"' && s[j] != '\\',
    ensures
        unescape_inner(s) == Some(s),
    decreases s.len(),
{
    if s.len() > 0 {
        assert(forall|j: int|
            0 <= j < s.skip(1).len() ==> (#[trigger] s.skip(1)[j]) == s[j + 1]);
        lemma_unescape_clean(s.skip(1));
        assert(seq![s[0]] + s.skip(1) =~= s);
    }
}

/// Unquoting a quoted escaped text gives the text back.
proof fn lemma_unquote_quote_escaped(s: Seq<char>)
    ensures
        unquote(quote(escape(s))) == Some(s),
{
    let q = quote(escape(s));
    assert(q.len() == escape(s).len() + 2);
    assert(q[0] == '"');
    assert(q.last() == '"');
    assert(forall|j: int| 1 <= j < q.len() - 1 ==> #[trigger] q[j] == escape(s)[j - 1]);
    assert(q.subrange(1, q.len() - 1) =~= escape(s));
    lemma_unescape_escape(s);
}

/// Unquoting a quoted text gives the text back, provided it holds no quote
/// and no backslash.
pub proof fn lemma_unquote_quote(s: Seq<char>)
    requires
        forall|j: int| 0 <= j < s.len() ==> (#[trigger] s[j]) != '"' && s[j] != '\\',
    ensures
        unquote(quote(s)) == Some(s),
{
    let q = quote(s);
    assert(q.len() == s.len() + 2);
    assert(q[0] == '"');
    assert(q.last() == '"');
    assert(forall|j: int| 1 <= j < q.len() - 1 ==> #[trigger] q[j] == s[j - 1]);
    assert(q.subrange(1, q.len() - 1) =~= s);
    lemma_unescape_clean(s);
}

/// The value side of one port table, at the specification level.
pub ghost struct SpecPortCfg {
    pub path: Seq<char>,
    pub baud: u32,
    pub ending: LineEnding,
    pub color: Color,
}

/// A table being read: its name, and its fields so far, defaulted.
pub ghost struct PartialCfg {
    pub name: Seq<char>,
    pub path: Option<Seq<char>>,
    pub baud: u32,
    pub ending: LineEnding,
    pub color: Color,
}

/// A just-opened table: every field at its default, the path still owed.
pub open spec fn fresh_partial(n: Seq<char>) -> PartialCfg {
    PartialCfg {
        name: n,
        path: None,
        baud: 115200,
        ending: LineEnding::LF,
        color: Color::Reset,
    }
}

/// One key-value pair applied to the open table: the four known keys parse
/// their values, every other key is ignored.
pub open spec fn apply_kv(p: PartialCfg, k: Seq<char>, v: Seq<char>) -> Result<
    PartialCfg,
    ConfigError,
> {
    if k == "path"@ {
        match unquote(v) {
            Some(s) => Ok(PartialCfg { path: Some(s), ..p }),
            None => Err(ConfigError::Syntax),
        }
    } else if k == "baud_rate"@ {
        if v.len() > 0 && all_digits(v) && dec_val(v) <= u32::MAX {
            Ok(PartialCfg { baud: dec_val(v) as u32, ..p })
        } else {
            Err(ConfigError::InvalidNumber)
        }
    } else if k == "line_ending"@ {
        match unquote(v) {
            Some(s) => match LineEnding::spec_parse(s) {
                Some(le) => Ok(PartialCfg { ending: le, ..p }),
                None => Err(ConfigError::InvalidLineEnding),
            },
            None => Err(ConfigError::Syntax),
        }
    } else if k == "color"@ {
        match unquote(v) {
            Some(s) => match Color::spec_parse(s) {
                Some(c) => Ok(PartialCfg { color: c, ..p }),
                None => Err(ConfigError::InvalidColor),
            },
            None => Err(ConfigError::Syntax),
        }
    } else {
        Ok(p)
    }
}

/// Closes the open table: the path is required, the rest is defaulted.
pub open spec fn finalize(p: PartialCfg) -> Result<(Seq<char>, SpecPortCfg), ConfigError> {
    match p.path {
        Some(path) => Ok(
            (p.name, SpecPortCfg { path, baud: p.baud, ending: p.ending, color: p.color }),
        ),
        None => Err(ConfigError::MissingPath),
    }
}

/// A table of this name was already read.
pub open spec fn names_contain(acc: Seq<(Seq<char>, SpecPortCfg)>, n: Seq<char>) -> bool {
    exists|i: int| 0 <= i < acc.len() && (#[trigger] acc[i]).0 == n
}

/// Reads the classified lines in order: headers open tables (a repeated name
/// is an error), key-value lines fill the open table, blank lines vanish,
/// and anything else is a syntax error; at the end the open table is closed.
pub open spec fn parse_doc(
    lines: Seq<Seq<char>>,
    cur: Option<PartialCfg>,
    acc: Seq<(Seq<char>, SpecPortCfg)>,
) -> Result<Seq<(Seq<char>, SpecPortCfg)>, ConfigError>
    decreases lines.len(),
{
    if lines.len() == 0 {
        match cur {
            None => Ok(acc),
            Some(p) => match finalize(p) {
                Ok(e) => Ok(acc.push(e)),
                Err(er) => Err(er),
            },
        }
    } else {
        match classify(lines[0]) {
            LineItem::Blank => parse_doc(lines.skip(1), cur, acc),
            LineItem::Bad => Err(ConfigError::Syntax),
            LineItem::Header(n) => {
                if n.len() == 0 {
                    Err(ConfigError::Syntax)
                } else {
                    match cur {
                        None => {
                            if names_contain(acc, n) {
                                Err(ConfigError::DuplicatePort)
                            } else {
                                parse_doc(lines.skip(1), Some(fresh_partial(n)), acc)
                            }
                        },
                        Some(p) => match finalize(p) {
                            Err(er) => Err(er),
                            Ok(e) => {
                                if names_contain(acc.push(e), n) {
                                    Err(ConfigError::DuplicatePort)
                                } else {
                                    parse_doc(lines.skip(1), Some(fresh_partial(n)), acc.push(e))
                                }
                            },
                        },
                    }
                }
            },
            LineItem::KeyVal(k, v) => match cur {
                None => Err(ConfigError::Syntax),
                Some(p) => match apply_kv(p, k, v) {
                    Ok(p2) => parse_doc(lines.skip(1), Some(p2), acc),
                    Err(er) => Err(er),
                },
            },
        }
    }
}

/// Reads a whole document.
pub open spec fn parse_text(s: Seq<char>) -> Result<Seq<(Seq<char>, SpecPortCfg)>, ConfigError> {
    parse_doc(split_lines(s), None, Seq::empty())
}

/// A `key = value` line.
pub open spec fn kv_line(k: Seq<char>, v: Seq<char>) -> Seq<char> {
    k + seq![' ', '=', ' '] + v
}

/// The five lines one port table is written as.
pub open spec fn render_entry_lines(name: Seq<char>, c: SpecPortCfg) -> Seq<Seq<char>> {
    seq![
        seq!['['] + name + seq![']'],
        kv_line("path"@, quote(escape(c.path))),
        kv_line("baud_rate"@, dec_digits(c.baud as nat)),
        kv_line("line_ending"@, quote(c.ending.spec_name())),
        kv_line("color"@, quote(c.color.spec_text())),
    ]
}

/// The lines of a whole document, one table after another.
pub open spec fn render_lines(entries: Seq<(Seq<char>, SpecPortCfg)>) -> Seq<Seq<char>>
    decreases entries.len(),
{
    if entries.len() == 0 {
        Seq::empty()
    } else {
        render_entry_lines(entries[0].0, entries[0].1) + render_lines(entries.skip(1))
    }
}

/// The written document: the lines joined by newlines; no ports, no text.
pub open spec fn render_text(entries: Seq<(Seq<char>, SpecPortCfg)>) -> Seq<char> {
    if entries.len() == 0 {
        Seq::empty()
    } else {
        join_lines(render_lines(entries))
    }
}

/// A port name the document format can carry: non-empty, no newline, no
/// space at either edge, and not shaped like punctuation the parser reads.
pub open spec fn name_ok(n: Seq<char>) -> bool {
    &&& n.len() > 0
    &&& !is_space(n[0])
    &&& !is_space(n.last())
    &&& forall|j: int| 0 <= j < n.len() ==> (#[trigger] n[j]) != '\n'
}

/// A device path the document format can carry: anything without a
/// newline; quotes and backslashes travel escaped.
pub open spec fn path_ok(p: Seq<char>) -> bool {
    forall|j: int| 0 <= j < p.len() ==> (#[trigger] p[j]) != '\n'
}

/// Entries a document can carry and give back: sound names and paths, all
/// names distinct.
pub open spec fn entries_ok(entries: Seq<(Seq<char>, SpecPortCfg)>) -> bool {
    &&& forall|i: int|
        0 <= i < entries.len() ==> name_ok((#[trigger] entries[i]).0) && path_ok(entries[i].1.path)
    &&& forall|i: int, j: int|
        0 <= i < j < entries.len() ==> (#[trigger] entries[i]).0 != (#[trigger] entries[j]).0
}

/// No character of `s` is a newline.
pub open spec fn no_nl(s: Seq<char>) -> bool {
    forall|j: int| 0 <= j < s.len() ==> (#[trigger] s[j]) != '\n'
}

/// Escaping adds only backslashes, so it introduces no newline.
proof fn lemma_escape_no_nl(s: Seq<char>)
    requires
        no_nl(s),
    ensures
        no_nl(escape(s)),
    decreases s.len(),
{
    if s.len() > 0 {
        assert(forall|j: int| 0 <= j < s.skip(1).len() ==> (#[trigger] s.skip(1)[j]) == s[j + 1]);
        lemma_escape_no_nl(s.skip(1));
        let e = escape(s);
        if s[0] == '"' || s[0] == '\\' {
            assert forall|j: int| 0 <= j < e.len() implies (#[trigger] e[j]) != '\n' by {
                if j >= 2 {
                    assert(e[j] == escape(s.skip(1))[j - 2]);
                }
            }
        } else {
            assert forall|j: int| 0 <= j < e.len() implies (#[trigger] e[j]) != '\n' by {
                if j >= 1 {
                    assert(e[j] == escape(s.skip(1))[j - 1]);
                }
            }
        }
    }
}

proof fn lemma_no_nl_concat(a: Seq<char>, b: Seq<char>)
    requires
        no_nl(a),
        no_nl(b),
    ensures
        no_nl(a + b),
{
    assert forall|j: int| 0 <= j < (a + b).len() implies (#[trigger] (a + b)[j]) != '\n' by {
        if j < a.len() {
            assert((a + b)[j] == a[j]);
        } else {
            assert((a + b)[j] == b[j - a.len()]);
        }
    }
}

/// A `[name]` line reads back as a header with that name.
proof fn lemma_classify_header(n: Seq<char>)
    requires
        name_ok(n),
    ensures
        classify(seq!['['] + n + seq![']']) == LineItem::Header(n),
{
    let line = seq!['['] + n + seq![']'];
    assert(line.len() == n.len() + 2);
    assert(line[0] == '[');
    assert(line.last() == ']');
    lemma_trim_id(line);
    assert(line.subrange(1, line.len() - 1) =~= n);
    lemma_trim_id(n);
}

/// A key the document format uses: printable, not punctuation the parser
/// reads, no `=`, no space at the edges.
pub open spec fn key_ok(k: Seq<char>) -> bool {
    &&& k.len() > 0
    &&& !is_space(k[0])
    &&& !is_space(k.last())
    &&& k[0] != '#'
    &&& k[0] != '['
    &&& forall|j: int| 0 <= j < k.len() ==> (#[trigger] k[j]) != '='
}

/// A `key = value` line reads back as that pair, provided the key is sound
/// and the value has no space at its edges.
proof fn lemma_classify_kv(k: Seq<char>, v: Seq<char>)
    requires
        key_ok(k),
        v.len() > 0,
        !is_space(v[0]),
        !is_space(v.last()),
    ensures
        classify(kv_line(k, v)) == LineItem::KeyVal(k, v),
{
    let line = kv_line(k, v);
    assert(line.len() == k.len() + 3 + v.len());
    assert(line[0] == k[0]);
    assert(line.last() == v.last());
    lemma_trim_id(line);
    let head = k + seq![' '];
    let tail = seq!['=', ' '] + v;
    assert(line =~= head + tail);
    assert(forall|j: int| 0 <= j < head.len() ==> (#[trigger] head[j]) != '=') by {
        assert(forall|j: int| 0 <= j < k.len() ==> head[j] == k[j]);
        assert(head[k.len() as int] == ' ');
    }
    lemma_first_eq_concat(head, tail);
    assert(tail[0] == '=');
    assert(first_eq(line) == k.len() + 1);
    assert(line.take(k.len() as int + 1) =~= k + seq![' ']);
    lemma_trim_trailing_space(k);
    lemma_trim_id(k);
    assert(line.skip(k.len() as int + 2) =~= seq![' '] + v);
    lemma_trim_leading_space(v);
    lemma_trim_id(v);
}

/// An upper-case hexadecimal digit is printable and harmless in a document.
proof fn lemma_hex_char_clean(d: int)
    requires
        0 <= d < 16,
    ensures
        crate::config::hex_digit_char(d) != '"',
        crate::config::hex_digit_char(d) != '\n',
        crate::config::hex_digit_char(d) != '\\',
        !is_space(crate::config::hex_digit_char(d)),
{
}

/// A decimal digit is printable and harmless in a document.
proof fn lemma_digit_char_clean(c: char)
    requires
        crate::text::is_digit(c),
    ensures
        c != '"',
        c != '\n',
        !is_space(c),
{
}

/// The text of a line-ending spelling holds no quote, no newline, and no
/// space at its edges.
proof fn lemma_ending_text_clean(le: LineEnding)
    ensures
        forall|j: int|
            0 <= j < le.spec_name().len() ==> (#[trigger] le.spec_name()[j]) != '"'
                && le.spec_name()[j] != '\n' && le.spec_name()[j] != '\\',
        le.spec_name().len() > 0,
{
    reveal_strlit("lf");
    reveal_strlit("cr");
    reveal_strlit("crlf");
}

/// The text of a color holds no quote, no newline.
proof fn lemma_color_text_clean(c: Color)
    ensures
        forall|j: int|
            0 <= j < c.spec_text().len() ==> (#[trigger] c.spec_text()[j]) != '"'
                && c.spec_text()[j] != '\n' && c.spec_text()[j] != '\\',
        c.spec_text().len() > 0,
{
    reveal_strlit("reset");
    reveal_strlit("black");
    reveal_strlit("red");
    reveal_strlit("green");
    reveal_strlit("yellow");
    reveal_strlit("blue");
    reveal_strlit("magenta");
    reveal_strlit("cyan");
    reveal_strlit("gray");
    reveal_strlit("white");
    match c {
        Color::Rgb(r, g, b) => {
            let s = c.spec_text();
            assert(s == seq!['#'] + crate::config::byte_hex(r) + crate::config::byte_hex(g)
                + crate::config::byte_hex(b));
            assert(s.len() == 7);
            assert forall|j: int| 0 <= j < s.len() implies (#[trigger] s[j]) != '"' && s[j]
                != '\n' && s[j] != '\\' by {
                if j == 0 {
                    assert(s[0] == '#');
                } else if j == 1 {
                    assert(s[1] == crate::config::hex_digit_char(r as int / 16));
                    lemma_hex_char_clean(r as int / 16);
                } else if j == 2 {
                    assert(s[2] == crate::config::hex_digit_char(r as int % 16));
                    lemma_hex_char_clean(r as int % 16);
                } else if j == 3 {
                    assert(s[3] == crate::config::hex_digit_char(g as int / 16));
                    lemma_hex_char_clean(g as int / 16);
                } else if j == 4 {
                    assert(s[4] == crate::config::hex_digit_char(g as int % 16));
                    lemma_hex_char_clean(g as int % 16);
                } else if j == 5 {
                    assert(s[5] == crate::config::hex_digit_char(b as int / 16));
                    lemma_hex_char_clean(b as int / 16);
                } else {
                    assert(s[6] == crate::config::hex_digit_char(b as int % 16));
                    lemma_hex_char_clean(b as int % 16);
                }
            }
        },
        _ => {},
    }
}

/// The four keys of a port table, as the parser distinguishes them.
proof fn lemma_keys_distinct()
    ensures
        key_ok("path"@),
        key_ok("baud_rate"@),
        key_ok("line_ending"@),
        key_ok("color"@),
        "baud_rate"@ != "path"@,
        "line_ending"@ != "path"@,
        "line_ending"@ != "baud_rate"@,
        "color"@ != "path"@,
        "color"@ != "baud_rate"@,
        "color"@ != "line_ending"@,
        no_nl("path"@),
        no_nl("baud_rate"@),
        no_nl("line_ending"@),
        no_nl("color"@),
{
    reveal_strlit("path");
    reveal_strlit("baud_rate");
    reveal_strlit("line_ending");
    reveal_strlit("color");
    assert("path"@.len() == 4 && "baud_rate"@.len() == 9 && "line_ending"@.len() == 11
        && "color"@.len() == 5);
}

/// A rendered decimal number is non-empty, digits only, and harmless.
proof fn lemma_dec_text_clean(n: nat)
    ensures
        dec_digits(n).len() > 0,
        !is_space(dec_digits(n)[0]),
        !is_space(dec_digits(n).last()),
        no_nl(dec_digits(n)),
        all_digits(dec_digits(n)),
        dec_val(dec_digits(n)) == n,
{
    crate::text::lemma_dec_round_trip(n);
    let s = dec_digits(n);
    assert forall|j: int| 0 <= j < s.len() implies (#[trigger] s[j]) != '\n' by {
        assert(crate::text::is_digit(s[j]));
        lemma_digit_char_clean(s[j]);
    }
    lemma_digit_char_clean(s[0]);
    lemma_digit_char_clean(s.last());
}

/// No line a table renders to holds a newline.
proof fn lemma_entry_lines_no_nl(name: Seq<char>, c: SpecPortCfg)
    requires
        name_ok(name),
        path_ok(c.path),
    ensures
        forall|i: int, j: int|
            0 <= i < render_entry_lines(name, c).len() && 0 <= j < render_entry_lines(
                name,
                c,
            )[i].len() ==> (#[trigger] render_entry_lines(name, c)[i][j]) != '\n',
{
    lemma_keys_distinct();
    let ls = render_entry_lines(name, c);
    assert(no_nl(seq!['['])) by {
        assert(seq!['['].len() == 1 && seq!['['][0] == '[');
    }
    assert(no_nl(seq![']'])) by {
        assert(seq![']'].len() == 1 && seq![']'][0] == ']');
    }
    assert(no_nl(seq![' ', '=', ' ']));
    assert(no_nl(seq!['"']));
    assert(no_nl(name));
    lemma_no_nl_concat(seq!['['], name);
    lemma_no_nl_concat(seq!['['] + name, seq![']']);
    assert(no_nl(ls[0]));

    assert(no_nl(c.path));
    lemma_escape_no_nl(c.path);
    lemma_no_nl_concat(seq!['"'], escape(c.path));
    lemma_no_nl_concat(seq!['"'] + escape(c.path), seq!['"']);
    assert(no_nl(quote(escape(c.path)))) by {
        assert(quote(escape(c.path)) == seq!['"'] + escape(c.path) + seq!['"']);
        assert((seq!['"'] + escape(c.path)) + seq!['"'] =~= seq!['"'] + escape(c.path)
            + seq!['"']);
    }
    lemma_no_nl_concat("path"@, seq![' ', '=', ' ']);
    lemma_no_nl_concat("path"@ + seq![' ', '=', ' '], quote(escape(c.path)));
    assert(no_nl(ls[1])) by {
        assert(("path"@ + seq![' ', '=', ' ']) + quote(escape(c.path)) =~= kv_line(
            "path"@,
            quote(escape(c.path)),
        ));
    }

    lemma_dec_text_clean(c.baud as nat);
    lemma_no_nl_concat("baud_rate"@, seq![' ', '=', ' ']);
    lemma_no_nl_concat("baud_rate"@ + seq![' ', '=', ' '], dec_digits(c.baud as nat));
    assert(no_nl(ls[2])) by {
        assert(("baud_rate"@ + seq![' ', '=', ' ']) + dec_digits(c.baud as nat) =~= kv_line(
            "baud_rate"@,
            dec_digits(c.baud as nat),
        ));
    }

    lemma_ending_text_clean(c.ending);
    lemma_no_nl_concat(seq!['"'], c.ending.spec_name());
    lemma_no_nl_concat(seq!['"'] + c.ending.spec_name(), seq!['"']);
    assert(no_nl(quote(c.ending.spec_name()))) by {
        assert((seq!['"'] + c.ending.spec_name()) + seq!['"'] =~= quote(c.ending.spec_name()));
    }
    lemma_no_nl_concat("line_ending"@, seq![' ', '=', ' ']);
    lemma_no_nl_concat("line_ending"@ + seq![' ', '=', ' '], quote(c.ending.spec_name()));
    assert(no_nl(ls[3])) by {
        assert(("line_ending"@ + seq![' ', '=', ' ']) + quote(c.ending.spec_name()) =~= kv_line(
            "line_ending"@,
            quote(c.ending.spec_name()),
        ));
    }

    lemma_color_text_clean(c.color);
    lemma_no_nl_concat(seq!['"'], c.color.spec_text());
    lemma_no_nl_concat(seq!['"'] + c.color.spec_text(), seq!['"']);
    assert(no_nl(quote(c.color.spec_text()))) by {
        assert((seq!['"'] + c.color.spec_text()) + seq!['"'] =~= quote(c.color.spec_text()));
    }
    lemma_no_nl_concat("color"@, seq![' ', '=', ' ']);
    lemma_no_nl_concat("color"@ + seq![' ', '=', ' '], quote(c.color.spec_text()));
    assert(no_nl(ls[4])) by {
        assert(("color"@ + seq![' ', '=', ' ']) + quote(c.color.spec_text()) =~= kv_line(
            "color"@,
            quote(c.color.spec_text()),
        ));
    }

    assert forall|i: int, j: int|
        0 <= i < ls.len() && 0 <= j < ls[i].len() implies (#[trigger] ls[i][j]) != '\n' by {
        assert(ls.len() == 5);
        if i == 0 {
            assert(no_nl(ls[0]));
        } else if i == 1 {
            assert(no_nl(ls[1]));
        } else if i == 2 {
            assert(no_nl(ls[2]));
        } else if i == 3 {
            assert(no_nl(ls[3]));
        } else {
            assert(no_nl(ls[4]));
        }
    }
}

/// No line a whole document renders to holds a newline.
proof fn lemma_render_lines_no_nl(entries: Seq<(Seq<char>, SpecPortCfg)>)
    requires
        entries_ok(entries),
    ensures
        forall|i: int, j: int|
            0 <= i < render_lines(entries).len() && 0 <= j < render_lines(entries)[i].len() ==> (
            #[trigger] render_lines(entries)[i][j]) != '\n',
    decreases entries.len(),
{
    if entries.len() > 0 {
        let block = render_entry_lines(entries[0].0, entries[0].1);
        let rest = render_lines(entries.skip(1));
        lemma_entry_lines_no_nl(entries[0].0, entries[0].1);
        assert(entries_ok(entries.skip(1))) by {
            assert(forall|i: int|
                0 <= i < entries.skip(1).len() ==> #[trigger] entries.skip(1)[i] == entries[i
                    + 1]);
        }
        lemma_render_lines_no_nl(entries.skip(1));
        assert forall|i: int, j: int|
            0 <= i < render_lines(entries).len() && 0 <= j < render_lines(entries)[i].len()
            implies (#[trigger] render_lines(entries)[i][j]) != '\n' by {
            if i < block.len() {
                assert(render_lines(entries)[i] == block[i]);
            } else {
                assert(render_lines(entries)[i] == rest[i - block.len()]);
            }
        }
    }
}

/// Reading the rendered lines of `entries` after any well-closed prefix
/// appends exactly `entries` to what was already read.
proof fn lemma_parse_render_lines(
    entries: Seq<(Seq<char>, SpecPortCfg)>,
    cur: Option<PartialCfg>,
    acc: Seq<(Seq<char>, SpecPortCfg)>,
    pend: Seq<(Seq<char>, SpecPortCfg)>,
)
    requires
        cur is None ==> pend == acc,
        cur matches Some(p) ==> finalize(p) matches Ok(e) && pend == acc.push(e),
        entries_ok(entries),
        forall|i: int| 0 <= i < entries.len() ==> !names_contain(pend, (#[trigger] entries[i]).0),
    ensures
        parse_doc(render_lines(entries), cur, acc) == Ok::<_, ConfigError>(pend + entries),
    decreases entries.len(),
{
    if entries.len() == 0 {
        assert(render_lines(entries) =~= Seq::<Seq<char>>::empty());
        assert(pend + entries =~= pend);
    } else {
        let n0 = entries[0].0;
        let c0 = entries[0].1;
        let block = render_entry_lines(n0, c0);
        let rest = render_lines(entries.skip(1));
        let lines = render_lines(entries);
        assert(lines == block + rest);
        lemma_keys_distinct();
        lemma_classify_header(n0);
        assert(lines[0] == block[0]);
        assert(classify(lines[0]) == LineItem::Header(n0));
        // The header opens the table; a duplicate would have been seen in
        // `pend`.
        assert(!names_contain(pend, n0));
        let acc1 = pend;
        let l1 = lines.skip(1);
        assert(l1 =~= block.skip(1) + rest);
        assert(match cur {
            None => parse_doc(lines, cur, acc) == parse_doc(l1, Some(fresh_partial(n0)), acc1),
            Some(p) => parse_doc(lines, cur, acc) == parse_doc(l1, Some(fresh_partial(n0)), acc1),
        });

        // path
        let vpath = quote(escape(c0.path));
        assert(vpath.len() > 0 && !is_space(vpath[0]) && !is_space(vpath.last()));
        lemma_classify_kv("path"@, vpath);
        assert(l1[0] == block[1]);
        assert(block[1] == kv_line("path"@, vpath));
        lemma_unquote_quote_escaped(c0.path);
        let p1 = PartialCfg { path: Some(c0.path), ..fresh_partial(n0) };
        assert(apply_kv(fresh_partial(n0), "path"@, vpath) == Ok::<_, ConfigError>(p1));
        let l2 = l1.skip(1);
        assert(l2 =~= block.skip(2) + rest);
        assert(parse_doc(l1, Some(fresh_partial(n0)), acc1) == parse_doc(l2, Some(p1), acc1));

        // baud_rate
        let vbaud = dec_digits(c0.baud as nat);
        lemma_dec_text_clean(c0.baud as nat);
        lemma_classify_kv("baud_rate"@, vbaud);
        assert(l2[0] == block[2]);
        let p2 = PartialCfg { baud: c0.baud, ..p1 };
        assert(apply_kv(p1, "baud_rate"@, vbaud) == Ok::<_, ConfigError>(p2));
        let l3 = l2.skip(1);
        assert(l3 =~= block.skip(3) + rest);
        assert(parse_doc(l2, Some(p1), acc1) == parse_doc(l3, Some(p2), acc1));

        // line_ending
        lemma_ending_text_clean(c0.ending);
        let vend = quote(c0.ending.spec_name());
        assert(vend.len() > 0 && !is_space(vend[0]) && !is_space(vend.last()));
        lemma_classify_kv("line_ending"@, vend);
        assert(l3[0] == block[3]);
        lemma_unquote_quote(c0.ending.spec_name());
        crate::config::lemma_line_ending_round_trip(c0.ending);
        let p3 = PartialCfg { ending: c0.ending, ..p2 };
        assert(apply_kv(p2, "line_ending"@, vend) == Ok::<_, ConfigError>(p3));
        let l4 = l3.skip(1);
        assert(l4 =~= block.skip(4) + rest);
        assert(parse_doc(l3, Some(p2), acc1) == parse_doc(l4, Some(p3), acc1));

        // color
        lemma_color_text_clean(c0.color);
        let vcol = quote(c0.color.spec_text());
        assert(vcol.len() > 0 && !is_space(vcol[0]) && !is_space(vcol.last()));
        lemma_classify_kv("color"@, vcol);
        assert(l4[0] == block[4]);
        lemma_unquote_quote(c0.color.spec_text());
        crate::config::lemma_color_round_trip(c0.color);
        let p4 = PartialCfg { color: c0.color, ..p3 };
        assert(apply_kv(p3, "color"@, vcol) == Ok::<_, ConfigError>(p4));
        let l5 = l4.skip(1);
        assert(l5 =~= rest) by {
            assert(block.skip(5) =~= Seq::<Seq<char>>::empty());
            assert(block.skip(5) + rest =~= rest);
            assert(l5 =~= block.skip(5) + rest);
        }
        assert(parse_doc(l4, Some(p3), acc1) == parse_doc(l5, Some(p4), acc1));

        // The table is complete; recurse over the remaining entries.
        assert(finalize(p4) == Ok::<_, ConfigError>((n0, c0)));
        let pend2 = pend.push((n0, c0));
        assert(entries_ok(entries.skip(1))) by {
            assert(forall|i: int|
                0 <= i < entries.skip(1).len() ==> #[trigger] entries.skip(1)[i] == entries[i
                    + 1]);
        }
        assert forall|i: int|
            0 <= i < entries.skip(1).len() implies !names_contain(
            pend2,
            (#[trigger] entries.skip(1)[i]).0,
        ) by {
            assert(entries.skip(1)[i] == entries[i + 1]);
            if names_contain(pend2, entries[i + 1].0) {
                let k = choose|k: int|
                    0 <= k < pend2.len() && (#[trigger] pend2[k]).0 == entries[i + 1].0;
                if k < pend.len() {
                    assert(pend[k].0 == entries[i + 1].0);
                    assert(names_contain(pend, entries[i + 1].0));
                } else {
                    assert(pend2[k].0 == n0);
                    assert(entries[0].0 == entries[i + 1].0);
                }
            }
        }
        lemma_parse_render_lines(entries.skip(1), Some(p4), pend, pend2);
        assert(parse_doc(rest, Some(p4), pend) == Ok::<_, ConfigError>(pend2 + entries.skip(1)));
        assert(pend2 + entries.skip(1) =~= pend + entries);
    }
}

/// Reading back a written configuration yields the same ports with the same
/// fields: the round trip of the document format, for every set of entries
/// the format can carry.
pub proof fn lemma_config_round_trip(entries: Seq<(Seq<char>, SpecPortCfg)>)
    requires
        entries_ok(entries),
    ensures
        parse_text(render_text(entries)) == Ok::<_, ConfigError>(entries),
{
    if entries.len() == 0 {
        let s = render_text(entries);
        assert(s.len() == 0);
        assert(first_nl(s) == 0);
        assert(split_lines(s) == seq![s]);
        assert(split_lines(s)[0] == s);
        assert(classify(s) is Blank) by {
            lemma_trim_id(s);
        }
        let ls = split_lines(s);
        assert(ls.skip(1) =~= Seq::<Seq<char>>::empty());
        assert(parse_doc(ls.skip(1), None, Seq::empty()) == Ok::<_, ConfigError>(
            Seq::<(Seq<char>, SpecPortCfg)>::empty(),
        ));
        assert(parse_doc(ls, None, Seq::empty()) == parse_doc(ls.skip(1), None, Seq::empty()));
        assert(entries =~= Seq::<(Seq<char>, SpecPortCfg)>::empty());
    } else {
        let lines = render_lines(entries);
        assert(lines.len() > 0) by {
            assert(lines == render_entry_lines(entries[0].0, entries[0].1) + render_lines(
                entries.skip(1),
            ));
        }
        lemma_render_lines_no_nl(entries);
        lemma_split_join(lines);
        assert(forall|i: int|
            0 <= i < entries.len() ==> !names_contain(
                Seq::<(Seq<char>, SpecPortCfg)>::empty(),
                (#[trigger] entries[i]).0,
            ));
        lemma_parse_render_lines(entries, None, Seq::empty(), Seq::empty());
        assert(Seq::<(Seq<char>, SpecPortCfg)>::empty() + entries =~= entries);
    }
}

/// The specification value of one executable port entry.
pub open spec fn entry_model(e: (String, PortConfig)) -> (Seq<char>, SpecPortCfg) {
    (
        e.0@,
        SpecPortCfg {
            path: e.1.path@,
            baud: e.1.baud_rate,
            ending: e.1.line_ending,
            color: e.1.color,
        },
    )
}

/// The specification value of an executable entry list.
pub open spec fn entries_model(es: Seq<(String, PortConfig)>) -> Seq<(Seq<char>, SpecPortCfg)> {
    es.map_values(|e: (String, PortConfig)| entry_model(e))
}

/// Joining two non-empty line lists joins their texts around a newline.
proof fn lemma_join_concat(a: Seq<Seq<char>>, b: Seq<Seq<char>>)
    requires
        a.len() > 0,
        b.len() > 0,
    ensures
        join_lines(a + b) == join_lines(a) + seq!['\n'] + join_lines(b),
    decreases a.len(),
{
    if a.len() == 1 {
        assert((a + b)[0] == a[0]);
        assert((a + b).skip(1) =~= b);
        assert(join_lines(a) == a[0]);
        assert(join_lines(a + b) == (a + b)[0] + seq!['\n'] + join_lines((a + b).skip(1)));
    } else {
        assert((a + b)[0] == a[0]);
        assert((a + b).skip(1) =~= a.skip(1) + b);
        lemma_join_concat(a.skip(1), b);
        assert(join_lines(a + b) == a[0] + seq!['\n'] + (join_lines(a.skip(1)) + seq!['\n']
            + join_lines(b)));
        assert(a[0] + seq!['\n'] + (join_lines(a.skip(1)) + seq!['\n'] + join_lines(b)) =~= (a[0]
            + seq!['\n'] + join_lines(a.skip(1))) + seq!['\n'] + join_lines(b));
    }
}

/// Rendering one more entry appends its block of lines.
proof fn lemma_render_lines_snoc(entries: Seq<(Seq<char>, SpecPortCfg)>, x: (Seq<char>, SpecPortCfg))
    ensures
        render_lines(entries.push(x)) == render_lines(entries) + render_entry_lines(x.0, x.1),
    decreases entries.len(),
{
    if entries.len() == 0 {
        assert(entries.push(x)[0] == x);
        assert(entries.push(x).skip(1) =~= Seq::<(Seq<char>, SpecPortCfg)>::empty());
        assert(render_lines(entries.push(x)) == render_entry_lines(
            entries.push(x)[0].0,
            entries.push(x)[0].1,
        ) + render_lines(entries.push(x).skip(1)));
        assert(render_lines(Seq::<(Seq<char>, SpecPortCfg)>::empty())
            =~= Seq::<Seq<char>>::empty());
        assert(render_entry_lines(x.0, x.1) + Seq::<Seq<char>>::empty() =~= render_entry_lines(
            x.0,
            x.1,
        ));
        assert(render_lines(entries) + render_entry_lines(x.0, x.1) =~= render_entry_lines(
            x.0,
            x.1,
        ));
    } else {
        assert(entries.push(x)[0] == entries[0]);
        assert(entries.push(x).skip(1) =~= entries.skip(1).push(x));
        lemma_render_lines_snoc(entries.skip(1), x);
        assert(render_entry_lines(entries[0].0, entries[0].1) + (render_lines(entries.skip(1))
            + render_entry_lines(x.0, x.1)) =~= (render_entry_lines(entries[0].0, entries[0].1)
            + render_lines(entries.skip(1))) + render_entry_lines(x.0, x.1));
    }
}

/// The specification value of one port configuration.
pub open spec fn cfg_model(cfg: PortConfig) -> SpecPortCfg {
    SpecPortCfg {
        path: cfg.path@,
        baud: cfg.baud_rate,
        ending: cfg.line_ending,
        color: cfg.color,
    }
}

/// Writes text with its quotes and backslashes escaped.
fn escape_str(s: &str) -> (r: String)
    ensures
        r@ == escape(s@),
{
    let n = s.unicode_len();
    let mut out = String::new();
    let mut i: usize = 0;
    proof {
        assert(s@.skip(0) =~= s@);
        assert(out@ + escape(s@) =~= escape(s@));
    }
    while i < n
        invariant
            n == s@.len(),
            i <= n,
            escape(s@) == out@ + escape(s@.skip(i as int)),
        decreases n - i,
    {
        let ghost suf = s@.skip(i as int);
        proof {
            assert(suf[0] == s@[i as int]);
            assert(suf.skip(1) =~= s@.skip(i + 1));
        }
        let ghost before = out@;
        let c = s.get_char(i);
        if c == '"' || c == '\\' {
            crate::text::string_push_char(&mut out, '\\');
            crate::text::string_push_char(&mut out, c);
            proof {
                assert(escape(suf) == seq!['\\', c] + escape(suf.skip(1)));
                assert(before + (seq!['\\', c] + escape(s@.skip(i + 1))) =~= out@ + escape(
                    s@.skip(i + 1),
                ));
            }
        } else {
            crate::text::string_push_char(&mut out, c);
            proof {
                assert(escape(suf) == seq![c] + escape(suf.skip(1)));
                assert(before + (seq![c] + escape(s@.skip(i + 1))) =~= out@ + escape(
                    s@.skip(i + 1),
                ));
            }
        }
        i = i + 1;
    }
    proof {
        assert(s@.skip(n as int) =~= Seq::<char>::empty());
        assert(escape(Seq::<char>::empty()) =~= Seq::<char>::empty());
        assert(out@ + Seq::<char>::empty() =~= out@);
    }
    out
}

/// Renders one port table as its five lines joined by newlines.
#[verifier::rlimit(60)]
fn render_block(name: &str, cfg: &PortConfig) -> (r: String)
    ensures
        r@ == join_lines(render_entry_lines(name@, cfg_model(*cfg))),
{
    proof {
        reveal_strlit("[");
        reveal_strlit("]\n");
        reveal_strlit("path = \"");
        reveal_strlit("\"\n");
        reveal_strlit("baud_rate = ");
        reveal_strlit("\n");
        reveal_strlit("line_ending = \"");
        reveal_strlit("color = \"");
        reveal_strlit("\"");
        reveal_strlit("path");
        reveal_strlit("baud_rate");
        reveal_strlit("line_ending");
        reveal_strlit("color");
    }
    let mut b = "[".to_owned();
    b.append(name);
    b.append("]\n");
    b.append("path = \"");
    b.append(escape_str(cfg.path.as_str()).as_str());
    b.append("\"\n");
    b.append("baud_rate = ");
    b.append(u64_to_string(cfg.baud_rate as u64).as_str());
    b.append("\n");
    b.append("line_ending = \"");
    b.append(cfg.line_ending.name());
    b.append("\"\n");
    b.append("color = \"");
    b.append(cfg.color.to_text().as_str());
    b.append("\"");
    proof {
        let m = cfg_model(*cfg);
        let ls = render_entry_lines(name@, m);
        let nl = seq!['\n'];
        assert(ls.skip(1) =~= seq![ls[1], ls[2], ls[3], ls[4]]);
        assert(seq![ls[1], ls[2], ls[3], ls[4]].skip(1) =~= seq![ls[2], ls[3], ls[4]]);
        assert(seq![ls[2], ls[3], ls[4]].skip(1) =~= seq![ls[3], ls[4]]);
        assert(seq![ls[3], ls[4]].skip(1) =~= seq![ls[4]]);
        let j4 = join_lines(seq![ls[4]]);
        assert(j4 == ls[4]);
        let j3 = join_lines(seq![ls[3], ls[4]]);
        assert(j3 == ls[3] + nl + j4);
        let j2 = join_lines(seq![ls[2], ls[3], ls[4]]);
        assert(j2 == ls[2] + nl + j3);
        let j1 = join_lines(seq![ls[1], ls[2], ls[3], ls[4]]);
        assert(j1 == ls[1] + nl + j2);
        assert(join_lines(ls) == ls[0] + nl + j1);
        assert(b@ =~= ls[0] + nl + (ls[1] + nl + (ls[2] + nl + (ls[3] + nl + ls[4]))));
        assert(ls[0] + nl + (ls[1] + nl + (ls[2] + nl + (ls[3] + nl + ls[4]))) =~= ls[0] + nl
            + j1);
    }
    b
}

/// The document-level helpers of the configuration: turning the port table
/// into its text form and back.
pub struct ConfigUtil;

impl ConfigUtil {
    /// Writes the port table as a configuration document: one table per
    /// port, in the given order. The format carries names that are
    /// non-empty, hold no newline and no space at either edge, and any
    /// path without a newline (quotes and backslashes travel escaped);
    /// names must be pairwise distinct. Anything else is refused, so that
    /// every written document reads back as the same table.
    pub fn serialize_toml(ports: &Vec<(String, PortConfig)>) -> (r: Result<String, ConfigError>)
        ensures
            match r {
                Ok(s) => entries_ok(entries_model(ports@)) && s@ == render_text(
                    entries_model(ports@),
                ),
                Err(e) => !entries_ok(entries_model(ports@)),
            },
    {
        let n = ports.len();
        let mut i: usize = 0;
        while i < n
            invariant
                n == ports@.len(),
                i <= n,
                forall|j: int|
                    0 <= j < i ==> name_ok((#[trigger] ports@[j]).0@) && path_ok(ports@[j].1.path@),
            decreases n - i,
        {
            if !writable_name(ports[i].0.as_str()) || !writable_path(ports[i].1.path.as_str()) {
                proof {
                    assert(entries_model(ports@)[i as int] == entry_model(ports@[i as int]));
                }
                return Err(ConfigError::Unwritable);
            }
            i = i + 1;
        }
        let mut a: usize = 0;
        while a < n
            invariant
                n == ports@.len(),
                a <= n,
                forall|p: int, q: int|
                    0 <= p < q < n && p < a ==> (#[trigger] ports@[p]).0@ != (
                    #[trigger] ports@[q]).0@,
            decreases n - a,
        {
            let mut b: usize = a + 1;
            while b < n
                invariant
                    n == ports@.len(),
                    a < b || b == a + 1,
                    a < n,
                    a + 1 <= b <= n,
                    forall|q: int| a < q < b ==> (#[trigger] ports@[q]).0@ != ports@[a as int].0@,
                decreases n - b,
            {
                if crate::text::str_eq(ports[a].0.as_str(), ports[b].0.as_str()) {
                    proof {
                        assert(entries_model(ports@)[a as int] == entry_model(ports@[a as int]));
                        assert(entries_model(ports@)[b as int] == entry_model(ports@[b as int]));
                    }
                    return Err(ConfigError::DuplicatePort);
                }
                b = b + 1;
            }
            a = a + 1;
        }
        proof {
            assert(entries_ok(entries_model(ports@))) by {
                assert(forall|j: int|
                    0 <= j < n ==> #[trigger] entries_model(ports@)[j] == entry_model(
                        ports@[j],
                    ));
            }
        }
        if n == 0 {
            return Ok(String::new());
        }
        proof {
            reveal_strlit("\n");
        }
        let mut out = String::new();
        let mut i: usize = 0;
        while i < n
            invariant
                n == ports@.len(),
                n > 0,
                i <= n,
                i == 0 ==> out@ == Seq::<char>::empty(),
                i > 0 ==> out@ == join_lines(render_lines(entries_model(ports@.take(i as int)))),
                i > 0 ==> render_lines(entries_model(ports@.take(i as int))).len() > 0,
            decreases n - i,
        {
            if i > 0 {
                proof {
                    reveal_strlit("\n");
                    assert("\n"@ =~= seq!['\n']);
                }
                out.append("\n");
            }
            let block = render_block(ports[i].0.as_str(), &ports[i].1);
            out.append(block.as_str());
            proof {
                let prev = entries_model(ports@.take(i as int));
                let x = entry_model(ports@[i as int]);
                let cur = entries_model(ports@.take(i + 1));
                assert(cur =~= prev.push(x));
                lemma_render_lines_snoc(prev, x);
                let bl = render_entry_lines(x.0, x.1);
                assert(bl.len() == 5);
                if i > 0 {
                    assert(render_lines(prev).len() > 0);
                    lemma_join_concat(render_lines(prev), bl);
                    assert(render_lines(cur) == render_lines(prev) + bl);
                    assert(out@ =~= join_lines(render_lines(cur)));
                } else {
                    assert(prev =~= Seq::<(Seq<char>, SpecPortCfg)>::empty());
                    assert(render_lines(prev) =~= Seq::<Seq<char>>::empty());
                    assert(render_lines(cur) =~= bl);
                    assert(out@ =~= join_lines(render_lines(cur)));
                }
                assert(render_lines(cur).len() > 0);
            }
            i = i + 1;
        }
        proof {
            assert(ports@.take(n as int) =~= ports@);
        }
        Ok(out)
    }

    /// Reads a configuration document into the port table it describes, or
    /// reports the first fault.
    pub fn deserialize_toml(content: &str) -> (r: Result<Vec<(String, PortConfig)>, ConfigError>)
        ensures
            match r {
                Ok(v) => parse_text(content@) == Ok::<_, ConfigError>(entries_model(v@)),
                Err(e) => parse_text(content@) == Err::<Seq<(Seq<char>, SpecPortCfg)>, _>(e),
            },
    {
        let chars = chars_of(content);
        let lines = split_vec(&chars);
        let ghost spec_lines = split_lines(content@);
        let n = lines.len();
        let mut acc: Vec<(String, PortConfig)> = Vec::new();
        let mut cur: Option<TableBuilder> = None;
        let mut i: usize = 0;
        proof {
            assert(spec_lines.skip(0) =~= spec_lines);
            assert(entries_model(acc@) =~= Seq::<(Seq<char>, SpecPortCfg)>::empty());
        }
        while i < n
            invariant
                n == lines@.len(),
                n == spec_lines.len(),
                forall|j: int| 0 <= j < n ==> (#[trigger] lines@[j])@ == spec_lines[j],
                i <= n,
                parse_text(content@) == parse_doc(
                    spec_lines.skip(i as int),
                    builder_model_opt(cur),
                    entries_model(acc@),
                ),
            decreases n - i,
        {
            let ghost pre_cur = builder_model_opt(cur);
            let ghost pre_acc = entries_model(acc@);
            let ghost rest = spec_lines.skip(i as int);
            proof {
                assert(rest[0] == spec_lines[i as int]);
                assert(rest.skip(1) =~= spec_lines.skip(i + 1));
            }
            let line = &lines[i];
            match classify_line(line) {
                ClassifiedLine::Blank => {},
                ClassifiedLine::Bad => {
                    return Err(ConfigError::Syntax);
                },
                ClassifiedLine::Header(nm) => {
                    if nm.len() == 0 {
                        return Err(ConfigError::Syntax);
                    }
                    match cur {
                        None => {},
                        Some(b) => {
                            match b.path {
                                None => {
                                    return Err(ConfigError::MissingPath);
                                },
                                Some(path) => {
                                    let entry = (
                                        b.name,
                                        PortConfig {
                                            path,
                                            baud_rate: b.baud,
                                            line_ending: b.ending,
                                            color: b.color,
                                        },
                                    );
                                    acc.push(entry);
                                    proof {
                                        assert(entries_model(acc@) =~= pre_acc.push(
                                            entry_model(acc@.last()),
                                        ));
                                    }
                                },
                            }
                            cur = None;
                        },
                    }
                    if contains_name_exec(&acc, &nm) {
                        return Err(ConfigError::DuplicatePort);
                    }
                    cur = Some(
                        TableBuilder {
                            name: crate::text::string_from_chars(&nm),
                            path: None,
                            baud: 115200,
                            ending: LineEnding::LF,
                            color: Color::Reset,
                        },
                    );
                },
                ClassifiedLine::KeyVal(k, v) => {
                    match cur {
                        None => {
                            return Err(ConfigError::Syntax);
                        },
                        Some(b) => {
                            if str_eq_chars("path", &k) {
                                match unquote_exec(&v) {
                                    Some(inner) => {
                                        cur = Some(
                                            TableBuilder {
                                                path: Some(crate::text::string_from_chars(&inner)),
                                                ..b
                                            },
                                        );
                                    },
                                    None => {
                                        return Err(ConfigError::Syntax);
                                    },
                                }
                            } else if str_eq_chars("baud_rate", &k) {
                                match parse_u32(&v) {
                                    Some(baud) => {
                                        cur = Some(TableBuilder { baud, ..b });
                                    },
                                    None => {
                                        return Err(ConfigError::InvalidNumber);
                                    },
                                }
                            } else if str_eq_chars("line_ending", &k) {
                                match unquote_exec(&v) {
                                    Some(inner) => {
                                        match LineEnding::try_from(
                                            crate::text::string_from_chars(&inner),
                                        ) {
                                            Ok(le) => {
                                                cur = Some(TableBuilder { ending: le, ..b });
                                            },
                                            Err(e) => {
                                                return Err(e);
                                            },
                                        }
                                    },
                                    None => {
                                        return Err(ConfigError::Syntax);
                                    },
                                }
                            } else if str_eq_chars("color", &k) {
                                match unquote_exec(&v) {
                                    Some(inner) => {
                                        let s = crate::text::string_from_chars(&inner);
                                        match Color::from_str(s.as_str()) {
                                            Ok(c) => {
                                                cur = Some(TableBuilder { color: c, ..b });
                                            },
                                            Err(e) => {
                                                return Err(e);
                                            },
                                        }
                                    },
                                    None => {
                                        return Err(ConfigError::Syntax);
                                    },
                                }
                            } else {
                                cur = Some(b);
                            }
                        },
                    }
                },
            }
            i = i + 1;
        }
        proof {
            assert(spec_lines.skip(n as int) =~= Seq::<Seq<char>>::empty());
        }
        match cur {
            None => Ok(acc),
            Some(b) => {
                match b.path {
                    None => Err(ConfigError::MissingPath),
                    Some(path) => {
                        let entry = (
                            b.name,
                            PortConfig {
                                path,
                                baud_rate: b.baud,
                                line_ending: b.ending,
                                color: b.color,
                            },
                        );
                        let ghost pre_acc = entries_model(acc@);
                        acc.push(entry);
                        proof {
                            assert(entries_model(acc@) =~= pre_acc.push(entry_model(acc@.last())));
                        }
                        Ok(acc)
                    },
                }
            },
        }
    }
}

/// Tests whether the document format can carry this port name: non-empty,
/// no newline, no space or tab at either edge.
fn writable_name(s: &str) -> (r: bool)
    ensures
        r == name_ok(s@),
{
    let n = s.unicode_len();
    if n == 0 {
        return false;
    }
    let first = s.get_char(0);
    let last = s.get_char(n - 1);
    if first == ' ' || first == '\t' || last == ' ' || last == '\t' {
        return false;
    }
    let mut i: usize = 0;
    while i < n
        invariant
            n == s@.len(),
            i <= n,
            forall|j: int| 0 <= j < i ==> (#[trigger] s@[j]) != '\n',
        decreases n - i,
    {
        if s.get_char(i) == '\n' {
            return false;
        }
        i = i + 1;
    }
    true
}

/// Tests whether the document format can carry this device path: only a
/// newline cannot travel (quotes and backslashes are escaped).
fn writable_path(s: &str) -> (r: bool)
    ensures
        r == path_ok(s@),
{
    let n = s.unicode_len();
    let mut i: usize = 0;
    while i < n
        invariant
            n == s@.len(),
            i <= n,
            forall|j: int| 0 <= j < i ==> (#[trigger] s@[j]) != '\n',
        decreases n - i,
    {
        if s.get_char(i) == '\n' {
            return false;
        }
        i = i + 1;
    }
    true
}

/// A table while it is read: the fields seen so far, defaulted.
struct TableBuilder {
    name: String,
    path: Option<String>,
    baud: u32,
    ending: LineEnding,
    color: Color,
}

/// The specification value of a table builder.
spec fn builder_model(b: TableBuilder) -> PartialCfg {
    PartialCfg {
        name: b.name@,
        path: match b.path {
            Some(p) => Some(p@),
            None => None,
        },
        baud: b.baud,
        ending: b.ending,
        color: b.color,
    }
}

/// The specification value of the open table, if any.
spec fn builder_model_opt(b: Option<TableBuilder>) -> Option<PartialCfg> {
    match b {
        Some(x) => Some(builder_model(x)),
        None => None,
    }
}

/// Whether the accumulated ports already hold this name.
fn contains_name_exec(acc: &Vec<(String, PortConfig)>, n: &Vec<char>) -> (r: bool)
    ensures
        r == names_contain(entries_model(acc@), n@),
{
    let len = acc.len();
    let mut i: usize = 0;
    while i < len
        invariant
            len == acc@.len(),
            i <= len,
            forall|j: int| 0 <= j < i ==> (#[trigger] acc@[j].0)@ != n@,
        decreases len - i,
    {
        if str_eq_chars(acc[i].0.as_str(), n) {
            assert(entries_model(acc@)[i as int].0 == n@);
            return true;
        }
        i = i + 1;
    }
    proof {
        if names_contain(entries_model(acc@), n@) {
            let k = choose|k: int|
                0 <= k < entries_model(acc@).len() && (#[trigger] entries_model(acc@)[k]).0 == n@;
            assert(acc@[k].0@ != n@);
        }
    }
    false
}

/// Resolves the escapes of a string value's inner text.
fn unescape_exec(inner: &Vec<char>) -> (r: Option<Vec<char>>)
    ensures
        match r {
            Some(out) => unescape_inner(inner@) == Some(out@),
            None => unescape_inner(inner@) is None,
        },
{
    let n = inner.len();
    let mut out: Vec<char> = Vec::new();
    let mut i: usize = 0;
    proof {
        assert(inner@.skip(0) =~= inner@);
        assert(out@ + inner@ =~= inner@);
    }
    while i < n
        invariant
            n == inner@.len(),
            i <= n,
            unescape_inner(inner@) == (match unescape_inner(inner@.skip(i as int)) {
                Some(rest) => Some(out@ + rest),
                None => None,
            }),
        decreases n - i,
    {
        let ghost suf = inner@.skip(i as int);
        proof {
            assert(suf[0] == inner@[i as int]);
        }
        let c = inner[i];
        if c == '\\' {
            if i + 1 >= n {
                proof {
                    assert(suf.len() == 1);
                    assert(unescape_inner(suf) is None);
                }
                return None;
            }
            let c2 = inner[i + 1];
            proof {
                assert(suf.len() >= 2);
                assert(suf[1] == inner@[i + 1]);
            }
            if c2 == '"' || c2 == '\\' {
                let ghost before = out@;
                out.push(c2);
                proof {
                    assert(suf.skip(2) =~= inner@.skip(i + 2));
                    assert(forall|rest: Seq<char>|
                        before + (seq![c2] + rest) =~= #[trigger] (out@ + rest));
                }
                i = i + 2;
            } else {
                proof {
                    assert(unescape_inner(suf) is None);
                }
                return None;
            }
        } else if c == '"' {
            proof {
                assert(unescape_inner(suf) is None);
            }
            return None;
        } else {
            let ghost before = out@;
            out.push(c);
            proof {
                assert(suf.skip(1) =~= inner@.skip(i + 1));
                assert(forall|rest: Seq<char>|
                    before + (seq![c] + rest) =~= #[trigger] (out@ + rest));
            }
            i = i + 1;
        }
    }
    proof {
        assert(inner@.skip(n as int) =~= Seq::<char>::empty());
        assert(unescape_inner(Seq::<char>::empty()) == Some(Seq::<char>::empty()));
        assert(out@ + Seq::<char>::empty() =~= out@);
    }
    Some(out)
}

/// Reads the contents of a quoted value, if it is one.
fn unquote_exec(v: &Vec<char>) -> (r: Option<Vec<char>>)
    ensures
        match r {
            Some(inner) => unquote(v@) == Some(inner@),
            None => unquote(v@) is None,
        },
{
    let len = v.len();
    if len < 2 {
        return None;
    }
    if v[0] != '"' || v[len - 1] != '"' {
        return None;
    }
    let body = crate::text::sub_chars(v, 1, len - 1);
    unescape_exec(&body)
}

/// One classified line, carried in executable form.
enum ClassifiedLine {
    Blank,
    Header(Vec<char>),
    KeyVal(Vec<char>, Vec<char>),
    Bad,
}

/// Exactly the first `=` of `s`, as found by a scan.
fn find_eq(v: &Vec<char>) -> (r: usize)
    ensures
        r == first_eq(v@),
{
    proof {
        lemma_first_eq(v@);
    }
    let len = v.len();
    let mut i: usize = 0;
    while i < len
        invariant
            len == v@.len(),
            i <= len,
            forall|j: int| 0 <= j < i ==> v@[j] != '=',
        decreases len - i,
    {
        if v[i] == '=' {
            proof {
                lemma_first_eq(v@);
                if first_eq(v@) < i as int {
                    assert(v@[first_eq(v@)] == '=');
                }
                if first_eq(v@) > i as int {
                    assert(v@[i as int] != '=');
                }
            }
            return i;
        }
        i = i + 1;
    }
    proof {
        lemma_first_eq(v@);
        if first_eq(v@) < len as int {
            assert(v@[first_eq(v@)] == '=');
        }
    }
    len
}

/// Trimming, stated over a window of the sequence: with only spaces before
/// `a` and from `b` on, and clean edges inside, the trim is that window.
proof fn lemma_trim_subrange(s: Seq<char>, a: int, b: int)
    requires
        0 <= a <= b <= s.len(),
        forall|j: int| 0 <= j < a ==> is_space(#[trigger] s[j]),
        forall|j: int| b <= j < s.len() ==> is_space(#[trigger] s[j]),
        a < b ==> !is_space(s[a]) && !is_space(s[b - 1]),
    ensures
        trim(s) == s.subrange(a, b),
    decreases s.len(),
{
    if s.len() == 0 {
        assert(s.subrange(a, b) =~= s);
    } else if is_space(s[0]) {
        if a == 0 {
            // Then a == b, so the whole string is spaces.
            assert(a == b);
            let t = s.skip(1);
            assert(forall|j: int| 0 <= j < t.len() ==> is_space(#[trigger] t[j])) by {
                assert(forall|j: int| 0 <= j < t.len() ==> t[j] == s[j + 1]);
            }
            lemma_trim_subrange(t, 0, 0);
            assert(t.subrange(0, 0) =~= s.subrange(a, b));
        } else {
            let t = s.skip(1);
            assert(forall|j: int| 0 <= j < t.len() ==> t[j] == s[j + 1]);
            lemma_trim_subrange(t, a - 1, b - 1);
            assert(t.subrange(a - 1, b - 1) =~= s.subrange(a, b));
        }
    } else if is_space(s.last()) {
        assert(b < s.len()) by {
            if b == s.len() {
                if a < b {
                    assert(!is_space(s[b - 1]));
                    assert(is_space(s[s.len() - 1]));
                } else {
                    assert(is_space(s[s.len() - 1]));
                    assert(a <= s.len() - 1 || a == s.len());
                    if a == s.len() {
                        assert(is_space(s[0]));
                    } else {
                        assert(is_space(s[s.len() - 1]));
                    }
                }
            }
        }
        let t = s.drop_last();
        assert(forall|j: int| 0 <= j < t.len() ==> t[j] == s[j]);
        lemma_trim_subrange(t, a, b);
        assert(t.subrange(a, b) =~= s.subrange(a, b));
    } else {
        assert(a == 0) by {
            if a > 0 {
                assert(is_space(s[0]));
            }
        }
        assert(b == s.len()) by {
            if b < s.len() {
                assert(is_space(s[s.len() - 1]));
            }
        }
        assert(s.subrange(a, b) =~= s);
    }
}

/// Removes leading and trailing spaces and tabs.
fn trim_vec(v: &Vec<char>) -> (r: Vec<char>)
    ensures
        r@ == trim(v@),
{
    let len = v.len();
    let mut a: usize = 0;
    while a < len && (v[a] == ' ' || v[a] == '\t')
        invariant
            len == v@.len(),
            a <= len,
            forall|j: int| 0 <= j < a ==> is_space(#[trigger] v@[j]),
        decreases len - a,
    {
        a = a + 1;
    }
    let mut b: usize = len;
    while b > a && (v[b - 1] == ' ' || v[b - 1] == '\t')
        invariant
            len == v@.len(),
            a <= b <= len,
            forall|j: int| 0 <= j < a ==> is_space(#[trigger] v@[j]),
            forall|j: int| b <= j < len ==> is_space(#[trigger] v@[j]),
        decreases b,
    {
        b = b - 1;
    }
    proof {
        lemma_trim_subrange(v@, a as int, b as int);
    }
    crate::text::sub_chars(v, a, b)
}

/// Classifies one line in executable form.
fn classify_line(line: &Vec<char>) -> (r: ClassifiedLine)
    ensures
        match r {
            ClassifiedLine::Blank => classify(line@) is Blank,
            ClassifiedLine::Header(n) => classify(line@) == LineItem::Header(n@),
            ClassifiedLine::KeyVal(k, v) => classify(line@) == LineItem::KeyVal(k@, v@),
            ClassifiedLine::Bad => classify(line@) is Bad,
        },
{
    let t = trim_vec(line);
    let tl = t.len();
    if tl == 0 {
        return ClassifiedLine::Blank;
    }
    if t[0] == '#' {
        return ClassifiedLine::Blank;
    }
    if t[0] == '[' {
        if tl >= 2 && t[tl - 1] == ']' {
            let inner = crate::text::sub_chars(&t, 1, tl - 1);
            let name = trim_vec(&inner);
            return ClassifiedLine::Header(name);
        }
        return ClassifiedLine::Bad;
    }
    let i = find_eq(&t);
    proof {
        lemma_first_eq(t@);
    }
    if i == tl {
        return ClassifiedLine::Bad;
    }
    let khalf = crate::text::sub_chars(&t, 0, i);
    let key = trim_vec(&khalf);
    let vhalf = crate::text::sub_chars(&t, i + 1, tl);
    let val = trim_vec(&vhalf);
    proof {
        assert(t@.take(first_eq(t@)) =~= t@.subrange(0, i as int));
        assert(t@.skip(first_eq(t@) + 1) =~= t@.subrange(i as int + 1, tl as int));
    }
    ClassifiedLine::KeyVal(key, val)
}

/// Splits text into its lines, executable form.
fn split_vec(text: &Vec<char>) -> (r: Vec<Vec<char>>)
    ensures
        r@.len() == split_lines(text@).len(),
        forall|j: int| 0 <= j < r@.len() ==> (#[trigger] r@[j])@ == split_lines(text@)[j],
{
    let len = text.len();
    let mut lines: Vec<Vec<char>> = Vec::new();
    let mut start: usize = 0;
    let mut j: usize = 0;
    proof {
        assert(lines_model(lines@) =~= Seq::<Seq<char>>::empty());
        assert(text@.skip(0) =~= text@);
        assert(lines_model(lines@) + split_lines(text@) =~= split_lines(text@));
    }
    while j < len
        invariant
            len == text@.len(),
            start <= j <= len,
            forall|q: int| start <= q < j ==> text@[q] != '\n',
            split_lines(text@) == lines_model(lines@) + split_lines(text@.skip(start as int)),
            forall|q: int|
                0 <= q < lines@.len() ==> (#[trigger] lines@[q])@ == lines_model(lines@)[q],
        decreases len - j,
    {
        if text[j] == '\n' {
            let piece = crate::text::sub_chars(text, start, j);
            let ghost pre = lines_model(lines@);
            lines.push(piece);
            proof {
                let s = text@.skip(start as int);
                assert(forall|q: int| 0 <= q < j - start ==> s[q] == text@[q + start]);
                lemma_first_nl(s);
                assert(s[j - start] == '\n');
                assert(first_nl(s) == j - start) by {
                    if first_nl(s) < j - start {
                        assert(s[first_nl(s)] == '\n');
                        assert(text@[first_nl(s) + start] == '\n');
                    }
                    if first_nl(s) > j - start {
                        assert(s[j - start] != '\n');
                    }
                }
                assert(s.take(j - start) =~= text@.subrange(start as int, j as int));
                assert(s.skip(j - start + 1) =~= text@.skip(j + 1));
                assert(split_lines(s) == seq![s.take(j - start)] + split_lines(
                    text@.skip(j + 1),
                ));
                assert(lines_model(lines@) =~= pre.push(piece@));
                assert(lines_model(lines@) + split_lines(text@.skip(j + 1)) =~= pre + split_lines(
                    s,
                ));
            }
            start = j + 1;
        }
        j = j + 1;
    }
    let piece = crate::text::sub_chars(text, start, len);
    let ghost pre = lines_model(lines@);
    lines.push(piece);
    proof {
        let s = text@.skip(start as int);
        assert(forall|q: int| 0 <= q < s.len() ==> s[q] == text@[q + start]);
        lemma_first_nl(s);
        assert(first_nl(s) == s.len()) by {
            if first_nl(s) < s.len() {
                assert(s[first_nl(s)] == '\n');
                assert(text@[first_nl(s) + start] == '\n');
            }
        }
        assert(split_lines(s) == seq![s]);
        assert(piece@ =~= s);
        assert(lines_model(lines@) =~= pre.push(piece@));
        assert(lines_model(lines@) =~= pre + split_lines(s));
        assert(forall|q: int|
            0 <= q < lines@.len() ==> (#[trigger] lines@[q])@ == lines_model(lines@)[q]);
    }
    lines
}

/// The views of executable lines.
spec fn lines_model(ls: Seq<Vec<char>>) -> Seq<Seq<char>> {
    ls.map_values(|l: Vec<char>| l@)
}

} // verus!
