//! A strict parser for the tiny TOML subset the cookbook manifests use.
//!
//! Supported, and nothing else:
//! - full-line comments (`# ...`) and trailing comments outside strings,
//! - top-level `key = value` where value is a quoted string, an integer, a
//!   bool, or an array of quoted strings (on one or several lines),
//! - `[[name]]` array-of-tables, each holding `key = value` lines.
//!
//! Anything the parser does not understand is a hard error with a line number,
//! so a malformed manifest fails loudly instead of being silently misread.
//!
//! The accepted language is stated by the spec function [`spec_parse`] over
//! the characters of the input; [`parse`] is proved to return exactly it.

use vstd::prelude::*;

use crate::text::{
    all_key_chars, all_key_chars_exec, append_chars, back_ws, back_ws_exec, chars_of, find_char,
    find_char_exec, lemma_back_ws_bounds, lemma_find_char_bounds, lemma_skip_ws_bounds,
    decimal, push_decimal, range_eq, skip_ws, skip_ws_exec, str_eq, string_of, string_of_range, text,
};

verus! {

/// A scalar or string-array value from a manifest line.
#[derive(Clone, Debug, PartialEq, Eq)]
pub enum TomlValue {
    /// A quoted string.
    Str(String),
    /// A signed integer.
    Int(i64),
    /// A boolean.
    Bool(bool),
    /// An array of strings.
    Array(Vec<String>),
}

/// Mathematical value of a [`TomlValue`].
pub enum TomlVal {
    Str(Seq<char>),
    Int(i64),
    Bool(bool),
    Array(Seq<Seq<char>>),
}

/// Views of a vector of strings.
pub open spec fn strings_view(v: Seq<String>) -> Seq<Seq<char>> {
    v.map_values(|x: String| x@)
}

impl View for TomlValue {
    type V = TomlVal;

    open spec fn view(&self) -> TomlVal {
        match self {
            TomlValue::Str(s) => TomlVal::Str(s@),
            TomlValue::Int(n) => TomlVal::Int(*n),
            TomlValue::Bool(b) => TomlVal::Bool(*b),
            TomlValue::Array(v) => TomlVal::Array(strings_view(v@)),
        }
    }
}

/// One `key = value` entry, viewed.
pub type EntryV = (Seq<char>, TomlVal);

/// Views of a list of entries.
pub open spec fn entries_view(v: Seq<(String, TomlValue)>) -> Seq<EntryV> {
    v.map_values(|e: (String, TomlValue)| (e.0@, e.1@))
}

/// Views of a list of named tables.
pub open spec fn tables_view(v: Seq<(String, Vec<(String, TomlValue)>)>) -> Seq<
    (Seq<char>, Seq<EntryV>),
> {
    v.map_values(|t: (String, Vec<(String, TomlValue)>)| (t.0@, entries_view(t.1@)))
}

/// Mathematical value of a parsed manifest.
pub struct DocV {
    pub top: Seq<EntryV>,
    pub tables: Seq<(Seq<char>, Seq<EntryV>)>,
}

/// A parsed manifest: top-level keys plus any `[[name]]` array-of-tables.
#[derive(Clone, Debug, PartialEq, Eq)]
pub struct TomlDoc {
    /// Top-level `key = value` entries, in source order.
    pub top: Vec<(String, TomlValue)>,
    /// One `(name, entries)` per `[[name]]` table, in source order.
    pub tables: Vec<(String, Vec<(String, TomlValue)>)>,
}

impl View for TomlDoc {
    type V = DocV;

    open spec fn view(&self) -> DocV {
        DocV { top: entries_view(self.top@), tables: tables_view(self.tables@) }
    }
}

// ---------------------------------------------------------------------------
// The accepted language.
// ---------------------------------------------------------------------------
/// Where a trailing comment starts in `s[i..hi]` (or `hi`), scanning with
/// string state: a `#` outside a double-quoted string starts a comment.
pub open spec fn comment_cut(s: Seq<char>, i: int, hi: int, in_str: bool, esc: bool) -> int
    decreases hi - i,
{
    if i >= hi {
        hi
    } else if in_str {
        if esc {
            comment_cut(s, i + 1, hi, true, false)
        } else if s[i] == '\\' {
            comment_cut(s, i + 1, hi, true, true)
        } else if s[i] == '"' {
            comment_cut(s, i + 1, hi, false, false)
        } else {
            comment_cut(s, i + 1, hi, true, false)
        }
    } else if s[i] == '"' {
        comment_cut(s, i + 1, hi, true, false)
    } else if s[i] == '#' {
        i
    } else {
        comment_cut(s, i + 1, hi, false, esc)
    }
}

/// Whether a `]` occurs in `s[i..hi]` outside a double-quoted string.
pub open spec fn closes(s: Seq<char>, i: int, hi: int, in_str: bool, esc: bool) -> bool
    decreases hi - i,
{
    if i >= hi {
        false
    } else if in_str {
        if esc {
            closes(s, i + 1, hi, true, false)
        } else if s[i] == '\\' {
            closes(s, i + 1, hi, true, true)
        } else if s[i] == '"' {
            closes(s, i + 1, hi, false, false)
        } else {
            closes(s, i + 1, hi, true, false)
        }
    } else if s[i] == '"' {
        closes(s, i + 1, hi, true, false)
    } else if s[i] == ']' {
        true
    } else {
        closes(s, i + 1, hi, false, esc)
    }
}

/// The array value of an assignment has its closing bracket.
pub open spec fn array_complete(a: Seq<char>) -> bool {
    match find_char(a, '=', 0, a.len() as int) {
        Some(eq) => closes(a, eq + 1, a.len() as int, false, false),
        None => false,
    }
}

/// The value of an assignment starts with `[`.
pub open spec fn starts_array(a: Seq<char>) -> bool {
    match find_char(a, '=', 0, a.len() as int) {
        Some(eq) => {
            let k = skip_ws(a, eq + 1, a.len() as int);
            k < a.len() && a[k] == '['
        },
        None => false,
    }
}

/// End (exclusive) of the line of `t` that starts at `p`, without its terminator.
pub open spec fn line_end(t: Seq<char>, p: int) -> int {
    match find_char(t, '\n', p, t.len() as int) {
        Some(k) => if k > p && t[k - 1] == '\r' {
            k - 1
        } else {
            k
        },
        None => t.len() as int,
    }
}

/// Start of the line after the one starting at `p`.
pub open spec fn next_line(t: Seq<char>, p: int) -> int {
    match find_char(t, '\n', p, t.len() as int) {
        Some(k) => k + 1,
        None => t.len() as int,
    }
}

/// Start of the trimmed, comment-free content of the line at `p`.
pub open spec fn line_lo(t: Seq<char>, p: int) -> int {
    skip_ws(t, p, comment_cut(t, p, line_end(t, p), false, false))
}

/// End of the trimmed, comment-free content of the line at `p`.
pub open spec fn line_hi(t: Seq<char>, p: int) -> int {
    back_ws(t, line_lo(t, p), comment_cut(t, p, line_end(t, p), false, false))
}

/// The trimmed, comment-free content of the line at `p`.
pub open spec fn line_text(t: Seq<char>, p: int) -> Seq<char> {
    t.subrange(line_lo(t, p), line_hi(t, p))
}

/// The name of a `[[name]]` header occupying `s[lo..hi]`, as a range.
pub open spec fn header_name(s: Seq<char>, lo: int, hi: int) -> Option<(int, int)> {
    if hi - lo >= 4 && s[lo] == '[' && s[lo + 1] == '[' && s[hi - 2] == ']' && s[hi - 1] == ']' {
        let a = skip_ws(s, lo + 2, hi - 2);
        let b = back_ws(s, a, hi - 2);
        if a < b && all_key_chars(s, a, b) {
            Some((a, b))
        } else {
            None
        }
    } else {
        None
    }
}

/// Reading a double-quoted string whose opening quote precedes `i`: the
/// decoded text and the index after the closing quote.
pub open spec fn take_str(s: Seq<char>, i: int, hi: int, out: Seq<char>) -> Option<
    (Seq<char>, int),
>
    decreases hi - i,
{
    if i >= hi {
        None
    } else if s[i] == '"' {
        Some((out, i + 1))
    } else if s[i] == '\\' {
        if i + 1 >= hi {
            None
        } else {
            take_str(s, i + 2, hi, out.push(unescape(s[i + 1])))
        }
    } else {
        take_str(s, i + 1, hi, out.push(s[i]))
    }
}

/// The character an escape sequence `\e` stands for.
pub open spec fn unescape(e: char) -> char {
    if e == 'n' {
        '\n'
    } else if e == 't' {
        '\t'
    } else {
        e
    }
}

/// A string value occupying all of `s[lo..hi]` (up to trailing whitespace).
pub open spec fn string_value(s: Seq<char>, lo: int, hi: int) -> Option<Seq<char>> {
    match take_str(s, lo + 1, hi, Seq::empty()) {
        Some((v, i)) => if skip_ws(s, i, hi) == hi {
            Some(v)
        } else {
            None
        },
        None => None,
    }
}

/// The quoted elements of an array body `s[a..b]`, appended to `items`.
pub open spec fn array_items(s: Seq<char>, a: int, b: int, items: Seq<Seq<char>>) -> Option<
    Seq<Seq<char>>,
>
    decreases b - a,
{
    if a >= b {
        Some(items)
    } else if s[a] != '"' {
        None
    } else {
        match take_str(s, a + 1, b, Seq::empty()) {
            Some((v, i)) => {
                if i <= a {
                    None
                } else {
                    let r = skip_ws(s, i, b);
                    if r < b && s[r] == ',' {
                        proof {
                            lemma_take_str(s, a + 1, b, Seq::empty());
                            lemma_skip_ws_bounds(s, i, b);
                            lemma_skip_ws_bounds(s, r + 1, b);
                        }
                        array_items(s, skip_ws(s, r + 1, b), b, items.push(v))
                    } else if r < b {
                        None
                    } else {
                        Some(items.push(v))
                    }
                }
            },
            None => None,
        }
    }
}

/// An array value `[ "a", "b", ... ]` occupying `s[lo..hi]`.
pub open spec fn array_value(s: Seq<char>, lo: int, hi: int) -> Option<Seq<Seq<char>>> {
    if hi - lo >= 2 && s[hi - 1] == ']' {
        let a = skip_ws(s, lo + 1, hi - 1);
        let b = back_ws(s, a, hi - 1);
        array_items(s, a, b, Seq::empty())
    } else {
        None
    }
}

/// Value of the ASCII digits `s[lo..hi]`.
pub open spec fn digits_value(s: Seq<char>, lo: int, hi: int) -> int
    decreases hi - lo,
{
    if hi <= lo {
        0
    } else {
        digits_value(s, lo, hi - 1) * 10 + (s[hi - 1] as int - '0' as int)
    }
}

/// All of `s[lo..hi]` are ASCII digits.
pub open spec fn all_digits(s: Seq<char>, lo: int, hi: int) -> bool {
    forall|k: int| lo <= k < hi ==> is_digit(#[trigger] s[k])
}

/// `'0' ..= '9'`.
pub open spec fn is_digit(c: char) -> bool {
    '0' <= c && c <= '9'
}

/// A decimal `i64` spelled by `s[lo..hi]`: an optional sign and one or more digits.
pub open spec fn int_value(s: Seq<char>, lo: int, hi: int) -> Option<i64> {
    let neg = lo < hi && s[lo] == '-';
    let start = if lo < hi && (s[lo] == '+' || s[lo] == '-') {
        lo + 1
    } else {
        lo
    };
    if start >= hi || !all_digits(s, start, hi) {
        None
    } else {
        let v = if neg {
            -digits_value(s, start, hi)
        } else {
            digits_value(s, start, hi)
        };
        if i64::MIN <= v <= i64::MAX {
            Some(v as i64)
        } else {
            None
        }
    }
}

/// The value spelled by `s[lo..hi]`.
pub open spec fn value_of(s: Seq<char>, lo: int, hi: int) -> Option<TomlVal> {
    if lo < hi && s[lo] == '"' {
        match string_value(s, lo, hi) {
            Some(v) => Some(TomlVal::Str(v)),
            None => None,
        }
    } else if lo < hi && s[lo] == '[' {
        match array_value(s, lo, hi) {
            Some(v) => Some(TomlVal::Array(v)),
            None => None,
        }
    } else if s.subrange(lo, hi) == seq!['t', 'r', 'u', 'e'] {
        Some(TomlVal::Bool(true))
    } else if s.subrange(lo, hi) == seq!['f', 'a', 'l', 's', 'e'] {
        Some(TomlVal::Bool(false))
    } else {
        match int_value(s, lo, hi) {
            Some(n) => Some(TomlVal::Int(n)),
            None => None,
        }
    }
}

/// Reading a string up to a closing quote with no escape before it gives
/// the characters in between, unchanged.
pub proof fn lemma_take_plain(s: Seq<char>, i: int, k: int, hi: int, out: Seq<char>)
    requires
        0 <= i <= k < hi <= s.len(),
        s[k] == '"',
        forall|j: int| i <= j < k ==> s[j] != '"' && s[j] != '\\',
    ensures
        take_str(s, i, hi, out) == Some((out + s.subrange(i, k), k + 1)),
    decreases k - i,
{
    if i < k {
        lemma_take_plain(s, i + 1, k, hi, out.push(s[i]));
        assert(out.push(s[i]) + s.subrange(i + 1, k) =~= out + s.subrange(i, k));
    } else {
        assert(out + s.subrange(i, k) =~= out);
    }
}

/// Escapes decode as written: `\n` is a line break, `\t` a tab, and a
/// backslash before any other character stands for that character.
pub proof fn lemma_unescape(e: char)
    ensures
        e == 'n' ==> unescape(e) == '\n',
        e == 't' ==> unescape(e) == '\t',
        e != 'n' && e != 't' ==> unescape(e) == e,
{
}

/// A quoted value with neither quotes nor backslashes inside reads as the
/// text between its quotes.
pub proof fn lemma_plain_string_value(s: Seq<char>, lo: int, hi: int)
    requires
        0 <= lo,
        lo + 2 <= hi <= s.len(),
        s[lo] == '"',
        s[hi - 1] == '"',
        forall|j: int| lo < j < hi - 1 ==> s[j] != '"' && s[j] != '\\',
    ensures
        value_of(s, lo, hi) == Some(TomlVal::Str(s.subrange(lo + 1, hi - 1))),
{
    lemma_take_plain(s, lo + 1, hi - 1, hi, Seq::empty());
    assert(Seq::<char>::empty() + s.subrange(lo + 1, hi - 1) =~= s.subrange(lo + 1, hi - 1));
}

/// Decimal digits read from the most significant end: the first digit
/// counts its value times ten to the number of digits after it.
pub proof fn lemma_digits_leading(s: Seq<char>, lo: int, hi: int)
    requires
        0 <= lo < hi <= s.len(),
    ensures
        digits_value(s, lo, hi) == (s[lo] as int - '0' as int) * vstd::arithmetic::power::pow(
            10,
            (hi - lo - 1) as nat,
        ) + digits_value(s, lo + 1, hi),
    decreases hi - lo,
{
    let d = s[lo] as int - '0' as int;
    reveal(vstd::arithmetic::power::pow);
    if hi == lo + 1 {
        assert(digits_value(s, lo, lo) == 0);
        assert(vstd::arithmetic::power::pow(10, 0) == 1);
        assert(digits_value(s, lo + 1, hi) == 0);
    } else {
        lemma_digits_leading(s, lo, hi - 1);
        let p = vstd::arithmetic::power::pow(10, (hi - 1 - lo - 1) as nat);
        let b = digits_value(s, lo + 1, hi - 1);
        let e = s[hi - 1] as int - '0' as int;
        assert(vstd::arithmetic::power::pow(10, (hi - lo - 1) as nat) == 10 * p);
        assert(digits_value(s, lo, hi) == digits_value(s, lo, hi - 1) * 10 + e);
        assert(digits_value(s, lo + 1, hi) == b * 10 + e);
        assert((d * p + b) * 10 + e == d * (10 * p) + (b * 10 + e)) by (nonlinear_arith);
    }
}

/// What a value reads as is what it spells: `true` and `false` read as
/// those booleans and nothing else does; a string starts with a quote and
/// an array with a bracket; a number is non-negative unless it is written
/// with a minus sign, and then it is not positive.
pub proof fn lemma_value_spelling(s: Seq<char>, lo: int, hi: int)
    requires
        0 <= lo <= hi <= s.len(),
    ensures
        value_of(s, lo, hi) == Some(TomlVal::Bool(true)) <==> s.subrange(lo, hi) == seq!['t', 'r', 'u', 'e'],
        value_of(s, lo, hi) == Some(TomlVal::Bool(false)) <==> s.subrange(lo, hi) == seq![
            'f',
            'a',
            'l',
            's',
            'e',
        ],
        value_of(s, lo, hi) matches Some(TomlVal::Str(_)) ==> lo < hi && s[lo] == '"',
        value_of(s, lo, hi) matches Some(TomlVal::Array(_)) ==> lo < hi && s[lo] == '[',
        value_of(s, lo, hi) matches Some(TomlVal::Int(n)) ==> lo < hi && (s[lo] != '-' ==> n >= 0) && (
        s[lo] == '-' ==> n <= 0),
{
    let t = s.subrange(lo, hi);
    if t == seq!['t', 'r', 'u', 'e'] {
        assert(t.len() == 4 && t[0] == 't');
        assert(hi - lo == 4);
        assert(s[lo] == t[0]);
    }
    if t == seq!['f', 'a', 'l', 's', 'e'] {
        assert(t.len() == 5 && t[0] == 'f');
        assert(hi - lo == 5);
        assert(s[lo] == t[0]);
        assert(t != seq!['t', 'r', 'u', 'e']);
    }
    if value_of(s, lo, hi) matches Some(TomlVal::Int(n)) {
        let start = if lo < hi && (s[lo] == '+' || s[lo] == '-') {
            lo + 1
        } else {
            lo
        };
        lemma_digits_nonneg(s, start, hi);
    }
}

/// The entry spelled by a `key = value` assignment `a`.
pub open spec fn assignment(a: Seq<char>) -> Option<EntryV> {
    match find_char(a, '=', 0, a.len() as int) {
        Some(eq) => {
            let klo = skip_ws(a, 0, eq);
            let khi = back_ws(a, klo, eq);
            let vlo = skip_ws(a, eq + 1, a.len() as int);
            let vhi = back_ws(a, vlo, a.len() as int);
            if klo < khi && all_key_chars(a, klo, khi) {
                match value_of(a, vlo, vhi) {
                    Some(v) => Some((a.subrange(klo, khi), v)),
                    None => None,
                }
            } else {
                None
            }
        },
        None => None,
    }
}

/// Joining the lines from `q` onto an unfinished array assignment `buf`
/// until its closing bracket appears: the joined text and the next line.
pub open spec fn continue_array(t: Seq<char>, q: int, buf: Seq<char>) -> (Seq<char>, int)
    decreases t.len() - q,
{
    if q >= t.len() || q < 0 {
        (buf, q)
    } else {
        let joined = buf.push('\n') + line_text(t, q);
        let q2 = next_line(t, q);
        proof {
            lemma_next_line(t, q);
        }
        if array_complete(joined) {
            (joined, q2)
        } else {
            continue_array(t, q2, joined)
        }
    }
}

/// Adding an entry to the current table, or to the top level.
pub open spec fn add_entry(doc: DocV, table: bool, e: EntryV) -> DocV {
    if table && doc.tables.len() > 0 {
        let last = doc.tables.len() - 1;
        DocV {
            top: doc.top,
            tables: doc.tables.update(last, (doc.tables[last].0, doc.tables[last].1.push(e))),
        }
    } else {
        DocV { top: doc.top.push(e), tables: doc.tables }
    }
}

/// Parsing the lines of `t` from `p` on, onto `doc`; `table` tells whether a
/// `[[name]]` header has been seen.
pub open spec fn parse_from(t: Seq<char>, p: int, doc: DocV, table: bool) -> Option<DocV>
    decreases t.len() - p,
{
    if p >= t.len() || p < 0 {
        Some(doc)
    } else {
        let lo = line_lo(t, p);
        let hi = line_hi(t, p);
        let q = next_line(t, p);
        proof {
            lemma_next_line(t, p);
        }
        if lo >= hi {
            parse_from(t, q, doc, table)
        } else {
            match header_name(t, lo, hi) {
                Some((a, b)) => parse_from(
                    t,
                    q,
                    DocV { top: doc.top, tables: doc.tables.push((t.subrange(a, b), Seq::empty())) },
                    true,
                ),
                None => if t[lo] == '[' {
                    None
                } else {
                    let buf = t.subrange(lo, hi);
                    let (full, q2) = if starts_array(buf) && !array_complete(buf) {
                        continue_array(t, q, buf)
                    } else {
                        (buf, q)
                    };
                    proof {
                        lemma_continue_array(t, q, buf);
                    }
                    match assignment(full) {
                        Some(e) => if q2 > p {
                            parse_from(t, q2, add_entry(doc, table, e), table)
                        } else {
                            None
                        },
                        None => None,
                    }
                },
            }
        }
    }
}

/// The manifest spelled by `text`, if it is in the accepted language.
pub open spec fn spec_parse(text: Seq<char>) -> Option<DocV> {
    parse_from(text, 0, DocV { top: Seq::empty(), tables: Seq::empty() }, false)
}

// ---------------------------------------------------------------------------
// Supporting facts.
// ---------------------------------------------------------------------------
pub proof fn lemma_next_line(t: Seq<char>, p: int)
    requires
        0 <= p < t.len(),
    ensures
        p < next_line(t, p) <= t.len(),
        p <= line_end(t, p) <= t.len(),
        line_end(t, p) < next_line(t, p) || next_line(t, p) == t.len(),
        p <= line_lo(t, p) <= line_hi(t, p) <= line_end(t, p),
{
    lemma_find_char_bounds(t, '\n', p, t.len() as int);
    let e = line_end(t, p);
    lemma_comment_cut_bounds(t, p, e, false, false);
    let c = comment_cut(t, p, e, false, false);
    lemma_skip_ws_bounds(t, p, c);
    lemma_back_ws_bounds(t, line_lo(t, p), c);
}

pub proof fn lemma_comment_cut_bounds(s: Seq<char>, i: int, hi: int, in_str: bool, esc: bool)
    requires
        i <= hi,
    ensures
        i <= comment_cut(s, i, hi, in_str, esc) <= hi,
    decreases hi - i,
{
    if i < hi {
        if in_str {
            if esc {
                lemma_comment_cut_bounds(s, i + 1, hi, true, false);
            } else if s[i] == '\\' {
                lemma_comment_cut_bounds(s, i + 1, hi, true, true);
            } else if s[i] == '"' {
                lemma_comment_cut_bounds(s, i + 1, hi, false, false);
            } else {
                lemma_comment_cut_bounds(s, i + 1, hi, true, false);
            }
        } else if s[i] == '"' {
            lemma_comment_cut_bounds(s, i + 1, hi, true, false);
        } else if s[i] != '#' {
            lemma_comment_cut_bounds(s, i + 1, hi, false, esc);
        }
    }
}

pub proof fn lemma_continue_array(t: Seq<char>, q: int, buf: Seq<char>)
    ensures
        continue_array(t, q, buf).1 >= q,
        q <= t.len() ==> continue_array(t, q, buf).1 <= t.len(),
    decreases t.len() - q,
{
    if q < t.len() && q >= 0 {
        lemma_next_line(t, q);
        let joined = buf.push('\n') + line_text(t, q);
        if !array_complete(joined) {
            lemma_continue_array(t, next_line(t, q), joined);
        }
    }
}

pub proof fn lemma_take_str(s: Seq<char>, i: int, hi: int, out: Seq<char>)
    ensures
        take_str(s, i, hi, out) matches Some((v, j)) ==> i < j <= hi,
    decreases hi - i,
{
    if i < hi && s[i] != '"' {
        if s[i] == '\\' {
            if i + 1 < hi {
                lemma_take_str(s, i + 2, hi, out.push(unescape(s[i + 1])));
            }
        } else {
            lemma_take_str(s, i + 1, hi, out.push(s[i]));
        }
    }
}

// ---------------------------------------------------------------------------
// Scanners.
// ---------------------------------------------------------------------------
fn comment_cut_exec(s: &Vec<char>, lo: usize, hi: usize) -> (r: usize)
    requires
        lo <= hi <= s.len(),
    ensures
        r == comment_cut(s@, lo as int, hi as int, false, false),
        lo <= r <= hi,
{
    let mut in_str = false;
    let mut esc = false;
    let mut i = lo;
    proof {
        lemma_comment_cut_bounds(s@, lo as int, hi as int, false, false);
    }
    while i < hi
        invariant
            lo <= i <= hi <= s.len(),
            comment_cut(s@, lo as int, hi as int, false, false) == comment_cut(
                s@,
                i as int,
                hi as int,
                in_str,
                esc,
            ),
            lo <= comment_cut(s@, lo as int, hi as int, false, false) <= hi,
            !in_str ==> !esc,
        decreases hi - i,
    {
        let c = s[i];
        if in_str {
            if esc {
                esc = false;
            } else if c == '\\' {
                esc = true;
            } else if c == '"' {
                in_str = false;
            }
        } else if c == '"' {
            in_str = true;
        } else if c == '#' {
            return i;
        }
        i += 1;
    }
    hi
}

fn closes_exec(s: &Vec<char>, lo: usize) -> (r: bool)
    requires
        lo <= s.len(),
    ensures
        r == closes(s@, lo as int, s.len() as int, false, false),
{
    let hi = s.len();
    let mut in_str = false;
    let mut esc = false;
    let mut i = lo;
    while i < hi
        invariant
            lo <= i <= hi == s.len(),
            closes(s@, lo as int, hi as int, false, false) == closes(
                s@,
                i as int,
                hi as int,
                in_str,
                esc,
            ),
            !in_str ==> !esc,
        decreases hi - i,
    {
        let c = s[i];
        if in_str {
            if esc {
                esc = false;
            } else if c == '\\' {
                esc = true;
            } else if c == '"' {
                in_str = false;
            }
        } else if c == '"' {
            in_str = true;
        } else if c == ']' {
            return true;
        }
        i += 1;
    }
    false
}

fn array_complete_exec(a: &Vec<char>) -> (r: bool)
    ensures
        r == array_complete(a@),
{
    match find_char_exec(a, '=', 0, a.len()) {
        Some(eq) => closes_exec(a, eq + 1),
        None => false,
    }
}

fn starts_array_exec(a: &Vec<char>) -> (r: bool)
    ensures
        r == starts_array(a@),
{
    match find_char_exec(a, '=', 0, a.len()) {
        Some(eq) => {
            let k = skip_ws_exec(a, eq + 1, a.len());
            k < a.len() && a[k] == '['
        },
        None => false,
    }
}

/// Bounds of the line starting at `p`: its trimmed content and the next line's start.
fn line_bounds(t: &Vec<char>, p: usize) -> (r: (usize, usize, usize))
    requires
        p < t.len(),
    ensures
        r.0 == line_lo(t@, p as int),
        r.1 == line_hi(t@, p as int),
        r.2 == next_line(t@, p as int),
{
    proof {
        lemma_next_line(t@, p as int);
    }
    let n = t.len();
    let (e, q) = match find_char_exec(t, '\n', p, n) {
        Some(k) => {
            if k > p && t[k - 1] == '\r' {
                (k - 1, k + 1)
            } else {
                (k, k + 1)
            }
        },
        None => (n, n),
    };
    let c = comment_cut_exec(t, p, e);
    let lo = skip_ws_exec(t, p, c);
    let hi = back_ws_exec(t, lo, c);
    (lo, hi, q)
}

fn header_name_exec(s: &Vec<char>, lo: usize, hi: usize) -> (r: Option<(usize, usize)>)
    requires
        lo <= hi <= s.len(),
    ensures
        r matches Some((a, b)) ==> header_name(s@, lo as int, hi as int) == Some(
            (a as int, b as int),
        ) && lo <= a <= b <= hi,
        r is None ==> header_name(s@, lo as int, hi as int) is None,
{
    if hi - lo >= 4 && s[lo] == '[' && s[lo + 1] == '[' && s[hi - 2] == ']' && s[hi - 1] == ']' {
        let a = skip_ws_exec(s, lo + 2, hi - 2);
        let b = back_ws_exec(s, a, hi - 2);
        if a < b && all_key_chars_exec(s, a, b) {
            Some((a, b))
        } else {
            None
        }
    } else {
        None
    }
}

// ---------------------------------------------------------------------------
// Values.
// ---------------------------------------------------------------------------
fn with_range(prefix: &str, s: &Vec<char>, lo: usize, hi: usize, suffix: &str) -> (r: String)
    requires
        lo <= hi <= s.len(),
    ensures
        r@ == prefix@ + s@.subrange(lo as int, hi as int) + suffix@,
{
    let mut m = text(prefix);
    let body = string_of_range(s, lo, hi);
    m.append(body.as_str());
    m.append(suffix);
    m
}

fn unescape_exec(e: char) -> (c: char)
    ensures
        c == unescape(e),
{
    if e == 'n' {
        '\n'
    } else if e == 't' {
        '\t'
    } else {
        e
    }
}

/// Reads the string whose opening quote is at `i - 1`.
fn take_str_exec(s: &Vec<char>, i: usize, hi: usize) -> (r: Result<(Vec<char>, usize), String>)
    requires
        i <= hi <= s.len(),
    ensures
        r matches Ok((v, j)) ==> take_str(s@, i as int, hi as int, Seq::empty()) == Some(
            (v@, j as int),
        ),
        r is Err ==> take_str(s@, i as int, hi as int, Seq::empty()) is None,
{
    let mut out: Vec<char> = Vec::new();
    let mut k = i;
    proof {
        lemma_take_str(s@, i as int, hi as int, Seq::empty());
    }
    while k < hi
        invariant
            i <= k <= hi <= s.len(),
            take_str(s@, i as int, hi as int, Seq::empty()) == take_str(
                s@,
                k as int,
                hi as int,
                out@,
            ),
        decreases hi - k,
    {
        let c = s[k];
        if c == '"' {
            return Ok((out, k + 1));
        } else if c == '\\' {
            if k + 1 >= hi {
                return Err(text("unterminated escape"));
            }
            out.push(unescape_exec(s[k + 1]));
            k += 2;
        } else {
            out.push(c);
            k += 1;
        }
    }
    Err(text("unterminated string"))
}

fn string_value_exec(s: &Vec<char>, lo: usize, hi: usize) -> (r: Result<Vec<char>, String>)
    requires
        lo < hi <= s.len(),
    ensures
        r matches Ok(v) ==> string_value(s@, lo as int, hi as int) == Some(v@),
        r is Err ==> string_value(s@, lo as int, hi as int) is None,
{
    let (v, i) = take_str_exec(s, lo + 1, hi)?;
    proof {
        lemma_take_str(s@, lo + 1, hi as int, Seq::empty());
    }
    let r = skip_ws_exec(s, i, hi);
    if r == hi {
        Ok(v)
    } else {
        let b = back_ws_exec(s, r, hi);
        Err(with_range("trailing text after string: `", s, r, b, "`"))
    }
}

fn array_value_exec(s: &Vec<char>, lo: usize, hi: usize) -> (r: Result<Vec<String>, String>)
    requires
        lo < hi <= s.len(),
    ensures
        r matches Ok(v) ==> array_value(s@, lo as int, hi as int) == Some(strings_view(v@)),
        r is Err ==> array_value(s@, lo as int, hi as int) is None,
{
    if !(hi - lo >= 2 && s[hi - 1] == ']') {
        return Err(text("unterminated array (missing `]`)"));
    }
    let a0 = skip_ws_exec(s, lo + 1, hi - 1);
    let b = back_ws_exec(s, a0, hi - 1);
    let mut items: Vec<String> = Vec::new();
    let mut a = a0;
    assert(strings_view(items@) =~= Seq::<Seq<char>>::empty());
    while a < b
        invariant
            lo < a0 <= a <= b <= hi - 1 < s.len(),
            array_value(s@, lo as int, hi as int) == array_items(
                s@,
                a as int,
                b as int,
                strings_view(items@),
            ),
        decreases b - a,
    {
        if s[a] != '"' {
            return Err(
                with_range("array elements must be quoted strings, found `", s, a, b, "`"),
            );
        }
        let (v, i) = take_str_exec(s, a + 1, b)?;
        proof {
            lemma_take_str(s@, a + 1, b as int, Seq::empty());
        }
        let ghost before = strings_view(items@);
        let vs = string_of(&v);
        items.push(vs);
        assert(strings_view(items@) =~= before.push(v@));
        let r = skip_ws_exec(s, i, b);
        if r < b && s[r] == ',' {
            a = skip_ws_exec(s, r + 1, b);
        } else if r < b {
            return Err(with_range("expected `,` between array elements, found `", s, r, b, "`"));
        } else {
            a = b;
        }
    }
    Ok(items)
}

pub proof fn lemma_digits_step(s: Seq<char>, lo: int, hi: int)
    requires
        lo < hi,
    ensures
        digits_value(s, lo, hi) == digits_value(s, lo, hi - 1) * 10 + (s[hi - 1] as int
            - '0' as int),
{
}

pub proof fn lemma_digits_nonneg(s: Seq<char>, lo: int, hi: int)
    requires
        all_digits(s, lo, hi),
    ensures
        digits_value(s, lo, hi) >= 0,
    decreases hi - lo,
{
    if lo < hi {
        lemma_digits_nonneg(s, lo, hi - 1);
    }
}

pub proof fn lemma_digits_mono(s: Seq<char>, lo: int, hi: int, k: int)
    requires
        lo <= k <= hi,
        all_digits(s, lo, hi),
    ensures
        digits_value(s, lo, k) <= digits_value(s, lo, hi),
    decreases hi - k,
{
    if k < hi {
        lemma_digits_mono(s, lo, hi - 1, k);
        lemma_digits_nonneg(s, lo, hi - 1);
    }
}

#[verifier::loop_isolation(false)]
fn int_value_exec(s: &Vec<char>, lo: usize, hi: usize) -> (r: Option<i64>)
    requires
        lo <= hi <= s.len(),
    ensures
        r == int_value(s@, lo as int, hi as int),
{
    let neg = lo < hi && s[lo] == '-';
    let start = if lo < hi && (s[lo] == '+' || s[lo] == '-') {
        lo + 1
    } else {
        lo
    };
    if start >= hi {
        return None;
    }
    let limit: u128 = 0x8000_0000_0000_0000;
    let mut acc: u128 = 0;
    let mut k = start;
    while k < hi
        invariant
            start <= k <= hi <= s.len(),
            all_digits(s@, start as int, k as int),
            acc == digits_value(s@, start as int, k as int),
            acc <= limit,
            limit == 0x8000_0000_0000_0000u128,
        decreases hi - k,
    {
        let c = s[k];
        if !('0' <= c && c <= '9') {
            assert(!is_digit(s@[k as int]));
            assert(!all_digits(s@, start as int, hi as int));
            return None;
        }
        let d = (c as u32 - '0' as u32) as u128;
        let next = acc * 10 + d;
        proof {
            lemma_digits_step(s@, start as int, k + 1);
        }
        if next > limit {
            proof {
                assert(all_digits(s@, start as int, k + 1));
                if all_digits(s@, start as int, hi as int) {
                    lemma_digits_mono(s@, start as int, hi as int, k + 1);
                }
            }
            return None;
        }
        acc = next;
        k += 1;
    }
    if neg {
        if acc == limit {
            Some(i64::MIN)
        } else {
            Some(-(acc as i64))
        }
    } else if acc >= limit {
        None
    } else {
        Some(acc as i64)
    }
}

fn chars_eq_lit(s: &Vec<char>, lo: usize, hi: usize, lit: &str) -> (b: bool)
    requires
        lo <= hi <= s.len(),
    ensures
        b == (s@.subrange(lo as int, hi as int) == lit@),
{
    let l = chars_of(lit);
    range_eq(s, lo, hi, &l)
}

fn value_exec(s: &Vec<char>, lo: usize, hi: usize) -> (r: Result<TomlValue, String>)
    requires
        lo <= hi <= s.len(),
    ensures
        r matches Ok(v) ==> value_of(s@, lo as int, hi as int) == Some(v@),
        r is Err ==> value_of(s@, lo as int, hi as int) is None,
{
    if lo < hi && s[lo] == '"' {
        let v = string_value_exec(s, lo, hi)?;
        let st = string_of(&v);
        return Ok(TomlValue::Str(st));
    }
    if lo < hi && s[lo] == '[' {
        let v = array_value_exec(s, lo, hi)?;
        return Ok(TomlValue::Array(v));
    }
    proof {
        reveal_strlit("true");
        reveal_strlit("false");
    }
    assert("true"@ =~= seq!['t', 'r', 'u', 'e']);
    assert("false"@ =~= seq!['f', 'a', 'l', 's', 'e']);
    if chars_eq_lit(s, lo, hi, "true") {
        assert(s@.subrange(lo as int, hi as int) == seq!['t', 'r', 'u', 'e']);
        return Ok(TomlValue::Bool(true));
    }
    assert(s@.subrange(lo as int, hi as int) != seq!['t', 'r', 'u', 'e']);
    if chars_eq_lit(s, lo, hi, "false") {
        assert(s@.subrange(lo as int, hi as int) == seq!['f', 'a', 'l', 's', 'e']);
        return Ok(TomlValue::Bool(false));
    }
    assert(s@.subrange(lo as int, hi as int) != seq!['f', 'a', 'l', 's', 'e']);
    match int_value_exec(s, lo, hi) {
        Some(n) => Ok(TomlValue::Int(n)),
        None => Err(with_range("unrecognized value `", s, lo, hi, "`")),
    }
}

fn assignment_exec(a: &Vec<char>) -> (r: Result<(String, TomlValue), String>)
    ensures
        r matches Ok(e) ==> assignment(a@) == Some((e.0@, e.1@)),
        r is Err ==> assignment(a@) is None,
{
    let n = a.len();
    let eq = match find_char_exec(a, '=', 0, n) {
        Some(eq) => eq,
        None => return Err(text("expected `key = value`")),
    };
    let klo = skip_ws_exec(a, 0, eq);
    let khi = back_ws_exec(a, klo, eq);
    if !(klo < khi && all_key_chars_exec(a, klo, khi)) {
        return Err(with_range("invalid key `", a, klo, khi, "`"));
    }
    let vlo = skip_ws_exec(a, eq + 1, n);
    let vhi = back_ws_exec(a, vlo, n);
    let v = value_exec(a, vlo, vhi)?;
    let k = string_of_range(a, klo, khi);
    Ok((k, v))
}

// ---------------------------------------------------------------------------
// The document parser.
// ---------------------------------------------------------------------------
fn copy_range(t: &Vec<char>, lo: usize, hi: usize) -> (r: Vec<char>)
    requires
        lo <= hi <= t.len(),
    ensures
        r@ == t@.subrange(lo as int, hi as int),
{
    let mut r: Vec<char> = Vec::new();
    let mut k = lo;
    while k < hi
        invariant
            lo <= k <= hi <= t.len(),
            r@ == t@.subrange(lo as int, k as int),
        decreases hi - k,
    {
        r.push(t[k]);
        k += 1;
        assert(r@ =~= t@.subrange(lo as int, k as int));
    }
    r
}

fn continue_array_exec(t: &Vec<char>, q0: usize, buf0: Vec<char>) -> (r: (Vec<char>, usize))
    requires
        q0 <= t.len(),
    ensures
        (r.0@, r.1 as int) == continue_array(t@, q0 as int, buf0@),
{
    let mut buf = buf0;
    let mut q = q0;
    while q < t.len()
        invariant
            q0 <= q <= t.len(),
            continue_array(t@, q0 as int, buf0@) == continue_array(t@, q as int, buf@),
        decreases t.len() - q,
    {
        let (lo, hi, q2) = line_bounds(t, q);
        proof {
            lemma_next_line(t@, q as int);
        }
        let ghost old_buf = buf@;
        buf.push('\n');
        let piece = copy_range(t, lo, hi);
        append_chars(&mut buf, &piece);
        assert(buf@ =~= old_buf.push('\n') + line_text(t@, q as int));
        q = q2;
        if array_complete_exec(&buf) {
            return (buf, q);
        }
    }
    (buf, q)
}

fn line_error(line_no: usize, detail: &str) -> (r: String)
    ensures
        r@ == "line "@ + decimal(line_no as nat) + ": "@ + detail@,
{
    let mut m = text("line ");
    push_decimal(&mut m, line_no as u64);
    m.append(": ");
    m.append(detail);
    m
}

/// Number of line breaks in `s`.
pub open spec fn newlines(s: Seq<char>) -> nat
    decreases s.len(),
{
    if s.len() == 0 {
        0
    } else {
        newlines(s.drop_last()) + if s.last() == '\n' { 1nat } else { 0nat }
    }
}

/// The 1-based number of the line holding position `p` of `t`: one more
/// than the line breaks before `p`, at most `usize::MAX`.
pub open spec fn line_no(t: Seq<char>, p: int) -> int {
    let n: int = newlines(t.take(p)) as int + 1;
    if n <= usize::MAX { n } else { usize::MAX as int }
}

/// Number of the line (1-based) that starts at `p`, for diagnostics.
fn line_number(t: &Vec<char>, p: usize) -> (n: usize)
    requires
        p <= t.len(),
    ensures
        n == line_no(t@, p as int),
{
    let mut n: usize = 1;
    let mut k: usize = 0;
    assert(t@.take(0) =~= Seq::<char>::empty());
    while k < p
        invariant
            k <= p <= t.len(),
            n == line_no(t@, k as int),
        decreases p - k,
    {
        assert(t@.take(k + 1).drop_last() =~= t@.take(k as int));
        assert(t@.take(k + 1).last() == t@[k as int]);
        if t[k] == '\n' && n < usize::MAX {
            n += 1;
        }
        k += 1;
    }
    n
}

fn add_entry_exec(doc: &mut TomlDoc, table: bool, e: (String, TomlValue))
    ensures
        final(doc)@ == add_entry(old(doc)@, table, (e.0@, e.1@)),
{
    let ghost ev = (e.0@, e.1@);
    if table && doc.tables.len() > 0 {
        let last = doc.tables.len() - 1;
        let ghost old_tables = doc.tables@;
        let ghost old_entries = doc.tables@[last as int].1@;
        let mut entry = doc.tables.pop().unwrap();
        entry.1.push(e);
        doc.tables.push(entry);
        assert(entries_view(doc.tables@[last as int].1@) =~= entries_view(old_entries).push(ev));
        assert(tables_view(doc.tables@) =~= tables_view(old_tables).update(
            last as int,
            (tables_view(old_tables)[last as int].0, tables_view(old_tables)[last as int].1.push(
                ev,
            )),
        ));
    } else {
        let ghost old_top = doc.top@;
        doc.top.push(e);
        assert(entries_view(doc.top@) =~= entries_view(old_top).push(ev));
    }
}

/// Parses the full manifest text.
///
/// Returns an error naming the line of the first construct it cannot accept.
pub fn parse(text_in: &str) -> (res: Result<TomlDoc, String>)
    ensures
        res matches Ok(d) ==> spec_parse(text_in@) == Some(d@),
        res is Err ==> spec_parse(text_in@) is None,
{
    let t = chars_of(text_in);
    let mut doc = TomlDoc { top: Vec::new(), tables: Vec::new() };
    let mut table = false;
    let mut p: usize = 0;
    assert(doc@.top =~= Seq::<EntryV>::empty());
    assert(doc@.tables =~= Seq::<(Seq<char>, Seq<EntryV>)>::empty());
    while p < t.len()
        invariant
            p <= t.len(),
            t@ == text_in@,
            spec_parse(text_in@) == parse_from(t@, p as int, doc@, table),
        decreases t.len() - p,
    {
        proof {
            lemma_next_line(t@, p as int);
        }
        let (lo, hi, q) = line_bounds(&t, p);
        if lo >= hi {
            p = q;
            continue;
        }
        match header_name_exec(&t, lo, hi) {
            Some((a, b)) => {
                let name = string_of_range(&t, a, b);
                let ghost old_tables = doc.tables@;
                doc.tables.push((name, Vec::new()));
                proof {
                    assert(entries_view(doc.tables@[doc.tables@.len() - 1].1@) =~= Seq::<
                        EntryV,
                    >::empty());
                    assert(tables_view(doc.tables@) =~= tables_view(old_tables).push(
                        (t@.subrange(a as int, b as int), Seq::empty()),
                    ));
                }
                table = true;
                p = q;
                continue;
            },
            None => {},
        }
        if t[lo] == '[' {
            let n = line_number(&t, p);
            let body = with_range("unsupported table header `", &t, lo, hi, "`");
            return Err(line_error(n, body.as_str()));
        }
        let buf = copy_range(&t, lo, hi);
        let (full, q2) = if starts_array_exec(&buf) && !array_complete_exec(&buf) {
            continue_array_exec(&t, q, buf)
        } else {
            (buf, q)
        };
        proof {
            lemma_continue_array(t@, q as int, t@.subrange(lo as int, hi as int));
        }
        let e = match assignment_exec(&full) {
            Ok(e) => e,
            Err(m) => {
                let n = line_number(&t, p);
                return Err(line_error(n, m.as_str()));
            },
        };
        add_entry_exec(&mut doc, table, e);
        p = q2;
    }
    Ok(doc)
}

// ---------------------------------------------------------------------------
// Document queries.
// ---------------------------------------------------------------------------
/// The value of the first entry of `v` whose key is `key`.
pub open spec fn lookup(v: Seq<EntryV>, key: Seq<char>) -> Option<TomlVal> {
    lookup_from(v, key, 0)
}

/// `lookup` restricted to entries at or after `i`.
pub open spec fn lookup_from(v: Seq<EntryV>, key: Seq<char>, i: int) -> Option<TomlVal>
    decreases v.len() - i,
{
    if i < 0 || i >= v.len() {
        None
    } else if v[i].0 == key {
        Some(v[i].1)
    } else {
        lookup_from(v, key, i + 1)
    }
}

/// Finds the first entry of `v` with key `key`.
pub fn find_entry<'a>(v: &'a Vec<(String, TomlValue)>, key: &str) -> (r: Option<&'a TomlValue>)
    ensures
        r matches Some(x) ==> lookup(entries_view(v@), key@) == Some(x@),
        r is None ==> lookup(entries_view(v@), key@) is None,
{
    let mut i: usize = 0;
    while i < v.len()
        invariant
            i <= v.len(),
            lookup(entries_view(v@), key@) == lookup_from(entries_view(v@), key@, i as int),
        decreases v.len() - i,
    {
        if str_eq(v[i].0.as_str(), key) {
            return Some(&v[i].1);
        }
        i += 1;
    }
    None
}

/// `n` is spelled by some element of `allowed`.
pub open spec fn name_allowed(n: Seq<char>, allowed: Seq<&str>) -> bool {
    exists|j: int| 0 <= j < allowed.len() && (#[trigger] allowed[j])@ == n
}

/// Every key of `v` is spelled by some element of `allowed`.
pub open spec fn keys_allowed(v: Seq<EntryV>, allowed: Seq<&str>) -> bool {
    forall|i: int| 0 <= i < v.len() ==> #[trigger] name_allowed(v[i].0, allowed)
}

/// Every table name of `v` is spelled by some element of `allowed`.
pub open spec fn table_names_allowed(v: Seq<(Seq<char>, Seq<EntryV>)>, allowed: Seq<&str>) -> bool {
    forall|i: int| 0 <= i < v.len() ==> #[trigger] name_allowed(v[i].0, allowed)
}

/// The entry lists of the tables of `ts` named `name`, in order.
pub open spec fn tables_with(ts: Seq<(Seq<char>, Seq<EntryV>)>, name: Seq<char>) -> Seq<Seq<EntryV>>
    decreases ts.len(),
{
    if ts.len() == 0 {
        Seq::empty()
    } else {
        let r = tables_with(ts.drop_last(), name);
        if ts.last().0 == name {
            r.push(ts.last().1)
        } else {
            r
        }
    }
}

/// Whether `s` is one of `allowed`.
pub fn contains_str(allowed: &[&str], s: &str) -> (b: bool)
    ensures
        b == name_allowed(s@, allowed@),
{
    let mut i: usize = 0;
    while i < allowed.len()
        invariant
            i <= allowed.len(),
            forall|j: int| 0 <= j < i ==> (#[trigger] allowed@[j])@ != s@,
        decreases allowed.len() - i,
    {
        if str_eq(allowed[i], s) {
            return true;
        }
        i += 1;
    }
    false
}

impl TomlDoc {
    /// Look up a top-level key.
    pub fn get(&self, key: &str) -> (r: Option<&TomlValue>)
        ensures
            r matches Some(x) ==> lookup(self@.top, key@) == Some(x@),
            r is None ==> lookup(self@.top, key@) is None,
    {
        find_entry(&self.top, key)
    }

    /// Every `[[name]]` table with the given name, in source order.
    pub fn tables_named(&self, name: &str) -> (r: Vec<&Vec<(String, TomlValue)>>)
        ensures
            r@.map_values(|t: &Vec<(String, TomlValue)>| entries_view(t@)) == tables_with(
                self@.tables,
                name@,
            ),
    {
        let mut out: Vec<&Vec<(String, TomlValue)>> = Vec::new();
        let mut i: usize = 0;
        let ghost vw = |t: &Vec<(String, TomlValue)>| entries_view(t@);
        while i < self.tables.len()
            invariant
                i <= self.tables.len(),
                vw == (|t: &Vec<(String, TomlValue)>| entries_view(t@)),
                out@.map_values(vw) == tables_with(self@.tables.take(i as int), name@),
            decreases self.tables.len() - i,
        {
            let ghost before = out@;
            assert(self@.tables.take(i + 1).drop_last() =~= self@.tables.take(i as int));
            assert(self@.tables.take(i + 1).last() == self@.tables[i as int]);
            if str_eq(self.tables[i].0.as_str(), name) {
                out.push(&self.tables[i].1);
                assert(out@.map_values(vw) =~= before.map_values(vw).push(
                    entries_view(self.tables@[i as int].1@),
                ));
            }
            i += 1;
        }
        assert(self@.tables.take(i as int) =~= self@.tables);
        out
    }

    /// Reject any top-level key not in `allowed` (strict schema check).
    pub fn reject_unknown_top(&self, allowed: &[&str]) -> (r: Result<(), String>)
        ensures
            r is Ok <==> keys_allowed(self@.top, allowed@),
    {
        let mut i: usize = 0;
        while i < self.top.len()
            invariant
                i <= self.top.len(),
                forall|k: int| 0 <= k < i ==> #[trigger] name_allowed(self@.top[k].0, allowed@),
            decreases self.top.len() - i,
        {
            if !contains_str(allowed, self.top[i].0.as_str()) {
                let mut m = text("unknown key `");
                m.append(self.top[i].0.as_str());
                m.append("`");
                assert(!name_allowed(self@.top[i as int].0, allowed@));
                return Err(m);
            }
            i += 1;
        }
        Ok(())
    }

    /// Reject any `[[name]]` table whose name is not in `allowed`.
    pub fn reject_unknown_tables(&self, allowed: &[&str]) -> (r: Result<(), String>)
        ensures
            r is Ok <==> table_names_allowed(self@.tables, allowed@),
    {
        let mut i: usize = 0;
        while i < self.tables.len()
            invariant
                i <= self.tables.len(),
                forall|k: int| 0 <= k < i ==> #[trigger] name_allowed(self@.tables[k].0, allowed@),
            decreases self.tables.len() - i,
        {
            if !contains_str(allowed, self.tables[i].0.as_str()) {
                let mut m = text("unknown table `[[");
                m.append(self.tables[i].0.as_str());
                m.append("]]`");
                assert(!name_allowed(self@.tables[i as int].0, allowed@));
                return Err(m);
            }
            i += 1;
        }
        Ok(())
    }
}

impl TomlValue {
    /// The string value, or an error naming the actual type.
    pub fn as_str(&self) -> (r: Result<&str, String>)
        ensures
            r matches Ok(s) ==> self@ == TomlVal::Str(s@),
            r is Err ==> !(self@ is Str),
    {
        match self {
            TomlValue::Str(s) => Ok(s.as_str()),
            _ => {
                let mut m = text("expected string, found ");
                m.append(self.kind_name());
                Err(m)
            },
        }
    }

    /// The integer value, or an error naming the actual type.
    pub fn as_int(&self) -> (r: Result<i64, String>)
        ensures
            r matches Ok(n) ==> self@ == TomlVal::Int(n),
            r is Err ==> !(self@ is Int),
    {
        match self {
            TomlValue::Int(n) => Ok(*n),
            _ => {
                let mut m = text("expected integer, found ");
                m.append(self.kind_name());
                Err(m)
            },
        }
    }

    /// The string-array value, or an error naming the actual type.
    pub fn as_array(&self) -> (r: Result<&[String], String>)
        ensures
            r matches Ok(v) ==> self@ == TomlVal::Array(strings_view(v@)),
            r is Err ==> !(self@ is Array),
    {
        match self {
            TomlValue::Array(items) => Ok(items.as_slice()),
            _ => {
                let mut m = text("expected array, found ");
                m.append(self.kind_name());
                Err(m)
            },
        }
    }

    fn kind_name(&self) -> (r: &'static str)
        ensures
            r@ == match self@ {
                TomlVal::Str(_) => "string"@,
                TomlVal::Int(_) => "integer"@,
                TomlVal::Bool(_) => "bool"@,
                TomlVal::Array(_) => "array"@,
            },
    {
        match self {
            TomlValue::Str(_) => "string",
            TomlValue::Int(_) => "integer",
            TomlValue::Bool(_) => "bool",
            TomlValue::Array(_) => "array",
        }
    }
}

} // verus!
