//! What appending a line does to a parsed manifest: the lines already there
//! read as before, so an assignment appended after the last line of a
//! document without tables lands at its top level.

use vstd::prelude::*;

use crate::cookbook::toml_lite::{
    DocV, EntryV, TomlVal, add_entry, array_complete, array_items, array_value, assignment, closes,
    comment_cut, continue_array, header_name, line_end, line_hi, line_lo, line_text, next_line,
    parse_from, spec_parse, starts_array, take_str, value_of, lemma_next_line, lemma_take_str,
    lemma_continue_array,
};
use crate::text::{
    all_key_chars, back_ws, find_char, is_ws, lemma_back_ws_bounds, lemma_find_char_bounds,
    lemma_skip_ws_bounds, skip_ws,
};

verus! {

/// `a` and `b` hold the same characters at `lo..hi`.
pub open spec fn agree(a: Seq<char>, b: Seq<char>, lo: int, hi: int) -> bool {
    &&& 0 <= lo
    &&& hi <= a.len()
    &&& hi <= b.len()
    &&& forall|k: int| lo <= k < hi ==> a[k] == b[k]
}

proof fn lemma_skip_ws_agree(a: Seq<char>, b: Seq<char>, i: int, hi: int)
    requires
        agree(a, b, i, hi),
    ensures
        skip_ws(a, i, hi) == skip_ws(b, i, hi),
    decreases hi - i,
{
    if i < hi && is_ws(a[i]) {
        lemma_skip_ws_agree(a, b, i + 1, hi);
    }
}

proof fn lemma_back_ws_agree(a: Seq<char>, b: Seq<char>, lo: int, j: int)
    requires
        agree(a, b, lo, j),
    ensures
        back_ws(a, lo, j) == back_ws(b, lo, j),
    decreases j - lo,
{
    if lo < j && is_ws(a[j - 1]) {
        lemma_back_ws_agree(a, b, lo, j - 1);
    }
}

proof fn lemma_find_char_agree(a: Seq<char>, b: Seq<char>, c: char, lo: int, hi: int)
    requires
        agree(a, b, lo, hi),
    ensures
        find_char(a, c, lo, hi) == find_char(b, c, lo, hi),
    decreases hi - lo,
{
    if lo < hi && a[lo] != c {
        lemma_find_char_agree(a, b, c, lo + 1, hi);
    }
}

proof fn lemma_find_char_wider(s: Seq<char>, c: char, lo: int, hi: int, hi2: int)
    requires
        find_char(s, c, lo, hi) is Some,
        hi <= hi2,
    ensures
        find_char(s, c, lo, hi2) == find_char(s, c, lo, hi),
    decreases hi - lo,
{
    if lo < hi && s[lo] != c {
        lemma_find_char_wider(s, c, lo + 1, hi, hi2);
    }
}

proof fn lemma_comment_cut_agree(a: Seq<char>, b: Seq<char>, i: int, hi: int, in_str: bool, esc: bool)
    requires
        agree(a, b, i, hi),
    ensures
        comment_cut(a, i, hi, in_str, esc) == comment_cut(b, i, hi, in_str, esc),
    decreases hi - i,
{
    if i < hi {
        if in_str {
            if esc {
                lemma_comment_cut_agree(a, b, i + 1, hi, true, false);
            } else if a[i] == '\\' {
                lemma_comment_cut_agree(a, b, i + 1, hi, true, true);
            } else if a[i] == '"' {
                lemma_comment_cut_agree(a, b, i + 1, hi, false, false);
            } else {
                lemma_comment_cut_agree(a, b, i + 1, hi, true, false);
            }
        } else if a[i] == '"' {
            lemma_comment_cut_agree(a, b, i + 1, hi, true, false);
        } else if a[i] != '#' {
            lemma_comment_cut_agree(a, b, i + 1, hi, false, esc);
        }
    }
}

/// Where `a` agrees with `t` up to the end of `t`, and `t` ends a line at
/// or after `p`, the line of `a` at `p` is the line of `t` at `p`.
proof fn lemma_line_agree(t: Seq<char>, a: Seq<char>, p: int)
    requires
        0 <= p < t.len(),
        t[t.len() - 1] == '\n',
        agree(t, a, 0, t.len() as int),
    ensures
        line_end(a, p) == line_end(t, p),
        next_line(a, p) == next_line(t, p),
        line_lo(a, p) == line_lo(t, p),
        line_hi(a, p) == line_hi(t, p),
        line_text(a, p) == line_text(t, p),
        p < next_line(t, p) <= t.len(),
        line_end(t, p) <= t.len(),
        p <= line_lo(t, p) <= line_hi(t, p) <= line_end(t, p),
{
    let n = t.len() as int;
    lemma_find_char_bounds(t, '\n', p, n);
    assert(find_char(t, '\n', p, n) is Some) by {
        if find_char(t, '\n', p, n) is None {
            assert(t[n - 1] != '\n');
        }
    }
    lemma_find_char_agree(t, a, '\n', p, n);
    lemma_find_char_wider(a, '\n', p, n, a.len() as int);
    let k = find_char(t, '\n', p, n)->0;
    let e = line_end(t, p);
    assert(e == line_end(a, p));
    lemma_comment_cut_agree(t, a, p, e, false, false);
    let cut = comment_cut(t, p, e, false, false);
    crate::cookbook::toml_lite::lemma_comment_cut_bounds(t, p, e, false, false);
    lemma_skip_ws_agree(t, a, p, cut);
    lemma_skip_ws_bounds(t, p, cut);
    let lo = skip_ws(t, p, cut);
    lemma_back_ws_agree(t, a, lo, cut);
    lemma_back_ws_bounds(t, lo, cut);
    let hi = back_ws(t, lo, cut);
    assert(a.subrange(lo, hi) =~= t.subrange(lo, hi));
}

proof fn lemma_header_agree(t: Seq<char>, a: Seq<char>, lo: int, hi: int)
    requires
        0 <= lo <= hi,
        agree(t, a, lo, hi),
    ensures
        header_name(a, lo, hi) == header_name(t, lo, hi),
        header_name(t, lo, hi) matches Some((x, y)) ==> lo <= x <= y <= hi && a.subrange(x, y) == t.subrange(x, y),
{
    if hi - lo >= 4 && t[lo] == '[' && t[lo + 1] == '[' && t[hi - 2] == ']' && t[hi - 1] == ']' {
        lemma_skip_ws_agree(t, a, lo + 2, hi - 2);
        lemma_skip_ws_bounds(t, lo + 2, hi - 2);
        let x = skip_ws(t, lo + 2, hi - 2);
        lemma_back_ws_agree(t, a, x, hi - 2);
        lemma_back_ws_bounds(t, x, hi - 2);
        let y = back_ws(t, x, hi - 2);
        assert(all_key_chars(a, x, y) == all_key_chars(t, x, y)) by {
            assert forall|k: int| x <= k < y implies a[k] == t[k] by {}
        }
        assert(a.subrange(x, y) =~= t.subrange(x, y));
    }
}

proof fn lemma_skip_ws_run(s: Seq<char>, i: int, hi: int)
    requires
        i <= hi,
    ensures
        forall|k: int| i <= k < skip_ws(s, i, hi) ==> is_ws(#[trigger] s[k]),
    decreases hi - i,
{
    if i < hi && is_ws(s[i]) {
        lemma_skip_ws_run(s, i + 1, hi);
    }
}

proof fn lemma_back_ws_run(s: Seq<char>, lo: int, j: int)
    requires
        lo <= j,
    ensures
        forall|k: int| back_ws(s, lo, j) <= k < j ==> is_ws(#[trigger] s[k]),
    decreases j - lo,
{
    if lo < j && is_ws(s[j - 1]) {
        lemma_back_ws_run(s, lo, j - 1);
    }
}

/// Characters that a bracket scan outside strings steps over.
pub open spec fn plain(c: char) -> bool {
    c != '"' && c != ']'
}

proof fn lemma_closes_plain(s: Seq<char>, i: int, j: int, hi: int, esc: bool)
    requires
        i <= j <= hi,
        forall|k: int| i <= k < j ==> plain(#[trigger] s[k]),
    ensures
        closes(s, i, hi, false, esc) == closes(s, j, hi, false, esc),
    decreases j - i,
{
    if i < j {
        assert(plain(s[i]));
        lemma_closes_plain(s, i + 1, j, hi, esc);
    }
}

proof fn lemma_closes_take_str(s: Seq<char>, i: int, hi: int, big: int, out: Seq<char>)
    requires
        hi <= big,
        take_str(s, i, hi, out) is Some,
    ensures
        take_str(s, i, hi, out) matches Some((v, j)) && closes(s, i, big, true, false) == closes(s, j, big, false, false),
    decreases hi - i,
{
    assert(i < hi);
    if s[i] == '"' {
    } else if s[i] == '\\' {
        assert(i + 1 < hi);
        assert(closes(s, i + 1, big, true, true) == closes(s, i + 2, big, true, false));
        lemma_closes_take_str(s, i + 2, hi, big, out.push(crate::cookbook::toml_lite::unescape(s[i + 1])));
    } else {
        lemma_closes_take_str(s, i + 1, hi, big, out.push(s[i]));
    }
}

proof fn lemma_closes_items(s: Seq<char>, a: int, b: int, big: int, items: Seq<Seq<char>>)
    requires
        0 <= a <= b <= big,
        array_items(s, a, b, items) is Some,
    ensures
        closes(s, a, big, false, false) == closes(s, b, big, false, false),
    decreases b - a,
{
    if a < b {
        lemma_take_str(s, a + 1, b, Seq::empty());
        let (v, i) = take_str(s, a + 1, b, Seq::empty())->0;
        lemma_closes_take_str(s, a + 1, b, big, Seq::empty());
        lemma_skip_ws_bounds(s, i, b);
        lemma_skip_ws_run(s, i, b);
        let r = skip_ws(s, i, b);
        lemma_closes_plain(s, i, r, big, false);
        if r < b && s[r] == ',' {
            lemma_skip_ws_bounds(s, r + 1, b);
            lemma_skip_ws_run(s, r + 1, b);
            let n = skip_ws(s, r + 1, b);
            lemma_closes_plain(s, r, n, big, false);
            lemma_closes_items(s, n, b, big, items.push(v));
        }
    }
}

/// An assignment whose value starts with `[` and is read as a value has its
/// closing bracket.
proof fn lemma_array_assignment_complete(a: Seq<char>)
    requires
        assignment(a) is Some,
        starts_array(a),
    ensures
        array_complete(a),
{
    let n = a.len() as int;
    lemma_find_char_bounds(a, '=', 0, n);
    let eq = find_char(a, '=', 0, n)->0;
    lemma_skip_ws_bounds(a, eq + 1, n);
    lemma_skip_ws_run(a, eq + 1, n);
    let vlo = skip_ws(a, eq + 1, n);
    lemma_back_ws_bounds(a, vlo, n);
    lemma_back_ws_run(a, vlo, n);
    let vhi = back_ws(a, vlo, n);
    assert(a[vlo] == '[');
    assert(value_of(a, vlo, vhi) is Some);
    assert(vlo < vhi) by {
        if vhi <= vlo {
            assert(vhi == vlo);
        }
    }
    assert(array_value(a, vlo, vhi) is Some);
    lemma_skip_ws_bounds(a, vlo + 1, vhi - 1);
    lemma_skip_ws_run(a, vlo + 1, vhi - 1);
    let x = skip_ws(a, vlo + 1, vhi - 1);
    lemma_back_ws_bounds(a, x, vhi - 1);
    lemma_back_ws_run(a, x, vhi - 1);
    let y = back_ws(a, x, vhi - 1);
    lemma_closes_plain(a, eq + 1, vlo, n, false);
    lemma_closes_plain(a, vlo + 1, x, n, false);
    lemma_closes_items(a, x, y, n, Seq::empty());
    lemma_closes_plain(a, y, vhi - 1, n, false);
}

proof fn lemma_skip_ws_stops(s: Seq<char>, a: Seq<char>, i: int, hi: int, hi2: int)
    requires
        0 <= i <= hi,
        skip_ws(s, i, hi) < hi,
        agree(s, a, i, skip_ws(s, i, hi) + 1),
        skip_ws(s, i, hi) < hi2 <= a.len(),
    ensures
        skip_ws(a, i, hi2) == skip_ws(s, i, hi),
    decreases hi - i,
{
    lemma_skip_ws_bounds(s, i, hi);
    if i < hi && is_ws(s[i]) {
        lemma_skip_ws_bounds(s, i + 1, hi);
        assert(a[i] == s[i]);
        lemma_skip_ws_stops(s, a, i + 1, hi, hi2);
    } else {
        assert(a[i] == s[i]);
    }
}

/// A value that starts with `[` still does once more lines are joined on.
proof fn lemma_starts_array_prefix(buf: Seq<char>, full: Seq<char>)
    requires
        starts_array(buf),
        agree(buf, full, 0, buf.len() as int),
    ensures
        starts_array(full),
{
    let n = buf.len() as int;
    lemma_find_char_bounds(buf, '=', 0, n);
    lemma_find_char_agree(buf, full, '=', 0, n);
    lemma_find_char_wider(full, '=', 0, n, full.len() as int);
    let eq = find_char(buf, '=', 0, n)->0;
    lemma_skip_ws_bounds(buf, eq + 1, n);
    let k = skip_ws(buf, eq + 1, n);
    assert(k < n && buf[k] == '[');
    lemma_skip_ws_stops(buf, full, eq + 1, n, full.len() as int);
    assert(full[k] == buf[k]);
}

/// Joining lines keeps what was joined so far in front.
proof fn lemma_continue_prefix(t: Seq<char>, q: int, buf: Seq<char>)
    ensures
        agree(buf, continue_array(t, q, buf).0, 0, buf.len() as int),
    decreases t.len() - q,
{
    if 0 <= q < t.len() {
        let joined = buf.push('\n') + line_text(t, q);
        lemma_next_line(t, q);
        if !array_complete(joined) {
            lemma_continue_prefix(t, next_line(t, q), joined);
        }
    }
}

/// Joining lines of `a`, which agrees with `t` through the end of `t`,
/// gives what joining lines of `t` gives, where that closed the array.
proof fn lemma_continue_agree(t: Seq<char>, a: Seq<char>, q: int, buf: Seq<char>)
    requires
        t.len() > 0 ==> t[t.len() - 1] == '\n',
        agree(t, a, 0, t.len() as int),
        0 <= q,
        !array_complete(buf),
        array_complete(continue_array(t, q, buf).0),
    ensures
        continue_array(a, q, buf) == continue_array(t, q, buf),
    decreases t.len() - q,
{
    if q < t.len() {
        lemma_line_agree(t, a, q);
        let joined = buf.push('\n') + line_text(t, q);
        if !array_complete(joined) {
            lemma_continue_agree(t, a, next_line(t, q), joined);
        }
    }
}

/// Parsing only adds tables.
proof fn lemma_parse_tables_grow(t: Seq<char>, p: int, doc: DocV, table: bool)
    requires
        parse_from(t, p, doc, table) is Some,
    ensures
        parse_from(t, p, doc, table)->0.tables.len() >= doc.tables.len(),
    decreases t.len() - p,
{
    if 0 <= p < t.len() {
        let lo = line_lo(t, p);
        let hi = line_hi(t, p);
        let q = next_line(t, p);
        lemma_next_line(t, p);
        if lo >= hi {
            lemma_parse_tables_grow(t, q, doc, table);
        } else {
            match header_name(t, lo, hi) {
                Some((x, y)) => {
                    lemma_parse_tables_grow(
                        t,
                        q,
                        DocV { top: doc.top, tables: doc.tables.push((t.subrange(x, y), Seq::empty())) },
                        true,
                    );
                },
                None => {
                    let buf = t.subrange(lo, hi);
                    let (full, q2) = if starts_array(buf) && !array_complete(buf) {
                        continue_array(t, q, buf)
                    } else {
                        (buf, q)
                    };
                    lemma_continue_array(t, q, buf);
                    let e = assignment(full)->0;
                    lemma_parse_tables_grow(t, q2, add_entry(doc, table, e), table);
                },
            }
        }
    }
}

/// Parsing `a`, which agrees with `t` through the end of `t` (the end of a
/// line), reads the lines of `t` as parsing `t` does, where those add no
/// table: then it goes on from the end of `t` with what `t` gave.
proof fn lemma_parse_prefix(t: Seq<char>, a: Seq<char>, p: int, doc: DocV, table: bool)
    requires
        t.len() > 0 ==> t[t.len() - 1] == '\n',
        agree(t, a, 0, t.len() as int),
        0 <= p <= t.len(),
        parse_from(t, p, doc, table) is Some,
        parse_from(t, p, doc, table)->0.tables.len() == doc.tables.len(),
    ensures
        parse_from(a, p, doc, table) == parse_from(a, t.len() as int, parse_from(t, p, doc, table)->0, table),
    decreases t.len() - p,
{
    if p < t.len() {
        lemma_line_agree(t, a, p);
        let lo = line_lo(t, p);
        let hi = line_hi(t, p);
        let q = next_line(t, p);
        lemma_next_line(t, p);
        lemma_next_line(a, p);
        if lo >= hi {
            lemma_parse_prefix(t, a, q, doc, table);
        } else {
            lemma_header_agree(t, a, lo, hi);
            match header_name(t, lo, hi) {
                Some((x, y)) => {
                    let doc2 = DocV { top: doc.top, tables: doc.tables.push((t.subrange(x, y), Seq::empty())) };
                    lemma_parse_tables_grow(t, q, doc2, true);
                },
                None => {
                    let buf = t.subrange(lo, hi);
                    assert(a.subrange(lo, hi) == buf);
                    lemma_continue_array(t, q, buf);
                    let (full, q2) = if starts_array(buf) && !array_complete(buf) {
                        continue_array(t, q, buf)
                    } else {
                        (buf, q)
                    };
                    assert(assignment(full) is Some);
                    if starts_array(buf) && !array_complete(buf) {
                        lemma_continue_prefix(t, q, buf);
                        lemma_starts_array_prefix(buf, full);
                        lemma_array_assignment_complete(full);
                        lemma_continue_agree(t, a, q, buf);
                    }
                    let e = assignment(full)->0;
                    let doc2 = add_entry(doc, table, e);
                    lemma_parse_tables_grow(t, q2, doc2, table);
                    lemma_parse_prefix(t, a, q2, doc2, table);
                },
            }
        }
    }
}

/// The line `bogus = 1`, with its line break.
pub open spec fn bogus_line() -> Seq<char> {
    seq!['b', 'o', 'g', 'u', 's', ' ', '=', ' ', '1', '\n']
}

/// The entry that line spells.
pub open spec fn bogus_entry() -> EntryV {
    (seq!['b', 'o', 'g', 'u', 's'], TomlVal::Int(1))
}

proof fn lemma_bogus_assignment()
    ensures
        assignment(seq!['b', 'o', 'g', 'u', 's', ' ', '=', ' ', '1']) == Some(bogus_entry()),
        !starts_array(seq!['b', 'o', 'g', 'u', 's', ' ', '=', ' ', '1']),
{
    let b = seq!['b', 'o', 'g', 'u', 's', ' ', '=', ' ', '1'];
    reveal_with_fuel(find_char, 8);
    assert(find_char(b, '=', 0, 9) == Some(6int));
    assert(skip_ws(b, 0, 6) == 0);
    assert(back_ws(b, 0, 5) == 5);
    assert(back_ws(b, 0, 6) == 5);
    assert(skip_ws(b, 8, 9) == 8);
    assert(skip_ws(b, 7, 9) == 8);
    assert(back_ws(b, 8, 9) == 9);
    assert(all_key_chars(b, 0, 5)) by {
        assert forall|k: int| 0 <= k < 5 implies crate::text::is_key_char(#[trigger] b[k]) by {}
    }
    assert(b.subrange(8, 9) =~= seq!['1']);
    assert(b.subrange(8, 9) != seq!['t', 'r', 'u', 'e']);
    assert(b.subrange(8, 9) != seq!['f', 'a', 'l', 's', 'e']);
    assert(crate::cookbook::toml_lite::all_digits(b, 8, 9)) by {
        assert forall|k: int| 8 <= k < 9 implies crate::cookbook::toml_lite::is_digit(#[trigger] b[k]) by {}
    }
    assert(crate::cookbook::toml_lite::digits_value(b, 8, 8) == 0);
    assert(crate::cookbook::toml_lite::digits_value(b, 8, 9) == 1);
    assert(crate::cookbook::toml_lite::int_value(b, 8, 9) == Some(1i64));
    assert(value_of(b, 8, 9) == Some(TomlVal::Int(1)));
    assert(b.subrange(0, 5) =~= seq!['b', 'o', 'g', 'u', 's']);
}

/// The appended line, parsed at the end of a document without tables,
/// adds its entry at the top level.
proof fn lemma_parse_bogus_line(a: Seq<char>, n: int, d: DocV)
    requires
        0 <= n,
        a.len() == n + 10,
        a.subrange(n, n + 10) == bogus_line(),
    ensures
        parse_from(a, n, d, false) == Some(DocV { top: d.top.push(bogus_entry()), tables: d.tables }),
{
    let u = bogus_line();
    assert forall|k: int| 0 <= k < 10 implies a[n + k] == #[trigger] u[k] by {
        assert(a.subrange(n, n + 10)[k] == a[n + k]);
    }
    assert(a[n + 9] == '\n');
    reveal_with_fuel(find_char, 11);
    assert(find_char(a, '\n', n, a.len() as int) == Some(n + 9));
    assert(line_end(a, n) == n + 9);
    assert(next_line(a, n) == n + 10);
    reveal_with_fuel(comment_cut, 11);
    assert(comment_cut(a, n, n + 9, false, false) == n + 9);
    assert(line_lo(a, n) == n);
    assert(line_hi(a, n) == n + 9);
    assert(header_name(a, n, n + 9) is None);
    let buf = a.subrange(n, n + 9);
    assert(buf =~= seq!['b', 'o', 'g', 'u', 's', ' ', '=', ' ', '1']);
    lemma_bogus_assignment();
    lemma_next_line(a, n);
    assert(parse_from(a, n + 10, add_entry(d, false, bogus_entry()), false) == Some(add_entry(d, false, bogus_entry())));
}

/// Appending the line `bogus = 1` to a document that ends a line (or is
/// empty) and has no tables adds that one entry at its top level and
/// changes nothing else.
pub proof fn lemma_append_top_entry(t: Seq<char>)
    requires
        spec_parse(t) is Some,
        t.len() > 0 ==> t[t.len() - 1] == '\n',
        spec_parse(t)->0.tables.len() == 0,
    ensures
        spec_parse(t + bogus_line()) == Some(
            DocV { top: spec_parse(t)->0.top.push(bogus_entry()), tables: spec_parse(t)->0.tables },
        ),
{
    let a = t + bogus_line();
    let start = DocV { top: Seq::empty(), tables: Seq::empty() };
    assert(agree(t, a, 0, t.len() as int)) by {
        assert forall|k: int| 0 <= k < t.len() implies t[k] == a[k] by {}
    }
    lemma_parse_prefix(t, a, 0, start, false);
    assert(a.subrange(t.len() as int, t.len() + 10int) =~= bogus_line());
    lemma_parse_bogus_line(a, t.len() as int, spec_parse(t)->0);
}

} // verus!
