//! Compatibility normalization for cookbook manifests shipped by older crates.
//!
//! The canonical authoring parser remains strict. This module exists only at
//! the embedded/runtime boundary, where already-published recipe trees must
//! stay loadable: a recipe may omit `setup` (one conventional `setup.*` file
//! is then used), `codec` (inferred from the setup's extension or from a
//! `category` key) and `id` (the recipe directory name is used).

use vstd::prelude::*;

use crate::cookbook::manifest::{
    parse_recipe_doc, recipe_of, RecipeDefaults, RecipeManifest, RecipeManifestV,
};
use crate::cookbook::toml_lite::{lookup, parse, spec_parse, DocV, TomlDoc, TomlVal};
use crate::text::{
    back_ws, back_ws_exec, chars_of, concat3, lemma_back_ws_bounds, lemma_skip_ws_bounds, lower,
    lower_all, lower_exec, push_char, skip_ws, skip_ws_exec, str_eq, string_of_range, text, trim,
};

verus! {

/// Last index of `c` in `s[lo..hi]`.
pub open spec fn rfind_char(s: Seq<char>, c: char, lo: int, hi: int) -> Option<int>
    decreases hi - lo,
{
    if hi <= lo {
        None
    } else if s[hi - 1] == c {
        Some(hi - 1)
    } else {
        rfind_char(s, c, lo, hi - 1)
    }
}

proof fn lemma_rfind_bounds(s: Seq<char>, c: char, lo: int, hi: int)
    ensures
        rfind_char(s, c, lo, hi) matches Some(k) ==> lo <= k < hi && s[k] == c && forall|j: int|
            k < j < hi ==> s[j] != c,
        rfind_char(s, c, lo, hi) is None ==> forall|j: int| lo <= j < hi ==> s[j] != c,
    decreases hi - lo,
{
    if hi > lo && s[hi - 1] != c {
        lemma_rfind_bounds(s, c, lo, hi - 1);
    }
}

fn rfind_exec(s: &Vec<char>, c: char, lo: usize, hi: usize) -> (r: Option<usize>)
    requires
        lo <= hi <= s.len(),
    ensures
        r matches Some(k) ==> rfind_char(s@, c, lo as int, hi as int) == Some(k as int),
        r is None ==> rfind_char(s@, c, lo as int, hi as int) is None,
{
    let mut k = hi;
    while k > lo
        invariant
            lo <= k <= hi <= s.len(),
            rfind_char(s@, c, lo as int, hi as int) == rfind_char(s@, c, lo as int, k as int),
        decreases k - lo,
    {
        if s[k - 1] == c {
            return Some(k - 1);
        }
        k -= 1;
    }
    None
}

/// The file extension of a slash path: the text after the last `.` of its
/// last component, when that `.` is not the component's first character.
pub open spec fn file_ext(p: Seq<char>) -> Option<Seq<char>> {
    let start = match rfind_char(p, '/', 0, p.len() as int) {
        Some(k) => k + 1,
        None => 0,
    };
    if p.subrange(start, p.len() as int) == seq!['.', '.'] {
        None
    } else {
        match rfind_char(p, '.', start, p.len() as int) {
            Some(d) => if d > start {
                Some(p.subrange(d + 1, p.len() as int))
            } else {
                None
            },
            None => None,
        }
    }
}

/// The codec named by a known setup extension.
pub open spec fn known_codec(e: Seq<char>) -> Option<Seq<char>> {
    if e == "rs"@ {
        Some("rust"@)
    } else if e == "siml"@ {
        Some("lisp"@)
    } else if e == "json"@ {
        Some("json"@)
    } else if e == "lua"@ {
        Some("lua"@)
    } else if e == "py"@ {
        Some("python"@)
    } else if e == "js"@ {
        Some("javascript"@)
    } else if e == "ts"@ {
        Some("typescript"@)
    } else {
        None
    }
}

/// A category turned into a codec name: trimmed, lowercased, spaces to `-`.
pub open spec fn slug(s: Seq<char>) -> Seq<char> {
    lower_all(trim(s)).map_values(|c: char| if c == ' ' { '-' } else { c })
}

/// An extension is the text after a dot of the last path component that
/// is not that component's first character, and it holds neither a dot nor
/// a slash: the path is a non-empty stem, a dot, and the extension.
pub proof fn lemma_file_ext(p: Seq<char>)
    ensures
        file_ext(p) matches Some(e) ==> exists|d: int|
            0 < d < p.len() && p[d] == '.' && p[d - 1] != '/' && #[trigger] p.subrange(d + 1, p.len() as int)
                == e,
        file_ext(p) matches Some(e) ==> !e.contains('.') && !e.contains('/'),
{
    let n = p.len() as int;
    lemma_rfind_bounds(p, '/', 0, n);
    let start = match rfind_char(p, '/', 0, n) {
        Some(k) => k + 1,
        None => 0,
    };
    lemma_rfind_bounds(p, '.', start, n);
    if let Some(e) = file_ext(p) {
        let d = rfind_char(p, '.', start, n)->0;
        assert(p.subrange(d + 1, n) == e);
        assert(p[d - 1] != '/');
        assert(!e.contains('.')) by {
            if e.contains('.') {
                let j = choose|j: int| 0 <= j < e.len() && e[j] == '.';
                assert(p[d + 1 + j] == e[j]);
            }
        }
        assert(!e.contains('/')) by {
            if e.contains('/') {
                let j = choose|j: int| 0 <= j < e.len() && e[j] == '/';
                assert(p[d + 1 + j] == e[j]);
            }
        }
    }
}

/// A slug is the trimmed text, lowercased, with each space turned into a
/// hyphen: it is as long as the trimmed text, has no space and no ASCII
/// capital, and agrees with it wherever the trimmed text has neither.
pub proof fn lemma_slug(s: Seq<char>)
    ensures
        slug(s).len() == trim(s).len(),
        forall|i: int| 0 <= i < slug(s).len() ==> #[trigger] slug(s)[i] != ' ' && !('A' <= slug(s)[i] <= 'Z'),
        forall|i: int|
            0 <= i < slug(s).len() && trim(s)[i] != ' ' && !('A' <= trim(s)[i] <= 'Z') ==> #[trigger] slug(s)[i]
                == trim(s)[i],
        forall|i: int| 0 <= i < slug(s).len() && trim(s)[i] == ' ' ==> #[trigger] slug(s)[i] == '-',
{
    assert forall|i: int| 0 <= i < slug(s).len() implies #[trigger] slug(s)[i] != ' ' && !('A' <= slug(s)[i] <= 'Z') by {
        crate::text::lemma_lower(trim(s)[i]);
    }
    assert forall|i: int| 0 <= i < slug(s).len() && trim(s)[i] != ' ' && !('A' <= trim(s)[i] <= 'Z') implies #[trigger] slug(s)[i]
        == trim(s)[i] by {
        crate::text::lemma_lower(trim(s)[i]);
    }
}

/// The codec inferred for a legacy recipe whose manifest has no `codec`.
pub open spec fn infer_codec_spec(d: DocV, setup: Seq<char>) -> Option<Seq<char>> {
    match file_ext(setup) {
        Some(e) if known_codec(e) is Some => known_codec(e),
        _ => match lookup(d.top, "category"@) {
            Some(TomlVal::Str(c)) => if c.len() > 0 {
                Some(slug(c))
            } else {
                None
            },
            _ => None,
        },
    }
}

/// An optional string key: absent, a string, or (`None`) another type.
pub open spec fn opt_string(d: DocV, key: Seq<char>) -> Option<Option<Seq<char>>> {
    match lookup(d.top, key) {
        Some(TomlVal::Str(s)) => Some(Some(s)),
        Some(_) => None,
        None => Some(None),
    }
}

/// The recipe an embedded legacy manifest describes, given its directory
/// name and the conventional `setup.*` files beside it.
pub open spec fn legacy_recipe(text: Seq<char>, dir_id: Seq<char>, setups: Seq<Seq<char>>) -> Option<
    RecipeManifestV,
> {
    match spec_parse(text) {
        None => None,
        Some(d) => {
            let setup = match opt_string(d, "setup"@) {
                None => None,
                Some(Some(s)) => Some(s),
                Some(None) => if setups.len() == 1 {
                    Some(setups[0])
                } else {
                    None
                },
            };
            match setup {
                None => None,
                Some(s) => {
                    let codec = match opt_string(d, "codec"@) {
                        None => None,
                        Some(Some(c)) => Some(c),
                        Some(None) => infer_codec_spec(d, s),
                    };
                    match codec {
                        None => None,
                        Some(c) => recipe_of(d, Some((dir_id, c, s))),
                    }
                },
            }
        },
    }
}

fn optional_string(doc: &TomlDoc, key: &str) -> (r: Result<Option<String>, String>)
    ensures
        r matches Ok(o) ==> opt_string(doc@, key@) == Some(
            match o {
                Some(s) => Some(s@),
                None => None,
            },
        ),
        r is Err ==> opt_string(doc@, key@) is None,
{
    match doc.get(key) {
        Some(v) => match v.as_str() {
            Ok(s) => Ok(Some(text(s))),
            Err(e) => {
                let mut m = concat3("`", key, "`: ");
                m.append(e.as_str());
                Err(m)
            },
        },
        None => Ok(None),
    }
}

fn file_ext_exec(p: &str) -> (r: Option<String>)
    ensures
        r matches Some(e) ==> file_ext(p@) == Some(e@),
        r is None ==> file_ext(p@) is None,
{
    let v = chars_of(p);
    proof {
        lemma_rfind_bounds(v@, '/', 0, v.len() as int);
    }
    let start = match rfind_exec(&v, '/', 0, v.len()) {
        Some(k) => k + 1,
        None => 0,
    };
    if v.len() - start == 2 && v[start] == '.' && v[start + 1] == '.' {
        assert(v@.subrange(start as int, v.len() as int) =~= seq!['.', '.']);
        return None;
    }
    assert(v@.subrange(start as int, v.len() as int) != seq!['.', '.']) by {
        let sub = v@.subrange(start as int, v.len() as int);
        if sub == seq!['.', '.'] {
            assert(sub.len() == 2);
            assert(sub[0] == v@[start as int]);
            assert(sub[1] == v@[start + 1]);
        }
    }
    match rfind_exec(&v, '.', start, v.len()) {
        Some(d) => {
            proof {
                lemma_rfind_bounds(v@, '.', start as int, v.len() as int);
            }
            if d > start {
                Some(string_of_range(&v, d + 1, v.len()))
            } else {
                None
            }
        },
        None => None,
    }
}

fn known_codec_exec(e: &str) -> (r: Option<String>)
    ensures
        r matches Some(c) ==> known_codec(e@) == Some(c@),
        r is None ==> known_codec(e@) is None,
{
    if str_eq(e, "rs") {
        Some(text("rust"))
    } else if str_eq(e, "siml") {
        Some(text("lisp"))
    } else if str_eq(e, "json") {
        Some(text("json"))
    } else if str_eq(e, "lua") {
        Some(text("lua"))
    } else if str_eq(e, "py") {
        Some(text("python"))
    } else if str_eq(e, "js") {
        Some(text("javascript"))
    } else if str_eq(e, "ts") {
        Some(text("typescript"))
    } else {
        None
    }
}

fn slug_exec(s: &str) -> (r: String)
    ensures
        r@ == slug(s@),
{
    let v = chars_of(s);
    let a = skip_ws_exec(&v, 0, v.len());
    proof {
        lemma_skip_ws_bounds(v@, 0, v.len() as int);
    }
    let b = back_ws_exec(&v, a, v.len());
    proof {
        lemma_back_ws_bounds(v@, a as int, v.len() as int);
    }
    let ghost t = v@.subrange(a as int, b as int);
    assert(t == trim(s@));
    let mut out = String::new();
    let mut i = a;
    while i < b
        invariant
            a <= i <= b <= v.len(),
            t == v@.subrange(a as int, b as int),
            out@ == lower_all(t.take(i - a)).map_values(
                |c: char|
                    if c == ' ' {
                        '-'
                    } else {
                        c
                    },
            ),
        decreases b - i,
    {
        let c = lower_exec(v[i]);
        let d = if c == ' ' {
            '-'
        } else {
            c
        };
        push_char(&mut out, d);
        i += 1;
        assert(t.take(i - a) =~= t.take(i - a - 1).push(v@[i - 1]));
        assert(out@ =~= lower_all(t.take(i - a)).map_values(
            |c: char|
                if c == ' ' {
                    '-'
                } else {
                    c
                },
        ));
    }
    assert(t.take(b - a) =~= t);
    out
}

fn infer_codec(doc: &TomlDoc, setup: &str) -> (r: Result<String, String>)
    ensures
        r matches Ok(c) ==> infer_codec_spec(doc@, setup@) == Some(c@),
        r is Err ==> infer_codec_spec(doc@, setup@) is None,
{
    match file_ext_exec(setup) {
        Some(e) => match known_codec_exec(e.as_str()) {
            Some(c) => {
                return Ok(c);
            },
            None => {},
        },
        None => {},
    }
    match optional_string(doc, "category")? {
        Some(c) => {
            if c.as_str().is_empty() {
                Err(text("missing required key `category`"))
            } else {
                Ok(slug_exec(c.as_str()))
            }
        },
        None => Err(text("missing required key `category`")),
    }
}

/// Names separated by `, `, in order.
pub open spec fn joined_names(v: Seq<Seq<char>>) -> Seq<char>
    decreases v.len(),
{
    if v.len() == 0 {
        Seq::empty()
    } else if v.len() == 1 {
        v[0]
    } else {
        joined_names(v.drop_last()) + ", "@ + v.last()
    }
}

fn join_names(names: &[&str]) -> (r: String)
    ensures
        r@ == joined_names(names@.map_values(|s: &str| s@)),
{
    let ghost w = names@.map_values(|s: &str| s@);
    let mut out = String::new();
    proof {
        reveal_strlit("");
    }
    let mut i: usize = 0;
    while i < names.len()
        invariant
            i <= names.len(),
            w == names@.map_values(|s: &str| s@),
            out@ == joined_names(w.take(i as int)),
        decreases names.len() - i,
    {
        if i > 0 {
            out.append(", ");
        }
        out.append(names[i]);
        proof {
            assert(w.take(i + 1).drop_last() =~= w.take(i as int));
            assert(w.take(i + 1).last() == w[i as int]);
            if i == 0 {
                assert(w.take(0) =~= Seq::<Seq<char>>::empty());
                assert(w.take(1)[0] == w[0]);
            }
        }
        i += 1;
        assert(out@ =~= joined_names(w.take(i as int)));
    }
    assert(w.take(i as int) =~= w);
    out
}

/// Parses an embedded `recipe.toml`, filling what a legacy manifest omits:
/// `id` from the recipe directory, `setup` from the single conventional
/// `setup.*` file, and `codec` from the setup's extension or `category`.
pub fn parse_embedded_recipe(text_in: &str, recipe_dir_id: &str, conventional_setups: &[&str]) -> (r:
    Result<RecipeManifest, String>)
    ensures
        r is Ok <==> legacy_recipe(
            text_in@,
            recipe_dir_id@,
            conventional_setups@.map_values(|s: &str| s@),
        ) is Some,
        r matches Ok(m) ==> legacy_recipe(
            text_in@,
            recipe_dir_id@,
            conventional_setups@.map_values(|s: &str| s@),
        ) == Some(m@),
        (spec_parse(text_in@) matches Some(d) && opt_string(d, "setup"@) == Some(None::<Seq<char>>)
            && conventional_setups@.len() == 0) ==> (r matches Err(m) && m@
            == "missing required key `setup`"@),
        (spec_parse(text_in@) matches Some(d) && opt_string(d, "setup"@) == Some(None::<Seq<char>>)
            && conventional_setups@.len() > 1) ==> (r matches Err(m) && m@
            == "legacy manifest has ambiguous conventional setup files: "@ + joined_names(
            conventional_setups@.map_values(|s: &str| s@),
        )),
{
    let doc = match parse(text_in) {
        Ok(d) => d,
        Err(e) => {
            return Err(e);
        },
    };
    proof {
        reveal_strlit("setup");
        reveal_strlit("codec");
    }
    let found = match optional_string(&doc, "setup") {
        Ok(o) => o,
        Err(e) => {
            return Err(e);
        },
    };
    let setup = match found {
        Some(s) => s,
        None => {
            if conventional_setups.len() == 1 {
                text(conventional_setups[0])
            } else if conventional_setups.len() == 0 {
                return Err(text("missing required key `setup`"));
            } else {
                let mut m = text("legacy manifest has ambiguous conventional setup files: ");
                let names = join_names(conventional_setups);
                m.append(names.as_str());
                return Err(m);
            }
        },
    };
    let codec = match optional_string(&doc, "codec")? {
        Some(c) => c,
        None => infer_codec(&doc, setup.as_str())?,
    };
    parse_recipe_doc(
        &doc,
        Some(RecipeDefaults { id: recipe_dir_id, codec: codec.as_str(), setup: setup.as_str() }),
    )
}

} // verus!
