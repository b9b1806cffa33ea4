//! Turn an embedded `recipes/` tree into [`RecipeCard`]s.
//!
//! A crate ships its recipes as files under `recipes/`. A build step embeds
//! that tree into the compiled lib as an [`EmbeddedDir`]: a flat list of
//! `(relative-path, bytes)` pairs, paths using `/` separators relative to
//! `recipes/`. [`recipes_from_embedded`] parses that list into cards,
//! resolving book/chapter metadata and reading each recipe's setup and
//! purpose files. Nothing reads the filesystem at runtime.
//!
//! The result is stated by [`embedded_cards`]: recipe directories are the
//! paths `<chapter>/<recipe>/recipe.toml`, visited in ascending
//! `(chapter, recipe)` order, and each yields the card [`card_of`] describes.

use vstd::prelude::*;
use vstd::string::StringSliceAdditionalSpecFns;
use vstd::utf8::{decode_utf8, valid_utf8};

use crate::cookbook::legacy::{legacy_recipe, parse_embedded_recipe};
use crate::cookbook::manifest::{
    book_of, chapter_of, parse_book, parse_chapter, path_problem, BookManifest, BookManifestV,
    ChapterManifest, ChapterManifestV, DEFAULT_ORDER,
};
use crate::cookbook::model::{
    cards_view, copy_bytes, copy_strings, strs, CardV, RecipeCard, RecipeSource, SourceV,
};
use crate::cookbook::toml_lite::spec_parse;
use crate::text::{
    chars_of, concat3, find_char, find_char_exec, lemma_find_char_bounds, push_char, seq_lt,
    str_eq, str_lt, string_of_range, text, upper, upper_exec,
};

verus! {

/// A crate's embedded `recipes/` tree: `(path-relative-to-recipes, bytes)`.
pub type EmbeddedDir = &'static [(&'static str, &'static [u8])];

/// An embedded tree, viewed: paths as text, contents as bytes.
pub type EmbV = Seq<(Seq<char>, Seq<u8>)>;

/// The view of an embedded tree.
pub open spec fn emb_view(dir: Seq<(&str, &[u8])>) -> EmbV {
    dir.map_values(|e: (&str, &[u8])| (e.0@, e.1@))
}

/// No path occurs twice.
pub open spec fn paths_distinct(d: EmbV) -> bool {
    forall|i: int, j: int| 0 <= i < j < d.len() ==> d[i].0 != d[j].0
}

/// The contents of the first entry at or after `i` whose path is `p`.
pub open spec fn find_from(d: EmbV, p: Seq<char>, i: int) -> Option<Seq<u8>>
    decreases d.len() - i,
{
    if i < 0 || i >= d.len() {
        None
    } else if d[i].0 == p {
        Some(d[i].1)
    } else {
        find_from(d, p, i + 1)
    }
}

/// The contents of the file at path `p`.
pub open spec fn find_in(d: EmbV, p: Seq<char>) -> Option<Seq<u8>> {
    find_from(d, p, 0)
}

/// The text UTF-8 bytes spell, if they are valid UTF-8.
pub open spec fn utf8_text(b: Seq<u8>) -> Option<Seq<char>> {
    if valid_utf8(b) {
        Some(decode_utf8(b))
    } else {
        None
    }
}

/// The book manifest held by `book.toml`'s bytes.
pub open spec fn book_of_bytes(b: Seq<u8>) -> Option<BookManifestV> {
    match utf8_text(b) {
        Some(t) => match spec_parse(t) {
            Some(d) => book_of(d),
            None => None,
        },
        None => None,
    }
}

/// `(chapter, recipe)` when `p` is `<chapter>/<recipe>/recipe.toml`.
pub open spec fn recipe_dir_of(p: Seq<char>) -> Option<(Seq<char>, Seq<char>)> {
    match find_char(p, '/', 0, p.len() as int) {
        Some(k1) => match find_char(p, '/', k1 + 1, p.len() as int) {
            Some(k2) => if find_char(p, '/', k2 + 1, p.len() as int) is None && p.subrange(
                k2 + 1,
                p.len() as int,
            ) == "recipe.toml"@ {
                Some((p.subrange(0, k1), p.subrange(k1 + 1, k2)))
            } else {
                None
            },
            None => None,
        },
        None => None,
    }
}

/// Order of recipe directories: by chapter, then recipe.
pub open spec fn pair_lt(a: (Seq<char>, Seq<char>), b: (Seq<char>, Seq<char>)) -> bool {
    seq_lt(a.0, b.0) || (a.0 == b.0 && seq_lt(a.1, b.1))
}

/// Inserting `x` into the ordered set `s`.
pub open spec fn insert_sorted(s: Seq<(Seq<char>, Seq<char>)>, x: (Seq<char>, Seq<char>)) -> Seq<
    (Seq<char>, Seq<char>),
>
    decreases s.len(),
{
    if s.len() == 0 {
        seq![x]
    } else if s[0] == x {
        s
    } else if pair_lt(x, s[0]) {
        seq![x] + s
    } else {
        seq![s[0]] + insert_sorted(s.drop_first(), x)
    }
}

/// The recipe directories among the first `n` entries, as an ordered set.
pub open spec fn dirs_upto(d: EmbV, n: int) -> Seq<(Seq<char>, Seq<char>)>
    decreases n,
{
    if n <= 0 || n > d.len() {
        Seq::empty()
    } else {
        let prev = dirs_upto(d, n - 1);
        match recipe_dir_of(d[n - 1].0) {
            Some(x) => insert_sorted(prev, x),
            None => prev,
        }
    }
}

/// All recipe directories, in ascending `(chapter, recipe)` order.
pub open spec fn recipe_dirs(d: EmbV) -> Seq<(Seq<char>, Seq<char>)> {
    dirs_upto(d, d.len() as int)
}

/// A conventional setup file name: `setup.` followed by anything but `/`.
pub open spec fn is_setup_name(r: Seq<char>) -> bool {
    r.len() >= 6 && r.take(6) == "setup."@ && !r.contains('/')
}

/// Inserting the name `x` into the ordered set of names `s`.
pub open spec fn insert_name(s: Seq<Seq<char>>, x: Seq<char>) -> Seq<Seq<char>>
    decreases s.len(),
{
    if s.len() == 0 {
        seq![x]
    } else if s[0] == x {
        s
    } else if seq_lt(x, s[0]) {
        seq![x] + s
    } else {
        seq![s[0]] + insert_name(s.drop_first(), x)
    }
}

/// The conventional setup files directly in directory `prefix`, among the
/// first `n` entries, as an ordered set of names (the order of their paths).
pub open spec fn setups_upto(d: EmbV, prefix: Seq<char>, n: int) -> Seq<Seq<char>>
    decreases n,
{
    if n <= 0 || n > d.len() {
        Seq::empty()
    } else {
        let prev = setups_upto(d, prefix, n - 1);
        let p = d[n - 1].0;
        let pre = prefix + "/"@;
        if p.len() >= pre.len() && p.take(pre.len() as int) == pre && is_setup_name(
            p.skip(pre.len() as int),
        ) {
            insert_name(prev, p.skip(pre.len() as int))
        } else {
            prev
        }
    }
}

/// Position of `x` in `s` at or after `i`.
pub open spec fn index_from(s: Seq<Seq<char>>, x: Seq<char>, i: int) -> Option<int>
    decreases s.len() - i,
{
    if i < 0 || i >= s.len() {
        None
    } else if s[i] == x {
        Some(i)
    } else {
        index_from(s, x, i + 1)
    }
}

/// Sort key of a chapter: `(position + 1) * 100` in the book's `chapters`
/// list (saturating), else [`DEFAULT_ORDER`].
pub open spec fn chapter_rank(book: BookManifestV, chapter: Seq<char>) -> i64 {
    match index_from(book.chapters, chapter, 0) {
        Some(i) => if (i + 1) * 100 <= i64::MAX {
            ((i + 1) * 100) as i64
        } else {
            i64::MAX
        },
        None => DEFAULT_ORDER,
    }
}

/// All of `s[lo..hi]` are ASCII digits.
pub open spec fn digits_only(s: Seq<char>, lo: int, hi: int) -> bool {
    forall|k: int| lo <= k < hi ==> '0' <= #[trigger] s[k] && s[k] <= '9'
}

/// A chapter directory name as a title: a leading `<digits>-` is dropped,
/// dashes become spaces, and the first character is uppercased.
pub open spec fn humanize_spec(name: Seq<char>) -> Seq<char> {
    let core = match find_char(name, '-', 0, name.len() as int) {
        Some(k) => if k > 0 && digits_only(name, 0, k) {
            name.subrange(k + 1, name.len() as int)
        } else {
            name
        },
        None => name,
    };
    let spaced = core.map_values(|c: char| if c == '-' { ' ' } else { c });
    if spaced.len() == 0 {
        spaced
    } else {
        seq![upper(spaced[0])] + spaced.drop_first()
    }
}

/// The chapter manifest of `chapter`: from its `chapter.toml`, else empty.
pub open spec fn chapter_manifest_of(d: EmbV, chapter: Seq<char>) -> Option<ChapterManifestV> {
    match find_in(d, chapter + "/chapter.toml"@) {
        Some(b) => match utf8_text(b) {
            Some(t) => match spec_parse(t) {
                Some(doc) => chapter_of(doc),
                None => None,
            },
            None => None,
        },
        None => Some(ChapterManifestV { title: None, order: None, summary: Seq::empty() }),
    }
}

/// The card of recipe directory `chapter/rid` in book `book`.
pub open spec fn card_of(d: EmbV, book: BookManifestV, chapter: Seq<char>, rid: Seq<char>) -> Option<
    CardV,
> {
    let prefix = chapter + "/"@ + rid;
    match find_in(d, prefix + "/recipe.toml"@) {
        None => None,
        Some(rb) => match utf8_text(rb) {
            None => None,
            Some(rt) => match legacy_recipe(rt, rid, setups_upto(d, prefix, d.len() as int)) {
                None => None,
                Some(r) => if path_problem(r.setup) is Some || path_problem(r.purpose) is Some {
                    None
                } else {
                    match (
                        chapter_manifest_of(d, chapter),
                        find_in(d, prefix + "/"@ + r.setup),
                        find_in(d, prefix + "/"@ + r.purpose),
                    ) {
                        (Some(cm), Some(sb), Some(pb)) => match utf8_text(pb) {
                            Some(pt) => Some(
                                CardV {
                                    id: book.book + "/"@ + chapter + "/"@ + r.id,
                                    book: book.book,
                                    chapter: chapter,
                                    chapter_title: match cm.title {
                                        Some(t) => t,
                                        None => humanize_spec(chapter),
                                    },
                                    chapter_summary: cm.summary,
                                    title: r.title,
                                    codec: r.codec,
                                    setup: sb,
                                    purpose: pt,
                                    order: r.order,
                                    chapter_order: match cm.order {
                                        Some(o) => o,
                                        None => chapter_rank(book, chapter),
                                    },
                                    book_order: book.order,
                                    book_title: book.title,
                                    book_summary: book.summary,
                                    tags: r.tags,
                                    requires: if r.requires.len() == 0 {
                                        seq![book.book]
                                    } else {
                                        r.requires
                                    },
                                    expect: r.expect,
                                    source: SourceV::Crate(book.book),
                                },
                            ),
                            None => None,
                        },
                        _ => None,
                    }
                },
            },
        },
    }
}

/// Whether some card of `cs` has id `id`.
pub open spec fn has_id(cs: Seq<CardV>, id: Seq<char>) -> bool {
    exists|i: int| 0 <= i < cs.len() && (#[trigger] cs[i]).id == id
}

/// The cards of the first `n` recipe directories of `dirs`; `None` when one
/// fails or repeats an earlier card id.
pub open spec fn cards_upto(
    d: EmbV,
    book: BookManifestV,
    dirs: Seq<(Seq<char>, Seq<char>)>,
    n: int,
) -> Option<Seq<CardV>>
    decreases n,
{
    if n <= 0 || n > dirs.len() {
        Some(Seq::empty())
    } else {
        match cards_upto(d, book, dirs, n - 1) {
            None => None,
            Some(cs) => match card_of(d, book, dirs[n - 1].0, dirs[n - 1].1) {
                None => None,
                Some(c) => if has_id(cs, c.id) {
                    None
                } else {
                    Some(cs.push(c))
                },
            },
        }
    }
}

/// The cards an embedded tree holds, or `None` when it is malformed.
pub open spec fn embedded_cards(d: EmbV) -> Option<Seq<CardV>> {
    if !paths_distinct(d) {
        None
    } else {
        match find_in(d, "book.toml"@) {
            None => None,
            Some(b) => match book_of_bytes(b) {
                None => None,
                Some(book) => cards_upto(d, book, recipe_dirs(d), recipe_dirs(d).len() as int),
            },
        }
    }
}

// ---------------------------------------------------------------------------
// Outside calls.
// ---------------------------------------------------------------------------
/// Trusted wrapper around `std::str::from_utf8`: it succeeds exactly on
/// valid UTF-8, and the text it returns is encoded by exactly those bytes.
#[verifier::external_body]
fn utf8_str(bytes: &[u8]) -> (r: Option<&str>)
    ensures
        r is Some <==> valid_utf8(bytes@),
        r matches Some(s) ==> s.spec_bytes() == bytes@,
{
    std::str::from_utf8(bytes).ok()
}

fn bytes_to_str<'a>(bytes: &'a [u8], what: &str) -> (r: Result<&'a str, String>)
    ensures
        r matches Ok(s) ==> utf8_text(bytes@) == Some(s@),
        r is Err ==> utf8_text(bytes@) is None,
{
    match utf8_str(bytes) {
        Some(s) => {
            proof {
                vstd::utf8::encode_utf8_decode_utf8(s@);
            }
            Ok(s)
        },
        None => Err(concat3("", what, " is not valid UTF-8")),
    }
}

// ---------------------------------------------------------------------------
// Steps.
// ---------------------------------------------------------------------------
fn find<'a>(dir: &'a [(&'a str, &'a [u8])], path: &str) -> (r: Option<&'a [u8]>)
    ensures
        r matches Some(b) ==> find_in(emb_view(dir@), path@) == Some(b@),
        r is None ==> find_in(emb_view(dir@), path@) is None,
{
    let ghost d = emb_view(dir@);
    let mut i: usize = 0;
    while i < dir.len()
        invariant
            i <= dir.len(),
            d == emb_view(dir@),
            find_in(d, path@) == find_from(d, path@, i as int),
        decreases dir.len() - i,
    {
        if str_eq(dir[i].0, path) {
            return Some(dir[i].1);
        }
        i += 1;
    }
    None
}

fn check_distinct(dir: &[(&str, &[u8])]) -> (r: Result<(), String>)
    ensures
        r is Ok <==> paths_distinct(emb_view(dir@)),
{
    let ghost d = emb_view(dir@);
    let mut j: usize = 0;
    while j < dir.len()
        invariant
            j <= dir.len(),
            d == emb_view(dir@),
            forall|a: int, b: int| 0 <= a < b < j ==> d[a].0 != d[b].0,
        decreases dir.len() - j,
    {
        let mut i: usize = 0;
        while i < j
            invariant
                i <= j < dir.len(),
                d == emb_view(dir@),
                forall|a: int| 0 <= a < i ==> d[a].0 != d[j as int].0,
            decreases j - i,
        {
            if str_eq(dir[i].0, dir[j].0) {
                assert(d[i as int].0 == dir@[i as int].0@);
                assert(d[j as int].0 == dir@[j as int].0@);
                return Err(concat3("duplicate embedded path `", dir[j].0, "`"));
            }
            assert(d[i as int].0 == dir@[i as int].0@);
            assert(d[j as int].0 == dir@[j as int].0@);
            i += 1;
        }
        j += 1;
    }
    Ok(())
}

fn recipe_dir_exec(p: &str) -> (r: Option<(String, String)>)
    ensures
        r matches Some(x) ==> recipe_dir_of(p@) == Some((x.0@, x.1@)),
        r is None ==> recipe_dir_of(p@) is None,
{
    let v = chars_of(p);
    proof {
        reveal_strlit("recipe.toml");
    }
    let k1 = match find_char_exec(&v, '/', 0, v.len()) {
        Some(k) => k,
        None => {
            return None;
        },
    };
    let k2 = match find_char_exec(&v, '/', k1 + 1, v.len()) {
        Some(k) => k,
        None => {
            return None;
        },
    };
    if find_char_exec(&v, '/', k2 + 1, v.len()).is_some() {
        return None;
    }
    let rest = string_of_range(&v, k2 + 1, v.len());
    if !str_eq(rest.as_str(), "recipe.toml") {
        return None;
    }
    Some((string_of_range(&v, 0, k1), string_of_range(&v, k1 + 1, k2)))
}

fn pair_lt_exec(a: &(String, String), b: &(String, String)) -> (r: bool)
    ensures
        r == pair_lt((a.0@, a.1@), (b.0@, b.1@)),
{
    str_lt(a.0.as_str(), b.0.as_str()) || (str_eq(a.0.as_str(), b.0.as_str()) && str_lt(
        a.1.as_str(),
        b.1.as_str(),
    ))
}

/// The views of a list of directory pairs.
pub open spec fn pairs_view(v: Seq<(String, String)>) -> Seq<(Seq<char>, Seq<char>)> {
    v.map_values(|x: (String, String)| (x.0@, x.1@))
}

/// Recipe directories in strictly ascending order: by chapter, and within a
/// chapter by recipe, comparing texts by character.
pub open spec fn dirs_ascending(s: Seq<(Seq<char>, Seq<char>)>) -> bool {
    forall|i: int, j: int|
        0 <= i < j < s.len() ==> seq_lt((#[trigger] s[i]).0, (#[trigger] s[j]).0) || (s[i].0 == s[j].0
            && seq_lt(s[i].1, s[j].1))
}

proof fn lemma_pair_lt_order(a: (Seq<char>, Seq<char>), b: (Seq<char>, Seq<char>), c: (Seq<char>, Seq<char>))
    ensures
        pair_lt(a, b) && pair_lt(b, c) ==> pair_lt(a, c),
        !(pair_lt(a, b) && pair_lt(b, a)),
        a == b || pair_lt(a, b) || pair_lt(b, a),
{
    if seq_lt(a.0, b.0) && seq_lt(b.0, c.0) {
        crate::text::lemma_seq_lt_trans(a.0, b.0, c.0);
    }
    if seq_lt(a.1, b.1) && seq_lt(b.1, c.1) {
        crate::text::lemma_seq_lt_trans(a.1, b.1, c.1);
    }
    crate::text::lemma_seq_lt_asym(a.0, b.0);
    crate::text::lemma_seq_lt_asym(a.1, b.1);
    crate::text::lemma_seq_lt_irreflexive(a.0);
    crate::text::lemma_seq_lt_irreflexive(a.1);
    crate::text::lemma_seq_lt_total(a.0, b.0);
    crate::text::lemma_seq_lt_total(a.1, b.1);
}

proof fn lemma_insert_sorted(s: Seq<(Seq<char>, Seq<char>)>, x: (Seq<char>, Seq<char>))
    requires
        dirs_ascending(s),
    ensures
        dirs_ascending(insert_sorted(s, x)),
        insert_sorted(s, x).contains(x),
        forall|k: int| 0 <= k < s.len() ==> insert_sorted(s, x).contains(#[trigger] s[k]),
        forall|k: int|
            0 <= k < insert_sorted(s, x).len() ==> #[trigger] insert_sorted(s, x)[k] == x || s.contains(
                insert_sorted(s, x)[k],
            ),
    decreases s.len(),
{
    let r = insert_sorted(s, x);
    if s.len() == 0 {
        assert(r[0] == x);
    } else if s[0] == x {
        assert(r.contains(s[0]));
        assert forall|k: int| 0 <= k < r.len() implies #[trigger] r[k] == x || s.contains(r[k]) by {
            assert(s[k] == r[k]);
        }
    } else if pair_lt(x, s[0]) {
        assert(r[0] == x);
        assert forall|i: int, j: int| 0 <= i < j < r.len() implies seq_lt((#[trigger] r[i]).0, (#[trigger] r[j]).0) || (r[i].0 == r[j].0
            && seq_lt(r[i].1, r[j].1)) by {
            if i == 0 {
                assert(r[j] == s[j - 1]);
                if j - 1 > 0 {
                    assert(pair_lt(s[0], s[j - 1]));
                }
                lemma_pair_lt_order(x, s[0], s[j - 1]);
            } else {
                assert(r[i] == s[i - 1] && r[j] == s[j - 1]);
            }
        }
        assert forall|k: int| 0 <= k < s.len() implies r.contains(#[trigger] s[k]) by {
            assert(r[k + 1] == s[k]);
        }
        assert forall|k: int| 0 <= k < r.len() implies #[trigger] r[k] == x || s.contains(r[k]) by {
            if k > 0 {
                assert(r[k] == s[k - 1]);
            }
        }
    } else {
        let t = s.drop_first();
        assert(dirs_ascending(t)) by {
            assert forall|i: int, j: int| 0 <= i < j < t.len() implies seq_lt((#[trigger] t[i]).0, (#[trigger] t[j]).0) || (t[i].0 == t[j].0
                && seq_lt(t[i].1, t[j].1)) by {
                assert(t[i] == s[i + 1] && t[j] == s[j + 1]);
            }
        }
        lemma_insert_sorted(t, x);
        let it = insert_sorted(t, x);
        lemma_pair_lt_order(x, s[0], x);
        assert(pair_lt(s[0], x));
        assert(r == seq![s[0]] + it);
        assert forall|i: int, j: int| 0 <= i < j < r.len() implies seq_lt((#[trigger] r[i]).0, (#[trigger] r[j]).0) || (r[i].0 == r[j].0
            && seq_lt(r[i].1, r[j].1)) by {
            if i == 0 {
                assert(r[j] == it[j - 1]);
                if it[j - 1] != x {
                    let m = choose|m: int| 0 <= m < t.len() && t[m] == it[j - 1];
                    assert(s[m + 1] == t[m]);
                    assert(pair_lt(s[0], s[m + 1]));
                }
            } else {
                assert(r[i] == it[i - 1] && r[j] == it[j - 1]);
            }
        }
        assert(r.contains(x)) by {
            let m = choose|m: int| 0 <= m < it.len() && it[m] == x;
            assert(r[m + 1] == x);
        }
        assert forall|k: int| 0 <= k < s.len() implies r.contains(#[trigger] s[k]) by {
            if k == 0 {
                assert(r[0] == s[0]);
            } else {
                assert(t[k - 1] == s[k]);
                let m = choose|m: int| 0 <= m < it.len() && it[m] == t[k - 1];
                assert(r[m + 1] == s[k]);
            }
        }
        assert forall|k: int| 0 <= k < r.len() implies #[trigger] r[k] == x || s.contains(r[k]) by {
            if k == 0 {
                assert(s[0] == r[0]);
            } else {
                assert(r[k] == it[k - 1]);
                if it[k - 1] != x {
                    let m = choose|m: int| 0 <= m < t.len() && t[m] == it[k - 1];
                    assert(s[m + 1] == t[m]);
                }
            }
        }
    }
}

/// The recipe directories of an embedded tree are listed once each, in
/// strictly ascending order (by chapter, then recipe), and they are
/// exactly the `(chapter, recipe)` pairs of its `<chapter>/<recipe>/recipe.toml`
/// entries.
pub proof fn lemma_recipe_dirs(d: EmbV, n: int)
    requires
        0 <= n <= d.len(),
    ensures
        dirs_ascending(dirs_upto(d, n)),
        forall|k: int| 0 <= k < n ==> (recipe_dir_of(#[trigger] d[k].0) matches Some(x) ==> dirs_upto(d, n).contains(x)),
        forall|m: int|
            0 <= m < dirs_upto(d, n).len() ==> exists|k: int|
                0 <= k < n && recipe_dir_of(#[trigger] d[k].0) == Some(#[trigger] dirs_upto(d, n)[m]),
    decreases n,
{
    if n > 0 {
        lemma_recipe_dirs(d, n - 1);
        let prev = dirs_upto(d, n - 1);
        match recipe_dir_of(d[n - 1].0) {
            Some(x) => {
                lemma_insert_sorted(prev, x);
                let r = insert_sorted(prev, x);
                assert forall|k: int| 0 <= k < n implies (recipe_dir_of(#[trigger] d[k].0) matches Some(y) ==> r.contains(y)) by {
                    if k < n - 1 {
                        if let Some(y) = recipe_dir_of(d[k].0) {
                            let m = choose|m: int| 0 <= m < prev.len() && prev[m] == y;
                            assert(r.contains(prev[m]));
                        }
                    }
                }
                assert forall|m: int| 0 <= m < r.len() implies exists|k: int|
                    0 <= k < n && recipe_dir_of(#[trigger] d[k].0) == Some(#[trigger] r[m]) by {
                    if r[m] == x {
                        assert(recipe_dir_of(d[n - 1].0) == Some(r[m]));
                    } else {
                        let q = choose|q: int| 0 <= q < prev.len() && prev[q] == r[m];
                        let k = choose|k: int| 0 <= k < n - 1 && recipe_dir_of(#[trigger] d[k].0) == Some(#[trigger] prev[q]);
                        assert(recipe_dir_of(d[k].0) == Some(r[m]));
                    }
                }
            },
            None => {},
        }
    }
}

proof fn lemma_find_first(s: Seq<char>, c: char, lo: int, k: int, hi: int)
    requires
        0 <= lo <= k < hi <= s.len(),
        s[k] == c,
        forall|j: int| lo <= j < k ==> s[j] != c,
    ensures
        find_char(s, c, lo, hi) == Some(k),
    decreases k - lo,
{
    if lo < k {
        lemma_find_first(s, c, lo + 1, k, hi);
    }
}

/// A path names a recipe directory exactly when it is
/// `<chapter>/<recipe>/recipe.toml` with neither name holding a `/`; the
/// directory is that chapter and recipe.
pub proof fn lemma_recipe_dir_shape(p: Seq<char>, c: Seq<char>, r: Seq<char>)
    ensures
        recipe_dir_of(p) == Some((c, r)) <==> (p == c + seq!['/'] + r + seq!['/'] + "recipe.toml"@
            && !c.contains('/') && !r.contains('/')),
{
    reveal_strlit("recipe.toml");
    let n = p.len() as int;
    let tail = "recipe.toml"@;
    assert(!tail.contains('/')) by {
        if tail.contains('/') {
            let j = choose|j: int| 0 <= j < tail.len() && tail[j] == '/';
            assert(tail[j] != '/');
        }
    }
    if recipe_dir_of(p) == Some((c, r)) {
        lemma_find_char_bounds(p, '/', 0, n);
        let k1 = find_char(p, '/', 0, n)->0;
        lemma_find_char_bounds(p, '/', k1 + 1, n);
        let k2 = find_char(p, '/', k1 + 1, n)->0;
        lemma_find_char_bounds(p, '/', k2 + 1, n);
        assert(p =~= c + seq!['/'] + r + seq!['/'] + p.subrange(k2 + 1, n));
        assert(!c.contains('/')) by {
            if c.contains('/') {
                let j = choose|j: int| 0 <= j < c.len() && c[j] == '/';
                assert(p[j] == c[j]);
            }
        }
        assert(!r.contains('/')) by {
            if r.contains('/') {
                let j = choose|j: int| 0 <= j < r.len() && r[j] == '/';
                assert(p[k1 + 1 + j] == r[j]);
            }
        }
    }
    if p == c + seq!['/'] + r + seq!['/'] + tail && !c.contains('/') && !r.contains('/') {
        let k1 = c.len() as int;
        let k2 = k1 + 1 + r.len();
        assert(p[k1] == '/');
        assert forall|j: int| 0 <= j < k1 implies p[j] != '/' by {
            assert(p[j] == c[j]);
        }
        lemma_find_first(p, '/', 0, k1, n);
        assert(p[k2] == '/');
        assert forall|j: int| k1 + 1 <= j < k2 implies p[j] != '/' by {
            assert(p[j] == r[j - k1 - 1]);
        }
        lemma_find_first(p, '/', k1 + 1, k2, n);
        lemma_find_char_bounds(p, '/', k2 + 1, n);
        assert(p.subrange(k2 + 1, n) =~= tail);
        assert(find_char(p, '/', k2 + 1, n) is None) by {
            if find_char(p, '/', k2 + 1, n) is Some {
                let k3 = find_char(p, '/', k2 + 1, n)->0;
                assert(tail[k3 - k2 - 1] == p[k3]);
            }
        }
        assert(p.subrange(0, k1) =~= c);
        assert(p.subrange(k1 + 1, k2) =~= r);
    }
}

proof fn lemma_index_from_first(s: Seq<Seq<char>>, x: Seq<char>, i: int, lo: int)
    requires
        0 <= lo <= i < s.len(),
        s[i] == x,
        forall|k: int| lo <= k < i ==> s[k] != x,
    ensures
        index_from(s, x, lo) == Some(i),
    decreases i - lo,
{
    if lo < i {
        lemma_index_from_first(s, x, i, lo + 1);
    }
}

proof fn lemma_index_from_absent(s: Seq<Seq<char>>, x: Seq<char>, lo: int)
    requires
        0 <= lo,
        !s.contains(x),
    ensures
        index_from(s, x, lo) is None,
    decreases s.len() - lo,
{
    if lo < s.len() {
        assert(s[lo] != x);
        lemma_index_from_absent(s, x, lo + 1);
    }
}

/// A chapter's rank follows its place in the book's `chapters` list: the
/// chapter first listed at position `i` ranks `(i + 1) * 100` (so earlier
/// chapters rank lower), and a chapter the list does not name ranks at the
/// default order.
pub proof fn lemma_chapter_rank(book: BookManifestV, i: int, chapter: Seq<char>)
    ensures
        0 <= i < book.chapters.len() && book.chapters[i] == chapter && (forall|k: int|
            0 <= k < i ==> book.chapters[k] != chapter) ==> chapter_rank(book, chapter) as int == if (i + 1)
            * 100 <= i64::MAX {
            (i + 1) * 100
        } else {
            i64::MAX as int
        },
        !book.chapters.contains(chapter) ==> chapter_rank(book, chapter) == DEFAULT_ORDER,
{
    if 0 <= i < book.chapters.len() && book.chapters[i] == chapter && (forall|k: int|
        0 <= k < i ==> book.chapters[k] != chapter) {
        lemma_index_from_first(book.chapters, chapter, i, 0);
    }
    if !book.chapters.contains(chapter) {
        lemma_index_from_absent(book.chapters, chapter, 0);
    }
}

proof fn lemma_insert_skip(
    s: Seq<(Seq<char>, Seq<char>)>,
    x: (Seq<char>, Seq<char>),
    j: int,
)
    requires
        0 <= j <= s.len(),
        forall|k: int| 0 <= k < j ==> s[k] != x && !pair_lt(x, s[k]),
    ensures
        insert_sorted(s, x) == s.take(j) + insert_sorted(s.skip(j), x),
    decreases j,
{
    if j == 0 {
        assert(s.skip(0) =~= s);
        assert(s.take(0) + s =~= s);
    } else {
        lemma_insert_skip(s.drop_first(), x, j - 1);
        assert(s.drop_first().skip(j - 1) =~= s.skip(j));
        assert(s.take(j) =~= seq![s[0]] + s.drop_first().take(j - 1));
    }
}

proof fn lemma_insert_name_skip(s: Seq<Seq<char>>, x: Seq<char>, j: int)
    requires
        0 <= j <= s.len(),
        forall|k: int| 0 <= k < j ==> s[k] != x && !seq_lt(x, s[k]),
    ensures
        insert_name(s, x) == s.take(j) + insert_name(s.skip(j), x),
    decreases j,
{
    if j == 0 {
        assert(s.skip(0) =~= s);
        assert(s.take(0) + s =~= s);
    } else {
        lemma_insert_name_skip(s.drop_first(), x, j - 1);
        assert(s.drop_first().skip(j - 1) =~= s.skip(j));
        assert(s.take(j) =~= seq![s[0]] + s.drop_first().take(j - 1));
    }
}

fn insert_name_exec(v: &mut Vec<String>, x: String)
    ensures
        strs(final(v)@) == insert_name(strs(old(v)@), x@),
{
    let ghost s = strs(v@);
    let mut j: usize = 0;
    while j < v.len() && !(str_eq(v[j].as_str(), x.as_str()) || str_lt(x.as_str(), v[j].as_str()))
        invariant
            j <= v.len(),
            s == strs(v@),
            forall|k: int| 0 <= k < j ==> s[k] != x@ && !seq_lt(x@, s[k]),
        decreases v.len() - j,
    {
        j += 1;
    }
    proof {
        lemma_insert_name_skip(s, x@, j as int);
    }
    if j < v.len() && str_eq(v[j].as_str(), x.as_str()) {
        assert(s.skip(j as int)[0] == x@);
        assert(s.take(j as int) + s.skip(j as int) =~= s);
        return;
    }
    let ghost old_v = v@;
    let ghost xv = x@;
    v.insert(j, x);
    proof {
        if j < old_v.len() {
            assert(s.skip(j as int)[0] == s[j as int]);
        } else {
            assert(s.skip(j as int) =~= Seq::empty());
        }
        assert(strs(v@) =~= s.take(j as int) + (seq![xv] + s.skip(j as int)));
    }
}

fn stops_at(v: &Vec<(String, String)>, j: usize, x: &(String, String)) -> (r: bool)
    requires
        j < v.len(),
    ensures
        r == (pairs_view(v@)[j as int] == (x.0@, x.1@) || pair_lt(
            (x.0@, x.1@),
            pairs_view(v@)[j as int],
        )),
{
    let same = str_eq(v[j].0.as_str(), x.0.as_str()) && str_eq(v[j].1.as_str(), x.1.as_str());
    same || pair_lt_exec(x, &v[j])
}

fn insert_dir(v: &mut Vec<(String, String)>, x: (String, String))
    ensures
        pairs_view(final(v)@) == insert_sorted(pairs_view(old(v)@), (x.0@, x.1@)),
{
    let ghost xs = (x.0@, x.1@);
    let ghost s = pairs_view(v@);
    let mut j: usize = 0;
    while j < v.len() && !stops_at(v, j, &x)
        invariant
            j <= v.len(),
            s == pairs_view(v@),
            xs == (x.0@, x.1@),
            forall|k: int| 0 <= k < j ==> s[k] != xs && !pair_lt(xs, s[k]),
        decreases v.len() - j,
    {
        j += 1;
    }
    proof {
        lemma_insert_skip(s, xs, j as int);
    }
    if j < v.len() && str_eq(v[j].0.as_str(), x.0.as_str()) && str_eq(
        v[j].1.as_str(),
        x.1.as_str(),
    ) {
        assert(s.skip(j as int)[0] == xs);
        assert(s.take(j as int) + s.skip(j as int) =~= s);
        return;
    }
    let ghost old_v = v@;
    v.insert(j, x);
    proof {
        if j < old_v.len() {
            assert(s.skip(j as int)[0] == s[j as int]);
            assert(pair_lt(xs, s.skip(j as int)[0]));
        } else {
            assert(s.skip(j as int) =~= Seq::empty());
        }
        assert(pairs_view(v@) =~= s.take(j as int) + (seq![xs] + s.skip(j as int)));
    }
}

fn discover_dirs(dir: &[(&str, &[u8])]) -> (r: Vec<(String, String)>)
    ensures
        pairs_view(r@) == recipe_dirs(emb_view(dir@)),
{
    let ghost d = emb_view(dir@);
    let mut out: Vec<(String, String)> = Vec::new();
    let mut i: usize = 0;
    while i < dir.len()
        invariant
            i <= dir.len(),
            d == emb_view(dir@),
            pairs_view(out@) == dirs_upto(d, i as int),
        decreases dir.len() - i,
    {
        match recipe_dir_exec(dir[i].0) {
            Some(x) => insert_dir(&mut out, x),
            None => {},
        }
        i += 1;
    }
    out
}

fn conventional_setups(dir: &[(&str, &[u8])], prefix: &str) -> (r: Vec<String>)
    ensures
        strs(r@) == setups_upto(emb_view(dir@), prefix@, dir@.len() as int),
{
    let ghost d = emb_view(dir@);
    let mut pre = text(prefix);
    pre.append("/");
    let pv = chars_of(pre.as_str());
    let mut out: Vec<String> = Vec::new();
    let mut i: usize = 0;
    while i < dir.len()
        invariant
            i <= dir.len(),
            d == emb_view(dir@),
            pv@ == prefix@ + "/"@,
            strs(out@) == setups_upto(d, prefix@, i as int),
        decreases dir.len() - i,
    {
        proof {
            reveal_strlit("setup.");
        }
        let p = chars_of(dir[i].0);
        assert(p@ == d[i as int].0);
        if p.len() >= pv.len() && crate::text::range_eq(&p, 0, pv.len(), &pv) {
            let rest = string_of_range(&p, pv.len(), p.len());
            assert(rest@ == p@.skip(pv@.len() as int));
            let rv = chars_of(rest.as_str());
            let slash = find_char_exec(&rv, '/', 0, rv.len());
            proof {
                lemma_find_char_bounds(rv@, '/', 0, rv.len() as int);
                if slash.is_none() {
                    assert(!rv@.contains('/'));
                } else {
                    assert(rv@.contains('/')) by {
                        let k = slash->0;
                        assert(rv@[k as int] == '/');
                    }
                }
            }
            let starts = rv.len() >= 6 && rv[0] == 's' && rv[1] == 'e' && rv[2] == 't' && rv[3]
                == 'u' && rv[4] == 'p' && rv[5] == '.';
            proof {
                if starts {
                    assert(rv@.take(6) =~= "setup."@);
                } else if rv@.len() >= 6 {
                    if rv@.take(6) == "setup."@ {
                        assert(rv@.take(6)[0] == rv@[0]);
                        assert(rv@.take(6)[1] == rv@[1]);
                        assert(rv@.take(6)[2] == rv@[2]);
                        assert(rv@.take(6)[3] == rv@[3]);
                        assert(rv@.take(6)[4] == rv@[4]);
                        assert(rv@.take(6)[5] == rv@[5]);
                    }
                }
            }
            if starts && slash.is_none() {
                insert_name_exec(&mut out, rest);
            }
        }
        i += 1;
    }
    out
}

fn chapter_rank_exec(book: &BookManifest, chapter: &str) -> (r: i64)
    ensures
        r == chapter_rank(book@, chapter@),
{
    let ghost cs = book@.chapters;
    let mut i: usize = 0;
    while i < book.chapters.len()
        invariant
            i <= book.chapters.len(),
            cs == book@.chapters,
            index_from(cs, chapter@, 0) == index_from(cs, chapter@, i as int),
        decreases book.chapters.len() - i,
    {
        if str_eq(book.chapters[i].as_str(), chapter) {
            assert(cs[i as int] == book.chapters@[i as int]@);
            if (i as u64) <= 92233720368547757u64 {
                return ((i as i64) + 1) * 100;
            } else {
                return i64::MAX;
            }
        }
        assert(cs[i as int] == book.chapters@[i as int]@);
        i += 1;
    }
    DEFAULT_ORDER
}

/// Turn `name` (a chapter directory like `01-basics`) into a human title by
/// dropping a leading numeric-and-dash prefix and capitalizing.
pub fn humanize(name: &str) -> (r: String)
    ensures
        r@ == humanize_spec(name@),
{
    let v = chars_of(name);
    let start = match find_char_exec(&v, '-', 0, v.len()) {
        Some(k) => {
            let mut all = k > 0;
            let mut i: usize = 0;
            while i < k
                invariant
                    i <= k < v.len(),
                    all == (k > 0 && digits_only(v@, 0, i as int)),
                decreases k - i,
            {
                if !('0' <= v[i] && v[i] <= '9') {
                    all = false;
                }
                i += 1;
            }
            if all {
                k + 1
            } else {
                0
            }
        },
        None => 0,
    };
    proof {
        lemma_find_char_bounds(v@, '-', 0, v.len() as int);
    }
    let ghost core = v@.subrange(start as int, v.len() as int);
    let ghost spaced = core.map_values(|c: char| if c == '-' { ' ' } else { c });
    assert(start == 0 ==> core =~= v@);
    let mut out = String::new();
    let mut i = start;
    while i < v.len()
        invariant
            start <= i <= v.len(),
            core == v@.subrange(start as int, v.len() as int),
            spaced == core.map_values(|c: char| if c == '-' { ' ' } else { c }),
            i == start ==> out@ == Seq::<char>::empty(),
            i > start ==> out@ == seq![upper(spaced[0])] + spaced.subrange(1, i - start),
        decreases v.len() - i,
    {
        let c = if v[i] == '-' {
            ' '
        } else {
            v[i]
        };
        let c = if i == start {
            upper_exec(c)
        } else {
            c
        };
        push_char(&mut out, c);
        i += 1;
        assert(out@ =~= seq![upper(spaced[0])] + spaced.subrange(1, i - start));
    }
    if start < v.len() {
        assert(spaced.subrange(1, spaced.len() as int) =~= spaced.drop_first());
    } else {
        assert(spaced =~= Seq::<char>::empty());
    }
    out
}

fn chapter_manifest(dir: &[(&str, &[u8])], chapter: &str) -> (r: Result<ChapterManifest, String>)
    ensures
        r matches Ok(c) ==> chapter_manifest_of(emb_view(dir@), chapter@) == Some(c@),
        r is Err ==> chapter_manifest_of(emb_view(dir@), chapter@) is None,
{
    let mut path = text(chapter);
    path.append("/chapter.toml");
    match find(dir, path.as_str()) {
        Some(bytes) => {
            let t = bytes_to_str(bytes, "chapter.toml")?;
            match parse_chapter(t) {
                Ok(c) => Ok(c),
                Err(e) => {
                    let mut m = concat3(chapter, "/chapter.toml: ", e.as_str());
                    Err(m)
                },
            }
        },
        None => Ok(ChapterManifest::empty()),
    }
}

/// The card of recipe directory `chapter/rid`.
fn build_card(dir: &[(&str, &[u8])], book: &BookManifest, chapter: &str, rid: &str) -> (r: Result<
    (RecipeCard, String),
    String,
>)
    ensures
        r matches Ok(c) ==> card_of(emb_view(dir@), book@, chapter@, rid@) == Some(c.0@),
        r is Err ==> card_of(emb_view(dir@), book@, chapter@, rid@) is None,
{
    let ghost d = emb_view(dir@);
    let prefix = concat3(chapter, "/", rid);
    let mut rpath = text(prefix.as_str());
    rpath.append("/recipe.toml");
    let recipe_bytes = match find(dir, rpath.as_str()) {
        Some(b) => b,
        None => {
            let mut m = text(prefix.as_str());
            m.append(": missing recipe.toml");
            return Err(m);
        },
    };
    let setups = conventional_setups(dir, prefix.as_str());
    let mut names: Vec<&str> = Vec::new();
    let mut i: usize = 0;
    while i < setups.len()
        invariant
            i <= setups.len(),
            names.len() == i,
            forall|k: int| 0 <= k < i ==> (#[trigger] names@[k])@ == setups@[k]@,
        decreases setups.len() - i,
    {
        names.push(setups[i].as_str());
        i += 1;
    }
    assert(names@.map_values(|s: &str| s@) =~= strs(setups@));
    let recipe_text = bytes_to_str(recipe_bytes, prefix.as_str())?;
    let recipe = match parse_embedded_recipe(recipe_text, rid, names.as_slice()) {
        Ok(m) => m,
        Err(e) => {
            let mut m = concat3(prefix.as_str(), "/recipe.toml: ", e.as_str());
            return Err(m);
        },
    };
    match recipe.validate_for_dir() {
        Ok(()) => {},
        Err(errs) => {
            let mut m = text(prefix.as_str());
            m.append("/recipe.toml: ");
            let mut k: usize = 0;
            while k < errs.len()
                invariant
                    k <= errs.len(),
                decreases errs.len() - k,
            {
                if k > 0 {
                    m.append("; ");
                }
                m.append(errs[k].as_str());
                k += 1;
            }
            return Err(m);
        },
    }
    let chapter_m = chapter_manifest(dir, chapter)?;
    let chapter_title = match &chapter_m.title {
        Some(t) => t.clone(),
        None => humanize(chapter),
    };
    let chapter_order = match chapter_m.order {
        Some(o) => o,
        None => chapter_rank_exec(book, chapter),
    };
    let spath = concat3(prefix.as_str(), "/", recipe.setup.as_str());
    let setup = match find(dir, spath.as_str()) {
        Some(b) => vstd::slice::slice_to_vec(b),
        None => {
            let mut m = concat3(prefix.as_str(), ": setup file `", recipe.setup.as_str());
            m.append("` not embedded");
            return Err(m);
        },
    };
    let ppath = concat3(prefix.as_str(), "/", recipe.purpose.as_str());
    let purpose_bytes = match find(dir, ppath.as_str()) {
        Some(b) => b,
        None => {
            let mut m = concat3(prefix.as_str(), ": purpose file `", recipe.purpose.as_str());
            m.append("` not embedded");
            return Err(m);
        },
    };
    let mut what = text(prefix.as_str());
    what.append(" purpose");
    let purpose = text(bytes_to_str(purpose_bytes, what.as_str())?);
    let needs = if recipe.requires.len() == 0 {
        let mut v: Vec<String> = Vec::new();
        v.push(book.book.clone());
        v
    } else {
        copy_strings(&recipe.requires)
    };
    let mut card_id = concat3(book.book.as_str(), "/", chapter);
    card_id.append("/");
    card_id.append(recipe.id.as_str());
    let local_id = recipe.id.clone();
    let card = RecipeCard {
        id: card_id,
        book: book.book.clone(),
        chapter: text(chapter),
        chapter_title,
        chapter_summary: chapter_m.summary,
        title: recipe.title,
        codec: recipe.codec,
        setup,
        purpose,
        order: recipe.order,
        chapter_order,
        book_order: book.order,
        book_title: book.title.clone(),
        book_summary: book.summary.clone(),
        tags: recipe.tags,
        requires: needs,
        expect: recipe.expect,
        source: RecipeSource::Crate { lib: book.book.clone() },
    };
    proof {
        assert(strs(card.requires@) == (if recipe@.requires.len() == 0 {
            seq![book@.book]
        } else {
            recipe@.requires
        }));
    }
    Ok((card, local_id))
}

fn has_card_id(cards: &Vec<RecipeCard>, id: &str) -> (r: bool)
    ensures
        r == has_id(cards_view(cards@), id@),
{
    let mut k: usize = 0;
    while k < cards.len()
        invariant
            k <= cards.len(),
            forall|j: int| 0 <= j < k ==> cards@[j].id@ != id@,
        decreases cards.len() - k,
    {
        if str_eq(cards[k].id.as_str(), id) {
            assert(cards_view(cards@)[k as int].id == id@);
            return true;
        }
        k += 1;
    }
    assert(!has_id(cards_view(cards@), id@)) by {
        if has_id(cards_view(cards@), id@) {
            let j = choose|j: int|
                0 <= j < cards_view(cards@).len() && (#[trigger] cards_view(cards@)[j]).id == id@;
            assert(cards@[j].id@ != id@);
        }
    }
    false
}

/// Parse an embedded `recipes/` tree into recipe cards (unsorted; the
/// cookbook view applies ordering). Returns an error on a duplicated path,
/// a missing or malformed `book.toml`, a malformed recipe, a missing setup or
/// purpose file, a non-UTF-8 manifest or purpose, or a repeated card id.
pub fn recipes_from_embedded(dir: &[(&str, &[u8])]) -> (r: Result<Vec<RecipeCard>, String>)
    ensures
        r is Ok <==> embedded_cards(emb_view(dir@)) is Some,
        r matches Ok(cs) ==> embedded_cards(emb_view(dir@)) == Some(cards_view(cs@)),
        (paths_distinct(emb_view(dir@)) && find_in(emb_view(dir@), "book.toml"@) is None) ==> (r matches Err(
            m,
        ) && m@ == "missing book.toml"@),
{
    let ghost d = emb_view(dir@);
    match check_distinct(dir) {
        Ok(()) => {},
        Err(e) => {
            return Err(e);
        },
    }
    proof {
        reveal_strlit("book.toml");
    }
    let book_bytes = match find(dir, "book.toml") {
        Some(b) => b,
        None => {
            return Err(text("missing book.toml"));
        },
    };
    let book_text = bytes_to_str(book_bytes, "book.toml")?;
    let book = parse_book(book_text)?;
    let dirs = discover_dirs(dir);
    let ghost ds = recipe_dirs(d);
    let mut cards: Vec<RecipeCard> = Vec::new();
    let mut i: usize = 0;
    while i < dirs.len()
        invariant
            i <= dirs.len(),
            d == emb_view(dir@),
            paths_distinct(d),
            find_in(d, "book.toml"@) matches Some(b) && book_of_bytes(b) == Some(book@),
            ds == recipe_dirs(d),
            pairs_view(dirs@) == ds,
            cards_upto(d, book@, ds, i as int) == Some(cards_view(cards@)),
        decreases dirs.len() - i,
    {
        assert(ds[i as int] == (dirs@[i as int].0@, dirs@[i as int].1@));
        let (card, local_id) = match build_card(dir, &book, dirs[i].0.as_str(), dirs[i].1.as_str()) {
            Ok(c) => c,
            Err(e) => {
                proof {
                    lemma_cards_prefix(d, book@, ds, i as int + 1);
                }
                return Err(e);
            },
        };
        if has_card_id(&cards, card.id.as_str()) {
            proof {
                lemma_cards_prefix(d, book@, ds, i as int + 1);
            }
            let mut m = concat3(dirs[i].0.as_str(), "/", dirs[i].1.as_str());
            m.append("/recipe.toml: duplicate recipe id `");
            m.append(local_id.as_str());
            m.append("` in chapter `");
            m.append(dirs[i].0.as_str());
            m.append("`");
            return Err(m);
        }
        let ghost before = cards@;
        cards.push(card);
        assert(cards_view(cards@) =~= cards_view(before).push(card@));
        i += 1;
    }
    Ok(cards)
}

proof fn lemma_cards_prefix(
    d: EmbV,
    book: BookManifestV,
    dirs: Seq<(Seq<char>, Seq<char>)>,
    k: int,
)
    requires
        0 <= k <= dirs.len(),
        cards_upto(d, book, dirs, k) is None,
    ensures
        cards_upto(d, book, dirs, dirs.len() as int) is None,
    decreases dirs.len() - k,
{
    if k < dirs.len() {
        lemma_cards_prefix(d, book, dirs, k + 1);
    }
}

} // verus!
