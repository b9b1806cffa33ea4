//! Typed cookbook manifests parsed from the TOML subset, with strict
//! validation.
//!
//! Three manifest kinds map to three files: `recipe.toml` (one recipe),
//! `book.toml` (one per crate `recipes/` dir), and `chapter.toml` (optional,
//! per chapter). Required fields must be present and non-empty. Unknown keys
//! of a recipe or chapter are ignored, so richer descriptors still load; a
//! book rejects them.
//!
//! Each parser is stated over the parsed document ([`DocV`]): the manifest it
//! returns is the value of a spec function of that document, and it fails
//! exactly when that function has no value.

use vstd::prelude::*;

use crate::cookbook::model::{copy_str_slice, Expectation, ExpectationV};
use crate::cookbook::toml_append::{bogus_entry, bogus_line, lemma_append_top_entry};
use crate::cookbook::toml_lite::{
    find_entry, keys_allowed, lookup, lookup_from, parse, table_names_allowed, tables_with, DocV, EntryV,
    TomlDoc, TomlVal, TomlValue,
};
use crate::text::{
    concat3, find_char, find_char_exec, lemma_find_char_bounds, lemma_skip_ws_bounds, skip_ws,
    skip_ws_exec, text,
};

verus! {

/// Default sort key when `order` is omitted.
pub const DEFAULT_ORDER: i64 = 1000;

/// One problem found while linting recipe files on disk.
#[derive(Clone, Debug, PartialEq, Eq)]
pub struct Diagnostic {
    /// The file or directory the problem concerns.
    pub path: String,
    /// A human-readable description of the problem.
    pub message: String,
}

impl Diagnostic {
    /// A diagnostic for `path`.
    pub fn new(path: String, message: String) -> (d: Diagnostic)
        ensures
            d.path == path,
            d.message == message,
    {
        Diagnostic { path, message }
    }
}

/// Parsed `recipe.toml`.
#[derive(Clone, Debug, PartialEq, Eq)]
pub struct RecipeManifest {
    /// Stable recipe id (last path segment of the runtime id).
    pub id: String,
    /// Human title.
    pub title: String,
    /// Registered codec name for decoding the setup file.
    pub codec: String,
    /// Setup file name, relative to the recipe directory.
    pub setup: String,
    /// Purpose file name, relative to the recipe directory.
    pub purpose: String,
    /// Sort key within the chapter.
    pub order: i64,
    /// Free tags.
    pub tags: Vec<String>,
    /// Lib ids that must be loaded for this recipe (owning lib added later).
    pub requires: Vec<String>,
    /// Declared expectations.
    pub expect: Vec<Expectation>,
}

/// Mathematical value of a [`RecipeManifest`].
pub struct RecipeManifestV {
    pub id: Seq<char>,
    pub title: Seq<char>,
    pub codec: Seq<char>,
    pub setup: Seq<char>,
    pub purpose: Seq<char>,
    pub order: i64,
    pub tags: Seq<Seq<char>>,
    pub requires: Seq<Seq<char>>,
    pub expect: Seq<ExpectationV>,
}

impl View for RecipeManifest {
    type V = RecipeManifestV;

    open spec fn view(&self) -> RecipeManifestV {
        RecipeManifestV {
            id: self.id@,
            title: self.title@,
            codec: self.codec@,
            setup: self.setup@,
            purpose: self.purpose@,
            order: self.order,
            tags: self.tags@.map_values(|s: String| s@),
            requires: self.requires@.map_values(|s: String| s@),
            expect: self.expect@.map_values(|e: Expectation| e@),
        }
    }
}

/// Parsed `book.toml`.
#[derive(Clone, Debug, PartialEq, Eq)]
pub struct BookManifest {
    /// Owning lib id.
    pub book: String,
    /// Human title.
    pub title: String,
    /// One-line summary (may be empty).
    pub summary: String,
    /// Sort key among books.
    pub order: i64,
    /// Explicit chapter order by directory name (may be empty).
    pub chapters: Vec<String>,
}

/// Mathematical value of a [`BookManifest`].
pub struct BookManifestV {
    pub book: Seq<char>,
    pub title: Seq<char>,
    pub summary: Seq<char>,
    pub order: i64,
    pub chapters: Seq<Seq<char>>,
}

impl View for BookManifest {
    type V = BookManifestV;

    open spec fn view(&self) -> BookManifestV {
        BookManifestV {
            book: self.book@,
            title: self.title@,
            summary: self.summary@,
            order: self.order,
            chapters: self.chapters@.map_values(|s: String| s@),
        }
    }
}

/// Parsed `chapter.toml` (every field optional).
#[derive(Clone, Debug, PartialEq, Eq)]
pub struct ChapterManifest {
    /// Overriding chapter title.
    pub title: Option<String>,
    /// Overriding sort key.
    pub order: Option<i64>,
    /// One-line summary (may be empty).
    pub summary: String,
}

/// Mathematical value of a [`ChapterManifest`].
pub struct ChapterManifestV {
    pub title: Option<Seq<char>>,
    pub order: Option<i64>,
    pub summary: Seq<char>,
}

impl View for ChapterManifest {
    type V = ChapterManifestV;

    open spec fn view(&self) -> ChapterManifestV {
        ChapterManifestV {
            title: match self.title {
                Some(t) => Some(t@),
                None => None,
            },
            order: self.order,
            summary: self.summary@,
        }
    }
}

impl ChapterManifest {
    /// The manifest of a chapter without `chapter.toml`.
    pub fn empty() -> (c: ChapterManifest)
        ensures
            c@ == (ChapterManifestV { title: None, order: None, summary: Seq::empty() }),
    {
        ChapterManifest { title: None, order: None, summary: String::new() }
    }
}

// ---------------------------------------------------------------------------
// Field rules over a parsed document.
// ---------------------------------------------------------------------------
/// A required non-empty string key.
pub open spec fn req_str(d: DocV, key: Seq<char>) -> Option<Seq<char>> {
    match lookup(d.top, key) {
        Some(TomlVal::Str(s)) => if s.len() > 0 {
            Some(s)
        } else {
            None
        },
        _ => None,
    }
}

/// A required non-empty string key that falls back to `fallback` when absent.
pub open spec fn req_str_or(d: DocV, key: Seq<char>, fallback: Option<Seq<char>>) -> Option<
    Seq<char>,
> {
    match lookup(d.top, key) {
        Some(_) => req_str(d, key),
        None => match fallback {
            Some(f) => if f.len() > 0 {
                Some(f)
            } else {
                None
            },
            None => None,
        },
    }
}

/// An optional string key (empty when absent).
pub open spec fn opt_str(d: DocV, key: Seq<char>) -> Option<Seq<char>> {
    match lookup(d.top, key) {
        Some(TomlVal::Str(s)) => Some(s),
        Some(_) => None,
        None => Some(Seq::empty()),
    }
}

/// The `order` key, defaulting to [`DEFAULT_ORDER`].
pub open spec fn opt_order(d: DocV) -> Option<i64> {
    match lookup(d.top, seq!['o', 'r', 'd', 'e', 'r']) {
        Some(TomlVal::Int(n)) => Some(n),
        Some(_) => None,
        None => Some(DEFAULT_ORDER),
    }
}

/// An optional string-array key (empty when absent).
pub open spec fn opt_strings(d: DocV, key: Seq<char>) -> Option<Seq<Seq<char>>> {
    match lookup(d.top, key) {
        Some(TomlVal::Array(v)) => Some(v),
        Some(_) => None,
        None => Some(Seq::empty()),
    }
}

/// One `[[expect]]` table: a non-negative integer `form` and a string `result`.
pub open spec fn expect_of(t: Seq<EntryV>) -> Option<ExpectationV> {
    match (lookup(t, seq!['f', 'o', 'r', 'm']), lookup(t, seq!['r', 'e', 's', 'u', 'l', 't'])) {
        (Some(TomlVal::Int(n)), Some(TomlVal::Str(r))) => if n >= 0 {
            Some(ExpectationV { form: n as usize, result: r })
        } else {
            None
        },
        _ => None,
    }
}

/// All `[[expect]]` tables, in order; `None` when one is malformed.
pub open spec fn expects_of(ts: Seq<Seq<EntryV>>) -> Option<Seq<ExpectationV>>
    decreases ts.len(),
{
    if ts.len() == 0 {
        Some(Seq::empty())
    } else {
        match (expects_of(ts.drop_last()), expect_of(ts.last())) {
            (Some(a), Some(e)) => Some(a.push(e)),
            _ => None,
        }
    }
}

/// The key names used by the recipe rules.
pub open spec fn k_id() -> Seq<char> {
    seq!['i', 'd']
}

pub open spec fn k_title() -> Seq<char> {
    seq!['t', 'i', 't', 'l', 'e']
}

pub open spec fn k_codec() -> Seq<char> {
    seq!['c', 'o', 'd', 'e', 'c']
}

pub open spec fn k_setup() -> Seq<char> {
    seq!['s', 'e', 't', 'u', 'p']
}

pub open spec fn k_purpose() -> Seq<char> {
    seq!['p', 'u', 'r', 'p', 'o', 's', 'e']
}

pub open spec fn k_tags() -> Seq<char> {
    seq!['t', 'a', 'g', 's']
}

pub open spec fn k_needs() -> Seq<char> {
    seq!['r', 'e', 'q', 'u', 'i', 'r', 'e', 's']
}

pub open spec fn k_expect() -> Seq<char> {
    seq!['e', 'x', 'p', 'e', 'c', 't']
}

pub open spec fn k_book() -> Seq<char> {
    seq!['b', 'o', 'o', 'k']
}

pub open spec fn k_summary() -> Seq<char> {
    seq!['s', 'u', 'm', 'm', 'a', 'r', 'y']
}

pub open spec fn k_chapters() -> Seq<char> {
    seq!['c', 'h', 'a', 'p', 't', 'e', 'r', 's']
}

pub open spec fn k_order() -> Seq<char> {
    seq!['o', 'r', 'd', 'e', 'r']
}

/// Fallback values for `id`, `codec` and `setup`, viewed.
pub type DefaultsV = Option<(Seq<char>, Seq<char>, Seq<char>)>;

/// The recipe a document describes, with optional fallbacks.
pub open spec fn recipe_of(d: DocV, defaults: DefaultsV) -> Option<RecipeManifestV> {
    let id = req_str_or(d, k_id(), match defaults { Some(x) => Some(x.0), None => None });
    let codec = req_str_or(d, k_codec(), match defaults { Some(x) => Some(x.1), None => None });
    let setup = req_str_or(d, k_setup(), match defaults { Some(x) => Some(x.2), None => None });
    let expect = expects_of(tables_with(d.tables, k_expect()));
    let title = req_str(d, k_title());
    let purpose = req_str(d, k_purpose());
    let order = opt_order(d);
    let tags = opt_strings(d, k_tags());
    let needs = opt_strings(d, k_needs());
    if expect is Some && id is Some && title is Some && codec is Some && setup is Some
        && purpose is Some && order is Some && tags is Some && needs is Some {
        Some(
            RecipeManifestV {
                id: id->0,
                title: title->0,
                codec: codec->0,
                setup: setup->0,
                purpose: purpose->0,
                order: order->0,
                tags: tags->0,
                requires: needs->0,
                expect: expect->0,
            },
        )
    } else {
        None
    }
}

/// The top-level keys a recipe reads.
pub open spec fn recipe_keys() -> Seq<Seq<char>> {
    seq![k_id(), k_title(), k_codec(), k_setup(), k_purpose(), seq!['o', 'r', 'd', 'e', 'r'], k_tags(), k_needs()]
}

proof fn lemma_lookup_push(v: Seq<EntryV>, e: EntryV, key: Seq<char>, i: int)
    requires
        0 <= i <= v.len(),
        e.0 != key,
    ensures
        lookup_from(v.push(e), key, i) == lookup_from(v, key, i),
    decreases v.len() - i,
{
    if i < v.len() {
        assert(v.push(e)[i] == v[i]);
        lemma_lookup_push(v, e, key, i + 1);
    } else {
        assert(v.push(e)[i] == e);
        assert(lookup_from(v.push(e), key, i + 1) is None);
    }
}

proof fn lemma_tables_with_push(ts: Seq<(Seq<char>, Seq<EntryV>)>, t: (Seq<char>, Seq<EntryV>), name: Seq<char>)
    requires
        t.0 != name,
    ensures
        tables_with(ts.push(t), name) == tables_with(ts, name),
{
    assert(ts.push(t).drop_last() =~= ts);
}

/// A recipe ignores what it does not read: adding a top-level key other
/// than the recipe's own keys, or a table other than `[[expect]]`, leaves
/// the recipe read from the document, and the missing-key refusal, as they
/// were.
pub proof fn lemma_unknown_entries_ignored(
    d: DocV,
    defaults: DefaultsV,
    e: EntryV,
    table: (Seq<char>, Seq<EntryV>),
)
    requires
        !recipe_keys().contains(e.0),
        table.0 != k_expect(),
    ensures
        recipe_of(DocV { top: d.top.push(e), tables: d.tables }, defaults) == recipe_of(d, defaults),
        recipe_missing_key(DocV { top: d.top.push(e), tables: d.tables }, defaults) == recipe_missing_key(
            d,
            defaults,
        ),
        recipe_of(DocV { top: d.top, tables: d.tables.push(table) }, defaults) == recipe_of(d, defaults),
        recipe_missing_key(DocV { top: d.top, tables: d.tables.push(table) }, defaults)
            == recipe_missing_key(d, defaults),
{
    let ks = recipe_keys();
    assert forall|j: int| 0 <= j < ks.len() implies lookup(d.top.push(e), #[trigger] ks[j]) == lookup(d.top, ks[j]) by {
        assert(e.0 != ks[j]);
        lemma_lookup_push(d.top, e, ks[j], 0);
    }
    assert(ks[0] == k_id() && ks[1] == k_title() && ks[2] == k_codec() && ks[3] == k_setup());
    assert(ks[4] == k_purpose() && ks[5] == seq!['o', 'r', 'd', 'e', 'r'] && ks[6] == k_tags() && ks[7] == k_needs());
    lemma_tables_with_push(d.tables, table, k_expect());
}

/// Unknown top-level keys are ignored, not refused: appending the line
/// `bogus = 1` to a recipe text that ends a line (or is empty) and has no
/// `[[...]]` tables still parses, and reads as the same recipe, or as the
/// same missing-key refusal.
pub proof fn lemma_unknown_top_key_ignored(t: Seq<char>)
    requires
        crate::cookbook::toml_lite::spec_parse(t) is Some,
        t.len() > 0 ==> t[t.len() - 1] == '\n',
        crate::cookbook::toml_lite::spec_parse(t)->0.tables.len() == 0,
    ensures
        crate::cookbook::toml_lite::spec_parse(t + bogus_line()) is Some,
        recipe_of(crate::cookbook::toml_lite::spec_parse(t + bogus_line())->0, None) == recipe_of(
            crate::cookbook::toml_lite::spec_parse(t)->0,
            None,
        ),
        recipe_missing_key(crate::cookbook::toml_lite::spec_parse(t + bogus_line())->0, None)
            == recipe_missing_key(crate::cookbook::toml_lite::spec_parse(t)->0, None),
{
    let d = crate::cookbook::toml_lite::spec_parse(t)->0;
    lemma_append_top_entry(t);
    let e = bogus_entry();
    let ks = recipe_keys();
    assert(!ks.contains(e.0)) by {
        assert forall|j: int| 0 <= j < ks.len() implies ks[j] != e.0 by {
            assert(e.0[0] == 'b');
            assert(ks[j].len() != e.0.len() || ks[j][0] != 'b');
        }
    }
    lemma_unknown_entries_ignored(d, None, e, (seq!['x'], Seq::empty()));
}

/// The message of a recipe whose first unmet requirement is an absent
/// required key (after its `[[expect]]` tables were read): the keys are
/// read as `id`, `title`, `codec`, `setup`, `purpose`. `None` when the
/// first unmet requirement is of another kind, or there is none.
pub open spec fn recipe_missing_key(d: DocV, defaults: DefaultsV) -> Option<Seq<char>> {
    let fid = match defaults { Some(x) => Some(x.0), None => None };
    let fcodec = match defaults { Some(x) => Some(x.1), None => None };
    let fsetup = match defaults { Some(x) => Some(x.2), None => None };
    if expects_of(tables_with(d.tables, k_expect())) is None {
        None
    } else if req_str_or(d, k_id(), fid) is None {
        if lookup(d.top, k_id()) is None { Some(missing_key_message(k_id())) } else { None }
    } else if req_str(d, k_title()) is None {
        if lookup(d.top, k_title()) is None { Some(missing_key_message(k_title())) } else { None }
    } else if req_str_or(d, k_codec(), fcodec) is None {
        if lookup(d.top, k_codec()) is None { Some(missing_key_message(k_codec())) } else { None }
    } else if req_str_or(d, k_setup(), fsetup) is None {
        if lookup(d.top, k_setup()) is None { Some(missing_key_message(k_setup())) } else { None }
    } else if req_str(d, k_purpose()) is None {
        if lookup(d.top, k_purpose()) is None { Some(missing_key_message(k_purpose())) } else { None }
    } else {
        None
    }
}

/// The keys a `book.toml` may carry.
pub open spec fn book_keys() -> Seq<&'static str> {
    seq!["book", "title", "summary", "order", "chapters"]
}

/// The book a document describes.
pub open spec fn book_of(d: DocV) -> Option<BookManifestV> {
    let book = req_str(d, k_book());
    let title = req_str(d, k_title());
    let summary = opt_str(d, k_summary());
    let order = opt_order(d);
    let chapters = opt_strings(d, k_chapters());
    if keys_allowed(d.top, book_keys()) && d.tables.len() == 0 && book is Some && title is Some
        && summary is Some && order is Some && chapters is Some {
        Some(
            BookManifestV {
                book: book->0,
                title: title->0,
                summary: summary->0,
                order: order->0,
                chapters: chapters->0,
            },
        )
    } else {
        None
    }
}

/// The chapter a document describes.
pub open spec fn chapter_of(d: DocV) -> Option<ChapterManifestV> {
    let title = match lookup(d.top, k_title()) {
        Some(TomlVal::Str(s)) => Some(Some(s)),
        Some(_) => None,
        None => Some(None),
    };
    let order = match lookup(d.top, k_order()) {
        Some(TomlVal::Int(n)) => Some(Some(n)),
        Some(_) => None,
        None => Some(None),
    };
    let summary = opt_str(d, k_summary());
    if title is Some && order is Some && summary is Some {
        Some(ChapterManifestV { title: title->0, order: order->0, summary: summary->0 })
    } else {
        None
    }
}

// ---------------------------------------------------------------------------
// Field readers.
// ---------------------------------------------------------------------------
/// The message for an absent required key.
pub open spec fn missing_key_message(key: Seq<char>) -> Seq<char> {
    "missing required key `"@ + key + "`"@
}

fn required_str(doc: &TomlDoc, key: &str) -> (r: Result<String, String>)
    ensures
        r matches Ok(s) ==> req_str(doc@, key@) == Some(s@),
        r is Err ==> req_str(doc@, key@) is None,
        lookup(doc@.top, key@) is None ==> (r matches Err(m) && m@ == missing_key_message(key@)),
{
    let value = match doc.get(key) {
        Some(v) => v,
        None => {
            return Err(concat3("missing required key `", key, "`"));
        },
    };
    let t = match value.as_str() {
        Ok(t) => t,
        Err(e) => {
            let mut m = concat3("`", key, "`: ");
            m.append(e.as_str());
            return Err(m);
        },
    };
    if t.is_empty() {
        return Err(concat3("`", key, "` must not be empty"));
    }
    Ok(text(t))
}

fn required_str_or(doc: &TomlDoc, key: &str, fallback: Option<&str>) -> (r: Result<
    String,
    String,
>)
    ensures
        r matches Ok(s) ==> req_str_or(
            doc@,
            key@,
            match fallback {
                Some(f) => Some(f@),
                None => None,
            },
        ) == Some(s@),
        r is Err ==> req_str_or(
            doc@,
            key@,
            match fallback {
                Some(f) => Some(f@),
                None => None,
            },
        ) is None,
        lookup(doc@.top, key@) is None && r is Err ==> (r matches Err(m) && m@ == missing_key_message(
            key@,
        )),
{
    match doc.get(key) {
        Some(_) => required_str(doc, key),
        None => match fallback {
            Some(f) => {
                if f.is_empty() {
                    Err(concat3("missing required key `", key, "`"))
                } else {
                    Ok(text(f))
                }
            },
            None => Err(concat3("missing required key `", key, "`")),
        },
    }
}

fn optional_str(doc: &TomlDoc, key: &str) -> (r: Result<String, String>)
    ensures
        r matches Ok(s) ==> opt_str(doc@, key@) == Some(s@),
        r is Err ==> opt_str(doc@, key@) is None,
{
    match doc.get(key) {
        Some(v) => match v.as_str() {
            Ok(t) => Ok(text(t)),
            Err(e) => {
                let mut m = concat3("`", key, "`: ");
                m.append(e.as_str());
                Err(m)
            },
        },
        None => Ok(String::new()),
    }
}

fn optional_order(doc: &TomlDoc) -> (r: Result<i64, String>)
    ensures
        r matches Ok(n) ==> opt_order(doc@) == Some(n),
        r is Err ==> opt_order(doc@) is None,
{
    proof {
        reveal_strlit("order");
    }
    assert("order"@ =~= k_order());
    match doc.get("order") {
        Some(v) => match v.as_int() {
            Ok(n) => Ok(n),
            Err(e) => {
                let mut m = text("`order`: ");
                m.append(e.as_str());
                Err(m)
            },
        },
        None => Ok(DEFAULT_ORDER),
    }
}

fn optional_strings(doc: &TomlDoc, key: &str) -> (r: Result<Vec<String>, String>)
    ensures
        r matches Ok(v) ==> opt_strings(doc@, key@) == Some(v@.map_values(|s: String| s@)),
        r is Err ==> opt_strings(doc@, key@) is None,
{
    match doc.get(key) {
        Some(v) => match v.as_array() {
            Ok(items) => {
                let out = copy_str_slice(items);
                Ok(out)
            },
            Err(e) => {
                let mut m = concat3("`", key, "`: ");
                m.append(e.as_str());
                Err(m)
            },
        },
        None => Ok(Vec::new()),
    }
}

proof fn lemma_expects_prefix(ts: Seq<Seq<EntryV>>, k: int)
    requires
        0 <= k <= ts.len(),
        expects_of(ts.take(k)) is None,
    ensures
        expects_of(ts) is None,
    decreases ts.len() - k,
{
    if k < ts.len() {
        assert(ts.take(k + 1).drop_last() =~= ts.take(k));
        lemma_expects_prefix(ts, k + 1);
    } else {
        assert(ts.take(k) =~= ts);
    }
}

fn expect_exec(t: &Vec<(String, TomlValue)>) -> (r: Result<Expectation, String>)
    ensures
        r matches Ok(e) ==> expect_of(crate::cookbook::toml_lite::entries_view(t@)) == Some(e@),
        r is Err ==> expect_of(crate::cookbook::toml_lite::entries_view(t@)) is None,
{
    proof {
        reveal_strlit("form");
        reveal_strlit("result");
    }
    assert("form"@ =~= seq!['f', 'o', 'r', 'm']);
    assert("result"@ =~= seq!['r', 'e', 's', 'u', 'l', 't']);
    let form = match find_entry(t, "form") {
        Some(v) => match v.as_int() {
            Ok(n) => n,
            Err(e) => {
                let mut m = text("`[[expect]].form`: ");
                m.append(e.as_str());
                return Err(m);
            },
        },
        None => {
            return Err(text("`[[expect]]` missing `form`"));
        },
    };
    if form < 0 {
        return Err(text("`[[expect]].form` must be >= 0"));
    }
    let result = match find_entry(t, "result") {
        Some(v) => match v.as_str() {
            Ok(s) => text(s),
            Err(e) => {
                let mut m = text("`[[expect]].result`: ");
                m.append(e.as_str());
                return Err(m);
            },
        },
        None => {
            return Err(text("`[[expect]]` missing `result`"));
        },
    };
    Ok(Expectation { form: form as usize, result })
}

fn expectations(doc: &TomlDoc) -> (r: Result<Vec<Expectation>, String>)
    ensures
        r matches Ok(v) ==> expects_of(tables_with(doc@.tables, k_expect())) == Some(
            v@.map_values(|e: Expectation| e@),
        ),
        r is Err ==> expects_of(tables_with(doc@.tables, k_expect())) is None,
{
    proof {
        reveal_strlit("expect");
    }
    assert("expect"@ =~= k_expect());
    let tables = doc.tables_named("expect");
    let ghost ts = tables_with(doc@.tables, k_expect());
    let ghost vw = |t: &Vec<(String, TomlValue)>| crate::cookbook::toml_lite::entries_view(t@);
    assert(tables@.map_values(vw) == ts);
    let mut out: Vec<Expectation> = Vec::new();
    let mut i: usize = 0;
    while i < tables.len()
        invariant
            i <= tables.len() == ts.len(),
            tables@.map_values(vw) == ts,
            ts == tables_with(doc@.tables, k_expect()),
            vw == (|t: &Vec<(String, TomlValue)>| crate::cookbook::toml_lite::entries_view(t@)),
            expects_of(ts.take(i as int)) == Some(out@.map_values(|e: Expectation| e@)),
        decreases tables.len() - i,
    {
        assert(ts.take(i + 1).drop_last() =~= ts.take(i as int));
        assert(ts.take(i + 1).last() == ts[i as int]);
        assert(ts[i as int] == crate::cookbook::toml_lite::entries_view(tables@[i as int]@));
        match expect_exec(tables[i]) {
            Ok(e) => {
                let ghost before = out@;
                out.push(e);
                assert(out@.map_values(|e: Expectation| e@) =~= before.map_values(
                    |e: Expectation| e@,
                ).push(e@));
            },
            Err(m) => {
                proof {
                    lemma_expects_prefix(ts, i + 1);
                }
                return Err(m);
            },
        }
        i += 1;
    }
    assert(ts.take(i as int) =~= ts);
    Ok(out)
}

// ---------------------------------------------------------------------------
// Relative paths.
// ---------------------------------------------------------------------------
/// Why a recipe-relative path is unsafe.
pub enum PathProblem {
    /// Absolute, or a drive prefix.
    NotRelative,
    /// Uses `\`.
    Backslash,
    /// Has an empty component.
    EmptyComponent,
    /// Has a `.` component.
    Dot,
    /// Has a `..` component.
    DotDot,
}

/// ASCII letter.
pub open spec fn is_ascii_alpha(c: char) -> bool {
    ('a' <= c && c <= 'z') || ('A' <= c && c <= 'Z')
}

/// The first unsafe component of `v`, scanning the `/`-separated
/// components from the one starting at `start`.
pub open spec fn component_problem(v: Seq<char>, start: int) -> Option<PathProblem>
    decreases v.len() - start,
{
    if start < 0 || start > v.len() {
        None
    } else {
        let end = match find_char(v, '/', start, v.len() as int) {
            Some(k) => k,
            None => v.len() as int,
        };
        let comp = v.subrange(start, end);
        if comp.len() == 0 {
            Some(PathProblem::EmptyComponent)
        } else if comp == seq!['.'] {
            Some(PathProblem::Dot)
        } else if comp == seq!['.', '.'] {
            Some(PathProblem::DotDot)
        } else if end < v.len() {
            proof {
                lemma_find_char_bounds(v, '/', start, v.len() as int);
            }
            component_problem(v, end + 1)
        } else {
            None
        }
    }
}

/// What is wrong with a recipe-relative path, checked in this order:
/// absolute or drive-prefixed, `\` separators, then each component.
pub open spec fn path_problem(v: Seq<char>) -> Option<PathProblem> {
    if v.len() > 0 && (v[0] == '/' || v[0] == '\\') {
        Some(PathProblem::NotRelative)
    } else if v.len() >= 2 && v[1] == ':' && is_ascii_alpha(v[0]) {
        Some(PathProblem::NotRelative)
    } else if v.contains('\\') {
        Some(PathProblem::Backslash)
    } else {
        component_problem(v, 0)
    }
}

/// The message for a problem with field `field`.
pub open spec fn path_message(field: Seq<char>, p: PathProblem) -> Seq<char> {
    "`"@ + field + match p {
        PathProblem::NotRelative => "` must be a relative slash path"@,
        PathProblem::Backslash => "` must use `/` separators only"@,
        PathProblem::EmptyComponent => "` must not contain empty path components"@,
        PathProblem::Dot => "` must not contain `.` path components"@,
        PathProblem::DotDot => "` must not contain `..` path components"@,
    }
}

fn path_error(field: &str, p: PathProblem) -> (m: String)
    ensures
        m@ == path_message(field@, p),
{
    let tail = match p {
        PathProblem::NotRelative => "` must be a relative slash path",
        PathProblem::Backslash => "` must use `/` separators only",
        PathProblem::EmptyComponent => "` must not contain empty path components",
        PathProblem::Dot => "` must not contain `.` path components",
        PathProblem::DotDot => "` must not contain `..` path components",
    };
    concat3("`", field, tail)
}

fn component_problem_exec(v: &Vec<char>) -> (r: Option<PathProblem>)
    ensures
        r == component_problem(v@, 0),
{
    let mut start: usize = 0;
    while start <= v.len()
        invariant
            start <= v.len() + 1,
            component_problem(v@, 0) == component_problem(v@, start as int),
        decreases v.len() + 1 - start,
    {
        let end = match find_char_exec(v, '/', start, v.len()) {
            Some(k) => k,
            None => v.len(),
        };
        proof {
            lemma_find_char_bounds(v@, '/', start as int, v.len() as int);
        }
        let n = end - start;
        if n == 0 {
            return Some(PathProblem::EmptyComponent);
        }
        if n == 1 && v[start] == '.' {
            assert(v@.subrange(start as int, end as int) =~= seq!['.']);
            return Some(PathProblem::Dot);
        }
        if n == 2 && v[start] == '.' && v[start + 1] == '.' {
            assert(v@.subrange(start as int, end as int) =~= seq!['.', '.']);
            return Some(PathProblem::DotDot);
        }
        assert(v@.subrange(start as int, end as int) != seq!['.']) by {
            if n == 1 {
                assert(v@.subrange(start as int, end as int)[0] == v@[start as int]);
            }
        }
        assert(v@.subrange(start as int, end as int) != seq!['.', '.']) by {
            if n == 2 {
                assert(v@.subrange(start as int, end as int)[0] == v@[start as int]);
                assert(v@.subrange(start as int, end as int)[1] == v@[start + 1]);
            }
        }
        if end == v.len() {
            return None;
        }
        start = end + 1;
    }
    None
}

/// Checks one recipe-relative path field.
#[verifier::loop_isolation(false)]
fn validate_recipe_rel_path(field: &str, value: &str) -> (r: Result<(), String>)
    ensures
        r is Ok <==> path_problem(value@) is None,
        r matches Err(m) ==> path_problem(value@) matches Some(p) && m@ == path_message(
            field@,
            p,
        ),
{
    let v = crate::text::chars_of(value);
    if v.len() > 0 && (v[0] == '/' || v[0] == '\\') {
        return Err(path_error(field, PathProblem::NotRelative));
    }
    if v.len() >= 2 && v[1] == ':' && (('a' <= v[0] && v[0] <= 'z') || ('A' <= v[0] && v[0]
        <= 'Z')) {
        return Err(path_error(field, PathProblem::NotRelative));
    }
    let mut i: usize = 0;
    while i < v.len()
        invariant
            i <= v.len(),
            forall|j: int| 0 <= j < i ==> v@[j] != '\\',
        decreases v.len() - i,
    {
        if v[i] == '\\' {
            assert(v@.contains('\\')) by {
                assert(v@[i as int] == '\\');
            }
            return Err(path_error(field, PathProblem::Backslash));
        }
        i += 1;
    }
    assert(!v@.contains('\\'));
    match component_problem_exec(&v) {
        Some(p) => Err(path_error(field, p)),
        None => Ok(()),
    }
}

impl RecipeManifest {
    /// Validate the manifest fields whose meaning depends on a recipe
    /// directory: the `setup` and `purpose` paths must be safe relative
    /// slash paths. Every problem is reported, `setup` first.
    pub fn validate_for_dir(&self) -> (r: Result<(), Vec<String>>)
        ensures
            r is Ok <==> path_problem(self.setup@) is None && path_problem(self.purpose@) is None,
            r matches Err(v) ==> v@.map_values(|s: String| s@) == path_messages(
                self.setup@,
                self.purpose@,
            ),
    {
        let mut problems: Vec<String> = Vec::new();
        match validate_recipe_rel_path("setup", self.setup.as_str()) {
            Err(err) => problems.push(err),
            Ok(()) => {},
        }
        match validate_recipe_rel_path("purpose", self.purpose.as_str()) {
            Err(err) => problems.push(err),
            Ok(()) => {},
        }
        proof {
            reveal_strlit("setup");
            reveal_strlit("purpose");
        }
        assert("setup"@ =~= k_setup());
        assert("purpose"@ =~= k_purpose());
        if problems.len() == 0 {
            Ok(())
        } else {
            assert(problems@.map_values(|s: String| s@) =~= path_messages(
                self.setup@,
                self.purpose@,
            ));
            Err(problems)
        }
    }
}

/// The messages for unsafe `setup` and `purpose` paths, in that order.
pub open spec fn path_messages(setup: Seq<char>, purpose: Seq<char>) -> Seq<Seq<char>> {
    let a = match path_problem(setup) {
        Some(p) => seq![path_message(k_setup(), p)],
        None => Seq::empty(),
    };
    let b = match path_problem(purpose) {
        Some(p) => seq![path_message(k_purpose(), p)],
        None => Seq::empty(),
    };
    a + b
}

// ---------------------------------------------------------------------------
// Parsers.
// ---------------------------------------------------------------------------
/// Fallback values for a recipe manifest that omits `id`, `codec` or `setup`.
pub struct RecipeDefaults<'a> {
    pub id: &'a str,
    pub codec: &'a str,
    pub setup: &'a str,
}

/// The view of optional fallbacks.
pub open spec fn defaults_view(d: Option<RecipeDefaults>) -> DefaultsV {
    match d {
        Some(x) => Some((x.id@, x.codec@, x.setup@)),
        None => None,
    }
}

/// Builds the recipe manifest of a parsed document.
pub fn parse_recipe_doc(doc: &TomlDoc, defaults: Option<RecipeDefaults>) -> (r: Result<
    RecipeManifest,
    String,
>)
    ensures
        r matches Ok(m) ==> recipe_of(doc@, defaults_view(defaults)) == Some(m@),
        r is Err ==> recipe_of(doc@, defaults_view(defaults)) is None,
        recipe_missing_key(doc@, defaults_view(defaults)) matches Some(m) ==> (r matches Err(e) && e@
            == m),
{
    proof {
        reveal_strlit("id");
        reveal_strlit("title");
        reveal_strlit("codec");
        reveal_strlit("setup");
        reveal_strlit("purpose");
        reveal_strlit("tags");
        reveal_strlit("requires");
    }
    assert("id"@ =~= k_id());
    assert("title"@ =~= k_title());
    assert("codec"@ =~= k_codec());
    assert("setup"@ =~= k_setup());
    assert("purpose"@ =~= k_purpose());
    assert("tags"@ =~= k_tags());
    assert("requires"@ =~= k_needs());
    let expect = expectations(doc)?;
    let (d_id, d_codec, d_setup) = match &defaults {
        Some(x) => (Some(x.id), Some(x.codec), Some(x.setup)),
        None => (None, None, None),
    };
    let id = required_str_or(doc, "id", d_id)?;
    let title = required_str(doc, "title")?;
    let codec = required_str_or(doc, "codec", d_codec)?;
    let setup = required_str_or(doc, "setup", d_setup)?;
    let purpose = required_str(doc, "purpose")?;
    let order = optional_order(doc)?;
    let tags = optional_strings(doc, "tags")?;
    let needs = optional_strings(doc, "requires")?;
    Ok(RecipeManifest { id, title, codec, setup, purpose, order, tags, requires: needs, expect })
}

/// Parse and validate `recipe.toml` text.
///
/// Unknown top-level keys and unknown `[[table]]`s are ignored, so recipes
/// with a richer descriptor vocabulary still load. A missing or empty
/// required key (`id`/`title`/`codec`/`setup`/`purpose`) is an error.
pub fn parse_recipe(text_in: &str) -> (r: Result<RecipeManifest, String>)
    ensures
        r is Ok <==> (crate::cookbook::toml_lite::spec_parse(text_in@) matches Some(d) && recipe_of(
            d,
            None,
        ) is Some),
        r matches Ok(m) ==> recipe_of(
            crate::cookbook::toml_lite::spec_parse(text_in@)->0,
            None,
        ) == Some(m@),
        (crate::cookbook::toml_lite::spec_parse(text_in@) matches Some(d) && recipe_missing_key(
            d,
            None,
        ) is Some) ==> (r matches Err(e) && e@ == recipe_missing_key(
            crate::cookbook::toml_lite::spec_parse(text_in@)->0,
            None,
        )->0),
{
    let doc = match parse(text_in) {
        Ok(d) => d,
        Err(e) => {
            assert(crate::cookbook::toml_lite::spec_parse(text_in@) is None);
            return Err(e);
        },
    };
    parse_recipe_doc(&doc, None)
}

/// Parse and validate `book.toml` text. Unknown keys and any table are
/// rejected.
pub fn parse_book(text_in: &str) -> (r: Result<BookManifest, String>)
    ensures
        r is Ok <==> (crate::cookbook::toml_lite::spec_parse(text_in@) matches Some(d) && book_of(
            d,
        ) is Some),
        r matches Ok(m) ==> book_of(crate::cookbook::toml_lite::spec_parse(text_in@)->0) == Some(
            m@,
        ),
{
    let doc = parse(text_in)?;
    let allowed: [&str; 5] = ["book", "title", "summary", "order", "chapters"];
    let none: [&str; 0] = [];
    assert(allowed@ =~= book_keys());
    doc.reject_unknown_top(allowed.as_slice())?;
    doc.reject_unknown_tables(none.as_slice())?;
    proof {
        if doc@.tables.len() > 0 {
            assert(!crate::cookbook::toml_lite::name_allowed(doc@.tables[0].0, none@));
        }
        reveal_strlit("book");
        reveal_strlit("title");
        reveal_strlit("summary");
        reveal_strlit("chapters");
    }
    assert("book"@ =~= k_book());
    assert("title"@ =~= k_title());
    assert("summary"@ =~= k_summary());
    assert("chapters"@ =~= k_chapters());
    let book = required_str(&doc, "book")?;
    let title = required_str(&doc, "title")?;
    let summary = optional_str(&doc, "summary")?;
    let order = optional_order(&doc)?;
    let chapters = optional_strings(&doc, "chapters")?;
    Ok(BookManifest { book, title, summary, order, chapters })
}

/// Parse `chapter.toml` text (all fields optional; unknown keys ignored).
pub fn parse_chapter(text_in: &str) -> (r: Result<ChapterManifest, String>)
    ensures
        r is Ok <==> (crate::cookbook::toml_lite::spec_parse(text_in@) matches Some(d)
            && chapter_of(d) is Some),
        r matches Ok(m) ==> chapter_of(crate::cookbook::toml_lite::spec_parse(text_in@)->0)
            == Some(m@),
{
    let doc = parse(text_in)?;
    proof {
        reveal_strlit("title");
        reveal_strlit("order");
        reveal_strlit("summary");
    }
    assert("title"@ =~= k_title());
    assert("order"@ =~= k_order());
    assert("summary"@ =~= k_summary());
    let title = match doc.get("title") {
        Some(v) => match v.as_str() {
            Ok(t) => Some(text(t)),
            Err(e) => {
                let mut m = text("`title`: ");
                m.append(e.as_str());
                return Err(m);
            },
        },
        None => None,
    };
    let order = match doc.get("order") {
        Some(v) => match v.as_int() {
            Ok(n) => Some(n),
            Err(e) => {
                let mut m = text("`order`: ");
                m.append(e.as_str());
                return Err(m);
            },
        },
        None => None,
    };
    let summary = optional_str(&doc, "summary")?;
    Ok(ChapterManifest { title, order, summary })
}

/// Whether a setup source is a bare quote form: after leading whitespace it
/// starts with `(quote` or `( quote`.
pub open spec fn is_bare_quote(s: Seq<char>) -> bool {
    let t = s.skip(skip_ws(s, 0, s.len() as int));
    t.len() >= 6 && t.take(6) == seq!['(', 'q', 'u', 'o', 't', 'e'] || t.len() >= 7 && t.take(7)
        == seq!['(', ' ', 'q', 'u', 'o', 't', 'e']
}

/// Decides [`is_bare_quote`] for a setup file's text.
pub fn setup_is_bare_quote(source: &str) -> (b: bool)
    ensures
        b == is_bare_quote(source@),
{
    let v = crate::text::chars_of(source);
    let k = skip_ws_exec(&v, 0, v.len());
    proof {
        lemma_skip_ws_bounds(v@, 0, v.len() as int);
    }
    let a = v.len() - k >= 6 && v[k] == '(' && v[k + 1] == 'q' && v[k + 2] == 'u' && v[k + 3]
        == 'o' && v[k + 4] == 't' && v[k + 5] == 'e';
    let b = v.len() - k >= 7 && v[k] == '(' && v[k + 1] == ' ' && v[k + 2] == 'q' && v[k + 3]
        == 'u' && v[k + 4] == 'o' && v[k + 5] == 't' && v[k + 6] == 'e';
    proof {
        let t = v@.skip(k as int);
        if a {
            assert(t.take(6) =~= seq!['(', 'q', 'u', 'o', 't', 'e']);
        } else if t.len() >= 6 {
            assert(t.take(6)[0] == v@[k as int]);
            assert(t.take(6)[1] == v@[k + 1]);
            assert(t.take(6)[2] == v@[k + 2]);
            assert(t.take(6)[3] == v@[k + 3]);
            assert(t.take(6)[4] == v@[k + 4]);
            assert(t.take(6)[5] == v@[k + 5]);
        }
        if b {
            assert(t.take(7) =~= seq!['(', ' ', 'q', 'u', 'o', 't', 'e']);
        } else if t.len() >= 7 {
            assert(t.take(7)[0] == v@[k as int]);
            assert(t.take(7)[1] == v@[k + 1]);
            assert(t.take(7)[2] == v@[k + 2]);
            assert(t.take(7)[3] == v@[k + 3]);
            assert(t.take(7)[4] == v@[k + 4]);
            assert(t.take(7)[5] == v@[k + 5]);
            assert(t.take(7)[6] == v@[k + 6]);
        }
    }
    a || b
}

} // verus!
