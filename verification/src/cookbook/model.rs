//! Plain data model for the cookbook.
//!
//! A recipe is a tiny runnable lesson shipped by the crate it teaches. These
//! types carry one recipe's data (a [`RecipeCard`]) and the computed grouping
//! of all loaded recipes into books and chapters (a [`CookbookView`]).

use vstd::prelude::*;

verus! {

/// Where a recipe came from.
#[derive(Clone, Debug, PartialEq, Eq)]
pub enum RecipeSource {
    /// Shipped inside a crate, embedded in its compiled lib.
    Crate {
        /// The lib id that owns the recipe.
        lib: String,
    },
    /// Supplied locally by the user overlay directory.
    Overlay {
        /// The overlay file path the recipe was loaded from.
        path: String,
    },
}

/// One declared expectation, turning a recipe into a generated test.
///
/// After running the recipe's setup, the encoded result of form `form`
/// (0-based) must equal `result` (encoded in the recipe's codec).
#[derive(Clone, Debug, PartialEq, Eq)]
pub struct Expectation {
    /// Index of the setup form whose result is checked.
    pub form: usize,
    /// Expected encoded result, in the recipe's codec.
    pub result: String,
}

/// The in-memory record for one recipe.
#[derive(Clone, Debug, PartialEq, Eq)]
pub struct RecipeCard {
    /// Globally unique id: `"<book>/<chapter>/<recipe-id>"`.
    pub id: String,
    /// Owning lib id (the book).
    pub book: String,
    /// Chapter directory name (or overlay chapter).
    pub chapter: String,
    /// Resolved human chapter title.
    pub chapter_title: String,
    /// One-line chapter summary (may be empty).
    pub chapter_summary: String,
    /// Human recipe title.
    pub title: String,
    /// Registered codec name used to decode `setup`.
    pub codec: String,
    /// Raw setup bytes, decoded on demand through `codec`.
    pub setup: Vec<u8>,
    /// Purpose document contents.
    pub purpose: String,
    /// Sort key within the chapter; lower runs first.
    pub order: i64,
    /// Sort key of this recipe's chapter among chapters.
    pub chapter_order: i64,
    /// Sort key of this recipe's book among books.
    pub book_order: i64,
    /// Human book title.
    pub book_title: String,
    /// One-line book summary (may be empty).
    pub book_summary: String,
    /// Free tags for search and filtering.
    pub tags: Vec<String>,
    /// Lib ids that must be loaded for this recipe to run.
    pub requires: Vec<String>,
    /// Declared expectations (empty when the recipe is not a test).
    pub expect: Vec<Expectation>,
    /// Provenance of this recipe.
    pub source: RecipeSource,
}

/// The full computed cookbook: every loaded recipe grouped into books.
#[derive(Clone, Debug, PartialEq, Eq)]
pub struct CookbookView {
    /// Books sorted by `book_order`, then book id.
    pub books: Vec<BookView>,
}

/// One book (all recipes from one crate) in a [`CookbookView`].
#[derive(Clone, Debug, PartialEq, Eq)]
pub struct BookView {
    /// Lib id of the book.
    pub id: String,
    /// Human book title.
    pub title: String,
    /// One-line book summary (may be empty).
    pub summary: String,
    /// Chapters sorted by `chapter_order`, then name.
    pub chapters: Vec<ChapterView>,
}

/// One chapter within a [`BookView`].
#[derive(Clone, Debug, PartialEq, Eq)]
pub struct ChapterView {
    /// Chapter directory name (stable id within the book).
    pub name: String,
    /// Human chapter title.
    pub title: String,
    /// One-line chapter summary (may be empty).
    pub summary: String,
    /// Recipes sorted by `order`, then id.
    pub recipes: Vec<RecipeCard>,
}

/// One top-level entry per loadable lib.
#[derive(Clone, Debug, PartialEq, Eq)]
pub struct LibView {
    /// Lib id.
    pub id: String,
    /// Human title (the title of the first book seen for the lib).
    pub title: String,
    /// Whether the lib is loaded.
    pub loaded: bool,
    /// Recipe chapters of a loaded lib.
    pub groups: Vec<ChapterView>,
    /// Lifecycle recipes of an unloaded lib.
    pub recipes: Vec<RecipeCard>,
}

/// One family (level-1 subsystem) of books.
#[derive(Clone, Debug, PartialEq, Eq)]
pub struct FamilyView {
    /// Family id, see [`crate::cookbook::project::family_of`].
    pub family: String,
    /// Books of the family, in view order.
    pub books: Vec<BookView>,
}

/// The two-level grouping: family, then book.
#[derive(Clone, Debug, PartialEq, Eq)]
pub struct GroupedView {
    /// Families in the order their first book appears.
    pub families: Vec<FamilyView>,
}

/// The outcome of running a recipe's setup through its codec.
#[derive(Clone, Debug, PartialEq, Eq)]
pub struct RecipeRun {
    /// The recipe id that was run.
    pub recipe: String,
    /// Number of setup forms evaluated.
    pub forms: usize,
    /// Encoded result of each form, in the recipe's codec.
    pub results: Vec<String>,
    /// Expectation check results (empty when no expectations).
    pub checks: Vec<CheckResult>,
    /// True when every form evaluated and every check passed.
    pub ok: bool,
}

/// The result of checking one [`Expectation`] after a run.
#[derive(Clone, Debug, PartialEq, Eq)]
pub struct CheckResult {
    /// Index of the checked setup form.
    pub form: usize,
    /// Expected encoded result.
    pub expected: String,
    /// Actual encoded result.
    pub actual: String,
    /// True when `expected == actual`.
    pub pass: bool,
}

/// Mathematical value of an [`Expectation`].
pub struct ExpectationV {
    pub form: usize,
    pub result: Seq<char>,
}

impl View for Expectation {
    type V = ExpectationV;

    open spec fn view(&self) -> ExpectationV {
        ExpectationV { form: self.form, result: self.result@ }
    }
}

/// Mathematical value of a [`RecipeSource`].
pub enum SourceV {
    Crate(Seq<char>),
    Overlay(Seq<char>),
}

impl View for RecipeSource {
    type V = SourceV;

    open spec fn view(&self) -> SourceV {
        match self {
            RecipeSource::Crate { lib } => SourceV::Crate(lib@),
            RecipeSource::Overlay { path } => SourceV::Overlay(path@),
        }
    }
}

/// Views of a list of strings.
pub open spec fn strs(v: Seq<String>) -> Seq<Seq<char>> {
    v.map_values(|s: String| s@)
}

/// Mathematical value of a [`RecipeCard`].
pub struct CardV {
    pub id: Seq<char>,
    pub book: Seq<char>,
    pub chapter: Seq<char>,
    pub chapter_title: Seq<char>,
    pub chapter_summary: Seq<char>,
    pub title: Seq<char>,
    pub codec: Seq<char>,
    pub setup: Seq<u8>,
    pub purpose: Seq<char>,
    pub order: i64,
    pub chapter_order: i64,
    pub book_order: i64,
    pub book_title: Seq<char>,
    pub book_summary: Seq<char>,
    pub tags: Seq<Seq<char>>,
    pub requires: Seq<Seq<char>>,
    pub expect: Seq<ExpectationV>,
    pub source: SourceV,
}

impl View for RecipeCard {
    type V = CardV;

    open spec fn view(&self) -> CardV {
        CardV {
            id: self.id@,
            book: self.book@,
            chapter: self.chapter@,
            chapter_title: self.chapter_title@,
            chapter_summary: self.chapter_summary@,
            title: self.title@,
            codec: self.codec@,
            setup: self.setup@,
            purpose: self.purpose@,
            order: self.order,
            chapter_order: self.chapter_order,
            book_order: self.book_order,
            book_title: self.book_title@,
            book_summary: self.book_summary@,
            tags: strs(self.tags@),
            requires: strs(self.requires@),
            expect: self.expect@.map_values(|e: Expectation| e@),
            source: self.source@,
        }
    }
}

/// Views of a list of cards.
pub open spec fn cards_view(v: Seq<RecipeCard>) -> Seq<CardV> {
    v.map_values(|c: RecipeCard| c@)
}

/// A copy of a list of strings, equal to it.
pub fn copy_strings(v: &Vec<String>) -> (r: Vec<String>)
    ensures
        r@ == v@,
{
    let mut r: Vec<String> = Vec::new();
    let mut i: usize = 0;
    while i < v.len()
        invariant
            i <= v.len(),
            r@ == v@.take(i as int),
        decreases v.len() - i,
    {
        r.push(v[i].clone());
        assert(r@ =~= v@.take(i + 1));
        i += 1;
    }
    assert(v@.take(i as int) =~= v@);
    r
}

/// A copy of a slice of strings, equal to it.
pub fn copy_str_slice(v: &[String]) -> (r: Vec<String>)
    ensures
        r@ == v@,
{
    let mut r: Vec<String> = Vec::new();
    let mut i: usize = 0;
    while i < v.len()
        invariant
            i <= v.len(),
            r@ == v@.take(i as int),
        decreases v.len() - i,
    {
        r.push(v[i].clone());
        assert(r@ =~= v@.take(i + 1));
        i += 1;
    }
    assert(v@.take(i as int) =~= v@);
    r
}

/// A copy of a byte buffer, equal to it.
pub fn copy_bytes(v: &Vec<u8>) -> (r: Vec<u8>)
    ensures
        r@ == v@,
{
    let mut r: Vec<u8> = Vec::new();
    let mut i: usize = 0;
    while i < v.len()
        invariant
            i <= v.len(),
            r@ == v@.take(i as int),
        decreases v.len() - i,
    {
        r.push(v[i]);
        assert(r@ =~= v@.take(i + 1));
        i += 1;
    }
    assert(v@.take(i as int) =~= v@);
    r
}

impl Expectation {
    /// A copy equal to `self`.
    pub fn copy(&self) -> (r: Expectation)
        ensures
            r@ == self@,
    {
        Expectation { form: self.form, result: self.result.clone() }
    }
}

/// A copy of a list of expectations, equal to it.
pub fn copy_expectations(v: &Vec<Expectation>) -> (r: Vec<Expectation>)
    ensures
        r@.map_values(|e: Expectation| e@) == v@.map_values(|e: Expectation| e@),
{
    let mut r: Vec<Expectation> = Vec::new();
    let mut i: usize = 0;
    while i < v.len()
        invariant
            i <= v.len(),
            r.len() == i,
            forall|j: int| 0 <= j < i ==> (#[trigger] r@[j])@ == v@[j]@,
        decreases v.len() - i,
    {
        r.push(v[i].copy());
        i += 1;
    }
    assert(r@.map_values(|e: Expectation| e@) =~= v@.map_values(|e: Expectation| e@));
    r
}

impl RecipeSource {
    /// A copy equal to `self`.
    pub fn copy(&self) -> (r: RecipeSource)
        ensures
            r == *self,
    {
        match self {
            RecipeSource::Crate { lib } => RecipeSource::Crate { lib: lib.clone() },
            RecipeSource::Overlay { path } => RecipeSource::Overlay { path: path.clone() },
        }
    }
}

impl RecipeCard {
    /// A copy equal to `self`.
    pub fn copy(&self) -> (r: RecipeCard)
        ensures
            r@ == self@,
    {
        RecipeCard {
            id: self.id.clone(),
            book: self.book.clone(),
            chapter: self.chapter.clone(),
            chapter_title: self.chapter_title.clone(),
            chapter_summary: self.chapter_summary.clone(),
            title: self.title.clone(),
            codec: self.codec.clone(),
            setup: copy_bytes(&self.setup),
            purpose: self.purpose.clone(),
            order: self.order,
            chapter_order: self.chapter_order,
            book_order: self.book_order,
            book_title: self.book_title.clone(),
            book_summary: self.book_summary.clone(),
            tags: copy_strings(&self.tags),
            requires: copy_strings(&self.requires),
            expect: copy_expectations(&self.expect),
            source: self.source.copy(),
        }
    }
}

} // verus!
