//! Project a [`RecipeStore`] into the cookbook view, plus search and
//! next-recipe navigation.
//!
//! The view is computed, never stored: every loaded recipe is put in the
//! deterministic global order of [`card_lt`] (book order, book id, chapter
//! order, chapter name, recipe order, recipe id) and then grouped by book and
//! chapter in that order.

use vstd::prelude::*;
use vstd::multiset::Multiset;
use vstd::string::StrSliceExecFns;

use crate::cookbook::model::{
    cards_view, strs, BookView, CardV, ChapterView, CookbookView, FamilyView, GroupedView, LibView,
    RecipeCard,
};
use crate::cookbook::store::RecipeStore;
use crate::text::{
    back_ws_exec, chars_of, contains_chars, contains_seq, find_char, find_char_exec,
    lemma_back_ws_bounds, lemma_find_char_bounds, lemma_seq_lt_asym, lemma_seq_lt_irreflexive,
    lemma_seq_lt_total, lemma_seq_lt_trans, lemma_skip_ws_bounds, lower_all, lower_exec, seq_lt,
    skip_ws_exec, str_eq, str_lt, trim,
};

verus! {

broadcast use vstd::seq_lib::group_to_multiset_ensures;

// ---------------------------------------------------------------------------
// Families.
// ---------------------------------------------------------------------------
/// The level-1 family of a book id: the text before the first `/`, else
/// before the first `-`, else the whole id.
pub open spec fn family_spec(book: Seq<char>) -> Seq<char> {
    match find_char(book, '/', 0, book.len() as int) {
        Some(k) => book.subrange(0, k),
        None => match find_char(book, '-', 0, book.len() as int) {
            Some(k) => book.subrange(0, k),
            None => book,
        },
    }
}

/// A family is the part of the book id before its first `/`, or, with no
/// `/`, before its first `-`, or else the whole id: a prefix of the id
/// holding no `/`, followed in the id by the first `/` if there is one,
/// else by the first `-` if there is one.
pub proof fn lemma_family(book: Seq<char>)
    ensures
        ({
            let f = family_spec(book);
            &&& f.len() <= book.len() && book.take(f.len() as int) == f
            &&& !f.contains('/')
            &&& book.contains('/') ==> f.len() < book.len() && book[f.len() as int] == '/'
            &&& !book.contains('/') && book.contains('-') ==> f.len() < book.len() && book[f.len() as int]
                == '-' && !f.contains('-')
            &&& !book.contains('/') && !book.contains('-') ==> f == book
        }),
{
    let n = book.len() as int;
    lemma_find_char_bounds(book, '/', 0, n);
    lemma_find_char_bounds(book, '-', 0, n);
    let f = family_spec(book);
    assert(book.take(f.len() as int) =~= f);
    assert(!f.contains('/')) by {
        if f.contains('/') {
            let j = choose|j: int| 0 <= j < f.len() && f[j] == '/';
            assert(book[j] == f[j]);
        }
    }
    if book.contains('/') {
        let j = choose|j: int| 0 <= j < n && book[j] == '/';
    }
    if book.contains('-') {
        let j = choose|j: int| 0 <= j < n && book[j] == '-';
        if !book.contains('/') {
            assert(!f.contains('-')) by {
                if f.contains('-') {
                    let m = choose|m: int| 0 <= m < f.len() && f[m] == '-';
                    assert(book[m] == f[m]);
                }
            }
        }
    }
}

/// The level-1 family id for a book, derived from its id prefix with no
/// extra metadata: the segment before the first `/` (`numbers/cas` ->
/// `numbers`), else before the first `-` (`audio-dsp` -> `audio`), else the
/// whole id (`core` -> `core`).
pub fn family_of(book: &str) -> (r: &str)
    ensures
        r@ == family_spec(book@),
{
    let v = chars_of(book);
    proof {
        lemma_find_char_bounds(v@, '/', 0, v.len() as int);
        lemma_find_char_bounds(v@, '-', 0, v.len() as int);
    }
    match find_char_exec(&v, '/', 0, v.len()) {
        Some(k) => book.substring_char(0, k),
        None => match find_char_exec(&v, '-', 0, v.len()) {
            Some(k) => book.substring_char(0, k),
            None => book,
        },
    }
}

// ---------------------------------------------------------------------------
// Global order.
// ---------------------------------------------------------------------------
/// The global order of cards: by book order, book id, chapter order,
/// chapter name, recipe order, then recipe id.
pub open spec fn card_lt(a: CardV, b: CardV) -> bool {
    if a.book_order != b.book_order {
        a.book_order < b.book_order
    } else if a.book != b.book {
        seq_lt(a.book, b.book)
    } else if a.chapter_order != b.chapter_order {
        a.chapter_order < b.chapter_order
    } else if a.chapter != b.chapter {
        seq_lt(a.chapter, b.chapter)
    } else if a.order != b.order {
        a.order < b.order
    } else {
        seq_lt(a.id, b.id)
    }
}

/// Two cards agree on every sort key.
pub open spec fn same_key(a: CardV, b: CardV) -> bool {
    a.book_order == b.book_order && a.book == b.book && a.chapter_order == b.chapter_order
        && a.chapter == b.chapter && a.order == b.order && a.id == b.id
}

pub proof fn lemma_card_lt_order(a: CardV, b: CardV, c: CardV)
    ensures
        !card_lt(a, a),
        !(card_lt(a, b) && card_lt(b, a)),
        card_lt(a, b) || card_lt(b, a) || same_key(a, b),
        card_lt(a, b) && card_lt(b, c) ==> card_lt(a, c),
        card_lt(a, b) && same_key(b, c) ==> card_lt(a, c),
{
    lemma_seq_lt_irreflexive(a.id);
    lemma_seq_lt_irreflexive(a.book);
    lemma_seq_lt_irreflexive(a.chapter);
    lemma_seq_lt_asym(a.book, b.book);
    lemma_seq_lt_asym(a.chapter, b.chapter);
    lemma_seq_lt_asym(a.id, b.id);
    lemma_seq_lt_total(a.book, b.book);
    lemma_seq_lt_total(a.chapter, b.chapter);
    lemma_seq_lt_total(a.id, b.id);
    if card_lt(a, b) && card_lt(b, c) {
        if seq_lt(a.book, b.book) && seq_lt(b.book, c.book) {
            lemma_seq_lt_trans(a.book, b.book, c.book);
        }
        if seq_lt(a.chapter, b.chapter) && seq_lt(b.chapter, c.chapter) {
            lemma_seq_lt_trans(a.chapter, b.chapter, c.chapter);
        }
        if seq_lt(a.id, b.id) && seq_lt(b.id, c.id) {
            lemma_seq_lt_trans(a.id, b.id, c.id);
        }
    }
}

/// `x` goes before `b`, and `b` is not after `c`: then `x` goes before `c`.
proof fn lemma_lt_not_after(x: CardV, b: CardV, c: CardV)
    requires
        card_lt(x, b),
        !card_lt(c, b),
    ensures
        card_lt(x, c),
{
    lemma_card_lt_order(x, b, c);
    lemma_card_lt_order(b, c, x);
}

/// No card is placed after one that should follow it.
pub open spec fn sorted_cards(s: Seq<CardV>) -> bool {
    forall|i: int, j: int| 0 <= i < j < s.len() ==> !card_lt(s[j], s[i])
}

/// Stable insertion of `x` into `s`: before the first card it goes before.
pub open spec fn insert_card(s: Seq<CardV>, x: CardV) -> Seq<CardV>
    decreases s.len(),
{
    if s.len() == 0 {
        seq![x]
    } else if card_lt(x, s[0]) {
        seq![x] + s
    } else {
        seq![s[0]] + insert_card(s.drop_first(), x)
    }
}

/// The cards of `s` in global order, equal keys kept in `s`'s order.
pub open spec fn sorted_of(s: Seq<CardV>) -> Seq<CardV>
    decreases s.len(),
{
    if s.len() == 0 {
        s
    } else {
        insert_card(sorted_of(s.drop_last()), s.last())
    }
}

proof fn lemma_insert_card_prefix(s: Seq<CardV>, x: CardV, j: int)
    requires
        0 <= j <= s.len(),
        forall|k: int| 0 <= k < j ==> !card_lt(x, s[k]),
    ensures
        insert_card(s, x) == s.take(j) + insert_card(s.skip(j), x),
    decreases j,
{
    if j == 0 {
        assert(s.skip(0) =~= s);
        assert(s.take(0) + s =~= s);
    } else {
        lemma_insert_card_prefix(s.drop_first(), x, j - 1);
        assert(s.drop_first().skip(j - 1) =~= s.skip(j));
        assert(s.take(j) =~= seq![s[0]] + s.drop_first().take(j - 1));
    }
}

proof fn lemma_insert_card_props(s: Seq<CardV>, x: CardV)
    requires
        sorted_cards(s),
    ensures
        sorted_cards(insert_card(s, x)),
        insert_card(s, x).to_multiset() == s.to_multiset().insert(x),
    decreases s.len(),
{
    if s.len() == 0 {
        assert(insert_card(s, x) =~= seq![x]);
        assert(seq![x] =~= Seq::<CardV>::empty().push(x));
    } else if card_lt(x, s[0]) {
        let r = seq![x] + s;
        assert(r =~= s.insert(0, x));
        assert forall|i: int, j: int| 0 <= i < j < r.len() implies !card_lt(r[j], r[i]) by {
            if i == 0 {
                if j > 1 {
                    assert(!card_lt(s[j - 1], s[0]));
                    lemma_lt_not_after(x, s[0], s[j - 1]);
                }
                lemma_card_lt_order(x, r[j], x);
            } else {
                assert(r[i] == s[i - 1] && r[j] == s[j - 1]);
            }
        }
    } else {
        let t = s.drop_first();
        assert(sorted_cards(t));
        lemma_insert_card_props(t, x);
        let it = insert_card(t, x);
        let r = seq![s[0]] + it;
        assert(it.to_multiset().contains(x));
        assert forall|i: int, j: int| 0 <= i < j < r.len() implies !card_lt(r[j], r[i]) by {
            if i == 0 {
                let y = r[j];
                assert(it[j - 1] == y);
                assert(it.to_multiset().count(y) > 0);
                assert(s.to_multiset() == t.to_multiset().insert(s[0])) by {
                    assert(s =~= seq![s[0]] + t);
                    assert(seq![s[0]] + t =~= t.insert(0, s[0]));
                }
                if y == x {
                    lemma_card_lt_order(x, s[0], x);
                } else {
                    assert(t.to_multiset().count(y) > 0);
                    let k = choose|k: int| 0 <= k < t.len() && t[k] == y;
                    assert(s[k + 1] == y);
                }
            } else {
                assert(r[i] == it[i - 1] && r[j] == it[j - 1]);
            }
        }
        assert(s =~= seq![s[0]] + t);
        assert(r =~= it.insert(0, s[0]));
        assert(s =~= t.insert(0, s[0]));
    }
}

/// The global order is a sorted rearrangement of the store's cards.
pub proof fn lemma_sorted_of(s: Seq<CardV>)
    ensures
        sorted_cards(sorted_of(s)),
        sorted_of(s).to_multiset() == s.to_multiset(),
    decreases s.len(),
{
    if s.len() > 0 {
        lemma_sorted_of(s.drop_last());
        lemma_insert_card_props(sorted_of(s.drop_last()), s.last());
        assert(s =~= s.drop_last().push(s.last()));
    } else {
        assert(s.to_multiset() =~= Multiset::empty());
    }
}

/// In the global order, book order never decreases; within one book
/// order, book ids do not go backwards; within one book, chapter order never
/// decreases; within one chapter (by order and name), recipe order never
/// decreases; and among recipes with equal order, ids do not go backwards.
pub proof fn lemma_global_order(s: Seq<CardV>, i: int, j: int)
    requires
        0 <= i < j < sorted_of(s).len(),
    ensures
        ({
            let (a, b) = (sorted_of(s)[i], sorted_of(s)[j]);
            &&& a.book_order <= b.book_order
            &&& a.book_order == b.book_order ==> a.book == b.book || !seq_lt(b.book, a.book)
            &&& a.book_order == b.book_order && a.book == b.book ==> a.chapter_order <= b.chapter_order
            &&& a.book_order == b.book_order && a.book == b.book && a.chapter_order == b.chapter_order
                ==> a.chapter == b.chapter || !seq_lt(b.chapter, a.chapter)
            &&& a.book_order == b.book_order && a.book == b.book && a.chapter_order == b.chapter_order
                && a.chapter == b.chapter ==> a.order <= b.order
            &&& a.book_order == b.book_order && a.book == b.book && a.chapter_order == b.chapter_order
                && a.chapter == b.chapter && a.order == b.order ==> !seq_lt(b.id, a.id)
        }),
{
    lemma_sorted_of(s);
    assert(!card_lt(sorted_of(s)[j], sorted_of(s)[i]));
}

fn card_lt_exec(a: &RecipeCard, b: &RecipeCard) -> (r: bool)
    ensures
        r == card_lt(a@, b@),
{
    if a.book_order != b.book_order {
        a.book_order < b.book_order
    } else if !str_eq(a.book.as_str(), b.book.as_str()) {
        str_lt(a.book.as_str(), b.book.as_str())
    } else if a.chapter_order != b.chapter_order {
        a.chapter_order < b.chapter_order
    } else if !str_eq(a.chapter.as_str(), b.chapter.as_str()) {
        str_lt(a.chapter.as_str(), b.chapter.as_str())
    } else if a.order != b.order {
        a.order < b.order
    } else {
        str_lt(a.id.as_str(), b.id.as_str())
    }
}

/// The views of a list of card references.
pub open spec fn refs_view(v: Seq<&RecipeCard>) -> Seq<CardV> {
    v.map_values(|c: &RecipeCard| c@)
}

/// All cards in deterministic global order ([`card_lt`]); cards with equal
/// keys keep their registration order. With unique ids the order is total.
pub fn ordered_cards(store: &RecipeStore) -> (r: Vec<&RecipeCard>)
    ensures
        refs_view(r@) == sorted_of(store@),
        sorted_cards(refs_view(r@)),
        refs_view(r@).to_multiset() == store@.to_multiset(),
{
    let cards = store.cards();
    let ghost s = cards_view(cards@);
    let mut out: Vec<&RecipeCard> = Vec::new();
    let mut i: usize = 0;
    while i < cards.len()
        invariant
            i <= cards.len(),
            s == cards_view(cards@),
            refs_view(out@) == sorted_of(s.take(i as int)),
        decreases cards.len() - i,
    {
        let x = &cards[i];
        let ghost cur = refs_view(out@);
        let mut j: usize = 0;
        while j < out.len() && !card_lt_exec(x, out[j])
            invariant
                j <= out.len(),
                cur == refs_view(out@),
                forall|k: int| 0 <= k < j ==> !card_lt(x@, cur[k]),
            decreases out.len() - j,
        {
            j += 1;
        }
        proof {
            lemma_insert_card_prefix(cur, x@, j as int);
            if j < out.len() {
                assert(cur.skip(j as int)[0] == cur[j as int]);
            } else {
                assert(cur.skip(j as int) =~= Seq::<CardV>::empty());
            }
            assert(s.take(i + 1).drop_last() =~= s.take(i as int));
            assert(s.take(i + 1).last() == x@);
        }
        out.insert(j, x);
        assert(refs_view(out@) =~= cur.take(j as int) + insert_card(cur.skip(j as int), x@));
        i += 1;
    }
    proof {
        assert(s.take(i as int) =~= s);
        lemma_sorted_of(s);
    }
    out
}

// ---------------------------------------------------------------------------
// The nested view.
// ---------------------------------------------------------------------------
/// Mathematical value of a [`ChapterView`].
pub struct ChapterVV {
    pub name: Seq<char>,
    pub title: Seq<char>,
    pub summary: Seq<char>,
    pub recipes: Seq<CardV>,
}

/// Mathematical value of a [`BookView`].
pub struct BookVV {
    pub id: Seq<char>,
    pub title: Seq<char>,
    pub summary: Seq<char>,
    pub chapters: Seq<ChapterVV>,
}

impl View for ChapterView {
    type V = ChapterVV;

    open spec fn view(&self) -> ChapterVV {
        ChapterVV {
            name: self.name@,
            title: self.title@,
            summary: self.summary@,
            recipes: cards_view(self.recipes@),
        }
    }
}

/// Views of a list of chapters.
pub open spec fn chapters_view(v: Seq<ChapterView>) -> Seq<ChapterVV> {
    v.map_values(|c: ChapterView| c@)
}

impl View for BookView {
    type V = BookVV;

    open spec fn view(&self) -> BookVV {
        BookVV {
            id: self.id@,
            title: self.title@,
            summary: self.summary@,
            chapters: chapters_view(self.chapters@),
        }
    }
}

/// Views of a list of books.
pub open spec fn books_view(v: Seq<BookView>) -> Seq<BookVV> {
    v.map_values(|b: BookView| b@)
}

/// Position of the chapter named `name`.
pub open spec fn chapter_index(chs: Seq<ChapterVV>, name: Seq<char>, i: int) -> Option<int>
    decreases chs.len() - i,
{
    if i < 0 || i >= chs.len() {
        None
    } else if chs[i].name == name {
        Some(i)
    } else {
        chapter_index(chs, name, i + 1)
    }
}

/// Position of the book with id `id`.
pub open spec fn book_index(bs: Seq<BookVV>, id: Seq<char>, i: int) -> Option<int>
    decreases bs.len() - i,
{
    if i < 0 || i >= bs.len() {
        None
    } else if bs[i].id == id {
        Some(i)
    } else {
        book_index(bs, id, i + 1)
    }
}

/// Adding a card to its chapter (a new chapter goes last).
pub open spec fn add_to_chapters(chs: Seq<ChapterVV>, c: CardV) -> Seq<ChapterVV> {
    match chapter_index(chs, c.chapter, 0) {
        Some(i) => chs.update(
            i,
            ChapterVV {
                name: chs[i].name,
                title: chs[i].title,
                summary: chs[i].summary,
                recipes: chs[i].recipes.push(c),
            },
        ),
        None => chs.push(
            ChapterVV {
                name: c.chapter,
                title: c.chapter_title,
                summary: c.chapter_summary,
                recipes: seq![c],
            },
        ),
    }
}

/// Adding a card to its book (a new book goes last).
pub open spec fn add_to_books(bs: Seq<BookVV>, c: CardV) -> Seq<BookVV> {
    match book_index(bs, c.book, 0) {
        Some(i) => bs.update(
            i,
            BookVV {
                id: bs[i].id,
                title: bs[i].title,
                summary: bs[i].summary,
                chapters: add_to_chapters(bs[i].chapters, c),
            },
        ),
        None => bs.push(
            BookVV {
                id: c.book,
                title: c.book_title,
                summary: c.book_summary,
                chapters: add_to_chapters(Seq::empty(), c),
            },
        ),
    }
}

/// Grouping cards, in order, by book then chapter.
pub open spec fn group_books(cs: Seq<CardV>) -> Seq<BookVV>
    decreases cs.len(),
{
    if cs.len() == 0 {
        Seq::empty()
    } else {
        add_to_books(group_books(cs.drop_last()), cs.last())
    }
}

/// A chapter is well grouped under the book `book`: it has recipes, all of
/// that book and of this chapter, and its title and summary are those of
/// its first recipe.
pub open spec fn chapter_grouped(ch: ChapterVV, book: Seq<char>) -> bool {
    &&& ch.recipes.len() > 0
    &&& ch.title == ch.recipes[0].chapter_title
    &&& ch.summary == ch.recipes[0].chapter_summary
    &&& forall|k: int|
        0 <= k < ch.recipes.len() ==> (#[trigger] ch.recipes[k]).book == book && ch.recipes[k].chapter
            == ch.name
}

/// A book is well grouped: it has chapters, each well grouped under it,
/// with distinct names; its title and summary are those of its first recipe.
pub open spec fn book_grouped(b: BookVV) -> bool {
    &&& b.chapters.len() > 0
    &&& forall|j: int| 0 <= j < b.chapters.len() ==> chapter_grouped(#[trigger] b.chapters[j], b.id)
    &&& forall|j: int, k: int|
        0 <= j < k < b.chapters.len() ==> (#[trigger] b.chapters[j]).name != (#[trigger] b.chapters[k]).name
    &&& b.title == b.chapters[0].recipes[0].book_title
    &&& b.summary == b.chapters[0].recipes[0].book_summary
}

/// The nested grouping is sound: book ids are distinct, and each book is
/// well grouped.
pub open spec fn books_grouped(bs: Seq<BookVV>) -> bool {
    &&& forall|i: int| 0 <= i < bs.len() ==> book_grouped(#[trigger] bs[i])
    &&& forall|i: int, j: int| 0 <= i < j < bs.len() ==> (#[trigger] bs[i]).id != (#[trigger] bs[j]).id
}

proof fn lemma_chapter_index(chs: Seq<ChapterVV>, name: Seq<char>, i: int)
    requires
        0 <= i,
    ensures
        chapter_index(chs, name, i) matches Some(k) ==> i <= k < chs.len() && chs[k].name == name,
        chapter_index(chs, name, i) is None ==> forall|k: int| i <= k < chs.len() ==> chs[k].name != name,
    decreases chs.len() - i,
{
    if i < chs.len() && chs[i].name != name {
        lemma_chapter_index(chs, name, i + 1);
    }
}

proof fn lemma_book_index(bs: Seq<BookVV>, id: Seq<char>, i: int)
    requires
        0 <= i,
    ensures
        book_index(bs, id, i) matches Some(k) ==> i <= k < bs.len() && bs[k].id == id,
        book_index(bs, id, i) is None ==> forall|k: int| i <= k < bs.len() ==> bs[k].id != id,
    decreases bs.len() - i,
{
    if i < bs.len() && bs[i].id != id {
        lemma_book_index(bs, id, i + 1);
    }
}

proof fn lemma_add_to_chapters(b: BookVV, c: CardV)
    requires
        b.chapters.len() == 0 || book_grouped(b),
        c.book == b.id,
    ensures
        ({
            let chs = add_to_chapters(b.chapters, c);
            &&& chs.len() > 0
            &&& forall|j: int| 0 <= j < chs.len() ==> chapter_grouped(#[trigger] chs[j], b.id)
            &&& forall|j: int, k: int|
                0 <= j < k < chs.len() ==> (#[trigger] chs[j]).name != (#[trigger] chs[k]).name
            &&& b.chapters.len() > 0 ==> chs[0].recipes[0] == b.chapters[0].recipes[0]
            &&& b.chapters.len() == 0 ==> chs[0].recipes[0] == c
        }),
{
    let chs = b.chapters;
    lemma_chapter_index(chs, c.chapter, 0);
    let out = add_to_chapters(chs, c);
    match chapter_index(chs, c.chapter, 0) {
        Some(i) => {
            assert forall|j: int| 0 <= j < out.len() implies chapter_grouped(#[trigger] out[j], b.id) by {
                if j == i {
                    assert(chapter_grouped(chs[j], b.id));
                    assert forall|k: int| 0 <= k < out[j].recipes.len() implies (#[trigger] out[j].recipes[k]).book
                        == b.id && out[j].recipes[k].chapter == out[j].name by {
                        if k < chs[j].recipes.len() {
                            assert(out[j].recipes[k] == chs[j].recipes[k]);
                        }
                    }
                } else {
                    assert(chapter_grouped(chs[j], b.id));
                }
            }
            assert forall|j: int, k: int| 0 <= j < k < out.len() implies (#[trigger] out[j]).name != (#[trigger] out[k]).name by {
                assert(chs[j].name != chs[k].name);
            }
            if i == 0 {
                assert(chapter_grouped(chs[0], b.id));
            }
        },
        None => {
            assert forall|j: int| 0 <= j < out.len() implies chapter_grouped(#[trigger] out[j], b.id) by {
                if j < chs.len() {
                    assert(out[j] == chs[j]);
                } else {
                    assert forall|k: int| 0 <= k < out[j].recipes.len() implies (#[trigger] out[j].recipes[k]).book
                        == b.id && out[j].recipes[k].chapter == out[j].name by {
                        assert(out[j].recipes[k] == c);
                    }
                }
            }
            assert forall|j: int, k: int| 0 <= j < k < out.len() implies (#[trigger] out[j]).name != (#[trigger] out[k]).name by {
                if k < chs.len() {
                    assert(chs[j].name != chs[k].name);
                } else {
                    assert(out[j] == chs[j]);
                }
            }
            if chs.len() > 0 {
                assert(out[0] == chs[0]);
            }
        },
    }
}

proof fn lemma_add_to_books(bs: Seq<BookVV>, c: CardV)
    requires
        books_grouped(bs),
    ensures
        books_grouped(add_to_books(bs, c)),
{
    lemma_book_index(bs, c.book, 0);
    let out = add_to_books(bs, c);
    match book_index(bs, c.book, 0) {
        Some(i) => {
            lemma_add_to_chapters(bs[i], c);
            assert(book_grouped(bs[i]));
            assert forall|j: int| 0 <= j < out.len() implies book_grouped(#[trigger] out[j]) by {
                if j != i {
                    assert(out[j] == bs[j]);
                }
            }
            assert forall|j: int, k: int| 0 <= j < k < out.len() implies (#[trigger] out[j]).id != (#[trigger] out[k]).id by {
                assert(bs[j].id != bs[k].id);
            }
        },
        None => {
            let nb = BookVV { id: c.book, title: c.book_title, summary: c.book_summary, chapters: Seq::empty() };
            lemma_add_to_chapters(nb, c);
            assert forall|j: int| 0 <= j < out.len() implies book_grouped(#[trigger] out[j]) by {
                if j < bs.len() {
                    assert(out[j] == bs[j]);
                }
            }
            assert forall|j: int, k: int| 0 <= j < k < out.len() implies (#[trigger] out[j]).id != (#[trigger] out[k]).id by {
                if k < bs.len() {
                    assert(bs[j].id != bs[k].id);
                } else {
                    assert(out[j] == bs[j]);
                }
            }
        },
    }
}

/// Whatever cards are grouped, the nested view is sound: book ids are
/// distinct, chapter names are distinct within a book, every recipe sits
/// under its own book and chapter, and each book's and chapter's title and
/// summary are those of the first recipe grouped under it.
pub proof fn lemma_group_books(cs: Seq<CardV>)
    ensures
        books_grouped(group_books(cs)),
    decreases cs.len(),
{
    if cs.len() > 0 {
        lemma_group_books(cs.drop_last());
        lemma_add_to_books(group_books(cs.drop_last()), cs.last());
    }
}

fn find_chapter(chs: &Vec<ChapterView>, name: &str) -> (r: Option<usize>)
    ensures
        r matches Some(i) ==> chapter_index(chapters_view(chs@), name@, 0) == Some(i as int) && i
            < chs.len(),
        r is None ==> chapter_index(chapters_view(chs@), name@, 0) is None,
{
    let ghost v = chapters_view(chs@);
    let mut i: usize = 0;
    while i < chs.len()
        invariant
            i <= chs.len(),
            v == chapters_view(chs@),
            chapter_index(v, name@, 0) == chapter_index(v, name@, i as int),
        decreases chs.len() - i,
    {
        if str_eq(chs[i].name.as_str(), name) {
            return Some(i);
        }
        i += 1;
    }
    None
}

fn add_card_to_chapters(chs: &mut Vec<ChapterView>, c: &RecipeCard)
    ensures
        chapters_view(final(chs)@) == add_to_chapters(chapters_view(old(chs)@), c@),
{
    let ghost before = chapters_view(chs@);
    match find_chapter(chs, c.chapter.as_str()) {
        Some(i) => {
            let ghost old_chs = chs@;
            let mut ch = chs.remove(i);
            let ghost old_r = cards_view(ch.recipes@);
            ch.recipes.push(c.copy());
            assert(cards_view(ch.recipes@) =~= old_r.push(c@));
            chs.insert(i, ch);
            assert(chs@ =~= old_chs.update(i as int, ch));
            assert(chapters_view(chs@) =~= before.update(
                i as int,
                ChapterVV {
                    name: before[i as int].name,
                    title: before[i as int].title,
                    summary: before[i as int].summary,
                    recipes: before[i as int].recipes.push(c@),
                },
            ));
        },
        None => {
            let mut recipes: Vec<RecipeCard> = Vec::new();
            recipes.push(c.copy());
            let ch = ChapterView {
                name: c.chapter.clone(),
                title: c.chapter_title.clone(),
                summary: c.chapter_summary.clone(),
                recipes,
            };
            assert(cards_view(ch.recipes@) =~= seq![c@]);
            chs.push(ch);
            assert(chapters_view(chs@) =~= before.push(ch@));
        },
    }
}

fn find_book(bs: &Vec<BookView>, id: &str) -> (r: Option<usize>)
    ensures
        r matches Some(i) ==> book_index(books_view(bs@), id@, 0) == Some(i as int) && i < bs.len(),
        r is None ==> book_index(books_view(bs@), id@, 0) is None,
{
    let ghost v = books_view(bs@);
    let mut i: usize = 0;
    while i < bs.len()
        invariant
            i <= bs.len(),
            v == books_view(bs@),
            book_index(v, id@, 0) == book_index(v, id@, i as int),
        decreases bs.len() - i,
    {
        if str_eq(bs[i].id.as_str(), id) {
            return Some(i);
        }
        i += 1;
    }
    None
}

fn add_card_to_books(bs: &mut Vec<BookView>, c: &RecipeCard)
    ensures
        books_view(final(bs)@) == add_to_books(books_view(old(bs)@), c@),
{
    let ghost before = books_view(bs@);
    match find_book(bs, c.book.as_str()) {
        Some(i) => {
            let ghost old_bs = bs@;
            let mut b = bs.remove(i);
            add_card_to_chapters(&mut b.chapters, c);
            bs.insert(i, b);
            assert(bs@ =~= old_bs.update(i as int, b));
            assert(books_view(bs@) =~= before.update(
                i as int,
                BookVV {
                    id: before[i as int].id,
                    title: before[i as int].title,
                    summary: before[i as int].summary,
                    chapters: add_to_chapters(before[i as int].chapters, c@),
                },
            ));
        },
        None => {
            let mut chapters: Vec<ChapterView> = Vec::new();
            assert(chapters_view(chapters@) =~= Seq::<ChapterVV>::empty());
            add_card_to_chapters(&mut chapters, c);
            let b = BookView {
                id: c.book.clone(),
                title: c.book_title.clone(),
                summary: c.book_summary.clone(),
                chapters,
            };
            bs.push(b);
            assert(books_view(bs@) =~= before.push(b@));
        },
    }
}

/// Group the store's cards, in global order, into the nested
/// [`CookbookView`]: books in the order their first card appears, chapters
/// likewise, recipes in global order.
pub fn view(store: &RecipeStore) -> (r: CookbookView)
    ensures
        books_view(r.books@) == group_books(sorted_of(store@)),
        books_grouped(books_view(r.books@)),
{
    proof {
        lemma_group_books(sorted_of(store@));
    }
    let cards = ordered_cards(store);
    let ghost s = refs_view(cards@);
    let mut books: Vec<BookView> = Vec::new();
    let mut i: usize = 0;
    while i < cards.len()
        invariant
            i <= cards.len(),
            s == refs_view(cards@),
            books_view(books@) == group_books(s.take(i as int)),
        decreases cards.len() - i,
    {
        assert(s.take(i + 1).drop_last() =~= s.take(i as int));
        assert(s.take(i + 1).last() == cards@[i as int]@);
        add_card_to_books(&mut books, cards[i]);
        i += 1;
    }
    assert(s.take(i as int) =~= s);
    CookbookView { books }
}

// ---------------------------------------------------------------------------
// Families of books.
// ---------------------------------------------------------------------------
/// Mathematical value of a [`FamilyView`].
pub struct FamilyVV {
    pub family: Seq<char>,
    pub books: Seq<BookVV>,
}

impl View for FamilyView {
    type V = FamilyVV;

    open spec fn view(&self) -> FamilyVV {
        FamilyVV { family: self.family@, books: books_view(self.books@) }
    }
}

/// Views of a list of families.
pub open spec fn families_view(v: Seq<FamilyView>) -> Seq<FamilyVV> {
    v.map_values(|f: FamilyView| f@)
}

/// Position of family `f`.
pub open spec fn family_index(fs: Seq<FamilyVV>, f: Seq<char>, i: int) -> Option<int>
    decreases fs.len() - i,
{
    if i < 0 || i >= fs.len() {
        None
    } else if fs[i].family == f {
        Some(i)
    } else {
        family_index(fs, f, i + 1)
    }
}

/// Grouping books, in order, by family; a family appears where its first
/// book does.
pub open spec fn group_families(bs: Seq<BookVV>) -> Seq<FamilyVV>
    decreases bs.len(),
{
    if bs.len() == 0 {
        Seq::empty()
    } else {
        let fs = group_families(bs.drop_last());
        let b = bs.last();
        let f = family_spec(b.id);
        match family_index(fs, f, 0) {
            Some(i) => fs.update(i, FamilyVV { family: fs[i].family, books: fs[i].books.push(b) }),
            None => fs.push(FamilyVV { family: f, books: seq![b] }),
        }
    }
}

/// Group the store's cards into the two-level [`GroupedView`]: family, then
/// book (in [`view`] order), then chapter and recipe.
pub fn grouped_view(store: &RecipeStore) -> (r: GroupedView)
    ensures
        families_view(r.families@) == group_families(group_books(sorted_of(store@))),
{
    let v = view(store);
    let ghost bs = books_view(v.books@);
    let mut families: Vec<FamilyView> = Vec::new();
    let mut books = v.books;
    let mut rest: Vec<BookView> = Vec::new();
    // Take the books out in order.
    let n = books.len();
    let mut k: usize = 0;
    while k < n
        invariant
            k <= n,
            n == bs.len(),
            books_view(books@) == bs.skip(k as int),
            books.len() == n - k,
            families_view(families@) == group_families(bs.take(k as int)),
        decreases n - k,
    {
        assert(books_view(books@)[0] == books@[0]@);
        assert(bs.skip(k as int)[0] == bs[k as int]);
        let ghost ob = books@;
        let book = books.remove(0);
        assert(book@ == bs[k as int]);
        assert(books@ =~= ob.drop_first());
        assert(books_view(books@) =~= books_view(ob).drop_first());
        assert(bs.skip(k as int).drop_first() =~= bs.skip(k + 1));
        let fam = crate::text::text(family_of(book.id.as_str()));
        let ghost fs = families_view(families@);
        let mut i: usize = 0;
        while i < families.len() && !str_eq(families[i].family.as_str(), fam.as_str())
            invariant
                i <= families.len(),
                fs == families_view(families@),
                family_index(fs, fam@, 0) == family_index(fs, fam@, i as int),
            decreases families.len() - i,
        {
            i += 1;
        }
        assert(bs.take(k + 1).drop_last() =~= bs.take(k as int));
        assert(bs.take(k + 1).last() == book@);
        if i < families.len() {
            let ghost old_f = families@;
            let mut f = families.remove(i);
            let ghost old_fb = books_view(f.books@);
            let ghost bv = book@;
            f.books.push(book);
            assert(books_view(f.books@) =~= old_fb.push(bv));
            families.insert(i, f);
            assert(families@ =~= old_f.update(i as int, f));
            assert(families_view(families@) =~= fs.update(
                i as int,
                FamilyVV { family: fs[i as int].family, books: fs[i as int].books.push(bv) },
            ));
        } else {
            let mut fb: Vec<BookView> = Vec::new();
            let ghost bv = book@;
            fb.push(book);
            let ghost fv = fam@;
            let f = FamilyView { family: fam, books: fb };
            assert(f@.books =~= seq![bv]);
            families.push(f);
            assert(families_view(families@) =~= fs.push(FamilyVV { family: fv, books: seq![bv] }));
        }
        k += 1;
    }
    assert(bs.take(k as int) =~= bs);
    GroupedView { families }
}

// ---------------------------------------------------------------------------
// Libs.
// ---------------------------------------------------------------------------
/// Mathematical value of a [`LibView`].
pub struct LibVV {
    pub id: Seq<char>,
    pub title: Seq<char>,
    pub loaded: bool,
    pub groups: Seq<ChapterVV>,
    pub recipes: Seq<CardV>,
}

impl View for LibView {
    type V = LibVV;

    open spec fn view(&self) -> LibVV {
        LibVV {
            id: self.id@,
            title: self.title@,
            loaded: self.loaded,
            groups: chapters_view(self.groups@),
            recipes: cards_view(self.recipes@),
        }
    }
}

/// Views of a list of libs.
pub open spec fn libs_view(v: Seq<LibView>) -> Seq<LibVV> {
    v.map_values(|l: LibView| l@)
}

/// The value of the first tag starting with `prefix`, from index `i` on.
pub open spec fn tag_value_from(tags: Seq<Seq<char>>, prefix: Seq<char>, i: int) -> Option<
    Seq<char>,
>
    decreases tags.len() - i,
{
    if i < 0 || i >= tags.len() {
        None
    } else if tags[i].len() >= prefix.len() && tags[i].take(prefix.len() as int) == prefix {
        Some(tags[i].skip(prefix.len() as int))
    } else {
        tag_value_from(tags, prefix, i + 1)
    }
}

/// The lib a card belongs to in [`lib_view`], and whether that lib counts as
/// loaded: a `cookbook-action:load` card with a `cookbook-lib:` tag stands
/// for that unloaded lib, an `unload` card for that loaded lib; any other
/// card belongs to its loaded book.
pub open spec fn lib_target(c: CardV) -> (Seq<char>, bool) {
    let action = tag_value_from(c.tags, "cookbook-action:"@, 0);
    let lib = tag_value_from(c.tags, "cookbook-lib:"@, 0);
    match (action, lib) {
        (Some(a), Some(id)) => if a == "load"@ {
            (id, false)
        } else if a == "unload"@ {
            (id, true)
        } else {
            (c.book, true)
        },
        _ => (c.book, true),
    }
}

/// Position of lib `id`.
pub open spec fn lib_index(ls: Seq<LibVV>, id: Seq<char>, i: int) -> Option<int>
    decreases ls.len() - i,
{
    if i < 0 || i >= ls.len() {
        None
    } else if ls[i].id == id {
        Some(i)
    } else {
        lib_index(ls, id, i + 1)
    }
}

/// Adding a card to an existing lib entry.
pub open spec fn add_to_lib(l: LibVV, c: CardV, loaded: bool) -> LibVV {
    LibVV {
        id: l.id,
        title: l.title,
        loaded: l.loaded || loaded,
        groups: if loaded {
            add_to_chapters(l.groups, c)
        } else {
            l.groups
        },
        recipes: if loaded {
            l.recipes
        } else {
            l.recipes.push(c)
        },
    }
}

/// Grouping cards, in order, into lib entries.
pub open spec fn group_libs(cs: Seq<CardV>) -> Seq<LibVV>
    decreases cs.len(),
{
    if cs.len() == 0 {
        Seq::empty()
    } else {
        let ls = group_libs(cs.drop_last());
        let c = cs.last();
        let (id, loaded) = lib_target(c);
        match lib_index(ls, id, 0) {
            Some(i) => ls.update(i, add_to_lib(ls[i], c, loaded)),
            None => ls.push(
                add_to_lib(
                    LibVV {
                        id,
                        title: c.book_title,
                        loaded,
                        groups: Seq::empty(),
                        recipes: Seq::empty(),
                    },
                    c,
                    loaded,
                ),
            ),
        }
    }
}

fn tag_value(card: &RecipeCard, prefix: &str) -> (r: Option<String>)
    ensures
        r matches Some(v) ==> tag_value_from(strs(card.tags@), prefix@, 0) == Some(v@),
        r is None ==> tag_value_from(strs(card.tags@), prefix@, 0) is None,
{
    let ghost tags = strs(card.tags@);
    let pv = chars_of(prefix);
    let mut i: usize = 0;
    while i < card.tags.len()
        invariant
            i <= card.tags.len(),
            tags == strs(card.tags@),
            pv@ == prefix@,
            tag_value_from(tags, prefix@, 0) == tag_value_from(tags, prefix@, i as int),
        decreases card.tags.len() - i,
    {
        let t = chars_of(card.tags[i].as_str());
        assert(t@ == tags[i as int]);
        if t.len() >= pv.len() && crate::text::range_eq(&t, 0, pv.len(), &pv) {
            assert(t@.subrange(0, pv@.len() as int) == t@.take(pv@.len() as int));
            let rest = crate::text::string_of_range(&t, pv.len(), t.len());
            assert(t@.subrange(pv@.len() as int, t@.len() as int) =~= t@.skip(
                pv@.len() as int,
            ));
            return Some(rest);
        }
        assert(t@.len() >= pv@.len() ==> t@.subrange(0, pv@.len() as int) == t@.take(
            pv@.len() as int,
        ));
        i += 1;
    }
    None
}

fn lib_target_exec(card: &RecipeCard) -> (r: (String, bool))
    ensures
        (r.0@, r.1) == lib_target(card@),
{
    let action = tag_value(card, "cookbook-action:");
    let lib = tag_value(card, "cookbook-lib:");
    match (action, lib) {
        (Some(a), Some(id)) => {
            if str_eq(a.as_str(), "load") {
                (id, false)
            } else if str_eq(a.as_str(), "unload") {
                (id, true)
            } else {
                (card.book.clone(), true)
            }
        },
        _ => (card.book.clone(), true),
    }
}

fn add_card_to_lib(l: &mut LibView, c: &RecipeCard, loaded: bool)
    ensures
        final(l)@ == add_to_lib(old(l)@, c@, loaded),
{
    l.loaded = l.loaded || loaded;
    if loaded {
        add_card_to_chapters(&mut l.groups, c);
    } else {
        let ghost before = cards_view(l.recipes@);
        l.recipes.push(c.copy());
        assert(cards_view(l.recipes@) =~= before.push(c@));
    }
}

/// Group the projected store into one top-level entry per known loadable lib.
///
/// Loaded libs expose their recipe chapters as `groups`; unloaded libs
/// expose the lifecycle load recipes that stand for them.
pub fn lib_view(store: &RecipeStore) -> (r: Vec<LibView>)
    ensures
        libs_view(r@) == group_libs(sorted_of(store@)),
{
    let cards = ordered_cards(store);
    let ghost s = refs_view(cards@);
    let mut libs: Vec<LibView> = Vec::new();
    let mut i: usize = 0;
    while i < cards.len()
        invariant
            i <= cards.len(),
            s == refs_view(cards@),
            libs_view(libs@) == group_libs(s.take(i as int)),
        decreases cards.len() - i,
    {
        let card = cards[i];
        assert(s.take(i + 1).drop_last() =~= s.take(i as int));
        assert(s.take(i + 1).last() == card@);
        let (id, loaded) = lib_target_exec(card);
        let ghost ls = libs_view(libs@);
        let mut k: usize = 0;
        while k < libs.len() && !str_eq(libs[k].id.as_str(), id.as_str())
            invariant
                k <= libs.len(),
                ls == libs_view(libs@),
                lib_index(ls, id@, 0) == lib_index(ls, id@, k as int),
            decreases libs.len() - k,
        {
            k += 1;
        }
        if k < libs.len() {
            let mut l = libs.remove(k);
            add_card_to_lib(&mut l, card, loaded);
            libs.insert(k, l);
            assert(libs_view(libs@) =~= ls.update(k as int, add_to_lib(ls[k as int], card@, loaded)));
        } else {
            let mut l = LibView {
                id,
                title: card.book_title.clone(),
                loaded,
                groups: Vec::new(),
                recipes: Vec::new(),
            };
            assert(l@.groups =~= Seq::<ChapterVV>::empty());
            assert(l@.recipes =~= Seq::<CardV>::empty());
            let ghost l0 = l@;
            add_card_to_lib(&mut l, card, loaded);
            libs.push(l);
            assert(libs_view(libs@) =~= ls.push(add_to_lib(l0, card@, loaded)));
        }
        i += 1;
    }
    assert(s.take(i as int) =~= s);
    libs
}

// ---------------------------------------------------------------------------
// Search and navigation.
// ---------------------------------------------------------------------------
/// A card's relevance to a (trimmed, lowercased) query: 3 for a title match,
/// 2 for a tag match, 1 for a purpose match, added up.
pub open spec fn score(c: CardV, q: Seq<char>) -> int {
    (if contains_seq(lower_all(c.title), q) {
        3int
    } else {
        0int
    }) + (if exists|i: int| 0 <= i < c.tags.len() && contains_seq(lower_all(#[trigger] c.tags[i]), q) {
        2int
    } else {
        0int
    }) + (if contains_seq(lower_all(c.purpose), q) {
        1int
    } else {
        0int
    })
}

/// The cards of `cs` whose score is `k`, in order.
pub open spec fn with_score(cs: Seq<CardV>, q: Seq<char>, k: int) -> Seq<CardV>
    decreases cs.len(),
{
    if cs.len() == 0 {
        cs
    } else {
        let r = with_score(cs.drop_last(), q, k);
        if score(cs.last(), q) == k {
            r.push(cs.last())
        } else {
            r
        }
    }
}

/// Search results: matching cards by descending score, ties in global order.
pub open spec fn search_spec(cs: Seq<CardV>, q: Seq<char>) -> Seq<CardV> {
    with_score(cs, q, 6) + with_score(cs, q, 5) + with_score(cs, q, 4) + with_score(cs, q, 3)
        + with_score(cs, q, 2) + with_score(cs, q, 1)
}

/// The cards of score `k` are the cards of that score, in order, and only
/// those.
proof fn lemma_with_score(cs: Seq<CardV>, q: Seq<char>, k: int)
    ensures
        with_score(cs, q, k) == cs.filter(|c: CardV| score(c, q) == k),
        forall|i: int|
            0 <= i < with_score(cs, q, k).len() ==> score(#[trigger] with_score(cs, q, k)[i], q) == k
                && cs.contains(with_score(cs, q, k)[i]),
        forall|i: int| 0 <= i < cs.len() && score(#[trigger] cs[i], q) == k ==> with_score(cs, q, k).contains(cs[i]),
    decreases cs.len(),
{
    let f = |c: CardV| score(c, q) == k;
    reveal(Seq::filter);
    if cs.len() > 0 {
        let init = cs.drop_last();
        lemma_with_score(init, q, k);
        assert(cs.filter(f) == (if f(cs.last()) {
            init.filter(f).push(cs.last())
        } else {
            init.filter(f)
        }));
        let w = with_score(cs, q, k);
        let w0 = with_score(init, q, k);
        assert forall|i: int| 0 <= i < w.len() implies score(#[trigger] w[i], q) == k && cs.contains(w[i]) by {
            if i < w0.len() {
                assert(w[i] == w0[i]);
                let j = choose|j: int| 0 <= j < init.len() && init[j] == w0[i];
                assert(cs[j] == init[j]);
            } else {
                assert(w[i] == cs.last());
                assert(cs[cs.len() - 1] == cs.last());
            }
        }
        assert forall|i: int| 0 <= i < cs.len() && score(#[trigger] cs[i], q) == k implies w.contains(cs[i]) by {
            if i < init.len() {
                assert(init[i] == cs[i]);
                let j = choose|j: int| 0 <= j < w0.len() && w0[j] == init[i];
                assert(w[j] == w0[j]);
            } else {
                assert(w[w.len() - 1] == cs.last());
            }
        }
    }
}

/// `xs` followed by `ys`: the scores still do not increase when every
/// score in `xs` is at least every score in `ys`.
proof fn lemma_append_ranked(xs: Seq<CardV>, ys: Seq<CardV>, q: Seq<char>, k: int)
    requires
        forall|i: int, j: int| 0 <= i < j < xs.len() ==> score(#[trigger] xs[i], q) >= score(#[trigger] xs[j], q),
        forall|i: int| 0 <= i < xs.len() ==> score(#[trigger] xs[i], q) > k,
        forall|i: int| 0 <= i < ys.len() ==> score(#[trigger] ys[i], q) == k,
    ensures
        forall|i: int, j: int|
            0 <= i < j < (xs + ys).len() ==> score(#[trigger] (xs + ys)[i], q) >= score(#[trigger] (xs + ys)[j], q),
        forall|i: int| 0 <= i < (xs + ys).len() ==> score(#[trigger] (xs + ys)[i], q) >= k,
{
    let zs = xs + ys;
    assert forall|i: int, j: int| 0 <= i < j < zs.len() implies score(#[trigger] zs[i], q) >= score(#[trigger] zs[j], q) by {
        if j < xs.len() {
            assert(zs[i] == xs[i] && zs[j] == xs[j]);
        } else if i < xs.len() {
            assert(zs[i] == xs[i] && zs[j] == ys[j - xs.len()]);
        } else {
            assert(zs[i] == ys[i - xs.len()] && zs[j] == ys[j - xs.len()]);
        }
    }
    assert forall|i: int| 0 <= i < zs.len() implies score(#[trigger] zs[i], q) >= k by {
        if i < xs.len() {
            assert(zs[i] == xs[i]);
        } else {
            assert(zs[i] == ys[i - xs.len()]);
        }
    }
}

/// Search ranks as promised: the results are the cards that match at all
/// (score above 0), each once per occurrence, by non-increasing score; the
/// cards of one score come in their given order.
pub proof fn lemma_search_ranking(cs: Seq<CardV>, q: Seq<char>)
    ensures
        forall|k: int| #![trigger with_score(cs, q, k)] with_score(cs, q, k) == cs.filter(|c: CardV| score(c, q) == k),
        forall|i: int, j: int|
            0 <= i < j < search_spec(cs, q).len() ==> score(#[trigger] search_spec(cs, q)[i], q) >= score(
                #[trigger] search_spec(cs, q)[j],
                q,
            ),
        forall|i: int|
            0 <= i < search_spec(cs, q).len() ==> score(#[trigger] search_spec(cs, q)[i], q) > 0
                && cs.contains(search_spec(cs, q)[i]),
        forall|i: int| 0 <= i < cs.len() && score(#[trigger] cs[i], q) > 0 ==> search_spec(cs, q).contains(cs[i]),
{
    assert forall|k: int| #![trigger with_score(cs, q, k)] with_score(cs, q, k) == cs.filter(|c: CardV| score(c, q) == k) by {
        lemma_with_score(cs, q, k);
    }
    lemma_with_score(cs, q, 6);
    lemma_with_score(cs, q, 5);
    lemma_with_score(cs, q, 4);
    lemma_with_score(cs, q, 3);
    lemma_with_score(cs, q, 2);
    lemma_with_score(cs, q, 1);
    let w6 = with_score(cs, q, 6);
    let w5 = with_score(cs, q, 5);
    let w4 = with_score(cs, q, 4);
    let w3 = with_score(cs, q, 3);
    let w2 = with_score(cs, q, 2);
    let w1 = with_score(cs, q, 1);
    lemma_append_ranked(Seq::empty(), w6, q, 6);
    assert(Seq::<CardV>::empty() + w6 =~= w6);
    lemma_append_ranked(w6, w5, q, 5);
    lemma_append_ranked(w6 + w5, w4, q, 4);
    lemma_append_ranked(w6 + w5 + w4, w3, q, 3);
    lemma_append_ranked(w6 + w5 + w4 + w3, w2, q, 2);
    lemma_append_ranked(w6 + w5 + w4 + w3 + w2, w1, q, 1);
    let res = search_spec(cs, q);
    assert forall|i: int| 0 <= i < res.len() implies score(#[trigger] res[i], q) > 0 && cs.contains(res[i]) by {
        let s6 = w6.len();
        let s5 = s6 + w5.len();
        let s4 = s5 + w4.len();
        let s3 = s4 + w3.len();
        let s2 = s3 + w2.len();
        if i < s6 {
            assert(res[i] == w6[i]);
        } else if i < s5 {
            assert(res[i] == w5[i - s6]);
        } else if i < s4 {
            assert(res[i] == w4[i - s5]);
        } else if i < s3 {
            assert(res[i] == w3[i - s4]);
        } else if i < s2 {
            assert(res[i] == w2[i - s3]);
        } else {
            assert(res[i] == w1[i - s2]);
        }
    }
    assert forall|i: int| 0 <= i < cs.len() && score(#[trigger] cs[i], q) > 0 implies res.contains(cs[i]) by {
        let c = cs[i];
        let s6 = w6.len();
        let s5 = s6 + w5.len();
        let s4 = s5 + w4.len();
        let s3 = s4 + w3.len();
        let s2 = s3 + w2.len();
        if score(c, q) == 6 {
            let j = choose|j: int| 0 <= j < w6.len() && w6[j] == c;
            assert(res[j] == w6[j]);
        } else if score(c, q) == 5 {
            let j = choose|j: int| 0 <= j < w5.len() && w5[j] == c;
            assert(res[s6 + j] == w5[j]);
        } else if score(c, q) == 4 {
            let j = choose|j: int| 0 <= j < w4.len() && w4[j] == c;
            assert(res[s5 + j] == w4[j]);
        } else if score(c, q) == 3 {
            let j = choose|j: int| 0 <= j < w3.len() && w3[j] == c;
            assert(res[s4 + j] == w3[j]);
        } else if score(c, q) == 2 {
            let j = choose|j: int| 0 <= j < w2.len() && w2[j] == c;
            assert(res[s3 + j] == w2[j]);
        } else {
            let j = choose|j: int| 0 <= j < w1.len() && w1[j] == c;
            assert(res[s2 + j] == w1[j]);
        }
    }
}

/// The query occurs in the card's title (case-insensitively).
pub open spec fn title_hit(c: CardV, q: Seq<char>) -> bool {
    contains_seq(lower_all(c.title), q)
}

/// The query occurs in one of the card's tags.
pub open spec fn tag_hit(c: CardV, q: Seq<char>) -> bool {
    exists|i: int| 0 <= i < c.tags.len() && contains_seq(lower_all(#[trigger] c.tags[i]), q)
}

/// The query occurs in the card's purpose.
pub open spec fn purpose_hit(c: CardV, q: Seq<char>) -> bool {
    contains_seq(lower_all(c.purpose), q)
}

/// How search weighs the places a query matches: a title match weighs more
/// than a tag match, which weighs more than a purpose match; each place
/// adds to the score, and a card matching nowhere scores nothing. So a
/// title match alone outranks a tag and a purpose match each alone, a tag
/// match alone outranks a purpose match alone, a title match alone ties
/// with a tag and a purpose match together, and trading a match for one
/// in a weightier place, the rest alike, raises the score.
pub proof fn lemma_score_weights(a: CardV, b: CardV, q: Seq<char>)
    ensures
        !title_hit(a, q) && !tag_hit(a, q) && !purpose_hit(a, q) ==> score(a, q) == 0,
        title_hit(a, q) && !tag_hit(a, q) && !purpose_hit(a, q) && !title_hit(b, q) && (!tag_hit(b, q)
            || !purpose_hit(b, q)) ==> score(a, q) > score(b, q),
        tag_hit(a, q) && !title_hit(a, q) && !purpose_hit(a, q) && !title_hit(b, q) && !tag_hit(b, q)
            ==> score(a, q) > score(b, q),
        purpose_hit(a, q) && !title_hit(a, q) && !tag_hit(a, q) ==> score(a, q) > 0,
        title_hit(a, q) && !tag_hit(a, q) && !purpose_hit(a, q) && tag_hit(b, q) && purpose_hit(b, q)
            && !title_hit(b, q) ==> score(a, q) == score(b, q),
        (title_hit(b, q) ==> title_hit(a, q)) && (tag_hit(b, q) ==> tag_hit(a, q)) && (purpose_hit(b, q)
            ==> purpose_hit(a, q)) ==> score(a, q) >= score(b, q),
        (title_hit(b, q) ==> title_hit(a, q)) && (tag_hit(b, q) ==> tag_hit(a, q)) && (purpose_hit(b, q)
            ==> purpose_hit(a, q)) && (title_hit(a, q) && !title_hit(b, q) || tag_hit(a, q) && !tag_hit(b, q)
            || purpose_hit(a, q) && !purpose_hit(b, q)) ==> score(a, q) > score(b, q),
        purpose_hit(a, q) == purpose_hit(b, q) && title_hit(a, q) && !tag_hit(a, q) && !title_hit(b, q)
            && tag_hit(b, q) ==> score(a, q) > score(b, q),
        tag_hit(a, q) == tag_hit(b, q) && title_hit(a, q) && !purpose_hit(a, q) && !title_hit(b, q)
            && purpose_hit(b, q) ==> score(a, q) > score(b, q),
        title_hit(a, q) == title_hit(b, q) && tag_hit(a, q) && !purpose_hit(a, q) && !tag_hit(b, q)
            && purpose_hit(b, q) ==> score(a, q) > score(b, q),
{
}

/// In search results, a card that matches in its title comes before every
/// card that matches neither in its title nor in both its tags and its
/// purpose; a card matching by tag alone comes before one matching by
/// purpose alone; and a card whose matches include another's, and more,
/// comes first.
pub proof fn lemma_search_title_first(cs: Seq<CardV>, q: Seq<char>, i: int, j: int)
    requires
        0 <= i < search_spec(cs, q).len(),
        0 <= j < search_spec(cs, q).len(),
    ensures
        ({
            let (a, b) = (search_spec(cs, q)[i], search_spec(cs, q)[j]);
            &&& title_hit(a, q) && !title_hit(b, q) && (!tag_hit(b, q) || !purpose_hit(b, q)) ==> i < j
            &&& tag_hit(a, q) && !title_hit(a, q) && !purpose_hit(a, q) && !title_hit(b, q) && !tag_hit(b, q)
                ==> i < j
            &&& (title_hit(b, q) ==> title_hit(a, q)) && (tag_hit(b, q) ==> tag_hit(a, q)) && (purpose_hit(
                b,
                q,
            ) ==> purpose_hit(a, q)) && (title_hit(a, q) && !title_hit(b, q) || tag_hit(a, q) && !tag_hit(
                b,
                q,
            ) || purpose_hit(a, q) && !purpose_hit(b, q)) ==> i < j
        }),
{
    lemma_search_ranking(cs, q);
    let res = search_spec(cs, q);
    let (a, b) = (res[i], res[j]);
    assert(score(res[i], q) >= 0 && score(res[j], q) >= 0);
    if j < i {
        assert(score(res[j], q) >= score(res[i], q));
    }
}

fn lower_chars(s: &str) -> (r: Vec<char>)
    ensures
        r@ == lower_all(s@),
{
    let v = chars_of(s);
    let mut out: Vec<char> = Vec::new();
    let mut i: usize = 0;
    while i < v.len()
        invariant
            i <= v.len(),
            out@ == lower_all(v@.take(i as int)),
        decreases v.len() - i,
    {
        out.push(lower_exec(v[i]));
        i += 1;
        assert(out@ =~= lower_all(v@.take(i as int)));
    }
    assert(v@.take(i as int) =~= v@);
    out
}

fn score_exec(c: &RecipeCard, q: &Vec<char>) -> (r: u8)
    ensures
        r == score(c@, q@),
{
    let mut s: u8 = 0;
    if contains_chars(&lower_chars(c.title.as_str()), q) {
        s += 3;
    }
    let ghost tags = strs(c.tags@);
    let mut any = false;
    let mut i: usize = 0;
    while i < c.tags.len()
        invariant
            i <= c.tags.len(),
            tags == strs(c.tags@),
            any == exists|j: int| 0 <= j < i && contains_seq(lower_all(#[trigger] tags[j]), q@),
        decreases c.tags.len() - i,
    {
        let hit = contains_chars(&lower_chars(c.tags[i].as_str()), q);
        assert(tags[i as int] == c.tags@[i as int]@);
        any = any || hit;
        i += 1;
    }
    assert(i == tags.len());
    assert(c@.tags == tags);
    if any {
        s += 2;
    }
    if contains_chars(&lower_chars(c.purpose.as_str()), q) {
        s += 1;
    }
    s
}

/// Rank recipes matching `query` (case-insensitive, trimmed). A title match
/// scores 3, a tag match 2, a purpose match 1; scores add. Recipes that
/// match nothing are dropped; ties keep the global order. An empty query
/// matches nothing.
pub fn search<'a>(store: &'a RecipeStore, query: &str) -> (r: Vec<&'a RecipeCard>)
    ensures
        trim(lower_all(query@)).len() == 0 ==> r@.len() == 0,
        trim(lower_all(query@)).len() > 0 ==> refs_view(r@) == search_spec(
            sorted_of(store@),
            trim(lower_all(query@)),
        ),
{
    let lq = lower_chars(query);
    let a = skip_ws_exec(&lq, 0, lq.len());
    proof {
        lemma_skip_ws_bounds(lq@, 0, lq.len() as int);
    }
    let b = back_ws_exec(&lq, a, lq.len());
    proof {
        lemma_back_ws_bounds(lq@, a as int, lq.len() as int);
    }
    let mut q: Vec<char> = Vec::new();
    let mut t = a;
    while t < b
        invariant
            a <= t <= b <= lq.len(),
            q@ == lq@.subrange(a as int, t as int),
        decreases b - t,
    {
        q.push(lq[t]);
        t += 1;
        assert(q@ =~= lq@.subrange(a as int, t as int));
    }
    assert(q@ == trim(lower_all(query@)));
    if q.len() == 0 {
        return Vec::new();
    }
    let cards = ordered_cards(store);
    let ghost s = refs_view(cards@);
    let mut scores: Vec<u8> = Vec::new();
    let mut i: usize = 0;
    while i < cards.len()
        invariant
            i <= cards.len(),
            s == refs_view(cards@),
            scores.len() == i,
            forall|j: int| 0 <= j < i ==> scores@[j] == score(#[trigger] s[j], q@),
        decreases cards.len() - i,
    {
        scores.push(score_exec(cards[i], &q));
        i += 1;
    }
    let mut out: Vec<&'a RecipeCard> = Vec::new();
    let mut k: u8 = 6;
    while k > 0
        invariant
            0 <= k <= 6,
            s == refs_view(cards@),
            scores.len() == cards.len(),
            forall|j: int| 0 <= j < cards.len() ==> scores@[j] == score(#[trigger] s[j], q@),
            refs_view(out@) == search_prefix(s, q@, k as int),
        decreases k,
    {
        let ghost before = refs_view(out@);
        let mut j: usize = 0;
        while j < cards.len()
            invariant
                j <= cards.len(),
                s == refs_view(cards@),
                scores.len() == cards.len(),
                forall|m: int| 0 <= m < cards.len() ==> scores@[m] == score(#[trigger] s[m], q@),
                refs_view(out@) == before + with_score(s.take(j as int), q@, k as int),
            decreases cards.len() - j,
        {
            assert(s.take(j + 1).drop_last() =~= s.take(j as int));
            assert(s.take(j + 1).last() == s[j as int]);
            if scores[j] == k {
                let ghost o = refs_view(out@);
                out.push(cards[j]);
                assert(refs_view(out@) =~= o.push(s[j as int]));
            }
            j += 1;
        }
        assert(s.take(j as int) =~= s);
        k -= 1;
    }
    proof {
        reveal_with_fuel(search_prefix, 7);
        assert(search_prefix(s, q@, 0) =~= search_spec(s, q@));
    }
    out
}

/// The results for scores above `k`, highest first.
pub open spec fn search_prefix(cs: Seq<CardV>, q: Seq<char>, k: int) -> Seq<CardV>
    decreases 6 - k,
{
    if k >= 6 {
        Seq::empty()
    } else {
        search_prefix(cs, q, k + 1) + with_score(cs, q, k + 1)
    }
}

/// The recipe immediately after `id` in global order, for "continue"
/// buttons. `None` if `id` is unknown or is the last recipe.
pub fn next<'a>(store: &'a RecipeStore, id: &str) -> (r: Option<&'a RecipeCard>)
    ensures
        match crate::cookbook::store::index_of_id(sorted_of(store@), id@, 0) {
            Some(p) => if p + 1 < store@.len() {
                r matches Some(c) && c@ == sorted_of(store@)[p + 1]
            } else {
                r is None
            },
            None => r is None,
        },
{
    let ordered = ordered_cards(store);
    let ghost s = refs_view(ordered@);
    proof {
        lemma_sorted_of(store@);
        vstd::seq_lib::to_multiset_len(s);
        vstd::seq_lib::to_multiset_len(store@);
    }
    let mut i: usize = 0;
    while i < ordered.len()
        invariant
            i <= ordered.len(),
            s == refs_view(ordered@),
            s == sorted_of(store@),
            s.len() == store@.len(),
            crate::cookbook::store::index_of_id(s, id@, 0)
                == crate::cookbook::store::index_of_id(s, id@, i as int),
        decreases ordered.len() - i,
    {
        if str_eq(ordered[i].id.as_str(), id) {
            assert(s[i as int] == ordered@[i as int]@);
            if i + 1 < ordered.len() {
                assert(s[i + 1] == ordered@[i + 1]@);
                return Some(ordered[i + 1]);
            } else {
                return None;
            }
        }
        assert(s[i as int] == ordered@[i as int]@);
        i += 1;
    }
    None
}

} // verus!
