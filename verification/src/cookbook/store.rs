//! The in-memory store of loaded recipes.
//!
//! Each loaded lib registers its embedded book into a [`RecipeStore`]; the
//! cookbook view is a projection over the store's cards. Card ids are unique
//! in a store built by [`RecipeStore::register_book`],
//! [`RecipeStore::insert_card`] and [`RecipeStore::upsert_card`]: each of
//! them keeps [`ids_distinct`].

use vstd::prelude::*;

use crate::cookbook::embed::{embedded_cards, emb_view, has_id, recipes_from_embedded};
use crate::cookbook::model::{cards_view, CardV, RecipeCard};
use crate::text::{concat3, str_eq};

verus! {

/// Position `j` holds the first card of `cs` whose id is already in `s`.
pub open spec fn first_clash(s: Seq<CardV>, cs: Seq<CardV>, j: int) -> bool {
    &&& 0 <= j < cs.len()
    &&& has_id(s, cs[j].id)
    &&& forall|k: int| 0 <= k < j ==> !has_id(s, (#[trigger] cs[k]).id)
}

/// Position of the first card of `s` with id `id`, at or after `i`.
pub open spec fn index_of_id(s: Seq<CardV>, id: Seq<char>, i: int) -> Option<int>
    decreases s.len() - i,
{
    if i < 0 || i >= s.len() {
        None
    } else if s[i].id == id {
        Some(i)
    } else {
        index_of_id(s, id, i + 1)
    }
}

/// No two cards share an id.
pub open spec fn ids_distinct(s: Seq<CardV>) -> bool {
    forall|i: int, j: int| 0 <= i < j < s.len() ==> s[i].id != s[j].id
}

/// Whether some card of `a` has the id of some card of `b`.
pub open spec fn ids_overlap(a: Seq<CardV>, b: Seq<CardV>) -> bool {
    exists|j: int| 0 <= j < b.len() && has_id(a, (#[trigger] b[j]).id)
}

/// The cards of `s` whose id is not `id`, in order.
pub open spec fn without_id(s: Seq<CardV>, id: Seq<char>) -> Seq<CardV>
    decreases s.len(),
{
    if s.len() == 0 {
        s
    } else {
        let r = without_id(s.drop_last(), id);
        if s.last().id == id {
            r
        } else {
            r.push(s.last())
        }
    }
}

pub proof fn lemma_index_of_id(s: Seq<CardV>, id: Seq<char>, i: int)
    requires
        0 <= i,
    ensures
        index_of_id(s, id, i) matches Some(k) ==> i <= k < s.len() && s[k].id == id && forall|
            j: int,
        |
            i <= j < k ==> s[j].id != id,
        index_of_id(s, id, i) is None ==> forall|j: int| i <= j < s.len() ==> s[j].id != id,
    decreases s.len() - i,
{
    if i < s.len() && s[i].id != id {
        lemma_index_of_id(s, id, i + 1);
    }
}

/// A registry of loaded recipe cards, keyed by their globally unique id.
#[derive(Clone, Debug)]
pub struct RecipeStore {
    cards: Vec<RecipeCard>,
}

impl View for RecipeStore {
    type V = Seq<CardV>;

    closed spec fn view(&self) -> Seq<CardV> {
        cards_view(self.cards@)
    }
}

impl RecipeStore {
    /// An empty store.
    pub fn new() -> (s: RecipeStore)
        ensures
            s@ == Seq::<CardV>::empty(),
    {
        let s = RecipeStore { cards: Vec::new() };
        assert(s@ =~= Seq::<CardV>::empty());
        s
    }

    fn index_of(&self, id: &str) -> (r: Option<usize>)
        ensures
            r matches Some(k) ==> index_of_id(self@, id@, 0) == Some(k as int),
            r is None ==> index_of_id(self@, id@, 0) is None,
            r matches Some(k) ==> k < self.cards.len(),
    {
        let mut k: usize = 0;
        while k < self.cards.len()
            invariant
                k <= self.cards.len(),
                index_of_id(self@, id@, 0) == index_of_id(self@, id@, k as int),
            decreases self.cards.len() - k,
        {
            assert(self@[k as int] == self.cards@[k as int]@);
            if str_eq(self.cards[k].id.as_str(), id) {
                return Some(k);
            }
            k += 1;
        }
        None
    }

    /// Parse one crate's embedded `recipes/` tree and add its cards. Returns
    /// an error if a manifest is malformed or a recipe id collides with one
    /// already registered (ids must be globally unique); the store is then
    /// unchanged.
    pub fn register_book(&mut self, dir: &[(&str, &[u8])]) -> (r: Result<(), String>)
        ensures
            r is Ok <==> (embedded_cards(emb_view(dir@)) matches Some(cs) && !ids_overlap(
                old(self)@,
                cs,
            )),
            r is Ok ==> final(self)@ == old(self)@ + embedded_cards(emb_view(dir@))->0,
            r is Err ==> final(self)@ == old(self)@,
            ids_distinct(old(self)@) ==> ids_distinct(final(self)@),
            (embedded_cards(emb_view(dir@)) is Some && ids_overlap(
                old(self)@,
                embedded_cards(emb_view(dir@))->0,
            )) ==> exists|j: int|
                #[trigger] first_clash(old(self)@, embedded_cards(emb_view(dir@))->0, j) && (r matches Err(m)
                    && m@ == "duplicate recipe id `"@ + (embedded_cards(emb_view(dir@))->0)[j].id + "`"@),
    {
        let cards = match recipes_from_embedded(dir) {
            Ok(c) => c,
            Err(e) => {
                return Err(e);
            },
        };
        proof {
            lemma_embedded_ids_distinct(emb_view(dir@));
        }
        let mut i: usize = 0;
        while i < cards.len()
            invariant
                i <= cards.len(),
                self@ == old(self)@,
                embedded_cards(emb_view(dir@)) == Some(cards_view(cards@)),
                forall|j: int| 0 <= j < i ==> !has_id(self@, (#[trigger] cards_view(cards@)[j]).id),
            decreases cards.len() - i,
        {
            match self.index_of(cards[i].id.as_str()) {
                Some(k) => {
                    proof {
                        lemma_index_of_id(self@, cards@[i as int].id@, 0);
                        assert(cards_view(cards@)[i as int].id == cards@[i as int].id@);
                        assert(has_id(self@, cards_view(cards@)[i as int].id));
                    }
                    let m = concat3("duplicate recipe id `", cards[i].id.as_str(), "`");
                    proof {
                        let cs = cards_view(cards@);
                        assert(forall|k: int| 0 <= k < i ==> !has_id(old(self)@, (#[trigger] cs[k]).id));
                        assert(has_id(old(self)@, cs[i as int].id));
                        assert(first_clash(old(self)@, cs, i as int));
                    }
                    return Err(m);
                },
                None => {
                    proof {
                        lemma_index_of_id(self@, cards@[i as int].id@, 0);
                        assert(cards_view(cards@)[i as int].id == cards@[i as int].id@);
                        assert(!has_id(self@, cards_view(cards@)[i as int].id));
                    }
                },
            }
            i += 1;
        }
        let ghost old_cards = self.cards@;
        let mut cards = cards;
        self.cards.append(&mut cards);
        proof {
            assert(self@ =~= cards_view(old_cards) + embedded_cards(emb_view(dir@))->0);
        }
        Ok(())
    }

    /// Add a single already-built card. Errors on a duplicate id, leaving the
    /// store unchanged.
    pub fn insert_card(&mut self, card: RecipeCard) -> (r: Result<(), String>)
        ensures
            r is Ok <==> !has_id(old(self)@, card@.id),
            r is Ok ==> final(self)@ == old(self)@.push(card@),
            r is Err ==> final(self)@ == old(self)@,
            ids_distinct(old(self)@) ==> ids_distinct(final(self)@),
    {
        match self.index_of(card.id.as_str()) {
            Some(_) => {
                proof {
                    lemma_index_of_id(self@, card@.id, 0);
                }
                Err(concat3("duplicate recipe id `", card.id.as_str(), "`"))
            },
            None => {
                proof {
                    lemma_index_of_id(self@, card@.id, 0);
                }
                let ghost before = self.cards@;
                self.cards.push(card);
                assert(self@ =~= cards_view(before).push(card@));
                Ok(())
            },
        }
    }

    /// Insert a card, replacing the first existing card with the same id
    /// (overlay override semantics). Returns whether a card was replaced.
    pub fn upsert_card(&mut self, card: RecipeCard) -> (replaced: bool)
        ensures
            replaced <==> index_of_id(old(self)@, card@.id, 0) is Some,
            index_of_id(old(self)@, card@.id, 0) matches Some(k) ==> final(self)@ == old(
                self,
            )@.update(k, card@),
            index_of_id(old(self)@, card@.id, 0) is None ==> final(self)@ == old(self)@.push(
                card@,
            ),
            ids_distinct(old(self)@) ==> ids_distinct(final(self)@),
    {
        proof {
            lemma_index_of_id(self@, card@.id, 0);
        }
        match self.index_of(card.id.as_str()) {
            Some(k) => {
                let ghost before = self.cards@;
                self.cards.set(k, card);
                assert(self@ =~= cards_view(before).update(k as int, card@));
                true
            },
            None => {
                let ghost before = self.cards@;
                self.cards.push(card);
                assert(self@ =~= cards_view(before).push(card@));
                false
            },
        }
    }

    /// Remove every card with id `id`. Returns whether one was removed.
    pub fn remove(&mut self, id: &str) -> (removed: bool)
        ensures
            final(self)@ == without_id(old(self)@, id@),
            removed <==> has_id(old(self)@, id@),
            ids_distinct(old(self)@) ==> ids_distinct(final(self)@),
    {
        let ghost s = self@;
        let mut kept: Vec<RecipeCard> = Vec::new();
        let mut cards = Vec::new();
        std::mem::swap(&mut cards, &mut self.cards);
        assert(cards_view(cards@) == s);
        let mut removed = false;
        let mut i: usize = 0;
        while i < cards.len()
            invariant
                i <= cards.len(),
                cards_view(cards@) == s,
                cards_view(kept@) == without_id(s.take(i as int), id@),
                removed <==> has_id(s.take(i as int), id@),
            decreases cards.len() - i,
        {
            assert(s.take(i + 1).drop_last() =~= s.take(i as int));
            assert(s.take(i + 1).last() == cards@[i as int]@);
            if str_eq(cards[i].id.as_str(), id) {
                removed = true;
                assert(has_id(s.take(i + 1), id@)) by {
                    assert(s.take(i + 1)[i as int].id == id@);
                }
            } else {
                let ghost before = kept@;
                kept.push(cards[i].copy());
                assert(cards_view(kept@) =~= cards_view(before).push(cards@[i as int]@));
                assert(has_id(s.take(i + 1), id@) == has_id(s.take(i as int), id@)) by {
                    if has_id(s.take(i + 1), id@) {
                        let j = choose|j: int|
                            0 <= j < s.take(i + 1).len() && (#[trigger] s.take(i + 1)[j]).id
                                == id@;
                        assert(s.take(i as int)[j] == s.take(i + 1)[j]);
                    }
                    if has_id(s.take(i as int), id@) {
                        let j = choose|j: int|
                            0 <= j < s.take(i as int).len() && (#[trigger] s.take(
                                i as int,
                            )[j]).id == id@;
                        assert(s.take(i + 1)[j] == s.take(i as int)[j]);
                    }
                }
            }
            proof {
                if removed && cards@[i as int].id@ != id@ {
                    let j = choose|j: int|
                        0 <= j < s.take(i as int).len() && (#[trigger] s.take(i as int)[j]).id
                            == id@;
                    assert(s.take(i + 1)[j] == s.take(i as int)[j]);
                }
            }
            i += 1;
        }
        assert(s.take(i as int) =~= s);
        self.cards = kept;
        proof {
            lemma_without_id_sub(s, id@);
            if ids_distinct(s) {
                assert(ids_distinct(self@));
            }
        }
        removed
    }

    /// All registered cards, in registration order.
    pub fn cards(&self) -> (r: &[RecipeCard])
        ensures
            cards_view(r@) == self@,
    {
        self.cards.as_slice()
    }

    /// Look up the first card with id `id`.
    pub fn card(&self, id: &str) -> (r: Option<&RecipeCard>)
        ensures
            r matches Some(c) ==> index_of_id(self@, id@, 0) matches Some(k) && c@ == self@[k],
            r is None ==> index_of_id(self@, id@, 0) is None,
    {
        match self.index_of(id) {
            Some(k) => Some(&self.cards[k]),
            None => None,
        }
    }

    /// Mutable access to the first card with id `id`; every other card stays
    /// as it was.
    pub fn card_mut(&mut self, id: &str) -> (r: Option<&mut RecipeCard>)
        ensures
            index_of_id(old(self)@, id@, 0) is None ==> r is None && final(self)@ == old(self)@,
            index_of_id(old(self)@, id@, 0) matches Some(k) ==> {
                &&& r is Some
                &&& (*r->0)@ == old(self)@[k]
                &&& final(self)@ == old(self)@.update(k, (*final(r->0))@)
            },
    {
        match self.index_of(id) {
            Some(k) => Some(&mut self.cards[k]),
            None => None,
        }
    }

    /// Sets the `order` of the first card with id `id`. Returns whether
    /// there was such a card.
    pub fn set_order(&mut self, id: &str, order: i64) -> (found: bool)
        ensures
            found <==> index_of_id(old(self)@, id@, 0) is Some,
            index_of_id(old(self)@, id@, 0) matches Some(k) ==> final(self)@ == old(
                self,
            )@.update(k, CardV { order, ..old(self)@[k] }),
            index_of_id(old(self)@, id@, 0) is None ==> final(self)@ == old(self)@,
    {
        match self.index_of(id) {
            Some(k) => {
                let mut c = self.cards[k].copy();
                c.order = order;
                let ghost before = self.cards@;
                self.cards.set(k, c);
                assert(self@ =~= cards_view(before).update(
                    k as int,
                    CardV { order, ..cards_view(before)[k as int] },
                ));
                true
            },
            None => false,
        }
    }

    /// Sets the `title` of the first card with id `id`. Returns whether
    /// there was such a card.
    pub fn set_title(&mut self, id: &str, title: String) -> (found: bool)
        ensures
            found <==> index_of_id(old(self)@, id@, 0) is Some,
            index_of_id(old(self)@, id@, 0) matches Some(k) ==> final(self)@ == old(
                self,
            )@.update(k, CardV { title: title@, ..old(self)@[k] }),
            index_of_id(old(self)@, id@, 0) is None ==> final(self)@ == old(self)@,
    {
        match self.index_of(id) {
            Some(k) => {
                let mut c = self.cards[k].copy();
                let ghost t = title@;
                c.title = title;
                let ghost before = self.cards@;
                self.cards.set(k, c);
                assert(self@ =~= cards_view(before).update(
                    k as int,
                    CardV { title: t, ..cards_view(before)[k as int] },
                ));
                true
            },
            None => false,
        }
    }

    /// Number of registered cards.
    pub fn len(&self) -> (n: usize)
        ensures
            n == self@.len(),
    {
        self.cards.len()
    }

    /// Whether the store holds no cards.
    pub fn is_empty(&self) -> (b: bool)
        ensures
            b == (self@.len() == 0),
    {
        self.cards.len() == 0
    }
}

/// The cards an embedded tree yields have distinct ids.
pub proof fn lemma_embedded_ids_distinct(d: crate::cookbook::embed::EmbV)
    ensures
        embedded_cards(d) matches Some(cs) ==> ids_distinct(cs),
{
    if embedded_cards(d) is Some {
        let b = crate::cookbook::embed::find_in(d, "book.toml"@)->0;
        let book = crate::cookbook::embed::book_of_bytes(b)->0;
        let dirs = crate::cookbook::embed::recipe_dirs(d);
        lemma_cards_upto_distinct(d, book, dirs, dirs.len() as int);
    }
}

proof fn lemma_cards_upto_distinct(
    d: crate::cookbook::embed::EmbV,
    book: crate::cookbook::manifest::BookManifestV,
    dirs: Seq<(Seq<char>, Seq<char>)>,
    n: int,
)
    ensures
        crate::cookbook::embed::cards_upto(d, book, dirs, n) matches Some(cs) ==> ids_distinct(
            cs,
        ),
    decreases n,
{
    if n > 0 && n <= dirs.len() {
        lemma_cards_upto_distinct(d, book, dirs, n - 1);
        match crate::cookbook::embed::cards_upto(d, book, dirs, n - 1) {
            Some(cs) => match crate::cookbook::embed::card_of(d, book, dirs[n - 1].0, dirs[n - 1].1) {
                Some(c) => {
                    if !has_id(cs, c.id) {
                        let r = cs.push(c);
                        assert forall|i: int, j: int| 0 <= i < j < r.len() implies r[i].id
                            != r[j].id by {
                            if j == cs.len() {
                                assert(r[i] == cs[i]);
                                if r[i].id == c.id {
                                    assert(has_id(cs, c.id));
                                }
                            }
                        }
                    }
                },
                None => {},
            },
            None => {},
        }
    }
}

/// Removing an id leaves a subsequence of the original cards, and keeps
/// distinct ids distinct.
pub proof fn lemma_without_id_sub(s: Seq<CardV>, id: Seq<char>)
    ensures
        ids_distinct(s) ==> ids_distinct(without_id(s, id)),
        forall|k: int|
            0 <= k < without_id(s, id).len() ==> exists|j: int|
                0 <= j < s.len() && s[j] == #[trigger] without_id(s, id)[k],
    decreases s.len(),
{
    if s.len() > 0 {
        let p = s.drop_last();
        let r = without_id(p, id);
        lemma_without_id_sub(p, id);
        assert forall|k: int| 0 <= k < r.len() implies exists|j: int|
            0 <= j < s.len() && s[j] == #[trigger] r[k] by {
            let j = choose|j: int| 0 <= j < p.len() && p[j] == r[k];
            assert(s[j] == p[j]);
        }
        if s.last().id != id {
            let w = r.push(s.last());
            assert forall|k: int| 0 <= k < w.len() implies exists|j: int|
                0 <= j < s.len() && s[j] == #[trigger] w[k] by {
                if k < r.len() {
                    assert(w[k] == r[k]);
                } else {
                    assert(s[s.len() - 1] == w[k]);
                }
            }
            if ids_distinct(s) {
                assert(ids_distinct(p));
                assert forall|a: int, b: int| 0 <= a < b < w.len() implies w[a].id
                    != w[b].id by {
                    if b == r.len() {
                        assert(w[a] == r[a]);
                        let j = choose|j: int| 0 <= j < p.len() && p[j] == r[a];
                        assert(s[j] == p[j]);
                        assert(s[s.len() - 1] == w[b]);
                    } else {
                        assert(w[a] == r[a]);
                        assert(w[b] == r[b]);
                    }
                }
            }
        } else {
            if ids_distinct(s) {
                assert(ids_distinct(p));
            }
        }
    }
}

} // verus!
