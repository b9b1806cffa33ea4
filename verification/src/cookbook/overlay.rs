//! The user overlay: reorder, hide and retitle recipes without editing any
//! crate.
//!
//! An `overlay.toml` holds `[[reorder]]`, `[[hide]]` and `[[retitle]]`
//! tables and nothing else. [`apply_directives`] applies them to a store:
//! hides first, then reorders, then retitles; a directive naming an unknown
//! recipe is ignored.

use vstd::prelude::*;

use crate::cookbook::store::{index_of_id, without_id, RecipeStore};
use crate::cookbook::embed::{embedded_cards, emb_view, recipes_from_embedded};
use crate::cookbook::model::{CardV, RecipeSource, SourceV, cards_view};
use crate::cookbook::toml_lite::{
    entries_view, find_entry, lookup, parse, spec_parse, table_names_allowed, tables_with, DocV,
    EntryV, TomlValue, TomlVal,
};
use crate::text::{concat3, text};

verus! {

/// Parsed `overlay.toml` directives.
#[derive(Clone, Debug, PartialEq, Eq)]
pub struct OverlayDirectives {
    /// `(recipe id, new order)` from `[[reorder]]`.
    pub reorder: Vec<(String, i64)>,
    /// recipe ids from `[[hide]]`.
    pub hide: Vec<String>,
    /// `(recipe id, new title)` from `[[retitle]]`.
    pub retitle: Vec<(String, String)>,
}

/// Mathematical value of [`OverlayDirectives`].
pub struct OverlayV {
    pub reorder: Seq<(Seq<char>, i64)>,
    pub hide: Seq<Seq<char>>,
    pub retitle: Seq<(Seq<char>, Seq<char>)>,
}

impl View for OverlayDirectives {
    type V = OverlayV;

    open spec fn view(&self) -> OverlayV {
        OverlayV {
            reorder: self.reorder@.map_values(|x: (String, i64)| (x.0@, x.1)),
            hide: self.hide@.map_values(|x: String| x@),
            retitle: self.retitle@.map_values(|x: (String, String)| (x.0@, x.1@)),
        }
    }
}

/// A string field of a directive table.
pub open spec fn field_str(t: Seq<EntryV>, key: Seq<char>) -> Option<Seq<char>> {
    match lookup(t, key) {
        Some(TomlVal::Str(s)) => Some(s),
        _ => None,
    }
}

/// An integer field of a directive table.
pub open spec fn field_int(t: Seq<EntryV>, key: Seq<char>) -> Option<i64> {
    match lookup(t, key) {
        Some(TomlVal::Int(n)) => Some(n),
        _ => None,
    }
}

/// All `[[reorder]]` directives, or `None` when one is malformed.
pub open spec fn reorders_of(ts: Seq<Seq<EntryV>>) -> Option<Seq<(Seq<char>, i64)>>
    decreases ts.len(),
{
    if ts.len() == 0 {
        Some(Seq::empty())
    } else {
        match (reorders_of(ts.drop_last()), field_str(ts.last(), "recipe"@), field_int(
            ts.last(),
            "order"@,
        )) {
            (Some(a), Some(r), Some(o)) => Some(a.push((r, o))),
            _ => None,
        }
    }
}

/// All `[[hide]]` directives, or `None` when one is malformed.
pub open spec fn hides_of(ts: Seq<Seq<EntryV>>) -> Option<Seq<Seq<char>>>
    decreases ts.len(),
{
    if ts.len() == 0 {
        Some(Seq::empty())
    } else {
        match (hides_of(ts.drop_last()), field_str(ts.last(), "recipe"@)) {
            (Some(a), Some(r)) => Some(a.push(r)),
            _ => None,
        }
    }
}

/// All `[[retitle]]` directives, or `None` when one is malformed.
pub open spec fn retitles_of(ts: Seq<Seq<EntryV>>) -> Option<Seq<(Seq<char>, Seq<char>)>>
    decreases ts.len(),
{
    if ts.len() == 0 {
        Some(Seq::empty())
    } else {
        match (retitles_of(ts.drop_last()), field_str(ts.last(), "recipe"@), field_str(
            ts.last(),
            "title"@,
        )) {
            (Some(a), Some(r), Some(t)) => Some(a.push((r, t))),
            _ => None,
        }
    }
}

/// The table names an overlay may use.
pub open spec fn overlay_tables() -> Seq<&'static str> {
    seq!["reorder", "hide", "retitle"]
}

/// The directives a document describes.
pub open spec fn overlay_of(d: DocV) -> Option<OverlayV> {
    let r = reorders_of(tables_with(d.tables, "reorder"@));
    let h = hides_of(tables_with(d.tables, "hide"@));
    let t = retitles_of(tables_with(d.tables, "retitle"@));
    if d.top.len() == 0 && table_names_allowed(d.tables, overlay_tables()) && r is Some && h is Some
        && t is Some {
        Some(OverlayV { reorder: r->0, hide: h->0, retitle: t->0 })
    } else {
        None
    }
}

fn table_str(t: &Vec<(String, TomlValue)>, key: &str) -> (r: Result<String, String>)
    ensures
        r matches Ok(s) ==> field_str(entries_view(t@), key@) == Some(s@),
        r is Err ==> field_str(entries_view(t@), key@) is None,
{
    match find_entry(t, key) {
        Some(v) => match v.as_str() {
            Ok(s) => Ok(text(s)),
            Err(e) => {
                let mut m = concat3("`", key, "`: ");
                m.append(e.as_str());
                Err(m)
            },
        },
        None => Err(concat3("`[[..]]` table missing `", key, "`")),
    }
}

fn table_int(t: &Vec<(String, TomlValue)>, key: &str) -> (r: Result<i64, String>)
    ensures
        r matches Ok(n) ==> field_int(entries_view(t@), key@) == Some(n),
        r is Err ==> field_int(entries_view(t@), key@) is None,
{
    match find_entry(t, key) {
        Some(v) => match v.as_int() {
            Ok(n) => Ok(n),
            Err(e) => {
                let mut m = concat3("`", key, "`: ");
                m.append(e.as_str());
                Err(m)
            },
        },
        None => Err(concat3("`[[..]]` table missing `", key, "`")),
    }
}

proof fn lemma_reorders_prefix(ts: Seq<Seq<EntryV>>, k: int)
    requires
        0 <= k <= ts.len(),
        reorders_of(ts.take(k)) is None,
    ensures
        reorders_of(ts) is None,
    decreases ts.len() - k,
{
    if k < ts.len() {
        assert(ts.take(k + 1).drop_last() =~= ts.take(k));
        lemma_reorders_prefix(ts, k + 1);
    } else {
        assert(ts.take(k) =~= ts);
    }
}

proof fn lemma_hides_prefix(ts: Seq<Seq<EntryV>>, k: int)
    requires
        0 <= k <= ts.len(),
        hides_of(ts.take(k)) is None,
    ensures
        hides_of(ts) is None,
    decreases ts.len() - k,
{
    if k < ts.len() {
        assert(ts.take(k + 1).drop_last() =~= ts.take(k));
        lemma_hides_prefix(ts, k + 1);
    } else {
        assert(ts.take(k) =~= ts);
    }
}

proof fn lemma_retitles_prefix(ts: Seq<Seq<EntryV>>, k: int)
    requires
        0 <= k <= ts.len(),
        retitles_of(ts.take(k)) is None,
    ensures
        retitles_of(ts) is None,
    decreases ts.len() - k,
{
    if k < ts.len() {
        assert(ts.take(k + 1).drop_last() =~= ts.take(k));
        lemma_retitles_prefix(ts, k + 1);
    } else {
        assert(ts.take(k) =~= ts);
    }
}

/// Parse `overlay.toml` text into directives. Top-level keys and tables
/// other than `reorder`, `hide` and `retitle` are rejected.
pub fn parse_overlay(text_in: &str) -> (r: Result<OverlayDirectives, String>)
    ensures
        r is Ok <==> (spec_parse(text_in@) matches Some(d) && overlay_of(d) is Some),
        r matches Ok(o) ==> overlay_of(spec_parse(text_in@)->0) == Some(o@),
{
    let doc = parse(text_in)?;
    let none: [&str; 0] = [];
    doc.reject_unknown_top(none.as_slice())?;
    proof {
        if doc@.top.len() > 0 {
            assert(!crate::cookbook::toml_lite::name_allowed(doc@.top[0].0, none@));
        }
    }
    let allowed: [&str; 3] = ["reorder", "hide", "retitle"];
    assert(allowed@ =~= overlay_tables());
    doc.reject_unknown_tables(allowed.as_slice())?;
    let ghost vw = |t: &Vec<(String, TomlValue)>| entries_view(t@);
    let mut reorder: Vec<(String, i64)> = Vec::new();
    let tables = doc.tables_named("reorder");
    let ghost ts = tables_with(doc@.tables, "reorder"@);
    let mut i: usize = 0;
    while i < tables.len()
        invariant
            i <= tables.len(),
            vw == (|t: &Vec<(String, TomlValue)>| entries_view(t@)),
            tables@.map_values(vw) == ts,
            ts == tables_with(doc@.tables, "reorder"@),
            spec_parse(text_in@) == Some(doc@),
            reorders_of(ts.take(i as int)) == Some(
                reorder@.map_values(|x: (String, i64)| (x.0@, x.1)),
            ),
        decreases tables.len() - i,
    {
        assert(ts.take(i + 1).drop_last() =~= ts.take(i as int));
        assert(ts.take(i + 1).last() == entries_view(tables@[i as int]@));
        let a = match table_str(tables[i], "recipe") {
            Ok(a) => a,
            Err(e) => {
                proof {
                    lemma_reorders_prefix(ts, i + 1);
                }
                return Err(e);
            },
        };
        let b = match table_int(tables[i], "order") {
            Ok(b) => b,
            Err(e) => {
                proof {
                    lemma_reorders_prefix(ts, i + 1);
                }
                return Err(e);
            },
        };
        let ghost before = reorder@;
        let ghost av = a@;
        reorder.push((a, b));
        assert(reorder@.map_values(|x: (String, i64)| (x.0@, x.1)) =~= before.map_values(
            |x: (String, i64)| (x.0@, x.1),
        ).push((av, b)));
        i += 1;
    }
    assert(ts.take(i as int) =~= ts);
    let mut hidden: Vec<String> = Vec::new();
    let tables = doc.tables_named("hide");
    let ghost ts = tables_with(doc@.tables, "hide"@);
    let mut i: usize = 0;
    while i < tables.len()
        invariant
            i <= tables.len(),
            vw == (|t: &Vec<(String, TomlValue)>| entries_view(t@)),
            tables@.map_values(vw) == ts,
            ts == tables_with(doc@.tables, "hide"@),
            spec_parse(text_in@) == Some(doc@),
            hides_of(ts.take(i as int)) == Some(hidden@.map_values(|x: String| x@)),
        decreases tables.len() - i,
    {
        assert(ts.take(i + 1).drop_last() =~= ts.take(i as int));
        assert(ts.take(i + 1).last() == entries_view(tables@[i as int]@));
        let a = match table_str(tables[i], "recipe") {
            Ok(a) => a,
            Err(e) => {
                proof {
                    lemma_hides_prefix(ts, i + 1);
                }
                return Err(e);
            },
        };
        let ghost before = hidden@;
        let ghost av = a@;
        hidden.push(a);
        assert(hidden@.map_values(|x: String| x@) =~= before.map_values(|x: String| x@).push(av));
        i += 1;
    }
    assert(ts.take(i as int) =~= ts);
    let mut retitle: Vec<(String, String)> = Vec::new();
    let tables = doc.tables_named("retitle");
    let ghost ts = tables_with(doc@.tables, "retitle"@);
    let mut i: usize = 0;
    while i < tables.len()
        invariant
            i <= tables.len(),
            vw == (|t: &Vec<(String, TomlValue)>| entries_view(t@)),
            tables@.map_values(vw) == ts,
            ts == tables_with(doc@.tables, "retitle"@),
            spec_parse(text_in@) == Some(doc@),
            retitles_of(ts.take(i as int)) == Some(
                retitle@.map_values(|x: (String, String)| (x.0@, x.1@)),
            ),
        decreases tables.len() - i,
    {
        assert(ts.take(i + 1).drop_last() =~= ts.take(i as int));
        assert(ts.take(i + 1).last() == entries_view(tables@[i as int]@));
        let a = match table_str(tables[i], "recipe") {
            Ok(a) => a,
            Err(e) => {
                proof {
                    lemma_retitles_prefix(ts, i + 1);
                }
                return Err(e);
            },
        };
        let b = match table_str(tables[i], "title") {
            Ok(b) => b,
            Err(e) => {
                proof {
                    lemma_retitles_prefix(ts, i + 1);
                }
                return Err(e);
            },
        };
        let ghost before = retitle@;
        let ghost p = (a@, b@);
        retitle.push((a, b));
        assert(retitle@.map_values(|x: (String, String)| (x.0@, x.1@)) =~= before.map_values(
            |x: (String, String)| (x.0@, x.1@),
        ).push(p));
        i += 1;
    }
    assert(ts.take(i as int) =~= ts);
    Ok(OverlayDirectives { reorder, hide: hidden, retitle })
}

/// Removing the cards named by `ids`, in order.
pub open spec fn apply_hides(s: Seq<CardV>, ids: Seq<Seq<char>>) -> Seq<CardV>
    decreases ids.len(),
{
    if ids.len() == 0 {
        s
    } else {
        without_id(apply_hides(s, ids.drop_last()), ids.last())
    }
}

/// Setting the order of the first card named by each directive, in order.
pub open spec fn apply_reorders(s: Seq<CardV>, rs: Seq<(Seq<char>, i64)>) -> Seq<CardV>
    decreases rs.len(),
{
    if rs.len() == 0 {
        s
    } else {
        let p = apply_reorders(s, rs.drop_last());
        match index_of_id(p, rs.last().0, 0) {
            Some(k) => p.update(k, CardV { order: rs.last().1, ..p[k] }),
            None => p,
        }
    }
}

/// Setting the title of the first card named by each directive, in order.
pub open spec fn apply_retitles(s: Seq<CardV>, ts: Seq<(Seq<char>, Seq<char>)>) -> Seq<CardV>
    decreases ts.len(),
{
    if ts.len() == 0 {
        s
    } else {
        let p = apply_retitles(s, ts.drop_last());
        match index_of_id(p, ts.last().0, 0) {
            Some(k) => p.update(k, CardV { title: ts.last().1, ..p[k] }),
            None => p,
        }
    }
}

/// Apply directives to a store: hide removes, reorder sets `order`, retitle
/// sets `title`. Directives naming an unknown recipe are ignored (the
/// overlay may reference recipes from libs not currently loaded).
pub fn apply_directives(store: &mut RecipeStore, directives: &OverlayDirectives)
    ensures
        final(store)@ == apply_retitles(
            apply_reorders(apply_hides(old(store)@, directives@.hide), directives@.reorder),
            directives@.retitle,
        ),
{
    let ghost d = directives@;
    let ghost s0 = store@;
    let mut i: usize = 0;
    while i < directives.hide.len()
        invariant
            i <= directives.hide.len(),
            d == directives@,
            store@ == apply_hides(s0, d.hide.take(i as int)),
        decreases directives.hide.len() - i,
    {
        assert(d.hide.take(i + 1).drop_last() =~= d.hide.take(i as int));
        store.remove(directives.hide[i].as_str());
        i += 1;
    }
    assert(d.hide.take(i as int) =~= d.hide);
    let ghost s1 = store@;
    let mut i: usize = 0;
    while i < directives.reorder.len()
        invariant
            i <= directives.reorder.len(),
            d == directives@,
            store@ == apply_reorders(s1, d.reorder.take(i as int)),
        decreases directives.reorder.len() - i,
    {
        assert(d.reorder.take(i + 1).drop_last() =~= d.reorder.take(i as int));
        store.set_order(directives.reorder[i].0.as_str(), directives.reorder[i].1);
        i += 1;
    }
    assert(d.reorder.take(i as int) =~= d.reorder);
    let ghost s2 = store@;
    let mut i: usize = 0;
    while i < directives.retitle.len()
        invariant
            i <= directives.retitle.len(),
            d == directives@,
            store@ == apply_retitles(s2, d.retitle.take(i as int)),
        decreases directives.retitle.len() - i,
    {
        assert(d.retitle.take(i + 1).drop_last() =~= d.retitle.take(i as int));
        store.set_title(directives.retitle[i].0.as_str(), directives.retitle[i].1.clone());
        i += 1;
    }
    assert(d.retitle.take(i as int) =~= d.retitle);
}


/// The directives an `overlay.toml` text holds, if it is valid.
pub open spec fn overlay_parse(t: Seq<char>) -> Option<OverlayV> {
    match spec_parse(t) {
        Some(d) => overlay_of(d),
        None => None,
    }
}

/// Upserting each card in turn: it replaces the first card with its id, or
/// is appended.
pub open spec fn upsert_all(s: Seq<CardV>, cs: Seq<CardV>) -> Seq<CardV>
    decreases cs.len(),
{
    if cs.len() == 0 {
        s
    } else {
        let p = upsert_all(s, cs.drop_last());
        match index_of_id(p, cs.last().id, 0) {
            Some(k) => p.update(k, cs.last()),
            None => p.push(cs.last()),
        }
    }
}

/// Cards marked as loaded from the overlay directory `path`.
pub open spec fn from_overlay(cs: Seq<CardV>, path: Seq<char>) -> Seq<CardV> {
    cs.map_values(|c: CardV| CardV { source: SourceV::Overlay(path), ..c })
}

/// The directives applied in their order: hides, reorders, retitles.
pub open spec fn apply_overlay(s: Seq<CardV>, d: OverlayV) -> Seq<CardV> {
    apply_retitles(apply_reorders(apply_hides(s, d.hide), d.reorder), d.retitle)
}

/// Loads an overlay directory into `store`, given what the caller found
/// there: `tree`, every file but `overlay.toml` as a path relative to the
/// directory with its bytes; `path`, how the directory is shown; and
/// `overlay`, `overlay.toml` (`None` when there is none, else its text or
/// why it could not be read).
///
/// The recipes of a non-empty tree are upserted first, marked as coming
/// from the overlay, so they override recipes of the same id; an invalid
/// tree is an error and leaves the store unchanged. Then the directives of
/// `overlay.toml` are applied. An unreadable or invalid `overlay.toml` is an
/// error after the recipes were upserted.
pub fn load_overlay_files(
    store: &mut RecipeStore,
    tree: &[(&str, &[u8])],
    path: &str,
    overlay: Option<Result<String, String>>,
) -> (r: Result<(), String>)
    ensures
        tree@.len() > 0 && embedded_cards(emb_view(tree@)) is None ==> r is Err && final(store)@
            == old(store)@,
        ({
            let mid = if tree@.len() == 0 {
                old(store)@
            } else {
                upsert_all(old(store)@, from_overlay(embedded_cards(emb_view(tree@))->0, path@))
            };
            tree@.len() == 0 || embedded_cards(emb_view(tree@)) is Some ==> match overlay {
                None => r is Ok && final(store)@ == mid,
                Some(Err(e)) => r == Err::<(), String>(e) && final(store)@ == mid,
                Some(Ok(t)) => match overlay_parse(t@) {
                    None => r is Err && final(store)@ == mid,
                    Some(d) => r is Ok && final(store)@ == apply_overlay(mid, d),
                },
            }
        }),
{
    if tree.len() > 0 {
        let cards = recipes_from_embedded(tree)?;
        let ghost cs = from_overlay(cards_view(cards@), path@);
        let ghost s0 = store@;
        let mut i: usize = 0;
        while i < cards.len()
            invariant
                i <= cards@.len(),
                cs == from_overlay(cards_view(cards@), path@),
                store@ == upsert_all(s0, cs.take(i as int)),
            decreases cards@.len() - i,
        {
            let mut card = cards[i].copy();
            card.source = RecipeSource::Overlay { path: crate::text::text(path) };
            proof {
                assert(cs.take(i + 1).drop_last() =~= cs.take(i as int));
                assert(card@ == cs[i as int]);
            }
            store.upsert_card(card);
            i += 1;
        }
        assert(cs.take(i as int) =~= cs);
    }
    match overlay {
        None => Ok(()),
        Some(Err(e)) => Err(e),
        Some(Ok(t)) => {
            let directives = parse_overlay(t.as_str())?;
            apply_directives(store, &directives);
            Ok(())
        },
    }
}

} // verus!
