//! Where each row lives: its primary note and section, and the navigation
//! claims and forward relations it contributes.

use vstd::prelude::*;

use crate::index::identity::row_key;
use crate::index::model::{AnchorId, RouteStep, step_target};
use crate::index::rows::{IndexRow, IndexRowRef, ref_row};
use crate::text::{str_eq, text};
use crate::vault::claim::{ClaimSite, DerivedClaim, Key};
use crate::vault::model::{
    Relation, RelationOrigin, VaultGranularity, VaultNoteId, VaultNoteKind, link, links,
};

verus! {

/// The primary note, note kind and section of a row.
pub open spec fn site_of(row: IndexRow, g: VaultGranularity) -> (Seq<char>, VaultNoteKind, Seq<char>) {
    match row {
        IndexRow::Subject(r) => (r.id@, VaultNoteKind::Subject, "subject"@),
        IndexRow::Anchor(r) => if g == VaultGranularity::Full {
            (r.id@, VaultNoteKind::Anchor, "anchor"@)
        } else {
            (r.subject@, VaultNoteKind::Subject, "anchors"@)
        },
        IndexRow::SourceUnit(r) => (r.subject@, VaultNoteKind::Subject, "source-units"@),
        IndexRow::Declaration(r) => (r.anchor@, VaultNoteKind::Anchor, "declarations"@),
        IndexRow::ProtocolRelation(r) => (r.anchor@, VaultNoteKind::Anchor, "protocols"@),
        IndexRow::Surface(r) => (r.id@, VaultNoteKind::Surface, "surface"@),
        IndexRow::Specimen(r) => (r.id@, VaultNoteKind::Specimen, "specimen"@),
        IndexRow::Draft(r) => (r.id@, VaultNoteKind::Draft, "draft"@),
        IndexRow::Feature(r) => (r.id@, VaultNoteKind::Feature, "feature"@),
        IndexRow::Route(r) => (r.id@, VaultNoteKind::Route, "route"@),
        IndexRow::Edge(_) => ("index/relations"@, VaultNoteKind::Index, "edges"@),
    }
}

/// Returns the primary note, note kind and section of a row.
pub fn primary_site(row: IndexRowRef<'_>, granularity: VaultGranularity) -> (r: (
    VaultNoteId,
    VaultNoteKind,
    &'static str,
))
    ensures
        (r.0@, r.1, r.2@) == site_of(ref_row(row), granularity),
{
    match row {
        IndexRowRef::Subject(r) => (VaultNoteId::new(r.id.as_str()), VaultNoteKind::Subject, "subject"),
        IndexRowRef::Anchor(r) => {
            if granularity == VaultGranularity::Full {
                (VaultNoteId::new(r.id.as_str()), VaultNoteKind::Anchor, "anchor")
            } else {
                (VaultNoteId::new(r.subject.as_str()), VaultNoteKind::Subject, "anchors")
            }
        },
        IndexRowRef::SourceUnit(r) => (
            VaultNoteId::new(r.subject.as_str()),
            VaultNoteKind::Subject,
            "source-units",
        ),
        IndexRowRef::Declaration(r) => (
            VaultNoteId::new(r.anchor.as_str()),
            VaultNoteKind::Anchor,
            "declarations",
        ),
        IndexRowRef::ProtocolRelation(r) => (
            VaultNoteId::new(r.anchor.as_str()),
            VaultNoteKind::Anchor,
            "protocols",
        ),
        IndexRowRef::Surface(r) => (VaultNoteId::new(r.id.as_str()), VaultNoteKind::Surface, "surface"),
        IndexRowRef::Specimen(r) => (
            VaultNoteId::new(r.id.as_str()),
            VaultNoteKind::Specimen,
            "specimen",
        ),
        IndexRowRef::Draft(r) => (VaultNoteId::new(r.id.as_str()), VaultNoteKind::Draft, "draft"),
        IndexRowRef::Feature(r) => (VaultNoteId::new(r.id.as_str()), VaultNoteKind::Feature, "feature"),
        IndexRowRef::Route(r) => (VaultNoteId::new(r.id.as_str()), VaultNoteKind::Route, "route"),
        IndexRowRef::Edge(_) => (VaultNoteId::new("index/relations"), VaultNoteKind::Index, "edges"),
    }
}

/// Mathematical value of a derived claim: the key of its row, its note,
/// section and origin.
pub open spec fn claim_view(d: DerivedClaim) -> (Key, Seq<char>, Seq<char>, Seq<char>) {
    (row_key(d.row), d.site.note@, d.site.section@, d.origin@)
}

/// Values of a list of derived claims.
pub open spec fn claim_views(v: Seq<DerivedClaim>) -> Seq<(Key, Seq<char>, Seq<char>, Seq<char>)> {
    v.map_values(|d: DerivedClaim| claim_view(d))
}

/// One proposed derived claim, kept only when it points away from the
/// row's primary note.
pub open spec fn one_claim(
    key: Key,
    note: Seq<char>,
    section: Seq<char>,
    origin: Seq<char>,
    primary: Seq<char>,
) -> Seq<(Key, Seq<char>, Seq<char>, Seq<char>)> {
    if note == primary {
        Seq::empty()
    } else {
        seq![(key, note, section, origin)]
    }
}

/// Feature-claim navigation toward each claimed anchor.
pub open spec fn anchor_claims(v: Seq<AnchorId>, key: Key, primary: Seq<char>) -> Seq<
    (Key, Seq<char>, Seq<char>, Seq<char>),
>
    decreases v.len(),
{
    if v.len() == 0 {
        Seq::empty()
    } else {
        anchor_claims(v.drop_last(), key, primary) + one_claim(
            key,
            v.last()@,
            "claimed-by"@,
            "feature-claim"@,
            primary,
        )
    }
}

/// Route-step navigation toward each step's target.
pub open spec fn step_claims(v: Seq<RouteStep>, key: Key, primary: Seq<char>) -> Seq<
    (Key, Seq<char>, Seq<char>, Seq<char>),
>
    decreases v.len(),
{
    if v.len() == 0 {
        Seq::empty()
    } else {
        step_claims(v.drop_last(), key, primary) + one_claim(
            key,
            step_target(v.last()),
            "routes"@,
            "route-step"@,
            primary,
        )
    }
}

/// The derived claims a row contributes, for a copy of the row with key
/// `key` whose primary note is `primary`.
pub open spec fn derived_of(row: IndexRow, key: Key, primary: Seq<char>) -> Seq<
    (Key, Seq<char>, Seq<char>, Seq<char>),
> {
    match row {
        IndexRow::Anchor(r) => one_claim(
            key,
            r.id@,
            "owner"@,
            "embedded-owner-summary"@,
            primary,
        ),
        IndexRow::Declaration(r) => one_claim(
            key,
            r.anchor@,
            "backlinks"@,
            "anchor-backlink"@,
            primary,
        ),
        IndexRow::ProtocolRelation(r) => one_claim(
            key,
            r.anchor@,
            "backlinks"@,
            "anchor-backlink"@,
            primary,
        ),
        IndexRow::Specimen(r) => match r.doc_anchor {
            Some(a) => one_claim(key, a@, "navigation"@, "readme-navigation"@, primary),
            None => Seq::empty(),
        },
        IndexRow::Draft(r) => anchor_claims(r.claims_anchors@, key, primary),
        IndexRow::Feature(r) => anchor_claims(r.anchors@, key, primary),
        IndexRow::Route(r) => step_claims(r.steps@, key, primary),
        _ => Seq::empty(),
    }
}

/// The forward relation a row contributes: an edge's own relation.
pub open spec fn forward_of(row: IndexRow) -> Seq<
    (Seq<char>, Seq<char>, Seq<char>, RelationOrigin),
> {
    match row {
        IndexRow::Edge(r) => seq![(r.from@, r.rel@, r.to@, RelationOrigin::Canonical)],
        _ => Seq::empty(),
    }
}

/// `after` is `before` followed by claims whose rows all have key `key`.
pub open spec fn extends_with(before: Seq<DerivedClaim>, after: Seq<DerivedClaim>, key: Key) -> bool {
    &&& before.len() <= after.len()
    &&& forall|m: int| 0 <= m < before.len() ==> after[m] == before[m]
    &&& forall|m: int| before.len() <= m < after.len() ==> row_key(#[trigger] after[m].row) == key
}

fn add_claim(
    owned: &IndexRow,
    primary: &VaultNoteId,
    claims: &mut Vec<DerivedClaim>,
    note: &str,
    section: &str,
    origin: &str,
)
    ensures
        claim_views(final(claims)@) == claim_views(old(claims)@) + one_claim(
            row_key(*owned),
            note@,
            section@,
            origin@,
            primary@,
        ),
        extends_with(old(claims)@, final(claims)@, row_key(*owned)),
{
    let ghost before = claims@;
    if !str_eq(note, primary.as_str()) {
        let d = DerivedClaim {
            row: owned.copy(),
            site: ClaimSite { note: VaultNoteId::new(note), section: text(section) },
            origin: text(origin),
        };
        claims.push(d);
        assert(claim_views(claims@) =~= claim_views(before).push(claim_view(d)));
    } else {
        assert(claim_views(claims@) =~= claim_views(before) + Seq::empty());
    }
}

fn add_anchors(
    owned: &IndexRow,
    primary: &VaultNoteId,
    claims: &mut Vec<DerivedClaim>,
    anchors: &Vec<AnchorId>,
)
    ensures
        claim_views(final(claims)@) == claim_views(old(claims)@) + anchor_claims(
            anchors@,
            row_key(*owned),
            primary@,
        ),
        extends_with(old(claims)@, final(claims)@, row_key(*owned)),
{
    let ghost before = claim_views(claims@);
    let ghost start = claims@;
    let mut i: usize = 0;
    assert(anchor_claims(anchors@.take(0), row_key(*owned), primary@) =~= Seq::empty());
    assert(claim_views(claims@) =~= before + Seq::empty());
    while i < anchors.len()
        invariant
            i <= anchors@.len(),
            claim_views(claims@) == before + anchor_claims(
                anchors@.take(i as int),
                row_key(*owned),
                primary@,
            ),
            extends_with(start, claims@, row_key(*owned)),
        decreases anchors@.len() - i,
    {
        add_claim(owned, primary, claims, anchors[i].as_str(), "claimed-by", "feature-claim");
        assert(anchors@.take(i + 1).drop_last() =~= anchors@.take(i as int));
        assert(claim_views(claims@) =~= before + anchor_claims(
            anchors@.take(i + 1),
            row_key(*owned),
            primary@,
        ));
        i += 1;
    }
    assert(anchors@.take(anchors@.len() as int) =~= anchors@);
}

fn add_steps(
    owned: &IndexRow,
    primary: &VaultNoteId,
    claims: &mut Vec<DerivedClaim>,
    steps: &Vec<RouteStep>,
)
    ensures
        claim_views(final(claims)@) == claim_views(old(claims)@) + step_claims(
            steps@,
            row_key(*owned),
            primary@,
        ),
        extends_with(old(claims)@, final(claims)@, row_key(*owned)),
{
    let ghost before = claim_views(claims@);
    let ghost start = claims@;
    let mut i: usize = 0;
    assert(step_claims(steps@.take(0), row_key(*owned), primary@) =~= Seq::empty());
    assert(claim_views(claims@) =~= before + Seq::empty());
    while i < steps.len()
        invariant
            i <= steps@.len(),
            claim_views(claims@) == before + step_claims(
                steps@.take(i as int),
                row_key(*owned),
                primary@,
            ),
            extends_with(start, claims@, row_key(*owned)),
        decreases steps@.len() - i,
    {
        add_claim(owned, primary, claims, steps[i].id(), "routes", "route-step");
        assert(steps@.take(i + 1).drop_last() =~= steps@.take(i as int));
        assert(claim_views(claims@) =~= before + step_claims(
            steps@.take(i + 1),
            row_key(*owned),
            primary@,
        ));
        i += 1;
    }
    assert(steps@.take(steps@.len() as int) =~= steps@);
}

/// Appends the derived claims of a row (for its copy `owned`, placed in
/// `primary_note`) and the forward relation of an edge row.
pub fn derive(
    row: IndexRowRef<'_>,
    owned: &IndexRow,
    primary_note: &VaultNoteId,
    claims: &mut Vec<DerivedClaim>,
    relations: &mut Vec<Relation>,
)
    ensures
        claim_views(final(claims)@) == claim_views(old(claims)@) + derived_of(
            ref_row(row),
            row_key(*owned),
            primary_note@,
        ),
        links(final(relations)@) == links(old(relations)@) + forward_of(ref_row(row)),
        extends_with(old(claims)@, final(claims)@, row_key(*owned)),
{
    let ghost rel_before = relations@;
    let ghost claims_before = claims@;
    match row {
        IndexRowRef::Anchor(r) => {
            add_claim(owned, primary_note, claims, r.id.as_str(), "owner", "embedded-owner-summary");
        },
        IndexRowRef::Declaration(r) => {
            add_claim(owned, primary_note, claims, r.anchor.as_str(), "backlinks", "anchor-backlink");
        },
        IndexRowRef::ProtocolRelation(r) => {
            add_claim(owned, primary_note, claims, r.anchor.as_str(), "backlinks", "anchor-backlink");
        },
        IndexRowRef::Specimen(r) => {
            match &r.doc_anchor {
                Some(a) => {
                    add_claim(owned, primary_note, claims, a.as_str(), "navigation", "readme-navigation");
                },
                None => {
                    assert(claim_views(claims@) =~= claim_views(claims_before) + Seq::empty());
                },
            }
        },
        IndexRowRef::Draft(r) => {
            add_anchors(owned, primary_note, claims, &r.claims_anchors);
        },
        IndexRowRef::Feature(r) => {
            add_anchors(owned, primary_note, claims, &r.anchors);
        },
        IndexRowRef::Route(r) => {
            add_steps(owned, primary_note, claims, &r.steps);
        },
        IndexRowRef::Edge(r) => {
            let rel = Relation::canonical(r.from.as_str(), r.rel.as_str(), r.to.as_str());
            relations.push(rel);
            assert(links(relations@) =~= links(rel_before).push(link(rel)));
            assert(claim_views(claims@) =~= claim_views(claims_before) + Seq::empty());
        },
        _ => {
            assert(claim_views(claims@) =~= claim_views(claims_before) + Seq::empty());
        },
    }
    assert(links(relations@) =~= links(rel_before) + forward_of(ref_row(row)));
}

} // verus!
