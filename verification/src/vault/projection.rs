//! The complete projection of a public index document: every row placed in
//! exactly one primary note, an exact claim certificate, and the forward
//! relations with their derived reverse mirrors.

use vstd::prelude::*;

use crate::index::check::{has_id, known_id_list, known_ids, strs_of};
use crate::index::identity::{key_less_parts, key_lt, lemma_key_lt_asym, lemma_key_lt_total, lemma_key_lt_trans, row_key, txt};
use crate::index::model::{IndexDoc, IndexEdge, Visibility};
use crate::index::rows::{IndexRow, IndexRowRef, inventory_spec, ref_row};
use crate::text::{lemma_seq_lt_total, lemma_seq_lt_trans, seq_lt, str_eq, str_lt, text};
use crate::vault::claim::{
    ClaimCertificate, ClaimSite, DerivedClaim, Key, claim_keys, claims_close, covered,
    derived_keys, distinct, first_repeat, keys_of, sorted_keys,
};
use crate::vault::model::{
    BoundaryWitness, MetadataIdentity, ProjectionError, Relation, RelationOrigin,
    VaultGranularity, VaultNoteId, VaultNoteKind, VaultNotePlan, link, links, mirrors,
};
use crate::vault::placement::{
    claim_view, claim_views, derived_of, forward_of, primary_site, site_of,
};

verus! {

/// The rows of a document's inventory.
pub open spec fn inventory_rows(d: IndexDoc) -> Seq<IndexRow> {
    inventory_spec(&d).map_values(|r: IndexRowRef| ref_row(r))
}

/// The keys of a document's inventory.
pub open spec fn inventory_keys(d: IndexDoc) -> Seq<Key> {
    keys_of(inventory_rows(d))
}

/// The derived claims of a list of rows, row by row; none in compact
/// granularity.
pub open spec fn derived_spec(rows: Seq<IndexRow>, g: VaultGranularity) -> Seq<
    (Key, Seq<char>, Seq<char>, Seq<char>),
>
    decreases rows.len(),
{
    if rows.len() == 0 || g == VaultGranularity::Compact {
        Seq::empty()
    } else {
        derived_spec(rows.drop_last(), g) + derived_of(
            rows.last(),
            row_key(rows.last()),
            site_of(rows.last(), g).0,
        )
    }
}

/// The forward relations of a list of rows, row by row.
pub open spec fn forward_spec(rows: Seq<IndexRow>) -> Seq<
    (Seq<char>, Seq<char>, Seq<char>, RelationOrigin),
>
    decreases rows.len(),
{
    if rows.len() == 0 {
        Seq::empty()
    } else {
        forward_spec(rows.drop_last()) + forward_of(rows.last())
    }
}

/// Note ids in strictly increasing order.
pub open spec fn ids_sorted(n: Seq<VaultNotePlan>) -> bool {
    forall|a: int, b: int| 0 <= a < b < n.len() ==> seq_lt(#[trigger] n[a].id@, #[trigger] n[b].id@)
}

/// Every row sits in the note of its primary site.
pub open spec fn placed(n: Seq<VaultNotePlan>, g: VaultGranularity) -> bool {
    forall|a: int, k: int|
        0 <= a < n.len() && 0 <= k < n[a].rows@.len() ==> site_of(#[trigger] n[a].rows@[k], g).0
            == n[a].id@
}

/// Every note is non-empty and has the kind of its first row's site.
pub open spec fn kinds_ok(n: Seq<VaultNotePlan>, g: VaultGranularity) -> bool {
    forall|a: int|
        0 <= a < n.len() ==> (#[trigger] n[a]).rows@.len() > 0 && site_of(n[a].rows@[0], g).1
            == n[a].kind
}

/// The rows of each note are in strict key order.
pub open spec fn rows_sorted(n: Seq<VaultNotePlan>) -> bool {
    forall|a: int| 0 <= a < n.len() ==> sorted_keys(keys_of(#[trigger] n[a].rows@))
}

/// Every row of every note has one of the given keys.
pub open spec fn drawn(n: Seq<VaultNotePlan>, keys: Seq<Key>) -> bool {
    forall|a: int, k: int|
        0 <= a < n.len() && 0 <= k < n[a].rows@.len() ==> keys.contains(
            row_key(#[trigger] n[a].rows@[k]),
        )
}

/// Every one of the given rows has a copy in the note of its primary site.
pub open spec fn homes(n: Seq<VaultNotePlan>, rows: Seq<IndexRow>, g: VaultGranularity) -> bool {
    forall|j: int|
        0 <= j < rows.len() ==> exists|a: int|
            0 <= a < n.len() && n[a].id@ == site_of(#[trigger] rows[j], g).0 && keys_of(
                n[a].rows@,
            ).contains(row_key(rows[j]))
}

/// Pure projection result.
#[derive(Debug, PartialEq, Eq)]
pub struct VaultProjection {
    granularity: VaultGranularity,
    notes: Vec<VaultNotePlan>,
    certificate: ClaimCertificate,
    relations: Vec<Relation>,
    reverse_relations: Vec<Relation>,
}

impl VaultProjection {
    /// The granularity the projection was planned at.
    pub closed spec fn spec_granularity(&self) -> VaultGranularity {
        self.granularity
    }

    /// The note plans.
    pub closed spec fn spec_notes(&self) -> Seq<VaultNotePlan> {
        self.notes@
    }

    /// The claim certificate.
    pub closed spec fn spec_certificate(&self) -> ClaimCertificate {
        self.certificate
    }

    /// The forward relations.
    pub closed spec fn spec_relations(&self) -> Seq<Relation> {
        self.relations@
    }

    /// The derived reverse relations.
    pub closed spec fn spec_reverse(&self) -> Seq<Relation> {
        self.reverse_relations@
    }

    /// Projects a complete public document. A non-public document is
    /// refused before planning; a document with two identical rows is
    /// refused with the first repeated row. Otherwise every row gets one
    /// primary claim at its primary site, full granularity adds every
    /// derived navigation claim, notes are ordered by id with their rows in
    /// key order, and every edge contributes a forward relation and its
    /// mirror.
    pub fn from_complete(doc: &IndexDoc, granularity: VaultGranularity) -> (r: Result<
        VaultProjection,
        ProjectionError,
    >)
        ensures
            doc.visibility != Visibility::Public ==> r matches Err(
                ProjectionError::NonPublicDocument,
            ),
            doc.visibility == Visibility::Public ==> (r is Ok <==> distinct(inventory_keys(*doc))),
            doc.visibility == Visibility::Public && !distinct(inventory_keys(*doc)) ==> (r matches Err(
                ProjectionError::DuplicateCanonicalRow(x),
            ) && exists|j: int|
                first_repeat(inventory_keys(*doc), j) && row_key(*x) == inventory_keys(*doc)[j]),
            r matches Ok(p) ==> {
                &&& p.spec_granularity() == granularity
                &&& p.spec_certificate().closed_sets()
                &&& p.spec_certificate().rows().len() == inventory_rows(*doc).len()
                &&& forall|y: Key| #[trigger]
                    keys_of(p.spec_certificate().rows()).contains(y) <==> inventory_keys(
                        *doc,
                    ).contains(y)
                &&& forall|i: int|
                    0 <= i < p.spec_certificate().claims().len() ==> ((
                    #[trigger] p.spec_certificate().claims()[i]).1.note@, p.spec_certificate().claims()[i].1.section@)
                        == (site_of(p.spec_certificate().claims()[i].0, granularity).0, site_of(
                        p.spec_certificate().claims()[i].0,
                        granularity,
                    ).2)
                &&& claim_views(p.spec_certificate().derivations()) == derived_spec(
                    inventory_rows(*doc),
                    granularity,
                )
                &&& ids_sorted(p.spec_notes())
                &&& placed(p.spec_notes(), granularity)
                &&& kinds_ok(p.spec_notes(), granularity)
                &&& rows_sorted(p.spec_notes())
                &&& drawn(p.spec_notes(), inventory_keys(*doc))
                &&& homes(p.spec_notes(), p.spec_certificate().rows(), granularity)
                &&& links(p.spec_relations()) == forward_spec(inventory_rows(*doc))
                &&& links(p.spec_reverse()) == mirrors(p.spec_relations())
            },
    {
        match doc.visibility {
            Visibility::Public => {},
            _ => {
                return Err(ProjectionError::NonPublicDocument);
            },
        }
        let (_meta, rows) = doc.inventory();
        let ghost inv = inventory_rows(*doc);
        let ghost ik = inventory_keys(*doc);
        assert(rows@.len() == inv.len());
        let mut canonical: Vec<IndexRow> = Vec::new();
        let mut primary: Vec<(IndexRow, ClaimSite)> = Vec::new();
        let mut derived: Vec<DerivedClaim> = Vec::new();
        let mut relations: Vec<Relation> = Vec::new();
        let mut i: usize = 0;
        while i < rows.len()
            invariant
                i <= rows@.len(),
                rows@ == inventory_spec(doc),
                inv == inventory_rows(*doc),
                ik == keys_of(inv),
                rows@.len() == inv.len(),
                keys_of(canonical@) == ik.take(i as int),
                claim_keys(primary@) == ik.take(i as int),
                forall|j: int|
                    0 <= j < i ==> ((#[trigger] primary@[j]).1.note@, primary@[j].1.section@) == (
                    site_of(inv[j], granularity).0, site_of(inv[j], granularity).2),
                claim_views(derived@) == derived_spec(inv.take(i as int), granularity),
                links(relations@) == forward_spec(inv.take(i as int)),
                covered(derived_keys(derived@), ik.take(i as int)),
            decreases rows@.len() - i,
        {
            let row = rows[i];
            assert(ref_row(row) == inv[i as int]);
            let owned = row.to_owned();
            let (note, _kind, section) = primary_site(row, granularity);
            let mut found: Vec<DerivedClaim> = Vec::new();
            let ghost rel_before = relations@;
            crate::vault::placement::derive(row, &owned, &note, &mut found, &mut relations);
            let ghost der_before = derived@;
            let ghost found_before = found@;
            if granularity == VaultGranularity::Full {
                derived.append(&mut found);
                assert(claim_views(derived@) =~= claim_views(der_before) + claim_views(found_before));
            }
            let ghost prim_before = primary@;
            let ghost canon_before = canonical@;
            let site = ClaimSite { note, section: text(section) };
            primary.push((owned.copy(), site));
            canonical.push(owned);
            proof {
                let t = inv.take(i + 1);
                assert(t.drop_last() =~= inv.take(i as int));
                assert(t.last() == inv[i as int]);
                assert(ik.take(i + 1) =~= ik.take(i as int).push(ik[i as int]));
                assert(keys_of(canonical@) =~= keys_of(canon_before).push(row_key(canonical@.last())));
                assert(claim_keys(primary@) =~= claim_keys(prim_before).push(
                    row_key(primary@.last().0),
                ));
                assert(links(relations@) =~= forward_spec(t));
                if granularity == VaultGranularity::Full {
                    assert(claim_views(derived@) =~= derived_spec(t, granularity));
                } else {
                    assert(derived@ == der_before);
                }
                assert(ik[i as int] == row_key(owned));
                assert forall|y: Key| #[trigger] derived_keys(derived@).contains(y) implies ik.take(
                    i + 1,
                ).contains(y) by {
                    let m = choose|m: int| 0 <= m < derived@.len() && #[trigger] derived_keys(derived@)[m] == y;
                    if m < der_before.len() {
                        assert(derived@[m] == der_before[m]);
                        assert(derived_keys(der_before)[m] == y);
                        assert(derived_keys(der_before).contains(y));
                        let q = choose|q: int| 0 <= q < ik.take(i as int).len() && #[trigger] ik.take(i as int)[q] == y;
                        assert(ik.take(i + 1)[q] == y);
                    } else {
                        assert(derived@[m] == found_before[m - der_before.len()]);
                        assert(row_key(found_before[m - der_before.len()].row) == row_key(owned));
                        assert(ik.take(i + 1)[i as int] == y);
                    }
                }
                assert forall|j: int| 0 <= j < i + 1 implies ((#[trigger] primary@[j]).1.note@,
                primary@[j].1.section@) == (site_of(inv[j], granularity).0, site_of(
                    inv[j],
                    granularity,
                ).2) by {
                    if j < i {
                        assert(primary@[j] == prim_before[j]);
                    }
                }
            }
            i += 1;
        }
        proof {
            assert(inv.take(inv.len() as int) =~= inv);
            assert(ik.take(ik.len() as int) =~= ik);
            lemma_claims_close_iff(canonical@, primary@, derived@);
        }
        let ghost canonical0 = canonical@;
        let ghost primary0 = primary@;
        let cert = match ClaimCertificate::close(canonical, primary, derived) {
            Ok(c) => c,
            Err(e) => {
                return Err(e);
            },
        };
        proof {
            assert(crate::vault::claim::drawn_from(cert.claims(), primary0));
            assert forall|i: int| 0 <= i < cert.claims().len() implies ((
            #[trigger] cert.claims()[i]).1.note@, cert.claims()[i].1.section@) == (site_of(
                cert.claims()[i].0,
                granularity,
            ).0, site_of(cert.claims()[i].0, granularity).2) by {
                let j = choose|j: int|
                    0 <= j < primary0.len() && #[trigger] cert.claims()[i] == primary0[j];
                assert(claim_keys(primary0)[j] == keys_of(inv)[j]);
                lemma_site_by_key(cert.claims()[i].0, inv[j], granularity);
            }
        }
        let notes = plan_notes(cert.canonical(), granularity);
        let mut reverse: Vec<Relation> = Vec::new();
        let mut k: usize = 0;
        while k < relations.len()
            invariant
                k <= relations@.len(),
                links(reverse@) == mirrors(relations@.take(k as int)),
            decreases relations@.len() - k,
        {
            let m = relations[k].mirrored();
            let ghost before = reverse@;
            reverse.push(m);
            assert(relations@.take(k + 1) =~= relations@.take(k as int).push(relations@[k as int]));
            assert(links(reverse@) =~= links(before).push(link(m)));
            assert(mirrors(relations@.take(k + 1)) =~= mirrors(relations@.take(k as int)).push(
                crate::vault::model::mirror(relations@[k as int]),
            ));
            k += 1;
        }
        assert(relations@.take(relations@.len() as int) =~= relations@);
        Ok(
            VaultProjection {
                granularity,
                notes,
                certificate: cert,
                relations,
                reverse_relations: reverse,
            },
        )
    }

    /// The granularity the projection was planned at.
    pub fn granularity(&self) -> (g: VaultGranularity)
        ensures
            g == self.spec_granularity(),
    {
        self.granularity
    }

    /// Deterministic note plans.
    pub fn notes(&self) -> (r: &[VaultNotePlan])
        ensures
            r@ == self.spec_notes(),
    {
        self.notes.as_slice()
    }

    /// The exact claim certificate.
    pub fn certificate(&self) -> (r: &ClaimCertificate)
        ensures
            *r == self.spec_certificate(),
    {
        &self.certificate
    }

    /// Canonical forward relations.
    pub fn relations(&self) -> (r: &[Relation])
        ensures
            r@ == self.spec_relations(),
    {
        self.relations.as_slice()
    }

    /// Derived incoming relations, one mirror per forward relation.
    pub fn reverse_relations(&self) -> (r: &[Relation])
        ensures
            r@ == self.spec_reverse(),
    {
        self.reverse_relations.as_slice()
    }
}

/// Plans the notes of rows given in strict key order: one note per primary
/// site, notes in id order, each holding its rows in key order.
fn plan_notes(rows: &[IndexRow], g: VaultGranularity) -> (n: Vec<VaultNotePlan>)
    requires
        sorted_keys(keys_of(rows@)),
    ensures
        ids_sorted(n@),
        placed(n@, g),
        kinds_ok(n@, g),
        rows_sorted(n@),
        drawn(n@, keys_of(rows@)),
        homes(n@, rows@, g),
{
    let ghost keys = keys_of(rows@);
    let mut notes: Vec<VaultNotePlan> = Vec::new();
    let mut i: usize = 0;
    while i < rows.len()
        invariant
            i <= rows@.len(),
            keys == keys_of(rows@),
            sorted_keys(keys),
            ids_sorted(notes@),
            placed(notes@, g),
            kinds_ok(notes@, g),
            rows_sorted(notes@),
            drawn(notes@, keys.take(i as int)),
            homes(notes@, rows@.take(i as int), g),
        decreases rows@.len() - i,
    {
        let (note, kind, _section) = primary_site(rows[i].as_ref(), g);
        let copy = rows[i].copy();
        proof {
            lemma_site_by_key(copy, rows@[i as int], g);
        }
        let mut p: usize = 0;
        while p < notes.len() && str_lt(notes[p].id.as_str(), note.as_str())
            invariant
                p <= notes@.len(),
                forall|q: int| 0 <= q < p ==> seq_lt(#[trigger] notes@[q].id@, note@),
            decreases notes@.len() - p,
        {
            p += 1;
        }
        let ghost before = notes@;
        if p < notes.len() && str_eq(notes[p].id.as_str(), note.as_str()) {
            let mut plan = notes.remove(p);
            let ghost old_rows = plan.rows@;
            plan.rows.push(copy);
            notes.insert(p, plan);
            proof {
                assert(notes@ =~= before.update(p as int, plan));
                lemma_plan_append(before, p as int, plan, old_rows, copy, keys, rows@, i as int, g);
            }
        } else {
            let mut v: Vec<IndexRow> = Vec::new();
            v.push(copy);
            let plan = VaultNotePlan { id: note, kind, rows: v };
            notes.insert(p, plan);
            proof {
                if p < before.len() {
                    lemma_seq_lt_total(before[p as int].id@, note@);
                }
                lemma_plan_insert(before, p as int, plan, keys, rows@, i as int, g);
            }
        }
        i += 1;
    }
    proof {
        assert(keys.take(keys.len() as int) =~= keys);
        assert(rows@.take(rows@.len() as int) =~= rows@);
    }
    notes
}

proof fn lemma_plan_append(
    before: Seq<VaultNotePlan>,
    p: int,
    plan: VaultNotePlan,
    old_rows: Seq<IndexRow>,
    copy: IndexRow,
    keys: Seq<Key>,
    rows: Seq<IndexRow>,
    i: int,
    g: VaultGranularity,
)
    requires
        0 <= p < before.len(),
        0 <= i < rows.len(),
        keys == keys_of(rows),
        sorted_keys(keys),
        old_rows == before[p].rows@,
        plan.rows@ == old_rows.push(copy),
        plan.id == before[p].id,
        plan.kind == before[p].kind,
        row_key(copy) == keys[i],
        site_of(copy, g) == site_of(rows[i], g),
        site_of(copy, g).0 == plan.id@,
        ids_sorted(before),
        placed(before, g),
        kinds_ok(before, g),
        rows_sorted(before),
        drawn(before, keys.take(i)),
        homes(before, rows.take(i), g),
    ensures
        ids_sorted(before.update(p, plan)),
        placed(before.update(p, plan), g),
        kinds_ok(before.update(p, plan), g),
        rows_sorted(before.update(p, plan)),
        drawn(before.update(p, plan), keys.take(i + 1)),
        homes(before.update(p, plan), rows.take(i + 1), g),
{
    let after = before.update(p, plan);
    assert forall|a: int, b: int| 0 <= a < b < after.len() implies seq_lt(
        #[trigger] after[a].id@,
        #[trigger] after[b].id@,
    ) by {
        assert(seq_lt(before[a].id@, before[b].id@));
    }
    assert forall|a: int, k: int| 0 <= a < after.len() && 0 <= k < after[a].rows@.len() implies site_of(
        #[trigger] after[a].rows@[k],
        g,
    ).0 == after[a].id@ by {
        if a == p && k < old_rows.len() {
            assert(after[a].rows@[k] == before[p].rows@[k]);
        }
    }
    assert forall|a: int| 0 <= a < after.len() implies (#[trigger] after[a]).rows@.len() > 0 && site_of(
        after[a].rows@[0],
        g,
    ).1 == after[a].kind by {
        if a == p {
            assert(before[p].rows@.len() > 0);
            assert(after[a].rows@[0] == before[p].rows@[0]);
        }
    }
    assert forall|a: int, k: int| 0 <= a < after.len() && 0 <= k < after[a].rows@.len() implies keys.take(
        i + 1,
    ).contains(row_key(#[trigger] after[a].rows@[k])) by {
        if a == p && k == old_rows.len() {
            assert(keys.take(i + 1)[i] == keys[i]);
        } else {
            if a == p {
                assert(after[a].rows@[k] == before[p].rows@[k]);
            }
            assert(keys.take(i).contains(row_key(before[a].rows@[k])));
            let q = choose|q: int| 0 <= q < keys.take(i).len() && #[trigger] keys.take(i)[q] == row_key(
                before[a].rows@[k],
            );
            assert(keys.take(i + 1)[q] == keys.take(i)[q]);
        }
    }
    assert forall|a: int| 0 <= a < after.len() implies sorted_keys(
        keys_of(#[trigger] after[a].rows@),
    ) by {
        if a == p {
            let ks = keys_of(after[a].rows@);
            let ko = keys_of(old_rows);
            assert(sorted_keys(keys_of(before[p].rows@)));
            assert forall|x: int, y: int| 0 <= x < y < ks.len() implies key_lt(
                #[trigger] ks[x],
                #[trigger] ks[y],
            ) by {
                if y < old_rows.len() {
                    assert(ks[x] == ko[x]);
                    assert(ks[y] == ko[y]);
                } else {
                    assert(ks[y] == keys[i]);
                    assert(keys.take(i).contains(row_key(before[p].rows@[x])));
                    let q = choose|q: int| 0 <= q < keys.take(i).len() && #[trigger] keys.take(i)[q]
                        == row_key(before[p].rows@[x]);
                    assert(keys[q] == ks[x]);
                    assert(key_lt(keys[q], keys[i]));
                }
            }
        }
    }
    assert forall|j: int| 0 <= j < rows.take(i + 1).len() implies exists|a: int|
        0 <= a < after.len() && after[a].id@ == site_of(#[trigger] rows.take(i + 1)[j], g).0
            && keys_of(after[a].rows@).contains(row_key(rows.take(i + 1)[j])) by {
        if j == i {
            assert(rows.take(i + 1)[j] == rows[i]);
            assert(keys_of(after[p].rows@)[old_rows.len() as int] == row_key(copy));
            assert(keys_of(after[p].rows@).contains(row_key(rows[i])));
        } else {
            assert(rows.take(i + 1)[j] == rows.take(i)[j]);
            let a = choose|a: int|
                0 <= a < before.len() && before[a].id@ == site_of(#[trigger] rows.take(i)[j], g).0
                    && keys_of(before[a].rows@).contains(row_key(rows.take(i)[j]));
            let y = row_key(rows.take(i)[j]);
            let q = choose|q: int| 0 <= q < keys_of(before[a].rows@).len() && #[trigger] keys_of(
                before[a].rows@,
            )[q] == y;
            if a == p {
                assert(keys_of(after[a].rows@)[q] == y);
            }
            assert(keys_of(after[a].rows@).contains(y));
        }
    }
}

proof fn lemma_plan_insert(
    before: Seq<VaultNotePlan>,
    p: int,
    plan: VaultNotePlan,
    keys: Seq<Key>,
    rows: Seq<IndexRow>,
    i: int,
    g: VaultGranularity,
)
    requires
        0 <= p <= before.len(),
        0 <= i < rows.len(),
        keys == keys_of(rows),
        plan.rows@.len() == 1,
        row_key(plan.rows@[0]) == keys[i],
        site_of(plan.rows@[0], g) == site_of(rows[i], g),
        site_of(plan.rows@[0], g).0 == plan.id@,
        site_of(plan.rows@[0], g).1 == plan.kind,
        forall|q: int| 0 <= q < p ==> seq_lt(#[trigger] before[q].id@, plan.id@),
        p < before.len() ==> seq_lt(plan.id@, before[p].id@),
        ids_sorted(before),
        placed(before, g),
        kinds_ok(before, g),
        rows_sorted(before),
        drawn(before, keys.take(i)),
        homes(before, rows.take(i), g),
    ensures
        ids_sorted(before.insert(p, plan)),
        placed(before.insert(p, plan), g),
        kinds_ok(before.insert(p, plan), g),
        rows_sorted(before.insert(p, plan)),
        drawn(before.insert(p, plan), keys.take(i + 1)),
        homes(before.insert(p, plan), rows.take(i + 1), g),
{
    let after = before.insert(p, plan);
    assert forall|a: int, b: int| 0 <= a < b < after.len() implies seq_lt(
        #[trigger] after[a].id@,
        #[trigger] after[b].id@,
    ) by {
        if a < p && b == p {
        } else if a < p && b > p {
            assert(after[b] == before[b - 1]);
            if b - 1 > p {
                assert(seq_lt(before[p].id@, before[b - 1].id@));
                lemma_seq_lt_trans(plan.id@, before[p].id@, before[b - 1].id@);
            }
            lemma_seq_lt_trans(before[a].id@, plan.id@, before[b - 1].id@);
        } else if a == p {
            assert(after[b] == before[b - 1]);
            if b - 1 > p {
                lemma_seq_lt_trans(plan.id@, before[p].id@, before[b - 1].id@);
            }
        } else if b < p {
            assert(seq_lt(before[a].id@, before[b].id@));
        } else {
            assert(after[a] == before[a - 1]);
            assert(after[b] == before[b - 1]);
            assert(seq_lt(before[a - 1].id@, before[b - 1].id@));
        }
    }
    assert forall|a: int, k: int| 0 <= a < after.len() && 0 <= k < after[a].rows@.len() implies site_of(
        #[trigger] after[a].rows@[k],
        g,
    ).0 == after[a].id@ by {
        if a > p {
            assert(after[a] == before[a - 1]);
        }
    }
    assert forall|a: int| 0 <= a < after.len() implies (#[trigger] after[a]).rows@.len() > 0 && site_of(
        after[a].rows@[0],
        g,
    ).1 == after[a].kind by {
        if a > p {
            assert(after[a] == before[a - 1]);
        } else if a < p {
            assert(after[a] == before[a]);
        }
    }
    assert forall|a: int| 0 <= a < after.len() implies sorted_keys(
        keys_of(#[trigger] after[a].rows@),
    ) by {
        if a > p {
            assert(after[a] == before[a - 1]);
        } else if a < p {
            assert(after[a] == before[a]);
        }
    }
    assert forall|a: int, k: int| 0 <= a < after.len() && 0 <= k < after[a].rows@.len() implies keys.take(
        i + 1,
    ).contains(row_key(#[trigger] after[a].rows@[k])) by {
        if a == p {
            assert(keys.take(i + 1)[i] == keys[i]);
        } else {
            let b = if a < p {
                a
            } else {
                a - 1
            };
            assert(after[a] == before[b]);
            assert(keys.take(i).contains(row_key(before[b].rows@[k])));
            let q = choose|q: int| 0 <= q < keys.take(i).len() && #[trigger] keys.take(i)[q] == row_key(
                before[b].rows@[k],
            );
            assert(keys.take(i + 1)[q] == keys.take(i)[q]);
        }
    }
    assert forall|j: int| 0 <= j < rows.take(i + 1).len() implies exists|a: int|
        0 <= a < after.len() && after[a].id@ == site_of(#[trigger] rows.take(i + 1)[j], g).0
            && keys_of(after[a].rows@).contains(row_key(rows.take(i + 1)[j])) by {
        if j == i {
            assert(rows.take(i + 1)[j] == rows[i]);
            assert(keys_of(after[p].rows@)[0] == row_key(plan.rows@[0]));
            assert(keys_of(after[p].rows@).contains(row_key(rows[i])));
        } else {
            assert(rows.take(i + 1)[j] == rows.take(i)[j]);
            let a = choose|a: int|
                0 <= a < before.len() && before[a].id@ == site_of(#[trigger] rows.take(i)[j], g).0
                    && keys_of(before[a].rows@).contains(row_key(rows.take(i)[j]));
            if a < p {
                assert(after[a] == before[a]);
            } else {
                assert(after[a + 1] == before[a]);
            }
        }
    }
}


/// Mathematical value of a boundary witness: source, label, external target.
pub open spec fn wit(w: BoundaryWitness) -> (Seq<char>, Seq<char>, Seq<char>) {
    (w.from@, w.rel@, w.external_to@)
}

/// Values of a list of boundary witnesses.
pub open spec fn wits(v: Seq<BoundaryWitness>) -> Seq<(Seq<char>, Seq<char>, Seq<char>)> {
    v.map_values(|w: BoundaryWitness| wit(w))
}

/// Order key of a witness value.
pub open spec fn wit_key(w: (Seq<char>, Seq<char>, Seq<char>)) -> Key {
    seq![txt(w.0), txt(w.1), txt(w.2)]
}

/// The edges of a list whose target is none of the given local ids.
pub open spec fn external_edges(edges: Seq<IndexEdge>, local: Seq<Seq<char>>) -> Seq<
    (Seq<char>, Seq<char>, Seq<char>),
>
    decreases edges.len(),
{
    if edges.len() == 0 {
        Seq::empty()
    } else {
        let rest = external_edges(edges.drop_last(), local);
        let e = edges.last();
        if local.contains(e.to@) {
            rest
        } else {
            rest.push((e.from@, e.rel@, e.to@))
        }
    }
}

/// Witness values in (non-strict) key order.
pub open spec fn wits_sorted(w: Seq<(Seq<char>, Seq<char>, Seq<char>)>) -> bool {
    forall|a: int, b: int| 0 <= a < b < w.len() ==> !key_lt(wit_key(#[trigger] w[b]), wit_key(#[trigger] w[a]))
}

/// Exact local-coverage proof for one repository fragment.
#[derive(Debug, PartialEq, Eq)]
pub struct FragmentCertificate {
    metadata: MetadataIdentity,
    local: ClaimCertificate,
    deferred: Vec<BoundaryWitness>,
}

impl FragmentCertificate {
    /// The fragment's metadata.
    pub closed spec fn spec_metadata(&self) -> MetadataIdentity {
        self.metadata
    }

    /// The certificate of every local row.
    pub closed spec fn spec_local(&self) -> ClaimCertificate {
        self.local
    }

    /// The deferred external endpoints.
    pub closed spec fn spec_deferred(&self) -> Seq<BoundaryWitness> {
        self.deferred@
    }

    /// Fragment metadata identity.
    pub fn metadata(&self) -> (r: &MetadataIdentity)
        ensures
            *r == self.spec_metadata(),
    {
        &self.metadata
    }

    /// Exact certificate for every local primary row.
    pub fn local_claims(&self) -> (r: &ClaimCertificate)
        ensures
            *r == self.spec_local(),
    {
        &self.local
    }

    /// Sorted external endpoints retained as visible evidence.
    pub fn deferred_external_endpoints(&self) -> (r: &[BoundaryWitness])
        ensures
            r@ == self.spec_deferred(),
    {
        self.deferred.as_slice()
    }

    /// Fragments deliberately cannot claim whole-graph completeness.
    pub fn is_whole_graph_complete(&self) -> (b: bool)
        ensures
            !b,
    {
        false
    }
}

/// A repository-local projection with explicit graph-boundary evidence.
#[derive(Debug, PartialEq, Eq)]
pub struct FragmentProjection {
    notes: Vec<VaultNotePlan>,
    certificate: FragmentCertificate,
}

impl FragmentProjection {
    /// The note plans.
    pub closed spec fn spec_notes(&self) -> Seq<VaultNotePlan> {
        self.notes@
    }

    /// The fragment certificate.
    pub closed spec fn spec_certificate(&self) -> FragmentCertificate {
        self.certificate
    }

    /// Projects the rows of one repository fragment as
    /// [`VaultProjection::from_complete`] does, and records every edge whose
    /// target is no local id as a deferred external endpoint, in key order.
    pub fn from_fragment(doc: &IndexDoc, granularity: VaultGranularity) -> (r: Result<
        FragmentProjection,
        ProjectionError,
    >)
        ensures
            doc.visibility != Visibility::Public ==> r matches Err(
                ProjectionError::NonPublicDocument,
            ),
            doc.visibility == Visibility::Public ==> (r is Ok <==> distinct(inventory_keys(*doc))),
            doc.visibility == Visibility::Public && !distinct(inventory_keys(*doc)) ==> (r matches Err(
                ProjectionError::DuplicateCanonicalRow(x),
            ) && exists|j: int|
                first_repeat(inventory_keys(*doc), j) && row_key(*x) == inventory_keys(*doc)[j]),
            r matches Ok(f) ==> {
                &&& f.spec_certificate().spec_metadata().schema@ == doc.schema@
                &&& f.spec_certificate().spec_metadata().generated_by@ == doc.generated_by@
                &&& f.spec_certificate().spec_metadata().visibility == doc.visibility
                &&& f.spec_certificate().spec_local().closed_sets()
                &&& forall|y: Key| #[trigger]
                    keys_of(f.spec_certificate().spec_local().rows()).contains(y)
                        <==> inventory_keys(*doc).contains(y)
                &&& ids_sorted(f.spec_notes())
                &&& placed(f.spec_notes(), granularity)
                &&& homes(f.spec_notes(), f.spec_certificate().spec_local().rows(), granularity)
                &&& wits_sorted(wits(f.spec_certificate().spec_deferred()))
                &&& wits(f.spec_certificate().spec_deferred()).len() == external_edges(
                    doc.edges@,
                    known_ids(*doc),
                ).len()
                &&& forall|y| #[trigger]
                    wits(f.spec_certificate().spec_deferred()).contains(y) <==> external_edges(
                        doc.edges@,
                        known_ids(*doc),
                    ).contains(y)
            },
    {
        let complete = VaultProjection::from_complete(doc, granularity)?;
        let local = known_id_list(doc);
        let mut deferred: Vec<BoundaryWitness> = Vec::new();
        let mut i: usize = 0;
        while i < doc.edges.len()
            invariant
                i <= doc.edges@.len(),
                strs_of(local@) == known_ids(*doc),
                wits_sorted(wits(deferred@)),
                wits(deferred@).len() == external_edges(doc.edges@.take(i as int), known_ids(*doc)).len(),
                forall|y| #[trigger] wits(deferred@).contains(y) <==> external_edges(
                    doc.edges@.take(i as int),
                    known_ids(*doc),
                ).contains(y),
            decreases doc.edges@.len() - i,
        {
            let e = &doc.edges[i];
            let ghost t = doc.edges@.take(i + 1);
            assert(t.drop_last() =~= doc.edges@.take(i as int));
            assert(t.last() == doc.edges@[i as int]);
            if !has_id(&local, e.to.as_str()) {
                let w = BoundaryWitness {
                    from: e.from.clone(),
                    rel: e.rel.clone(),
                    external_to: e.to.clone(),
                };
                let ghost before = wits(deferred@);
                insert_witness(&mut deferred, w);
                proof {
                    let ext = external_edges(doc.edges@.take(i as int), known_ids(*doc));
                    assert(external_edges(t, known_ids(*doc)) == ext.push(wit(w)));
                    assert forall|y| #[trigger] wits(deferred@).contains(y) <==> ext.push(wit(w)).contains(y) by {
                        if ext.push(wit(w)).contains(y) {
                            let m = choose|m: int| 0 <= m < ext.push(wit(w)).len() && #[trigger] ext.push(wit(w))[m] == y;
                            if m < ext.len() {
                                assert(ext[m] == y);
                                assert(ext.contains(y));
                                assert(before.contains(y));
                            }
                        }
                        if wits(deferred@).contains(y) {
                            if before.contains(y) {
                                assert(ext.contains(y));
                                let m = choose|m: int| 0 <= m < ext.len() && #[trigger] ext[m] == y;
                                assert(ext.push(wit(w))[m] == y);
                            } else {
                                assert(ext.push(wit(w))[ext.len() as int] == y);
                            }
                        }
                    }
                }
            } else {
                assert(external_edges(t, known_ids(*doc)) == external_edges(
                    doc.edges@.take(i as int),
                    known_ids(*doc),
                ));
            }
            i += 1;
        }
        assert(doc.edges@.take(doc.edges@.len() as int) =~= doc.edges@);
        let metadata = MetadataIdentity {
            schema: doc.schema.clone(),
            generated_by: doc.generated_by.clone(),
            visibility: doc.visibility,
        };
        let VaultProjection { granularity: _, notes, certificate, relations: _, reverse_relations: _ } =
            complete;
        Ok(
            FragmentProjection {
                notes,
                certificate: FragmentCertificate { metadata, local: certificate, deferred },
            },
        )
    }

    /// Deterministic local note plans.
    pub fn notes(&self) -> (r: &[VaultNotePlan])
        ensures
            r@ == self.spec_notes(),
    {
        self.notes.as_slice()
    }

    /// Local and boundary certificate.
    pub fn certificate(&self) -> (r: &FragmentCertificate)
        ensures
            *r == self.spec_certificate(),
    {
        &self.certificate
    }
}

fn witness_less(a: &BoundaryWitness, b: &BoundaryWitness) -> (r: bool)
    ensures
        r == key_lt(wit_key(wit(*a)), wit_key(wit(*b))),
{
    key_less_parts(a.from.as_str(), a.rel.as_str(), a.external_to.as_str(), b.from.as_str(), b.rel.as_str(), b.external_to.as_str())
}

/// Inserts a witness after every witness it does not precede.
fn insert_witness(v: &mut Vec<BoundaryWitness>, w: BoundaryWitness)
    requires
        wits_sorted(wits(old(v)@)),
    ensures
        wits_sorted(wits(final(v)@)),
        wits(final(v)@).len() == wits(old(v)@).len() + 1,
        forall|y| #[trigger] wits(final(v)@).contains(y) <==> (wits(old(v)@).contains(y) || y == wit(w)),
{
    let ghost s = wits(v@);
    let ghost x = wit(w);
    let mut p: usize = 0;
    while p < v.len() && !witness_less(&w, &v[p])
        invariant
            p <= v@.len(),
            s == wits(v@),
            x == wit(w),
            forall|q: int| 0 <= q < p ==> !key_lt(wit_key(x), wit_key(#[trigger] s[q])),
        decreases v@.len() - p,
    {
        assert(s[p as int] == wit(v@[p as int]));
        p += 1;
    }
    proof {
        let t = s.insert(p as int, x);
        if p < s.len() {
            assert(s[p as int] == wit(v@[p as int]));
            assert(key_lt(wit_key(x), wit_key(s[p as int])));
        }
        assert forall|a: int, b: int| 0 <= a < b < t.len() implies !key_lt(
            wit_key(#[trigger] t[b]),
            wit_key(#[trigger] t[a]),
        ) by {
            if a < p && b == p {
            } else if a < p && b > p {
                assert(t[b] == s[b - 1]);
                assert(!key_lt(wit_key(s[b - 1]), wit_key(s[a])));
            } else if a == p && b > p {
                assert(t[b] == s[b - 1]);
                if key_lt(wit_key(s[b - 1]), wit_key(x)) {
                    if b - 1 > p {
                        assert(!key_lt(wit_key(s[b - 1]), wit_key(s[p as int])));
                        lemma_key_lt_total(wit_key(s[b - 1]), wit_key(s[p as int]));
                        if wit_key(s[b - 1]) != wit_key(s[p as int]) {
                            lemma_key_lt_trans(wit_key(s[p as int]), wit_key(s[b - 1]), wit_key(x));
                            lemma_key_lt_trans(wit_key(x), wit_key(s[p as int]), wit_key(x));
                            crate::index::identity::lemma_key_lt_irreflexive(wit_key(x));
                        } else {
                            lemma_key_lt_asym(wit_key(x), wit_key(s[p as int]));
                        }
                    } else {
                        lemma_key_lt_asym(wit_key(x), wit_key(s[p as int]));
                    }
                }
            } else if b < p {
            } else {
                assert(t[a] == s[a - 1]);
                assert(t[b] == s[b - 1]);
            }
        }
        assert forall|y| #[trigger] t.contains(y) <==> (s.contains(y) || y == x) by {
            if t.contains(y) {
                let m = choose|m: int| 0 <= m < t.len() && t[m] == y;
                if m < p {
                    assert(s[m] == y);
                } else if m > p {
                    assert(s[m - 1] == y);
                }
            }
            if s.contains(y) {
                let m = choose|m: int| 0 <= m < s.len() && s[m] == y;
                if m < p {
                    assert(t[m] == y);
                } else {
                    assert(t[m + 1] == y);
                }
            }
            if y == x {
                assert(t[p as int] == y);
            }
        }
    }
    let ghost before = v@;
    v.insert(p, w);
    assert(wits(v@) =~= wits(before).insert(p as int, wit(w)));
}

/// The primary site read off a row key.
pub open spec fn site_from_key(k: Key, g: VaultGranularity) -> (Seq<char>, VaultNoteKind, Seq<char>) {
    let f = k[0].0;
    if f == 0 {
        (k[1].1, VaultNoteKind::Subject, "subject"@)
    } else if f == 1 {
        if g == VaultGranularity::Full {
            (k[1].1, VaultNoteKind::Anchor, "anchor"@)
        } else {
            (k[2].1, VaultNoteKind::Subject, "anchors"@)
        }
    } else if f == 2 {
        (k[1].1, VaultNoteKind::Subject, "source-units"@)
    } else if f == 3 {
        (k[1].1, VaultNoteKind::Anchor, "declarations"@)
    } else if f == 4 {
        (k[1].1, VaultNoteKind::Anchor, "protocols"@)
    } else if f == 5 {
        (k[1].1, VaultNoteKind::Surface, "surface"@)
    } else if f == 6 {
        (k[1].1, VaultNoteKind::Specimen, "specimen"@)
    } else if f == 7 {
        (k[1].1, VaultNoteKind::Draft, "draft"@)
    } else if f == 8 {
        (k[1].1, VaultNoteKind::Feature, "feature"@)
    } else if f == 9 {
        (k[1].1, VaultNoteKind::Route, "route"@)
    } else {
        ("index/relations"@, VaultNoteKind::Index, "edges"@)
    }
}

proof fn lemma_site_from_key(a: IndexRow, g: VaultGranularity)
    ensures
        site_of(a, g) == site_from_key(row_key(a), g),
{
    let k = row_key(a);
    match a {
        IndexRow::Subject(x) => {
            assert(k[1] == crate::index::identity::txt(x.id@));
        },
        IndexRow::Anchor(x) => {
            assert(k[1] == crate::index::identity::txt(x.id@));
            assert(k[2] == crate::index::identity::txt(x.subject@));
        },
        IndexRow::SourceUnit(x) => {
            assert(k[1] == crate::index::identity::txt(x.subject@));
        },
        IndexRow::Declaration(x) => {
            assert(k[1] == crate::index::identity::txt(x.anchor@));
        },
        IndexRow::ProtocolRelation(x) => {
            assert(k[1] == crate::index::identity::txt(x.anchor@));
        },
        IndexRow::Surface(x) => {
            assert(k[1] == crate::index::identity::txt(x.id@));
        },
        IndexRow::Specimen(x) => {
            assert(k[1] == crate::index::identity::txt(x.id@));
        },
        IndexRow::Draft(x) => {
            assert(k[1] == crate::index::identity::txt(x.id@));
        },
        IndexRow::Feature(x) => {
            assert(k[1] == crate::index::identity::txt(x.id@));
        },
        IndexRow::Route(x) => {
            assert(k[1] == crate::index::identity::txt(x.id@));
        },
        IndexRow::Edge(x) => {},
    }
}

/// Rows with the same key have the same primary site.
pub proof fn lemma_site_by_key(a: IndexRow, b: IndexRow, g: VaultGranularity)
    requires
        row_key(a) == row_key(b),
    ensures
        site_of(a, g) == site_of(b, g),
{
    lemma_site_from_key(a, g);
    lemma_site_from_key(b, g);
}

proof fn lemma_claims_close_iff(
    canonical: Seq<IndexRow>,
    primary: Seq<(IndexRow, ClaimSite)>,
    derived: Seq<DerivedClaim>,
)
    requires
        claim_keys(primary) == keys_of(canonical),
        forall|y: Key| #[trigger]
            derived_keys(derived).contains(y) ==> keys_of(canonical).contains(y),
    ensures
        claims_close(keys_of(canonical), claim_keys(primary), derived_keys(derived)) <==> distinct(
            keys_of(canonical),
        ),
{
}

} // verus!
