//! Structural identity of index rows.
//!
//! Every row has a canonical key: a flat sequence of atoms, each a number
//! paired with a text, listing the row's family and then its fields in
//! declaration order. Optional values and lists carry a leading marker
//! (`0` for none or the end of a list, `1` before a present value or
//! element), so the layout of a key is fixed by its own prefix and two rows
//! have the same key exactly when they hold the same values. Keys are
//! ordered lexicographically, numbers before texts within one atom.

use vstd::prelude::*;

use crate::index::key::CanonicalFeatureKey;
use crate::index::model::{
    AnchorId, DeclarationFact, DeclarationRole, DiscoveredAnchor, DiscoveredSpecimen,
    DiscoveredSurface, FeatureDraft, FeatureRecord, GrammarContract, IndexEdge, ProtocolRelation,
    ProtocolResolution, RouteRecord, RouteStep, SourceCompleteness, SourceLocation,
    SourceReachability, SourceUnit, SpecimenId, SubjectRecord, SurfaceId, SyntaxBound,
    UnresolvedReason,
};
use crate::index::rows::IndexRow;
use crate::text::{seq_lt, lemma_seq_lt_asym, lemma_seq_lt_irreflexive, lemma_seq_lt_total, lemma_seq_lt_trans, str_eq, str_lt};

verus! {

/// One atom of a row key.
#[derive(Clone, Debug, PartialEq, Eq)]
pub struct KeyAtom {
    /// Numeric part (a marker, a variant index or a number field).
    pub num: u64,
    /// Text part (a text field; empty for numeric atoms).
    pub text: String,
}

/// Mathematical value of a [`KeyAtom`].
pub open spec fn atom_of(a: KeyAtom) -> (int, Seq<char>) {
    (a.num as int, a.text@)
}

/// Mathematical value of a key.
pub open spec fn atoms(v: Seq<KeyAtom>) -> Seq<(int, Seq<char>)> {
    v.map_values(|a: KeyAtom| atom_of(a))
}

/// A numeric atom.
pub open spec fn num(n: int) -> (int, Seq<char>) {
    (n, Seq::empty())
}

/// A text atom.
pub open spec fn txt(s: Seq<char>) -> (int, Seq<char>) {
    (0, s)
}

/// Text elements of a list, each behind a `1` marker.
pub open spec fn text_elems(v: Seq<String>) -> Seq<(int, Seq<char>)>
    decreases v.len(),
{
    if v.len() == 0 {
        Seq::empty()
    } else {
        text_elems(v.drop_last()) + seq![num(1), txt(v.last()@)]
    }
}

/// Anchor-id elements of a list, each behind a `1` marker.
pub open spec fn anchor_elems(v: Seq<AnchorId>) -> Seq<(int, Seq<char>)>
    decreases v.len(),
{
    if v.len() == 0 {
        Seq::empty()
    } else {
        anchor_elems(v.drop_last()) + seq![num(1), txt(v.last()@)]
    }
}

/// Surface-id elements of a list, each behind a `1` marker.
pub open spec fn surface_elems(v: Seq<SurfaceId>) -> Seq<(int, Seq<char>)>
    decreases v.len(),
{
    if v.len() == 0 {
        Seq::empty()
    } else {
        surface_elems(v.drop_last()) + seq![num(1), txt(v.last()@)]
    }
}

/// Specimen-id elements of a list, each behind a `1` marker.
pub open spec fn specimen_elems(v: Seq<SpecimenId>) -> Seq<(int, Seq<char>)>
    decreases v.len(),
{
    if v.len() == 0 {
        Seq::empty()
    } else {
        specimen_elems(v.drop_last()) + seq![num(1), txt(v.last()@)]
    }
}

/// Grammar-contract elements of a list, each behind a `1` marker.
pub open spec fn contract_elems(v: Seq<GrammarContract>) -> Seq<(int, Seq<char>)>
    decreases v.len(),
{
    if v.len() == 0 {
        Seq::empty()
    } else {
        contract_elems(v.drop_last()) + seq![num(1)] + contract_key(v.last())
    }
}

/// Route-step elements of a list, each behind a `1` marker.
pub open spec fn step_elems(v: Seq<RouteStep>) -> Seq<(int, Seq<char>)>
    decreases v.len(),
{
    if v.len() == 0 {
        Seq::empty()
    } else {
        step_elems(v.drop_last()) + seq![num(1)] + step_key(v.last())
    }
}

/// The end-of-list marker.
pub open spec fn end() -> Seq<(int, Seq<char>)> {
    seq![num(0)]
}

/// An optional text.
pub open spec fn opt_text_key(o: Option<String>) -> Seq<(int, Seq<char>)> {
    match o {
        None => seq![num(0)],
        Some(s) => seq![num(1), txt(s@)],
    }
}

/// An optional anchor id.
pub open spec fn opt_anchor_key(o: Option<AnchorId>) -> Seq<(int, Seq<char>)> {
    match o {
        None => seq![num(0)],
        Some(a) => seq![num(1), txt(a@)],
    }
}

/// An optional surface id.
pub open spec fn opt_surface_key(o: Option<SurfaceId>) -> Seq<(int, Seq<char>)> {
    match o {
        None => seq![num(0)],
        Some(a) => seq![num(1), txt(a@)],
    }
}

/// A boolean.
pub open spec fn flag(b: bool) -> (int, Seq<char>) {
    num(if b { 1 } else { 0 })
}

/// A syntax bound.
pub open spec fn bound_key(b: SyntaxBound) -> Seq<(int, Seq<char>)> {
    seq![num(b.max_bytes as int), flag(b.truncated)]
}

/// Variant index of a reachability.
pub open spec fn reach_index(r: SourceReachability) -> int {
    match r {
        SourceReachability::Reachable => 0,
        SourceReachability::Unreachable => 1,
    }
}

/// Variant index of a completeness.
pub open spec fn completeness_index(c: SourceCompleteness) -> int {
    match c {
        SourceCompleteness::Complete => 0,
        SourceCompleteness::Malformed => 1,
        SourceCompleteness::Unreadable => 2,
        SourceCompleteness::Truncated => 3,
        SourceCompleteness::Unsupported => 4,
        SourceCompleteness::Unresolved => 5,
    }
}

/// Variant index of a declaration role.
pub open spec fn role_index(r: DeclarationRole) -> int {
    match r {
        DeclarationRole::Const => 0,
        DeclarationRole::Enum => 1,
        DeclarationRole::Function => 2,
        DeclarationRole::Module => 3,
        DeclarationRole::ReExport => 4,
        DeclarationRole::Static => 5,
        DeclarationRole::Struct => 6,
        DeclarationRole::Trait => 7,
        DeclarationRole::TypeAlias => 8,
    }
}

/// Variant index of an unresolved reason.
pub open spec fn reason_index(r: UnresolvedReason) -> int {
    match r {
        UnresolvedReason::AmbiguousGlobImport => 0,
        UnresolvedReason::AmbiguousName => 1,
        UnresolvedReason::ExternalMetadataAbsent => 2,
    }
}

/// A protocol resolution.
pub open spec fn resolution_key(r: ProtocolResolution) -> Seq<(int, Seq<char>)> {
    match r {
        ProtocolResolution::Resolved { protocol } => seq![num(0), txt(protocol@)],
        ProtocolResolution::Unresolved { reason, candidates } => seq![
            num(1),
            num(reason_index(reason)),
        ] + text_elems(candidates@) + end(),
    }
}

/// A grammar contract.
pub open spec fn contract_key(c: GrammarContract) -> Seq<(int, Seq<char>)> {
    seq![txt(c.id@)] + opt_anchor_key(c.decoder) + opt_anchor_key(c.encoder) + opt_surface_key(
        c.surface,
    ) + seq![flag(c.round_trip)]
}

/// A route step.
pub open spec fn step_key(s: RouteStep) -> Seq<(int, Seq<char>)> {
    match s {
        RouteStep::Feature { id, why } => seq![num(0), txt(id@), txt(why@)],
        RouteStep::Specimen { id, why } => seq![num(1), txt(id@), txt(why@)],
    }
}

/// Fields of a subject record.
pub open spec fn subject_key(r: SubjectRecord) -> Seq<(int, Seq<char>)> {
    seq![txt(r.id@), txt(r.kind@), txt(r.title@)]
}

/// Fields of an anchor record.
pub open spec fn anchor_key(r: DiscoveredAnchor) -> Seq<(int, Seq<char>)> {
    seq![txt(r.id@), txt(r.subject@), txt(r.kind@)]
}

/// Fields of a source unit.
pub open spec fn unit_key(r: SourceUnit) -> Seq<(int, Seq<char>)> {
    seq![
        txt(r.subject@),
        txt(r.path@),
        num(reach_index(r.reachability)),
        num(completeness_index(r.completeness)),
        txt(r.reason@),
    ] + bound_key(r.retained_bound) + seq![num(r.declaration_count as int)]
}

/// Fields of a declaration fact.
pub open spec fn declaration_key(r: DeclarationFact) -> Seq<(int, Seq<char>)> {
    seq![txt(r.anchor@), num(role_index(r.role)), txt(r.path_in_crate@), txt(r.generics@)]
        + text_elems(r.members@) + end() + seq![
        txt(r.location.file@),
        num(r.location.declaration as int),
    ] + bound_key(r.syntax_bound)
}

/// Fields of a protocol relation.
pub open spec fn relation_key(r: ProtocolRelation) -> Seq<(int, Seq<char>)> {
    seq![txt(r.anchor@), txt(r.implementor@), txt(r.source_spelling@), txt(r.body_fingerprint@)]
        + bound_key(r.body_bound) + resolution_key(r.resolution)
}

/// Fields of a surface record.
pub open spec fn surface_key(r: DiscoveredSurface) -> Seq<(int, Seq<char>)> {
    seq![txt(r.id@), txt(r.subject@), txt(r.kind@)]
}

/// Fields of a specimen record.
pub open spec fn specimen_key(r: DiscoveredSpecimen) -> Seq<(int, Seq<char>)> {
    seq![txt(r.id@), txt(r.subject@), txt(r.kind@), txt(r.path@)] + opt_text_key(r.language)
        + seq![flag(r.runnable), flag(r.checked)] + opt_text_key(r.checked_by) + opt_anchor_key(
        r.doc_anchor,
    )
}

/// Fields of a feature draft.
pub open spec fn draft_key(r: FeatureDraft) -> Seq<(int, Seq<char>)> {
    seq![txt(r.id@), txt(r.subject@), txt(r.title@), txt(r.summary@)] + anchor_elems(r.claims_anchors@)
        + end() + surface_elems(r.claims_surfaces@) + end() + specimen_elems(r.claims_specimens@)
        + end() + text_elems(r.literal_anchors@) + end() + text_elems(r.literal_surfaces@) + end()
        + text_elems(r.literal_specimens@) + end() + contract_elems(r.grammar_contracts@) + end()
        + opt_anchor_key(r.doc_anchor)
}

/// Fields of a feature record.
pub open spec fn feature_key(r: FeatureRecord) -> Seq<(int, Seq<char>)> {
    seq![txt(r.id@), txt(r.key@), txt(r.subject@), txt(r.title@), txt(r.summary@)] + anchor_elems(r.anchors@)
        + end() + surface_elems(r.surfaces@) + end() + specimen_elems(r.specimens@) + end()
        + contract_elems(r.grammar_contracts@) + end() + opt_anchor_key(r.doc_anchor)
}

/// Fields of a route record.
pub open spec fn route_key(r: RouteRecord) -> Seq<(int, Seq<char>)> {
    seq![txt(r.id@), txt(r.title@)] + text_elems(r.audiences@) + end() + step_elems(r.steps@)
        + end() + opt_anchor_key(r.doc_anchor)
}

/// Fields of an edge.
pub open spec fn edge_key(r: IndexEdge) -> Seq<(int, Seq<char>)> {
    seq![txt(r.from@), txt(r.rel@), txt(r.to@)]
}

/// The canonical key of a row: its family index, then its fields.
pub open spec fn row_key(r: IndexRow) -> Seq<(int, Seq<char>)> {
    match r {
        IndexRow::Subject(x) => seq![num(0)] + subject_key(x),
        IndexRow::Anchor(x) => seq![num(1)] + anchor_key(x),
        IndexRow::SourceUnit(x) => seq![num(2)] + unit_key(x),
        IndexRow::Declaration(x) => seq![num(3)] + declaration_key(x),
        IndexRow::ProtocolRelation(x) => seq![num(4)] + relation_key(x),
        IndexRow::Surface(x) => seq![num(5)] + surface_key(x),
        IndexRow::Specimen(x) => seq![num(6)] + specimen_key(x),
        IndexRow::Draft(x) => seq![num(7)] + draft_key(x),
        IndexRow::Feature(x) => seq![num(8)] + feature_key(x),
        IndexRow::Route(x) => seq![num(9)] + route_key(x),
        IndexRow::Edge(x) => seq![num(10)] + edge_key(x),
    }
}

// ---------------------------------------------------------------------------
// Key order.

/// Order of atoms: by number, then by text.
pub open spec fn atom_lt(a: (int, Seq<char>), b: (int, Seq<char>)) -> bool {
    a.0 < b.0 || (a.0 == b.0 && seq_lt(a.1, b.1))
}

/// Lexicographic order of keys; a proper prefix comes first.
pub open spec fn key_lt(a: Seq<(int, Seq<char>)>, b: Seq<(int, Seq<char>)>) -> bool
    decreases a.len(),
{
    if b.len() == 0 {
        false
    } else if a.len() == 0 {
        true
    } else if a[0] != b[0] {
        atom_lt(a[0], b[0])
    } else {
        key_lt(a.drop_first(), b.drop_first())
    }
}

proof fn lemma_atom_lt_facts(a: (int, Seq<char>), b: (int, Seq<char>), c: (int, Seq<char>))
    ensures
        !atom_lt(a, a),
        !(atom_lt(a, b) && atom_lt(b, a)),
        atom_lt(a, b) && atom_lt(b, c) ==> atom_lt(a, c),
        a == b || atom_lt(a, b) || atom_lt(b, a),
{
    lemma_seq_lt_irreflexive(a.1);
    lemma_seq_lt_asym(a.1, b.1);
    lemma_seq_lt_total(a.1, b.1);
    if seq_lt(a.1, b.1) && seq_lt(b.1, c.1) {
        lemma_seq_lt_trans(a.1, b.1, c.1);
    }
}

/// No key precedes itself.
pub proof fn lemma_key_lt_irreflexive(a: Seq<(int, Seq<char>)>)
    ensures
        !key_lt(a, a),
    decreases a.len(),
{
    if a.len() > 0 {
        lemma_key_lt_irreflexive(a.drop_first());
    }
}

/// Two keys never precede each other.
pub proof fn lemma_key_lt_asym(a: Seq<(int, Seq<char>)>, b: Seq<(int, Seq<char>)>)
    ensures
        !(key_lt(a, b) && key_lt(b, a)),
    decreases a.len(),
{
    if a.len() > 0 && b.len() > 0 {
        if a[0] == b[0] {
            lemma_key_lt_asym(a.drop_first(), b.drop_first());
        } else {
            lemma_atom_lt_facts(a[0], b[0], b[0]);
        }
    }
}

/// Key order is transitive.
pub proof fn lemma_key_lt_trans(
    a: Seq<(int, Seq<char>)>,
    b: Seq<(int, Seq<char>)>,
    c: Seq<(int, Seq<char>)>,
)
    requires
        key_lt(a, b),
        key_lt(b, c),
    ensures
        key_lt(a, c),
    decreases a.len(),
{
    if a.len() > 0 && b.len() > 0 && c.len() > 0 {
        lemma_atom_lt_facts(a[0], b[0], c[0]);
        if a[0] == b[0] && b[0] == c[0] {
            lemma_key_lt_trans(a.drop_first(), b.drop_first(), c.drop_first());
        }
    }
}

/// Any two distinct keys are ordered one way or the other.
pub proof fn lemma_key_lt_total(a: Seq<(int, Seq<char>)>, b: Seq<(int, Seq<char>)>)
    ensures
        a == b || key_lt(a, b) || key_lt(b, a),
    decreases a.len(),
{
    if a.len() > 0 && b.len() > 0 {
        lemma_atom_lt_facts(a[0], b[0], b[0]);
        if a[0] == b[0] {
            lemma_key_lt_total(a.drop_first(), b.drop_first());
            if a.drop_first() == b.drop_first() {
                assert(a =~= seq![a[0]] + a.drop_first());
                assert(b =~= seq![b[0]] + b.drop_first());
            }
        }
    } else if a.len() == 0 && b.len() == 0 {
        assert(a =~= b);
    }
}

/// Decides whether two keys are equal.
pub fn key_eq(a: &Vec<KeyAtom>, b: &Vec<KeyAtom>) -> (r: bool)
    ensures
        r == (atoms(a@) == atoms(b@)),
{
    if a.len() != b.len() {
        assert(atoms(a@).len() != atoms(b@).len());
        return false;
    }
    let mut k: usize = 0;
    while k < a.len()
        invariant
            k <= a.len(),
            a.len() == b.len(),
            forall|j: int| 0 <= j < k ==> atom_of(a@[j]) == atom_of(b@[j]),
        decreases a.len() - k,
    {
        if a[k].num != b[k].num || !str_eq(a[k].text.as_str(), b[k].text.as_str()) {
            assert(atoms(a@)[k as int] != atoms(b@)[k as int]);
            return false;
        }
        k += 1;
    }
    assert(atoms(a@) =~= atoms(b@));
    true
}

/// Decides [`key_lt`].
pub fn key_less(a: &Vec<KeyAtom>, b: &Vec<KeyAtom>) -> (r: bool)
    ensures
        r == key_lt(atoms(a@), atoms(b@)),
{
    let ghost x = atoms(a@);
    let ghost y = atoms(b@);
    let mut k: usize = 0;
    assert(x.skip(0) =~= x);
    assert(y.skip(0) =~= y);
    while k < a.len() && k < b.len()
        invariant
            k <= a.len(),
            k <= b.len(),
            x == atoms(a@),
            y == atoms(b@),
            key_lt(x, y) == key_lt(x.skip(k as int), y.skip(k as int)),
        decreases a.len() - k,
    {
        let same = a[k].num == b[k].num && str_eq(a[k].text.as_str(), b[k].text.as_str());
        if !same {
            assert(x.skip(k as int)[0] == x[k as int]);
            assert(y.skip(k as int)[0] == y[k as int]);
            let r = a[k].num < b[k].num || (a[k].num == b[k].num && str_lt(
                a[k].text.as_str(),
                b[k].text.as_str(),
            ));
            return r;
        }
        assert(x.skip(k as int).drop_first() =~= x.skip(k + 1));
        assert(y.skip(k as int).drop_first() =~= y.skip(k + 1));
        k += 1;
    }
    k < b.len()
}

/// Decides [`key_lt`] between the keys made of three texts each.
pub fn key_less_parts(a0: &str, a1: &str, a2: &str, b0: &str, b1: &str, b2: &str) -> (r: bool)
    ensures
        r == key_lt(seq![txt(a0@), txt(a1@), txt(a2@)], seq![txt(b0@), txt(b1@), txt(b2@)]),
{
    let ghost x = seq![txt(a0@), txt(a1@), txt(a2@)];
    let ghost y = seq![txt(b0@), txt(b1@), txt(b2@)];
    assert(x.drop_first() =~= seq![txt(a1@), txt(a2@)]);
    assert(y.drop_first() =~= seq![txt(b1@), txt(b2@)]);
    assert(x.drop_first().drop_first() =~= seq![txt(a2@)]);
    assert(y.drop_first().drop_first() =~= seq![txt(b2@)]);
    assert(x.drop_first().drop_first().drop_first() =~= Seq::<(int, Seq<char>)>::empty());
    assert(y.drop_first().drop_first().drop_first() =~= Seq::<(int, Seq<char>)>::empty());
    if !str_eq(a0, b0) {
        assert(x[0] != y[0]);
        return str_lt(a0, b0);
    }
    assert(x[0] == y[0]);
    assert(key_lt(x, y) == key_lt(x.drop_first(), y.drop_first()));
    if !str_eq(a1, b1) {
        assert(x.drop_first()[0] != y.drop_first()[0]);
        return str_lt(a1, b1);
    }
    let ghost x1 = x.drop_first();
    let ghost y1 = y.drop_first();
    assert(x1[0] == y1[0]);
    assert(key_lt(x1, y1) == key_lt(x1.drop_first(), y1.drop_first()));
    let ghost x2 = x1.drop_first();
    let ghost y2 = y1.drop_first();
    if !str_eq(a2, b2) {
        assert(x2[0] != y2[0]);
        return str_lt(a2, b2);
    }
    assert(x2[0] == y2[0]);
    assert(key_lt(x2, y2) == key_lt(x2.drop_first(), y2.drop_first()));
    false
}

// ---------------------------------------------------------------------------
// Computing keys.

proof fn lemma_atoms_push(v: Seq<KeyAtom>, a: KeyAtom)
    ensures
        atoms(v.push(a)) == atoms(v).push(atom_of(a)),
{
    assert(atoms(v.push(a)) =~= atoms(v).push(atom_of(a)));
}

fn push_num(out: &mut Vec<KeyAtom>, n: u64)
    ensures
        atoms(final(out)@) == atoms(old(out)@) + seq![num(n as int)],
{
    let a = KeyAtom { num: n, text: String::new() };
    let ghost before = out@;
    proof {
        lemma_atoms_push(before, a);
    }
    out.push(a);
    assert(a.text@ =~= Seq::<char>::empty());
    assert(atoms(out@) =~= atoms(before) + seq![num(n as int)]);
}

pub(crate) fn push_text(out: &mut Vec<KeyAtom>, s: &str)
    ensures
        atoms(final(out)@) == atoms(old(out)@) + seq![txt(s@)],
{
    let a = KeyAtom { num: 0, text: s.to_owned() };
    let ghost before = out@;
    proof {
        lemma_atoms_push(before, a);
    }
    out.push(a);
    assert(atoms(out@) =~= atoms(before) + seq![txt(s@)]);
}

fn push_flag(out: &mut Vec<KeyAtom>, b: bool)
    ensures
        atoms(final(out)@) == atoms(old(out)@) + seq![flag(b)],
{
    if b {
        push_num(out, 1);
    } else {
        push_num(out, 0);
    }
}

fn push_bound(out: &mut Vec<KeyAtom>, b: SyntaxBound)
    ensures
        atoms(final(out)@) == atoms(old(out)@) + bound_key(b),
{
    let ghost before = atoms(out@);
    push_num(out, b.max_bytes as u64);
    push_flag(out, b.truncated);
    assert(atoms(out@) =~= before + bound_key(b));
}

fn push_opt_text(out: &mut Vec<KeyAtom>, o: &Option<String>)
    ensures
        atoms(final(out)@) == atoms(old(out)@) + opt_text_key(*o),
{
    let ghost before = atoms(out@);
    match o {
        Some(s) => {
            push_num(out, 1);
            push_text(out, s.as_str());
        },
        None => {
            push_num(out, 0);
        },
    }
    assert(atoms(out@) =~= before + opt_text_key(*o));
}

fn push_opt_anchor(out: &mut Vec<KeyAtom>, o: &Option<AnchorId>)
    ensures
        atoms(final(out)@) == atoms(old(out)@) + opt_anchor_key(*o),
{
    let ghost before = atoms(out@);
    match o {
        Some(s) => {
            push_num(out, 1);
            push_text(out, s.as_str());
        },
        None => {
            push_num(out, 0);
        },
    }
    assert(atoms(out@) =~= before + opt_anchor_key(*o));
}

fn push_opt_surface(out: &mut Vec<KeyAtom>, o: &Option<SurfaceId>)
    ensures
        atoms(final(out)@) == atoms(old(out)@) + opt_surface_key(*o),
{
    let ghost before = atoms(out@);
    match o {
        Some(s) => {
            push_num(out, 1);
            push_text(out, s.as_str());
        },
        None => {
            push_num(out, 0);
        },
    }
    assert(atoms(out@) =~= before + opt_surface_key(*o));
}

fn push_texts(out: &mut Vec<KeyAtom>, v: &Vec<String>)
    ensures
        atoms(final(out)@) == atoms(old(out)@) + text_elems(v@) + end(),
{
    let ghost before = atoms(out@);
    let mut i: usize = 0;
    while i < v.len()
        invariant
            i <= v.len(),
            atoms(out@) == before + text_elems(v@.take(i as int)),
        decreases v.len() - i,
    {
        push_num(out, 1);
        push_text(out, v[i].as_str());
        assert(v@.take(i + 1).drop_last() =~= v@.take(i as int));
        assert(atoms(out@) =~= before + text_elems(v@.take(i + 1)));
        i += 1;
    }
    push_num(out, 0);
    assert(v@.take(v.len() as int) =~= v@);
    assert(atoms(out@) =~= before + text_elems(v@) + end());
}

fn push_anchor_ids(out: &mut Vec<KeyAtom>, v: &Vec<AnchorId>)
    ensures
        atoms(final(out)@) == atoms(old(out)@) + anchor_elems(v@) + end(),
{
    let ghost before = atoms(out@);
    let mut i: usize = 0;
    while i < v.len()
        invariant
            i <= v.len(),
            atoms(out@) == before + anchor_elems(v@.take(i as int)),
        decreases v.len() - i,
    {
        push_num(out, 1);
        push_text(out, v[i].as_str());
        assert(v@.take(i + 1).drop_last() =~= v@.take(i as int));
        assert(atoms(out@) =~= before + anchor_elems(v@.take(i + 1)));
        i += 1;
    }
    push_num(out, 0);
    assert(v@.take(v.len() as int) =~= v@);
    assert(atoms(out@) =~= before + anchor_elems(v@) + end());
}

fn push_surface_ids(out: &mut Vec<KeyAtom>, v: &Vec<SurfaceId>)
    ensures
        atoms(final(out)@) == atoms(old(out)@) + surface_elems(v@) + end(),
{
    let ghost before = atoms(out@);
    let mut i: usize = 0;
    while i < v.len()
        invariant
            i <= v.len(),
            atoms(out@) == before + surface_elems(v@.take(i as int)),
        decreases v.len() - i,
    {
        push_num(out, 1);
        push_text(out, v[i].as_str());
        assert(v@.take(i + 1).drop_last() =~= v@.take(i as int));
        assert(atoms(out@) =~= before + surface_elems(v@.take(i + 1)));
        i += 1;
    }
    push_num(out, 0);
    assert(v@.take(v.len() as int) =~= v@);
    assert(atoms(out@) =~= before + surface_elems(v@) + end());
}

fn push_specimen_ids(out: &mut Vec<KeyAtom>, v: &Vec<SpecimenId>)
    ensures
        atoms(final(out)@) == atoms(old(out)@) + specimen_elems(v@) + end(),
{
    let ghost before = atoms(out@);
    let mut i: usize = 0;
    while i < v.len()
        invariant
            i <= v.len(),
            atoms(out@) == before + specimen_elems(v@.take(i as int)),
        decreases v.len() - i,
    {
        push_num(out, 1);
        push_text(out, v[i].as_str());
        assert(v@.take(i + 1).drop_last() =~= v@.take(i as int));
        assert(atoms(out@) =~= before + specimen_elems(v@.take(i + 1)));
        i += 1;
    }
    push_num(out, 0);
    assert(v@.take(v.len() as int) =~= v@);
    assert(atoms(out@) =~= before + specimen_elems(v@) + end());
}

fn push_contract(out: &mut Vec<KeyAtom>, c: &GrammarContract)
    ensures
        atoms(final(out)@) == atoms(old(out)@) + contract_key(*c),
{
    let ghost before = atoms(out@);
    push_text(out, c.id.as_str());
    push_opt_anchor(out, &c.decoder);
    push_opt_anchor(out, &c.encoder);
    push_opt_surface(out, &c.surface);
    push_flag(out, c.round_trip);
    assert(atoms(out@) =~= before + contract_key(*c));
}

fn push_contracts(out: &mut Vec<KeyAtom>, v: &Vec<GrammarContract>)
    ensures
        atoms(final(out)@) == atoms(old(out)@) + contract_elems(v@) + end(),
{
    let ghost before = atoms(out@);
    let mut i: usize = 0;
    while i < v.len()
        invariant
            i <= v.len(),
            atoms(out@) == before + contract_elems(v@.take(i as int)),
        decreases v.len() - i,
    {
        push_num(out, 1);
        push_contract(out, &v[i]);
        assert(v@.take(i + 1).drop_last() =~= v@.take(i as int));
        assert(atoms(out@) =~= before + contract_elems(v@.take(i + 1)));
        i += 1;
    }
    push_num(out, 0);
    assert(v@.take(v.len() as int) =~= v@);
    assert(atoms(out@) =~= before + contract_elems(v@) + end());
}

fn push_step(out: &mut Vec<KeyAtom>, st: &RouteStep)
    ensures
        atoms(final(out)@) == atoms(old(out)@) + step_key(*st),
{
    let ghost before = atoms(out@);
    match st {
        RouteStep::Feature { id, why } => {
            push_num(out, 0);
            push_text(out, id.as_str());
            push_text(out, why.as_str());
        },
        RouteStep::Specimen { id, why } => {
            push_num(out, 1);
            push_text(out, id.as_str());
            push_text(out, why.as_str());
        },
    }
    assert(atoms(out@) =~= before + step_key(*st));
}

fn push_steps(out: &mut Vec<KeyAtom>, v: &Vec<RouteStep>)
    ensures
        atoms(final(out)@) == atoms(old(out)@) + step_elems(v@) + end(),
{
    let ghost before = atoms(out@);
    let mut i: usize = 0;
    while i < v.len()
        invariant
            i <= v.len(),
            atoms(out@) == before + step_elems(v@.take(i as int)),
        decreases v.len() - i,
    {
        push_num(out, 1);
        push_step(out, &v[i]);
        assert(v@.take(i + 1).drop_last() =~= v@.take(i as int));
        assert(atoms(out@) =~= before + step_elems(v@.take(i + 1)));
        i += 1;
    }
    push_num(out, 0);
    assert(v@.take(v.len() as int) =~= v@);
    assert(atoms(out@) =~= before + step_elems(v@) + end());
}

fn push_resolution(out: &mut Vec<KeyAtom>, r: &ProtocolResolution)
    ensures
        atoms(final(out)@) == atoms(old(out)@) + resolution_key(*r),
{
    let ghost before = atoms(out@);
    match r {
        ProtocolResolution::Resolved { protocol } => {
            push_num(out, 0);
            push_text(out, protocol.as_str());
        },
        ProtocolResolution::Unresolved { reason, candidates } => {
            push_num(out, 1);
            let n: u64 = match reason {
                UnresolvedReason::AmbiguousGlobImport => 0,
                UnresolvedReason::AmbiguousName => 1,
                UnresolvedReason::ExternalMetadataAbsent => 2,
            };
            push_num(out, n);
            push_texts(out, candidates);
        },
    }
    assert(atoms(out@) =~= before + resolution_key(*r));
}

fn reach_num(r: SourceReachability) -> (n: u64)
    ensures
        n == reach_index(r),
{
    match r {
        SourceReachability::Reachable => 0,
        SourceReachability::Unreachable => 1,
    }
}

fn completeness_num(c: SourceCompleteness) -> (n: u64)
    ensures
        n == completeness_index(c),
{
    match c {
        SourceCompleteness::Complete => 0,
        SourceCompleteness::Malformed => 1,
        SourceCompleteness::Unreadable => 2,
        SourceCompleteness::Truncated => 3,
        SourceCompleteness::Unsupported => 4,
        SourceCompleteness::Unresolved => 5,
    }
}

fn role_num(r: DeclarationRole) -> (n: u64)
    ensures
        n == role_index(r),
{
    match r {
        DeclarationRole::Const => 0,
        DeclarationRole::Enum => 1,
        DeclarationRole::Function => 2,
        DeclarationRole::Module => 3,
        DeclarationRole::ReExport => 4,
        DeclarationRole::Static => 5,
        DeclarationRole::Struct => 6,
        DeclarationRole::Trait => 7,
        DeclarationRole::TypeAlias => 8,
    }
}

fn push_subject_fields(out: &mut Vec<KeyAtom>, x: &SubjectRecord)
    ensures
        atoms(final(out)@) == atoms(old(out)@) + subject_key(*x),
{
    let ghost before = atoms(out@);
    push_text(out, x.id.as_str());
    push_text(out, x.kind.as_str());
    push_text(out, x.title.as_str());
    assert(atoms(out@) =~= before + subject_key(*x));
}

fn push_anchor_fields(out: &mut Vec<KeyAtom>, x: &DiscoveredAnchor)
    ensures
        atoms(final(out)@) == atoms(old(out)@) + anchor_key(*x),
{
    let ghost before = atoms(out@);
    push_text(out, x.id.as_str());
    push_text(out, x.subject.as_str());
    push_text(out, x.kind.as_str());
    assert(atoms(out@) =~= before + anchor_key(*x));
}

fn push_unit_fields(out: &mut Vec<KeyAtom>, x: &SourceUnit)
    ensures
        atoms(final(out)@) == atoms(old(out)@) + unit_key(*x),
{
    let ghost before = atoms(out@);
    push_text(out, x.subject.as_str());
    push_text(out, x.path.as_str());
    push_num(out, reach_num(x.reachability));
    push_num(out, completeness_num(x.completeness));
    push_text(out, x.reason.as_str());
    push_bound(out, x.retained_bound);
    push_num(out, x.declaration_count as u64);
    assert(atoms(out@) =~= before + unit_key(*x));
}

fn push_declaration_fields(out: &mut Vec<KeyAtom>, x: &DeclarationFact)
    ensures
        atoms(final(out)@) == atoms(old(out)@) + declaration_key(*x),
{
    let ghost before = atoms(out@);
    push_text(out, x.anchor.as_str());
    push_num(out, role_num(x.role));
    push_text(out, x.path_in_crate.as_str());
    push_text(out, x.generics.as_str());
    push_texts(out, &x.members);
    push_text(out, x.location.file.as_str());
    push_num(out, x.location.declaration as u64);
    push_bound(out, x.syntax_bound);
    assert(atoms(out@) =~= before + declaration_key(*x));
}

fn push_relation_fields(out: &mut Vec<KeyAtom>, x: &ProtocolRelation)
    ensures
        atoms(final(out)@) == atoms(old(out)@) + relation_key(*x),
{
    let ghost before = atoms(out@);
    push_text(out, x.anchor.as_str());
    push_text(out, x.implementor.as_str());
    push_text(out, x.source_spelling.as_str());
    push_text(out, x.body_fingerprint.as_str());
    push_bound(out, x.body_bound);
    push_resolution(out, &x.resolution);
    assert(atoms(out@) =~= before + relation_key(*x));
}

fn push_surface_fields(out: &mut Vec<KeyAtom>, x: &DiscoveredSurface)
    ensures
        atoms(final(out)@) == atoms(old(out)@) + surface_key(*x),
{
    let ghost before = atoms(out@);
    push_text(out, x.id.as_str());
    push_text(out, x.subject.as_str());
    push_text(out, x.kind.as_str());
    assert(atoms(out@) =~= before + surface_key(*x));
}

#[verifier::rlimit(30)]
fn push_specimen_fields(out: &mut Vec<KeyAtom>, x: &DiscoveredSpecimen)
    ensures
        atoms(final(out)@) == atoms(old(out)@) + specimen_key(*x),
{
    let ghost before = atoms(out@);
    push_text(out, x.id.as_str());
    push_text(out, x.subject.as_str());
    push_text(out, x.kind.as_str());
    push_text(out, x.path.as_str());
    push_opt_text(out, &x.language);
    push_flag(out, x.runnable);
    push_flag(out, x.checked);
    push_opt_text(out, &x.checked_by);
    push_opt_anchor(out, &x.doc_anchor);
    assert(atoms(out@) =~= before + specimen_key(*x));
}

#[verifier::rlimit(50)]
fn push_draft_fields(out: &mut Vec<KeyAtom>, x: &FeatureDraft)
    ensures
        atoms(final(out)@) == atoms(old(out)@) + draft_key(*x),
{
    let ghost before = atoms(out@);
    push_text(out, x.id.as_str());
    push_text(out, x.subject.as_str());
    push_text(out, x.title.as_str());
    push_text(out, x.summary.as_str());
    push_anchor_ids(out, &x.claims_anchors);
    push_surface_ids(out, &x.claims_surfaces);
    push_specimen_ids(out, &x.claims_specimens);
    push_texts(out, &x.literal_anchors);
    push_texts(out, &x.literal_surfaces);
    push_texts(out, &x.literal_specimens);
    push_contracts(out, &x.grammar_contracts);
    push_opt_anchor(out, &x.doc_anchor);
    assert(atoms(out@) =~= before + draft_key(*x));
}

#[verifier::rlimit(50)]
fn push_feature_fields(out: &mut Vec<KeyAtom>, x: &FeatureRecord)
    ensures
        atoms(final(out)@) == atoms(old(out)@) + feature_key(*x),
{
    let ghost before = atoms(out@);
    push_text(out, x.id.as_str());
    push_text(out, x.key.as_str());
    push_text(out, x.subject.as_str());
    push_text(out, x.title.as_str());
    push_text(out, x.summary.as_str());
    push_anchor_ids(out, &x.anchors);
    push_surface_ids(out, &x.surfaces);
    push_specimen_ids(out, &x.specimens);
    push_contracts(out, &x.grammar_contracts);
    push_opt_anchor(out, &x.doc_anchor);
    assert(atoms(out@) =~= before + feature_key(*x));
}

fn push_route_fields(out: &mut Vec<KeyAtom>, x: &RouteRecord)
    ensures
        atoms(final(out)@) == atoms(old(out)@) + route_key(*x),
{
    let ghost before = atoms(out@);
    push_text(out, x.id.as_str());
    push_text(out, x.title.as_str());
    push_texts(out, &x.audiences);
    push_steps(out, &x.steps);
    push_opt_anchor(out, &x.doc_anchor);
    assert(atoms(out@) =~= before + route_key(*x));
}

fn push_edge_fields(out: &mut Vec<KeyAtom>, x: &IndexEdge)
    ensures
        atoms(final(out)@) == atoms(old(out)@) + edge_key(*x),
{
    let ghost before = atoms(out@);
    push_text(out, x.from.as_str());
    push_text(out, x.rel.as_str());
    push_text(out, x.to.as_str());
    assert(atoms(out@) =~= before + edge_key(*x));
}

/// Computes the canonical key of a row.
pub fn row_key_of(row: &IndexRow) -> (k: Vec<KeyAtom>)
    ensures
        atoms(k@) == row_key(*row),
{
    let mut out: Vec<KeyAtom> = Vec::new();
    assert(atoms(out@) =~= Seq::empty());
    match row {
        IndexRow::Subject(x) => {
            push_num(&mut out, 0);
            push_subject_fields(&mut out, x);
        },
        IndexRow::Anchor(x) => {
            push_num(&mut out, 1);
            push_anchor_fields(&mut out, x);
        },
        IndexRow::SourceUnit(x) => {
            push_num(&mut out, 2);
            push_unit_fields(&mut out, x);
        },
        IndexRow::Declaration(x) => {
            push_num(&mut out, 3);
            push_declaration_fields(&mut out, x);
        },
        IndexRow::ProtocolRelation(x) => {
            push_num(&mut out, 4);
            push_relation_fields(&mut out, x);
        },
        IndexRow::Surface(x) => {
            push_num(&mut out, 5);
            push_surface_fields(&mut out, x);
        },
        IndexRow::Specimen(x) => {
            push_num(&mut out, 6);
            push_specimen_fields(&mut out, x);
        },
        IndexRow::Draft(x) => {
            push_num(&mut out, 7);
            push_draft_fields(&mut out, x);
        },
        IndexRow::Feature(x) => {
            push_num(&mut out, 8);
            push_feature_fields(&mut out, x);
        },
        IndexRow::Route(x) => {
            push_num(&mut out, 9);
            push_route_fields(&mut out, x);
        },
        IndexRow::Edge(x) => {
            push_num(&mut out, 10);
            push_edge_fields(&mut out, x);
        },
    }
    assert(atoms(out@) =~= row_key(*row));
    out
}

// ---------------------------------------------------------------------------
// Exact copies.

/// Copies a list of texts exactly.
pub fn copy_texts(v: &Vec<String>) -> (r: Vec<String>)
    ensures
        r@ == v@,
{
    let mut r: Vec<String> = Vec::new();
    let mut i: usize = 0;
    while i < v.len()
        invariant
            i <= v.len(),
            r@ == v@.take(i as int),
        decreases v.len() - i,
    {
        r.push(v[i].clone());
        assert(r@ =~= v@.take(i + 1));
        i += 1;
    }
    assert(v@.take(v.len() as int) =~= v@);
    r
}

fn copy_opt_text(o: &Option<String>) -> (r: Option<String>)
    ensures
        r == *o,
{
    match o {
        Some(s) => Some(s.clone()),
        None => None,
    }
}

fn copy_opt_anchor(o: &Option<AnchorId>) -> (r: Option<AnchorId>)
    ensures
        r == *o,
{
    match o {
        Some(s) => Some(s.copy()),
        None => None,
    }
}

fn copy_opt_surface(o: &Option<SurfaceId>) -> (r: Option<SurfaceId>)
    ensures
        r == *o,
{
    match o {
        Some(s) => Some(s.copy()),
        None => None,
    }
}

fn copy_anchor_ids(v: &Vec<AnchorId>) -> (r: Vec<AnchorId>)
    ensures
        r@ == v@,
{
    let mut r: Vec<AnchorId> = Vec::new();
    let mut i: usize = 0;
    while i < v.len()
        invariant
            i <= v.len(),
            r@ == v@.take(i as int),
        decreases v.len() - i,
    {
        r.push(v[i].copy());
        assert(r@ =~= v@.take(i + 1));
        i += 1;
    }
    assert(v@.take(v.len() as int) =~= v@);
    r
}

fn copy_surface_ids(v: &Vec<SurfaceId>) -> (r: Vec<SurfaceId>)
    ensures
        r@ == v@,
{
    let mut r: Vec<SurfaceId> = Vec::new();
    let mut i: usize = 0;
    while i < v.len()
        invariant
            i <= v.len(),
            r@ == v@.take(i as int),
        decreases v.len() - i,
    {
        r.push(v[i].copy());
        assert(r@ =~= v@.take(i + 1));
        i += 1;
    }
    assert(v@.take(v.len() as int) =~= v@);
    r
}

fn copy_specimen_ids(v: &Vec<SpecimenId>) -> (r: Vec<SpecimenId>)
    ensures
        r@ == v@,
{
    let mut r: Vec<SpecimenId> = Vec::new();
    let mut i: usize = 0;
    while i < v.len()
        invariant
            i <= v.len(),
            r@ == v@.take(i as int),
        decreases v.len() - i,
    {
        r.push(v[i].copy());
        assert(r@ =~= v@.take(i + 1));
        i += 1;
    }
    assert(v@.take(v.len() as int) =~= v@);
    r
}

impl GrammarContract {
    /// An exact copy.
    pub fn copy(&self) -> (r: GrammarContract)
        ensures
            r == *self,
    {
        GrammarContract {
            id: self.id.clone(),
            decoder: copy_opt_anchor(&self.decoder),
            encoder: copy_opt_anchor(&self.encoder),
            surface: copy_opt_surface(&self.surface),
            round_trip: self.round_trip,
        }
    }
}

fn copy_contracts(v: &Vec<GrammarContract>) -> (r: Vec<GrammarContract>)
    ensures
        r@ == v@,
{
    let mut r: Vec<GrammarContract> = Vec::new();
    let mut i: usize = 0;
    while i < v.len()
        invariant
            i <= v.len(),
            r@ == v@.take(i as int),
        decreases v.len() - i,
    {
        r.push(v[i].copy());
        assert(r@ =~= v@.take(i + 1));
        i += 1;
    }
    assert(v@.take(v.len() as int) =~= v@);
    r
}

impl RouteStep {
    /// An exact copy.
    pub fn copy(&self) -> (r: RouteStep)
        ensures
            r == *self,
    {
        match self {
            RouteStep::Feature { id, why } => RouteStep::Feature { id: id.copy(), why: why.clone() },
            RouteStep::Specimen { id, why } => RouteStep::Specimen {
                id: id.copy(),
                why: why.clone(),
            },
        }
    }
}

fn copy_steps(v: &Vec<RouteStep>) -> (r: Vec<RouteStep>)
    ensures
        r@ == v@,
{
    let mut r: Vec<RouteStep> = Vec::new();
    let mut i: usize = 0;
    while i < v.len()
        invariant
            i <= v.len(),
            r@ == v@.take(i as int),
        decreases v.len() - i,
    {
        r.push(v[i].copy());
        assert(r@ =~= v@.take(i + 1));
        i += 1;
    }
    assert(v@.take(v.len() as int) =~= v@);
    r
}

impl ProtocolResolution {
    /// An exact copy.
    pub fn copy(&self) -> (r: ProtocolResolution)
        ensures
            resolution_key(r) == resolution_key(*self),
    {
        match self {
            ProtocolResolution::Resolved { protocol } => ProtocolResolution::Resolved {
                protocol: protocol.clone(),
            },
            ProtocolResolution::Unresolved { reason, candidates } => ProtocolResolution::Unresolved {
                reason: *reason,
                candidates: copy_texts(candidates),
            },
        }
    }
}

impl SubjectRecord {
    /// A copy with the same key.
    pub fn copy(&self) -> (r: SubjectRecord)
        ensures
            subject_key(r) == subject_key(*self),
    {
        SubjectRecord { id: self.id.copy(), kind: self.kind.clone(), title: self.title.clone() }
    }
}

impl DiscoveredAnchor {
    /// A copy with the same key.
    pub fn copy(&self) -> (r: DiscoveredAnchor)
        ensures
            anchor_key(r) == anchor_key(*self),
    {
        DiscoveredAnchor { id: self.id.copy(), subject: self.subject.copy(), kind: self.kind.clone() }
    }
}

impl SourceUnit {
    /// A copy with the same key.
    pub fn copy(&self) -> (r: SourceUnit)
        ensures
            unit_key(r) == unit_key(*self),
    {
        SourceUnit {
                    subject: self.subject.copy(),
                    path: self.path.clone(),
                    reachability: self.reachability,
                    completeness: self.completeness,
                    reason: self.reason.clone(),
                    retained_bound: self.retained_bound,
                    declaration_count: self.declaration_count,
                }
    }
}

impl DeclarationFact {
    /// A copy with the same key.
    pub fn copy(&self) -> (r: DeclarationFact)
        ensures
            declaration_key(r) == declaration_key(*self),
    {
        DeclarationFact {
                    anchor: self.anchor.copy(),
                    role: self.role,
                    path_in_crate: self.path_in_crate.clone(),
                    generics: self.generics.clone(),
                    members: copy_texts(&self.members),
                    location: SourceLocation {
                        file: self.location.file.clone(),
                        declaration: self.location.declaration,
                    },
                    syntax_bound: self.syntax_bound,
                }
    }
}

impl ProtocolRelation {
    /// A copy with the same key.
    pub fn copy(&self) -> (r: ProtocolRelation)
        ensures
            relation_key(r) == relation_key(*self),
    {
        ProtocolRelation {
                    anchor: self.anchor.copy(),
                    implementor: self.implementor.clone(),
                    source_spelling: self.source_spelling.clone(),
                    body_fingerprint: self.body_fingerprint.clone(),
                    body_bound: self.body_bound,
                    resolution: self.resolution.copy(),
                }
    }
}

impl DiscoveredSurface {
    /// A copy with the same key.
    pub fn copy(&self) -> (r: DiscoveredSurface)
        ensures
            surface_key(r) == surface_key(*self),
    {
        DiscoveredSurface { id: self.id.copy(), subject: self.subject.copy(), kind: self.kind.clone() }
    }
}

impl DiscoveredSpecimen {
    /// A copy with the same key.
    pub fn copy(&self) -> (r: DiscoveredSpecimen)
        ensures
            specimen_key(r) == specimen_key(*self),
    {
        DiscoveredSpecimen {
                    id: self.id.copy(),
                    subject: self.subject.copy(),
                    kind: self.kind.clone(),
                    path: self.path.clone(),
                    language: copy_opt_text(&self.language),
                    runnable: self.runnable,
                    checked: self.checked,
                    checked_by: copy_opt_text(&self.checked_by),
                    doc_anchor: copy_opt_anchor(&self.doc_anchor),
                }
    }
}

impl FeatureDraft {
    /// A copy with the same key.
    pub fn copy(&self) -> (r: FeatureDraft)
        ensures
            draft_key(r) == draft_key(*self),
    {
        FeatureDraft {
                    id: self.id.copy(),
                    subject: self.subject.copy(),
                    title: self.title.clone(),
                    summary: self.summary.clone(),
                    claims_anchors: copy_anchor_ids(&self.claims_anchors),
                    claims_surfaces: copy_surface_ids(&self.claims_surfaces),
                    claims_specimens: copy_specimen_ids(&self.claims_specimens),
                    literal_anchors: copy_texts(&self.literal_anchors),
                    literal_surfaces: copy_texts(&self.literal_surfaces),
                    literal_specimens: copy_texts(&self.literal_specimens),
                    grammar_contracts: copy_contracts(&self.grammar_contracts),
                    doc_anchor: copy_opt_anchor(&self.doc_anchor),
                }
    }
}

impl FeatureRecord {
    /// A copy with the same key.
    pub fn copy(&self) -> (r: FeatureRecord)
        ensures
            feature_key(r) == feature_key(*self),
    {
        FeatureRecord {
                    id: self.id.copy(),
                    key: self.key.copy(),
                    subject: self.subject.copy(),
                    title: self.title.clone(),
                    summary: self.summary.clone(),
                    anchors: copy_anchor_ids(&self.anchors),
                    surfaces: copy_surface_ids(&self.surfaces),
                    specimens: copy_specimen_ids(&self.specimens),
                    grammar_contracts: copy_contracts(&self.grammar_contracts),
                    doc_anchor: copy_opt_anchor(&self.doc_anchor),
                }
    }
}

impl RouteRecord {
    /// A copy with the same key.
    pub fn copy(&self) -> (r: RouteRecord)
        ensures
            route_key(r) == route_key(*self),
    {
        RouteRecord {
                    id: self.id.copy(),
                    title: self.title.clone(),
                    audiences: copy_texts(&self.audiences),
                    steps: copy_steps(&self.steps),
                    doc_anchor: copy_opt_anchor(&self.doc_anchor),
                }
    }
}

impl IndexEdge {
    /// A copy with the same key.
    pub fn copy(&self) -> (r: IndexEdge)
        ensures
            edge_key(r) == edge_key(*self),
    {
        IndexEdge { from: self.from.clone(), rel: self.rel.clone(), to: self.to.clone() }
    }
}

impl IndexRow {
    /// A copy of the row, with the same key.
    pub fn copy(&self) -> (r: IndexRow)
        ensures
            row_key(r) == row_key(*self),
    {
        match self {
            IndexRow::Subject(x) => IndexRow::Subject(x.copy()),
            IndexRow::Anchor(x) => IndexRow::Anchor(x.copy()),
            IndexRow::SourceUnit(x) => IndexRow::SourceUnit(x.copy()),
            IndexRow::Declaration(x) => IndexRow::Declaration(x.copy()),
            IndexRow::ProtocolRelation(x) => IndexRow::ProtocolRelation(x.copy()),
            IndexRow::Surface(x) => IndexRow::Surface(x.copy()),
            IndexRow::Specimen(x) => IndexRow::Specimen(x.copy()),
            IndexRow::Draft(x) => IndexRow::Draft(x.copy()),
            IndexRow::Feature(x) => IndexRow::Feature(x.copy()),
            IndexRow::Route(x) => IndexRow::Route(x.copy()),
            IndexRow::Edge(x) => IndexRow::Edge(x.copy()),
        }
    }
}

} // verus!
