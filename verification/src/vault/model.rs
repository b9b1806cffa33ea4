//! Plain records of a vault projection: note identities and kinds, note
//! plans, forward relations and their derived reverse mirrors.

use vstd::prelude::*;

use crate::index::identity::{atom_lt, key_lt, lemma_key_lt_asym, lemma_key_lt_total, lemma_key_lt_trans, num, txt};
use crate::index::model::Visibility;
use crate::index::rows::IndexRow;
use crate::text::{str_eq, str_lt, text};

verus! {

/// Requested density of a renderer. Both modes keep every row.
#[derive(Clone, Copy, Debug, PartialEq, Eq, Structural, PartialOrd, Ord)]
pub enum VaultGranularity {
    /// One compact primary placement per row.
    Compact,
    /// Primary placement plus all derived navigation claims.
    Full,
}

/// Stable, syntax-independent identity of a planned note.
#[derive(Clone, Debug, PartialEq, Eq, PartialOrd, Ord, Hash)]
pub struct VaultNoteId {
    text: String,
}

impl View for VaultNoteId {
    type V = Seq<char>;

    closed spec fn view(&self) -> Seq<char> {
        self.text@
    }
}

impl VaultNoteId {
    /// Creates a note identity from a canonical index id.
    pub fn new(value: &str) -> (r: VaultNoteId)
        ensures
            r@ == value@,
    {
        VaultNoteId { text: text(value) }
    }

    /// Borrows the identity.
    pub fn as_str(&self) -> (s: &str)
        ensures
            s@ == self@,
    {
        self.text.as_str()
    }

    /// An exact copy.
    pub fn copy(&self) -> (r: VaultNoteId)
        ensures
            r == *self,
    {
        VaultNoteId { text: self.text.clone() }
    }
}

/// Semantic role of a note.
#[derive(Clone, Copy, Debug, PartialEq, Eq, Structural, PartialOrd, Ord)]
pub enum VaultNoteKind {
    /// Graph-wide index material.
    Index,
    /// Subject-owned inventory.
    Subject,
    /// Source-anchor detail.
    Anchor,
    /// Invoke/read/write/view surface detail.
    Surface,
    /// Runnable specimen detail.
    Specimen,
    /// Authored feature draft detail.
    Draft,
    /// Authored or materialized feature detail.
    Feature,
    /// Ordered route detail.
    Route,
}

/// One deterministic note and the canonical rows placed in it.
#[derive(Clone, Debug, PartialEq, Eq)]
pub struct VaultNotePlan {
    /// Note identity.
    pub id: VaultNoteId,
    /// Semantic note kind.
    pub kind: VaultNoteKind,
    /// Canonical rows, in key order.
    pub rows: Vec<IndexRow>,
}

/// Provenance of a projected relation.
#[derive(Clone, Copy, Debug, PartialEq, Eq, Structural, PartialOrd, Ord)]
pub enum RelationOrigin {
    /// Forward fact from the canonical inventory.
    Canonical,
    /// Incoming relation mechanically derived from a canonical forward fact.
    Derived,
}

/// A canonical-id relation and its deterministic reverse mirror.
#[derive(Clone, Debug, PartialEq, Eq, PartialOrd, Ord)]
pub struct Relation {
    /// Canonical source id.
    pub from: String,
    /// Relationship label.
    pub rel: String,
    /// Canonical target id.
    pub to: String,
    /// Whether this fact is a forward fact or a derived mirror.
    pub origin: RelationOrigin,
}

/// Mathematical value of a relation: source, label, target, origin.
pub open spec fn link(r: Relation) -> (Seq<char>, Seq<char>, Seq<char>, RelationOrigin) {
    (r.from@, r.rel@, r.to@, r.origin)
}

/// The incoming mirror of a forward relation.
pub open spec fn mirror(r: Relation) -> (Seq<char>, Seq<char>, Seq<char>, RelationOrigin) {
    (r.to@, r.rel@, r.from@, RelationOrigin::Derived)
}

/// Index of an origin in declaration order.
pub open spec fn origin_index(o: RelationOrigin) -> int {
    match o {
        RelationOrigin::Canonical => 0,
        RelationOrigin::Derived => 1,
    }
}

/// The order key of a relation value: its fields in declaration order.
pub open spec fn link_key(l: (Seq<char>, Seq<char>, Seq<char>, RelationOrigin)) -> Seq<
    (int, Seq<char>),
> {
    seq![txt(l.0), txt(l.1), txt(l.2), num(origin_index(l.3))]
}

/// The relation values of a list.
pub open spec fn links(v: Seq<Relation>) -> Seq<(Seq<char>, Seq<char>, Seq<char>, RelationOrigin)> {
    v.map_values(|r: Relation| link(r))
}

/// The mirrors of a list of forward relations.
pub open spec fn mirrors(v: Seq<Relation>) -> Seq<(Seq<char>, Seq<char>, Seq<char>, RelationOrigin)> {
    v.map_values(|r: Relation| mirror(r))
}

/// `x` is the least element, in relation order, of the values of `s` that
/// `t` lacks.
pub open spec fn least_missing(
    s: Seq<(Seq<char>, Seq<char>, Seq<char>, RelationOrigin)>,
    t: Seq<(Seq<char>, Seq<char>, Seq<char>, RelationOrigin)>,
    x: (Seq<char>, Seq<char>, Seq<char>, RelationOrigin),
) -> bool {
    &&& s.contains(x)
    &&& !t.contains(x)
    &&& forall|y| #[trigger] s.contains(y) && !t.contains(y) ==> y == x || key_lt(
        link_key(x),
        link_key(y),
    )
}

/// Everything [`validate_incoming_relations`] can report, and what
/// [`crate::vault::claim::ClaimCertificate::close`] and the projections
/// report.
#[derive(Clone, Debug, PartialEq, Eq)]
pub enum ProjectionError {
    /// A row occurs twice in the canonical set.
    DuplicateCanonicalRow(Box<IndexRow>),
    /// A row has two primary claims.
    MultiplyClaimedRow(Box<IndexRow>),
    /// A primary claim names a row outside the canonical set.
    UnknownClaimedRow(Box<IndexRow>),
    /// A canonical row has no primary claim.
    UnclaimedRow(Box<IndexRow>),
    /// A derived claim names a row without a primary claim.
    DerivedWithoutPrimary(Box<IndexRow>),
    /// A supplied incoming relation mirrors no forward fact.
    ReverseWithoutForward(Relation),
    /// A forward fact's mirror is missing from the incoming relations.
    MissingDerivedRelation(Relation),
    /// Only public documents are projected.
    NonPublicDocument,
}

impl Relation {
    /// Builds a canonical forward relation.
    pub fn canonical(from: &str, rel: &str, to: &str) -> (r: Relation)
        ensures
            link(r) == (from@, rel@, to@, RelationOrigin::Canonical),
    {
        Relation { from: text(from), rel: text(rel), to: text(to), origin: RelationOrigin::Canonical }
    }

    /// An exact copy.
    pub fn copy(&self) -> (r: Relation)
        ensures
            r == *self,
    {
        Relation {
            from: self.from.clone(),
            rel: self.rel.clone(),
            to: self.to.clone(),
            origin: self.origin,
        }
    }

    /// The incoming mirror of this forward relation.
    pub fn mirrored(&self) -> (r: Relation)
        ensures
            link(r) == mirror(*self),
    {
        Relation {
            from: self.to.clone(),
            rel: self.rel.clone(),
            to: self.from.clone(),
            origin: RelationOrigin::Derived,
        }
    }
}

fn same_link(a: &Relation, b: &Relation) -> (r: bool)
    ensures
        r == (link(*a) == link(*b)),
{
    str_eq(a.from.as_str(), b.from.as_str()) && str_eq(a.rel.as_str(), b.rel.as_str()) && str_eq(
        a.to.as_str(),
        b.to.as_str(),
    ) && a.origin == b.origin
}

fn origin_num(o: RelationOrigin) -> (n: u8)
    ensures
        n == origin_index(o),
{
    match o {
        RelationOrigin::Canonical => 0,
        RelationOrigin::Derived => 1,
    }
}

/// Decides the relation order between two relations.
fn link_less(a: &Relation, b: &Relation) -> (r: bool)
    ensures
        r == key_lt(link_key(link(*a)), link_key(link(*b))),
{
    let ghost x = link_key(link(*a));
    let ghost y = link_key(link(*b));
    assert(x.drop_first() =~= seq![txt(a.rel@), txt(a.to@), num(origin_index(a.origin))]);
    assert(y.drop_first() =~= seq![txt(b.rel@), txt(b.to@), num(origin_index(b.origin))]);
    assert(x.drop_first().drop_first() =~= seq![txt(a.to@), num(origin_index(a.origin))]);
    assert(y.drop_first().drop_first() =~= seq![txt(b.to@), num(origin_index(b.origin))]);
    assert(x.drop_first().drop_first().drop_first() =~= seq![num(origin_index(a.origin))]);
    assert(y.drop_first().drop_first().drop_first() =~= seq![num(origin_index(b.origin))]);
    assert(x.drop_first().drop_first().drop_first().drop_first() =~= Seq::empty());
    assert(y.drop_first().drop_first().drop_first().drop_first() =~= Seq::empty());
    let ghost x1 = x.drop_first();
    let ghost y1 = y.drop_first();
    if !str_eq(a.from.as_str(), b.from.as_str()) {
        return str_lt(a.from.as_str(), b.from.as_str());
    }
    assert(x[0] == y[0]);
    assert(key_lt(x, y) == key_lt(x1, y1));
    if !str_eq(a.rel.as_str(), b.rel.as_str()) {
        assert(x1[0] != y1[0]);
        return str_lt(a.rel.as_str(), b.rel.as_str());
    }
    assert(x1[0] == y1[0]);
    assert(key_lt(x1, y1) == key_lt(x1.drop_first(), y1.drop_first()));
    let ghost x2 = x1.drop_first();
    let ghost y2 = y1.drop_first();
    if !str_eq(a.to.as_str(), b.to.as_str()) {
        assert(x2[0] != y2[0]);
        return str_lt(a.to.as_str(), b.to.as_str());
    }
    assert(x2[0] == y2[0]);
    assert(key_lt(x2, y2) == key_lt(x2.drop_first(), y2.drop_first()));
    let ghost x3 = x2.drop_first();
    let ghost y3 = y2.drop_first();
    assert(x3[0] != y3[0] ==> key_lt(x3, y3) == atom_lt(x3[0], y3[0]));
    assert(x3[0] == y3[0] ==> key_lt(x3, y3) == key_lt(x3.drop_first(), y3.drop_first()));
    assert(x3.drop_first().len() == 0 && y3.drop_first().len() == 0);
    origin_num(a.origin) < origin_num(b.origin)
}

proof fn lemma_link_key_injective(
    a: (Seq<char>, Seq<char>, Seq<char>, RelationOrigin),
    b: (Seq<char>, Seq<char>, Seq<char>, RelationOrigin),
)
    requires
        link_key(a) == link_key(b),
    ensures
        a == b,
{
    assert(link_key(a)[0] == link_key(b)[0]);
    assert(link_key(a)[1] == link_key(b)[1]);
    assert(link_key(a)[2] == link_key(b)[2]);
    assert(link_key(a)[3] == link_key(b)[3]);
}

/// Position of a relation value in a list of relations, if present.
fn find_link(v: &[Relation], x: &Relation) -> (r: Option<usize>)
    ensures
        r matches Some(i) ==> i < v@.len() && link(v@[i as int]) == link(*x),
        r is None ==> !links(v@).contains(link(*x)),
{
    let mut i: usize = 0;
    while i < v.len()
        invariant
            i <= v@.len(),
            forall|j: int| 0 <= j < i ==> link(#[trigger] v@[j]) != link(*x),
        decreases v@.len() - i,
    {
        if same_link(&v[i], x) {
            return Some(i);
        }
        i += 1;
    }
    assert(!links(v@).contains(link(*x))) by {
        if links(v@).contains(link(*x)) {
            let j = choose|j: int| 0 <= j < links(v@).len() && links(v@)[j] == link(*x);
            assert(link(v@[j]) != link(*x));
        }
    }
    None
}

/// The least (in relation order) of the values of `cand` that `other`
/// lacks, as an index into `cand`.
fn least_absent(cand: &[Relation], other: &[Relation]) -> (r: Option<usize>)
    ensures
        r matches Some(i) ==> i < cand@.len() && least_missing(
            links(cand@),
            links(other@),
            link(cand@[i as int]),
        ),
        r is None ==> forall|y| #[trigger] links(cand@).contains(y) ==> links(other@).contains(y),
{
    let mut best: Option<usize> = None;
    let mut i: usize = 0;
    while i < cand.len()
        invariant
            i <= cand@.len(),
            best matches Some(b) ==> b < i && !links(other@).contains(link(cand@[b as int])),
            best is None ==> forall|j: int|
                0 <= j < i ==> links(other@).contains(link(#[trigger] cand@[j])),
            best matches Some(b) ==> forall|j: int|
                0 <= j < i && !links(other@).contains(link(#[trigger] cand@[j])) ==> link(cand@[j])
                    == link(cand@[b as int]) || key_lt(
                    link_key(link(cand@[b as int])),
                    link_key(link(cand@[j])),
                ),
        decreases cand@.len() - i,
    {
        let found = find_link(other, &cand[i]);
        if let Some(f) = found {
            assert(links(other@)[f as int] == link(cand@[i as int]));
        }
        if found.is_none() {
            match best {
                None => {
                    best = Some(i);
                },
                Some(b) => {
                    if link_less(&cand[i], &cand[b]) {
                        proof {
                            assert forall|j: int|
                                0 <= j < i + 1 && !links(other@).contains(
                                    link(#[trigger] cand@[j]),
                                ) implies link(cand@[j]) == link(cand@[i as int]) || key_lt(
                                link_key(link(cand@[i as int])),
                                link_key(link(cand@[j])),
                            ) by {
                                if j < i && link(cand@[j]) != link(cand@[b as int]) {
                                    lemma_key_lt_trans(
                                        link_key(link(cand@[i as int])),
                                        link_key(link(cand@[b as int])),
                                        link_key(link(cand@[j])),
                                    );
                                }
                            }
                        }
                        best = Some(i);
                    } else {
                        proof {
                            lemma_key_lt_total(
                                link_key(link(cand@[i as int])),
                                link_key(link(cand@[b as int])),
                            );
                            if link_key(link(cand@[i as int])) == link_key(link(cand@[b as int])) {
                                lemma_link_key_injective(
                                    link(cand@[i as int]),
                                    link(cand@[b as int]),
                                );
                            }
                        }
                    }
                },
            }
        }
        i += 1;
    }
    proof {
        assert forall|y| #[trigger] links(cand@).contains(y) && !links(other@).contains(y) implies (
        best matches Some(b) && (y == link(cand@[b as int]) || key_lt(
            link_key(link(cand@[b as int])),
            link_key(y),
        ))) by {
            let j = choose|j: int| 0 <= j < links(cand@).len() && links(cand@)[j] == y;
            assert(link(cand@[j]) == y);
        }
        if let Some(b) = best {
            assert(links(cand@)[b as int] == link(cand@[b as int]));
        }
    }
    best
}

/// Checks that the supplied incoming relations are exactly the mirrors of
/// the forward facts. A supplied relation that mirrors no forward fact is
/// reported first (the least such, in relation order); otherwise the least
/// missing mirror is reported.
pub fn validate_incoming_relations(forward: &[Relation], incoming: &[Relation]) -> (r: Result<
    (),
    ProjectionError,
>)
    ensures
        r is Ok <==> (forall|y| #[trigger] links(incoming@).contains(y) <==> mirrors(
            forward@,
        ).contains(y)),
        r matches Err(ProjectionError::ReverseWithoutForward(x)) ==> least_missing(
            links(incoming@),
            mirrors(forward@),
            link(x),
        ),
        r matches Err(ProjectionError::MissingDerivedRelation(x)) ==> (forall|y| #[trigger] links(
            incoming@,
        ).contains(y) ==> mirrors(forward@).contains(y)) && least_missing(
            mirrors(forward@),
            links(incoming@),
            link(x),
        ),
        r is Err ==> (r matches Err(ProjectionError::ReverseWithoutForward(_))) || (r matches Err(
            ProjectionError::MissingDerivedRelation(_),
        )),
{
    let mut expected: Vec<Relation> = Vec::new();
    let mut i: usize = 0;
    while i < forward.len()
        invariant
            i <= forward@.len(),
            links(expected@) == mirrors(forward@.take(i as int)),
        decreases forward@.len() - i,
    {
        let m = forward[i].mirrored();
        let ghost before = expected@;
        expected.push(m);
        assert(forward@.take(i + 1) =~= forward@.take(i as int).push(forward@[i as int]));
        assert(links(expected@) =~= links(before).push(link(m)));
        assert(mirrors(forward@.take(i + 1)) =~= mirrors(forward@.take(i as int)).push(
            mirror(forward@[i as int]),
        ));
        i += 1;
    }
    assert(forward@.take(forward@.len() as int) =~= forward@);
    match least_absent(incoming, expected.as_slice()) {
        Some(k) => {
            return Err(ProjectionError::ReverseWithoutForward(incoming[k].copy()));
        },
        None => {},
    }
    match least_absent(expected.as_slice(), incoming) {
        Some(k) => {
            return Err(ProjectionError::MissingDerivedRelation(expected[k].copy()));
        },
        None => {},
    }
    Ok(())
}

/// Identity retained by complete and fragment certificates.
#[derive(Clone, Debug, PartialEq, Eq)]
pub struct MetadataIdentity {
    /// Index schema.
    pub schema: String,
    /// Generator identity.
    pub generated_by: String,
    /// Source visibility.
    pub visibility: Visibility,
}

/// A typed relation endpoint intentionally deferred to another repository.
#[derive(Clone, Debug, PartialEq, Eq)]
pub struct BoundaryWitness {
    /// Local source id.
    pub from: String,
    /// Canonical relationship label.
    pub rel: String,
    /// External target id.
    pub external_to: String,
}

} // verus!
