//! Validation for the SIM Index graph.
//!
//! [`check_index_doc`] checks a complete graph; [`check_index_fragment`]
//! checks the part of a graph one repository produces, deferring the
//! relationships that may point into other repositories (edge endpoints and
//! route steps) until fragments are merged, and keeping source units whose
//! scan was incomplete. Each check is a sequence of passes; the first pass
//! that fails decides the error. [`doc_ok`] states exactly which documents
//! pass.

use vstd::prelude::*;
use vstd::utf8::is_ascii_chars;

use crate::index::model::{
    completeness_label, contract_closed, role_label, step_target, AnchorId, DeclarationFact,
    DeclarationRole, DiscoveredSpecimen, FeatureDraft, FeatureRecord, GrammarContract, IndexDoc,
    IndexEdge, ProtocolRelation, ProtocolResolution, RouteStep, SourceCompleteness,
    SourceReachability, SourceUnit, SpecimenId, SurfaceId, SyntaxBound, UnresolvedReason,
};
use crate::index::rows::IndexRowFamily;
use crate::index::shape::{index_id, is_index_id};
use crate::text::{append_str, concat3, decimal, push_decimal, seq_lt, str_eq, str_lt, text};

verus! {

/// Successful validation summary.
#[derive(Clone, Copy, Debug, PartialEq, Eq)]
pub struct IndexReport {
    /// Number of subjects.
    pub subjects: usize,
    /// Number of features.
    pub features: usize,
    /// Number of specimens.
    pub specimens: usize,
    /// Number of routes.
    pub routes: usize,
}

impl IndexReport {
    /// Builds a report from a checked document: its row counts.
    pub fn from_doc(doc: &IndexDoc) -> (r: IndexReport)
        ensures
            r.subjects == doc.subjects@.len(),
            r.features == doc.features@.len(),
            r.specimens == doc.specimens@.len(),
            r.routes == doc.routes@.len(),
    {
        IndexReport {
            subjects: doc.subjects.len(),
            features: doc.features.len(),
            specimens: doc.specimens.len(),
            routes: doc.routes.len(),
        }
    }
}

/// Validation failure for an index graph.
#[derive(Clone, Debug, PartialEq, Eq)]
pub enum IndexError {
    /// A string field contains non-ASCII text.
    NonAscii {
        /// Field that failed the ASCII check.
        field: &'static str,
        /// Offending field value.
        value: String,
    },
    /// An id or key does not satisfy the index grammar.
    InvalidId {
        /// Kind of id being checked.
        kind: &'static str,
        /// Offending id text.
        id: String,
    },
    /// The same id appears twice in one collection.
    DuplicateId {
        /// Collection kind that contains the duplicate.
        kind: &'static str,
        /// Duplicate id text.
        id: String,
    },
    /// The same row, field for field, appears twice in a family without ids.
    DuplicateExactRow {
        /// Family of the repeated row.
        family: IndexRowFamily,
        /// Position of the repeat within its family.
        index: usize,
    },
    /// A source unit's reason or bound breaks the source-unit rules.
    InvalidSourceUnit {
        /// Path of the unit.
        path: String,
    },
    /// A complete graph has a reachable source unit whose scan was incomplete.
    IncompleteReachableSource {
        /// Path of the unit.
        path: String,
        /// Label of the scan outcome.
        state: &'static str,
    },
    /// Two declaration facts share anchor, role and module path.
    DuplicateSourceFact {
        /// Anchor of the repeated fact.
        anchor: String,
        /// Role label of the repeated fact.
        role: &'static str,
    },
    /// A declaration or protocol relation breaks its syntax bound.
    InvalidSourceBound {
        /// Anchor of the fact.
        anchor: String,
        /// The declared bound.
        max_bytes: usize,
    },
    /// Source facts are not in strictly increasing order.
    UnstableOrdering {
        /// Which facts.
        kind: &'static str,
    },
    /// The same protocol relation appears twice.
    DuplicateProtocolRelation {
        /// Anchor of the relation.
        anchor: String,
        /// Implementing type.
        implementor: String,
    },
    /// One implementation site has two different resolutions.
    ConflictingProtocolResolution {
        /// Anchor of the relation.
        anchor: String,
        /// Implementing type.
        implementor: String,
    },
    /// A protocol resolution is empty, unsorted, or inconsistent.
    InvalidProtocolResolution {
        /// Anchor of the relation.
        anchor: String,
    },
    /// A feature or route points at a missing discovered fact.
    UnresolvedClaim {
        /// Feature, edge, or discovered row that made the claim.
        owner: String,
        /// Referenced fact kind.
        kind: &'static str,
        /// Missing id text.
        id: String,
    },
    /// Authored overlay attempted to include a literal fact instead of a
    /// discovered id.
    LiteralClaim {
        /// Draft that included the literal.
        owner: String,
        /// Literal fact kind.
        kind: &'static str,
    },
    /// The same discovered fact is claimed more than once by one owner.
    DuplicateClaim {
        /// Feature or draft that repeated the claim.
        owner: String,
        /// Repeated fact kind.
        kind: &'static str,
        /// Repeated id text.
        id: String,
    },
    /// Two features share one canonical key.
    DuplicateCanonicalKey {
        /// Duplicate canonical key text.
        key: String,
    },
    /// A grammar contract is not closed enough to index.
    InvalidGrammarContract {
        /// Feature or draft that owns the contract.
        owner: String,
        /// Grammar contract id.
        id: String,
    },
    /// A claimed specimen is not runnable and checked.
    NonRunnableSpecimen {
        /// Feature or draft that claimed the specimen.
        owner: String,
        /// Specimen id.
        id: String,
    },
    /// A route has no live feature or specimen step.
    DeadRouteStep {
        /// Route id.
        route: String,
        /// Missing step id, or `<empty>` for an empty route.
        step: String,
    },
    /// A documentation anchor reference has no discovered anchor.
    DanglingDocAnchor {
        /// Row that references the documentation anchor.
        owner: String,
        /// Missing documentation anchor id.
        id: String,
    },
}

/// The name of a row family, as its debug form writes it.
pub open spec fn family_name(f: IndexRowFamily) -> Seq<char> {
    match f {
        IndexRowFamily::Subject => "Subject"@,
        IndexRowFamily::Anchor => "Anchor"@,
        IndexRowFamily::SourceUnit => "SourceUnit"@,
        IndexRowFamily::Declaration => "Declaration"@,
        IndexRowFamily::ProtocolRelation => "ProtocolRelation"@,
        IndexRowFamily::Surface => "Surface"@,
        IndexRowFamily::Specimen => "Specimen"@,
        IndexRowFamily::Draft => "Draft"@,
        IndexRowFamily::Feature => "Feature"@,
        IndexRowFamily::Route => "Route"@,
        IndexRowFamily::Edge => "Edge"@,
    }
}

fn family_name_exec(f: IndexRowFamily) -> (r: &'static str)
    ensures
        r@ == family_name(f),
{
    match f {
        IndexRowFamily::Subject => "Subject",
        IndexRowFamily::Anchor => "Anchor",
        IndexRowFamily::SourceUnit => "SourceUnit",
        IndexRowFamily::Declaration => "Declaration",
        IndexRowFamily::ProtocolRelation => "ProtocolRelation",
        IndexRowFamily::Surface => "Surface",
        IndexRowFamily::Specimen => "Specimen",
        IndexRowFamily::Draft => "Draft",
        IndexRowFamily::Feature => "Feature",
        IndexRowFamily::Route => "Route",
        IndexRowFamily::Edge => "Edge",
    }
}

/// The text of a validation error.
pub open spec fn index_error_message(e: IndexError) -> Seq<char> {
    match e {
        IndexError::NonAscii { field, value } => field@ + " contains non-ASCII text: "@ + value@,
        IndexError::InvalidId { kind, id } => "invalid "@ + kind@ + " id: "@ + id@,
        IndexError::DuplicateId { kind, id } => "duplicate "@ + kind@ + " id: "@ + id@,
        IndexError::DuplicateExactRow { family, index } => "duplicate exact "@ + family_name(family)
            + " row at "@ + decimal(index as nat),
        IndexError::InvalidSourceUnit { path } => "invalid source unit: "@ + path@,
        IndexError::IncompleteReachableSource { path, state } => "reachable source "@ + path@
            + " is "@ + state@,
        IndexError::DuplicateSourceFact { anchor, role } => "duplicate "@ + role@
            + " source fact for "@ + anchor@,
        IndexError::InvalidSourceBound { anchor, max_bytes } => anchor@
            + " has invalid source bound: "@ + decimal(max_bytes as nat),
        IndexError::UnstableOrdering { kind } => "unstable "@ + kind@ + " ordering"@,
        IndexError::DuplicateProtocolRelation { anchor, implementor } => "duplicate protocol relation: "@
            + anchor@ + " "@ + implementor@,
        IndexError::ConflictingProtocolResolution { anchor, implementor } =>
            "conflicting protocol resolution: "@ + anchor@ + " "@ + implementor@,
        IndexError::InvalidProtocolResolution { anchor } => "invalid protocol resolution: "@ + anchor@,
        IndexError::UnresolvedClaim { owner, kind, id } => owner@ + " claims missing "@ + kind@ + ": "@
            + id@,
        IndexError::LiteralClaim { owner, kind } => owner@ + " has literal "@ + kind@ + " claim"@,
        IndexError::DuplicateClaim { owner, kind, id } => owner@ + " claims duplicate "@ + kind@ + ": "@
            + id@,
        IndexError::DuplicateCanonicalKey { key } => "duplicate canonical key: "@ + key@,
        IndexError::InvalidGrammarContract { owner, id } => owner@ + " has invalid grammar contract: "@
            + id@,
        IndexError::NonRunnableSpecimen { owner, id } => owner@ + " claims non-runnable specimen: "@
            + id@,
        IndexError::DeadRouteStep { route, step } => route@ + " has dead route step: "@ + step@,
        IndexError::DanglingDocAnchor { owner, id } => owner@ + " references missing doc anchor: "@
            + id@,
    }
}

/// `a`, `b`, `c`, `d` and `e`, as one string.
fn cat5(a: &str, b: &str, c: &str, d: &str, e: &str) -> (r: String)
    ensures
        r@ == a@ + b@ + c@ + d@ + e@,
{
    let mut r = concat3(a, b, c);
    append_str(&mut r, d);
    append_str(&mut r, e);
    r
}

impl IndexError {
    /// The text of this error.
    pub fn message(&self) -> (r: String)
        ensures
            r@ == index_error_message(*self),
    {
        proof {
            reveal_strlit("");
        }
        match self {
            IndexError::NonAscii { field, value } => concat3(field, " contains non-ASCII text: ", value.as_str()),
            IndexError::InvalidId { kind, id } => cat5("invalid ", kind, " id: ", id.as_str(), ""),
            IndexError::DuplicateId { kind, id } => cat5("duplicate ", kind, " id: ", id.as_str(), ""),
            IndexError::DuplicateExactRow { family, index } => {
                let mut r = concat3("duplicate exact ", family_name_exec(*family), " row at ");
                push_decimal(&mut r, *index as u64);
                r
            },
            IndexError::InvalidSourceUnit { path } => concat3("invalid source unit: ", path.as_str(), ""),
            IndexError::IncompleteReachableSource { path, state } => cat5(
                "reachable source ",
                path.as_str(),
                " is ",
                state,
                "",
            ),
            IndexError::DuplicateSourceFact { anchor, role } => cat5(
                "duplicate ",
                role,
                " source fact for ",
                anchor.as_str(),
                "",
            ),
            IndexError::InvalidSourceBound { anchor, max_bytes } => {
                let mut r = concat3(anchor.as_str(), " has invalid source bound: ", "");
                push_decimal(&mut r, *max_bytes as u64);
                r
            },
            IndexError::UnstableOrdering { kind } => concat3("unstable ", kind, " ordering"),
            IndexError::DuplicateProtocolRelation { anchor, implementor } => cat5(
                "duplicate protocol relation: ",
                anchor.as_str(),
                " ",
                implementor.as_str(),
                "",
            ),
            IndexError::ConflictingProtocolResolution { anchor, implementor } => cat5(
                "conflicting protocol resolution: ",
                anchor.as_str(),
                " ",
                implementor.as_str(),
                "",
            ),
            IndexError::InvalidProtocolResolution { anchor } => concat3(
                "invalid protocol resolution: ",
                anchor.as_str(),
                "",
            ),
            IndexError::UnresolvedClaim { owner, kind, id } => cat5(
                owner.as_str(),
                " claims missing ",
                kind,
                ": ",
                id.as_str(),
            ),
            IndexError::LiteralClaim { owner, kind } => cat5(owner.as_str(), " has literal ", kind, " claim", ""),
            IndexError::DuplicateClaim { owner, kind, id } => cat5(
                owner.as_str(),
                " claims duplicate ",
                kind,
                ": ",
                id.as_str(),
            ),
            IndexError::DuplicateCanonicalKey { key } => concat3("duplicate canonical key: ", key.as_str(), ""),
            IndexError::InvalidGrammarContract { owner, id } => concat3(
                owner.as_str(),
                " has invalid grammar contract: ",
                id.as_str(),
            ),
            IndexError::NonRunnableSpecimen { owner, id } => concat3(
                owner.as_str(),
                " claims non-runnable specimen: ",
                id.as_str(),
            ),
            IndexError::DeadRouteStep { route, step } => concat3(
                route.as_str(),
                " has dead route step: ",
                step.as_str(),
            ),
            IndexError::DanglingDocAnchor { owner, id } => concat3(
                owner.as_str(),
                " references missing doc anchor: ",
                id.as_str(),
            ),
        }
    }
}

// ---------------------------------------------------------------------------
// Shared helpers.
// ---------------------------------------------------------------------------
/// Views of a list of borrowed strings.
pub open spec fn strs_of(v: Seq<&str>) -> Seq<Seq<char>> {
    v.map_values(|s: &str| s@)
}

/// No two entries are equal.
pub open spec fn distinct(s: Seq<Seq<char>>) -> bool {
    forall|i: int, j: int| 0 <= i < j < s.len() ==> s[i] != s[j]
}

pub(crate) fn has_id(list: &Vec<&str>, x: &str) -> (b: bool)
    ensures
        b == strs_of(list@).contains(x@),
{
    let mut i: usize = 0;
    while i < list.len()
        invariant
            i <= list.len(),
            forall|k: int| 0 <= k < i ==> list@[k]@ != x@,
        decreases list.len() - i,
    {
        if str_eq(list[i], x) {
            assert(strs_of(list@)[i as int] == x@);
            return true;
        }
        i += 1;
    }
    assert(!strs_of(list@).contains(x@)) by {
        if strs_of(list@).contains(x@) {
            let k = choose|k: int| 0 <= k < strs_of(list@).len() && strs_of(list@)[k] == x@;
            assert(list@[k]@ == x@);
        }
    }
    false
}

/// `x` occurs at two positions of `s`.
pub open spec fn repeated(s: Seq<Seq<char>>, x: Seq<char>) -> bool {
    exists|a: int, b: int| 0 <= a < b < s.len() && #[trigger] s[a] == x && #[trigger] s[b] == x
}

/// `x` is the first entry of `s` that repeats an earlier one.
pub open spec fn first_repeated(s: Seq<Seq<char>>, x: Seq<char>) -> bool {
    exists|j: int|
        0 <= j < s.len() && #[trigger] s[j] == x && (exists|a: int| 0 <= a < j && s[a] == x) && distinct(
            s.take(j),
        )
}

/// Position of the first repeat in `list`: the smallest `j` with an equal
/// entry before it.
fn first_repeat(list: &Vec<&str>) -> (r: Option<usize>)
    ensures
        r is None <==> distinct(strs_of(list@)),
        r matches Some(j) ==> j < list.len() && repeated(strs_of(list@), strs_of(list@)[j as int])
            && first_repeated(strs_of(list@), strs_of(list@)[j as int]),
{
    let ghost s = strs_of(list@);
    let mut j: usize = 0;
    while j < list.len()
        invariant
            j <= list.len(),
            s == strs_of(list@),
            forall|a: int, b: int| 0 <= a < b < j ==> s[a] != s[b],
        decreases list.len() - j,
    {
        let mut i: usize = 0;
        while i < j
            invariant
                i <= j < list.len(),
                s == strs_of(list@),
                forall|a: int| 0 <= a < i ==> s[a] != s[j as int],
                forall|a: int, b: int| 0 <= a < b < j ==> s[a] != s[b],
            decreases j - i,
        {
            if str_eq(list[i], list[j]) {
                assert(s[i as int] == s[j as int]);
                assert(repeated(s, s[j as int]));
                assert(distinct(s.take(j as int))) by {
                    assert forall|a: int, b: int| 0 <= a < b < s.take(j as int).len() implies s.take(j as int)[a] != s.take(j as int)[b] by {
                        assert(s.take(j as int)[a] == s[a] && s.take(j as int)[b] == s[b]);
                    }
                }
                return Some(j);
            }
            i += 1;
        }
        j += 1;
    }
    None
}

fn owned(s: &str) -> (r: String)
    ensures
        r@ == s@,
{
    text(s)
}

// ---------------------------------------------------------------------------
// Id collections.
// ---------------------------------------------------------------------------
pub open spec fn subject_ids(d: IndexDoc) -> Seq<Seq<char>> {
    d.subjects@.map_values(|r: crate::index::model::SubjectRecord| r.id@)
}

pub open spec fn anchor_ids(d: IndexDoc) -> Seq<Seq<char>> {
    d.anchors@.map_values(|r: crate::index::model::DiscoveredAnchor| r.id@)
}

pub open spec fn surface_ids(d: IndexDoc) -> Seq<Seq<char>> {
    d.surfaces@.map_values(|r: crate::index::model::DiscoveredSurface| r.id@)
}

pub open spec fn specimen_ids(d: IndexDoc) -> Seq<Seq<char>> {
    d.specimens@.map_values(|r: DiscoveredSpecimen| r.id@)
}

pub open spec fn draft_ids(d: IndexDoc) -> Seq<Seq<char>> {
    d.drafts@.map_values(|r: FeatureDraft| r.id@)
}

pub open spec fn feature_ids(d: IndexDoc) -> Seq<Seq<char>> {
    d.features@.map_values(|r: FeatureRecord| r.id@)
}

pub open spec fn route_ids(d: IndexDoc) -> Seq<Seq<char>> {
    d.routes@.map_values(|r: crate::index::model::RouteRecord| r.id@)
}

/// Every id of a discovered or authored row.
pub open spec fn known_ids(d: IndexDoc) -> Seq<Seq<char>> {
    subject_ids(d) + anchor_ids(d) + surface_ids(d) + specimen_ids(d) + feature_ids(d)
        + route_ids(d)
}

/// The ids a check resolves references against are the ids of the rows:
/// an id is a subject, anchor, surface, specimen, feature or route id
/// exactly when a row of that kind carries it, and a known row id exactly
/// when a subject, anchor, surface, specimen, feature or route carries it
/// (drafts are not referenced).
pub proof fn lemma_row_ids(d: IndexDoc, x: Seq<char>)
    ensures
        subject_ids(d).contains(x) <==> exists|i: int| 0 <= i < d.subjects@.len() && (#[trigger] d.subjects@[i]).id@ == x,
        anchor_ids(d).contains(x) <==> exists|i: int| 0 <= i < d.anchors@.len() && (#[trigger] d.anchors@[i]).id@ == x,
        surface_ids(d).contains(x) <==> exists|i: int| 0 <= i < d.surfaces@.len() && (#[trigger] d.surfaces@[i]).id@ == x,
        specimen_ids(d).contains(x) <==> exists|i: int| 0 <= i < d.specimens@.len() && (#[trigger] d.specimens@[i]).id@ == x,
        feature_ids(d).contains(x) <==> exists|i: int| 0 <= i < d.features@.len() && (#[trigger] d.features@[i]).id@ == x,
        route_ids(d).contains(x) <==> exists|i: int| 0 <= i < d.routes@.len() && (#[trigger] d.routes@[i]).id@ == x,
        known_ids(d).contains(x) <==> subject_ids(d).contains(x) || anchor_ids(d).contains(x) || surface_ids(
            d,
        ).contains(x) || specimen_ids(d).contains(x) || feature_ids(d).contains(x) || route_ids(d).contains(x),
{
    assert(subject_ids(d).contains(x) ==> exists|i: int| 0 <= i < d.subjects@.len() && (#[trigger] d.subjects@[i]).id@ == x) by {
        if subject_ids(d).contains(x) { let i = choose|i: int| 0 <= i < subject_ids(d).len() && subject_ids(d)[i] == x; assert(d.subjects@[i].id@ == x); }
    }
    assert(anchor_ids(d).contains(x) ==> exists|i: int| 0 <= i < d.anchors@.len() && (#[trigger] d.anchors@[i]).id@ == x) by {
        if anchor_ids(d).contains(x) { let i = choose|i: int| 0 <= i < anchor_ids(d).len() && anchor_ids(d)[i] == x; assert(d.anchors@[i].id@ == x); }
    }
    assert(surface_ids(d).contains(x) ==> exists|i: int| 0 <= i < d.surfaces@.len() && (#[trigger] d.surfaces@[i]).id@ == x) by {
        if surface_ids(d).contains(x) { let i = choose|i: int| 0 <= i < surface_ids(d).len() && surface_ids(d)[i] == x; assert(d.surfaces@[i].id@ == x); }
    }
    assert(specimen_ids(d).contains(x) ==> exists|i: int| 0 <= i < d.specimens@.len() && (#[trigger] d.specimens@[i]).id@ == x) by {
        if specimen_ids(d).contains(x) { let i = choose|i: int| 0 <= i < specimen_ids(d).len() && specimen_ids(d)[i] == x; assert(d.specimens@[i].id@ == x); }
    }
    assert(feature_ids(d).contains(x) ==> exists|i: int| 0 <= i < d.features@.len() && (#[trigger] d.features@[i]).id@ == x) by {
        if feature_ids(d).contains(x) { let i = choose|i: int| 0 <= i < feature_ids(d).len() && feature_ids(d)[i] == x; assert(d.features@[i].id@ == x); }
    }
    assert(route_ids(d).contains(x) ==> exists|i: int| 0 <= i < d.routes@.len() && (#[trigger] d.routes@[i]).id@ == x) by {
        if route_ids(d).contains(x) { let i = choose|i: int| 0 <= i < route_ids(d).len() && route_ids(d)[i] == x; assert(d.routes@[i].id@ == x); }
    }
    assert((exists|i: int| 0 <= i < d.subjects@.len() && (#[trigger] d.subjects@[i]).id@ == x) ==> subject_ids(d).contains(x)) by {
        if exists|i: int| 0 <= i < d.subjects@.len() && (#[trigger] d.subjects@[i]).id@ == x { let i = choose|i: int| 0 <= i < d.subjects@.len() && (#[trigger] d.subjects@[i]).id@ == x; assert(subject_ids(d)[i] == x); }
    }
    assert((exists|i: int| 0 <= i < d.anchors@.len() && (#[trigger] d.anchors@[i]).id@ == x) ==> anchor_ids(d).contains(x)) by {
        if exists|i: int| 0 <= i < d.anchors@.len() && (#[trigger] d.anchors@[i]).id@ == x { let i = choose|i: int| 0 <= i < d.anchors@.len() && (#[trigger] d.anchors@[i]).id@ == x; assert(anchor_ids(d)[i] == x); }
    }
    assert((exists|i: int| 0 <= i < d.surfaces@.len() && (#[trigger] d.surfaces@[i]).id@ == x) ==> surface_ids(d).contains(x)) by {
        if exists|i: int| 0 <= i < d.surfaces@.len() && (#[trigger] d.surfaces@[i]).id@ == x { let i = choose|i: int| 0 <= i < d.surfaces@.len() && (#[trigger] d.surfaces@[i]).id@ == x; assert(surface_ids(d)[i] == x); }
    }
    assert((exists|i: int| 0 <= i < d.specimens@.len() && (#[trigger] d.specimens@[i]).id@ == x) ==> specimen_ids(d).contains(x)) by {
        if exists|i: int| 0 <= i < d.specimens@.len() && (#[trigger] d.specimens@[i]).id@ == x { let i = choose|i: int| 0 <= i < d.specimens@.len() && (#[trigger] d.specimens@[i]).id@ == x; assert(specimen_ids(d)[i] == x); }
    }
    assert((exists|i: int| 0 <= i < d.features@.len() && (#[trigger] d.features@[i]).id@ == x) ==> feature_ids(d).contains(x)) by {
        if exists|i: int| 0 <= i < d.features@.len() && (#[trigger] d.features@[i]).id@ == x { let i = choose|i: int| 0 <= i < d.features@.len() && (#[trigger] d.features@[i]).id@ == x; assert(feature_ids(d)[i] == x); }
    }
    assert((exists|i: int| 0 <= i < d.routes@.len() && (#[trigger] d.routes@[i]).id@ == x) ==> route_ids(d).contains(x)) by {
        if exists|i: int| 0 <= i < d.routes@.len() && (#[trigger] d.routes@[i]).id@ == x { let i = choose|i: int| 0 <= i < d.routes@.len() && (#[trigger] d.routes@[i]).id@ == x; assert(route_ids(d)[i] == x); }
    }
    let (s1, a1, u1, p1, f1, r1) = (subject_ids(d), anchor_ids(d), surface_ids(d), specimen_ids(d), feature_ids(d), route_ids(d));
    vstd::seq_lib::lemma_seq_concat_contains_all_elements(s1, a1, x);
    vstd::seq_lib::lemma_seq_concat_contains_all_elements(s1 + a1, u1, x);
    vstd::seq_lib::lemma_seq_concat_contains_all_elements(s1 + a1 + u1, p1, x);
    vstd::seq_lib::lemma_seq_concat_contains_all_elements(s1 + a1 + u1 + p1, f1, x);
    vstd::seq_lib::lemma_seq_concat_contains_all_elements(s1 + a1 + u1 + p1 + f1, r1, x);
}

fn subject_list(d: &IndexDoc) -> (r: Vec<&str>)
    ensures
        strs_of(r@) == subject_ids(*d),
{
    let mut r: Vec<&str> = Vec::new();
    let mut i: usize = 0;
    while i < d.subjects.len()
        invariant
            i <= d.subjects.len(),
            r.len() == i,
            forall|k: int| 0 <= k < i ==> (#[trigger] r@[k])@ == d.subjects@[k].id@,
        decreases d.subjects.len() - i,
    {
        r.push(d.subjects[i].id.as_str());
        i += 1;
    }
    assert(strs_of(r@) =~= subject_ids(*d));
    r
}

fn anchor_list(d: &IndexDoc) -> (r: Vec<&str>)
    ensures
        strs_of(r@) == anchor_ids(*d),
{
    let mut r: Vec<&str> = Vec::new();
    let mut i: usize = 0;
    while i < d.anchors.len()
        invariant
            i <= d.anchors.len(),
            r.len() == i,
            forall|k: int| 0 <= k < i ==> (#[trigger] r@[k])@ == d.anchors@[k].id@,
        decreases d.anchors.len() - i,
    {
        r.push(d.anchors[i].id.as_str());
        i += 1;
    }
    assert(strs_of(r@) =~= anchor_ids(*d));
    r
}

fn surface_list(d: &IndexDoc) -> (r: Vec<&str>)
    ensures
        strs_of(r@) == surface_ids(*d),
{
    let mut r: Vec<&str> = Vec::new();
    let mut i: usize = 0;
    while i < d.surfaces.len()
        invariant
            i <= d.surfaces.len(),
            r.len() == i,
            forall|k: int| 0 <= k < i ==> (#[trigger] r@[k])@ == d.surfaces@[k].id@,
        decreases d.surfaces.len() - i,
    {
        r.push(d.surfaces[i].id.as_str());
        i += 1;
    }
    assert(strs_of(r@) =~= surface_ids(*d));
    r
}

fn specimen_list(d: &IndexDoc) -> (r: Vec<&str>)
    ensures
        strs_of(r@) == specimen_ids(*d),
{
    let mut r: Vec<&str> = Vec::new();
    let mut i: usize = 0;
    while i < d.specimens.len()
        invariant
            i <= d.specimens.len(),
            r.len() == i,
            forall|k: int| 0 <= k < i ==> (#[trigger] r@[k])@ == d.specimens@[k].id@,
        decreases d.specimens.len() - i,
    {
        r.push(d.specimens[i].id.as_str());
        i += 1;
    }
    assert(strs_of(r@) =~= specimen_ids(*d));
    r
}

fn draft_list(d: &IndexDoc) -> (r: Vec<&str>)
    ensures
        strs_of(r@) == draft_ids(*d),
{
    let mut r: Vec<&str> = Vec::new();
    let mut i: usize = 0;
    while i < d.drafts.len()
        invariant
            i <= d.drafts.len(),
            r.len() == i,
            forall|k: int| 0 <= k < i ==> (#[trigger] r@[k])@ == d.drafts@[k].id@,
        decreases d.drafts.len() - i,
    {
        r.push(d.drafts[i].id.as_str());
        i += 1;
    }
    assert(strs_of(r@) =~= draft_ids(*d));
    r
}

fn feature_list(d: &IndexDoc) -> (r: Vec<&str>)
    ensures
        strs_of(r@) == feature_ids(*d),
{
    let mut r: Vec<&str> = Vec::new();
    let mut i: usize = 0;
    while i < d.features.len()
        invariant
            i <= d.features.len(),
            r.len() == i,
            forall|k: int| 0 <= k < i ==> (#[trigger] r@[k])@ == d.features@[k].id@,
        decreases d.features.len() - i,
    {
        r.push(d.features[i].id.as_str());
        i += 1;
    }
    assert(strs_of(r@) =~= feature_ids(*d));
    r
}

fn route_list(d: &IndexDoc) -> (r: Vec<&str>)
    ensures
        strs_of(r@) == route_ids(*d),
{
    let mut r: Vec<&str> = Vec::new();
    let mut i: usize = 0;
    while i < d.routes.len()
        invariant
            i <= d.routes.len(),
            r.len() == i,
            forall|k: int| 0 <= k < i ==> (#[trigger] r@[k])@ == d.routes@[k].id@,
        decreases d.routes.len() - i,
    {
        r.push(d.routes[i].id.as_str());
        i += 1;
    }
    assert(strs_of(r@) =~= route_ids(*d));
    r
}

// ---------------------------------------------------------------------------
// ASCII text.
// ---------------------------------------------------------------------------
/// Every character is ASCII.
pub open spec fn ascii(s: Seq<char>) -> bool {
    is_ascii_chars(s)
}

/// A list of texts, each with the field name it is reported under.
pub open spec fn texts_ascii(texts: Seq<(Seq<char>, Seq<char>)>) -> bool {
    forall|j: int| 0 <= j < texts.len() ==> ascii(#[trigger] texts[j].1)
}

/// `(field, value)` is the first non-ASCII text of the list.
pub open spec fn first_non_ascii(texts: Seq<(Seq<char>, Seq<char>)>, field: Seq<char>, value: Seq<char>) -> bool {
    exists|i: int|
        0 <= i < texts.len() && #[trigger] texts[i] == (field, value) && !ascii(texts[i].1) && texts_ascii(
            texts.take(i),
        )
}

/// The texts of a list of strings, all under one field name.
pub open spec fn listed_texts(field: Seq<char>, v: Seq<String>) -> Seq<(Seq<char>, Seq<char>)> {
    v.map_values(|s: String| (field, s@))
}

/// The texts of an optional field.
pub open spec fn optional_text(field: Seq<char>, v: Option<String>) -> Seq<(Seq<char>, Seq<char>)> {
    match v {
        Some(t) => seq![(field, t@)],
        None => Seq::empty(),
    }
}

/// The texts the ASCII rule reads of a document's header, in order.
pub open spec fn head_texts(d: IndexDoc) -> Seq<(Seq<char>, Seq<char>)> {
    seq![("schema"@, d.schema@), ("generated_by"@, d.generated_by@)]
}

/// The texts the ASCII rule reads of a subject, in order.
pub open spec fn subject_texts(r: crate::index::model::SubjectRecord) -> Seq<(Seq<char>, Seq<char>)> {
    seq![("subject.id"@, r.id@), ("subject.kind"@, r.kind@), ("subject.title"@, r.title@)]
}

/// The texts the ASCII rule reads of an anchor, in order.
pub open spec fn anchor_texts(r: crate::index::model::DiscoveredAnchor) -> Seq<(Seq<char>, Seq<char>)> {
    seq![("anchor.id"@, r.id@), ("anchor.kind"@, r.kind@)]
}

/// The texts the ASCII rule reads of a surface, in order.
pub open spec fn surface_texts(r: crate::index::model::DiscoveredSurface) -> Seq<(Seq<char>, Seq<char>)> {
    seq![("surface.id"@, r.id@), ("surface.kind"@, r.kind@)]
}

/// The texts the ASCII rule reads of a specimen, in order.
pub open spec fn specimen_texts(r: DiscoveredSpecimen) -> Seq<(Seq<char>, Seq<char>)> {
    seq![("specimen.id"@, r.id@), ("specimen.kind"@, r.kind@), ("specimen.path"@, r.path@)]
        + optional_text("specimen.language"@, r.language) + optional_text("specimen.checked_by"@, r.checked_by)
}

/// The texts the ASCII rule reads of a draft, in order.
pub open spec fn draft_texts(r: FeatureDraft) -> Seq<(Seq<char>, Seq<char>)> {
    seq![("draft"@, r.id@), ("title"@, r.title@), ("summary"@, r.summary@)] + listed_texts(
        "draft.literal"@,
        r.literal_anchors@,
    ) + listed_texts("draft.literal"@, r.literal_surfaces@) + listed_texts("draft.literal"@, r.literal_specimens@)
}

/// The texts the ASCII rule reads of a feature, in order.
pub open spec fn feature_texts(r: FeatureRecord) -> Seq<(Seq<char>, Seq<char>)> {
    seq![("feature"@, r.id@), ("title"@, r.title@), ("summary"@, r.summary@), ("feature.key"@, r.key@)]
}

/// The texts the ASCII rule reads of a route, in order.
pub open spec fn route_texts(r: crate::index::model::RouteRecord) -> Seq<(Seq<char>, Seq<char>)> {
    seq![("route.id"@, r.id@), ("route.title"@, r.title@)]
}

/// The texts the ASCII rule reads of an edge, in order.
pub open spec fn edge_texts(r: IndexEdge) -> Seq<(Seq<char>, Seq<char>)> {
    seq![("edge.from"@, r.from@), ("edge.rel"@, r.rel@), ("edge.to"@, r.to@)]
}

/// The refusal names the first non-ASCII text in scan order (the header,
/// then subjects, anchors, surfaces, specimens, drafts, features, routes
/// and edges, each row's texts in order), with the field it was read from.
pub open spec fn non_ascii_error(d: IndexDoc, e: IndexError) -> bool {
    e matches IndexError::NonAscii { field, value } && {
        let (f, x) = (field@, value@);
        let h = texts_ascii(head_texts(d));
        let sub = forall|j: int| 0 <= j < d.subjects@.len() ==> texts_ascii(subject_texts(#[trigger] d.subjects@[j]));
        let anc = forall|j: int| 0 <= j < d.anchors@.len() ==> texts_ascii(anchor_texts(#[trigger] d.anchors@[j]));
        let sur = forall|j: int| 0 <= j < d.surfaces@.len() ==> texts_ascii(surface_texts(#[trigger] d.surfaces@[j]));
        let spe = forall|j: int| 0 <= j < d.specimens@.len() ==> texts_ascii(specimen_texts(#[trigger] d.specimens@[j]));
        let dra = forall|j: int| 0 <= j < d.drafts@.len() ==> texts_ascii(draft_texts(#[trigger] d.drafts@[j]));
        let fea = forall|j: int| 0 <= j < d.features@.len() ==> texts_ascii(feature_texts(#[trigger] d.features@[j]));
        let rou = forall|j: int| 0 <= j < d.routes@.len() ==> texts_ascii(route_texts(#[trigger] d.routes@[j]));
        ||| first_non_ascii(head_texts(d), f, x)
        ||| h && exists|a: int| 0 <= a < d.subjects@.len() && (forall|j: int| 0 <= j < a ==> texts_ascii(subject_texts(#[trigger] d.subjects@[j]))) && first_non_ascii(subject_texts(#[trigger] d.subjects@[a]), f, x)
        ||| h && sub && exists|a: int| 0 <= a < d.anchors@.len() && (forall|j: int| 0 <= j < a ==> texts_ascii(anchor_texts(#[trigger] d.anchors@[j]))) && first_non_ascii(anchor_texts(#[trigger] d.anchors@[a]), f, x)
        ||| h && sub && anc && exists|a: int| 0 <= a < d.surfaces@.len() && (forall|j: int| 0 <= j < a ==> texts_ascii(surface_texts(#[trigger] d.surfaces@[j]))) && first_non_ascii(surface_texts(#[trigger] d.surfaces@[a]), f, x)
        ||| h && sub && anc && sur && exists|a: int| 0 <= a < d.specimens@.len() && (forall|j: int| 0 <= j < a ==> texts_ascii(specimen_texts(#[trigger] d.specimens@[j]))) && first_non_ascii(specimen_texts(#[trigger] d.specimens@[a]), f, x)
        ||| h && sub && anc && sur && spe && exists|a: int| 0 <= a < d.drafts@.len() && (forall|j: int| 0 <= j < a ==> texts_ascii(draft_texts(#[trigger] d.drafts@[j]))) && first_non_ascii(draft_texts(#[trigger] d.drafts@[a]), f, x)
        ||| h && sub && anc && sur && spe && dra && exists|a: int| 0 <= a < d.features@.len() && (forall|j: int| 0 <= j < a ==> texts_ascii(feature_texts(#[trigger] d.features@[j]))) && first_non_ascii(feature_texts(#[trigger] d.features@[a]), f, x)
        ||| h && sub && anc && sur && spe && dra && fea && exists|a: int| 0 <= a < d.routes@.len() && (forall|j: int| 0 <= j < a ==> texts_ascii(route_texts(#[trigger] d.routes@[j]))) && first_non_ascii(route_texts(#[trigger] d.routes@[a]), f, x)
        ||| h && sub && anc && sur && spe && dra && fea && rou && exists|a: int| 0 <= a < d.edges@.len() && (forall|j: int| 0 <= j < a ==> texts_ascii(edge_texts(#[trigger] d.edges@[j]))) && first_non_ascii(edge_texts(#[trigger] d.edges@[a]), f, x)
    }
}

/// Every text field the index publishes is ASCII.
pub open spec fn ascii_ok(d: IndexDoc) -> bool {
    &&& texts_ascii(head_texts(d))
    &&& forall|j: int| 0 <= j < d.subjects@.len() ==> texts_ascii(subject_texts(#[trigger] d.subjects@[j]))
    &&& forall|j: int| 0 <= j < d.anchors@.len() ==> texts_ascii(anchor_texts(#[trigger] d.anchors@[j]))
    &&& forall|j: int| 0 <= j < d.surfaces@.len() ==> texts_ascii(surface_texts(#[trigger] d.surfaces@[j]))
    &&& forall|j: int| 0 <= j < d.specimens@.len() ==> texts_ascii(specimen_texts(#[trigger] d.specimens@[j]))
    &&& forall|j: int| 0 <= j < d.drafts@.len() ==> texts_ascii(draft_texts(#[trigger] d.drafts@[j]))
    &&& forall|j: int| 0 <= j < d.features@.len() ==> texts_ascii(feature_texts(#[trigger] d.features@[j]))
    &&& forall|j: int| 0 <= j < d.routes@.len() ==> texts_ascii(route_texts(#[trigger] d.routes@[j]))
    &&& forall|j: int| 0 <= j < d.edges@.len() ==> texts_ascii(edge_texts(#[trigger] d.edges@[j]))
}


/// Views of a list of field names and texts.
pub open spec fn pair_views(v: Seq<(&'static str, &str)>) -> Seq<(Seq<char>, Seq<char>)> {
    v.map_values(|p: (&'static str, &str)| (p.0@, p.1@))
}

/// Refuses the first non-ASCII text of the list, under its field name.
fn check_texts(pairs: &Vec<(&'static str, &str)>) -> (r: Result<(), IndexError>)
    ensures
        r is Ok <==> texts_ascii(pair_views(pairs@)),
        r matches Err(e) ==> (e matches IndexError::NonAscii { field, value } && first_non_ascii(
            pair_views(pairs@),
            field@,
            value@,
        )),
{
    let ghost t = pair_views(pairs@);
    let mut i: usize = 0;
    while i < pairs.len()
        invariant
            i <= pairs@.len(),
            t == pair_views(pairs@),
            texts_ascii(t.take(i as int)),
        decreases pairs@.len() - i,
    {
        let (field, value) = pairs[i];
        assert(t[i as int] == (field@, value@));
        if !value.is_ascii() {
            assert(!ascii(t[i as int].1));
            return Err(IndexError::NonAscii { field, value: owned(value) });
        }
        assert forall|j: int| 0 <= j < i + 1 implies ascii(#[trigger] t.take(i + 1)[j].1) by {
            if j < i {
                assert(t.take(i + 1)[j] == t.take(i as int)[j]);
            }
        }
        i += 1;
    }
    assert(t.take(i as int) =~= t);
    Ok(())
}

fn specimen_ascii_exec(r: &DiscoveredSpecimen) -> (res: Result<(), IndexError>)
    ensures
        res is Ok <==> texts_ascii(specimen_texts(*r)),
        res matches Err(e) ==> (e matches IndexError::NonAscii { field, value } && first_non_ascii(
            specimen_texts(*r),
            field@,
            value@,
        )),
{
    let mut v: Vec<(&'static str, &str)> = vec![
        ("specimen.id", r.id.as_str()),
        ("specimen.kind", r.kind.as_str()),
        ("specimen.path", r.path.as_str()),
    ];
    match &r.language {
        Some(l) => v.push(("specimen.language", l.as_str())),
        None => {},
    }
    match &r.checked_by {
        Some(c) => v.push(("specimen.checked_by", c.as_str())),
        None => {},
    }
    assert(pair_views(v@) =~= specimen_texts(*r));
    check_texts(&v)
}

fn push_listed<'a>(v: &mut Vec<(&'static str, &'a str)>, field: &'static str, list: &'a Vec<String>)
    ensures
        pair_views(final(v)@) == pair_views(old(v)@) + listed_texts(field@, list@),
{
    let ghost start = pair_views(v@);
    let mut i: usize = 0;
    while i < list.len()
        invariant
            i <= list@.len(),
            pair_views(v@) == start + listed_texts(field@, list@.take(i as int)),
        decreases list@.len() - i,
    {
        let ghost before = pair_views(v@);
        v.push((field, list[i].as_str()));
        assert(pair_views(v@) =~= before.push((field@, list@[i as int]@)));
        assert(listed_texts(field@, list@.take(i + 1)) =~= listed_texts(field@, list@.take(i as int)).push(
            (field@, list@[i as int]@),
        ));
        i += 1;
    }
    assert(list@.take(i as int) =~= list@);
}

fn draft_ascii_exec(r: &FeatureDraft) -> (res: Result<(), IndexError>)
    ensures
        res is Ok <==> texts_ascii(draft_texts(*r)),
        res matches Err(e) ==> (e matches IndexError::NonAscii { field, value } && first_non_ascii(
            draft_texts(*r),
            field@,
            value@,
        )),
{
    let mut v: Vec<(&'static str, &str)> = vec![
        ("draft", r.id.as_str()),
        ("title", r.title.as_str()),
        ("summary", r.summary.as_str()),
    ];
    push_listed(&mut v, "draft.literal", &r.literal_anchors);
    push_listed(&mut v, "draft.literal", &r.literal_surfaces);
    push_listed(&mut v, "draft.literal", &r.literal_specimens);
    assert(pair_views(v@) =~= draft_texts(*r));
    check_texts(&v)
}

fn reject_non_ascii(d: &IndexDoc) -> (r: Result<(), IndexError>)
    ensures
        r is Ok <==> ascii_ok(*d),
        r matches Err(e) ==> non_ascii_error(*d, e),
{
    let head: Vec<(&'static str, &str)> = vec![("schema", d.schema.as_str()), ("generated_by", d.generated_by.as_str())];
    assert(pair_views(head@) =~= head_texts(*d));
    check_texts(&head)?;
    let mut i: usize = 0;
    while i < d.subjects.len()
        invariant
            i <= d.subjects.len(),
            texts_ascii(head_texts(*d)),
            forall|j: int| 0 <= j < i ==> texts_ascii(subject_texts(#[trigger] d.subjects@[j])),
        decreases d.subjects.len() - i,
    {
        let s = &d.subjects[i];
        let v: Vec<(&'static str, &str)> = vec![
            ("subject.id", s.id.as_str()),
            ("subject.kind", s.kind.as_str()),
            ("subject.title", s.title.as_str()),
        ];
        assert(pair_views(v@) =~= subject_texts(d.subjects@[i as int]));
        check_texts(&v)?;
        i += 1;
    }
    let mut i: usize = 0;
    while i < d.anchors.len()
        invariant
            i <= d.anchors.len(),
            texts_ascii(head_texts(*d)),
            forall|j: int| 0 <= j < d.subjects@.len() ==> texts_ascii(subject_texts(#[trigger] d.subjects@[j])),
            forall|j: int| 0 <= j < i ==> texts_ascii(anchor_texts(#[trigger] d.anchors@[j])),
        decreases d.anchors.len() - i,
    {
        let x = &d.anchors[i];
        let v: Vec<(&'static str, &str)> = vec![("anchor.id", x.id.as_str()), ("anchor.kind", x.kind.as_str())];
        assert(pair_views(v@) =~= anchor_texts(d.anchors@[i as int]));
        check_texts(&v)?;
        i += 1;
    }
    let mut i: usize = 0;
    while i < d.surfaces.len()
        invariant
            i <= d.surfaces.len(),
            texts_ascii(head_texts(*d)),
            forall|j: int| 0 <= j < d.subjects@.len() ==> texts_ascii(subject_texts(#[trigger] d.subjects@[j])),
            forall|j: int| 0 <= j < d.anchors@.len() ==> texts_ascii(anchor_texts(#[trigger] d.anchors@[j])),
            forall|j: int| 0 <= j < i ==> texts_ascii(surface_texts(#[trigger] d.surfaces@[j])),
        decreases d.surfaces.len() - i,
    {
        let x = &d.surfaces[i];
        let v: Vec<(&'static str, &str)> = vec![("surface.id", x.id.as_str()), ("surface.kind", x.kind.as_str())];
        assert(pair_views(v@) =~= surface_texts(d.surfaces@[i as int]));
        check_texts(&v)?;
        i += 1;
    }
    let mut i: usize = 0;
    while i < d.specimens.len()
        invariant
            i <= d.specimens.len(),
            texts_ascii(head_texts(*d)),
            forall|j: int| 0 <= j < d.subjects@.len() ==> texts_ascii(subject_texts(#[trigger] d.subjects@[j])),
            forall|j: int| 0 <= j < d.anchors@.len() ==> texts_ascii(anchor_texts(#[trigger] d.anchors@[j])),
            forall|j: int| 0 <= j < d.surfaces@.len() ==> texts_ascii(surface_texts(#[trigger] d.surfaces@[j])),
            forall|j: int| 0 <= j < i ==> texts_ascii(specimen_texts(#[trigger] d.specimens@[j])),
        decreases d.specimens.len() - i,
    {
        specimen_ascii_exec(&d.specimens[i])?;
        i += 1;
    }
    let mut i: usize = 0;
    while i < d.drafts.len()
        invariant
            i <= d.drafts.len(),
            texts_ascii(head_texts(*d)),
            forall|j: int| 0 <= j < d.subjects@.len() ==> texts_ascii(subject_texts(#[trigger] d.subjects@[j])),
            forall|j: int| 0 <= j < d.anchors@.len() ==> texts_ascii(anchor_texts(#[trigger] d.anchors@[j])),
            forall|j: int| 0 <= j < d.surfaces@.len() ==> texts_ascii(surface_texts(#[trigger] d.surfaces@[j])),
            forall|j: int| 0 <= j < d.specimens@.len() ==> texts_ascii(specimen_texts(#[trigger] d.specimens@[j])),
            forall|j: int| 0 <= j < i ==> texts_ascii(draft_texts(#[trigger] d.drafts@[j])),
        decreases d.drafts.len() - i,
    {
        draft_ascii_exec(&d.drafts[i])?;
        i += 1;
    }
    let mut i: usize = 0;
    while i < d.features.len()
        invariant
            i <= d.features.len(),
            texts_ascii(head_texts(*d)),
            forall|j: int| 0 <= j < d.subjects@.len() ==> texts_ascii(subject_texts(#[trigger] d.subjects@[j])),
            forall|j: int| 0 <= j < d.anchors@.len() ==> texts_ascii(anchor_texts(#[trigger] d.anchors@[j])),
            forall|j: int| 0 <= j < d.surfaces@.len() ==> texts_ascii(surface_texts(#[trigger] d.surfaces@[j])),
            forall|j: int| 0 <= j < d.specimens@.len() ==> texts_ascii(specimen_texts(#[trigger] d.specimens@[j])),
            forall|j: int| 0 <= j < d.drafts@.len() ==> texts_ascii(draft_texts(#[trigger] d.drafts@[j])),
            forall|j: int| 0 <= j < i ==> texts_ascii(feature_texts(#[trigger] d.features@[j])),
        decreases d.features.len() - i,
    {
        let x = &d.features[i];
        let v: Vec<(&'static str, &str)> = vec![
            ("feature", x.id.as_str()),
            ("title", x.title.as_str()),
            ("summary", x.summary.as_str()),
            ("feature.key", x.key.as_str()),
        ];
        assert(pair_views(v@) =~= feature_texts(d.features@[i as int]));
        check_texts(&v)?;
        i += 1;
    }
    let mut i: usize = 0;
    while i < d.routes.len()
        invariant
            i <= d.routes.len(),
            texts_ascii(head_texts(*d)),
            forall|j: int| 0 <= j < d.subjects@.len() ==> texts_ascii(subject_texts(#[trigger] d.subjects@[j])),
            forall|j: int| 0 <= j < d.anchors@.len() ==> texts_ascii(anchor_texts(#[trigger] d.anchors@[j])),
            forall|j: int| 0 <= j < d.surfaces@.len() ==> texts_ascii(surface_texts(#[trigger] d.surfaces@[j])),
            forall|j: int| 0 <= j < d.specimens@.len() ==> texts_ascii(specimen_texts(#[trigger] d.specimens@[j])),
            forall|j: int| 0 <= j < d.drafts@.len() ==> texts_ascii(draft_texts(#[trigger] d.drafts@[j])),
            forall|j: int| 0 <= j < d.features@.len() ==> texts_ascii(feature_texts(#[trigger] d.features@[j])),
            forall|j: int| 0 <= j < i ==> texts_ascii(route_texts(#[trigger] d.routes@[j])),
        decreases d.routes.len() - i,
    {
        let x = &d.routes[i];
        let v: Vec<(&'static str, &str)> = vec![("route.id", x.id.as_str()), ("route.title", x.title.as_str())];
        assert(pair_views(v@) =~= route_texts(d.routes@[i as int]));
        check_texts(&v)?;
        i += 1;
    }
    let mut i: usize = 0;
    while i < d.edges.len()
        invariant
            i <= d.edges.len(),
            texts_ascii(head_texts(*d)),
            forall|j: int| 0 <= j < d.subjects@.len() ==> texts_ascii(subject_texts(#[trigger] d.subjects@[j])),
            forall|j: int| 0 <= j < d.anchors@.len() ==> texts_ascii(anchor_texts(#[trigger] d.anchors@[j])),
            forall|j: int| 0 <= j < d.surfaces@.len() ==> texts_ascii(surface_texts(#[trigger] d.surfaces@[j])),
            forall|j: int| 0 <= j < d.specimens@.len() ==> texts_ascii(specimen_texts(#[trigger] d.specimens@[j])),
            forall|j: int| 0 <= j < d.drafts@.len() ==> texts_ascii(draft_texts(#[trigger] d.drafts@[j])),
            forall|j: int| 0 <= j < d.features@.len() ==> texts_ascii(feature_texts(#[trigger] d.features@[j])),
            forall|j: int| 0 <= j < d.routes@.len() ==> texts_ascii(route_texts(#[trigger] d.routes@[j])),
            forall|j: int| 0 <= j < i ==> texts_ascii(edge_texts(#[trigger] d.edges@[j])),
        decreases d.edges.len() - i,
    {
        let x = &d.edges[i];
        let v: Vec<(&'static str, &str)> = vec![
            ("edge.from", x.from.as_str()),
            ("edge.rel", x.rel.as_str()),
            ("edge.to", x.to.as_str()),
        ];
        assert(pair_views(v@) =~= edge_texts(d.edges@[i as int]));
        check_texts(&v)?;
        i += 1;
    }
    Ok(())
}

// ---------------------------------------------------------------------------
// Id grammar.
// ---------------------------------------------------------------------------
/// A list of ids, each with the kind of id it is reported as, all
/// satisfying the id grammar.
pub open spec fn ids_valid(ids: Seq<(Seq<char>, Seq<char>)>) -> bool {
    forall|j: int| 0 <= j < ids.len() ==> index_id(#[trigger] ids[j].1)
}

/// `(kind, id)` is the first id of the list that breaks the id grammar.
pub open spec fn first_invalid_id(ids: Seq<(Seq<char>, Seq<char>)>, kind: Seq<char>, id: Seq<char>) -> bool {
    exists|i: int|
        0 <= i < ids.len() && #[trigger] ids[i] == (kind, id) && !index_id(ids[i].1) && ids_valid(ids.take(i))
}

/// The ids the id grammar rule reads of a subject, in order.
pub open spec fn subject_id_list(r: crate::index::model::SubjectRecord) -> Seq<(Seq<char>, Seq<char>)> {
    seq![("subject"@, r.id@)]
}

/// The ids the id grammar rule reads of an anchor, in order.
pub open spec fn anchor_id_list(r: crate::index::model::DiscoveredAnchor) -> Seq<(Seq<char>, Seq<char>)> {
    seq![("anchor"@, r.id@), ("subject"@, r.subject@)]
}

/// The ids the id grammar rule reads of a surface, in order.
pub open spec fn surface_id_list(r: crate::index::model::DiscoveredSurface) -> Seq<(Seq<char>, Seq<char>)> {
    seq![("surface"@, r.id@), ("subject"@, r.subject@)]
}

/// The ids the id grammar rule reads of a specimen, in order.
pub open spec fn specimen_id_list(r: DiscoveredSpecimen) -> Seq<(Seq<char>, Seq<char>)> {
    seq![("specimen"@, r.id@), ("subject"@, r.subject@)]
}

/// The ids the id grammar rule reads of a draft, in order.
pub open spec fn draft_id_list(r: FeatureDraft) -> Seq<(Seq<char>, Seq<char>)> {
    seq![("feature"@, r.id@), ("subject"@, r.subject@)]
}

/// The ids the id grammar rule reads of a feature, in order: its id, its
/// subject, then its canonical key.
pub open spec fn feature_id_list(r: FeatureRecord) -> Seq<(Seq<char>, Seq<char>)> {
    seq![("feature"@, r.id@), ("subject"@, r.subject@), ("canonical-key"@, r.key@)]
}

/// The ids the id grammar rule reads of a route.
pub open spec fn route_id_list(r: crate::index::model::RouteRecord) -> Seq<(Seq<char>, Seq<char>)> {
    seq![("route"@, r.id@)]
}

/// The ids the id grammar rule reads of an edge, in order.
pub open spec fn edge_id_list(r: IndexEdge) -> Seq<(Seq<char>, Seq<char>)> {
    seq![("edge"@, r.from@), ("edge"@, r.to@)]
}

/// Every id, canonical key and edge endpoint satisfies the id grammar.
pub open spec fn ids_ok(d: IndexDoc) -> bool {
    &&& forall|j: int| 0 <= j < d.subjects@.len() ==> ids_valid(subject_id_list(#[trigger] d.subjects@[j]))
    &&& forall|j: int| 0 <= j < d.anchors@.len() ==> ids_valid(anchor_id_list(#[trigger] d.anchors@[j]))
    &&& forall|j: int| 0 <= j < d.surfaces@.len() ==> ids_valid(surface_id_list(#[trigger] d.surfaces@[j]))
    &&& forall|j: int| 0 <= j < d.specimens@.len() ==> ids_valid(specimen_id_list(#[trigger] d.specimens@[j]))
    &&& forall|j: int| 0 <= j < d.drafts@.len() ==> ids_valid(draft_id_list(#[trigger] d.drafts@[j]))
    &&& forall|j: int| 0 <= j < d.features@.len() ==> ids_valid(feature_id_list(#[trigger] d.features@[j]))
    &&& forall|j: int| 0 <= j < d.routes@.len() ==> ids_valid(route_id_list(#[trigger] d.routes@[j]))
    &&& forall|j: int| 0 <= j < d.edges@.len() ==> ids_valid(edge_id_list(#[trigger] d.edges@[j]))
}

/// The refusal names the first text in scan order (subjects, anchors,
/// surfaces, specimens, drafts, features, routes, then edges, each row's
/// ids in order) that breaks the id grammar, with the kind of id it is.
pub open spec fn invalid_id_error(d: IndexDoc, e: IndexError) -> bool {
    e matches IndexError::InvalidId { kind, id } && {
        let (k, x) = (kind@, id@);
        let sub = forall|j: int| 0 <= j < d.subjects@.len() ==> ids_valid(subject_id_list(#[trigger] d.subjects@[j]));
        let anc = forall|j: int| 0 <= j < d.anchors@.len() ==> ids_valid(anchor_id_list(#[trigger] d.anchors@[j]));
        let sur = forall|j: int| 0 <= j < d.surfaces@.len() ==> ids_valid(surface_id_list(#[trigger] d.surfaces@[j]));
        let spe = forall|j: int| 0 <= j < d.specimens@.len() ==> ids_valid(specimen_id_list(#[trigger] d.specimens@[j]));
        let dra = forall|j: int| 0 <= j < d.drafts@.len() ==> ids_valid(draft_id_list(#[trigger] d.drafts@[j]));
        let fea = forall|j: int| 0 <= j < d.features@.len() ==> ids_valid(feature_id_list(#[trigger] d.features@[j]));
        let rou = forall|j: int| 0 <= j < d.routes@.len() ==> ids_valid(route_id_list(#[trigger] d.routes@[j]));
        ||| exists|a: int| 0 <= a < d.subjects@.len() && (forall|j: int| 0 <= j < a ==> ids_valid(subject_id_list(#[trigger] d.subjects@[j]))) && first_invalid_id(subject_id_list(#[trigger] d.subjects@[a]), k, x)
        ||| sub && exists|a: int| 0 <= a < d.anchors@.len() && (forall|j: int| 0 <= j < a ==> ids_valid(anchor_id_list(#[trigger] d.anchors@[j]))) && first_invalid_id(anchor_id_list(#[trigger] d.anchors@[a]), k, x)
        ||| sub && anc && exists|a: int| 0 <= a < d.surfaces@.len() && (forall|j: int| 0 <= j < a ==> ids_valid(surface_id_list(#[trigger] d.surfaces@[j]))) && first_invalid_id(surface_id_list(#[trigger] d.surfaces@[a]), k, x)
        ||| sub && anc && sur && exists|a: int| 0 <= a < d.specimens@.len() && (forall|j: int| 0 <= j < a ==> ids_valid(specimen_id_list(#[trigger] d.specimens@[j]))) && first_invalid_id(specimen_id_list(#[trigger] d.specimens@[a]), k, x)
        ||| sub && anc && sur && spe && exists|a: int| 0 <= a < d.drafts@.len() && (forall|j: int| 0 <= j < a ==> ids_valid(draft_id_list(#[trigger] d.drafts@[j]))) && first_invalid_id(draft_id_list(#[trigger] d.drafts@[a]), k, x)
        ||| sub && anc && sur && spe && dra && exists|a: int| 0 <= a < d.features@.len() && (forall|j: int| 0 <= j < a ==> ids_valid(feature_id_list(#[trigger] d.features@[j]))) && first_invalid_id(feature_id_list(#[trigger] d.features@[a]), k, x)
        ||| sub && anc && sur && spe && dra && fea && exists|a: int| 0 <= a < d.routes@.len() && (forall|j: int| 0 <= j < a ==> ids_valid(route_id_list(#[trigger] d.routes@[j]))) && first_invalid_id(route_id_list(#[trigger] d.routes@[a]), k, x)
        ||| sub && anc && sur && spe && dra && fea && rou && exists|a: int| 0 <= a < d.edges@.len() && (forall|j: int| 0 <= j < a ==> ids_valid(edge_id_list(#[trigger] d.edges@[j]))) && first_invalid_id(edge_id_list(#[trigger] d.edges@[a]), k, x)
    }
}

/// Refuses the first id of the list that breaks the id grammar, as its kind.
fn check_ids(pairs: &Vec<(&'static str, &str)>) -> (r: Result<(), IndexError>)
    ensures
        r is Ok <==> ids_valid(pair_views(pairs@)),
        r matches Err(e) ==> (e matches IndexError::InvalidId { kind, id } && first_invalid_id(
            pair_views(pairs@),
            kind@,
            id@,
        )),
{
    let ghost t = pair_views(pairs@);
    let mut i: usize = 0;
    while i < pairs.len()
        invariant
            i <= pairs@.len(),
            t == pair_views(pairs@),
            ids_valid(t.take(i as int)),
        decreases pairs@.len() - i,
    {
        let (kind, id) = pairs[i];
        assert(t[i as int] == (kind@, id@));
        if !is_index_id(id) {
            assert(!index_id(t[i as int].1));
            return Err(IndexError::InvalidId { kind, id: owned(id) });
        }
        assert forall|j: int| 0 <= j < i + 1 implies index_id(#[trigger] t.take(i + 1)[j].1) by {
            if j < i {
                assert(t.take(i + 1)[j] == t.take(i as int)[j]);
            }
        }
        i += 1;
    }
    assert(t.take(i as int) =~= t);
    Ok(())
}

fn reject_invalid_ids(d: &IndexDoc) -> (r: Result<(), IndexError>)
    ensures
        r is Ok <==> ids_ok(*d),
        r matches Err(e) ==> invalid_id_error(*d, e),
{
    let mut i: usize = 0;
    while i < d.subjects.len()
        invariant
            i <= d.subjects.len(),
            forall|j: int| 0 <= j < i ==> ids_valid(subject_id_list(#[trigger] d.subjects@[j])),
        decreases d.subjects.len() - i,
    {
        let v: Vec<(&'static str, &str)> = vec![("subject", d.subjects[i].id.as_str())];
        assert(pair_views(v@) =~= subject_id_list(d.subjects@[i as int]));
        check_ids(&v)?;
        i += 1;
    }
    let mut i: usize = 0;
    while i < d.anchors.len()
        invariant
            i <= d.anchors.len(),
            forall|j: int| 0 <= j < d.subjects@.len() ==> ids_valid(subject_id_list(#[trigger] d.subjects@[j])),
            forall|j: int| 0 <= j < i ==> ids_valid(anchor_id_list(#[trigger] d.anchors@[j])),
        decreases d.anchors.len() - i,
    {
        let x = &d.anchors[i];
        let v: Vec<(&'static str, &str)> = vec![("anchor", x.id.as_str()), ("subject", x.subject.as_str())];
        assert(pair_views(v@) =~= anchor_id_list(d.anchors@[i as int]));
        check_ids(&v)?;
        i += 1;
    }
    let mut i: usize = 0;
    while i < d.surfaces.len()
        invariant
            i <= d.surfaces.len(),
            forall|j: int| 0 <= j < d.subjects@.len() ==> ids_valid(subject_id_list(#[trigger] d.subjects@[j])),
            forall|j: int| 0 <= j < d.anchors@.len() ==> ids_valid(anchor_id_list(#[trigger] d.anchors@[j])),
            forall|j: int| 0 <= j < i ==> ids_valid(surface_id_list(#[trigger] d.surfaces@[j])),
        decreases d.surfaces.len() - i,
    {
        let x = &d.surfaces[i];
        let v: Vec<(&'static str, &str)> = vec![("surface", x.id.as_str()), ("subject", x.subject.as_str())];
        assert(pair_views(v@) =~= surface_id_list(d.surfaces@[i as int]));
        check_ids(&v)?;
        i += 1;
    }
    let mut i: usize = 0;
    while i < d.specimens.len()
        invariant
            i <= d.specimens.len(),
            forall|j: int| 0 <= j < d.subjects@.len() ==> ids_valid(subject_id_list(#[trigger] d.subjects@[j])),
            forall|j: int| 0 <= j < d.anchors@.len() ==> ids_valid(anchor_id_list(#[trigger] d.anchors@[j])),
            forall|j: int| 0 <= j < d.surfaces@.len() ==> ids_valid(surface_id_list(#[trigger] d.surfaces@[j])),
            forall|j: int| 0 <= j < i ==> ids_valid(specimen_id_list(#[trigger] d.specimens@[j])),
        decreases d.specimens.len() - i,
    {
        let x = &d.specimens[i];
        let v: Vec<(&'static str, &str)> = vec![("specimen", x.id.as_str()), ("subject", x.subject.as_str())];
        assert(pair_views(v@) =~= specimen_id_list(d.specimens@[i as int]));
        check_ids(&v)?;
        i += 1;
    }
    let mut i: usize = 0;
    while i < d.drafts.len()
        invariant
            i <= d.drafts.len(),
            forall|j: int| 0 <= j < d.subjects@.len() ==> ids_valid(subject_id_list(#[trigger] d.subjects@[j])),
            forall|j: int| 0 <= j < d.anchors@.len() ==> ids_valid(anchor_id_list(#[trigger] d.anchors@[j])),
            forall|j: int| 0 <= j < d.surfaces@.len() ==> ids_valid(surface_id_list(#[trigger] d.surfaces@[j])),
            forall|j: int| 0 <= j < d.specimens@.len() ==> ids_valid(specimen_id_list(#[trigger] d.specimens@[j])),
            forall|j: int| 0 <= j < i ==> ids_valid(draft_id_list(#[trigger] d.drafts@[j])),
        decreases d.drafts.len() - i,
    {
        let x = &d.drafts[i];
        let v: Vec<(&'static str, &str)> = vec![("feature", x.id.as_str()), ("subject", x.subject.as_str())];
        assert(pair_views(v@) =~= draft_id_list(d.drafts@[i as int]));
        check_ids(&v)?;
        i += 1;
    }
    let mut i: usize = 0;
    while i < d.features.len()
        invariant
            i <= d.features.len(),
            forall|j: int| 0 <= j < d.subjects@.len() ==> ids_valid(subject_id_list(#[trigger] d.subjects@[j])),
            forall|j: int| 0 <= j < d.anchors@.len() ==> ids_valid(anchor_id_list(#[trigger] d.anchors@[j])),
            forall|j: int| 0 <= j < d.surfaces@.len() ==> ids_valid(surface_id_list(#[trigger] d.surfaces@[j])),
            forall|j: int| 0 <= j < d.specimens@.len() ==> ids_valid(specimen_id_list(#[trigger] d.specimens@[j])),
            forall|j: int| 0 <= j < d.drafts@.len() ==> ids_valid(draft_id_list(#[trigger] d.drafts@[j])),
            forall|j: int| 0 <= j < i ==> ids_valid(feature_id_list(#[trigger] d.features@[j])),
        decreases d.features.len() - i,
    {
        let x = &d.features[i];
        let v: Vec<(&'static str, &str)> = vec![
            ("feature", x.id.as_str()),
            ("subject", x.subject.as_str()),
            ("canonical-key", x.key.as_str()),
        ];
        assert(pair_views(v@) =~= feature_id_list(d.features@[i as int]));
        check_ids(&v)?;
        i += 1;
    }
    let mut i: usize = 0;
    while i < d.routes.len()
        invariant
            i <= d.routes.len(),
            forall|j: int| 0 <= j < d.subjects@.len() ==> ids_valid(subject_id_list(#[trigger] d.subjects@[j])),
            forall|j: int| 0 <= j < d.anchors@.len() ==> ids_valid(anchor_id_list(#[trigger] d.anchors@[j])),
            forall|j: int| 0 <= j < d.surfaces@.len() ==> ids_valid(surface_id_list(#[trigger] d.surfaces@[j])),
            forall|j: int| 0 <= j < d.specimens@.len() ==> ids_valid(specimen_id_list(#[trigger] d.specimens@[j])),
            forall|j: int| 0 <= j < d.drafts@.len() ==> ids_valid(draft_id_list(#[trigger] d.drafts@[j])),
            forall|j: int| 0 <= j < d.features@.len() ==> ids_valid(feature_id_list(#[trigger] d.features@[j])),
            forall|j: int| 0 <= j < i ==> ids_valid(route_id_list(#[trigger] d.routes@[j])),
        decreases d.routes.len() - i,
    {
        let v: Vec<(&'static str, &str)> = vec![("route", d.routes[i].id.as_str())];
        assert(pair_views(v@) =~= route_id_list(d.routes@[i as int]));
        check_ids(&v)?;
        i += 1;
    }
    let mut i: usize = 0;
    while i < d.edges.len()
        invariant
            i <= d.edges.len(),
            forall|j: int| 0 <= j < d.subjects@.len() ==> ids_valid(subject_id_list(#[trigger] d.subjects@[j])),
            forall|j: int| 0 <= j < d.anchors@.len() ==> ids_valid(anchor_id_list(#[trigger] d.anchors@[j])),
            forall|j: int| 0 <= j < d.surfaces@.len() ==> ids_valid(surface_id_list(#[trigger] d.surfaces@[j])),
            forall|j: int| 0 <= j < d.specimens@.len() ==> ids_valid(specimen_id_list(#[trigger] d.specimens@[j])),
            forall|j: int| 0 <= j < d.drafts@.len() ==> ids_valid(draft_id_list(#[trigger] d.drafts@[j])),
            forall|j: int| 0 <= j < d.features@.len() ==> ids_valid(feature_id_list(#[trigger] d.features@[j])),
            forall|j: int| 0 <= j < d.routes@.len() ==> ids_valid(route_id_list(#[trigger] d.routes@[j])),
            forall|j: int| 0 <= j < i ==> ids_valid(edge_id_list(#[trigger] d.edges@[j])),
        decreases d.edges.len() - i,
    {
        let x = &d.edges[i];
        let v: Vec<(&'static str, &str)> = vec![("edge", x.from.as_str()), ("edge", x.to.as_str())];
        assert(pair_views(v@) =~= edge_id_list(d.edges@[i as int]));
        check_ids(&v)?;
        i += 1;
    }
    Ok(())
}

// ---------------------------------------------------------------------------
// Duplicate ids.
// ---------------------------------------------------------------------------
/// No collection repeats an id.
pub open spec fn distinct_ok(d: IndexDoc) -> bool {
    distinct(subject_ids(d)) && distinct(anchor_ids(d)) && distinct(surface_ids(d)) && distinct(
        specimen_ids(d),
    ) && distinct(draft_ids(d)) && distinct(feature_ids(d)) && distinct(route_ids(d))
}

fn duplicates(kind: &'static str, list: &Vec<&str>) -> (r: Result<(), IndexError>)
    ensures
        r is Ok <==> distinct(strs_of(list@)),
        r matches Err(x) ==> (x matches IndexError::DuplicateId { kind: k, id } && k == kind && repeated(
            strs_of(list@),
            id@,
        ) && first_repeated(strs_of(list@), id@)),
{
    match first_repeat(list) {
        Some(j) => Err(IndexError::DuplicateId
         { kind, id: owned(list[j]) }),
        None => Ok(()),
    }
}

/// The refusal names the first id that repeats an earlier one of its kind,
/// kinds taken in scan order (subjects, anchors, surfaces, specimens,
/// drafts, features, routes).
pub open spec fn duplicate_id_error(d: IndexDoc, x: IndexError) -> bool {
    x matches IndexError::DuplicateId { kind, id } && {
        let (k, i) = (kind@, id@);
        let sub = distinct(subject_ids(d));
        let anc = distinct(anchor_ids(d));
        let sur = distinct(surface_ids(d));
        let spe = distinct(specimen_ids(d));
        let dra = distinct(draft_ids(d));
        let fea = distinct(feature_ids(d));
        ||| k == "subject"@ && first_repeated(subject_ids(d), i)
        ||| sub && k == "anchor"@ && first_repeated(anchor_ids(d), i)
        ||| sub && anc && k == "surface"@ && first_repeated(surface_ids(d), i)
        ||| sub && anc && sur && k == "specimen"@ && first_repeated(specimen_ids(d), i)
        ||| sub && anc && sur && spe && k == "draft"@ && first_repeated(draft_ids(d), i)
        ||| sub && anc && sur && spe && dra && k == "feature"@ && first_repeated(feature_ids(d), i)
        ||| sub && anc && sur && spe && dra && fea && k == "route"@ && first_repeated(route_ids(d), i)
    }
}

fn reject_duplicate_ids(d: &IndexDoc) -> (r: Result<(), IndexError>)
    ensures
        r is Ok <==> distinct_ok(*d),
        r matches Err(x) ==> duplicate_id_error(*d, x),
{
    duplicates("subject", &subject_list(d))?;
    duplicates("anchor", &anchor_list(d))?;
    duplicates("surface", &surface_list(d))?;
    duplicates("specimen", &specimen_list(d))?;
    duplicates("draft", &draft_list(d))?;
    duplicates("feature", &feature_list(d))?;
    duplicates("route", &route_list(d))?;
    Ok(())
}


// ---------------------------------------------------------------------------
// Exact duplicate rows and source units.
// ---------------------------------------------------------------------------
/// Byte length of a text in UTF-8, as `str::len` reports it.
pub open spec fn blen(s: Seq<char>) -> usize {
    vstd::utf8::encode_utf8(s).len() as usize
}

/// Two source units agree field for field.
pub open spec fn same_unit(a: SourceUnit, b: SourceUnit) -> bool {
    a.subject@ == b.subject@ && a.path@ == b.path@ && a.reachability == b.reachability
        && a.completeness == b.completeness && a.reason@ == b.reason@ && a.retained_bound
        == b.retained_bound && a.declaration_count == b.declaration_count
}

/// Two edges agree field for field.
pub open spec fn same_edge(a: IndexEdge, b: IndexEdge) -> bool {
    a.from@ == b.from@ && a.rel@ == b.rel@ && a.to@ == b.to@
}

/// No source unit and no edge appears twice.
pub open spec fn rows_ok(d: IndexDoc) -> bool {
    &&& forall|i: int, j: int|
        0 <= i < j < d.source_units@.len() ==> !same_unit(
            #[trigger] d.source_units@[i],
            #[trigger] d.source_units@[j],
        )
    &&& forall|i: int, j: int|
        0 <= i < j < d.edges@.len() ==> !same_edge(#[trigger] d.edges@[i], #[trigger] d.edges@[j])
}

/// Edge `index` agrees with an earlier edge on source, relationship and
/// target.
pub open spec fn repeats_earlier_edge(d: IndexDoc, index: int) -> bool {
    0 <= index < d.edges@.len() && exists|a: int|
        0 <= a < index && (#[trigger] d.edges@[a]).from@ == d.edges@[index].from@ && d.edges@[a].rel@
            == d.edges@[index].rel@ && d.edges@[a].to@ == d.edges@[index].to@
}

/// Two edges are the same row exactly when they agree on source,
/// relationship and target; two source units exactly when they agree on
/// every field. So the exact-duplicate rule accepts a document exactly when
/// no two edges agree on all of source, relationship and target and no two
/// source units agree on every field, and an edge it refuses repeats all of
/// source, relationship and target of an earlier edge.
pub proof fn lemma_exact_duplicates(d: IndexDoc, x: IndexError)
    ensures
        rows_ok(d) <==> (forall|i: int, j: int|
            0 <= i < j < d.source_units@.len() ==> !({
                let (a, b) = (#[trigger] d.source_units@[i], #[trigger] d.source_units@[j]);
                &&& a.subject@ == b.subject@
                &&& a.path@ == b.path@
                &&& a.reachability == b.reachability
                &&& a.completeness == b.completeness
                &&& a.reason@ == b.reason@
                &&& a.retained_bound == b.retained_bound
                &&& a.declaration_count == b.declaration_count
            })) && (forall|i: int, j: int|
            0 <= i < j < d.edges@.len() ==> !((#[trigger] d.edges@[i]).from@ == (#[trigger] d.edges@[j]).from@
                && d.edges@[i].rel@ == d.edges@[j].rel@ && d.edges@[i].to@ == d.edges@[j].to@)),
        duplicate_row_error(d, x) ==> (x matches IndexError::DuplicateExactRow { family, index } && (family
            == IndexRowFamily::Edge ==> repeats_earlier_edge(d, index as int))),
{
}

fn reach_rank(r: SourceReachability) -> (n: u8)
    ensures
        n == (match r {
            SourceReachability::Reachable => 0u8,
            SourceReachability::Unreachable => 1u8,
        }),
{
    match r {
        SourceReachability::Reachable => 0,
        SourceReachability::Unreachable => 1,
    }
}

fn completeness_rank(c: SourceCompleteness) -> (n: u8)
    ensures
        n == completeness_num(c),
{
    match c {
        SourceCompleteness::Complete => 0,
        SourceCompleteness::Malformed => 1,
        SourceCompleteness::Unreadable => 2,
        SourceCompleteness::Truncated => 3,
        SourceCompleteness::Unsupported => 4,
        SourceCompleteness::Unresolved => 5,
    }
}

/// The position of a scan outcome in its declaration order.
pub open spec fn completeness_num(c: SourceCompleteness) -> u8 {
    match c {
        SourceCompleteness::Complete => 0,
        SourceCompleteness::Malformed => 1,
        SourceCompleteness::Unreadable => 2,
        SourceCompleteness::Truncated => 3,
        SourceCompleteness::Unsupported => 4,
        SourceCompleteness::Unresolved => 5,
    }
}

fn same_unit_exec(a: &SourceUnit, b: &SourceUnit) -> (r: bool)
    ensures
        r == same_unit(*a, *b),
{
    str_eq(a.subject.as_str(), b.subject.as_str()) && str_eq(a.path.as_str(), b.path.as_str())
        && reach_rank(a.reachability) == reach_rank(b.reachability) && completeness_rank(
        a.completeness,
    ) == completeness_rank(b.completeness) && str_eq(a.reason.as_str(), b.reason.as_str())
        && a.retained_bound.max_bytes == b.retained_bound.max_bytes
        && a.retained_bound.truncated == b.retained_bound.truncated && a.declaration_count
        == b.declaration_count
}

fn same_edge_exec(a: &IndexEdge, b: &IndexEdge) -> (r: bool)
    ensures
        r == same_edge(*a, *b),
{
    str_eq(a.from.as_str(), b.from.as_str()) && str_eq(a.rel.as_str(), b.rel.as_str()) && str_eq(
        a.to.as_str(),
        b.to.as_str(),
    )
}

fn reject_duplicate_rows(d: &IndexDoc) -> (r: Result<(), IndexError>)
    ensures
        r is Ok <==> rows_ok(*d),
        r matches Err(x) ==> duplicate_row_error(*d, x),
{
    let mut j: usize = 0;
    while j < d.source_units.len()
        invariant
            j <= d.source_units.len(),
            forall|a: int, b: int|
                0 <= a < b < j ==> !same_unit(
                    #[trigger] d.source_units@[a],
                    #[trigger] d.source_units@[b],
                ),
        decreases d.source_units.len() - j,
    {
        let mut i: usize = 0;
        while i < j
            invariant
                i <= j < d.source_units.len(),
                forall|a: int| 0 <= a < i ==> !same_unit(d.source_units@[a], d.source_units@[j as int]),
            decreases j - i,
        {
            if same_unit_exec(&d.source_units[i], &d.source_units[j]) {
                return Err(IndexError::DuplicateExactRow { family: IndexRowFamily::SourceUnit, index: j });
            }
            i += 1;
        }
        j += 1;
    }
    let mut j: usize = 0;
    while j < d.edges.len()
        invariant
            j <= d.edges.len(),
            forall|a: int, b: int| 0 <= a < b < d.source_units@.len() ==> !same_unit(
                #[trigger] d.source_units@[a],
                #[trigger] d.source_units@[b],
            ),
            forall|a: int, b: int|
                0 <= a < b < j ==> !same_edge(#[trigger] d.edges@[a], #[trigger] d.edges@[b]),
        decreases d.edges.len() - j,
    {
        let mut i: usize = 0;
        while i < j
            invariant
                i <= j < d.edges.len(),
                forall|a: int| 0 <= a < i ==> !same_edge(d.edges@[a], d.edges@[j as int]),
            decreases j - i,
        {
            if same_edge_exec(&d.edges[i], &d.edges[j]) {
                return Err(IndexError::DuplicateExactRow { family: IndexRowFamily::Edge, index: j });
            }
            i += 1;
        }
        j += 1;
    }
    Ok(())
}

/// Longest accepted source-unit reason, in UTF-8 bytes.
pub const MAX_SOURCE_REASON_BYTES: usize = 512;

/// The rules of one source unit: a bounded reason that is empty exactly
/// when the scan was complete, a positive retention bound, and a truncation
/// flag set exactly for truncated scans.
pub open spec fn unit_ok(u: SourceUnit) -> bool {
    &&& blen(u.reason@) <= MAX_SOURCE_REASON_BYTES
    &&& (u.completeness == SourceCompleteness::Complete) == (u.reason@.len() == 0)
    &&& u.retained_bound.truncated == (u.completeness == SourceCompleteness::Truncated)
    &&& u.retained_bound.max_bytes > 0
}

/// Source-unit rules; a strict check also wants every reachable unit
/// completely scanned.
pub open spec fn units_ok(d: IndexDoc, strict: bool) -> bool {
    forall|i: int|
        0 <= i < d.source_units@.len() ==> unit_ok(#[trigger] d.source_units@[i]) && (strict
            ==> (d.source_units@[i].reachability == SourceReachability::Reachable
            ==> d.source_units@[i].completeness == SourceCompleteness::Complete))
}

/// The refusal names, by path, a source unit that breaks the unit rules,
/// or, in a strict check, a reachable unit not completely scanned, with
/// its scan outcome.
pub open spec fn unit_error(d: IndexDoc, strict: bool, x: IndexError) -> bool {
    exists|i: int|
        0 <= i < d.source_units@.len() && {
            let u = #[trigger] d.source_units@[i];
            ||| (x matches IndexError::InvalidSourceUnit { path } && path@ == u.path@) && !unit_ok(u)
            ||| (x matches IndexError::IncompleteReachableSource { path, state } && path@ == u.path@
                && state@ == completeness_label(u.completeness)) && strict && unit_ok(u)
                && u.reachability == SourceReachability::Reachable && u.completeness
                != SourceCompleteness::Complete
        }
}

fn reject_invalid_source_units(d: &IndexDoc, strict: bool) -> (r: Result<(), IndexError>)
    ensures
        r is Ok <==> units_ok(*d, strict),
        r matches Err(x) ==> unit_error(*d, strict, x),
{
    let mut i: usize = 0;
    while i < d.source_units.len()
        invariant
            i <= d.source_units.len(),
            forall|k: int|
                0 <= k < i ==> unit_ok(#[trigger] d.source_units@[k]) && (strict
                    ==> (d.source_units@[k].reachability == SourceReachability::Reachable
                    ==> d.source_units@[k].completeness == SourceCompleteness::Complete)),
        decreases d.source_units.len() - i,
    {
        let u = &d.source_units[i];
        let complete = completeness_rank(u.completeness) == 0;
        let truncated = completeness_rank(u.completeness) == 3;
        if u.reason.as_str().len() > MAX_SOURCE_REASON_BYTES || complete != u.reason.as_str().is_empty()
            || u.retained_bound.truncated != truncated || u.retained_bound.max_bytes == 0 {
            return Err(IndexError::InvalidSourceUnit { path: u.path.clone() });
        }
        if strict && reach_rank(u.reachability) == 0 && !complete {
            return Err(
                IndexError::IncompleteReachableSource {
                    path: u.path.clone(),
                    state: u.completeness.as_str(),
                },
            );
        }
        i += 1;
    }
    Ok(())
}


// ---------------------------------------------------------------------------
// Source facts.
// ---------------------------------------------------------------------------
/// The position of a declaration role in its declaration order.
pub open spec fn role_num(r: DeclarationRole) -> u8 {
    match r {
        DeclarationRole::Const => 0,
        DeclarationRole::Enum => 1,
        DeclarationRole::Function => 2,
        DeclarationRole::Module => 3,
        DeclarationRole::ReExport => 4,
        DeclarationRole::Static => 5,
        DeclarationRole::Struct => 6,
        DeclarationRole::Trait => 7,
        DeclarationRole::TypeAlias => 8,
    }
}

fn role_rank(r: DeclarationRole) -> (n: u8)
    ensures
        n == role_num(r),
{
    match r {
        DeclarationRole::Const => 0,
        DeclarationRole::Enum => 1,
        DeclarationRole::Function => 2,
        DeclarationRole::Module => 3,
        DeclarationRole::ReExport => 4,
        DeclarationRole::Static => 5,
        DeclarationRole::Struct => 6,
        DeclarationRole::Trait => 7,
        DeclarationRole::TypeAlias => 8,
    }
}

/// The position of an unresolved reason in its declaration order.
pub open spec fn reason_num(r: UnresolvedReason) -> u8 {
    match r {
        UnresolvedReason::AmbiguousGlobImport => 0,
        UnresolvedReason::AmbiguousName => 1,
        UnresolvedReason::ExternalMetadataAbsent => 2,
    }
}

fn reason_rank(r: UnresolvedReason) -> (n: u8)
    ensures
        n == reason_num(r),
{
    match r {
        UnresolvedReason::AmbiguousGlobImport => 0,
        UnresolvedReason::AmbiguousName => 1,
        UnresolvedReason::ExternalMetadataAbsent => 2,
    }
}

/// Views of a list of strings.
pub open spec fn texts(v: Seq<String>) -> Seq<Seq<char>> {
    v.map_values(|s: String| s@)
}

/// Lexicographic strict order on lists of texts.
pub open spec fn strs_lt(a: Seq<Seq<char>>, b: Seq<Seq<char>>) -> bool
    decreases a.len(),
{
    if b.len() == 0 {
        false
    } else if a.len() == 0 {
        true
    } else if a[0] != b[0] {
        seq_lt(a[0], b[0])
    } else {
        strs_lt(a.drop_first(), b.drop_first())
    }
}

fn strs_lt_exec(a: &Vec<String>, b: &Vec<String>) -> (r: bool)
    ensures
        r == strs_lt(texts(a@), texts(b@)),
{
    let ghost x = texts(a@);
    let ghost y = texts(b@);
    let mut k: usize = 0;
    assert(x.skip(0) =~= x);
    assert(y.skip(0) =~= y);
    while k < a.len() && k < b.len() && str_eq(a[k].as_str(), b[k].as_str())
        invariant
            k <= a.len(),
            k <= b.len(),
            x == texts(a@),
            y == texts(b@),
            strs_lt(x, y) == strs_lt(x.skip(k as int), y.skip(k as int)),
        decreases a.len() - k,
    {
        assert(x.skip(k as int).drop_first() =~= x.skip(k + 1));
        assert(y.skip(k as int).drop_first() =~= y.skip(k + 1));
        k += 1;
    }
    if k == b.len() {
        false
    } else if k == a.len() {
        true
    } else {
        str_lt(a[k].as_str(), b[k].as_str())
    }
}

/// The derived order of syntax bounds.
pub open spec fn bound_lt(a: SyntaxBound, b: SyntaxBound) -> bool {
    a.max_bytes < b.max_bytes || (a.max_bytes == b.max_bytes && !a.truncated && b.truncated)
}

/// The derived order of declaration facts: field by field.
pub open spec fn decl_lt(a: DeclarationFact, b: DeclarationFact) -> bool {
    if a.anchor@ != b.anchor@ {
        seq_lt(a.anchor@, b.anchor@)
    } else if role_num(a.role) != role_num(b.role) {
        role_num(a.role) < role_num(b.role)
    } else if a.path_in_crate@ != b.path_in_crate@ {
        seq_lt(a.path_in_crate@, b.path_in_crate@)
    } else if a.generics@ != b.generics@ {
        seq_lt(a.generics@, b.generics@)
    } else if texts(a.members@) != texts(b.members@) {
        strs_lt(texts(a.members@), texts(b.members@))
    } else if a.location.file@ != b.location.file@ {
        seq_lt(a.location.file@, b.location.file@)
    } else if a.location.declaration != b.location.declaration {
        a.location.declaration < b.location.declaration
    } else {
        bound_lt(a.syntax_bound, b.syntax_bound)
    }
}

/// The derived order of protocol resolutions.
pub open spec fn resolution_lt(a: ProtocolResolution, b: ProtocolResolution) -> bool {
    match (a, b) {
        (ProtocolResolution::Resolved { protocol: p }, ProtocolResolution::Resolved { protocol: q }) => seq_lt(p@, q@),
        (ProtocolResolution::Resolved { .. }, ProtocolResolution::Unresolved { .. }) => true,
        (ProtocolResolution::Unresolved { .. }, ProtocolResolution::Resolved { .. }) => false,
        (
            ProtocolResolution::Unresolved { reason: r, candidates: c },
            ProtocolResolution::Unresolved { reason: s, candidates: e },
        ) => if reason_num(r) != reason_num(s) {
            reason_num(r) < reason_num(s)
        } else {
            strs_lt(texts(c@), texts(e@))
        },
    }
}

/// The derived order of protocol relations: field by field.
pub open spec fn relation_lt(a: ProtocolRelation, b: ProtocolRelation) -> bool {
    if a.anchor@ != b.anchor@ {
        seq_lt(a.anchor@, b.anchor@)
    } else if a.implementor@ != b.implementor@ {
        seq_lt(a.implementor@, b.implementor@)
    } else if a.source_spelling@ != b.source_spelling@ {
        seq_lt(a.source_spelling@, b.source_spelling@)
    } else if a.body_fingerprint@ != b.body_fingerprint@ {
        seq_lt(a.body_fingerprint@, b.body_fingerprint@)
    } else if a.body_bound != b.body_bound {
        bound_lt(a.body_bound, b.body_bound)
    } else {
        resolution_lt(a.resolution, b.resolution)
    }
}

fn bound_lt_exec(a: SyntaxBound, b: SyntaxBound) -> (r: bool)
    ensures
        r == bound_lt(a, b),
{
    a.max_bytes < b.max_bytes || (a.max_bytes == b.max_bytes && !a.truncated && b.truncated)
}

fn strs_eq_exec(a: &Vec<String>, b: &Vec<String>) -> (r: bool)
    ensures
        r == (texts(a@) == texts(b@)),
{
    if a.len() != b.len() {
        assert(texts(a@).len() != texts(b@).len());
        return false;
    }
    let mut k: usize = 0;
    while k < a.len()
        invariant
            k <= a.len() == b.len(),
            forall|j: int| 0 <= j < k ==> a@[j]@ == b@[j]@,
        decreases a.len() - k,
    {
        if !str_eq(a[k].as_str(), b[k].as_str()) {
            assert(texts(a@)[k as int] != texts(b@)[k as int]);
            return false;
        }
        k += 1;
    }
    assert(texts(a@) =~= texts(b@));
    true
}

fn decl_lt_exec(a: &DeclarationFact, b: &DeclarationFact) -> (r: bool)
    ensures
        r == decl_lt(*a, *b),
{
    if !str_eq(a.anchor.as_str(), b.anchor.as_str()) {
        str_lt(a.anchor.as_str(), b.anchor.as_str())
    } else if role_rank(a.role) != role_rank(b.role) {
        role_rank(a.role) < role_rank(b.role)
    } else if !str_eq(a.path_in_crate.as_str(), b.path_in_crate.as_str()) {
        str_lt(a.path_in_crate.as_str(), b.path_in_crate.as_str())
    } else if !str_eq(a.generics.as_str(), b.generics.as_str()) {
        str_lt(a.generics.as_str(), b.generics.as_str())
    } else if !strs_eq_exec(&a.members, &b.members) {
        strs_lt_exec(&a.members, &b.members)
    } else if !str_eq(a.location.file.as_str(), b.location.file.as_str()) {
        str_lt(a.location.file.as_str(), b.location.file.as_str())
    } else if a.location.declaration != b.location.declaration {
        a.location.declaration < b.location.declaration
    } else {
        bound_lt_exec(a.syntax_bound, b.syntax_bound)
    }
}

fn resolution_lt_exec(a: &ProtocolResolution, b: &ProtocolResolution) -> (r: bool)
    ensures
        r == resolution_lt(*a, *b),
{
    match (a, b) {
        (ProtocolResolution::Resolved { protocol: p }, ProtocolResolution::Resolved { protocol: q }) => str_lt(p.as_str(), q.as_str()),
        (ProtocolResolution::Resolved { .. }, ProtocolResolution::Unresolved { .. }) => true,
        (ProtocolResolution::Unresolved { .. }, ProtocolResolution::Resolved { .. }) => false,
        (
            ProtocolResolution::Unresolved { reason: r, candidates: c },
            ProtocolResolution::Unresolved { reason: s, candidates: e },
        ) => {
            if reason_rank(*r) != reason_rank(*s) {
                reason_rank(*r) < reason_rank(*s)
            } else {
                strs_lt_exec(c, e)
            }
        },
    }
}

fn relation_lt_exec(a: &ProtocolRelation, b: &ProtocolRelation) -> (r: bool)
    ensures
        r == relation_lt(*a, *b),
{
    if !str_eq(a.anchor.as_str(), b.anchor.as_str()) {
        str_lt(a.anchor.as_str(), b.anchor.as_str())
    } else if !str_eq(a.implementor.as_str(), b.implementor.as_str()) {
        str_lt(a.implementor.as_str(), b.implementor.as_str())
    } else if !str_eq(a.source_spelling.as_str(), b.source_spelling.as_str()) {
        str_lt(a.source_spelling.as_str(), b.source_spelling.as_str())
    } else if !str_eq(a.body_fingerprint.as_str(), b.body_fingerprint.as_str()) {
        str_lt(a.body_fingerprint.as_str(), b.body_fingerprint.as_str())
    } else if a.body_bound.max_bytes != b.body_bound.max_bytes || a.body_bound.truncated
        != b.body_bound.truncated {
        bound_lt_exec(a.body_bound, b.body_bound)
    } else {
        resolution_lt_exec(&a.resolution, &b.resolution)
    }
}

/// Sum of the UTF-8 byte lengths of a list of texts.
pub open spec fn members_bytes(v: Seq<Seq<char>>) -> nat
    decreases v.len(),
{
    if v.len() == 0 {
        0
    } else {
        members_bytes(v.drop_last()) + blen(v.last()) as nat
    }
}

/// A declaration's syntax bound: positive, respected when not truncated,
/// and with no syntax kept when truncated.
pub open spec fn decl_bound_ok(f: DeclarationFact) -> bool {
    let size = blen(f.generics@) as nat + members_bytes(texts(f.members@));
    &&& f.syntax_bound.max_bytes > 0
    &&& !f.syntax_bound.truncated ==> size <= f.syntax_bound.max_bytes
    &&& f.syntax_bound.truncated ==> f.generics@.len() == 0 && f.members@.len() == 0
}

/// A protocol relation's body bound, as for declarations.
pub open spec fn relation_bound_ok(r: ProtocolRelation) -> bool {
    &&& r.body_bound.max_bytes > 0
    &&& !r.body_bound.truncated ==> blen(r.body_fingerprint@) <= r.body_bound.max_bytes
    &&& r.body_bound.truncated ==> r.body_fingerprint@.len() == 0
}

/// Candidates strictly increase.
pub open spec fn strictly_sorted_texts(v: Seq<Seq<char>>) -> bool {
    forall|i: int| 0 <= i < v.len() - 1 ==> seq_lt(#[trigger] v[i], v[i + 1])
}

/// A resolution is well formed: a resolved protocol is named; unresolved
/// candidates strictly increase, and there are several exactly when the
/// name is ambiguous.
pub open spec fn resolution_ok(r: ProtocolResolution) -> bool {
    match r {
        ProtocolResolution::Resolved { protocol } => protocol@.len() > 0,
        ProtocolResolution::Unresolved { reason, candidates } => strictly_sorted_texts(
            texts(candidates@),
        ) && ((reason == UnresolvedReason::AmbiguousName) == (candidates@.len() > 1)),
    }
}

/// The identity of a declaration fact.
pub open spec fn same_decl_key(a: DeclarationFact, b: DeclarationFact) -> bool {
    a.anchor@ == b.anchor@ && a.role == b.role && a.path_in_crate@ == b.path_in_crate@
}

/// The identity of a protocol relation's implementation site.
pub open spec fn same_relation_key(a: ProtocolRelation, b: ProtocolRelation) -> bool {
    a.anchor@ == b.anchor@ && a.implementor@ == b.implementor@ && a.source_spelling@
        == b.source_spelling@
}

/// Source facts: each names a known anchor, respects its bound, and no two
/// share an identity; resolutions are well formed.
pub open spec fn facts_ok(d: IndexDoc) -> bool {
    &&& forall|i: int|
        0 <= i < d.declarations@.len() ==> anchor_ids(d).contains(
            (#[trigger] d.declarations@[i]).anchor@,
        ) && decl_bound_ok(d.declarations@[i])
    &&& forall|i: int, j: int|
        0 <= i < j < d.declarations@.len() ==> !same_decl_key(
            #[trigger] d.declarations@[i],
            #[trigger] d.declarations@[j],
        )
    &&& forall|i: int|
        0 <= i < d.protocol_relations@.len() ==> anchor_ids(d).contains(
            (#[trigger] d.protocol_relations@[i]).anchor@,
        ) && relation_bound_ok(d.protocol_relations@[i]) && resolution_ok(
            d.protocol_relations@[i].resolution,
        )
    &&& forall|i: int, j: int|
        0 <= i < j < d.protocol_relations@.len() ==> !same_relation_key(
            #[trigger] d.protocol_relations@[i],
            #[trigger] d.protocol_relations@[j],
        )
}

/// Source facts are listed in strictly increasing derived order.
pub open spec fn order_ok(d: IndexDoc) -> bool {
    &&& forall|i: int|
        0 <= i < d.declarations@.len() - 1 ==> decl_lt(
            #[trigger] d.declarations@[i],
            d.declarations@[i + 1],
        )
    &&& forall|i: int|
        0 <= i < d.protocol_relations@.len() - 1 ==> relation_lt(
            #[trigger] d.protocol_relations@[i],
            d.protocol_relations@[i + 1],
        )
}

/// In an accepted document, each source fact comes after the one before
/// it field by field: declarations by anchor, then role, then path, then
/// generics, then members, then file, then position, then syntax bound;
/// relations by anchor, then implementor, then spelling, then body
/// fingerprint, then body bound, then resolution. Texts compare by
/// character.
pub proof fn lemma_fact_order(d: IndexDoc, i: int)
    requires
        order_ok(d),
    ensures
        0 <= i < d.declarations@.len() - 1 ==> ({
            let (a, b) = (d.declarations@[i], d.declarations@[i + 1]);
            &&& !seq_lt(b.anchor@, a.anchor@)
            &&& a.anchor@ == b.anchor@ ==> role_num(a.role) <= role_num(b.role)
            &&& a.anchor@ == b.anchor@ && role_num(a.role) == role_num(b.role) ==> !seq_lt(
                b.path_in_crate@,
                a.path_in_crate@,
            )
            &&& a.anchor@ == b.anchor@ && role_num(a.role) == role_num(b.role) && a.path_in_crate@
                == b.path_in_crate@ ==> !seq_lt(b.generics@, a.generics@)
            &&& a.anchor@ == b.anchor@ && role_num(a.role) == role_num(b.role) && a.path_in_crate@
                == b.path_in_crate@ && a.generics@ == b.generics@ && texts(a.members@) == texts(b.members@)
                ==> !seq_lt(b.location.file@, a.location.file@)
            &&& a.anchor@ == b.anchor@ && role_num(a.role) == role_num(b.role) && a.path_in_crate@
                == b.path_in_crate@ && a.generics@ == b.generics@ && texts(a.members@) == texts(b.members@)
                && a.location.file@ == b.location.file@ ==> a.location.declaration <= b.location.declaration
            &&& a.anchor@ == b.anchor@ && role_num(a.role) == role_num(b.role) && a.path_in_crate@
                == b.path_in_crate@ && a.generics@ == b.generics@ && texts(a.members@) == texts(b.members@)
                && a.location.file@ == b.location.file@ && a.location.declaration == b.location.declaration
                ==> a.syntax_bound.max_bytes <= b.syntax_bound.max_bytes
        }),
        0 <= i < d.protocol_relations@.len() - 1 ==> ({
            let (a, b) = (d.protocol_relations@[i], d.protocol_relations@[i + 1]);
            &&& !seq_lt(b.anchor@, a.anchor@)
            &&& a.anchor@ == b.anchor@ ==> !seq_lt(b.implementor@, a.implementor@)
            &&& a.anchor@ == b.anchor@ && a.implementor@ == b.implementor@ ==> !seq_lt(
                b.source_spelling@,
                a.source_spelling@,
            )
            &&& a.anchor@ == b.anchor@ && a.implementor@ == b.implementor@ && a.source_spelling@
                == b.source_spelling@ ==> !seq_lt(b.body_fingerprint@, a.body_fingerprint@)
            &&& a.anchor@ == b.anchor@ && a.implementor@ == b.implementor@ && a.source_spelling@
                == b.source_spelling@ && a.body_fingerprint@ == b.body_fingerprint@ ==> a.body_bound.max_bytes
                <= b.body_bound.max_bytes
        }),
{
    if 0 <= i < d.declarations@.len() - 1 {
        let (a, b) = (d.declarations@[i], d.declarations@[i + 1]);
        assert(decl_lt(a, b));
        crate::text::lemma_seq_lt_asym(a.anchor@, b.anchor@);
        crate::text::lemma_seq_lt_asym(a.path_in_crate@, b.path_in_crate@);
        crate::text::lemma_seq_lt_asym(a.generics@, b.generics@);
        crate::text::lemma_seq_lt_asym(a.location.file@, b.location.file@);
        crate::text::lemma_seq_lt_irreflexive(a.anchor@);
        crate::text::lemma_seq_lt_irreflexive(a.path_in_crate@);
        crate::text::lemma_seq_lt_irreflexive(a.generics@);
        crate::text::lemma_seq_lt_irreflexive(a.location.file@);
    }
    if 0 <= i < d.protocol_relations@.len() - 1 {
        let (a, b) = (d.protocol_relations@[i], d.protocol_relations@[i + 1]);
        assert(relation_lt(a, b));
        crate::text::lemma_seq_lt_asym(a.anchor@, b.anchor@);
        crate::text::lemma_seq_lt_asym(a.implementor@, b.implementor@);
        crate::text::lemma_seq_lt_asym(a.source_spelling@, b.source_spelling@);
        crate::text::lemma_seq_lt_asym(a.body_fingerprint@, b.body_fingerprint@);
        crate::text::lemma_seq_lt_irreflexive(a.anchor@);
        crate::text::lemma_seq_lt_irreflexive(a.implementor@);
        crate::text::lemma_seq_lt_irreflexive(a.source_spelling@);
        crate::text::lemma_seq_lt_irreflexive(a.body_fingerprint@);
    }
}

fn require_anchor(anchors: &Vec<&str>, owner_kind: &str, anchor: &str) -> (r: Result<
    (),
    IndexError,
>)
    ensures
        r is Ok <==> strs_of(anchors@).contains(anchor@),
        r matches Err(x) ==> (x matches IndexError::UnresolvedClaim { owner: o, kind, id } && o@
            == owner_kind@ + ":"@ + anchor@ && kind@ == "anchor"@ && id@ == anchor@),
{
    if has_id(anchors, anchor) {
        Ok(())
    } else {
        Err(
            IndexError::UnresolvedClaim {
                owner: concat3(owner_kind, ":", anchor),
                kind: "anchor",
                id: owned(anchor),
            },
        )
    }
}

fn decl_bound_exec(f: &DeclarationFact) -> (b: bool)
    ensures
        b == decl_bound_ok(*f),
{
    let max = f.syntax_bound.max_bytes;
    if max == 0 {
        return false;
    }
    if f.syntax_bound.truncated {
        return f.generics.as_str().is_empty() && f.members.len() == 0;
    }
    let ghost ms = texts(f.members@);
    let mut size: u128 = f.generics.as_str().len() as u128;
    if size > max as u128 {
        proof {
            lemma_members_bytes_mono(texts(f.members@), 0);
        }
        return false;
    }
    assert(ms.take(0) =~= Seq::<Seq<char>>::empty());
    let mut k: usize = 0;
    while k < f.members.len()
        invariant
            k <= f.members.len(),
            ms == texts(f.members@),
            size == blen(f.generics@) as nat + members_bytes(ms.take(k as int)),
            size <= max as int,
            max == f.syntax_bound.max_bytes,
        decreases f.members.len() - k,
    {
        assert(ms.take(k + 1).drop_last() =~= ms.take(k as int));
        size = size + f.members[k].as_str().len() as u128;
        if size > max as u128 {
            proof {
                lemma_members_bytes_mono(ms, k + 1);
            }
            return false;
        }
        k += 1;
    }
    assert(ms.take(k as int) =~= ms);
    true
}

proof fn lemma_members_bytes_mono(v: Seq<Seq<char>>, k: int)
    requires
        0 <= k <= v.len(),
    ensures
        members_bytes(v.take(k)) <= members_bytes(v),
    decreases v.len() - k,
{
    if k < v.len() {
        assert(v.take(k + 1).drop_last() =~= v.take(k));
        lemma_members_bytes_mono(v, k + 1);
    } else {
        assert(v.take(k) =~= v);
    }
}

fn strictly_sorted_texts_exec(v: &Vec<String>) -> (b: bool)
    ensures
        b == strictly_sorted_texts(texts(v@)),
{
    let ghost t = texts(v@);
    let mut i: usize = 0;
    while i + 1 < v.len()
        invariant
            t == texts(v@),
            i <= v.len(),
            i == 0 || i < v.len(),
            forall|k: int| 0 <= k < i && k < v.len() - 1 ==> seq_lt(#[trigger] t[k], t[k + 1]),
        decreases v.len() - i,
    {
        if !str_lt(v[i].as_str(), v[i + 1].as_str()) {
            assert(!seq_lt(t[i as int], t[i + 1]));
            return false;
        }
        i += 1;
    }
    true
}

fn resolution_ok_exec(r: &ProtocolResolution) -> (b: bool)
    ensures
        b == resolution_ok(*r),
{
    match r {
        ProtocolResolution::Resolved { protocol } => !protocol.as_str().is_empty(),
        ProtocolResolution::Unresolved { reason, candidates } => {
            strictly_sorted_texts_exec(candidates) && ((reason_rank(*reason) == 1) == (
            candidates.len() > 1))
        },
    }
}

fn reject_invalid_source_facts(d: &IndexDoc, anchors: &Vec<&str>) -> (r: Result<(), IndexError>)
    requires
        strs_of(anchors@) == anchor_ids(*d),
    ensures
        r is Ok <==> facts_ok(*d),
        r matches Err(x) ==> fact_error(*d, x),
{
    let mut i: usize = 0;
    while i < d.declarations.len()
        invariant
            i <= d.declarations.len(),
            strs_of(anchors@) == anchor_ids(*d),
            forall|k: int|
                0 <= k < i ==> anchor_ids(*d).contains((#[trigger] d.declarations@[k]).anchor@)
                    && decl_bound_ok(d.declarations@[k]),
            forall|a: int, b: int|
                0 <= a < b < i ==> !same_decl_key(
                    #[trigger] d.declarations@[a],
                    #[trigger] d.declarations@[b],
                ),
        decreases d.declarations.len() - i,
    {
        let f = &d.declarations[i];
        require_anchor(anchors, "declaration", f.anchor.as_str())?;
        let mut j: usize = 0;
        while j < i
            invariant
                j <= i < d.declarations.len(),
                f == d.declarations@[i as int],
                forall|a: int| 0 <= a < j ==> !same_decl_key(d.declarations@[a], *f),
            decreases i - j,
        {
            let g = &d.declarations[j];
            if str_eq(g.anchor.as_str(), f.anchor.as_str()) && role_rank(g.role) == role_rank(
                f.role,
            ) && str_eq(g.path_in_crate.as_str(), f.path_in_crate.as_str()) {
                return Err(
                    IndexError::DuplicateSourceFact {
                        anchor: owned(f.anchor.as_str()),
                        role: f.role.as_str(),
                    },
                );
            }
            j += 1;
        }
        if !decl_bound_exec(f) {
            return Err(
                IndexError::InvalidSourceBound {
                    anchor: owned(f.anchor.as_str()),
                    max_bytes: f.syntax_bound.max_bytes,
                },
            );
        }
        i += 1;
    }
    let mut i: usize = 0;
    while i < d.protocol_relations.len()
        invariant
            i <= d.protocol_relations.len(),
            strs_of(anchors@) == anchor_ids(*d),
            forall|k: int|
                0 <= k < d.declarations@.len() ==> anchor_ids(*d).contains(
                    (#[trigger] d.declarations@[k]).anchor@,
                ) && decl_bound_ok(d.declarations@[k]),
            forall|a: int, b: int|
                0 <= a < b < d.declarations@.len() ==> !same_decl_key(
                    #[trigger] d.declarations@[a],
                    #[trigger] d.declarations@[b],
                ),
            forall|k: int|
                0 <= k < i ==> anchor_ids(*d).contains(
                    (#[trigger] d.protocol_relations@[k]).anchor@,
                ) && relation_bound_ok(d.protocol_relations@[k]) && resolution_ok(
                    d.protocol_relations@[k].resolution,
                ),
            forall|a: int, b: int|
                0 <= a < b < i ==> !same_relation_key(
                    #[trigger] d.protocol_relations@[a],
                    #[trigger] d.protocol_relations@[b],
                ),
        decreases d.protocol_relations.len() - i,
    {
        let p = &d.protocol_relations[i];
        require_anchor(anchors, "protocol", p.anchor.as_str())?;
        let mut j: usize = 0;
        while j < i
            invariant
                j <= i < d.protocol_relations.len(),
                p == d.protocol_relations@[i as int],
                forall|a: int| 0 <= a < j ==> !same_relation_key(d.protocol_relations@[a], *p),
            decreases i - j,
        {
            let q = &d.protocol_relations[j];
            if str_eq(q.anchor.as_str(), p.anchor.as_str()) && str_eq(
                q.implementor.as_str(),
                p.implementor.as_str(),
            ) && str_eq(q.source_spelling.as_str(), p.source_spelling.as_str()) {
                if !resolution_lt_exec(&q.resolution, &p.resolution) && !resolution_lt_exec(
                    &p.resolution,
                    &q.resolution,
                ) {
                    return Err(
                        IndexError::DuplicateProtocolRelation {
                            anchor: owned(p.anchor.as_str()),
                            implementor: p.implementor.clone(),
                        },
                    );
                }
                return Err(
                    IndexError::ConflictingProtocolResolution {
                        anchor: owned(p.anchor.as_str()),
                        implementor: p.implementor.clone(),
                    },
                );
            }
            j += 1;
        }
        let fp_len = p.body_fingerprint.as_str().len();
        if p.body_bound.max_bytes == 0 || (!p.body_bound.truncated && fp_len
            > p.body_bound.max_bytes) || (p.body_bound.truncated
            && !p.body_fingerprint.as_str().is_empty()) {
            return Err(
                IndexError::InvalidSourceBound {
                    anchor: owned(p.anchor.as_str()),
                    max_bytes: p.body_bound.max_bytes,
                },
            );
        }
        if !resolution_ok_exec(&p.resolution) {
            return Err(IndexError::InvalidProtocolResolution { anchor: owned(p.anchor.as_str()) });
        }
        i += 1;
    }
    Ok(())
}

/// The refusal names the fact list out of order: `declaration` when two
/// adjacent declarations are not in increasing order, else
/// `protocol-relation` when two adjacent protocol relations are not.
pub open spec fn order_error(d: IndexDoc, x: IndexError) -> bool {
    x matches IndexError::UnstableOrdering { kind } && {
        let decls_sorted = forall|k: int|
            0 <= k < d.declarations@.len() - 1 ==> decl_lt(#[trigger] d.declarations@[k], d.declarations@[k + 1]);
        if decls_sorted {
            kind@ == "protocol-relation"@ && exists|k: int|
                0 <= k < d.protocol_relations@.len() - 1 && !relation_lt(
                    #[trigger] d.protocol_relations@[k],
                    d.protocol_relations@[k + 1],
                )
        } else {
            kind@ == "declaration"@
        }
    }
}

fn reject_unstable_source_fact_order(d: &IndexDoc) -> (r: Result<(), IndexError>)
    ensures
        r is Ok <==> order_ok(*d),
        r matches Err(x) ==> order_error(*d, x),
{
    let mut i: usize = 0;
    while i + 1 < d.declarations.len()
        invariant
            i <= d.declarations.len(),
            i == 0 || i < d.declarations.len(),
            forall|k: int|
                0 <= k < i && k < d.declarations@.len() - 1 ==> decl_lt(
                    #[trigger] d.declarations@[k],
                    d.declarations@[k + 1],
                ),
        decreases d.declarations.len() - i,
    {
        if !decl_lt_exec(&d.declarations[i], &d.declarations[i + 1]) {
            return Err(IndexError::UnstableOrdering { kind: "declaration" });
        }
        i += 1;
    }
    let mut i: usize = 0;
    while i + 1 < d.protocol_relations.len()
        invariant
            i <= d.protocol_relations.len(),
            i == 0 || i < d.protocol_relations.len(),
            forall|k: int|
                0 <= k < d.declarations@.len() - 1 ==> decl_lt(
                    #[trigger] d.declarations@[k],
                    d.declarations@[k + 1],
                ),
            forall|k: int|
                0 <= k < i && k < d.protocol_relations@.len() - 1 ==> relation_lt(
                    #[trigger] d.protocol_relations@[k],
                    d.protocol_relations@[k + 1],
                ),
        decreases d.protocol_relations.len() - i,
    {
        if !relation_lt_exec(&d.protocol_relations[i], &d.protocol_relations[i + 1]) {
            return Err(IndexError::UnstableOrdering { kind: "protocol-relation" });
        }
        i += 1;
    }
    Ok(())
}


// ---------------------------------------------------------------------------
// Claims.
// ---------------------------------------------------------------------------

/// Views of a list of anchor ids.
pub open spec fn anchor_views(v: Seq<AnchorId>) -> Seq<Seq<char>> {
    v.map_values(|x: AnchorId| x@)
}

fn anchor_strs(v: &Vec<AnchorId>) -> (r: Vec<&str>)
    ensures
        strs_of(r@) == anchor_views(v@),
{
    let mut r: Vec<&str> = Vec::new();
    let mut i: usize = 0;
    while i < v.len()
        invariant
            i <= v.len(),
            r.len() == i,
            forall|k: int| 0 <= k < i ==> (#[trigger] r@[k])@ == v@[k]@,
        decreases v.len() - i,
    {
        r.push(v[i].as_str());
        i += 1;
    }
    assert(strs_of(r@) =~= anchor_views(v@));
    r
}

/// Views of a list of surface ids.
pub open spec fn surface_views(v: Seq<SurfaceId>) -> Seq<Seq<char>> {
    v.map_values(|x: SurfaceId| x@)
}

fn surface_strs(v: &Vec<SurfaceId>) -> (r: Vec<&str>)
    ensures
        strs_of(r@) == surface_views(v@),
{
    let mut r: Vec<&str> = Vec::new();
    let mut i: usize = 0;
    while i < v.len()
        invariant
            i <= v.len(),
            r.len() == i,
            forall|k: int| 0 <= k < i ==> (#[trigger] r@[k])@ == v@[k]@,
        decreases v.len() - i,
    {
        r.push(v[i].as_str());
        i += 1;
    }
    assert(strs_of(r@) =~= surface_views(v@));
    r
}

/// Views of a list of specimen ids.
pub open spec fn specimen_views(v: Seq<SpecimenId>) -> Seq<Seq<char>> {
    v.map_values(|x: SpecimenId| x@)
}

fn specimen_strs(v: &Vec<SpecimenId>) -> (r: Vec<&str>)
    ensures
        strs_of(r@) == specimen_views(v@),
{
    let mut r: Vec<&str> = Vec::new();
    let mut i: usize = 0;
    while i < v.len()
        invariant
            i <= v.len(),
            r.len() == i,
            forall|k: int| 0 <= k < i ==> (#[trigger] r@[k])@ == v@[k]@,
        decreases v.len() - i,
    {
        r.push(v[i].as_str());
        i += 1;
    }
    assert(strs_of(r@) =~= specimen_views(v@));
    r
}

/// Every element of `ids` is in `known`.
pub open spec fn all_in(ids: Seq<Seq<char>>, known: Seq<Seq<char>>) -> bool {
    forall|i: int| 0 <= i < ids.len() ==> known.contains(#[trigger] ids[i])
}

/// Drafts carry no literal claims.
pub open spec fn literals_ok(d: IndexDoc) -> bool {
    forall|i: int|
        0 <= i < d.drafts@.len() ==> (#[trigger] d.drafts@[i]).literal_anchors@.len() == 0
            && d.drafts@[i].literal_surfaces@.len() == 0 && d.drafts@[i].literal_specimens@.len()
            == 0
}

/// The refusal names a draft with literal claims and the kind of its
/// first non-empty literal list (anchors, then surfaces, then specimens).
pub open spec fn literal_error(d: IndexDoc, x: IndexError) -> bool {
    x matches IndexError::LiteralClaim { owner, kind } && exists|i: int|
        0 <= i < d.drafts@.len() && owner@ == (#[trigger] d.drafts@[i]).id@ && if d.drafts@[i].literal_anchors@.len() > 0 {
            kind@ == "anchor"@
        } else if d.drafts@[i].literal_surfaces@.len() > 0 {
            kind@ == "surface"@
        } else {
            d.drafts@[i].literal_specimens@.len() > 0 && kind@ == "specimen"@
        }
}

fn reject_authored_literals(d: &IndexDoc) -> (r: Result<(), IndexError>)
    ensures
        r is Ok <==> literals_ok(*d),
        r matches Err(x) ==> literal_error(*d, x),
{
    let mut i: usize = 0;
    while i < d.drafts.len()
        invariant
            i <= d.drafts.len(),
            forall|k: int|
                0 <= k < i ==> (#[trigger] d.drafts@[k]).literal_anchors@.len() == 0
                    && d.drafts@[k].literal_surfaces@.len() == 0
                    && d.drafts@[k].literal_specimens@.len() == 0,
        decreases d.drafts.len() - i,
    {
        let draft = &d.drafts[i];
        let kind = if draft.literal_anchors.len() > 0 {
            Some("anchor")
        } else if draft.literal_surfaces.len() > 0 {
            Some("surface")
        } else if draft.literal_specimens.len() > 0 {
            Some("specimen")
        } else {
            None
        };
        match kind {
            Some(k) => {
                return Err(IndexError::LiteralClaim { owner: owned(draft.id.as_str()), kind: k });
            },
            None => {},
        }
        i += 1;
    }
    Ok(())
}

fn require(
    known: &Vec<&str>,
    owner_kind: &str,
    owner: &str,
    kind: &'static str,
    id: &str,
) -> (r: Result<(), IndexError>)
    ensures
        r is Ok <==> strs_of(known@).contains(id@),
        r matches Err(x) ==> (x matches IndexError::UnresolvedClaim { owner: o, kind: k, id: i } && o@
            == owner_kind@ + ":"@ + owner@ && k == kind && i@ == id@),
{
    if has_id(known, id) {
        Ok(())
    } else {
        Err(IndexError::UnresolvedClaim { owner: concat3(owner_kind, ":", owner), kind, id: owned(id) })
    }
}

fn require_all(known: &Vec<&str>, owner: &str, kind: &'static str, ids: &Vec<&str>) -> (r: Result<
    (),
    IndexError,
>)
    ensures
        r is Ok <==> all_in(strs_of(ids@), strs_of(known@)),
        r matches Err(x) ==> (x matches IndexError::UnresolvedClaim { owner: o, kind: k, id: i } && o@
            == "feature"@ + ":"@ + owner@ && k == kind && first_missing(strs_of(ids@), strs_of(known@), i@)),
{
    let mut i: usize = 0;
    while i < ids.len()
        invariant
            i <= ids.len(),
            forall|k: int| 0 <= k < i ==> strs_of(known@).contains(#[trigger] strs_of(ids@)[k]),
        decreases ids.len() - i,
    {
        assert(strs_of(ids@)[i as int] == ids@[i as int]@);
        match require(known, "feature", owner, kind, ids[i]) {
            Ok(()) => {},
            Err(x) => {
                assert(strs_of(ids@)[i as int] == ids@[i as int]@);
                assert(all_in(strs_of(ids@).take(i as int), strs_of(known@))) by {
                    assert forall|j: int| 0 <= j < i implies strs_of(known@).contains(#[trigger] strs_of(ids@).take(i as int)[j]) by {
                        assert(strs_of(ids@).take(i as int)[j] == strs_of(ids@)[j]);
                    }
                }
                return Err(x);
            },
        }
        i += 1;
    }
    Ok(())
}

/// How an edge's relationship constrains its endpoints.
pub open spec fn edge_ok(d: IndexDoc, e: IndexEdge) -> bool {
    let r = e.rel@;
    let feats = feature_ids(d);
    if r == "contains"@ {
        subject_ids(d).contains(e.from@) && subject_ids(d).contains(e.to@)
    } else if r == "anchors"@ {
        feats.contains(e.from@) && anchor_ids(d).contains(e.to@)
    } else if r == "surfaces"@ {
        feats.contains(e.from@) && surface_ids(d).contains(e.to@)
    } else if r == "demonstrates"@ {
        feats.contains(e.from@) && specimen_ids(d).contains(e.to@)
    } else if r == "supports"@ || r == "presents"@ || r == "replaces"@ {
        feats.contains(e.from@) && feats.contains(e.to@)
    } else if r == "documents"@ {
        known_ids(d).contains(e.from@) && anchor_ids(d).contains(e.to@)
    } else if r == "routes"@ {
        route_ids(d).contains(e.from@) && known_ids(d).contains(e.to@)
    } else {
        known_ids(d).contains(e.from@) && known_ids(d).contains(e.to@)
    }
}

/// The kind and the ids an edge's source must be among, then the same for
/// its target, by relationship.
pub open spec fn edge_rule(d: IndexDoc, r: Seq<char>) -> (
    Seq<char>,
    Seq<Seq<char>>,
    Seq<char>,
    Seq<Seq<char>>,
) {
    if r == "contains"@ {
        ("subject"@, subject_ids(d), "subject"@, subject_ids(d))
    } else if r == "anchors"@ {
        ("feature"@, feature_ids(d), "anchor"@, anchor_ids(d))
    } else if r == "surfaces"@ {
        ("feature"@, feature_ids(d), "surface"@, surface_ids(d))
    } else if r == "demonstrates"@ {
        ("feature"@, feature_ids(d), "specimen"@, specimen_ids(d))
    } else if r == "supports"@ || r == "presents"@ || r == "replaces"@ {
        ("feature"@, feature_ids(d), "feature"@, feature_ids(d))
    } else if r == "documents"@ {
        ("index row"@, known_ids(d), "anchor"@, anchor_ids(d))
    } else if r == "routes"@ {
        ("route"@, route_ids(d), "index row"@, known_ids(d))
    } else {
        ("index row"@, known_ids(d), "index row"@, known_ids(d))
    }
}

/// The unresolved endpoint an edge is refused for: its source when that
/// is not among the ids its rule names, else its target.
pub open spec fn edge_error(d: IndexDoc, e: IndexEdge, kind: Seq<char>, id: Seq<char>) -> bool {
    let (fk, fs, tk, ts) = edge_rule(d, e.rel@);
    ||| !fs.contains(e.from@) && kind == fk && id == e.from@
    ||| fs.contains(e.from@) && !ts.contains(e.to@) && kind == tk && id == e.to@
}

/// `id` is a claimed anchor, surface or specimen (by `kind`) of the given
/// claim lists that names no such row.
pub open spec fn claim_missing(
    d: IndexDoc,
    kind: Seq<char>,
    id: Seq<char>,
    anchors: Seq<Seq<char>>,
    surfaces: Seq<Seq<char>>,
    specimens: Seq<Seq<char>>,
) -> bool {
    ||| kind == "anchor"@ && first_missing(anchors, anchor_ids(d), id)
    ||| all_in(anchors, anchor_ids(d)) && kind == "surface"@ && first_missing(surfaces, surface_ids(d), id)
    ||| all_in(anchors, anchor_ids(d)) && all_in(surfaces, surface_ids(d)) && kind == "specimen"@
        && first_missing(specimens, specimen_ids(d), id)
}

/// `id` is the first of `ids` that is not among `known`.
pub open spec fn first_missing(ids: Seq<Seq<char>>, known: Seq<Seq<char>>, id: Seq<char>) -> bool {
    exists|i: int| 0 <= i < ids.len() && #[trigger] ids[i] == id && !known.contains(id) && all_in(ids.take(i), known)
}

/// The first `n` anchors name subjects of the document.
pub open spec fn anchors_resolved(d: IndexDoc, n: int) -> bool {
    forall|j: int| 0 <= j < n ==> subject_ids(d).contains((#[trigger] d.anchors@[j]).subject@)
}

/// The first `n` surfaces name subjects of the document.
pub open spec fn surfaces_resolved(d: IndexDoc, n: int) -> bool {
    forall|j: int| 0 <= j < n ==> subject_ids(d).contains((#[trigger] d.surfaces@[j]).subject@)
}

/// The first `n` specimens name subjects of the document.
pub open spec fn specimens_resolved(d: IndexDoc, n: int) -> bool {
    forall|j: int| 0 <= j < n ==> subject_ids(d).contains((#[trigger] d.specimens@[j]).subject@)
}

/// The first `n` drafts name a subject and claim only existing rows.
pub open spec fn drafts_resolved(d: IndexDoc, n: int) -> bool {
    forall|j: int|
        0 <= j < n ==> subject_ids(d).contains((#[trigger] d.drafts@[j]).subject@)
            && all_in(anchor_views(d.drafts@[j].claims_anchors@), anchor_ids(d))
            && all_in(surface_views(d.drafts@[j].claims_surfaces@), surface_ids(d))
            && all_in(specimen_views(d.drafts@[j].claims_specimens@), specimen_ids(d))
}

/// The first `n` features name a subject and claim only existing rows.
pub open spec fn features_resolved(d: IndexDoc, n: int) -> bool {
    forall|j: int|
        0 <= j < n ==> subject_ids(d).contains((#[trigger] d.features@[j]).subject@)
            && all_in(anchor_views(d.features@[j].anchors@), anchor_ids(d))
            && all_in(surface_views(d.features@[j].surfaces@), surface_ids(d))
            && all_in(specimen_views(d.features@[j].specimens@), specimen_ids(d))
}

/// The first `n` edges obey their relationships' rules.
pub open spec fn edges_resolved(d: IndexDoc, n: int) -> bool {
    forall|j: int| 0 <= j < n ==> edge_ok(d, #[trigger] d.edges@[j])
}

/// `owner` (`<kind>:<id>` of a row) references the subject `id`, which is
/// not a subject of the document.
pub open spec fn subject_missing(d: IndexDoc, owner: Seq<char>, kind: Seq<char>, id: Seq<char>, row_kind: Seq<char>, row_id: Seq<char>, subject: Seq<char>) -> bool {
    owner == row_kind + ":"@ + row_id && kind == "subject"@ && id == subject && !subject_ids(d).contains(id)
}

/// The refusal names the first unresolved reference in scan order
/// (anchors, surfaces, specimens, drafts, features, then edges; within a
/// draft or feature its subject, then its anchor, surface and specimen
/// claims in order): the referring row (as `<kind>:<id>`, claims of drafts
/// and features as `feature:<id>`, edges as `edge:<relationship>`), the
/// kind of row referred to, and the id that names no such row.
pub open spec fn unresolved_error(d: IndexDoc, strict: bool, x: IndexError) -> bool {
    x matches IndexError::UnresolvedClaim { owner, kind, id } && {
        let (o, k, i) = (owner@, kind@, id@);
        let anchors_done = anchors_resolved(d, d.anchors@.len() as int);
        let surfaces_done = surfaces_resolved(d, d.surfaces@.len() as int);
        let specimens_done = specimens_resolved(d, d.specimens@.len() as int);
        let drafts_done = drafts_resolved(d, d.drafts@.len() as int);
        ||| exists|a: int|
            0 <= a < d.anchors@.len() && anchors_resolved(d, a) && subject_missing(d, o, k, i, "anchor"@, (#[trigger] d.anchors@[a]).id@, d.anchors@[a].subject@)
        ||| anchors_done && exists|a: int|
            0 <= a < d.surfaces@.len() && surfaces_resolved(d, a) && subject_missing(d, o, k, i, "surface"@, (#[trigger] d.surfaces@[a]).id@, d.surfaces@[a].subject@)
        ||| anchors_done && surfaces_done && exists|a: int|
            0 <= a < d.specimens@.len() && specimens_resolved(d, a) && subject_missing(d, o, k, i, "specimen"@, (#[trigger] d.specimens@[a]).id@, d.specimens@[a].subject@)
        ||| anchors_done && surfaces_done && specimens_done && exists|a: int|
            0 <= a < d.drafts@.len() && drafts_resolved(d, a) && (subject_missing(d, o, k, i, "draft"@, (#[trigger] d.drafts@[a]).id@, d.drafts@[a].subject@)
                || (subject_ids(d).contains(d.drafts@[a].subject@) && o == "feature"@ + ":"@ + d.drafts@[a].id@ && claim_missing(d, k, i, anchor_views(d.drafts@[a].claims_anchors@), surface_views(d.drafts@[a].claims_surfaces@), specimen_views(d.drafts@[a].claims_specimens@))))
        ||| anchors_done && surfaces_done && specimens_done && drafts_done && exists|a: int|
            0 <= a < d.features@.len() && features_resolved(d, a) && (subject_missing(d, o, k, i, "feature"@, (#[trigger] d.features@[a]).id@, d.features@[a].subject@)
                || (subject_ids(d).contains(d.features@[a].subject@) && o == "feature"@ + ":"@ + d.features@[a].id@ && claim_missing(d, k, i, anchor_views(d.features@[a].anchors@), surface_views(d.features@[a].surfaces@), specimen_views(d.features@[a].specimens@))))
        ||| strict && claims_ok(d, false) && exists|a: int|
            0 <= a < d.edges@.len() && edges_resolved(d, a) && o == "edge"@ + ":"@ + (#[trigger] d.edges@[a]).rel@ && edge_error(d, d.edges@[a], k, i)
    }
}

/// Every claimed subject, anchor, surface and specimen exists; a strict
/// check also resolves every edge endpoint.
pub open spec fn claims_ok(d: IndexDoc, strict: bool) -> bool {
    let subjects = subject_ids(d);
    &&& forall|i: int|
        0 <= i < d.anchors@.len() ==> subjects.contains((#[trigger] d.anchors@[i]).subject@)
    &&& forall|i: int|
        0 <= i < d.surfaces@.len() ==> subjects.contains((#[trigger] d.surfaces@[i]).subject@)
    &&& forall|i: int|
        0 <= i < d.specimens@.len() ==> subjects.contains((#[trigger] d.specimens@[i]).subject@)
    &&& forall|i: int|
        0 <= i < d.drafts@.len() ==> subjects.contains((#[trigger] d.drafts@[i]).subject@)
            && all_in(anchor_views(d.drafts@[i].claims_anchors@), anchor_ids(d)) && all_in(
            surface_views(d.drafts@[i].claims_surfaces@),
            surface_ids(d),
        ) && all_in(specimen_views(d.drafts@[i].claims_specimens@), specimen_ids(d))
    &&& forall|i: int|
        0 <= i < d.features@.len() ==> subjects.contains((#[trigger] d.features@[i]).subject@)
            && all_in(anchor_views(d.features@[i].anchors@), anchor_ids(d)) && all_in(
            surface_views(d.features@[i].surfaces@),
            surface_ids(d),
        ) && all_in(specimen_views(d.features@[i].specimens@), specimen_ids(d))
    &&& strict ==> forall|i: int| 0 <= i < d.edges@.len() ==> edge_ok(d, #[trigger] d.edges@[i])
}

/// An edge is accepted exactly when its source is among the ids its
/// relationship's rule names for sources, and its target among those the
/// rule names for targets.
pub proof fn lemma_edge_rule(d: IndexDoc, e: IndexEdge)
    ensures
        edge_ok(d, e) <==> edge_rule(d, e.rel@).1.contains(e.from@) && edge_rule(d, e.rel@).3.contains(
            e.to@,
        ),
        !edge_ok(d, e) ==> exists|kind: Seq<char>, id: Seq<char>| edge_error(d, e, kind, id),
        forall|kind: Seq<char>, id: Seq<char>| edge_error(d, e, kind, id) ==> !edge_ok(d, e),
{
    let (fk, fs, tk, ts) = edge_rule(d, e.rel@);
    if !edge_ok(d, e) {
        if !fs.contains(e.from@) {
            assert(edge_error(d, e, fk, e.from@));
        } else {
            assert(edge_error(d, e, tk, e.to@));
        }
    }
}

/// What each relationship demands of an edge's endpoints: `contains` joins
/// two subjects; `anchors`, `surfaces` and `demonstrates` run from a feature
/// to an anchor, a surface and a specimen; `supports`, `presents` and
/// `replaces` join two features; `documents` runs from any row to an
/// anchor; `routes` from a route to any row; any other relationship joins
/// two rows of the document.
pub proof fn lemma_edge_relationships(d: IndexDoc, e: IndexEdge)
    ensures
        e.rel@ == "contains"@ ==> (edge_ok(d, e) <==> subject_ids(d).contains(e.from@) && subject_ids(
            d,
        ).contains(e.to@)),
        e.rel@ == "anchors"@ ==> (edge_ok(d, e) <==> feature_ids(d).contains(e.from@) && anchor_ids(
            d,
        ).contains(e.to@)),
        e.rel@ == "surfaces"@ ==> (edge_ok(d, e) <==> feature_ids(d).contains(e.from@) && surface_ids(
            d,
        ).contains(e.to@)),
        e.rel@ == "demonstrates"@ ==> (edge_ok(d, e) <==> feature_ids(d).contains(e.from@)
            && specimen_ids(d).contains(e.to@)),
        (e.rel@ == "supports"@ || e.rel@ == "presents"@ || e.rel@ == "replaces"@) ==> (edge_ok(d, e)
            <==> feature_ids(d).contains(e.from@) && feature_ids(d).contains(e.to@)),
        e.rel@ == "documents"@ ==> (edge_ok(d, e) <==> known_ids(d).contains(e.from@) && anchor_ids(
            d,
        ).contains(e.to@)),
        e.rel@ == "routes"@ ==> (edge_ok(d, e) <==> route_ids(d).contains(e.from@) && known_ids(
            d,
        ).contains(e.to@)),
        (e.rel@ != "contains"@ && e.rel@ != "anchors"@ && e.rel@ != "surfaces"@ && e.rel@ != "demonstrates"@
            && e.rel@ != "supports"@ && e.rel@ != "presents"@ && e.rel@ != "replaces"@ && e.rel@
            != "documents"@ && e.rel@ != "routes"@) ==> (edge_ok(d, e) <==> known_ids(d).contains(e.from@)
            && known_ids(d).contains(e.to@)),
        edge_rule(d, e.rel@).1.contains(e.from@) && edge_rule(d, e.rel@).3.contains(e.to@) <==> edge_ok(
            d,
            e,
        ),
{
    lemma_relationship_names();
    lemma_edge_rule(d, e);
}

proof fn lemma_relationship_names()
    ensures
        "contains"@ != "anchors"@,
        "contains"@ != "surfaces"@,
        "contains"@ != "demonstrates"@,
        "contains"@ != "supports"@,
        "contains"@ != "presents"@,
        "contains"@ != "replaces"@,
        "contains"@ != "documents"@,
        "contains"@ != "routes"@,
        "anchors"@ != "surfaces"@,
        "anchors"@ != "demonstrates"@,
        "anchors"@ != "supports"@,
        "anchors"@ != "presents"@,
        "anchors"@ != "replaces"@,
        "anchors"@ != "documents"@,
        "anchors"@ != "routes"@,
        "surfaces"@ != "demonstrates"@,
        "surfaces"@ != "supports"@,
        "surfaces"@ != "presents"@,
        "surfaces"@ != "replaces"@,
        "surfaces"@ != "documents"@,
        "surfaces"@ != "routes"@,
        "demonstrates"@ != "supports"@,
        "demonstrates"@ != "presents"@,
        "demonstrates"@ != "replaces"@,
        "demonstrates"@ != "documents"@,
        "demonstrates"@ != "routes"@,
        "supports"@ != "documents"@,
        "supports"@ != "routes"@,
        "presents"@ != "documents"@,
        "presents"@ != "routes"@,
        "replaces"@ != "documents"@,
        "replaces"@ != "routes"@,
        "documents"@ != "routes"@,
{
    reveal_strlit("contains");
    reveal_strlit("anchors");
    reveal_strlit("surfaces");
    reveal_strlit("demonstrates");
    reveal_strlit("supports");
    reveal_strlit("presents");
    reveal_strlit("replaces");
    reveal_strlit("documents");
    reveal_strlit("routes");
    assert("contains"@[0] != "anchors"@[0]);
    assert("contains"@[0] != "surfaces"@[0]);
    assert("contains"@[0] != "demonstrates"@[0]);
    assert("contains"@[0] != "supports"@[0]);
    assert("contains"@[0] != "presents"@[0]);
    assert("contains"@[0] != "replaces"@[0]);
    assert("contains"@.len() != "documents"@.len() || "contains"@[0] != "documents"@[0]);
    assert("contains"@[0] != "routes"@[0]);
    assert("anchors"@[0] != "surfaces"@[0]);
    assert("anchors"@[0] != "demonstrates"@[0]);
    assert("anchors"@[0] != "supports"@[0]);
    assert("anchors"@[0] != "presents"@[0]);
    assert("anchors"@[0] != "replaces"@[0]);
    assert("anchors"@[0] != "documents"@[0]);
    assert("anchors"@[0] != "routes"@[0]);
    assert("surfaces"@.len() != "demonstrates"@.len());
    assert("surfaces"@[2] != "supports"@[2]);
    assert("surfaces"@[0] != "presents"@[0]);
    assert("surfaces"@[0] != "replaces"@[0]);
    assert("surfaces"@[0] != "documents"@[0]);
    assert("surfaces"@[0] != "routes"@[0]);
    assert("demonstrates"@[0] != "supports"@[0]);
    assert("demonstrates"@[0] != "presents"@[0]);
    assert("demonstrates"@[0] != "replaces"@[0]);
    assert("demonstrates"@[1] != "documents"@[1]);
    assert("demonstrates"@[0] != "routes"@[0]);
    assert("supports"@[0] != "documents"@[0]);
    assert("supports"@[0] != "routes"@[0]);
    assert("presents"@[0] != "documents"@[0]);
    assert("presents"@[0] != "routes"@[0]);
    assert("replaces"@[0] != "documents"@[0]);
    assert("replaces"@[1] != "routes"@[1]);
    assert("documents"@[0] != "routes"@[0]);
}

/// The strict claim check is the fragment check plus the edge rules: a
/// document whose rows resolve passes it exactly when every edge obeys
/// its relationship's rule, and where it is refused there, the refusal
/// names an edge (`edge:<relationship>`) and an endpoint that breaks the
/// rule.
pub proof fn lemma_strict_claims(d: IndexDoc, x: IndexError)
    ensures
        claims_ok(d, true) <==> claims_ok(d, false) && forall|i: int|
            0 <= i < d.edges@.len() ==> edge_ok(d, #[trigger] d.edges@[i]),
        claims_ok(d, false) && unresolved_error(d, true, x) ==> (x matches IndexError::UnresolvedClaim {
            owner,
            kind,
            id,
        } && exists|a: int|
            0 <= a < d.edges@.len() && owner@ == "edge"@ + ":"@ + (#[trigger] d.edges@[a]).rel@
                && edge_error(d, d.edges@[a], kind@, id@)),
{
    if claims_ok(d, false) && unresolved_error(d, true, x) {
        if let IndexError::UnresolvedClaim { owner, kind, id } = x {
            let (o, k, i) = (owner@, kind@, id@);
            assert(!exists|a: int|
                0 <= a < d.anchors@.len() && anchors_resolved(d, a) && subject_missing(d, o, k, i, "anchor"@, (#[trigger] d.anchors@[a]).id@, d.anchors@[a].subject@));
            assert(!exists|a: int|
                0 <= a < d.surfaces@.len() && surfaces_resolved(d, a) && subject_missing(d, o, k, i, "surface"@, (#[trigger] d.surfaces@[a]).id@, d.surfaces@[a].subject@));
            assert(!exists|a: int|
                0 <= a < d.specimens@.len() && specimens_resolved(d, a) && subject_missing(d, o, k, i, "specimen"@, (#[trigger] d.specimens@[a]).id@, d.specimens@[a].subject@));
            assert forall|a: int| 0 <= a < d.drafts@.len() implies !(subject_missing(d, o, k, i, "draft"@, (#[trigger] d.drafts@[a]).id@, d.drafts@[a].subject@)
                || (o == "feature"@ + ":"@ + d.drafts@[a].id@ && claim_missing(d, k, i, anchor_views(d.drafts@[a].claims_anchors@), surface_views(d.drafts@[a].claims_surfaces@), specimen_views(d.drafts@[a].claims_specimens@)))) by {
                lemma_all_in_contains(anchor_views(d.drafts@[a].claims_anchors@), anchor_ids(d), i);
                lemma_all_in_contains(surface_views(d.drafts@[a].claims_surfaces@), surface_ids(d), i);
                lemma_all_in_contains(specimen_views(d.drafts@[a].claims_specimens@), specimen_ids(d), i);
            }
            assert forall|a: int| 0 <= a < d.features@.len() implies !(subject_missing(d, o, k, i, "feature"@, (#[trigger] d.features@[a]).id@, d.features@[a].subject@)
                || (o == "feature"@ + ":"@ + d.features@[a].id@ && claim_missing(d, k, i, anchor_views(d.features@[a].anchors@), surface_views(d.features@[a].surfaces@), specimen_views(d.features@[a].specimens@)))) by {
                lemma_all_in_contains(anchor_views(d.features@[a].anchors@), anchor_ids(d), i);
                lemma_all_in_contains(surface_views(d.features@[a].surfaces@), surface_ids(d), i);
                lemma_all_in_contains(specimen_views(d.features@[a].specimens@), specimen_ids(d), i);
            }
        }
    }
}

/// An id listed in a list whose ids are all known is known.
proof fn lemma_all_in_contains(ids: Seq<Seq<char>>, known: Seq<Seq<char>>, id: Seq<char>)
    requires
        all_in(ids, known),
    ensures
        ids.contains(id) ==> known.contains(id),
        !first_missing(ids, known, id),
{
    if first_missing(ids, known, id) {
        let j = choose|j: int| 0 <= j < ids.len() && #[trigger] ids[j] == id && !known.contains(id) && all_in(ids.take(j), known);
        assert(known.contains(ids[j]));
    }
    if ids.contains(id) {
        let j = choose|j: int| 0 <= j < ids.len() && ids[j] == id;
        assert(known.contains(ids[j]));
    }
}

/// The lists of ids a check needs, built once.
struct Known<'a> {
    subjects: Vec<&'a str>,
    anchors: Vec<&'a str>,
    surfaces: Vec<&'a str>,
    specimens: Vec<&'a str>,
    features: Vec<&'a str>,
    routes: Vec<&'a str>,
    all: Vec<&'a str>,
}

impl<'a> Known<'a> {
    spec fn of(&self, d: IndexDoc) -> bool {
        &&& strs_of(self.subjects@) == subject_ids(d)
        &&& strs_of(self.anchors@) == anchor_ids(d)
        &&& strs_of(self.surfaces@) == surface_ids(d)
        &&& strs_of(self.specimens@) == specimen_ids(d)
        &&& strs_of(self.features@) == feature_ids(d)
        &&& strs_of(self.routes@) == route_ids(d)
        &&& strs_of(self.all@) == known_ids(d)
    }
}

fn append_strs<'a>(a: &mut Vec<&'a str>, b: &Vec<&'a str>)
    ensures
        strs_of(final(a)@) == strs_of(old(a)@) + strs_of(b@),
{
    let ghost a0 = a@;
    let mut i: usize = 0;
    while i < b.len()
        invariant
            i <= b.len(),
            a0 == old(a)@,
            a.len() == a0.len() + i,
            forall|k: int| 0 <= k < a0.len() ==> a@[k] == a0[k],
            forall|k: int| 0 <= k < i ==> a@[a0.len() + k] == b@[k],
        decreases b.len() - i,
    {
        a.push(b[i]);
        i += 1;
    }
    assert(strs_of(a@) =~= strs_of(a0) + strs_of(b@));
}

fn known_of<'a>(d: &'a IndexDoc) -> (k: Known<'a>)
    ensures
        k.of(*d),
{
    let subjects = subject_list(d);
    let anchors = anchor_list(d);
    let surfaces = surface_list(d);
    let specimens = specimen_list(d);
    let features = feature_list(d);
    let routes = route_list(d);
    let mut all: Vec<&str> = Vec::new();
    assert(strs_of(all@) =~= Seq::<Seq<char>>::empty());
    append_strs(&mut all, &subjects);
    append_strs(&mut all, &anchors);
    append_strs(&mut all, &surfaces);
    append_strs(&mut all, &specimens);
    append_strs(&mut all, &features);
    append_strs(&mut all, &routes);
    assert(strs_of(all@) =~= known_ids(*d));
    Known { subjects, anchors, surfaces, specimens, features, routes, all }
}

/// Every id of a discovered or authored row of a document, as listed by
/// [`known_ids`].
pub(crate) fn known_id_list<'a>(d: &'a IndexDoc) -> (r: Vec<&'a str>)
    ensures
        strs_of(r@) == known_ids(*d),
{
    known_of(d).all
}

fn check_edge(k: &Known, d: &IndexDoc, e: &IndexEdge) -> (r: Result<(), IndexError>)
    requires
        k.of(*d),
    ensures
        r is Ok <==> edge_ok(*d, *e),
        r matches Err(x) ==> (x matches IndexError::UnresolvedClaim { owner: o, kind: k, id: i } && o@
            == "edge"@ + ":"@ + e.rel@ && edge_error(*d, *e, k@, i@)),
{
    let rel = e.rel.as_str();
    let from = e.from.as_str();
    let to = e.to.as_str();
    if str_eq(rel, "contains") {
        require(&k.subjects, "edge", rel, "subject", from)?;
        require(&k.subjects, "edge", rel, "subject", to)
    } else if str_eq(rel, "anchors") {
        require(&k.features, "edge", rel, "feature", from)?;
        require(&k.anchors, "edge", rel, "anchor", to)
    } else if str_eq(rel, "surfaces") {
        require(&k.features, "edge", rel, "feature", from)?;
        require(&k.surfaces, "edge", rel, "surface", to)
    } else if str_eq(rel, "demonstrates") {
        require(&k.features, "edge", rel, "feature", from)?;
        require(&k.specimens, "edge", rel, "specimen", to)
    } else if str_eq(rel, "supports") || str_eq(rel, "presents") || str_eq(rel, "replaces") {
        require(&k.features, "edge", rel, "feature", from)?;
        require(&k.features, "edge", rel, "feature", to)
    } else if str_eq(rel, "documents") {
        require(&k.all, "edge", rel, "index row", from)?;
        require(&k.anchors, "edge", rel, "anchor", to)
    } else if str_eq(rel, "routes") {
        require(&k.routes, "edge", rel, "route", from)?;
        require(&k.all, "edge", rel, "index row", to)
    } else {
        require(&k.all, "edge", rel, "index row", from)?;
        require(&k.all, "edge", rel, "index row", to)
    }
}

#[verifier::loop_isolation(false)]
fn reject_unresolved_claims(k: &Known, d: &IndexDoc, strict: bool) -> (r: Result<(), IndexError>)
    requires
        k.of(*d),
    ensures
        r is Ok <==> claims_ok(*d, strict),
        r matches Err(x) ==> unresolved_error(*d, strict, x),
{
    let subjects = &k.subjects;
    let mut i: usize = 0;
    while i < d.anchors.len()
        invariant
            i <= d.anchors.len(),
            k.of(*d),
            forall|j: int|
                0 <= j < i ==> subject_ids(*d).contains((#[trigger] d.anchors@[j]).subject@),
        decreases d.anchors.len() - i,
    {
        require(&k.subjects, "anchor", d.anchors[i].id.as_str(), "subject", d.anchors[i].subject.as_str())?;
        i += 1;
    }
    let mut i: usize = 0;
    while i < d.surfaces.len()
        invariant
            i <= d.surfaces.len(),
            k.of(*d),
            anchors_resolved(*d, d.anchors@.len() as int),
            forall|j: int|
                0 <= j < i ==> subject_ids(*d).contains((#[trigger] d.surfaces@[j]).subject@),
        decreases d.surfaces.len() - i,
    {
        require(&k.subjects, "surface", d.surfaces[i].id.as_str(), "subject", d.surfaces[i].subject.as_str())?;
        i += 1;
    }
    let mut i: usize = 0;
    while i < d.specimens.len()
        invariant
            i <= d.specimens.len(),
            k.of(*d),
            anchors_resolved(*d, d.anchors@.len() as int),
            surfaces_resolved(*d, d.surfaces@.len() as int),
            forall|j: int|
                0 <= j < i ==> subject_ids(*d).contains((#[trigger] d.specimens@[j]).subject@),
        decreases d.specimens.len() - i,
    {
        require(&k.subjects, "specimen", d.specimens[i].id.as_str(), "subject", d.specimens[i].subject.as_str())?;
        i += 1;
    }
    let mut i: usize = 0;
    while i < d.drafts.len()
        invariant
            i <= d.drafts.len(),
            k.of(*d),
            anchors_resolved(*d, d.anchors@.len() as int),
            surfaces_resolved(*d, d.surfaces@.len() as int),
            specimens_resolved(*d, d.specimens@.len() as int),
            forall|j: int|
                0 <= j < i ==> subject_ids(*d).contains((#[trigger] d.drafts@[j]).subject@)
                    && all_in(anchor_views(d.drafts@[j].claims_anchors@), anchor_ids(*d))
                    && all_in(surface_views(d.drafts@[j].claims_surfaces@), surface_ids(*d))
                    && all_in(specimen_views(d.drafts@[j].claims_specimens@), specimen_ids(*d)),
        decreases d.drafts.len() - i,
    {
        let draft = &d.drafts[i];
        require(&k.subjects, "draft", draft.id.as_str(), "subject", draft.subject.as_str())?;
        require_all(&k.anchors, draft.id.as_str(), "anchor", &anchor_strs(&draft.claims_anchors))?;
        require_all(&k.surfaces, draft.id.as_str(), "surface", &surface_strs(&draft.claims_surfaces))?;
        require_all(&k.specimens, draft.id.as_str(), "specimen", &specimen_strs(&draft.claims_specimens))?;
        i += 1;
    }
    let mut i: usize = 0;
    while i < d.features.len()
        invariant
            i <= d.features.len(),
            k.of(*d),
            anchors_resolved(*d, d.anchors@.len() as int),
            surfaces_resolved(*d, d.surfaces@.len() as int),
            specimens_resolved(*d, d.specimens@.len() as int),
            drafts_resolved(*d, d.drafts@.len() as int),
            forall|j: int|
                0 <= j < i ==> subject_ids(*d).contains((#[trigger] d.features@[j]).subject@)
                    && all_in(anchor_views(d.features@[j].anchors@), anchor_ids(*d))
                    && all_in(surface_views(d.features@[j].surfaces@), surface_ids(*d))
                    && all_in(specimen_views(d.features@[j].specimens@), specimen_ids(*d)),
        decreases d.features.len() - i,
    {
        let f = &d.features[i];
        require(&k.subjects, "feature", f.id.as_str(), "subject", f.subject.as_str())?;
        require_all(&k.anchors, f.id.as_str(), "anchor", &anchor_strs(&f.anchors))?;
        require_all(&k.surfaces, f.id.as_str(), "surface", &surface_strs(&f.surfaces))?;
        require_all(&k.specimens, f.id.as_str(), "specimen", &specimen_strs(&f.specimens))?;
        i += 1;
    }
    if strict {
        let mut i: usize = 0;
        while i < d.edges.len()
            invariant
                i <= d.edges.len(),
                k.of(*d),
                claims_ok(*d, false),
                forall|j: int| 0 <= j < i ==> edge_ok(*d, #[trigger] d.edges@[j]),
            decreases d.edges.len() - i,
        {
            check_edge(k, d, &d.edges[i])?;
            i += 1;
        }
    }
    Ok(())
}


// ---------------------------------------------------------------------------
// Repeated claims, keys, grammar contracts, specimens, routes, doc anchors.
// ---------------------------------------------------------------------------
/// No draft or feature claims one fact twice.
pub open spec fn claims_distinct(d: IndexDoc) -> bool {
    &&& forall|i: int|
        0 <= i < d.drafts@.len() ==> distinct(anchor_views((#[trigger] d.drafts@[i]).claims_anchors@))
            && distinct(surface_views(d.drafts@[i].claims_surfaces@)) && distinct(
            specimen_views(d.drafts@[i].claims_specimens@),
        )
    &&& forall|i: int|
        0 <= i < d.features@.len() ==> distinct(anchor_views((#[trigger] d.features@[i]).anchors@))
            && distinct(surface_views(d.features@[i].surfaces@)) && distinct(
            specimen_views(d.features@[i].specimens@),
        )
}

fn duplicate_claims(owner: &str, kind: &'static str, list: &Vec<&str>) -> (r: Result<(), IndexError>)
    ensures
        r is Ok <==> distinct(strs_of(list@)),
        r matches Err(x) ==> (x matches IndexError::DuplicateClaim { owner: o, kind: k, id } && o@
            == owner@ && k == kind && first_repeated(strs_of(list@), id@)),
{
    match first_repeat(list) {
        Some(j) => Err(IndexError::DuplicateClaim { owner: owned(owner), kind, id: owned(list[j]) }),
        None => Ok(()),
    }
}

/// `id` is the first claim repeated, as a row of the given kind, in the
/// claim lists read in order (anchors, surfaces, then specimens).
pub open spec fn claimed_twice(
    kind: Seq<char>,
    id: Seq<char>,
    anchors: Seq<Seq<char>>,
    surfaces: Seq<Seq<char>>,
    specimens: Seq<Seq<char>>,
) -> bool {
    ||| kind == "anchor"@ && first_repeated(anchors, id)
    ||| distinct(anchors) && kind == "surface"@ && first_repeated(surfaces, id)
    ||| distinct(anchors) && distinct(surfaces) && kind == "specimen"@ && first_repeated(specimens, id)
}

/// The claims of a draft are distinct.
pub open spec fn draft_claims_distinct(r: FeatureDraft) -> bool {
    distinct(anchor_views(r.claims_anchors@)) && distinct(surface_views(r.claims_surfaces@)) && distinct(
        specimen_views(r.claims_specimens@),
    )
}

/// The claims of a feature are distinct.
pub open spec fn feature_claims_distinct(r: FeatureRecord) -> bool {
    distinct(anchor_views(r.anchors@)) && distinct(surface_views(r.surfaces@)) && distinct(
        specimen_views(r.specimens@),
    )
}

/// The refusal names the first draft or feature in scan order (drafts,
/// then features) that claims one id twice, the kind of claim, and the
/// first id it repeats.
pub open spec fn duplicate_claim_error(d: IndexDoc, x: IndexError) -> bool {
    x matches IndexError::DuplicateClaim { owner, kind, id } && {
        ||| exists|i: int|
            0 <= i < d.drafts@.len() && (forall|j: int| 0 <= j < i ==> draft_claims_distinct(#[trigger] d.drafts@[j]))
                && owner@ == (#[trigger] d.drafts@[i]).id@ && claimed_twice(
                kind@,
                id@,
                anchor_views(d.drafts@[i].claims_anchors@),
                surface_views(d.drafts@[i].claims_surfaces@),
                specimen_views(d.drafts@[i].claims_specimens@),
            )
        ||| (forall|j: int| 0 <= j < d.drafts@.len() ==> draft_claims_distinct(#[trigger] d.drafts@[j]))
            && exists|i: int|
            0 <= i < d.features@.len() && (forall|j: int| 0 <= j < i ==> feature_claims_distinct(#[trigger] d.features@[j]))
                && owner@ == (#[trigger] d.features@[i]).id@ && claimed_twice(
                kind@,
                id@,
                anchor_views(d.features@[i].anchors@),
                surface_views(d.features@[i].surfaces@),
                specimen_views(d.features@[i].specimens@),
            )
    }
}

fn reject_duplicate_claims(d: &IndexDoc) -> (r: Result<(), IndexError>)
    ensures
        r is Ok <==> claims_distinct(*d),
        r matches Err(x) ==> duplicate_claim_error(*d, x),
{
    let mut i: usize = 0;
    while i < d.drafts.len()
        invariant
            i <= d.drafts.len(),
            forall|j: int|
                0 <= j < i ==> distinct(anchor_views((#[trigger] d.drafts@[j]).claims_anchors@))
                    && distinct(surface_views(d.drafts@[j].claims_surfaces@)) && distinct(
                    specimen_views(d.drafts@[j].claims_specimens@),
                ),
        decreases d.drafts.len() - i,
    {
        let draft = &d.drafts[i];
        duplicate_claims(draft.id.as_str(), "anchor", &anchor_strs(&draft.claims_anchors))?;
        duplicate_claims(draft.id.as_str(), "surface", &surface_strs(&draft.claims_surfaces))?;
        duplicate_claims(draft.id.as_str(), "specimen", &specimen_strs(&draft.claims_specimens))?;
        i += 1;
    }
    let mut i: usize = 0;
    while i < d.features.len()
        invariant
            i <= d.features.len(),
            forall|j: int|
                0 <= j < d.drafts@.len() ==> distinct(
                    anchor_views((#[trigger] d.drafts@[j]).claims_anchors@),
                ) && distinct(surface_views(d.drafts@[j].claims_surfaces@)) && distinct(
                    specimen_views(d.drafts@[j].claims_specimens@),
                ),
            forall|j: int|
                0 <= j < i ==> distinct(anchor_views((#[trigger] d.features@[j]).anchors@))
                    && distinct(surface_views(d.features@[j].surfaces@)) && distinct(
                    specimen_views(d.features@[j].specimens@),
                ),
        decreases d.features.len() - i,
    {
        let f = &d.features[i];
        duplicate_claims(f.id.as_str(), "anchor", &anchor_strs(&f.anchors))?;
        duplicate_claims(f.id.as_str(), "surface", &surface_strs(&f.surfaces))?;
        duplicate_claims(f.id.as_str(), "specimen", &specimen_strs(&f.specimens))?;
        i += 1;
    }
    Ok(())
}

/// The canonical keys of the features.
pub open spec fn feature_keys(d: IndexDoc) -> Seq<Seq<char>> {
    d.features@.map_values(|r: FeatureRecord| r.key@)
}

fn reject_canonical_key_collisions(d: &IndexDoc) -> (r: Result<(), IndexError>)
    ensures
        r is Ok <==> distinct(feature_keys(*d)),
        r matches Err(x) ==> (x matches IndexError::DuplicateCanonicalKey { key } && repeated(
            feature_keys(*d),
            key@,
        )),
{
    let mut keys: Vec<&str> = Vec::new();
    let mut i: usize = 0;
    while i < d.features.len()
        invariant
            i <= d.features.len(),
            keys.len() == i,
            forall|k: int| 0 <= k < i ==> (#[trigger] keys@[k])@ == d.features@[k].key@,
        decreases d.features.len() - i,
    {
        keys.push(d.features[i].key.as_str());
        i += 1;
    }
    assert(strs_of(keys@) =~= feature_keys(*d));
    match first_repeat(&keys) {
        Some(j) => Err(IndexError::DuplicateCanonicalKey { key: owned(keys[j]) }),
        None => Ok(()),
    }
}

/// A grammar contract is closed and its anchors and surface exist.
pub open spec fn contract_ok(d: IndexDoc, c: GrammarContract) -> bool {
    &&& contract_closed(c)
    &&& c.decoder matches Some(a) ==> anchor_ids(d).contains(a@)
    &&& c.encoder matches Some(a) ==> anchor_ids(d).contains(a@)
    &&& c.surface matches Some(s) ==> surface_ids(d).contains(s@)
}

/// The refusal names, for the owner `owner`, a contract of `cs` that is
/// not closed (by its id), or an anchor (decoder or encoder) or surface a
/// closed contract references that is not in the document (the owner
/// shown as `feature:<owner>`).
pub open spec fn contract_error(d: IndexDoc, owner: Seq<char>, cs: Seq<GrammarContract>, x: IndexError) -> bool {
    exists|j: int|
        0 <= j < cs.len() && {
            let c = #[trigger] cs[j];
            ||| (x matches IndexError::InvalidGrammarContract { owner: o, id } && o@ == owner && id@
                == c.id@) && !contract_closed(c)
            ||| (x matches IndexError::UnresolvedClaim { owner: o, kind, id } && o@ == "feature"@
                + ":"@ + owner && contract_closed(c) && (
                (kind@ == "anchor"@ && !anchor_ids(d).contains(id@) && ((c.decoder matches Some(a)
                    && a@ == id@) || (c.encoder matches Some(a) && a@ == id@)))
                || (kind@ == "surface"@ && !surface_ids(d).contains(id@) && (c.surface matches Some(
                    v,
                ) && v@ == id@))))
        }
}

/// The refusal names a contract of a draft or feature, as
/// [`contract_error`] describes.
pub open spec fn grammar_error(d: IndexDoc, x: IndexError) -> bool {
    ||| exists|i: int|
        0 <= i < d.drafts@.len() && contract_error(d, (#[trigger] d.drafts@[i]).id@, d.drafts@[i].grammar_contracts@, x)
    ||| exists|i: int|
        0 <= i < d.features@.len() && contract_error(d, (#[trigger] d.features@[i]).id@, d.features@[i].grammar_contracts@, x)
}

/// All grammar contracts of a list are sound.
pub open spec fn contracts_ok(d: IndexDoc, cs: Seq<GrammarContract>) -> bool {
    forall|i: int| 0 <= i < cs.len() ==> contract_ok(d, #[trigger] cs[i])
}

/// Every grammar contract of every draft and feature is sound.
pub open spec fn grammar_ok(d: IndexDoc) -> bool {
    &&& forall|i: int| 0 <= i < d.drafts@.len() ==> contracts_ok(d, (#[trigger] d.drafts@[i]).grammar_contracts@)
    &&& forall|i: int| 0 <= i < d.features@.len() ==> contracts_ok(d, (#[trigger] d.features@[i]).grammar_contracts@)
}

fn check_contracts(k: &Known, d: &IndexDoc, owner: &str, cs: &Vec<GrammarContract>) -> (r: Result<
    (),
    IndexError,
>)
    requires
        k.of(*d),
    ensures
        r is Ok <==> contracts_ok(*d, cs@),
        r matches Err(x) ==> contract_error(*d, owner@, cs@, x),
{
    let mut i: usize = 0;
    while i < cs.len()
        invariant
            i <= cs.len(),
            k.of(*d),
            forall|j: int| 0 <= j < i ==> contract_ok(*d, #[trigger] cs@[j]),
        decreases cs.len() - i,
    {
        let c = &cs[i];
        if !c.is_valid() {
            return Err(IndexError::InvalidGrammarContract { owner: owned(owner), id: c.id.clone() });
        }
        match &c.decoder {
            Some(a) => require(&k.anchors, "feature", owner, "anchor", a.as_str())?,
            None => {},
        }
        match &c.encoder {
            Some(a) => require(&k.anchors, "feature", owner, "anchor", a.as_str())?,
            None => {},
        }
        match &c.surface {
            Some(s) => require(&k.surfaces, "feature", owner, "surface", s.as_str())?,
            None => {},
        }
        i += 1;
    }
    Ok(())
}

#[verifier::loop_isolation(false)]
fn reject_invalid_grammar_contracts(k: &Known, d: &IndexDoc) -> (r: Result<(), IndexError>)
    requires
        k.of(*d),
    ensures
        r is Ok <==> grammar_ok(*d),
        r matches Err(x) ==> grammar_error(*d, x),
{
    let mut i: usize = 0;
    while i < d.drafts.len()
        invariant
            i <= d.drafts.len(),
            forall|j: int| 0 <= j < i ==> contracts_ok(*d, (#[trigger] d.drafts@[j]).grammar_contracts@),
        decreases d.drafts.len() - i,
    {
        check_contracts(k, d, d.drafts[i].id.as_str(), &d.drafts[i].grammar_contracts)?;
        i += 1;
    }
    let mut i: usize = 0;
    while i < d.features.len()
        invariant
            i <= d.features.len(),
            forall|j: int| 0 <= j < d.drafts@.len() ==> contracts_ok(*d, (#[trigger] d.drafts@[j]).grammar_contracts@),
            forall|j: int| 0 <= j < i ==> contracts_ok(*d, (#[trigger] d.features@[j]).grammar_contracts@),
        decreases d.features.len() - i,
    {
        check_contracts(k, d, d.features[i].id.as_str(), &d.features[i].grammar_contracts)?;
        i += 1;
    }
    Ok(())
}

/// Some specimen with id `x` is runnable and checked.
pub open spec fn runnable(d: IndexDoc, x: Seq<char>) -> bool {
    exists|k: int|
        0 <= k < d.specimens@.len() && (#[trigger] d.specimens@[k]).id@ == x
            && d.specimens@[k].runnable && d.specimens@[k].checked
}

/// Every claimed specimen is runnable and checked.
pub open spec fn runnable_ok(d: IndexDoc) -> bool {
    &&& forall|i: int, j: int|
        0 <= i < d.drafts@.len() && 0 <= j < d.drafts@[i].claims_specimens@.len() ==> runnable(
            d,
            (#[trigger] d.drafts@[i].claims_specimens@[j])@,
        )
    &&& forall|i: int, j: int|
        0 <= i < d.features@.len() && 0 <= j < d.features@[i].specimens@.len() ==> runnable(
            d,
            (#[trigger] d.features@[i].specimens@[j])@,
        )
}

fn find_specimen(d: &IndexDoc, id: &str) -> (r: bool)
    ensures
        r == runnable(*d, id@),
{
    let mut k: usize = 0;
    while k < d.specimens.len()
        invariant
            k <= d.specimens.len(),
            forall|j: int|
                0 <= j < k ==> !((#[trigger] d.specimens@[j]).id@ == id@ && d.specimens@[j].runnable
                    && d.specimens@[j].checked),
        decreases d.specimens.len() - k,
    {
        let s = &d.specimens[k];
        if str_eq(s.id.as_str(), id) && s.runnable && s.checked {
            return true;
        }
        k += 1;
    }
    false
}

fn ensure_runnable(d: &IndexDoc, owner: &str, claims: &Vec<SpecimenId>) -> (r: Result<(), IndexError>)
    ensures
        r is Ok <==> forall|j: int| 0 <= j < claims@.len() ==> runnable(*d, (#[trigger] claims@[j])@),
        r matches Err(x) ==> (x matches IndexError::NonRunnableSpecimen { owner: o, id } && o@ == owner@
            && exists|j: int| 0 <= j < claims@.len() && (#[trigger] claims@[j])@ == id@ && !runnable(*d, id@)),
{
    let mut j: usize = 0;
    while j < claims.len()
        invariant
            j <= claims.len(),
            forall|m: int| 0 <= m < j ==> runnable(*d, (#[trigger] claims@[m])@),
        decreases claims.len() - j,
    {
        if !find_specimen(d, claims[j].as_str()) {
            return Err(IndexError::NonRunnableSpecimen { owner: owned(owner), id: owned(claims[j].as_str()) });
        }
        j += 1;
    }
    Ok(())
}

/// The refusal names a draft or feature and a specimen it claims that is
/// not a runnable, checked specimen of the document.
pub open spec fn unrunnable_error(d: IndexDoc, x: IndexError) -> bool {
    x matches IndexError::NonRunnableSpecimen { owner, id } && !runnable(d, id@) && {
        ||| exists|i: int|
            0 <= i < d.drafts@.len() && owner@ == (#[trigger] d.drafts@[i]).id@ && specimen_views(
                d.drafts@[i].claims_specimens@,
            ).contains(id@)
        ||| exists|i: int|
            0 <= i < d.features@.len() && owner@ == (#[trigger] d.features@[i]).id@ && specimen_views(
                d.features@[i].specimens@,
            ).contains(id@)
    }
}

#[verifier::loop_isolation(false)]
fn reject_unrunnable_specimen_claims(d: &IndexDoc) -> (r: Result<(), IndexError>)
    ensures
        r is Ok <==> runnable_ok(*d),
        r matches Err(x) ==> unrunnable_error(*d, x),
{
    let mut i: usize = 0;
    while i < d.drafts.len()
        invariant
            i <= d.drafts.len(),
            forall|a: int, j: int|
                0 <= a < i && 0 <= j < d.drafts@[a].claims_specimens@.len() ==> runnable(
                    *d,
                    (#[trigger] d.drafts@[a].claims_specimens@[j])@,
                ),
        decreases d.drafts.len() - i,
    {
        match ensure_runnable(d, d.drafts[i].id.as_str(), &d.drafts[i].claims_specimens) {
            Ok(()) => {},
            Err(x) => {
                proof {
                    let c = d.drafts@[i as int].claims_specimens@;
                    let id = x->NonRunnableSpecimen_id;
                    let j = choose|j: int| 0 <= j < c.len() && (#[trigger] c[j])@ == id@ && !runnable(*d, id@);
                    assert(specimen_views(c)[j] == id@);
                }
                return Err(x);
            },
        }
        i += 1;
    }
    let mut i: usize = 0;
    while i < d.features.len()
        invariant
            i <= d.features.len(),
            forall|a: int, j: int|
                0 <= a < i && 0 <= j < d.features@[a].specimens@.len() ==> runnable(
                    *d,
                    (#[trigger] d.features@[a].specimens@[j])@,
                ),
        decreases d.features.len() - i,
    {
        match ensure_runnable(d, d.features[i].id.as_str(), &d.features[i].specimens) {
            Ok(()) => {},
            Err(x) => {
                proof {
                    let c = d.features@[i as int].specimens@;
                    let id = x->NonRunnableSpecimen_id;
                    let j = choose|j: int| 0 <= j < c.len() && (#[trigger] c[j])@ == id@ && !runnable(*d, id@);
                    assert(specimen_views(c)[j] == id@);
                }
                return Err(x);
            },
        }
        i += 1;
    }
    Ok(())
}

/// A route step targets an existing feature or specimen.
pub open spec fn step_live(d: IndexDoc, s: RouteStep) -> bool {
    match s {
        RouteStep::Feature { id, .. } => feature_ids(d).contains(id@),
        RouteStep::Specimen { id, .. } => specimen_ids(d).contains(id@),
    }
}

/// Routes have steps; a strict check also wants every step live.
pub open spec fn routes_ok(d: IndexDoc, strict: bool) -> bool {
    &&& forall|i: int| 0 <= i < d.routes@.len() ==> (#[trigger] d.routes@[i]).steps@.len() > 0
    &&& strict ==> forall|i: int, j: int|
        0 <= i < d.routes@.len() && 0 <= j < d.routes@[i].steps@.len() ==> step_live(
            d,
            #[trigger] d.routes@[i].steps@[j],
        )
}

/// The refusal names a route with no steps (its step shown as `<empty>`),
/// or, in a strict check, a route and the target of a step of it that
/// names no feature or specimen: the first such route, and its first dead
/// step, in order.
pub open spec fn dead_route_error(d: IndexDoc, strict: bool, x: IndexError) -> bool {
    x matches IndexError::DeadRouteStep { route, step } && exists|i: int|
        0 <= i < d.routes@.len() && (forall|a: int| 0 <= a < i ==> route_fine(d, strict, #[trigger] d.routes@[a]))
            && route@ == (#[trigger] d.routes@[i]).id@ && {
            ||| d.routes@[i].steps@.len() == 0 && step@ == "<empty>"@
            ||| strict && d.routes@[i].steps@.len() > 0 && exists|j: int|
                0 <= j < d.routes@[i].steps@.len() && (forall|m: int| 0 <= m < j ==> step_live(d, #[trigger] d.routes@[i].steps@[m]))
                    && !step_live(d, #[trigger] d.routes@[i].steps@[j])
                    && step@ == step_target(d.routes@[i].steps@[j])
        }
}

/// A route has steps and, in a strict check, every step is live.
pub open spec fn route_fine(d: IndexDoc, strict: bool, r: crate::index::model::RouteRecord) -> bool {
    r.steps@.len() > 0 && (strict ==> forall|j: int| 0 <= j < r.steps@.len() ==> step_live(d, #[trigger] r.steps@[j]))
}

#[verifier::loop_isolation(false)]
fn reject_dead_route_steps(k: &Known, d: &IndexDoc, strict: bool) -> (r: Result<(), IndexError>)
    requires
        k.of(*d),
    ensures
        r is Ok <==> routes_ok(*d, strict),
        r matches Err(x) ==> dead_route_error(*d, strict, x),
{
    let mut i: usize = 0;
    while i < d.routes.len()
        invariant
            i <= d.routes.len(),
            forall|a: int| 0 <= a < i ==> (#[trigger] d.routes@[a]).steps@.len() > 0,
            strict ==> forall|a: int, j: int|
                0 <= a < i && 0 <= j < d.routes@[a].steps@.len() ==> step_live(
                    *d,
                    #[trigger] d.routes@[a].steps@[j],
                ),
        decreases d.routes.len() - i,
    {
        let route = &d.routes[i];
        if route.steps.len() == 0 {
            return Err(IndexError::DeadRouteStep { route: owned(route.id.as_str()), step: text("<empty>") });
        }
        if strict {
            let mut j: usize = 0;
            while j < route.steps.len()
                invariant
                    j <= route.steps.len(),
                    forall|m: int| 0 <= m < j ==> step_live(*d, #[trigger] route.steps@[m]),
                decreases route.steps.len() - j,
            {
                let live = match &route.steps[j] {
                    RouteStep::Feature { id, .. } => has_id(&k.features, id.as_str()),
                    RouteStep::Specimen { id, .. } => has_id(&k.specimens, id.as_str()),
                };
                if !live {
                    return Err(
                        IndexError::DeadRouteStep {
                            route: owned(route.id.as_str()),
                            step: owned(route.steps[j].id()),
                        },
                    );
                }
                j += 1;
            }
        }
        i += 1;
    }
    Ok(())
}

/// An optional documentation anchor exists.
pub open spec fn doc_anchor_ok(d: IndexDoc, a: Option<AnchorId>) -> bool {
    match a {
        Some(x) => anchor_ids(d).contains(x@),
        None => true,
    }
}

/// Every documentation anchor reference exists.
pub open spec fn doc_anchors_ok(d: IndexDoc) -> bool {
    &&& forall|i: int| 0 <= i < d.specimens@.len() ==> doc_anchor_ok(d, (#[trigger] d.specimens@[i]).doc_anchor)
    &&& forall|i: int| 0 <= i < d.drafts@.len() ==> doc_anchor_ok(d, (#[trigger] d.drafts@[i]).doc_anchor)
    &&& forall|i: int| 0 <= i < d.features@.len() ==> doc_anchor_ok(d, (#[trigger] d.features@[i]).doc_anchor)
    &&& forall|i: int| 0 <= i < d.routes@.len() ==> doc_anchor_ok(d, (#[trigger] d.routes@[i]).doc_anchor)
}

fn check_doc_anchor(k: &Known, d: &IndexDoc, owner: &str, anchor: &Option<AnchorId>) -> (r: Result<
    (),
    IndexError,
>)
    requires
        k.of(*d),
    ensures
        r is Ok <==> doc_anchor_ok(*d, *anchor),
        r matches Err(x) ==> (x matches IndexError::DanglingDocAnchor { owner: o, id } && o@ == owner@
            && (*anchor matches Some(a) && a@ == id@) && !anchor_ids(*d).contains(id@)),
{
    match anchor {
        Some(a) => {
            if has_id(&k.anchors, a.as_str()) {
                Ok(())
            } else {
                Err(IndexError::DanglingDocAnchor { owner: owned(owner), id: owned(a.as_str()) })
            }
        },
        None => Ok(()),
    }
}

/// The refusal names the first specimen, draft, feature or route, in
/// that order, and the documentation anchor it references that is not an
/// anchor of the document.
pub open spec fn dangling_error(d: IndexDoc, x: IndexError) -> bool {
    x matches IndexError::DanglingDocAnchor { owner, id } && !anchor_ids(d).contains(id@) && {
        let spe = forall|a: int| 0 <= a < d.specimens@.len() ==> doc_anchor_ok(d, (#[trigger] d.specimens@[a]).doc_anchor);
        let dra = forall|a: int| 0 <= a < d.drafts@.len() ==> doc_anchor_ok(d, (#[trigger] d.drafts@[a]).doc_anchor);
        let fea = forall|a: int| 0 <= a < d.features@.len() ==> doc_anchor_ok(d, (#[trigger] d.features@[a]).doc_anchor);
        ||| exists|i: int|
            0 <= i < d.specimens@.len() && (forall|a: int| 0 <= a < i ==> doc_anchor_ok(d, (#[trigger] d.specimens@[a]).doc_anchor))
                && owner@ == (#[trigger] d.specimens@[i]).id@
                && (d.specimens@[i].doc_anchor matches Some(a) && a@ == id@)
        ||| spe && exists|i: int|
            0 <= i < d.drafts@.len() && (forall|a: int| 0 <= a < i ==> doc_anchor_ok(d, (#[trigger] d.drafts@[a]).doc_anchor))
                && owner@ == (#[trigger] d.drafts@[i]).id@
                && (d.drafts@[i].doc_anchor matches Some(a) && a@ == id@)
        ||| spe && dra && exists|i: int|
            0 <= i < d.features@.len() && (forall|a: int| 0 <= a < i ==> doc_anchor_ok(d, (#[trigger] d.features@[a]).doc_anchor))
                && owner@ == (#[trigger] d.features@[i]).id@
                && (d.features@[i].doc_anchor matches Some(a) && a@ == id@)
        ||| spe && dra && fea && exists|i: int|
            0 <= i < d.routes@.len() && (forall|a: int| 0 <= a < i ==> doc_anchor_ok(d, (#[trigger] d.routes@[a]).doc_anchor))
                && owner@ == (#[trigger] d.routes@[i]).id@
                && (d.routes@[i].doc_anchor matches Some(a) && a@ == id@)
    }
}

#[verifier::loop_isolation(false)]
fn reject_dangling_doc_anchors(k: &Known, d: &IndexDoc) -> (r: Result<(), IndexError>)
    requires
        k.of(*d),
    ensures
        r is Ok <==> doc_anchors_ok(*d),
        r matches Err(x) ==> dangling_error(*d, x),
{
    let mut i: usize = 0;
    while i < d.specimens.len()
        invariant
            i <= d.specimens.len(),
            forall|a: int| 0 <= a < i ==> doc_anchor_ok(*d, (#[trigger] d.specimens@[a]).doc_anchor),
        decreases d.specimens.len() - i,
    {
        check_doc_anchor(k, d, d.specimens[i].id.as_str(), &d.specimens[i].doc_anchor)?;
        i += 1;
    }
    let mut i: usize = 0;
    while i < d.drafts.len()
        invariant
            i <= d.drafts.len(),
            forall|a: int| 0 <= a < i ==> doc_anchor_ok(*d, (#[trigger] d.drafts@[a]).doc_anchor),
        decreases d.drafts.len() - i,
    {
        check_doc_anchor(k, d, d.drafts[i].id.as_str(), &d.drafts[i].doc_anchor)?;
        i += 1;
    }
    let mut i: usize = 0;
    while i < d.features.len()
        invariant
            i <= d.features.len(),
            forall|a: int| 0 <= a < i ==> doc_anchor_ok(*d, (#[trigger] d.features@[a]).doc_anchor),
        decreases d.features.len() - i,
    {
        check_doc_anchor(k, d, d.features[i].id.as_str(), &d.features[i].doc_anchor)?;
        i += 1;
    }
    let mut i: usize = 0;
    while i < d.routes.len()
        invariant
            i <= d.routes.len(),
            forall|a: int| 0 <= a < i ==> doc_anchor_ok(*d, (#[trigger] d.routes@[a]).doc_anchor),
        decreases d.routes.len() - i,
    {
        check_doc_anchor(k, d, d.routes[i].id.as_str(), &d.routes[i].doc_anchor)?;
        i += 1;
    }
    Ok(())
}

/// The refusal names a source fact that breaks the fact rules, by its
/// anchor: one whose anchor is not an anchor of the document (as an
/// unresolved `anchor` claim of `declaration:<anchor>` or
/// `protocol:<anchor>`), one with the identity of an earlier fact, or one
/// outside its bound; or a relation whose resolution is malformed.
pub open spec fn fact_error(d: IndexDoc, x: IndexError) -> bool {
    ||| exists|i: int|
        0 <= i < d.declarations@.len() && {
            let f = #[trigger] d.declarations@[i];
            ||| (x matches IndexError::UnresolvedClaim { owner, kind, id } && owner@ == "declaration"@
                + ":"@ + f.anchor@ && kind@ == "anchor"@ && id@ == f.anchor@) && !anchor_ids(d).contains(
                f.anchor@,
            )
            ||| (x matches IndexError::DuplicateSourceFact { anchor, role } && anchor@ == f.anchor@
                && role@ == role_label(f.role)) && exists|a: int|
                0 <= a < i && same_decl_key(#[trigger] d.declarations@[a], f)
            ||| (x matches IndexError::InvalidSourceBound { anchor, max_bytes } && anchor@ == f.anchor@
                && max_bytes == f.syntax_bound.max_bytes) && !decl_bound_ok(f)
        }
    ||| exists|i: int|
        0 <= i < d.protocol_relations@.len() && {
            let p = #[trigger] d.protocol_relations@[i];
            ||| (x matches IndexError::UnresolvedClaim { owner, kind, id } && owner@ == "protocol"@
                + ":"@ + p.anchor@ && kind@ == "anchor"@ && id@ == p.anchor@) && !anchor_ids(d).contains(
                p.anchor@,
            )
            ||| (x matches IndexError::DuplicateProtocolRelation { anchor, implementor } && anchor@
                == p.anchor@ && implementor@ == p.implementor@) && exists|a: int|
                0 <= a < i && same_relation_key(#[trigger] d.protocol_relations@[a], p)
            ||| (x matches IndexError::ConflictingProtocolResolution { anchor, implementor } && anchor@
                == p.anchor@ && implementor@ == p.implementor@) && exists|a: int|
                0 <= a < i && same_relation_key(#[trigger] d.protocol_relations@[a], p)
            ||| (x matches IndexError::InvalidSourceBound { anchor, max_bytes } && anchor@ == p.anchor@
                && max_bytes == p.body_bound.max_bytes) && !relation_bound_ok(p)
            ||| (x matches IndexError::InvalidProtocolResolution { anchor } && anchor@ == p.anchor@)
                && !resolution_ok(p.resolution)
        }
}

/// The refusal names a repeated source unit or edge by the position of
/// its later copy.
pub open spec fn duplicate_row_error(d: IndexDoc, x: IndexError) -> bool {
    x matches IndexError::DuplicateExactRow { family, index } && {
        ||| family == IndexRowFamily::SourceUnit && index < d.source_units@.len() && exists|a: int|
            0 <= a < index && same_unit(#[trigger] d.source_units@[a], d.source_units@[index as int])
        ||| family == IndexRowFamily::Edge && index < d.edges@.len() && exists|a: int|
            0 <= a < index && same_edge(#[trigger] d.edges@[a], d.edges@[index as int])
    }
}

/// The refusal of the first rule, in checking order, that a document
/// breaks: its variant, and, for the text, id, duplicate-row and
/// reference rules, what it names.
pub open spec fn doc_error(d: IndexDoc, strict: bool, x: IndexError) -> bool {
    if !ascii_ok(d) {
        non_ascii_error(d, x)
    } else if !ids_ok(d) {
        invalid_id_error(d, x)
    } else if !distinct_ok(d) {
        duplicate_id_error(d, x)
    } else if !units_ok(d, strict) {
        unit_error(d, strict, x)
    } else if !facts_ok(d) {
        fact_error(d, x)
    } else if !order_ok(d) {
        order_error(d, x)
    } else if !rows_ok(d) {
        duplicate_row_error(d, x)
    } else if !literals_ok(d) {
        literal_error(d, x)
    } else if !claims_ok(d, strict) {
        unresolved_error(d, strict, x)
    } else if !claims_distinct(d) {
        duplicate_claim_error(d, x)
    } else if !distinct(feature_keys(d)) {
        x matches IndexError::DuplicateCanonicalKey { key } && repeated(feature_keys(d), key@)
    } else if !grammar_ok(d) {
        grammar_error(d, x)
    } else if !runnable_ok(d) {
        unrunnable_error(d, x)
    } else if !routes_ok(d, strict) {
        dead_route_error(d, strict, x)
    } else {
        dangling_error(d, x)
    }
}


// ---------------------------------------------------------------------------
// Entry points.
// ---------------------------------------------------------------------------
/// The documents a check accepts: every rule above holds; `strict` for a
/// complete graph, not for a fragment.
pub open spec fn doc_ok(d: IndexDoc, strict: bool) -> bool {
    &&& ascii_ok(d)
    &&& ids_ok(d)
    &&& distinct_ok(d)
    &&& units_ok(d, strict)
    &&& facts_ok(d)
    &&& order_ok(d)
    &&& rows_ok(d)
    &&& literals_ok(d)
    &&& claims_ok(d, strict)
    &&& claims_distinct(d)
    &&& distinct(feature_keys(d))
    &&& grammar_ok(d)
    &&& runnable_ok(d)
    &&& routes_ok(d, strict)
    &&& doc_anchors_ok(d)
}

fn check_with(d: &IndexDoc, strict: bool) -> (r: Result<IndexReport, IndexError>)
    ensures
        r is Ok <==> doc_ok(*d, strict),
        r matches Err(x) ==> doc_error(*d, strict, x),
        r matches Ok(rep) ==> rep == (IndexReport {
            subjects: d.subjects@.len() as usize,
            features: d.features@.len() as usize,
            specimens: d.specimens@.len() as usize,
            routes: d.routes@.len() as usize,
        }),
{
    reject_non_ascii(d)?;
    reject_invalid_ids(d)?;
    reject_duplicate_ids(d)?;
    reject_invalid_source_units(d, strict)?;
    let k = known_of(d);
    reject_invalid_source_facts(d, &k.anchors)?;
    reject_unstable_source_fact_order(d)?;
    reject_duplicate_rows(d)?;
    reject_authored_literals(d)?;
    reject_unresolved_claims(&k, d, strict)?;
    reject_duplicate_claims(d)?;
    reject_canonical_key_collisions(d)?;
    reject_invalid_grammar_contracts(&k, d)?;
    reject_unrunnable_specimen_claims(d)?;
    reject_dead_route_steps(&k, d, strict)?;
    reject_dangling_doc_anchors(&k, d)?;
    Ok(IndexReport::from_doc(d))
}

/// Checks a complete index document; on success, reports its row counts.
pub fn check_index_doc(doc: &IndexDoc) -> (r: Result<IndexReport, IndexError>)
    ensures
        r is Ok <==> doc_ok(*doc, true),
        r matches Err(x) ==> doc_error(*doc, true, x),
        r matches Ok(rep) ==> rep == (IndexReport {
            subjects: doc.subjects@.len() as usize,
            features: doc.features@.len() as usize,
            specimens: doc.specimens@.len() as usize,
            routes: doc.routes@.len() as usize,
        }),
{
    check_with(doc, true)
}

/// Checks one repository's fragment of an index: as [`check_index_doc`],
/// but edge endpoints and route steps may point outside the fragment, and
/// reachable source units may be incompletely scanned.
pub fn check_index_fragment(doc: &IndexDoc) -> (r: Result<IndexReport, IndexError>)
    ensures
        r is Ok <==> doc_ok(*doc, false),
        r matches Err(x) ==> doc_error(*doc, false, x),
        r matches Ok(rep) ==> rep == (IndexReport {
            subjects: doc.subjects@.len() as usize,
            features: doc.features@.len() as usize,
            specimens: doc.specimens@.len() as usize,
            routes: doc.routes@.len() as usize,
        }),
{
    check_with(doc, false)
}

/// A complete graph that passes the strict check also passes as a
/// fragment: the fragment check only drops rules.
pub proof fn lemma_doc_ok_implies_fragment_ok(d: IndexDoc)
    requires
        doc_ok(d, true),
    ensures
        doc_ok(d, false),
{
}

} // verus!
