//! Exhaustive traversal of the canonical rows in an [`IndexDoc`].
//!
//! The inventory lists every row of a document, by family in a fixed order
//! and within a family in source order.

use vstd::prelude::*;

use crate::conformance::order::{is_permutation, key_values, nondecreasing, permuted, sort_by_keys};
use crate::index::identity::{KeyAtom, atoms, row_key, row_key_of};
use crate::index::model::{
    DeclarationFact, DiscoveredAnchor, DiscoveredSpecimen, DiscoveredSurface, FeatureDraft,
    FeatureRecord, IndexDoc, IndexEdge, ProtocolRelation, RouteRecord, SourceUnit, SubjectRecord,
    Visibility,
};

verus! {

/// Borrowed top-level document metadata.
#[derive(Clone, Copy, Debug, PartialEq, Eq)]
pub struct IndexMetadataRef<'a> {
    /// Schema marker.
    pub schema: &'a str,
    /// Generator identity.
    pub generated_by: &'a str,
    /// Document visibility.
    pub visibility: Visibility,
}

/// Canonical row families, in inventory emission order.
#[derive(Clone, Copy, Debug, PartialEq, Eq, PartialOrd, Ord, Hash)]
pub enum IndexRowFamily {
    /// Subject records.
    Subject,
    /// Anchor records.
    Anchor,
    /// Source-unit records.
    SourceUnit,
    /// Declaration records.
    Declaration,
    /// Protocol-relation records.
    ProtocolRelation,
    /// Surface records.
    Surface,
    /// Specimen records.
    Specimen,
    /// Authored feature drafts.
    Draft,
    /// Materialized feature records.
    Feature,
    /// Route records.
    Route,
    /// Graph edges.
    Edge,
}

/// One borrowed canonical index row.
#[derive(Clone, Copy, Debug, PartialEq, Eq)]
pub enum IndexRowRef<'a> {
    /// Subject row.
    Subject(&'a SubjectRecord),
    /// Anchor row.
    Anchor(&'a DiscoveredAnchor),
    /// Source-unit row.
    SourceUnit(&'a SourceUnit),
    /// Declaration row.
    Declaration(&'a DeclarationFact),
    /// Protocol-relation row.
    ProtocolRelation(&'a ProtocolRelation),
    /// Surface row.
    Surface(&'a DiscoveredSurface),
    /// Specimen row.
    Specimen(&'a DiscoveredSpecimen),
    /// Draft row.
    Draft(&'a FeatureDraft),
    /// Feature row.
    Feature(&'a FeatureRecord),
    /// Route row.
    Route(&'a RouteRecord),
    /// Edge row.
    Edge(&'a IndexEdge),
}

/// One owned canonical index row.
#[derive(Clone, Debug, PartialEq, Eq, PartialOrd, Ord)]
pub enum IndexRow {
    /// Subject row.
    Subject(SubjectRecord),
    /// Anchor row.
    Anchor(DiscoveredAnchor),
    /// Source-unit row.
    SourceUnit(SourceUnit),
    /// Declaration row.
    Declaration(DeclarationFact),
    /// Protocol-relation row.
    ProtocolRelation(ProtocolRelation),
    /// Surface row.
    Surface(DiscoveredSurface),
    /// Specimen row.
    Specimen(DiscoveredSpecimen),
    /// Draft row.
    Draft(FeatureDraft),
    /// Feature row.
    Feature(FeatureRecord),
    /// Route row.
    Route(RouteRecord),
    /// Edge row.
    Edge(IndexEdge),
}

/// The family of a borrowed row.
pub open spec fn ref_family(r: IndexRowRef) -> IndexRowFamily {
    match r {
        IndexRowRef::Subject(_) => IndexRowFamily::Subject,
        IndexRowRef::Anchor(_) => IndexRowFamily::Anchor,
        IndexRowRef::SourceUnit(_) => IndexRowFamily::SourceUnit,
        IndexRowRef::Declaration(_) => IndexRowFamily::Declaration,
        IndexRowRef::ProtocolRelation(_) => IndexRowFamily::ProtocolRelation,
        IndexRowRef::Surface(_) => IndexRowFamily::Surface,
        IndexRowRef::Specimen(_) => IndexRowFamily::Specimen,
        IndexRowRef::Draft(_) => IndexRowFamily::Draft,
        IndexRowRef::Feature(_) => IndexRowFamily::Feature,
        IndexRowRef::Route(_) => IndexRowFamily::Route,
        IndexRowRef::Edge(_) => IndexRowFamily::Edge,
    }
}

/// The owned row a borrowed row refers to.
pub open spec fn ref_row(r: IndexRowRef) -> IndexRow {
    match r {
        IndexRowRef::Subject(x) => IndexRow::Subject(*x),
        IndexRowRef::Anchor(x) => IndexRow::Anchor(*x),
        IndexRowRef::SourceUnit(x) => IndexRow::SourceUnit(*x),
        IndexRowRef::Declaration(x) => IndexRow::Declaration(*x),
        IndexRowRef::ProtocolRelation(x) => IndexRow::ProtocolRelation(*x),
        IndexRowRef::Surface(x) => IndexRow::Surface(*x),
        IndexRowRef::Specimen(x) => IndexRow::Specimen(*x),
        IndexRowRef::Draft(x) => IndexRow::Draft(*x),
        IndexRowRef::Feature(x) => IndexRow::Feature(*x),
        IndexRowRef::Route(x) => IndexRow::Route(*x),
        IndexRowRef::Edge(x) => IndexRow::Edge(*x),
    }
}

/// The family of an owned row.
pub open spec fn row_family(r: IndexRow) -> IndexRowFamily {
    match r {
        IndexRow::Subject(_) => IndexRowFamily::Subject,
        IndexRow::Anchor(_) => IndexRowFamily::Anchor,
        IndexRow::SourceUnit(_) => IndexRowFamily::SourceUnit,
        IndexRow::Declaration(_) => IndexRowFamily::Declaration,
        IndexRow::ProtocolRelation(_) => IndexRowFamily::ProtocolRelation,
        IndexRow::Surface(_) => IndexRowFamily::Surface,
        IndexRow::Specimen(_) => IndexRowFamily::Specimen,
        IndexRow::Draft(_) => IndexRowFamily::Draft,
        IndexRow::Feature(_) => IndexRowFamily::Feature,
        IndexRow::Route(_) => IndexRowFamily::Route,
        IndexRow::Edge(_) => IndexRowFamily::Edge,
    }
}

impl<'a> IndexRowRef<'a> {
    /// Returns this row's exact family.
    pub fn family(self) -> (f: IndexRowFamily)
        ensures
            f == ref_family(self),
    {
        match self {
            IndexRowRef::Subject(_) => IndexRowFamily::Subject,
            IndexRowRef::Anchor(_) => IndexRowFamily::Anchor,
            IndexRowRef::SourceUnit(_) => IndexRowFamily::SourceUnit,
            IndexRowRef::Declaration(_) => IndexRowFamily::Declaration,
            IndexRowRef::ProtocolRelation(_) => IndexRowFamily::ProtocolRelation,
            IndexRowRef::Surface(_) => IndexRowFamily::Surface,
            IndexRowRef::Specimen(_) => IndexRowFamily::Specimen,
            IndexRowRef::Draft(_) => IndexRowFamily::Draft,
            IndexRowRef::Feature(_) => IndexRowFamily::Feature,
            IndexRowRef::Route(_) => IndexRowFamily::Route,
            IndexRowRef::Edge(_) => IndexRowFamily::Edge,
        }
    }

    /// Clones the canonical record into its owned row form, of the same
    /// family.
    pub fn to_owned(self) -> (r: IndexRow)
        ensures
            row_family(r) == ref_family(self),
            row_key(r) == row_key(ref_row(self)),
    {
        match self {
            IndexRowRef::Subject(row) => IndexRow::Subject(row.copy()),
            IndexRowRef::Anchor(row) => IndexRow::Anchor(row.copy()),
            IndexRowRef::SourceUnit(row) => IndexRow::SourceUnit(row.copy()),
            IndexRowRef::Declaration(row) => IndexRow::Declaration(row.copy()),
            IndexRowRef::ProtocolRelation(row) => IndexRow::ProtocolRelation(row.copy()),
            IndexRowRef::Surface(row) => IndexRow::Surface(row.copy()),
            IndexRowRef::Specimen(row) => IndexRow::Specimen(row.copy()),
            IndexRowRef::Draft(row) => IndexRow::Draft(row.copy()),
            IndexRowRef::Feature(row) => IndexRow::Feature(row.copy()),
            IndexRowRef::Route(row) => IndexRow::Route(row.copy()),
            IndexRowRef::Edge(row) => IndexRow::Edge(row.copy()),
        }
    }

    /// Returns a complete diagnostic representation of the canonical record:
    /// its owned row.
    pub fn diagnostic_key(self) -> (r: IndexRow)
        ensures
            row_family(r) == ref_family(self),
            row_key(r) == row_key(ref_row(self)),
    {
        self.to_owned()
    }
}

impl IndexRow {
    /// Returns this row's exact family.
    pub fn family(&self) -> (f: IndexRowFamily)
        ensures
            f == row_family(*self),
    {
        match self {
            IndexRow::Subject(_) => IndexRowFamily::Subject,
            IndexRow::Anchor(_) => IndexRowFamily::Anchor,
            IndexRow::SourceUnit(_) => IndexRowFamily::SourceUnit,
            IndexRow::Declaration(_) => IndexRowFamily::Declaration,
            IndexRow::ProtocolRelation(_) => IndexRowFamily::ProtocolRelation,
            IndexRow::Surface(_) => IndexRowFamily::Surface,
            IndexRow::Specimen(_) => IndexRowFamily::Specimen,
            IndexRow::Draft(_) => IndexRowFamily::Draft,
            IndexRow::Feature(_) => IndexRowFamily::Feature,
            IndexRow::Route(_) => IndexRowFamily::Route,
            IndexRow::Edge(_) => IndexRowFamily::Edge,
        }
    }

    /// Borrows the row.
    pub fn as_ref(&self) -> (r: IndexRowRef<'_>)
        ensures
            ref_row(r) == *self,
    {
        match self {
            IndexRow::Subject(x) => IndexRowRef::Subject(x),
            IndexRow::Anchor(x) => IndexRowRef::Anchor(x),
            IndexRow::SourceUnit(x) => IndexRowRef::SourceUnit(x),
            IndexRow::Declaration(x) => IndexRowRef::Declaration(x),
            IndexRow::ProtocolRelation(x) => IndexRowRef::ProtocolRelation(x),
            IndexRow::Surface(x) => IndexRowRef::Surface(x),
            IndexRow::Specimen(x) => IndexRowRef::Specimen(x),
            IndexRow::Draft(x) => IndexRowRef::Draft(x),
            IndexRow::Feature(x) => IndexRowRef::Feature(x),
            IndexRow::Route(x) => IndexRowRef::Route(x),
            IndexRow::Edge(x) => IndexRowRef::Edge(x),
        }
    }

    /// Returns a stable diagnostic key containing the complete canonical
    /// record: the row itself.
    pub fn diagnostic_key(&self) -> (r: &IndexRow)
        ensures
            *r == *self,
    {
        self
    }
}

/// Every row of a document, by family in emission order, each family in
/// source order.
pub open spec fn inventory_spec<'a>(d: &'a IndexDoc) -> Seq<IndexRowRef<'a>> {
    d.subjects@.map_values(|r: SubjectRecord| IndexRowRef::Subject(&r)) + d.anchors@.map_values(
        |r: DiscoveredAnchor| IndexRowRef::Anchor(&r),
    ) + d.source_units@.map_values(|r: SourceUnit| IndexRowRef::SourceUnit(&r))
        + d.declarations@.map_values(|r: DeclarationFact| IndexRowRef::Declaration(&r))
        + d.protocol_relations@.map_values(|r: ProtocolRelation| IndexRowRef::ProtocolRelation(&r))
        + d.surfaces@.map_values(|r: DiscoveredSurface| IndexRowRef::Surface(&r))
        + d.specimens@.map_values(|r: DiscoveredSpecimen| IndexRowRef::Specimen(&r))
        + d.drafts@.map_values(|r: FeatureDraft| IndexRowRef::Draft(&r)) + d.features@.map_values(
        |r: FeatureRecord| IndexRowRef::Feature(&r),
    ) + d.routes@.map_values(|r: RouteRecord| IndexRowRef::Route(&r)) + d.edges@.map_values(
        |r: IndexEdge| IndexRowRef::Edge(&r),
    )
}

impl IndexDoc {
    /// Borrows metadata and every row in canonical family and source order.
    pub fn inventory(&self) -> (r: (IndexMetadataRef<'_>, Vec<IndexRowRef<'_>>))
        ensures
            r.0.schema@ == self.schema@,
            r.0.generated_by@ == self.generated_by@,
            r.0.visibility == self.visibility,
            r.1@ == inventory_spec(self),
    {
        let metadata = IndexMetadataRef {
            schema: self.schema.as_str(),
            generated_by: self.generated_by.as_str(),
            visibility: self.visibility,
        };
        let mut rows: Vec<IndexRowRef<'_>> = Vec::new();
        let mut i: usize = 0;
        while i < self.subjects.len()
            invariant
                i <= self.subjects.len(),
                rows@ == self.subjects@.take(i as int).map_values(
                    |r: SubjectRecord| IndexRowRef::Subject(&r),
                ),
            decreases self.subjects.len() - i,
        {
            rows.push(IndexRowRef::Subject(&self.subjects[i]));
            i += 1;
            assert(rows@ =~= self.subjects@.take(i as int).map_values(
                |r: SubjectRecord| IndexRowRef::Subject(&r),
            ));
        }
        assert(self.subjects@.take(i as int) =~= self.subjects@);
        let ghost p1 = rows@;
        let mut i: usize = 0;
        while i < self.anchors.len()
            invariant
                i <= self.anchors.len(),
                rows@ == p1 + self.anchors@.take(i as int).map_values(
                    |r: DiscoveredAnchor| IndexRowRef::Anchor(&r),
                ),
            decreases self.anchors.len() - i,
        {
            rows.push(IndexRowRef::Anchor(&self.anchors[i]));
            i += 1;
            assert(rows@ =~= p1 + self.anchors@.take(i as int).map_values(
                |r: DiscoveredAnchor| IndexRowRef::Anchor(&r),
            ));
        }
        assert(self.anchors@.take(i as int) =~= self.anchors@);
        let ghost p2 = rows@;
        let mut i: usize = 0;
        while i < self.source_units.len()
            invariant
                i <= self.source_units.len(),
                rows@ == p2 + self.source_units@.take(i as int).map_values(
                    |r: SourceUnit| IndexRowRef::SourceUnit(&r),
                ),
            decreases self.source_units.len() - i,
        {
            rows.push(IndexRowRef::SourceUnit(&self.source_units[i]));
            i += 1;
            assert(rows@ =~= p2 + self.source_units@.take(i as int).map_values(
                |r: SourceUnit| IndexRowRef::SourceUnit(&r),
            ));
        }
        assert(self.source_units@.take(i as int) =~= self.source_units@);
        let ghost p3 = rows@;
        let mut i: usize = 0;
        while i < self.declarations.len()
            invariant
                i <= self.declarations.len(),
                rows@ == p3 + self.declarations@.take(i as int).map_values(
                    |r: DeclarationFact| IndexRowRef::Declaration(&r),
                ),
            decreases self.declarations.len() - i,
        {
            rows.push(IndexRowRef::Declaration(&self.declarations[i]));
            i += 1;
            assert(rows@ =~= p3 + self.declarations@.take(i as int).map_values(
                |r: DeclarationFact| IndexRowRef::Declaration(&r),
            ));
        }
        assert(self.declarations@.take(i as int) =~= self.declarations@);
        let ghost p4 = rows@;
        let mut i: usize = 0;
        while i < self.protocol_relations.len()
            invariant
                i <= self.protocol_relations.len(),
                rows@ == p4 + self.protocol_relations@.take(i as int).map_values(
                    |r: ProtocolRelation| IndexRowRef::ProtocolRelation(&r),
                ),
            decreases self.protocol_relations.len() - i,
        {
            rows.push(IndexRowRef::ProtocolRelation(&self.protocol_relations[i]));
            i += 1;
            assert(rows@ =~= p4 + self.protocol_relations@.take(i as int).map_values(
                |r: ProtocolRelation| IndexRowRef::ProtocolRelation(&r),
            ));
        }
        assert(self.protocol_relations@.take(i as int) =~= self.protocol_relations@);
        let ghost p5 = rows@;
        let mut i: usize = 0;
        while i < self.surfaces.len()
            invariant
                i <= self.surfaces.len(),
                rows@ == p5 + self.surfaces@.take(i as int).map_values(
                    |r: DiscoveredSurface| IndexRowRef::Surface(&r),
                ),
            decreases self.surfaces.len() - i,
        {
            rows.push(IndexRowRef::Surface(&self.surfaces[i]));
            i += 1;
            assert(rows@ =~= p5 + self.surfaces@.take(i as int).map_values(
                |r: DiscoveredSurface| IndexRowRef::Surface(&r),
            ));
        }
        assert(self.surfaces@.take(i as int) =~= self.surfaces@);
        let ghost p6 = rows@;
        let mut i: usize = 0;
        while i < self.specimens.len()
            invariant
                i <= self.specimens.len(),
                rows@ == p6 + self.specimens@.take(i as int).map_values(
                    |r: DiscoveredSpecimen| IndexRowRef::Specimen(&r),
                ),
            decreases self.specimens.len() - i,
        {
            rows.push(IndexRowRef::Specimen(&self.specimens[i]));
            i += 1;
            assert(rows@ =~= p6 + self.specimens@.take(i as int).map_values(
                |r: DiscoveredSpecimen| IndexRowRef::Specimen(&r),
            ));
        }
        assert(self.specimens@.take(i as int) =~= self.specimens@);
        let ghost p7 = rows@;
        let mut i: usize = 0;
        while i < self.drafts.len()
            invariant
                i <= self.drafts.len(),
                rows@ == p7 + self.drafts@.take(i as int).map_values(
                    |r: FeatureDraft| IndexRowRef::Draft(&r),
                ),
            decreases self.drafts.len() - i,
        {
            rows.push(IndexRowRef::Draft(&self.drafts[i]));
            i += 1;
            assert(rows@ =~= p7 + self.drafts@.take(i as int).map_values(
                |r: FeatureDraft| IndexRowRef::Draft(&r),
            ));
        }
        assert(self.drafts@.take(i as int) =~= self.drafts@);
        let ghost p8 = rows@;
        let mut i: usize = 0;
        while i < self.features.len()
            invariant
                i <= self.features.len(),
                rows@ == p8 + self.features@.take(i as int).map_values(
                    |r: FeatureRecord| IndexRowRef::Feature(&r),
                ),
            decreases self.features.len() - i,
        {
            rows.push(IndexRowRef::Feature(&self.features[i]));
            i += 1;
            assert(rows@ =~= p8 + self.features@.take(i as int).map_values(
                |r: FeatureRecord| IndexRowRef::Feature(&r),
            ));
        }
        assert(self.features@.take(i as int) =~= self.features@);
        let ghost p9 = rows@;
        let mut i: usize = 0;
        while i < self.routes.len()
            invariant
                i <= self.routes.len(),
                rows@ == p9 + self.routes@.take(i as int).map_values(
                    |r: RouteRecord| IndexRowRef::Route(&r),
                ),
            decreases self.routes.len() - i,
        {
            rows.push(IndexRowRef::Route(&self.routes[i]));
            i += 1;
            assert(rows@ =~= p9 + self.routes@.take(i as int).map_values(
                |r: RouteRecord| IndexRowRef::Route(&r),
            ));
        }
        assert(self.routes@.take(i as int) =~= self.routes@);
        let ghost p10 = rows@;
        let mut i: usize = 0;
        while i < self.edges.len()
            invariant
                i <= self.edges.len(),
                rows@ == p10 + self.edges@.take(i as int).map_values(
                    |r: IndexEdge| IndexRowRef::Edge(&r),
                ),
            decreases self.edges.len() - i,
        {
            rows.push(IndexRowRef::Edge(&self.edges[i]));
            i += 1;
            assert(rows@ =~= p10 + self.edges@.take(i as int).map_values(
                |r: IndexEdge| IndexRowRef::Edge(&r),
            ));
        }
        assert(self.edges@.take(i as int) =~= self.edges@);
        (metadata, rows)
    }
}


/// Canonical keys of a list of owned rows.
pub open spec fn row_keys(rows: Seq<IndexRow>) -> Seq<Seq<(int, Seq<char>)>> {
    rows.map_values(|r: IndexRow| row_key(r))
}

/// `out` holds, position by position, the rows of `rows` taken in the order
/// `order` (compared by their canonical keys, which record every field).
pub open spec fn arranged_by(out: Seq<IndexRow>, rows: Seq<IndexRowRef>, order: Seq<usize>) -> bool {
    &&& is_permutation(order, rows.len() as int)
    &&& out.len() == rows.len()
    &&& forall|p: int| 0 <= p < out.len() ==> row_key(#[trigger] out[p]) == row_key(ref_row(rows[order[p] as int]))
}

impl IndexDoc {
    /// Every row of the document, owned and in canonical row order: a
    /// rearrangement of the inventory whose keys never decrease.
    pub fn normalized_inventory(&self) -> (r: Vec<IndexRow>)
        ensures
            exists|order: Seq<usize>| arranged_by(r@, inventory_spec(self), order),
            nondecreasing(row_keys(r@)),
    {
        let (_, refs) = self.inventory();
        let mut owned: Vec<IndexRow> = Vec::new();
        let mut keys: Vec<Vec<KeyAtom>> = Vec::new();
        let mut i: usize = 0;
        while i < refs.len()
            invariant
                i <= refs.len(),
                owned@.len() == i,
                keys@.len() == i,
                forall|p: int| 0 <= p < i ==> row_key(#[trigger] owned@[p]) == row_key(ref_row(refs@[p])),
                forall|p: int| 0 <= p < i ==> atoms(#[trigger] keys@[p]@) == row_key(owned@[p]),
            decreases refs.len() - i,
        {
            let row = refs[i].to_owned();
            let k = row_key_of(&row);
            keys.push(k);
            owned.push(row);
            i += 1;
        }
        let order = sort_by_keys(&keys);
        let ghost kv = key_values(keys@);
        assert forall|p: int| 0 <= p < owned@.len() implies kv[p] == row_key(owned@[p]) by {
            assert(atoms(keys@[p]@) == row_key(owned@[p]));
        }
        let mut out: Vec<IndexRow> = Vec::new();
        let mut j: usize = 0;
        while j < order.len()
            invariant
                j <= order@.len(),
                order@.len() == owned@.len(),
                is_permutation(order@, owned@.len() as int),
                out@.len() == j,
                forall|p: int| 0 <= p < owned@.len() ==> kv[p] == row_key(#[trigger] owned@[p]),
                forall|p: int| 0 <= p < j ==> row_key(#[trigger] out@[p]) == row_key(owned@[order@[p] as int]),
            decreases order@.len() - j,
        {
            let at = order[j];
            let row = owned[at].copy();
            out.push(row);
            j += 1;
        }
        proof {
            assert(row_keys(out@) =~= permuted(kv, order@)) by {
                assert forall|p: int| 0 <= p < out@.len() implies row_keys(out@)[p] == permuted(kv, order@)[p] by {
                    assert(order@[p] < owned@.len());
                    assert(kv[order@[p] as int] == row_key(owned@[order@[p] as int]));
                }
            }
            assert(arranged_by(out@, inventory_spec(self), order@));
        }
        out
    }
}

} // verus!
