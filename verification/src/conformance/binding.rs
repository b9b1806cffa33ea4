//! Immutable ownership declarations and separately scoped qualification.

use vstd::prelude::*;

use crate::conformance::datum::{CanonicalDatum, DatumV, Sym, csym, datum_v};
use crate::conformance::graph::ConformanceError;
use crate::conformance::identity::{
    ActivationMapId, CheckScopeId, CheckedSubjectId, CheckerReceiptId, CommandId,
    DependencyUseSetId, OwnerBindingId, SemanticId, SurfaceSetId, byte_len, contains_control,
    field, fields_v, has_control, id_v, names_distinct, role_digest, strings, strings_v, text_datum,
};
use crate::conformance::order::{
    adjacent_repeat, compose, first_adjacent_repeat, is_permutation, key_values, keys_distinct,
    lemma_adjacent_distinct, lemma_adjacent_repeat_iff_duplicate, lemma_compose_permutation,
    lemma_first_repeat_least, lemma_sorting_order_unique, nondecreasing, permuted, sort_by_keys,
};
use crate::index::identity::{KeyAtom, atoms, key_lt, lemma_key_lt_total, txt};
use crate::text::{concat3, seq_lt, lemma_seq_lt_irreflexive, lemma_seq_lt_total, lemma_seq_lt_trans, str_eq, str_lt, text};

verus! {

/// Stable declaration key for a public or planned surface.
#[derive(Clone, Debug, PartialEq, Eq, PartialOrd, Ord, Hash)]
pub struct SurfaceKey {
    text: String,
}

impl View for SurfaceKey {
    type V = Seq<char>;

    closed spec fn view(&self) -> Seq<char> {
        self.text@
    }
}

impl SurfaceKey {
    /// Creates a key: non-empty, at most 4 KiB of UTF-8, no control
    /// characters.
    pub fn new(value: &str) -> (r: Result<SurfaceKey, ConformanceError>)
        ensures
            (value.len() == 0 || value.len() > 4_096 || has_control(value@)) ==> r == Err::<
                SurfaceKey,
                ConformanceError,
            >(ConformanceError::BoundExceeded("surface key")),
            !(value.len() == 0 || value.len() > 4_096 || has_control(value@)) ==> (r matches Ok(k)
                && k@ == value@),
    {
        if value.len() == 0 || value.len() > 4_096 || contains_control(value) {
            return Err(ConformanceError::BoundExceeded("surface key"));
        }
        Ok(SurfaceKey { text: text(value) })
    }

    /// Returns the declaration spelling.
    pub fn as_str(&self) -> (s: &str)
        ensures
            s@ == self@,
    {
        self.text.as_str()
    }

    /// An exact copy.
    pub fn copy(&self) -> (r: SurfaceKey)
        ensures
            r@ == self@,
    {
        SurfaceKey { text: self.text.clone() }
    }
}

/// One exact repository command declared by an owner.
pub struct OwnerCommand {
    /// Semantic command identity.
    pub id: CommandId,
    /// Repository-relative working directory policy.
    pub cwd: String,
    /// Exact argument vector; no shell reinterpretation is implied.
    pub argv: Vec<String>,
    /// Environment policy identity.
    pub environment: String,
}

/// Whether activation extends an owner, extracts a reusable owner, or adds
/// a product.
#[derive(Clone, Copy, Debug, PartialEq, Eq, Structural)]
pub enum OwnerDisposition {
    /// Add behavior to the existing singular owner.
    ExtendExisting,
    /// Introduce a lower reusable owner with independently named consumers.
    ExtractReusable,
    /// Add a separately loadable leaf product.
    AddLoadableProduct,
}

/// Value of a disposition's datum.
pub open spec fn disposition_v(d: OwnerDisposition) -> DatumV {
    DatumV::Symbol(
        csym(
            match d {
                OwnerDisposition::ExtendExisting => "extend-existing"@,
                OwnerDisposition::ExtractReusable => "extract-reusable"@,
                OwnerDisposition::AddLoadableProduct => "add-loadable-product"@,
            },
        ),
    )
}

impl OwnerDisposition {
    fn datum(self) -> (r: CanonicalDatum)
        ensures
            datum_v(r) == disposition_v(self),
    {
        let name = match self {
            OwnerDisposition::ExtendExisting => "extend-existing",
            OwnerDisposition::ExtractReusable => "extract-reusable",
            OwnerDisposition::AddLoadableProduct => "add-loadable-product",
        };
        CanonicalDatum::Symbol(Sym::conformance(name))
    }
}

/// Existing or planned status of a bound surface.
pub enum SurfaceStatus {
    /// Exact current source and package evidence exists.
    Existing,
    /// The surface is a declaration owned by its producing phase.
    Planned {
        /// Sole phase allowed to produce the surface.
        producing_phase: String,
    },
}

/// One surface declaration in an immutable owner binding.
pub struct BoundSurface {
    /// Stable declaration key.
    pub key: SurfaceKey,
    /// Public Rust symbol, route, specimen, or command name.
    pub public_name: String,
    /// Current activation status.
    pub status: SurfaceStatus,
}

/// Value of a bound surface's datum.
pub open spec fn surface_v(s: BoundSurface) -> DatumV {
    DatumV::Node(
        csym("bound-surface-v1"@),
        seq![
            (csym("key"@), DatumV::Text(s.key@)),
            (csym("public-name"@), DatumV::Text(s.public_name@)),
            (csym("status"@), DatumV::Text(
                match s.status {
                    SurfaceStatus::Existing => "existing"@,
                    SurfaceStatus::Planned { .. } => "planned"@,
                },
            )),
            (csym("producing-phase"@), match s.status {
                SurfaceStatus::Existing => DatumV::Nil,
                SurfaceStatus::Planned { producing_phase } => DatumV::Text(producing_phase@),
            }),
        ],
    )
}

/// Builds a `conformance/<tag>` node.
pub fn node(tag: &str, fields: Vec<(Sym, CanonicalDatum)>) -> (r: CanonicalDatum)
    ensures
        datum_v(r) == DatumV::Node(csym(tag@), fields_v(fields@)),
{
    let ghost f = fields@;
    let r = CanonicalDatum::Node { tag: Sym::conformance(tag), fields };
    proof {
        if let DatumV::Node(_, s) = datum_v(r) {
            assert(s =~= fields_v(f));
        }
    }
    r
}

impl BoundSurface {
    fn datum(&self) -> (r: CanonicalDatum)
        ensures
            datum_v(r) == surface_v(*self),
    {
        let (status, phase) = match &self.status {
            SurfaceStatus::Existing => {
                let st = text_datum("existing");
                assert(datum_v(CanonicalDatum::Nil) == DatumV::Nil);
                (st, CanonicalDatum::Nil)
            },
            SurfaceStatus::Planned { producing_phase } => {
                (text_datum("planned"), text_datum(producing_phase.as_str()))
            },
        };
        let ghost sv = datum_v(status);
        let ghost pv = datum_v(phase);
        assert(sv == DatumV::Text(
            match self.status {
                SurfaceStatus::Existing => "existing"@,
                SurfaceStatus::Planned { .. } => "planned"@,
            },
        ));
        assert(pv == match self.status {
            SurfaceStatus::Existing => DatumV::Nil,
            SurfaceStatus::Planned { producing_phase } => DatumV::Text(producing_phase@),
        });
        let mut fields: Vec<(Sym, CanonicalDatum)> = Vec::new();
        fields.push(field("key", text_datum(self.key.as_str())));
        fields.push(field("public-name", text_datum(self.public_name.as_str())));
        fields.push(field("status", status));
        fields.push(field("producing-phase", phase));
        let ghost expected = seq![
            (csym("key"@), DatumV::Text(self.key@)),
            (csym("public-name"@), DatumV::Text(self.public_name@)),
            (csym("status"@), sv),
            (csym("producing-phase"@), pv),
        ];
        assert(fields_v(fields@) =~= expected);
        proof {
            if let DatumV::Node(_, s2) = surface_v(*self) {
                assert(expected =~= s2);
            }
        }
        node("bound-surface-v1", fields)
    }
}

/// Texts in a list are pairwise different.
pub open spec fn texts_distinct(s: Seq<Seq<char>>) -> bool {
    forall|a: int, b: int| 0 <= a < b < s.len() ==> #[trigger] s[a] != #[trigger] s[b]
}

/// Position `j` holds the first text that repeats an earlier one.
pub open spec fn first_text_repeat(s: Seq<Seq<char>>, j: int) -> bool {
    &&& 0 <= j < s.len()
    &&& texts_distinct(s.take(j))
    &&& exists|i: int| 0 <= i < j && #[trigger] s[i] == s[j]
}

/// Values of a list of borrowed texts.
pub open spec fn sv(v: Seq<&str>) -> Seq<Seq<char>> {
    v.map_values(|s: &str| s@)
}

/// Refuses the first value that repeats an earlier one, naming it as
/// `<kind>:<value>`.
pub fn unique(values: &Vec<&str>, kind: &'static str) -> (r: Result<(), ConformanceError>)
    ensures
        r is Ok <==> texts_distinct(sv(values@)),
        r is Err ==> exists|j: int|
            #[trigger] first_text_repeat(sv(values@), j) && (r matches Err(
                ConformanceError::DuplicateField(m),
            ) && m@ == kind@ + ":"@ + values@[j]@),
{
    let ghost s = sv(values@);
    let mut j: usize = 0;
    while j < values.len()
        invariant
            j <= values@.len(),
            s == sv(values@),
            texts_distinct(s.take(j as int)),
        decreases values@.len() - j,
    {
        let mut i: usize = 0;
        while i < j
            invariant
                i <= j < values@.len(),
                s == sv(values@),
                texts_distinct(s.take(j as int)),
                forall|a: int| 0 <= a < i ==> s[a] != s[j as int],
            decreases j - i,
        {
            if str_eq(values[i], values[j]) {
                let m = concat3(kind, ":", values[j]);
                proof {
                    assert(s[i as int] == s[j as int]);
                    assert(first_text_repeat(s, j as int));
                }
                return Err(ConformanceError::DuplicateField(m));
            }
            i += 1;
        }
        proof {
            assert forall|a: int, b: int| 0 <= a < b < s.take(j + 1).len() implies #[trigger] s.take(j + 1)[a] != #[trigger] s.take(j + 1)[b] by {
                if b < j {
                    assert(s.take(j as int)[a] != s.take(j as int)[b]);
                }
            }
        }
        j += 1;
    }
    assert(s.take(s.len() as int) =~= s);
    Ok(())
}

/// Complete immutable design declaration for one responsibility.
pub struct OwnerBinding {
    id: OwnerBindingId,
    /// Stable law name.
    pub law: String,
    /// Structural disposition.
    pub disposition: OwnerDisposition,
    /// Owning public package names.
    pub owners: Vec<String>,
    /// Declared public surfaces.
    pub surfaces: Vec<BoundSurface>,
    /// Independent consumers used to justify extraction or integration.
    pub consumers: Vec<String>,
    /// Checked downward dependency statement.
    pub dependency_direction: String,
    /// Index route declaration.
    pub route: SurfaceKey,
    /// Conformance specimen declaration.
    pub specimen: SurfaceKey,
    /// Exact owner validation command.
    pub validation: OwnerCommand,
    /// Exact owner docs command.
    pub docs: OwnerCommand,
}

/// Values of a list of texts.
pub open spec fn tv(v: Seq<String>) -> Seq<Seq<char>> {
    v.map_values(|s: String| s@)
}

/// Surface keys of a list of bound surfaces.
pub open spec fn surface_keys(v: Seq<BoundSurface>) -> Seq<Seq<char>> {
    v.map_values(|s: BoundSurface| s.key@)
}

/// The fields identifying an owner binding.
pub open spec fn owner_fields(
    law: Seq<char>,
    disposition: OwnerDisposition,
    owners: Seq<Seq<char>>,
    surfaces: Seq<BoundSurface>,
    consumers: Seq<Seq<char>>,
    dependency_direction: Seq<char>,
    route: Seq<char>,
    specimen: Seq<char>,
    validation: Seq<u8>,
    docs: Seq<u8>,
) -> Seq<((Option<Seq<char>>, Seq<char>), DatumV)> {
    seq![
        (csym("law"@), DatumV::Text(law)),
        (csym("disposition"@), disposition_v(disposition)),
        (csym("owners"@), strings_v(owners)),
        (csym("surfaces"@), DatumV::Vector(surfaces.map_values(|s: BoundSurface| surface_v(s)))),
        (csym("consumers"@), strings_v(consumers)),
        (csym("dependency-direction"@), DatumV::Text(dependency_direction)),
        (csym("route"@), DatumV::Text(route)),
        (csym("specimen"@), DatumV::Text(specimen)),
        (csym("validation"@), id_v(validation)),
        (csym("docs"@), id_v(docs)),
    ]
}

fn str_refs(v: &Vec<String>) -> (r: Vec<&str>)
    ensures
        sv(r@) == tv(v@),
{
    let mut r: Vec<&str> = Vec::new();
    let mut i: usize = 0;
    while i < v.len()
        invariant
            i <= v@.len(),
            sv(r@) == tv(v@.take(i as int)),
        decreases v@.len() - i,
    {
        let ghost before = r@;
        r.push(v[i].as_str());
        assert(v@.take(i + 1) =~= v@.take(i as int).push(v@[i as int]));
        assert(sv(r@) =~= sv(before).push(v@[i as int]@));
        assert(tv(v@.take(i + 1)) =~= tv(v@.take(i as int)).push(v@[i as int]@));
        i += 1;
    }
    assert(v@.take(v@.len() as int) =~= v@);
    r
}

fn key_refs(v: &Vec<BoundSurface>) -> (r: Vec<&str>)
    ensures
        sv(r@) == surface_keys(v@),
{
    let mut r: Vec<&str> = Vec::new();
    let mut i: usize = 0;
    while i < v.len()
        invariant
            i <= v@.len(),
            sv(r@) == surface_keys(v@.take(i as int)),
        decreases v@.len() - i,
    {
        let ghost before = r@;
        r.push(v[i].key.as_str());
        assert(v@.take(i + 1) =~= v@.take(i as int).push(v@[i as int]));
        assert(sv(r@) =~= sv(before).push(v@[i as int].key@));
        assert(surface_keys(v@.take(i + 1)) =~= surface_keys(v@.take(i as int)).push(v@[i as int].key@));
        i += 1;
    }
    assert(v@.take(v@.len() as int) =~= v@);
    r
}

fn surfaces_datum(v: &Vec<BoundSurface>) -> (r: CanonicalDatum)
    ensures
        datum_v(r) == DatumV::Vector(v@.map_values(|s: BoundSurface| surface_v(s))),
{
    let mut items: Vec<CanonicalDatum> = Vec::new();
    let mut i: usize = 0;
    while i < v.len()
        invariant
            i <= v@.len(),
            items@.len() == i,
            forall|j: int| 0 <= j < i ==> datum_v(#[trigger] items@[j]) == surface_v(v@[j]),
        decreases v@.len() - i,
    {
        items.push(v[i].datum());
        i += 1;
    }
    let r = CanonicalDatum::Vector(items);
    proof {
        if let DatumV::Vector(s) = datum_v(r) {
            assert(s =~= v@.map_values(|s: BoundSurface| surface_v(s)));
        }
    }
    r
}

proof fn lemma_owner_names_distinct()
    ensures
        names_distinct(seq![
        (csym("law"@), DatumV::Nil),
        (csym("disposition"@), DatumV::Nil),
        (csym("owners"@), DatumV::Nil),
        (csym("surfaces"@), DatumV::Nil),
        (csym("consumers"@), DatumV::Nil),
        (csym("dependency-direction"@), DatumV::Nil),
        (csym("route"@), DatumV::Nil),
        (csym("specimen"@), DatumV::Nil),
        (csym("validation"@), DatumV::Nil),
        (csym("docs"@), DatumV::Nil),
        ]),
{
    reveal_strlit("law");
    reveal_strlit("disposition");
    reveal_strlit("owners");
    reveal_strlit("surfaces");
    reveal_strlit("consumers");
    reveal_strlit("dependency-direction");
    reveal_strlit("route");
    reveal_strlit("specimen");
    reveal_strlit("validation");
    reveal_strlit("docs");
    let g = seq![
        (csym("law"@), DatumV::Nil),
        (csym("disposition"@), DatumV::Nil),
        (csym("owners"@), DatumV::Nil),
        (csym("surfaces"@), DatumV::Nil),
        (csym("consumers"@), DatumV::Nil),
        (csym("dependency-direction"@), DatumV::Nil),
        (csym("route"@), DatumV::Nil),
        (csym("specimen"@), DatumV::Nil),
        (csym("validation"@), DatumV::Nil),
        (csym("docs"@), DatumV::Nil),
    ];
    assert forall|x: int, y: int| 0 <= x < y < g.len() implies #[trigger] g[x].0 != #[trigger] g[y].0 by {
        if x == 0 && y == 1 {
            assert("law"@.len() != "disposition"@.len());
        }
        if x == 0 && y == 2 {
            assert("law"@.len() != "owners"@.len());
        }
        if x == 0 && y == 3 {
            assert("law"@.len() != "surfaces"@.len());
        }
        if x == 0 && y == 4 {
            assert("law"@.len() != "consumers"@.len());
        }
        if x == 0 && y == 5 {
            assert("law"@.len() != "dependency-direction"@.len());
        }
        if x == 0 && y == 6 {
            assert("law"@.len() != "route"@.len());
        }
        if x == 0 && y == 7 {
            assert("law"@.len() != "specimen"@.len());
        }
        if x == 0 && y == 8 {
            assert("law"@.len() != "validation"@.len());
        }
        if x == 0 && y == 9 {
            assert("law"@.len() != "docs"@.len());
        }
        if x == 1 && y == 2 {
            assert("disposition"@.len() != "owners"@.len());
        }
        if x == 1 && y == 3 {
            assert("disposition"@.len() != "surfaces"@.len());
        }
        if x == 1 && y == 4 {
            assert("disposition"@.len() != "consumers"@.len());
        }
        if x == 1 && y == 5 {
            assert("disposition"@.len() != "dependency-direction"@.len());
        }
        if x == 1 && y == 6 {
            assert("disposition"@.len() != "route"@.len());
        }
        if x == 1 && y == 7 {
            assert("disposition"@.len() != "specimen"@.len());
        }
        if x == 1 && y == 8 {
            assert("disposition"@.len() != "validation"@.len());
        }
        if x == 1 && y == 9 {
            assert("disposition"@.len() != "docs"@.len());
        }
        if x == 2 && y == 3 {
            assert("owners"@.len() != "surfaces"@.len());
        }
        if x == 2 && y == 4 {
            assert("owners"@.len() != "consumers"@.len());
        }
        if x == 2 && y == 5 {
            assert("owners"@.len() != "dependency-direction"@.len());
        }
        if x == 2 && y == 6 {
            assert("owners"@.len() != "route"@.len());
        }
        if x == 2 && y == 7 {
            assert("owners"@.len() != "specimen"@.len());
        }
        if x == 2 && y == 8 {
            assert("owners"@.len() != "validation"@.len());
        }
        if x == 2 && y == 9 {
            assert("owners"@.len() != "docs"@.len());
        }
        if x == 3 && y == 4 {
            assert("surfaces"@.len() != "consumers"@.len());
        }
        if x == 3 && y == 5 {
            assert("surfaces"@.len() != "dependency-direction"@.len());
        }
        if x == 3 && y == 6 {
            assert("surfaces"@.len() != "route"@.len());
        }
        if x == 3 && y == 7 {
            assert("surfaces"@[1] != "specimen"@[1]);
        }
        if x == 3 && y == 8 {
            assert("surfaces"@.len() != "validation"@.len());
        }
        if x == 3 && y == 9 {
            assert("surfaces"@.len() != "docs"@.len());
        }
        if x == 4 && y == 5 {
            assert("consumers"@.len() != "dependency-direction"@.len());
        }
        if x == 4 && y == 6 {
            assert("consumers"@.len() != "route"@.len());
        }
        if x == 4 && y == 7 {
            assert("consumers"@.len() != "specimen"@.len());
        }
        if x == 4 && y == 8 {
            assert("consumers"@.len() != "validation"@.len());
        }
        if x == 4 && y == 9 {
            assert("consumers"@.len() != "docs"@.len());
        }
        if x == 5 && y == 6 {
            assert("dependency-direction"@.len() != "route"@.len());
        }
        if x == 5 && y == 7 {
            assert("dependency-direction"@.len() != "specimen"@.len());
        }
        if x == 5 && y == 8 {
            assert("dependency-direction"@.len() != "validation"@.len());
        }
        if x == 5 && y == 9 {
            assert("dependency-direction"@.len() != "docs"@.len());
        }
        if x == 6 && y == 7 {
            assert("route"@.len() != "specimen"@.len());
        }
        if x == 6 && y == 8 {
            assert("route"@.len() != "validation"@.len());
        }
        if x == 6 && y == 9 {
            assert("route"@.len() != "docs"@.len());
        }
        if x == 7 && y == 8 {
            assert("specimen"@.len() != "validation"@.len());
        }
        if x == 7 && y == 9 {
            assert("specimen"@.len() != "docs"@.len());
        }
        if x == 8 && y == 9 {
            assert("validation"@.len() != "docs"@.len());
        }
    }
}

impl OwnerBinding {
    /// The binding's identity.
    pub closed spec fn spec_id(&self) -> Seq<u8> {
        self.id@
    }

    /// The declared surfaces.
    pub closed spec fn spec_surfaces(&self) -> Seq<BoundSurface> {
        self.surfaces@
    }

    /// The law name.
    pub closed spec fn spec_law(&self) -> Seq<char> {
        self.law@
    }

    /// The structural disposition.
    pub closed spec fn spec_disposition(&self) -> OwnerDisposition {
        self.disposition
    }

    /// The owning packages.
    pub closed spec fn spec_owners(&self) -> Seq<String> {
        self.owners@
    }

    /// The independent consumers.
    pub closed spec fn spec_consumers(&self) -> Seq<String> {
        self.consumers@
    }

    /// The dependency statement.
    pub closed spec fn spec_direction(&self) -> Seq<char> {
        self.dependency_direction@
    }

    /// The route declaration.
    pub closed spec fn spec_route(&self) -> SurfaceKey {
        self.route
    }

    /// The specimen declaration.
    pub closed spec fn spec_specimen(&self) -> SurfaceKey {
        self.specimen
    }

    /// The validation command.
    pub closed spec fn spec_validation(&self) -> OwnerCommand {
        self.validation
    }

    /// The docs command.
    pub closed spec fn spec_docs(&self) -> OwnerCommand {
        self.docs
    }

    /// Validates and identifies an immutable binding. Refuses an empty law,
    /// owner list, surface list or dependency statement; a repeated owner,
    /// surface key or consumer (in that order); and an extraction with
    /// fewer than two consumers.
    pub fn new(
        law: String,
        disposition: OwnerDisposition,
        owners: Vec<String>,
        surfaces: Vec<BoundSurface>,
        consumers: Vec<String>,
        dependency_direction: String,
        route: SurfaceKey,
        specimen: SurfaceKey,
        validation: OwnerCommand,
        docs: OwnerCommand,
    ) -> (r: Result<OwnerBinding, ConformanceError>)
        ensures
            (law@.len() == 0 || owners@.len() == 0 || surfaces@.len() == 0
                || dependency_direction@.len() == 0) ==> r == Err::<OwnerBinding, ConformanceError>(
                ConformanceError::UnresolvedBinding,
            ),
            !(law@.len() == 0 || owners@.len() == 0 || surfaces@.len() == 0
                || dependency_direction@.len() == 0) ==> {
                if !texts_distinct(tv(owners@)) {
                    exists|j: int|
                        #[trigger] first_text_repeat(tv(owners@), j) && (r matches Err(
                            ConformanceError::DuplicateField(m),
                        ) && m@ == "owner"@ + ":"@ + tv(owners@)[j])
                } else if !texts_distinct(surface_keys(surfaces@)) {
                    exists|j: int|
                        #[trigger] first_text_repeat(surface_keys(surfaces@), j) && (r matches Err(
                            ConformanceError::DuplicateField(m),
                        ) && m@ == "surface"@ + ":"@ + surface_keys(surfaces@)[j])
                } else if !texts_distinct(tv(consumers@)) {
                    exists|j: int|
                        #[trigger] first_text_repeat(tv(consumers@), j) && (r matches Err(
                            ConformanceError::DuplicateField(m),
                        ) && m@ == "consumer"@ + ":"@ + tv(consumers@)[j])
                } else if disposition == OwnerDisposition::ExtractReusable && consumers@.len() < 2 {
                    r == Err::<OwnerBinding, ConformanceError>(ConformanceError::UnresolvedBinding)
                } else {
                    let f = owner_fields(
                        law@,
                        disposition,
                        tv(owners@),
                        surfaces@,
                        tv(consumers@),
                        dependency_direction@,
                        route@,
                        specimen@,
                        validation.id@,
                        docs.id@,
                    );
                    match r {
                        Ok(b) => role_digest("owner-binding-v1"@, f) == Some(b.spec_id()) && b.spec_law() == law@
                            && b.spec_disposition() == disposition && b.spec_owners() == owners@
                            && b.spec_surfaces() == surfaces@ && b.spec_consumers() == consumers@
                            && b.spec_direction() == dependency_direction@ && b.spec_route() == route
                            && b.spec_specimen() == specimen && b.spec_validation() == validation
                            && b.spec_docs() == docs,
                        Err(e) => e == ConformanceError::NoncanonicalDatum && role_digest(
                            "owner-binding-v1"@,
                            f,
                        ) is None,
                    }
                }
            },
    {
        if law.as_str().is_empty() || owners.len() == 0 || surfaces.len() == 0
            || dependency_direction.as_str().is_empty() {
            return Err(ConformanceError::UnresolvedBinding);
        }
        match unique(&str_refs(&owners), "owner") {
            Ok(()) => {},
            Err(e) => {
                return Err(e);
            },
        }
        match unique(&key_refs(&surfaces), "surface") {
            Ok(()) => {},
            Err(e) => {
                return Err(e);
            },
        }
        match unique(&str_refs(&consumers), "consumer") {
            Ok(()) => {},
            Err(e) => {
                return Err(e);
            },
        }
        if disposition == OwnerDisposition::ExtractReusable && consumers.len() < 2 {
            return Err(ConformanceError::UnresolvedBinding);
        }
        let mut fields: Vec<(Sym, CanonicalDatum)> = Vec::new();
        fields.push(field("law", text_datum(law.as_str())));
        fields.push(field("disposition", disposition.datum()));
        fields.push(field("owners", strings(&owners)));
        fields.push(field("surfaces", surfaces_datum(&surfaces)));
        fields.push(field("consumers", strings(&consumers)));
        fields.push(field("dependency-direction", text_datum(dependency_direction.as_str())));
        fields.push(field("route", text_datum(route.as_str())));
        fields.push(field("specimen", text_datum(specimen.as_str())));
        fields.push(field("validation", validation.id.to_datum()));
        fields.push(field("docs", docs.id.to_datum()));
        let ghost f = owner_fields(
            law@,
            disposition,
            tv(owners@),
            surfaces@,
            tv(consumers@),
            dependency_direction@,
            route@,
            specimen@,
            validation.id@,
            docs.id@,
        );
        proof {
            assert(fields_v(fields@) =~= f);
            lemma_owner_names_distinct();
            assert(names_distinct(f)) by {
                assert forall|a: int, b: int| 0 <= a < b < f.len() implies #[trigger] f[a].0 != #[trigger] f[b].0 by {
                    let g = seq![
                        (csym("law"@), DatumV::Nil),
                        (csym("disposition"@), DatumV::Nil),
                        (csym("owners"@), DatumV::Nil),
                        (csym("surfaces"@), DatumV::Nil),
                        (csym("consumers"@), DatumV::Nil),
                        (csym("dependency-direction"@), DatumV::Nil),
                        (csym("route"@), DatumV::Nil),
                        (csym("specimen"@), DatumV::Nil),
                        (csym("validation"@), DatumV::Nil),
                        (csym("docs"@), DatumV::Nil),
                    ];
                    assert(g[a].0 == f[a].0 && g[b].0 == f[b].0);
                }
            }
        }
        let id = match SemanticId::from_fields(fields) {
            Ok(id) => id,
            Err(e) => {
                return Err(e);
            },
        };
        Ok(
            OwnerBinding {
                id,
                law,
                disposition,
                owners,
                surfaces,
                consumers,
                dependency_direction,
                route,
                specimen,
                validation,
                docs,
            },
        )
    }

    /// Returns the stable binding identity.
    pub fn id(&self) -> (r: &OwnerBindingId)
        ensures
            r@ == self.spec_id(),
    {
        &self.id
    }

    /// Looks up the first declared surface with a key, without treating a
    /// planned surface as implemented.
    pub fn surface(&self, key: &SurfaceKey) -> (r: Option<&BoundSurface>)
        ensures
            r matches Some(s) ==> exists|i: int|
                0 <= i < self.spec_surfaces().len() && *s == self.spec_surfaces()[i]
                    && self.spec_surfaces()[i].key@ == key@ && forall|j: int|
                    0 <= j < i ==> (#[trigger] self.spec_surfaces()[j]).key@ != key@,
            r is None <==> !surface_keys(self.spec_surfaces()).contains(key@),
    {
        let mut i: usize = 0;
        while i < self.surfaces.len()
            invariant
                i <= self.surfaces@.len(),
                forall|j: int| 0 <= j < i ==> (#[trigger] self.surfaces@[j]).key@ != key@,
            decreases self.surfaces@.len() - i,
        {
            if str_eq(self.surfaces[i].key.as_str(), key.as_str()) {
                assert(surface_keys(self.surfaces@)[i as int] == key@);
                assert(self.spec_surfaces()[i as int] == self.surfaces@[i as int]);
                assert(forall|j: int| 0 <= j < i ==> (#[trigger] self.spec_surfaces()[j]).key@ != key@);
                return Some(&self.surfaces[i]);
            }
            i += 1;
        }
        assert(!surface_keys(self.surfaces@).contains(key@)) by {
            if surface_keys(self.surfaces@).contains(key@) {
                let j = choose|j: int| 0 <= j < surface_keys(self.surfaces@).len() && surface_keys(self.surfaces@)[j] == key@;
                assert(self.surfaces@[j].key@ == key@);
            }
        }
        None
    }
}


/// How a surface participates in one packet or phase.
#[derive(Clone, Copy, Debug, PartialEq, Eq, Structural)]
pub enum SurfaceUseRole {
    /// The surface must already be released and qualified.
    ReleasedDependency,
    /// The packet is allowed to produce this still-planned target.
    FundedTarget,
}

/// One declared surface use.
pub struct SurfaceUse {
    /// Surface declaration key.
    pub surface: SurfaceKey,
    /// Required status at admission.
    pub role: SurfaceUseRole,
}

/// Value of a surface use.
pub open spec fn use_view(u: SurfaceUse) -> (Seq<char>, SurfaceUseRole) {
    (u.surface@, u.role)
}

/// Value of a surface use's datum.
pub open spec fn use_v(u: (Seq<char>, SurfaceUseRole)) -> DatumV {
    DatumV::Node(
        csym("surface-use-v1"@),
        seq![
            (csym("surface"@), DatumV::Text(u.0)),
            (csym("role"@), DatumV::Text(
                match u.1 {
                    SurfaceUseRole::ReleasedDependency => "released-dependency"@,
                    SurfaceUseRole::FundedTarget => "funded-target"@,
                },
            )),
        ],
    )
}

/// The ordering key of a surface use: its surface key.
pub open spec fn use_key(u: SurfaceUse) -> Seq<(int, Seq<char>)> {
    seq![txt(u.surface@)]
}

/// The fields identifying a dependency-use set.
pub open spec fn use_set_fields(phase: Seq<char>, owner: Seq<u8>, uses: Seq<(Seq<char>, SurfaceUseRole)>) -> Seq<
    ((Option<Seq<char>>, Seq<char>), DatumV),
> {
    seq![
        (csym("phase"@), DatumV::Text(phase)),
        (csym("owner"@), id_v(owner)),
        (csym("uses"@), DatumV::Vector(uses.map_values(|u: (Seq<char>, SurfaceUseRole)| use_v(u)))),
    ]
}

/// Canonically identified dependency/target declaration made before packet
/// creation.
pub struct DependencyUseSet {
    id: DependencyUseSetId,
    /// Phase that consumes dependencies and funds targets.
    pub phase: String,
    /// Binding that owns every funded target.
    pub owner: OwnerBindingId,
    /// Complete declared uses, in surface-key order.
    pub uses: Vec<SurfaceUse>,
}

impl SurfaceUse {
    fn copy(&self) -> (r: SurfaceUse)
        ensures
            use_view(r) == use_view(*self),
    {
        SurfaceUse { surface: self.surface.copy(), role: self.role }
    }

    fn datum(&self) -> (r: CanonicalDatum)
        ensures
            datum_v(r) == use_v(use_view(*self)),
    {
        let role = match self.role {
            SurfaceUseRole::ReleasedDependency => text_datum("released-dependency"),
            SurfaceUseRole::FundedTarget => text_datum("funded-target"),
        };
        let ghost rv = datum_v(role);
        assert(rv == DatumV::Text(
            match self.role {
                SurfaceUseRole::ReleasedDependency => "released-dependency"@,
                SurfaceUseRole::FundedTarget => "funded-target"@,
            },
        ));
        let mut fields: Vec<(Sym, CanonicalDatum)> = Vec::new();
        fields.push(field("surface", text_datum(self.surface.as_str())));
        fields.push(field("role", role));
        let ghost expected = seq![(csym("surface"@), DatumV::Text(self.surface@)), (csym("role"@), rv)];
        assert(fields_v(fields@) =~= expected);
        proof {
            if let DatumV::Node(_, s2) = use_v(use_view(*self)) {
                assert(expected =~= s2);
            }
        }
        node("surface-use-v1", fields)
    }
}

pub(crate) fn text_key(s: &str) -> (k: Vec<KeyAtom>)
    ensures
        atoms(k@) == seq![txt(s@)],
{
    let mut k: Vec<KeyAtom> = Vec::new();
    k.push(KeyAtom { num: 0, text: text(s) });
    assert(atoms(k@) =~= seq![txt(s@)]);
    k
}

/// Order keys of a list of uses: each use's surface.
pub open spec fn use_keys(vs: Seq<(Seq<char>, SurfaceUseRole)>) -> Seq<Seq<(int, Seq<char>)>> {
    vs.map_values(|v: (Seq<char>, SurfaceUseRole)| seq![txt(v.0)])
}

/// The uses taken in the given order.
pub open spec fn arranged_uses(vs: Seq<(Seq<char>, SurfaceUseRole)>, order: Seq<usize>) -> Seq<
    (Seq<char>, SurfaceUseRole),
> {
    Seq::new(order.len(), |p: int| vs[order[p] as int])
}

/// What a use set made from uses in the given order answers: the first
/// surface that repeats its predecessor is refused; otherwise the uses are
/// identified together with the phase and the owner.
pub open spec fn use_set_outcome(
    phase: Seq<char>,
    owner: Seq<u8>,
    sorted: Seq<(Seq<char>, SurfaceUseRole)>,
    r: Result<DependencyUseSet, ConformanceError>,
) -> bool {
    let ks = use_keys(sorted);
    if exists|p: int| 0 < p < ks.len() && #[trigger] ks[p] == ks[p - 1] {
        exists|p: int|
            0 < p < ks.len() && #[trigger] ks[p] == ks[p - 1] && (forall|q: int|
                0 < q < p ==> #[trigger] ks[q] != ks[q - 1]) && (r matches Err(
                ConformanceError::DuplicateField(m),
            ) && m@ == "surface use"@ + ":"@ + sorted[p].0)
    } else {
        match r {
            Ok(set) => set.spec_uses() == sorted && set.spec_phase() == phase && set.spec_owner()
                == owner && role_digest("dependency-use-set-v1"@, use_set_fields(phase, owner, sorted))
                == Some(set.spec_id()),
            Err(e) => e == ConformanceError::NoncanonicalDatum && role_digest(
                "dependency-use-set-v1"@,
                use_set_fields(phase, owner, sorted),
            ) is None,
        }
    }
}

/// What [`DependencyUseSet::new`] answers: an empty phase is refused;
/// otherwise the outcome for the uses ordered by surface, uses of equal
/// surfaces in their given order.
pub open spec fn use_set_result(
    phase: Seq<char>,
    owner: Seq<u8>,
    vs: Seq<(Seq<char>, SurfaceUseRole)>,
    r: Result<DependencyUseSet, ConformanceError>,
) -> bool {
    &&& phase.len() == 0 ==> r == Err::<DependencyUseSet, ConformanceError>(ConformanceError::UnresolvedBinding)
    &&& phase.len() > 0 ==> exists|order: Seq<usize>|
        #[trigger] is_permutation(order, vs.len() as int) && nondecreasing(permuted(use_keys(vs), order))
            && use_set_outcome(phase, owner, arranged_uses(vs, order), r)
}

/// Two answers of use-set construction say the same: the same set, the
/// same repeated surface, or the same refusal.
pub open spec fn same_use_set_result(
    a: Result<DependencyUseSet, ConformanceError>,
    b: Result<DependencyUseSet, ConformanceError>,
) -> bool {
    match (a, b) {
        (Ok(x), Ok(y)) => x.spec_uses() == y.spec_uses() && x.spec_phase() == y.spec_phase()
            && x.spec_owner() == y.spec_owner() && x.spec_id() == y.spec_id(),
        (Err(ConformanceError::DuplicateField(m)), Err(ConformanceError::DuplicateField(n))) => m@ == n@,
        (Err(ConformanceError::UnresolvedBinding), Err(ConformanceError::UnresolvedBinding)) => true,
        (Err(ConformanceError::NoncanonicalDatum), Err(ConformanceError::NoncanonicalDatum)) => true,
        _ => false,
    }
}

/// A use set does not depend on the order its uses are handed in: for any
/// reordering of the uses, construction answers the same (the same set,
/// or the same least repeated surface, or the same refusal).
pub proof fn lemma_use_set_order_free(
    phase: Seq<char>,
    owner: Seq<u8>,
    vs: Seq<(Seq<char>, SurfaceUseRole)>,
    perm: Seq<usize>,
    a: Result<DependencyUseSet, ConformanceError>,
    b: Result<DependencyUseSet, ConformanceError>,
)
    requires
        is_permutation(perm, vs.len() as int),
        use_set_result(phase, owner, vs, a),
        use_set_result(phase, owner, arranged_uses(vs, perm), b),
    ensures
        same_use_set_result(a, b),
{
    if phase.len() > 0 {
        let n = vs.len() as int;
        let q = arranged_uses(vs, perm);
        let k = use_keys(vs);
        let oa = choose|order: Seq<usize>|
            #[trigger] is_permutation(order, n) && nondecreasing(permuted(k, order))
                && use_set_outcome(phase, owner, arranged_uses(vs, order), a);
        let ob = choose|order: Seq<usize>|
            #[trigger] is_permutation(order, n) && nondecreasing(permuted(use_keys(q), order))
                && use_set_outcome(phase, owner, arranged_uses(q, order), b);
        let c = compose(perm, ob);
        lemma_compose_permutation(perm, ob, n);
        assert(permuted(k, c) =~= permuted(use_keys(q), ob));
        assert(arranged_uses(q, ob) =~= arranged_uses(vs, c));
        let sa = arranged_uses(vs, oa);
        let sc = arranged_uses(vs, c);
        assert(use_keys(sa) =~= permuted(k, oa));
        assert(use_keys(sc) =~= permuted(k, c));
        lemma_adjacent_repeat_iff_duplicate(k, oa);
        lemma_adjacent_repeat_iff_duplicate(k, c);
        if keys_distinct(k) {
            lemma_sorting_order_unique(k, oa, c);
            lemma_use_set_outcome_unique(phase, owner, sa, a, b);
        } else {
            let ka = use_keys(sa);
            let kc = use_keys(sc);
            assert(exists|p: int| #[trigger] adjacent_repeat(k, oa, p));
            assert(exists|p: int| #[trigger] adjacent_repeat(k, c, p));
            let pa = choose|p: int| #[trigger] adjacent_repeat(k, oa, p);
            let pc = choose|p: int| #[trigger] adjacent_repeat(k, c, p);
            assert(ka[pa] == ka[pa - 1]);
            assert(kc[pc] == kc[pc - 1]);
            let xa = choose|p: int|
                0 < p < ka.len() && #[trigger] ka[p] == ka[p - 1] && (forall|q: int|
                    0 < q < p ==> #[trigger] ka[q] != ka[q - 1]) && (a matches Err(
                    ConformanceError::DuplicateField(m),
                ) && m@ == "surface use"@ + ":"@ + sa[p].0);
            let xc = choose|p: int|
                0 < p < kc.len() && #[trigger] kc[p] == kc[p - 1] && (forall|q: int|
                    0 < q < p ==> #[trigger] kc[q] != kc[q - 1]) && (b matches Err(
                    ConformanceError::DuplicateField(m),
                ) && m@ == "surface use"@ + ":"@ + sc[p].0);
            assert forall|q: int| 0 < q < xa implies !#[trigger] adjacent_repeat(k, oa, q) by {
                assert(ka[q] != ka[q - 1]);
            }
            assert forall|q: int| 0 < q < xc implies !#[trigger] adjacent_repeat(k, c, q) by {
                assert(kc[q] != kc[q - 1]);
            }
            lemma_first_repeat_least(k, oa, xa);
            lemma_first_repeat_least(k, c, xc);
            let x1 = oa[xa - 1] as int;
            let x2 = oa[xa] as int;
            let y1 = c[xc - 1] as int;
            let y2 = c[xc] as int;
            assert(x1 != x2 && k[x1] == k[x2]);
            assert(y1 != y2 && k[y1] == k[y2]);
            if x1 < x2 {
                assert(!key_lt(k[x1], kc[xc]));
            } else {
                assert(!key_lt(k[x2], kc[xc]));
            }
            if y1 < y2 {
                assert(!key_lt(k[y1], ka[xa]));
            } else {
                assert(!key_lt(k[y2], ka[xa]));
            }
            lemma_key_lt_total(ka[xa], kc[xc]);
            assert(ka[xa] == kc[xc]);
            assert(ka[xa][0] == txt(sa[xa].0) && kc[xc][0] == txt(sc[xc].0));
            assert(sa[xa].0 == sc[xc].0);
        }
    }
}

/// The outcome for a given ordering of the uses is one answer only.
proof fn lemma_use_set_outcome_unique(
    phase: Seq<char>,
    owner: Seq<u8>,
    s: Seq<(Seq<char>, SurfaceUseRole)>,
    a: Result<DependencyUseSet, ConformanceError>,
    b: Result<DependencyUseSet, ConformanceError>,
)
    requires
        phase.len() > 0,
        use_set_outcome(phase, owner, s, a),
        use_set_outcome(phase, owner, s, b),
    ensures
        same_use_set_result(a, b),
{
    let ks = use_keys(s);
    if exists|p: int| 0 < p < ks.len() && #[trigger] ks[p] == ks[p - 1] {
        let pa = choose|p: int|
            0 < p < ks.len() && #[trigger] ks[p] == ks[p - 1] && (forall|q: int|
                0 < q < p ==> #[trigger] ks[q] != ks[q - 1]) && (a matches Err(
                ConformanceError::DuplicateField(m),
            ) && m@ == "surface use"@ + ":"@ + s[p].0);
        let pb = choose|p: int|
            0 < p < ks.len() && #[trigger] ks[p] == ks[p - 1] && (forall|q: int|
                0 < q < p ==> #[trigger] ks[q] != ks[q - 1]) && (b matches Err(
                ConformanceError::DuplicateField(m),
            ) && m@ == "surface use"@ + ":"@ + s[p].0);
        assert(pa == pb) by {
            if pa < pb {
                assert(ks[pa] != ks[pa - 1]);
            } else if pb < pa {
                assert(ks[pb] != ks[pb - 1]);
            }
        }
    }
}

impl DependencyUseSet {
    /// The consuming phase.
    pub closed spec fn spec_phase(&self) -> Seq<char> {
        self.phase@
    }

    /// The owning binding's identity.
    pub closed spec fn spec_owner(&self) -> Seq<u8> {
        self.owner@
    }

    /// The use set's identity.
    pub closed spec fn spec_id(&self) -> Seq<u8> {
        self.id@
    }

    /// The stored uses.
    pub closed spec fn spec_uses(&self) -> Seq<(Seq<char>, SurfaceUseRole)> {
        self.uses@.map_values(|u: SurfaceUse| use_view(u))
    }

    /// Orders the uses by surface key (equal keys keep their order), refuses
    /// an empty phase and a surface used twice (naming the least such
    /// surface), and identifies the set.
    pub fn new(phase: String, owner: OwnerBindingId, uses: Vec<SurfaceUse>) -> (r: Result<
        DependencyUseSet,
        ConformanceError,
    >)
        ensures
            use_set_result(phase@, owner@, uses@.map_values(|u: SurfaceUse| use_view(u)), r),
    {
        let ghost vs = uses@.map_values(|u: SurfaceUse| use_view(u));
        proof {
            assert(uses@.map_values(|u: SurfaceUse| use_key(u)) =~= use_keys(vs));
        }
        if phase.as_str().is_empty() {
            return Err(ConformanceError::UnresolvedBinding);
        }
        let ghost ku = uses@.map_values(|u: SurfaceUse| use_key(u));
        let mut keys: Vec<Vec<KeyAtom>> = Vec::new();
        let mut i: usize = 0;
        while i < uses.len()
            invariant
                i <= uses@.len(),
                ku == uses@.map_values(|u: SurfaceUse| use_key(u)),
                keys@.len() == i,
                forall|j: int| 0 <= j < i ==> atoms((#[trigger] keys@[j])@) == ku[j],
            decreases uses@.len() - i,
        {
            keys.push(text_key(uses[i].surface.as_str()));
            i += 1;
        }
        assert(key_values(keys@) =~= ku);
        let order = sort_by_keys(&keys);
        let ghost sorted = Seq::new(order@.len(), |p: int| use_view(uses@[order@[p] as int]));
        let ghost ks = permuted(ku, order@);
        let mut sorted_uses: Vec<SurfaceUse> = Vec::new();
        let mut p: usize = 0;
        while p < order.len()
            invariant
                p <= order@.len(),
                is_permutation(order@, uses@.len() as int),
                sorted_uses@.len() == p,
                forall|q: int| 0 <= q < p ==> use_view(#[trigger] sorted_uses@[q]) == use_view(uses@[order@[q] as int]),
            decreases order@.len() - p,
        {
            sorted_uses.push(uses[order[p]].copy());
            p += 1;
        }
        assert(sorted_uses@.map_values(|u: SurfaceUse| use_view(u)) =~= sorted);
        match first_adjacent_repeat(&keys, &order) {
            Some(p) => {
                let m = concat3("surface use", ":", sorted_uses[p].surface.as_str());
                proof {
                    assert(ks[p as int] == ku[order@[p as int] as int]);
                    assert(sorted[p as int].0 == sorted_uses@[p as int].surface@);
                    assert(sorted =~= arranged_uses(vs, order@));
                    assert(use_keys(sorted) =~= ks);
                }
                return Err(ConformanceError::DuplicateField(m));
            },
            None => {},
        }
        let mut data: Vec<CanonicalDatum> = Vec::new();
        let mut q: usize = 0;
        while q < sorted_uses.len()
            invariant
                q <= sorted_uses@.len(),
                data@.len() == q,
                forall|j: int| 0 <= j < q ==> datum_v(#[trigger] data@[j]) == use_v(use_view(sorted_uses@[j])),
            decreases sorted_uses@.len() - q,
        {
            data.push(sorted_uses[q].datum());
            q += 1;
        }
        let uses_datum = CanonicalDatum::Vector(data);
        proof {
            if let DatumV::Vector(s2) = datum_v(uses_datum) {
                assert(s2 =~= sorted.map_values(|u: (Seq<char>, SurfaceUseRole)| use_v(u)));
            }
        }
        let mut fields: Vec<(Sym, CanonicalDatum)> = Vec::new();
        fields.push(field("phase", text_datum(phase.as_str())));
        fields.push(field("owner", owner.to_datum()));
        fields.push(field("uses", uses_datum));
        let ghost f = use_set_fields(phase@, owner@, sorted);
        proof {
            assert(fields_v(fields@) =~= f);
            lemma_use_set_names_distinct();
            let g = seq![(csym("phase"@), DatumV::Nil), (csym("owner"@), DatumV::Nil), (csym("uses"@), DatumV::Nil)];
            assert forall|a: int, b: int| 0 <= a < b < f.len() implies #[trigger] f[a].0 != #[trigger] f[b].0 by {
                assert(g[a].0 == f[a].0 && g[b].0 == f[b].0);
            }
        }
        proof {
            assert(sorted =~= arranged_uses(vs, order@));
            assert(use_keys(sorted) =~= ks);
        }
        let id = match SemanticId::from_fields(fields) {
            Ok(id) => id,
            Err(e) => {
                return Err(e);
            },
        };
        Ok(DependencyUseSet { id, phase, owner, uses: sorted_uses })
    }

    /// Returns the use-set identity.
    pub fn id(&self) -> (r: &DependencyUseSetId)
        ensures
            r@ == self.spec_id(),
    {
        &self.id
    }
}

proof fn lemma_use_set_names_distinct()
    ensures
        names_distinct(seq![
        (csym("phase"@), DatumV::Nil),
        (csym("owner"@), DatumV::Nil),
        (csym("uses"@), DatumV::Nil),
        ]),
{
    reveal_strlit("phase");
    reveal_strlit("owner");
    reveal_strlit("uses");
    let g = seq![
        (csym("phase"@), DatumV::Nil),
        (csym("owner"@), DatumV::Nil),
        (csym("uses"@), DatumV::Nil),
    ];
    assert forall|x: int, y: int| 0 <= x < y < g.len() implies #[trigger] g[x].0 != #[trigger] g[y].0 by {
        if x == 0 && y == 1 {
            assert("phase"@[0] != "owner"@[0]);
        }
        if x == 0 && y == 2 {
            assert("phase"@.len() != "uses"@.len());
        }
        if x == 1 && y == 2 {
            assert("owner"@.len() != "uses"@.len());
        }
    }
}

/// Scope carried by both a binding qualification and its supporting
/// receipts.
pub enum QualificationScope {
    /// Architecture activation only.
    Activation {
        /// Activated architecture map.
        map: ActivationMapId,
    },
    /// The released dependencies consumed by one use set.
    Dependencies {
        /// Exact dependency-use declaration.
        uses: DependencyUseSetId,
    },
    /// Surfaces produced by one phase.
    Produced {
        /// Producing phase.
        phase: String,
        /// Exact produced surfaces.
        surfaces: SurfaceSetId,
    },
    /// Full selected-roadmap surface closure.
    RoadmapFinal {
        /// Exact selected roadmap subject.
        selected: CheckedSubjectId,
        /// Complete final surface set.
        surfaces: SurfaceSetId,
    },
}

/// Value of a scope's datum.
pub open spec fn scope_v(s: QualificationScope) -> DatumV {
    match s {
        QualificationScope::Activation { map } => DatumV::Node(
            csym("qualification-activation-v1"@),
            seq![(csym("map"@), id_v(map@))],
        ),
        QualificationScope::Dependencies { uses } => DatumV::Node(
            csym("qualification-dependencies-v1"@),
            seq![(csym("uses"@), id_v(uses@))],
        ),
        QualificationScope::Produced { phase, surfaces } => DatumV::Node(
            csym("qualification-produced-v1"@),
            seq![(csym("phase"@), DatumV::Text(phase@)), (csym("surfaces"@), id_v(surfaces@))],
        ),
        QualificationScope::RoadmapFinal { selected, surfaces } => DatumV::Node(
            csym("qualification-roadmap-final-v1"@),
            seq![(csym("selected"@), id_v(selected@)), (csym("surfaces"@), id_v(surfaces@))],
        ),
    }
}

/// Value of a scope: its variant and field values.
pub open spec fn scope_view(s: QualificationScope) -> (int, Seq<u8>, Seq<char>, Seq<u8>) {
    match s {
        QualificationScope::Activation { map } => (0, map@, Seq::empty(), Seq::empty()),
        QualificationScope::Dependencies { uses } => (1, uses@, Seq::empty(), Seq::empty()),
        QualificationScope::Produced { phase, surfaces } => (2, surfaces@, phase@, Seq::empty()),
        QualificationScope::RoadmapFinal { selected, surfaces } => (3, selected@, Seq::empty(), surfaces@),
    }
}

impl QualificationScope {
    /// Projects the exact scope into its canonical record form.
    pub fn to_datum(&self) -> (r: Result<CanonicalDatum, ConformanceError>)
        ensures
            r matches Ok(d) && datum_v(d) == scope_v(*self),
    {
        let mut fields: Vec<(Sym, CanonicalDatum)> = Vec::new();
        let tag = match self {
            QualificationScope::Activation { map } => {
                fields.push(field("map", map.to_datum()));
                "qualification-activation-v1"
            },
            QualificationScope::Dependencies { uses } => {
                fields.push(field("uses", uses.to_datum()));
                "qualification-dependencies-v1"
            },
            QualificationScope::Produced { phase, surfaces } => {
                fields.push(field("phase", text_datum(phase.as_str())));
                fields.push(field("surfaces", surfaces.to_datum()));
                "qualification-produced-v1"
            },
            QualificationScope::RoadmapFinal { selected, surfaces } => {
                fields.push(field("selected", selected.to_datum()));
                fields.push(field("surfaces", surfaces.to_datum()));
                "qualification-roadmap-final-v1"
            },
        };
        proof {
            if let DatumV::Node(t, s2) = scope_v(*self) {
                assert(fields_v(fields@) =~= s2);
                assert(csym(tag@) == t);
            }
        }
        Ok(node(tag, fields))
    }

    /// Returns true only for exact scope equality.
    pub fn exactly(&self, other: &QualificationScope) -> (b: bool)
        ensures
            b == (scope_view(*self) == scope_view(*other)),
    {
        match (self, other) {
            (QualificationScope::Activation { map: a }, QualificationScope::Activation { map: b }) => a.same(b),
            (QualificationScope::Dependencies { uses: a }, QualificationScope::Dependencies { uses: b }) => a.same(b),
            (
                QualificationScope::Produced { phase: p1, surfaces: s1 },
                QualificationScope::Produced { phase: p2, surfaces: s2 },
            ) => str_eq(p1.as_str(), p2.as_str()) && s1.same(s2),
            (
                QualificationScope::RoadmapFinal { selected: a1, surfaces: s1 },
                QualificationScope::RoadmapFinal { selected: a2, surfaces: s2 },
            ) => a1.same(a2) && s1.same(s2),
            _ => false,
        }
    }
}

/// Exact released evidence resolving a declaration key.
pub struct CheckedSurfaceRef {
    /// Declaration being resolved.
    pub key: SurfaceKey,
    /// Exact source identity.
    pub source: CheckedSubjectId,
    /// Installed package identity.
    pub package: CheckedSubjectId,
    /// Receipt that qualified this exact surface and scope.
    pub receipt: CheckerReceiptId,
}

/// Resolved keys of a list of surface references.
pub open spec fn resolved_keys(v: Seq<CheckedSurfaceRef>) -> Seq<Seq<char>> {
    v.map_values(|r: CheckedSurfaceRef| r.key@)
}

/// The first declared surface with key `k` is planned.
pub open spec fn planned_key(surfaces: Seq<BoundSurface>, k: Seq<char>) -> bool {
    exists|i: int|
        0 <= i < surfaces.len() && (#[trigger] surfaces[i]).key@ == k && (forall|j: int|
            0 <= j < i ==> (#[trigger] surfaces[j]).key@ != k) && surfaces[i].status is Planned
}

/// Immutable qualification attachment; it never changes the binding id.
pub struct BindingQualificationReceipt {
    binding: OwnerBindingId,
    scope: QualificationScope,
    resolved: Vec<CheckedSurfaceRef>,
    subject: CheckedSubjectId,
    checks: Vec<CheckerReceiptId>,
}

impl BindingQualificationReceipt {
    /// The qualified binding.
    pub closed spec fn spec_binding(&self) -> Seq<u8> {
        self.binding@
    }

    /// The scope.
    pub closed spec fn spec_scope(&self) -> QualificationScope {
        self.scope
    }

    /// The resolved surfaces.
    pub closed spec fn spec_resolved(&self) -> Seq<CheckedSurfaceRef> {
        self.resolved@
    }

    /// The number of supporting checks.
    pub closed spec fn spec_check_count(&self) -> nat {
        self.checks@.len()
    }

    /// The subject the supporting receipts checked.
    pub closed spec fn spec_subject(&self) -> Seq<u8> {
        self.subject@
    }

    /// The supporting checker receipt identities, in order.
    pub closed spec fn spec_checks(&self) -> Seq<Seq<u8>> {
        self.checks@.map_values(|c: CheckerReceiptId| c@)
    }

    /// The receipt is for the binding, resolves each of its declared
    /// surfaces at most once, rests on at least one check, and offers no
    /// planned surface as activation evidence.
    pub open spec fn valid_for(&self, b: &OwnerBinding) -> bool {
        &&& self.spec_binding() == b.spec_id()
        &&& texts_distinct(resolved_keys(self.spec_resolved()))
        &&& (forall|y: Seq<char>| #[trigger] resolved_keys(self.spec_resolved()).contains(y) ==> surface_keys(b.spec_surfaces()).contains(y))
        &&& self.spec_check_count() > 0
        &&& !(self.spec_scope() is Activation && exists|y: Seq<char>| #[trigger] resolved_keys(self.spec_resolved()).contains(y) && planned_key(b.spec_surfaces(), y))
    }

    /// Validates that resolved surfaces belong to the binding and the scope
    /// is not inferred wider. Reports, in order: another binding; a
    /// surface resolved twice; a resolved key the binding does not declare;
    /// no supporting check; planned surfaces offered for activation.
    pub fn verify(&self, binding: &OwnerBinding) -> (r: Result<(), ConformanceError>)
        ensures
            r is Ok <==> self.valid_for(binding),
            self.spec_binding() != binding.spec_id() ==> r == Err::<(), ConformanceError>(
                ConformanceError::WrongOwner,
            ),
            self.spec_binding() == binding.spec_id() && !texts_distinct(resolved_keys(self.spec_resolved())) ==> exists|j: int|
                #[trigger] first_text_repeat(resolved_keys(self.spec_resolved()), j) && (r matches Err(
                    ConformanceError::DuplicateField(m),
                ) && m@ == "resolved surface"@ + ":"@ + resolved_keys(self.spec_resolved())[j]),
            self.spec_binding() == binding.spec_id() && texts_distinct(resolved_keys(self.spec_resolved()))
                && !(forall|y: Seq<char>| #[trigger] resolved_keys(self.spec_resolved()).contains(y) ==> surface_keys(binding.spec_surfaces()).contains(y))
                ==> (r matches Err(ConformanceError::MissingSurface(m)) && resolved_keys(self.spec_resolved()).contains(m@) && !surface_keys(binding.spec_surfaces()).contains(m@)),
            self.spec_binding() == binding.spec_id() && texts_distinct(resolved_keys(self.spec_resolved()))
                && (forall|y: Seq<char>| #[trigger] resolved_keys(self.spec_resolved()).contains(y) ==> surface_keys(binding.spec_surfaces()).contains(y))
                && self.spec_check_count() == 0 ==> (r matches Err(ConformanceError::UnqualifiedDependency(m)) && m@ == binding.spec_law()),
            self.spec_binding() == binding.spec_id() && texts_distinct(resolved_keys(self.spec_resolved()))
                && (forall|y: Seq<char>| #[trigger] resolved_keys(self.spec_resolved()).contains(y) ==> surface_keys(binding.spec_surfaces()).contains(y))
                && self.spec_check_count() > 0 && self.spec_scope() is Activation
                && (exists|y: Seq<char>| #[trigger] resolved_keys(self.spec_resolved()).contains(y) && planned_key(binding.spec_surfaces(), y))
                ==> r == Err::<(), ConformanceError>(ConformanceError::ActivationIsNotProductionEvidence),
            r is Err && self.valid_for(binding) ==> false,
            (r matches Err(ConformanceError::WrongOwner)) ==> self.spec_binding() != binding.spec_id(),
            r is Err ==> (r matches Err(ConformanceError::WrongOwner)) || (r matches Err(ConformanceError::DuplicateField(_)))
                || (r matches Err(ConformanceError::MissingSurface(_))) || (r matches Err(ConformanceError::UnqualifiedDependency(_)))
                || (r matches Err(ConformanceError::ActivationIsNotProductionEvidence)),
    {
        if !self.binding.same(binding.id()) {
            return Err(ConformanceError::WrongOwner);
        }
        let mut keys: Vec<&str> = Vec::new();
        let mut i: usize = 0;
        while i < self.resolved.len()
            invariant
                i <= self.resolved@.len(),
                sv(keys@) == resolved_keys(self.resolved@.take(i as int)),
            decreases self.resolved@.len() - i,
        {
            let ghost before = keys@;
            keys.push(self.resolved[i].key.as_str());
            assert(self.resolved@.take(i + 1) =~= self.resolved@.take(i as int).push(self.resolved@[i as int]));
            assert(sv(keys@) =~= sv(before).push(self.resolved@[i as int].key@));
            i += 1;
        }
        assert(self.resolved@.take(self.resolved@.len() as int) =~= self.resolved@);
        match unique(&keys, "resolved surface") {
            Ok(()) => {},
            Err(e) => {
                return Err(e);
            },
        }
        let mut k: usize = 0;
        while k < self.resolved.len()
            invariant
                k <= self.resolved@.len(),
                self.spec_binding() == binding.spec_id(),
                texts_distinct(resolved_keys(self.resolved@)),
                forall|j: int| 0 <= j < k ==> surface_keys(binding.spec_surfaces()).contains(#[trigger] resolved_keys(self.resolved@)[j]),
            decreases self.resolved@.len() - k,
        {
            if binding.surface(&self.resolved[k].key).is_none() {
                assert(resolved_keys(self.resolved@)[k as int] == self.resolved@[k as int].key@);
                assert(resolved_keys(self.spec_resolved()).contains(resolved_keys(self.resolved@)[k as int]));
                return Err(ConformanceError::MissingSurface(self.resolved[k].key.text.clone()));
            }
            k += 1;
        }
        assert forall|y: Seq<char>| #[trigger] resolved_keys(self.spec_resolved()).contains(y) implies surface_keys(binding.spec_surfaces()).contains(y) by {
            let j = choose|j: int| 0 <= j < resolved_keys(self.resolved@).len() && resolved_keys(self.resolved@)[j] == y;
        }
        if self.checks.len() == 0 {
            return Err(ConformanceError::UnqualifiedDependency(binding.law.clone()));
        }
        let activation = match &self.scope {
            QualificationScope::Activation { .. } => true,
            _ => false,
        };
        if activation {
            let mut k: usize = 0;
            while k < self.resolved.len()
                invariant
                    k <= self.resolved@.len(),
                    self.spec_binding() == binding.spec_id(),
                    texts_distinct(resolved_keys(self.resolved@)),
                    forall|y: Seq<char>| #[trigger] resolved_keys(self.spec_resolved()).contains(y) ==> surface_keys(binding.spec_surfaces()).contains(y),
                    self.spec_check_count() > 0,
                    self.spec_scope() is Activation,
                    forall|j: int| 0 <= j < k ==> !planned_key(binding.spec_surfaces(), #[trigger] resolved_keys(self.resolved@)[j]),
                decreases self.resolved@.len() - k,
            {
                match binding.surface(&self.resolved[k].key) {
                    Some(found) => {
                        let planned = match &found.status {
                            SurfaceStatus::Planned { .. } => true,
                            SurfaceStatus::Existing => false,
                        };
                        if planned {
                            assert(planned_key(binding.spec_surfaces(), resolved_keys(self.resolved@)[k as int]));
                            assert(resolved_keys(self.resolved@).contains(resolved_keys(self.resolved@)[k as int]));
                            return Err(ConformanceError::ActivationIsNotProductionEvidence);
                        }
                        proof {
                            let y = resolved_keys(self.resolved@)[k as int];
                            if planned_key(binding.spec_surfaces(), y) {
                                let i1 = choose|i: int| 0 <= i < binding.spec_surfaces().len() && (#[trigger] binding.spec_surfaces()[i]).key@ == y && (forall|j: int| 0 <= j < i ==> (#[trigger] binding.spec_surfaces()[j]).key@ != y) && binding.spec_surfaces()[i].status is Planned;
                                let i2 = choose|i: int| 0 <= i < binding.spec_surfaces().len() && *found == binding.spec_surfaces()[i] && binding.spec_surfaces()[i].key@ == y && forall|j: int| 0 <= j < i ==> (#[trigger] binding.spec_surfaces()[j]).key@ != y;
                                assert(i1 == i2) by {
                                    if i1 < i2 {
                                        assert(binding.spec_surfaces()[i1].key@ != y);
                                    } else if i2 < i1 {
                                        assert(binding.spec_surfaces()[i2].key@ != y);
                                    }
                                }
                            }
                        }
                    },
                    None => {
                        proof {
                            let y = resolved_keys(self.resolved@)[k as int];
                            if planned_key(binding.spec_surfaces(), y) {
                                let i1 = choose|i: int| 0 <= i < binding.spec_surfaces().len() && (#[trigger] binding.spec_surfaces()[i]).key@ == y && (forall|j: int| 0 <= j < i ==> (#[trigger] binding.spec_surfaces()[j]).key@ != y) && binding.spec_surfaces()[i].status is Planned;
                                assert(surface_keys(binding.spec_surfaces())[i1] == y);
                            }
                        }
                    },
                }
                k += 1;
            }
            assert(!exists|y: Seq<char>| #[trigger] resolved_keys(self.spec_resolved()).contains(y) && planned_key(binding.spec_surfaces(), y)) by {
                if exists|y: Seq<char>| #[trigger] resolved_keys(self.spec_resolved()).contains(y) && planned_key(binding.spec_surfaces(), y) {
                    let y = choose|y: Seq<char>| #[trigger] resolved_keys(self.spec_resolved()).contains(y) && planned_key(binding.spec_surfaces(), y);
                    let j = choose|j: int| 0 <= j < resolved_keys(self.resolved@).len() && resolved_keys(self.resolved@)[j] == y;
                }
            }
        }
        Ok(())
    }

    /// Constructs a qualification attachment only after checking its exact
    /// owner and scope.
    pub fn new(
        binding: &OwnerBinding,
        scope: QualificationScope,
        resolved: Vec<CheckedSurfaceRef>,
        subject: CheckedSubjectId,
        checks: Vec<CheckerReceiptId>,
    ) -> (r: Result<BindingQualificationReceipt, ConformanceError>)
        ensures
            r matches Ok(q) ==> q.valid_for(binding) && q.spec_binding() == binding.spec_id() && q.spec_resolved()
                == resolved@ && q.spec_scope() == scope && q.spec_check_count() == checks@.len()
                && q.spec_subject() == subject@ && q.spec_checks() == checks@.map_values(|c: CheckerReceiptId| c@),
            r is Ok <==> (texts_distinct(resolved_keys(resolved@)) && (forall|y: Seq<char>| #[trigger] resolved_keys(resolved@).contains(y) ==> surface_keys(binding.spec_surfaces()).contains(y))
                && checks@.len() > 0 && !(scope is Activation && exists|y: Seq<char>| #[trigger] resolved_keys(resolved@).contains(y) && planned_key(binding.spec_surfaces(), y))),
            !texts_distinct(resolved_keys(resolved@)) ==> (r matches Err(ConformanceError::DuplicateField(_))),
            texts_distinct(resolved_keys(resolved@))
                && !(forall|y: Seq<char>| #[trigger] resolved_keys(resolved@).contains(y) ==> surface_keys(binding.spec_surfaces()).contains(y))
                ==> (r matches Err(ConformanceError::MissingSurface(m)) && resolved_keys(resolved@).contains(m@) && !surface_keys(binding.spec_surfaces()).contains(m@)),
            texts_distinct(resolved_keys(resolved@))
                && (forall|y: Seq<char>| #[trigger] resolved_keys(resolved@).contains(y) ==> surface_keys(binding.spec_surfaces()).contains(y))
                && checks@.len() == 0 ==> (r matches Err(ConformanceError::UnqualifiedDependency(m)) && m@ == binding.spec_law()),
            r is Err ==> (r matches Err(ConformanceError::DuplicateField(_))) || (r matches Err(ConformanceError::MissingSurface(_)))
                || (r matches Err(ConformanceError::UnqualifiedDependency(_))) || (r matches Err(ConformanceError::ActivationIsNotProductionEvidence)),
    {
        let receipt = BindingQualificationReceipt {
            binding: binding.id().copy(),
            scope,
            resolved,
            subject,
            checks,
        };
        match receipt.verify(binding) {
            Ok(()) => Ok(receipt),
            Err(e) => Err(e),
        }
    }

    /// Returns the binding being qualified.
    pub fn binding(&self) -> (r: &OwnerBindingId)
        ensures
            r@ == self.spec_binding(),
    {
        &self.binding
    }

    /// Returns the exact allowed claim scope.
    pub fn scope(&self) -> (r: &QualificationScope)
        ensures
            *r == self.spec_scope(),
    {
        &self.scope
    }

    /// Returns every resolved surface reference.
    pub fn resolved(&self) -> (r: &[CheckedSurfaceRef])
        ensures
            r@ == self.spec_resolved(),
    {
        self.resolved.as_slice()
    }

    /// Returns the subject checked by the supporting receipts.
    pub fn subject(&self) -> (r: &CheckedSubjectId)
        ensures
            r@ == self.spec_subject(),
    {
        &self.subject
    }

    /// Returns every supporting checker receipt identity.
    pub fn checks(&self) -> (r: &[CheckerReceiptId])
        ensures
            r@.len() == self.spec_check_count(),
            r@.map_values(|c: CheckerReceiptId| c@) == self.spec_checks(),
    {
        self.checks.as_slice()
    }
}

/// One exact checker/scope tuple required to close a phase.
pub struct PhaseCheck {
    /// Checker declaration.
    pub checker: String,
    /// Exact checker scope.
    pub scope: CheckScopeId,
}

/// Immutable checker requirements for a producing phase.
pub struct PhaseGateSpec {
    /// Producing phase.
    pub phase: String,
    /// Exact required tuples.
    pub required: Vec<PhaseCheck>,
}

} // verus!
