//! Complete digest-construction accountability records.
//!
//! Each construction row names one digest constructor, every reached call
//! site, the role its result actually plays and a funded resolution. A
//! register holds the rows ordered by key, each key and each constructor
//! once.

use vstd::prelude::*;

use crate::conformance::binding::text_key;
use crate::conformance::checker::{FieldV, sorted_set_of};
use crate::conformance::datum::{CanonicalDatum, DatumV, Sym, csym, datum_v};
use crate::conformance::graph::{ConformanceError, texts};
use crate::conformance::identity::{
    CheckedSubjectId, ConformancePackId, DigestConstructionId, DigestConstructionRegisterId,
    OwnerBindingId, SemanticId, digests, field, fields_v, id_v, ids, ids_v, names_distinct,
    role_digest, strings, strings_v, text_datum,
};
use crate::conformance::order::{
    compose, first_adjacent_repeat, is_permutation, key_values, keys_distinct,
    lemma_compose_permutation, lemma_sorting_order_unique, nondecreasing, permuted, sort_by_keys,
    sort_ids,
};
use crate::index::identity::{KeyAtom, atoms, txt};
use crate::text::{str_eq, text};

verus! {

/// The authority role a digest construction actually serves.
#[derive(Clone, Copy, Debug, PartialEq, Eq, Structural)]
pub enum IdentityRole {
    /// Durable semantic meaning.
    Semantic,
    /// Exact opaque bytes only.
    ByteAddress,
    /// Process-local optimization only.
    Ephemeral,
    /// Synthetic test data only.
    Fixture,
}

/// The canonical name of a role.
pub open spec fn role_text(r: IdentityRole) -> Seq<char> {
    match r {
        IdentityRole::Semantic => "semantic"@,
        IdentityRole::ByteAddress => "byte-address"@,
        IdentityRole::Ephemeral => "ephemeral"@,
        IdentityRole::Fixture => "fixture"@,
    }
}

impl IdentityRole {
    fn as_str(self) -> (s: &'static str)
        ensures
            s@ == role_text(self),
    {
        match self {
            IdentityRole::Semantic => "semantic",
            IdentityRole::ByteAddress => "byte-address",
            IdentityRole::Ephemeral => "ephemeral",
            IdentityRole::Fixture => "fixture",
        }
    }
}

/// Funded resolution for one current digest construction.
pub enum ConstructionDisposition {
    /// The construction already obeys its exact declared law.
    Conforming {
        /// Pack that checks the retained construction.
        pack: ConformancePackId,
    },
    /// A reached semantic construction must be normalized in the named
    /// phase.
    Normalize {
        /// Funded producing phase.
        phase: String,
        /// Target semantic domain.
        target_domain: String,
        /// Every affected consumer.
        affected_consumers: Vec<String>,
        /// Exact compatibility-plan declaration.
        compatibility: String,
    },
    /// An old law is allowed only inside one bounded native reader.
    VerifyNativeInputOnly {
        /// Sole bounded native entrypoint allowed to recognize the old id.
        reader: String,
    },
    /// The construction is outside the selected semantic closure.
    Excluded {
        /// Checked dataflow/exclusion witness.
        proof: CheckedSubjectId,
    },
}

/// What a disposition holds, by value.
pub enum DispositionView {
    /// Conforming, checked by a pack.
    Conforming(Seq<u8>),
    /// Normalized: phase, target domain, affected consumers, compatibility.
    Normalize(Seq<char>, Seq<char>, Seq<Seq<char>>, Seq<char>),
    /// Recognized only by one native reader.
    VerifyNativeInputOnly(Seq<char>),
    /// Excluded, with its witness.
    Excluded(Seq<u8>),
}

impl View for ConstructionDisposition {
    type V = DispositionView;

    open spec fn view(&self) -> DispositionView {
        match self {
            ConstructionDisposition::Conforming { pack } => DispositionView::Conforming(pack@),
            ConstructionDisposition::Normalize { phase, target_domain, affected_consumers, compatibility } =>
                DispositionView::Normalize(
                phase@,
                target_domain@,
                texts(affected_consumers@),
                compatibility@,
            ),
            ConstructionDisposition::VerifyNativeInputOnly { reader } => DispositionView::VerifyNativeInputOnly(
                reader@,
            ),
            ConstructionDisposition::Excluded { proof } => DispositionView::Excluded(proof@),
        }
    }
}

/// Value of a disposition's datum.
pub open spec fn disposition_v(d: DispositionView) -> DatumV {
    match d {
        DispositionView::Conforming(p) => DatumV::Node(
            csym("construction-conforming-v1"@),
            seq![(csym("pack"@), id_v(p))],
        ),
        DispositionView::Normalize(phase, target, consumers, compat) => DatumV::Node(
            csym("construction-normalize-v1"@),
            normalize_fields(phase, target, consumers, compat),
        ),
        DispositionView::VerifyNativeInputOnly(reader) => DatumV::Node(
            csym("construction-verify-native-input-only-v1"@),
            seq![(csym("reader"@), DatumV::Text(reader))],
        ),
        DispositionView::Excluded(p) => DatumV::Node(
            csym("construction-excluded-v1"@),
            seq![(csym("proof"@), id_v(p))],
        ),
    }
}

/// Fields of a normalization's node.
pub open spec fn normalize_fields(
    phase: Seq<char>,
    target: Seq<char>,
    consumers: Seq<Seq<char>>,
    compat: Seq<char>,
) -> Seq<FieldV> {
    seq![
        (csym("phase"@), DatumV::Text(phase)),
        (csym("target-domain"@), DatumV::Text(target)),
        (csym("affected-consumers"@), strings_v(consumers)),
        (csym("compatibility"@), DatumV::Text(compat)),
    ]
}

/// A disposition is funded: a normalization names its phase, target and
/// compatibility plan, and a native reader is named.
pub open spec fn funded(d: DispositionView) -> bool {
    match d {
        DispositionView::Normalize(phase, target, _, compat) => phase.len() > 0 && target.len() > 0
            && compat.len() > 0,
        DispositionView::VerifyNativeInputOnly(reader) => reader.len() > 0,
        _ => true,
    }
}

/// A node with one named field.
fn single_field_node(tag: &str, name: &str, value: CanonicalDatum) -> (r: CanonicalDatum)
    ensures
        datum_v(r) == DatumV::Node(csym(tag@), seq![(csym(name@), datum_v(value))]),
{
    let ghost v = datum_v(value);
    let mut fields: Vec<(Sym, CanonicalDatum)> = Vec::new();
    fields.push(field(name, value));
    let r = CanonicalDatum::Node { tag: Sym::conformance(tag), fields };
    proof {
        if let DatumV::Node(_, f) = datum_v(r) {
            assert(f =~= seq![(csym(name@), v)]);
        }
    }
    r
}

/// Exact copies of a list of texts.
fn copy_strings(v: &Vec<String>) -> (r: Vec<String>)
    ensures
        texts(r@) == texts(v@),
{
    let mut r: Vec<String> = Vec::new();
    let mut i: usize = 0;
    while i < v.len()
        invariant
            i <= v@.len(),
            r@.len() == i,
            forall|j: int| 0 <= j < i ==> (#[trigger] r@[j])@ == v@[j]@,
        decreases v@.len() - i,
    {
        r.push(v[i].clone());
        i += 1;
    }
    assert(texts(r@) =~= texts(v@));
    r
}

impl ConstructionDisposition {
    fn datum(&self) -> (r: CanonicalDatum)
        ensures
            datum_v(r) == disposition_v(self@),
    {
        match self {
            ConstructionDisposition::Conforming { pack } => single_field_node(
                "construction-conforming-v1",
                "pack",
                pack.to_datum(),
            ),
            ConstructionDisposition::Normalize { phase, target_domain, affected_consumers, compatibility } => {
                let mut fields: Vec<(Sym, CanonicalDatum)> = Vec::new();
                fields.push(field("phase", text_datum(phase.as_str())));
                fields.push(field("target-domain", text_datum(target_domain.as_str())));
                fields.push(field("affected-consumers", strings(affected_consumers)));
                fields.push(field("compatibility", text_datum(compatibility.as_str())));
                let r = CanonicalDatum::Node { tag: Sym::conformance("construction-normalize-v1"), fields };
                proof {
                    assert(texts(affected_consumers@) =~= affected_consumers@.map_values(|s: String| s@));
                    if let DatumV::Node(_, f) = datum_v(r) {
                        assert(f =~= normalize_fields(
                            phase@,
                            target_domain@,
                            texts(affected_consumers@),
                            compatibility@,
                        ));
                    }
                }
                r
            },
            ConstructionDisposition::VerifyNativeInputOnly { reader } => single_field_node(
                "construction-verify-native-input-only-v1",
                "reader",
                text_datum(reader.as_str()),
            ),
            ConstructionDisposition::Excluded { proof } => single_field_node(
                "construction-excluded-v1",
                "proof",
                proof.to_datum(),
            ),
        }
    }

    fn funded(&self) -> (b: bool)
        ensures
            b == funded(self@),
    {
        match self {
            ConstructionDisposition::Normalize { phase, target_domain, compatibility, .. } =>
                !phase.as_str().is_empty() && !target_domain.as_str().is_empty()
                && !compatibility.as_str().is_empty(),
            ConstructionDisposition::VerifyNativeInputOnly { reader } => !reader.as_str().is_empty(),
            _ => true,
        }
    }

    /// An exact copy.
    pub fn copy(&self) -> (r: ConstructionDisposition)
        ensures
            r@ == self@,
    {
        match self {
            ConstructionDisposition::Conforming { pack } => ConstructionDisposition::Conforming {
                pack: pack.copy(),
            },
            ConstructionDisposition::Normalize { phase, target_domain, affected_consumers, compatibility } =>
                ConstructionDisposition::Normalize {
                phase: phase.clone(),
                target_domain: target_domain.clone(),
                affected_consumers: copy_strings(affected_consumers),
                compatibility: compatibility.clone(),
            },
            ConstructionDisposition::VerifyNativeInputOnly { reader } =>
                ConstructionDisposition::VerifyNativeInputOnly { reader: reader.clone() },
            ConstructionDisposition::Excluded { proof } => ConstructionDisposition::Excluded {
                proof: proof.copy(),
            },
        }
    }
}

/// Fields of a construction row's node.
pub open spec fn construction_fields(
    key: Seq<char>,
    owner: Seq<u8>,
    symbol: Seq<char>,
    constructor: Seq<u8>,
    call_sites: Seq<Seq<u8>>,
    result_type: Seq<char>,
    preimage: Seq<char>,
    use_role: IdentityRole,
    reachability: Seq<u8>,
    disposition: DispositionView,
) -> Seq<FieldV> {
    seq![
        (csym("key"@), DatumV::Text(key)),
        (csym("owner"@), id_v(owner)),
        (csym("symbol"@), DatumV::Text(symbol)),
        (csym("constructor"@), id_v(constructor)),
        (csym("call-sites"@), ids_v(call_sites)),
        (csym("result-type"@), DatumV::Text(result_type)),
        (csym("preimage"@), DatumV::Text(preimage)),
        (csym("use-role"@), DatumV::Text(role_text(use_role))),
        (csym("reachability"@), id_v(reachability)),
        (csym("disposition"@), disposition_v(disposition)),
    ]
}

/// What a construction row holds, by value.
pub struct ConstructionView {
    /// Identity.
    pub id: Seq<u8>,
    /// Register key.
    pub key: Seq<char>,
    /// Owning binding.
    pub owner: Seq<u8>,
    /// Implementation symbol.
    pub symbol: Seq<char>,
    /// Constructor definition.
    pub constructor: Seq<u8>,
    /// Reached callers.
    pub call_sites: Seq<Seq<u8>>,
    /// Result role.
    pub result_type: Seq<char>,
    /// Preimage law.
    pub preimage: Seq<char>,
    /// Actual authority role.
    pub use_role: IdentityRole,
    /// Dataflow or exclusion witness.
    pub reachability: Seq<u8>,
    /// Funded resolution.
    pub disposition: DispositionView,
}

/// One constructor family and every site supplying its preimage.
pub struct DigestConstruction {
    id: DigestConstructionId,
    /// Stable register key.
    pub key: String,
    /// Owning architecture binding.
    pub owner: OwnerBindingId,
    /// Exact implementation symbol.
    pub symbol: String,
    /// Source identity of the constructor definition.
    pub constructor: CheckedSubjectId,
    /// Source identities of all reached callers, in increasing order.
    pub call_sites: Vec<CheckedSubjectId>,
    /// Rust or wire result role.
    pub result_type: String,
    /// Complete preimage law.
    pub preimage: String,
    /// Actual authority role.
    pub use_role: IdentityRole,
    /// Dataflow or exclusion witness.
    pub reachability: CheckedSubjectId,
    /// Funded resolution.
    pub disposition: ConstructionDisposition,
}

impl View for DigestConstruction {
    type V = ConstructionView;

    closed spec fn view(&self) -> ConstructionView {
        ConstructionView {
            id: self.id@,
            key: self.key@,
            owner: self.owner@,
            symbol: self.symbol@,
            constructor: self.constructor@,
            call_sites: digests(self.call_sites@),
            result_type: self.result_type@,
            preimage: self.preimage@,
            use_role: self.use_role,
            reachability: self.reachability@,
            disposition: self.disposition@,
        }
    }
}

/// A row is refused as unfunded: an empty key, symbol, result type or
/// preimage, or an unfunded disposition.
pub open spec fn unfunded(
    key: Seq<char>,
    symbol: Seq<char>,
    result_type: Seq<char>,
    preimage: Seq<char>,
    disposition: DispositionView,
) -> bool {
    key.len() == 0 || symbol.len() == 0 || result_type.len() == 0 || preimage.len() == 0 || !funded(
        disposition,
    )
}

impl DigestConstruction {
    /// Validates and identifies a construction row: an unfunded row is
    /// refused first, then a call site listed twice; the call sites are
    /// kept in increasing order.
    pub fn new(
        key: String,
        owner: OwnerBindingId,
        symbol: String,
        constructor: CheckedSubjectId,
        call_sites: Vec<CheckedSubjectId>,
        result_type: String,
        preimage: String,
        use_role: IdentityRole,
        reachability: CheckedSubjectId,
        disposition: ConstructionDisposition,
    ) -> (r: Result<DigestConstruction, ConformanceError>)
        ensures
            unfunded(key@, symbol@, result_type@, preimage@, disposition@) ==> r == Err::<
                DigestConstruction,
                ConformanceError,
            >(ConformanceError::UnfundedConstruction(key)),
            !unfunded(key@, symbol@, result_type@, preimage@, disposition@) && !ids_distinct_of(
                call_sites@,
            ) ==> r == Err::<DigestConstruction, ConformanceError>(
                ConformanceError::DuplicateConstruction(key),
            ),
            !unfunded(key@, symbol@, result_type@, preimage@, disposition@) && ids_distinct_of(call_sites@)
                ==> match r {
                Ok(c) => c@.key == key@ && c@.owner == owner@ && c@.symbol == symbol@
                    && c@.constructor == constructor@ && sorted_set_of(c@.call_sites, digests(call_sites@))
                    && c@.result_type == result_type@ && c@.preimage == preimage@ && c@.use_role == use_role
                    && c@.reachability == reachability@ && c@.disposition == disposition@ && role_digest(
                    "digest-construction-v1"@,
                    construction_fields(
                        key@,
                        owner@,
                        symbol@,
                        constructor@,
                        c@.call_sites,
                        result_type@,
                        preimage@,
                        use_role,
                        reachability@,
                        disposition@,
                    ),
                ) == Some(c@.id),
                Err(e) => e == ConformanceError::NoncanonicalDatum && exists|s: Seq<Seq<u8>>|
                    #[trigger] sorted_set_of(s, digests(call_sites@)) && role_digest(
                        "digest-construction-v1"@,
                        construction_fields(
                            key@,
                            owner@,
                            symbol@,
                            constructor@,
                            s,
                            result_type@,
                            preimage@,
                            use_role,
                            reachability@,
                            disposition@,
                        ),
                    ) is None,
            },
    {
        if key.as_str().is_empty() || symbol.as_str().is_empty() || result_type.as_str().is_empty()
            || preimage.as_str().is_empty() {
            return Err(ConformanceError::UnfundedConstruction(key));
        }
        if !disposition.funded() {
            return Err(ConformanceError::UnfundedConstruction(key));
        }
        let (sites, distinct) = sort_ids(&call_sites);
        if !distinct {
            return Err(ConformanceError::DuplicateConstruction(key));
        }
        let ghost s = digests(sites@);
        let mut fields: Vec<(Sym, CanonicalDatum)> = Vec::new();
        fields.push(field("key", text_datum(key.as_str())));
        fields.push(field("owner", owner.to_datum()));
        fields.push(field("symbol", text_datum(symbol.as_str())));
        fields.push(field("constructor", constructor.to_datum()));
        fields.push(field("call-sites", ids(sites.as_slice())));
        fields.push(field("result-type", text_datum(result_type.as_str())));
        fields.push(field("preimage", text_datum(preimage.as_str())));
        fields.push(field("use-role", text_datum(use_role.as_str())));
        fields.push(field("reachability", reachability.to_datum()));
        fields.push(field("disposition", disposition.datum()));
        let ghost f = construction_fields(
            key@,
            owner@,
            symbol@,
            constructor@,
            s,
            result_type@,
            preimage@,
            use_role,
            reachability@,
            disposition@,
        );
        proof {
            assert(fields_v(fields@) =~= f);
            lemma_construction_names_distinct();
            let g = seq![
                (csym("key"@), DatumV::Nil),
                (csym("owner"@), DatumV::Nil),
                (csym("symbol"@), DatumV::Nil),
                (csym("constructor"@), DatumV::Nil),
                (csym("call-sites"@), DatumV::Nil),
                (csym("result-type"@), DatumV::Nil),
                (csym("preimage"@), DatumV::Nil),
                (csym("use-role"@), DatumV::Nil),
                (csym("reachability"@), DatumV::Nil),
                (csym("disposition"@), DatumV::Nil),
            ];
            assert forall|a: int, b: int| 0 <= a < b < f.len() implies #[trigger] f[a].0 != #[trigger] f[b].0 by {
                assert(g[a].0 == f[a].0 && g[b].0 == f[b].0);
            }
            assert(sorted_set_of(s, digests(call_sites@)));
        }
        let id = match SemanticId::from_fields(fields) {
            Ok(id) => id,
            Err(e) => {
                return Err(e);
            },
        };
        Ok(
            DigestConstruction {
                id,
                key,
                owner,
                symbol,
                constructor,
                call_sites: sites,
                result_type,
                preimage,
                use_role,
                reachability,
                disposition,
            },
        )
    }

    /// Returns the construction identity.
    pub fn id(&self) -> (r: &DigestConstructionId)
        ensures
            r@ == self@.id,
    {
        &self.id
    }

    /// An exact copy.
    pub fn copy(&self) -> (r: DigestConstruction)
        ensures
            r@ == self@,
    {
        let sites = crate::conformance::checker::copy_ids(&self.call_sites);
        DigestConstruction {
            id: self.id.copy(),
            key: self.key.clone(),
            owner: self.owner.copy(),
            symbol: self.symbol.clone(),
            constructor: self.constructor.copy(),
            call_sites: sites,
            result_type: self.result_type.clone(),
            preimage: self.preimage.clone(),
            use_role: self.use_role,
            reachability: self.reachability.copy(),
            disposition: self.disposition.copy(),
        }
    }
}

/// No call site is listed twice.
pub open spec fn ids_distinct_of(v: Seq<CheckedSubjectId>) -> bool {
    crate::conformance::order::ids_distinct(digests(v))
}

/// What a register holds, by value.
pub struct RegisterView {
    /// Identity.
    pub id: Seq<u8>,
    /// The rows, in order.
    pub constructions: Seq<ConstructionView>,
}

/// Complete, uniquely keyed digest-construction register.
pub struct DigestConstructionRegister {
    id: DigestConstructionRegisterId,
    /// Sorted construction rows.
    pub constructions: Vec<DigestConstruction>,
}

impl View for DigestConstructionRegister {
    type V = RegisterView;

    closed spec fn view(&self) -> RegisterView {
        RegisterView { id: self.id@, constructions: rows_v(self.constructions@) }
    }
}

/// Values of a list of rows.
pub open spec fn rows_v(v: Seq<DigestConstruction>) -> Seq<ConstructionView> {
    v.map_values(|c: DigestConstruction| c@)
}

/// Order key of a row: its register key.
pub open spec fn row_key(c: ConstructionView) -> Seq<(int, Seq<char>)> {
    seq![txt(c.key)]
}

/// Row `p` repeats the key or the constructor of an earlier row.
pub open spec fn repeats_earlier(rows: Seq<ConstructionView>, p: int) -> bool {
    exists|q: int| 0 <= q < p && (rows[q].key == rows[p].key || rows[q].constructor == rows[p].constructor)
}

/// Fields of a register's node.
pub open spec fn register_fields(rows: Seq<ConstructionView>) -> Seq<FieldV> {
    seq![(csym("constructions"@), ids_v(rows.map_values(|c: ConstructionView| c.id)))]
}

/// What a register made from the rows in the given order answers: the first
/// row repeating an earlier key or constructor is refused by its key;
/// otherwise the rows are identified together.
pub open spec fn register_outcome(sorted: Seq<ConstructionView>, r: Result<DigestConstructionRegister, ConformanceError>) -> bool {
    if exists|p: int| 0 <= p < sorted.len() && #[trigger] repeats_earlier(sorted, p) {
        exists|p: int|
            0 <= p < sorted.len() && #[trigger] repeats_earlier(sorted, p) && (forall|q: int|
                0 <= q < p ==> !repeats_earlier(sorted, q)) && (r matches Err(
                ConformanceError::DuplicateConstruction(m),
            ) && m@ == sorted[p].key)
    } else {
        match r {
            Ok(reg) => reg@.constructions == sorted && role_digest(
                "digest-register-v1"@,
                register_fields(sorted),
            ) == Some(reg@.id),
            Err(e) => e == ConformanceError::NoncanonicalDatum && role_digest(
                "digest-register-v1"@,
                register_fields(sorted),
            ) is None,
        }
    }
}

/// The rows taken in the given order.
pub open spec fn arranged(rows: Seq<ConstructionView>, order: Seq<usize>) -> Seq<ConstructionView> {
    Seq::new(order.len(), |p: int| rows[order[p] as int])
}

/// Register keys of a list of rows.
pub open spec fn row_keys(rows: Seq<ConstructionView>) -> Seq<Seq<(int, Seq<char>)>> {
    rows.map_values(|c: ConstructionView| row_key(c))
}

/// What [`DigestConstructionRegister::new`] answers for the given rows: the
/// outcome for the rows ordered by key, rows with equal keys in their given
/// order.
pub open spec fn register_result(rows: Seq<ConstructionView>, r: Result<DigestConstructionRegister, ConformanceError>) -> bool {
    exists|order: Seq<usize>|
        #[trigger] is_permutation(order, rows.len() as int) && nondecreasing(permuted(row_keys(rows), order))
            && register_outcome(arranged(rows, order), r)
}

/// Two answers of register construction say the same: the same register,
/// the same repeated key, or the same refusal.
pub open spec fn same_register_result(
    a: Result<DigestConstructionRegister, ConformanceError>,
    b: Result<DigestConstructionRegister, ConformanceError>,
) -> bool {
    match (a, b) {
        (Ok(x), Ok(y)) => x@ == y@,
        (Err(ConformanceError::DuplicateConstruction(m)), Err(ConformanceError::DuplicateConstruction(n))) => m@ == n@,
        (Err(ConformanceError::NoncanonicalDatum), Err(ConformanceError::NoncanonicalDatum)) => true,
        _ => false,
    }
}

/// Where no two rows share a key, a register does not depend on the order
/// its rows are handed in: for any reordering of the rows, construction
/// answers the same.
pub proof fn lemma_register_order_free(
    rows: Seq<ConstructionView>,
    perm: Seq<usize>,
    a: Result<DigestConstructionRegister, ConformanceError>,
    b: Result<DigestConstructionRegister, ConformanceError>,
)
    requires
        forall|i: int, j: int| 0 <= i < j < rows.len() ==> #[trigger] rows[i].key != #[trigger] rows[j].key,
        is_permutation(perm, rows.len() as int),
        register_result(rows, a),
        register_result(arranged(rows, perm), b),
    ensures
        same_register_result(a, b),
{
    let n = rows.len() as int;
    let q = arranged(rows, perm);
    let oa = choose|order: Seq<usize>|
        #[trigger] is_permutation(order, n) && nondecreasing(permuted(row_keys(rows), order))
            && register_outcome(arranged(rows, order), a);
    let ob = choose|order: Seq<usize>|
        #[trigger] is_permutation(order, n) && nondecreasing(permuted(row_keys(q), order))
            && register_outcome(arranged(q, order), b);
    let k = row_keys(rows);
    assert(keys_distinct(k)) by {
        assert forall|i: int, j: int| 0 <= i < j < k.len() implies #[trigger] k[i] != #[trigger] k[j] by {
            assert(rows[i].key != rows[j].key);
            assert(k[i][0] == txt(rows[i].key) && k[j][0] == txt(rows[j].key));
        }
    }
    let c = compose(perm, ob);
    lemma_compose_permutation(perm, ob, n);
    assert(permuted(k, c) =~= permuted(row_keys(q), ob));
    lemma_sorting_order_unique(k, oa, c);
    let s = arranged(rows, oa);
    assert(arranged(q, ob) =~= s);
    lemma_register_outcome_unique(s, a, b);
}

/// The outcome for a given ordering of the rows is one answer only.
proof fn lemma_register_outcome_unique(
    s: Seq<ConstructionView>,
    a: Result<DigestConstructionRegister, ConformanceError>,
    b: Result<DigestConstructionRegister, ConformanceError>,
)
    requires
        register_outcome(s, a),
        register_outcome(s, b),
    ensures
        same_register_result(a, b),
{
    if exists|p: int| 0 <= p < s.len() && #[trigger] repeats_earlier(s, p) {
        let pa = choose|p: int|
            0 <= p < s.len() && #[trigger] repeats_earlier(s, p) && (forall|q: int|
                0 <= q < p ==> !repeats_earlier(s, q)) && (a matches Err(
                ConformanceError::DuplicateConstruction(m),
            ) && m@ == s[p].key);
        let pb = choose|p: int|
            0 <= p < s.len() && #[trigger] repeats_earlier(s, p) && (forall|q: int|
                0 <= q < p ==> !repeats_earlier(s, q)) && (b matches Err(
                ConformanceError::DuplicateConstruction(m),
            ) && m@ == s[p].key);
        assert(pa == pb) by {
            if pa < pb {
                assert(!repeats_earlier(s, pa));
            } else if pb < pa {
                assert(!repeats_earlier(s, pb));
            }
        }
    }
}

impl DigestConstructionRegister {
    /// Orders the rows by key (rows with equal keys keep their order),
    /// refuses the first row that repeats an earlier key or constructor,
    /// and identifies the register.
    pub fn new(constructions: Vec<DigestConstruction>) -> (r: Result<DigestConstructionRegister, ConformanceError>)
        ensures
            register_result(rows_v(constructions@), r),
    {
        let ghost rows = rows_v(constructions@);
        let ghost ku = rows.map_values(|c: ConstructionView| row_key(c));
        let mut keys: Vec<Vec<KeyAtom>> = Vec::new();
        let mut i: usize = 0;
        while i < constructions.len()
            invariant
                i <= constructions@.len(),
                rows == rows_v(constructions@),
                ku == rows.map_values(|c: ConstructionView| row_key(c)),
                keys@.len() == i,
                forall|j: int| 0 <= j < i ==> atoms((#[trigger] keys@[j])@) == ku[j],
            decreases constructions@.len() - i,
        {
            keys.push(text_key(constructions[i].key.as_str()));
            proof {
                assert(rows[i as int] == constructions@[i as int]@);
            }
            i += 1;
        }
        assert(key_values(keys@) =~= ku);
        let order = sort_by_keys(&keys);
        let ghost sorted = Seq::new(order@.len(), |p: int| constructions@[order@[p] as int]@);
        let mut rows_sorted: Vec<DigestConstruction> = Vec::new();
        let mut p: usize = 0;
        while p < order.len()
            invariant
                p <= order@.len(),
                is_permutation(order@, constructions@.len() as int),
                sorted == Seq::new(order@.len(), |p: int| constructions@[order@[p] as int]@),
                rows_sorted@.len() == p,
                forall|q: int| 0 <= q < p ==> (#[trigger] rows_sorted@[q])@ == sorted[q],
            decreases order@.len() - p,
        {
            rows_sorted.push(constructions[order[p]].copy());
            p += 1;
        }
        assert(rows_v(rows_sorted@) =~= sorted);
        let mut k: usize = 0;
        while k < rows_sorted.len()
            invariant
                k <= rows_sorted@.len(),
                rows_v(rows_sorted@) == sorted,
                is_permutation(order@, constructions@.len() as int),
                nondecreasing(permuted(ku, order@)),
                ku == rows_v(constructions@).map_values(|c: ConstructionView| row_key(c)),
                sorted == Seq::new(order@.len(), |p: int| constructions@[order@[p] as int]@),
                forall|q: int| 0 <= q < k ==> !#[trigger] repeats_earlier(sorted, q),
            decreases rows_sorted@.len() - k,
        {
            let mut q: usize = 0;
            while q < k
                invariant
                    q <= k < rows_sorted@.len(),
                    rows_v(rows_sorted@) == sorted,
                    is_permutation(order@, constructions@.len() as int),
                    nondecreasing(permuted(ku, order@)),
                    ku == rows_v(constructions@).map_values(|c: ConstructionView| row_key(c)),
                    sorted == Seq::new(order@.len(), |p: int| constructions@[order@[p] as int]@),
                    forall|x: int| 0 <= x < k ==> !#[trigger] repeats_earlier(sorted, x),
                    forall|j: int| 0 <= j < q ==> !(sorted[j].key == sorted[k as int].key
                        || sorted[j].constructor == sorted[k as int].constructor),
                decreases k - q,
            {
                assert(sorted[q as int] == rows_sorted@[q as int]@);
                assert(sorted[k as int] == rows_sorted@[k as int]@);
                if str_eq(rows_sorted[q].key.as_str(), rows_sorted[k].key.as_str())
                    || rows_sorted[q].constructor.same(&rows_sorted[k].constructor) {
                    let m = rows_sorted[k].key.clone();
                    proof {
                        assert(repeats_earlier(sorted, k as int));
                        assert(m@ == sorted[k as int].key);
                        assert(register_outcome(sorted, Err(ConformanceError::DuplicateConstruction(m))));
                        assert(sorted =~= arranged(rows_v(constructions@), order@));
                    }
                    return Err(ConformanceError::DuplicateConstruction(m));
                }
                q += 1;
            }
            assert(!repeats_earlier(sorted, k as int));
            k += 1;
        }
        let mut row_ids: Vec<DigestConstructionId> = Vec::new();
        let mut j: usize = 0;
        while j < rows_sorted.len()
            invariant
                j <= rows_sorted@.len(),
                row_ids@.len() == j,
                forall|x: int| 0 <= x < j ==> (#[trigger] row_ids@[x])@ == rows_sorted@[x]@.id,
            decreases rows_sorted@.len() - j,
        {
            row_ids.push(rows_sorted[j].id().copy());
            j += 1;
        }
        let mut fields: Vec<(Sym, CanonicalDatum)> = Vec::new();
        fields.push(field("constructions", ids(row_ids.as_slice())));
        proof {
            assert(digests(row_ids@) =~= sorted.map_values(|c: ConstructionView| c.id));
            assert(fields_v(fields@) =~= register_fields(sorted));
            assert(names_distinct(fields_v(fields@)));
            assert(!exists|p: int| 0 <= p < sorted.len() && #[trigger] repeats_earlier(sorted, p));
            assert(is_permutation(order@, constructions@.len() as int));
            assert(sorted =~= arranged(rows_v(constructions@), order@));
        }
        let id = match SemanticId::from_fields(fields) {
            Ok(id) => id,
            Err(e) => {
                return Err(e);
            },
        };
        Ok(DigestConstructionRegister { id, constructions: rows_sorted })
    }

    /// Returns the register identity.
    pub fn id(&self) -> (r: &DigestConstructionRegisterId)
        ensures
            r@ == self@.id,
    {
        &self.id
    }
}

proof fn lemma_construction_names_distinct()
    ensures
        names_distinct(seq![
        (csym("key"@), DatumV::Nil),
        (csym("owner"@), DatumV::Nil),
        (csym("symbol"@), DatumV::Nil),
        (csym("constructor"@), DatumV::Nil),
        (csym("call-sites"@), DatumV::Nil),
        (csym("result-type"@), DatumV::Nil),
        (csym("preimage"@), DatumV::Nil),
        (csym("use-role"@), DatumV::Nil),
        (csym("reachability"@), DatumV::Nil),
        (csym("disposition"@), DatumV::Nil),
        ]),
{
    reveal_strlit("key");
    reveal_strlit("owner");
    reveal_strlit("symbol");
    reveal_strlit("constructor");
    reveal_strlit("call-sites");
    reveal_strlit("result-type");
    reveal_strlit("preimage");
    reveal_strlit("use-role");
    reveal_strlit("reachability");
    reveal_strlit("disposition");
    let g = seq![
        (csym("key"@), DatumV::Nil),
        (csym("owner"@), DatumV::Nil),
        (csym("symbol"@), DatumV::Nil),
        (csym("constructor"@), DatumV::Nil),
        (csym("call-sites"@), DatumV::Nil),
        (csym("result-type"@), DatumV::Nil),
        (csym("preimage"@), DatumV::Nil),
        (csym("use-role"@), DatumV::Nil),
        (csym("reachability"@), DatumV::Nil),
        (csym("disposition"@), DatumV::Nil),
    ];
    assert forall|x: int, y: int| 0 <= x < y < g.len() implies #[trigger] g[x].0 != #[trigger] g[y].0 by {
        if x == 0 && y == 1 {
            assert("key"@.len() != "owner"@.len());
        }
        if x == 0 && y == 2 {
            assert("key"@.len() != "symbol"@.len());
        }
        if x == 0 && y == 3 {
            assert("key"@.len() != "constructor"@.len());
        }
        if x == 0 && y == 4 {
            assert("key"@.len() != "call-sites"@.len());
        }
        if x == 0 && y == 5 {
            assert("key"@.len() != "result-type"@.len());
        }
        if x == 0 && y == 6 {
            assert("key"@.len() != "preimage"@.len());
        }
        if x == 0 && y == 7 {
            assert("key"@.len() != "use-role"@.len());
        }
        if x == 0 && y == 8 {
            assert("key"@.len() != "reachability"@.len());
        }
        if x == 0 && y == 9 {
            assert("key"@.len() != "disposition"@.len());
        }
        if x == 1 && y == 2 {
            assert("owner"@.len() != "symbol"@.len());
        }
        if x == 1 && y == 3 {
            assert("owner"@.len() != "constructor"@.len());
        }
        if x == 1 && y == 4 {
            assert("owner"@.len() != "call-sites"@.len());
        }
        if x == 1 && y == 5 {
            assert("owner"@.len() != "result-type"@.len());
        }
        if x == 1 && y == 6 {
            assert("owner"@.len() != "preimage"@.len());
        }
        if x == 1 && y == 7 {
            assert("owner"@.len() != "use-role"@.len());
        }
        if x == 1 && y == 8 {
            assert("owner"@.len() != "reachability"@.len());
        }
        if x == 1 && y == 9 {
            assert("owner"@.len() != "disposition"@.len());
        }
        if x == 2 && y == 3 {
            assert("symbol"@.len() != "constructor"@.len());
        }
        if x == 2 && y == 4 {
            assert("symbol"@.len() != "call-sites"@.len());
        }
        if x == 2 && y == 5 {
            assert("symbol"@.len() != "result-type"@.len());
        }
        if x == 2 && y == 6 {
            assert("symbol"@.len() != "preimage"@.len());
        }
        if x == 2 && y == 7 {
            assert("symbol"@.len() != "use-role"@.len());
        }
        if x == 2 && y == 8 {
            assert("symbol"@.len() != "reachability"@.len());
        }
        if x == 2 && y == 9 {
            assert("symbol"@.len() != "disposition"@.len());
        }
        if x == 3 && y == 4 {
            assert("constructor"@.len() != "call-sites"@.len());
        }
        if x == 3 && y == 5 {
            assert("constructor"@[0] != "result-type"@[0]);
        }
        if x == 3 && y == 6 {
            assert("constructor"@.len() != "preimage"@.len());
        }
        if x == 3 && y == 7 {
            assert("constructor"@.len() != "use-role"@.len());
        }
        if x == 3 && y == 8 {
            assert("constructor"@.len() != "reachability"@.len());
        }
        if x == 3 && y == 9 {
            assert("constructor"@[0] != "disposition"@[0]);
        }
        if x == 4 && y == 5 {
            assert("call-sites"@.len() != "result-type"@.len());
        }
        if x == 4 && y == 6 {
            assert("call-sites"@.len() != "preimage"@.len());
        }
        if x == 4 && y == 7 {
            assert("call-sites"@.len() != "use-role"@.len());
        }
        if x == 4 && y == 8 {
            assert("call-sites"@.len() != "reachability"@.len());
        }
        if x == 4 && y == 9 {
            assert("call-sites"@.len() != "disposition"@.len());
        }
        if x == 5 && y == 6 {
            assert("result-type"@.len() != "preimage"@.len());
        }
        if x == 5 && y == 7 {
            assert("result-type"@.len() != "use-role"@.len());
        }
        if x == 5 && y == 8 {
            assert("result-type"@.len() != "reachability"@.len());
        }
        if x == 5 && y == 9 {
            assert("result-type"@[0] != "disposition"@[0]);
        }
        if x == 6 && y == 7 {
            assert("preimage"@[0] != "use-role"@[0]);
        }
        if x == 6 && y == 8 {
            assert("preimage"@.len() != "reachability"@.len());
        }
        if x == 6 && y == 9 {
            assert("preimage"@.len() != "disposition"@.len());
        }
        if x == 7 && y == 8 {
            assert("use-role"@.len() != "reachability"@.len());
        }
        if x == 7 && y == 9 {
            assert("use-role"@.len() != "disposition"@.len());
        }
        if x == 8 && y == 9 {
            assert("reachability"@.len() != "disposition"@.len());
        }
    }
}

} // verus!
