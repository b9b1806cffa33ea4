//! Role-safe semantic identities and opaque byte addresses.
//!
//! A semantic id is the kernel content digest of a tagged node whose tag
//! names the id's role (`conformance/<role>`), so ids of different roles are
//! different types and never convert into each other. A storage id addresses
//! exact bytes by their SHA-256 digest and cannot become a semantic id.

use vstd::prelude::*;

use crate::conformance::datum::{
    CanonicalDatum, DatumV, Sym, csym, datum_digest, datum_v, kernel_digest, sha256_digest,
    sha256_spec, sym_v,
};
use crate::conformance::graph::ConformanceError;
use crate::text::{chars_of, str_eq, text};

verus! {

/// Declares the canonical node tag of a semantic id role.
pub trait IdKind {
    /// The role's tag name in the `conformance` namespace.
    spec fn domain_name() -> Seq<char>;

    /// The role's tag name.
    fn domain() -> (s: &'static str)
        ensures
            s@ == Self::domain_name(),
    ;
}

/// A content identity: an algorithm symbol and a 32-byte digest.
#[derive(Clone, Debug, PartialEq, Eq)]
pub struct ContentDigest {
    /// The algorithm that produced the digest.
    pub algorithm: Sym,
    /// The digest.
    pub bytes: [u8; 32],
}

/// The kernel datum content algorithm, `core/sha256-datum-v1`.
pub open spec fn datum_algorithm() -> (Option<Seq<char>>, Seq<char>) {
    (Some("core"@), "sha256-datum-v1"@)
}

/// The storage byte algorithm, `storage/sha256-bytes-v1`.
pub open spec fn storage_algorithm() -> (Option<Seq<char>>, Seq<char>) {
    (Some("storage"@), "sha256-bytes-v1"@)
}

/// Value of the canonical datum of a content identity.
pub open spec fn content_v(algorithm: (Option<Seq<char>>, Seq<char>), digest: Seq<u8>) -> DatumV {
    DatumV::Node(
        csym("content-id-v1"@),
        seq![(csym("algorithm"@), DatumV::Symbol(algorithm)), (csym("digest"@), DatumV::Bytes(digest))],
    )
}

/// Value of the datum of a semantic id with the given digest.
pub open spec fn id_v(digest: Seq<u8>) -> DatumV {
    content_v(datum_algorithm(), digest)
}

/// Value of a vector of semantic id datums.
pub open spec fn ids_v(digests: Seq<Seq<u8>>) -> DatumV {
    DatumV::Vector(digests.map_values(|d: Seq<u8>| id_v(d)))
}

/// Value of a vector of text datums.
pub open spec fn strings_v(texts: Seq<Seq<char>>) -> DatumV {
    DatumV::Vector(texts.map_values(|t: Seq<char>| DatumV::Text(t)))
}

/// Values of a list of named fields.
pub open spec fn fields_v(f: Seq<(Sym, CanonicalDatum)>) -> Seq<((Option<Seq<char>>, Seq<char>), DatumV)> {
    Seq::new(
        f.len(),
        |i: int|
            if 0 <= i < f.len() {
                (sym_v(f[i].0), datum_v(f[i].1))
            } else {
                ((None, Seq::empty()), DatumV::Nil)
            },
    )
}

/// The field names of a list of field values are pairwise different.
pub open spec fn names_distinct(f: Seq<((Option<Seq<char>>, Seq<char>), DatumV)>) -> bool {
    forall|a: int, b: int| 0 <= a < b < f.len() ==> #[trigger] f[a].0 != #[trigger] f[b].0
}

/// The kernel digest of the role node with the given fields.
pub open spec fn role_digest(domain: Seq<char>, f: Seq<((Option<Seq<char>>, Seq<char>), DatumV)>) -> Option<
    Seq<u8>,
> {
    kernel_digest(DatumV::Node(csym(domain), f))
}

/// The character is a control character (general category Cc).
pub open spec fn is_control(c: char) -> bool {
    (c as u32) <= 0x1f || (0x7f <= (c as u32) && (c as u32) <= 0x9f)
}

/// Decides [`is_control`].
pub fn is_control_char(c: char) -> (b: bool)
    ensures
        b == is_control(c),
{
    let n = c as u32;
    n <= 0x1f || (0x7f <= n && n <= 0x9f)
}

/// Some character of the text is a control character.
pub open spec fn has_control(s: Seq<char>) -> bool {
    exists|i: int| 0 <= i < s.len() && is_control(#[trigger] s[i])
}

/// Decides [`has_control`].
pub fn contains_control(s: &str) -> (b: bool)
    ensures
        b == has_control(s@),
{
    let cs = chars_of(s);
    let mut i: usize = 0;
    while i < cs.len()
        invariant
            i <= cs@.len(),
            cs@ == s@,
            forall|j: int| 0 <= j < i ==> !is_control(#[trigger] s@[j]),
        decreases cs@.len() - i,
    {
        if is_control_char(cs[i]) {
            assert(is_control(s@[i as int]));
            return true;
        }
        i += 1;
    }
    false
}

/// Number of UTF-8 bytes of a text.
pub open spec fn byte_len(s: Seq<char>) -> nat {
    vstd::utf8::encode_utf8(s).len()
}

/// The `conformance/<name>` field holding a value.
pub fn field(name: &str, value: CanonicalDatum) -> (r: (Sym, CanonicalDatum))
    ensures
        sym_v(r.0) == csym(name@),
        r.1 == value,
{
    (Sym::conformance(name), value)
}

/// A text datum.
pub fn text_datum(s: &str) -> (r: CanonicalDatum)
    ensures
        datum_v(r) == DatumV::Text(s@),
{
    CanonicalDatum::Text(text(s))
}

/// A vector of text datums.
pub fn strings(values: &Vec<String>) -> (r: CanonicalDatum)
    ensures
        datum_v(r) == strings_v(values@.map_values(|s: String| s@)),
{
    let mut items: Vec<CanonicalDatum> = Vec::new();
    let mut i: usize = 0;
    while i < values.len()
        invariant
            i <= values@.len(),
            items@.len() == i,
            forall|j: int| 0 <= j < i ==> datum_v(#[trigger] items@[j]) == DatumV::Text(values@[j]@),
        decreases values@.len() - i,
    {
        items.push(CanonicalDatum::Text(values[i].clone()));
        i += 1;
    }
    let r = CanonicalDatum::Vector(items);
    proof {
        if let DatumV::Vector(s) = datum_v(r) {
            assert(s =~= values@.map_values(|s: String| s@).map_values(|t: Seq<char>| DatumV::Text(t)));
        }
    }
    r
}

/// Values of a list of semantic ids.
pub open spec fn digests<K: IdKind>(v: Seq<SemanticId<K>>) -> Seq<Seq<u8>> {
    v.map_values(|x: SemanticId<K>| x@)
}

/// A vector of semantic id datums.
pub fn ids<K: IdKind>(values: &[SemanticId<K>]) -> (r: CanonicalDatum)
    ensures
        datum_v(r) == ids_v(digests(values@)),
{
    let mut items: Vec<CanonicalDatum> = Vec::new();
    let mut i: usize = 0;
    while i < values.len()
        invariant
            i <= values@.len(),
            items@.len() == i,
            forall|j: int| 0 <= j < i ==> datum_v(#[trigger] items@[j]) == id_v(values@[j]@),
        decreases values@.len() - i,
    {
        items.push(values[i].to_datum());
        i += 1;
    }
    let r = CanonicalDatum::Vector(items);
    proof {
        if let DatumV::Vector(s) = datum_v(r) {
            assert(s =~= digests(values@).map_values(|d: Seq<u8>| id_v(d)));
        }
    }
    r
}

/// The canonical datum of a content identity.
pub fn content_id_datum(id: &ContentDigest) -> (r: CanonicalDatum)
    ensures
        datum_v(r) == content_v(sym_v(id.algorithm), id.bytes@),
{
    let mut fields: Vec<(Sym, CanonicalDatum)> = Vec::new();
    let a = CanonicalDatum::Symbol(id.algorithm.copy());
    let b = CanonicalDatum::Bytes(vstd::slice::slice_to_vec(id.bytes.as_slice()));
    assert(datum_v(a) == DatumV::Symbol(sym_v(id.algorithm)));
    assert(datum_v(b) == DatumV::Bytes(id.bytes@));
    fields.push(field("algorithm", a));
    fields.push(field("digest", b));
    let r = CanonicalDatum::Node { tag: Sym::conformance("content-id-v1"), fields };
    proof {
        if let DatumV::Node(t, s) = datum_v(r) {
            assert(s.len() == 2);
            assert(s[0] == (csym("algorithm"@), DatumV::Symbol(sym_v(id.algorithm))));
            assert(s[1] == (csym("digest"@), DatumV::Bytes(id.bytes@)));
            assert(s =~= seq![
                (csym("algorithm"@), DatumV::Symbol(sym_v(id.algorithm))),
                (csym("digest"@), DatumV::Bytes(id.bytes@)),
            ]);
        }
    }
    r
}

/// Renders a symbol as `namespace/name`, or `name` when unqualified.
pub fn qualified_text(s: &Sym) -> (r: String)
    ensures
        r@ == (match sym_v(*s).0 {
            Some(n) => n + "/"@ + sym_v(*s).1,
            None => sym_v(*s).1,
        }),
{
    match &s.namespace {
        Some(n) => crate::text::concat3(n.as_str(), "/", s.name.as_str()),
        None => s.name.clone(),
    }
}

/// A role-safe semantic identity: the kernel digest of a role node.
pub struct SemanticId<K: IdKind> {
    digest: [u8; 32],
    marker: std::marker::PhantomData<K>,
}

impl<K: IdKind> View for SemanticId<K> {
    type V = Seq<u8>;

    closed spec fn view(&self) -> Seq<u8> {
        self.digest@
    }
}

impl<K: IdKind> SemanticId<K> {
    /// Identifies one bounded text value: the text must be non-empty, at
    /// most 16 KiB of UTF-8 and free of control characters.
    pub fn from_text(value: &str) -> (r: Result<SemanticId<K>, ConformanceError>)
        ensures
            (value.len() == 0 || value.len() > 16_384 || has_control(value@)) ==> r
                == Err::<SemanticId<K>, ConformanceError>(
                ConformanceError::BoundExceeded("semantic id text"),
            ),
            !(value.len() == 0 || value.len() > 16_384 || has_control(value@)) ==> (match r {
                Ok(id) => role_digest(K::domain_name(), seq![(csym("value"@), DatumV::Text(value@))])
                    == Some(id@),
                Err(e) => e == ConformanceError::NoncanonicalDatum && role_digest(
                    K::domain_name(),
                    seq![(csym("value"@), DatumV::Text(value@))],
                ) is None,
            }),
    {
        if value.len() == 0 || value.len() > 16_384 || contains_control(value) {
            return Err(ConformanceError::BoundExceeded("semantic id text"));
        }
        let mut fields: Vec<(Sym, CanonicalDatum)> = Vec::new();
        fields.push(field("value", text_datum(value)));
        proof {
            assert(fields_v(fields@) =~= seq![(csym("value"@), DatumV::Text(value@))]);
            assert(names_distinct(fields_v(fields@)));
        }
        Self::from_fields(fields)
    }

    /// Identifies the complete ordered fields of the role's node. Repeated
    /// field names are refused, reporting the first repeated one.
    pub fn from_fields(fields: Vec<(Sym, CanonicalDatum)>) -> (r: Result<
        SemanticId<K>,
        ConformanceError,
    >)
        ensures
            !names_distinct(fields_v(fields@)) ==> (r matches Err(ConformanceError::DuplicateField(_))),
            names_distinct(fields_v(fields@)) ==> (match r {
                Ok(id) => role_digest(K::domain_name(), fields_v(fields@)) == Some(id@),
                Err(e) => e == ConformanceError::NoncanonicalDatum && role_digest(
                    K::domain_name(),
                    fields_v(fields@),
                ) is None,
            }),
    {
        reject_duplicate_fields(&fields)?;
        let ghost fv = fields_v(fields@);
        let node = CanonicalDatum::Node { tag: Sym::conformance(K::domain()), fields };
        proof {
            if let DatumV::Node(t, s) = datum_v(node) {
                assert(s =~= fv);
            }
        }
        match datum_digest(&node) {
            Some(b) => Ok(SemanticId { digest: b, marker: std::marker::PhantomData }),
            None => Err(ConformanceError::NoncanonicalDatum),
        }
    }

    /// Recomputes this role's id from a datum, which must be a node with the
    /// role's exact tag.
    pub fn from_datum(datum: &CanonicalDatum) -> (r: Result<SemanticId<K>, ConformanceError>)
        ensures
            match datum_v(*datum) {
                DatumV::Node(t, f) => if t == csym(K::domain_name()) {
                    &&& !names_distinct(f) ==> (r matches Err(ConformanceError::DuplicateField(_)))
                    &&& names_distinct(f) ==> (match r {
                        Ok(id) => role_digest(K::domain_name(), f) == Some(id@),
                        Err(e) => e == ConformanceError::NoncanonicalDatum && role_digest(
                            K::domain_name(),
                            f,
                        ) is None,
                    })
                } else {
                    r == Err::<SemanticId<K>, ConformanceError>(ConformanceError::WrongIdentityDomain)
                },
                _ => r == Err::<SemanticId<K>, ConformanceError>(ConformanceError::WrongIdentityDomain),
            },
    {
        match datum {
            CanonicalDatum::Node { tag, fields } => {
                let domain = K::domain();
                let same_tag = match &tag.namespace {
                    Some(n) => str_eq(n.as_str(), "conformance") && str_eq(tag.name.as_str(), domain),
                    None => false,
                };
                if !same_tag {
                    return Err(ConformanceError::WrongIdentityDomain);
                }
                let copied = copy_fields(fields);
                proof {
                    if let DatumV::Node(t, f) = datum_v(*datum) {
                        assert(f =~= fields_v(copied@));
                    }
                }
                Self::from_fields(copied)
            },
            _ => Err(ConformanceError::WrongIdentityDomain),
        }
    }

    /// The kernel content identity of this id.
    pub fn content_id(&self) -> (r: ContentDigest)
        ensures
            sym_v(r.algorithm) == datum_algorithm(),
            r.bytes@ == self@,
    {
        ContentDigest { algorithm: Sym::qualified("core", "sha256-datum-v1"), bytes: self.digest }
    }

    /// Projects the id into a canonical datum field.
    pub fn to_datum(&self) -> (r: CanonicalDatum)
        ensures
            datum_v(r) == id_v(self@),
    {
        content_id_datum(&self.content_id())
    }

    /// Whether two ids of this role are the same.
    pub fn same(&self, other: &SemanticId<K>) -> (b: bool)
        ensures
            b == (self@ == other@),
    {
        let mut i: usize = 0;
        while i < 32
            invariant
                i <= 32,
                forall|j: int| 0 <= j < i ==> self.digest@[j] == other.digest@[j],
            decreases 32 - i,
        {
            if self.digest[i] != other.digest[i] {
                assert(self.digest@[i as int] != other.digest@[i as int]);
                return false;
            }
            i += 1;
        }
        assert(self.digest@ =~= other.digest@);
        true
    }

    /// The digest bytes.
    pub fn digest_bytes(&self) -> (r: [u8; 32])
        ensures
            r@ == self@,
    {
        self.digest
    }

    /// An exact copy.
    pub fn copy(&self) -> (r: SemanticId<K>)
        ensures
            r@ == self@,
    {
        SemanticId { digest: self.digest, marker: std::marker::PhantomData }
    }
}

fn copy_fields(f: &Vec<(Sym, CanonicalDatum)>) -> (r: Vec<(Sym, CanonicalDatum)>)
    ensures
        fields_v(r@) == fields_v(f@),
{
    let mut r: Vec<(Sym, CanonicalDatum)> = Vec::new();
    let mut i: usize = 0;
    while i < f.len()
        invariant
            i <= f@.len(),
            r@.len() == i,
            forall|j: int| 0 <= j < i ==> sym_v((#[trigger] r@[j]).0) == sym_v(f@[j].0) && datum_v(
                r@[j].1,
            ) == datum_v(f@[j].1),
        decreases f@.len() - i,
    {
        r.push((f[i].0.copy(), f[i].1.copy()));
        i += 1;
    }
    assert(fields_v(r@) =~= fields_v(f@));
    r
}

impl CanonicalDatum {
    /// A copy with the same value.
    pub fn copy(&self) -> (r: CanonicalDatum)
        ensures
            datum_v(r) == datum_v(*self),
        decreases self,
    {
        match self {
            CanonicalDatum::Nil => CanonicalDatum::Nil,
            CanonicalDatum::Symbol(s) => CanonicalDatum::Symbol(s.copy()),
            CanonicalDatum::Text(s) => CanonicalDatum::Text(s.clone()),
            CanonicalDatum::Bytes(b) => CanonicalDatum::Bytes(vstd::slice::slice_to_vec(b.as_slice())),
            CanonicalDatum::Vector(v) => {
                let mut out: Vec<CanonicalDatum> = Vec::new();
                let mut i: usize = 0;
                while i < v.len()
                    invariant
                        i <= v@.len(),
                        *self == CanonicalDatum::Vector(*v),
                        out@.len() == i,
                        forall|j: int| 0 <= j < i ==> datum_v(#[trigger] out@[j]) == datum_v(v@[j]),
                    decreases v@.len() - i,
                {
                    assert(decreases_to!(*self => (*self)->Vector_0));
                    assert(decreases_to!((*self)->Vector_0 => ((*self)->Vector_0)@));
                    assert(decreases_to!(((*self)->Vector_0)@ => ((*self)->Vector_0)@[i as int]));
                    out.push(v[i].copy());
                    i += 1;
                }
                let r = CanonicalDatum::Vector(out);
                proof {
                    if let (DatumV::Vector(a), DatumV::Vector(b)) = (datum_v(r), datum_v(*self)) {
                        assert(a =~= b);
                    }
                }
                r
            },
            CanonicalDatum::Node { tag, fields } => {
                let mut out: Vec<(Sym, CanonicalDatum)> = Vec::new();
                let mut i: usize = 0;
                while i < fields.len()
                    invariant
                        i <= fields@.len(),
                        *self == (CanonicalDatum::Node { tag: *tag, fields: *fields }),
                        out@.len() == i,
                        forall|j: int|
                            0 <= j < i ==> sym_v((#[trigger] out@[j]).0) == sym_v(fields@[j].0)
                                && datum_v(out@[j].1) == datum_v(fields@[j].1),
                    decreases fields@.len() - i,
                {
                    assert(decreases_to!(*self => (*self)->fields));
                    assert(decreases_to!((*self)->fields => ((*self)->fields)@));
                    assert(decreases_to!(((*self)->fields)@ => ((*self)->fields)@[i as int]));
                    assert(decreases_to!(((*self)->fields)@[i as int] => ((*self)->fields)@[i as int].1));
                    out.push((fields[i].0.copy(), fields[i].1.copy()));
                    i += 1;
                }
                let r = CanonicalDatum::Node { tag: tag.copy(), fields: out };
                proof {
                    if let (DatumV::Node(_, a), DatumV::Node(_, b)) = (datum_v(r), datum_v(*self)) {
                        assert(a =~= b);
                    }
                }
                r
            },
        }
    }
}

/// Refuses the first field name that repeats an earlier one.
fn reject_duplicate_fields(fields: &Vec<(Sym, CanonicalDatum)>) -> (r: Result<(), ConformanceError>)
    ensures
        r is Ok <==> names_distinct(fields_v(fields@)),
        r is Err ==> r matches Err(ConformanceError::DuplicateField(_)),
{
    let ghost fv = fields_v(fields@);
    let mut j: usize = 0;
    while j < fields.len()
        invariant
            j <= fields@.len(),
            fv == fields_v(fields@),
            forall|a: int, b: int| 0 <= a < b < j ==> #[trigger] fv[a].0 != #[trigger] fv[b].0,
        decreases fields@.len() - j,
    {
        let mut i: usize = 0;
        while i < j
            invariant
                i <= j < fields@.len(),
                fv == fields_v(fields@),
                forall|a: int| 0 <= a < i ==> fv[a].0 != fv[j as int].0,
            decreases j - i,
        {
            if same_sym(&fields[i].0, &fields[j].0) {
                assert(fv[i as int].0 == fv[j as int].0);
                return Err(ConformanceError::DuplicateField(qualified_text(&fields[j].0)));
            }
            i += 1;
        }
        j += 1;
    }
    Ok(())
}

/// Whether two symbols are the same.
pub fn same_sym(a: &Sym, b: &Sym) -> (r: bool)
    ensures
        r == (sym_v(*a) == sym_v(*b)),
{
    let ns = match (&a.namespace, &b.namespace) {
        (Some(x), Some(y)) => str_eq(x.as_str(), y.as_str()),
        (None, None) => true,
        _ => false,
    };
    ns && str_eq(a.name.as_str(), b.name.as_str())
}

/// An opaque byte location; it never converts into a semantic role.
#[derive(Clone, Debug, PartialEq, Eq)]
pub struct StorageId {
    digest: [u8; 32],
}

impl View for StorageId {
    type V = Seq<u8>;

    closed spec fn view(&self) -> Seq<u8> {
        self.digest@
    }
}

impl StorageId {
    /// Addresses exact bytes by their SHA-256 digest.
    pub fn for_bytes(bytes: &[u8]) -> (s: StorageId)
        ensures
            s@ == sha256_spec(bytes@),
    {
        StorageId { digest: sha256_digest(bytes) }
    }

    /// The byte-address identity.
    pub fn content_id(&self) -> (r: ContentDigest)
        ensures
            sym_v(r.algorithm) == storage_algorithm(),
            r.bytes@ == self@,
    {
        ContentDigest { algorithm: Sym::qualified("storage", "sha256-bytes-v1"), bytes: self.digest }
    }

    /// Verifies retrieved bytes against this location.
    pub fn verify(&self, bytes: &[u8]) -> (r: Result<(), ConformanceError>)
        ensures
            r is Ok <==> sha256_spec(bytes@) == self@,
            r is Err ==> r == Err::<(), ConformanceError>(ConformanceError::StorageDigestMismatch),
    {
        let other = StorageId::for_bytes(bytes);
        assert(other@ == sha256_spec(bytes@));
        let mut i: usize = 0;
        while i < 32
            invariant
                i <= 32,
                other@ == sha256_spec(bytes@),
                forall|j: int| 0 <= j < i ==> self.digest@[j] == other.digest@[j],
            decreases 32 - i,
        {
            if self.digest[i] != other.digest[i] {
                assert(self.digest@[i as int] != other.digest@[i as int]);
                assert(self@ != other@);
                return Err(ConformanceError::StorageDigestMismatch);
            }
            i += 1;
        }
        assert(self.digest@ =~= other.digest@);
        Ok(())
    }

    /// Whether two locations are the same.
    pub fn same(&self, other: &StorageId) -> (b: bool)
        ensures
            b == (self@ == other@),
    {
        let mut i: usize = 0;
        while i < 32
            invariant
                i <= 32,
                forall|j: int| 0 <= j < i ==> self.digest@[j] == other.digest@[j],
            decreases 32 - i,
        {
            if self.digest[i] != other.digest[i] {
                assert(self.digest@[i as int] != other.digest@[i as int]);
                return false;
            }
            i += 1;
        }
        assert(self.digest@ =~= other.digest@);
        true
    }

    /// An exact copy.
    pub fn copy(&self) -> (r: StorageId)
        ensures
            r@ == self@,
    {
        StorageId { digest: self.digest }
    }
}

/// A semantic object paired with its replaceable byte location.
pub struct StoredSemanticObject<K: IdKind> {
    /// Meaning recomputed from the decoded value.
    pub meaning: SemanticId<K>,
    /// Exact encoded-byte location.
    pub location: StorageId,
}

/// Immutable owner binding identity.
#[derive(Clone, Copy, Debug, PartialEq, Eq, PartialOrd, Ord, Hash)]
pub struct OwnerBindingKind;

impl IdKind for OwnerBindingKind {
    open spec fn domain_name() -> Seq<char> {
        "owner-binding-v1"@
    }

    fn domain() -> (s: &'static str) {
        "owner-binding-v1"
    }
}

/// Immutable owner binding identity.
pub type OwnerBindingId = SemanticId<OwnerBindingKind>;

/// Activation map identity.
#[derive(Clone, Copy, Debug, PartialEq, Eq, PartialOrd, Ord, Hash)]
pub struct ActivationMapKind;

impl IdKind for ActivationMapKind {
    open spec fn domain_name() -> Seq<char> {
        "activation-map-v1"@
    }

    fn domain() -> (s: &'static str) {
        "activation-map-v1"
    }
}

/// Activation map identity.
pub type ActivationMapId = SemanticId<ActivationMapKind>;

/// Dependency-use set identity.
#[derive(Clone, Copy, Debug, PartialEq, Eq, PartialOrd, Ord, Hash)]
pub struct DependencyUseSetKind;

impl IdKind for DependencyUseSetKind {
    open spec fn domain_name() -> Seq<char> {
        "dependency-use-set-v1"@
    }

    fn domain() -> (s: &'static str) {
        "dependency-use-set-v1"
    }
}

/// Dependency-use set identity.
pub type DependencyUseSetId = SemanticId<DependencyUseSetKind>;

/// Produced-surface set identity.
#[derive(Clone, Copy, Debug, PartialEq, Eq, PartialOrd, Ord, Hash)]
pub struct SurfaceSetKind;

impl IdKind for SurfaceSetKind {
    open spec fn domain_name() -> Seq<char> {
        "surface-set-v1"@
    }

    fn domain() -> (s: &'static str) {
        "surface-set-v1"
    }
}

/// Produced-surface set identity.
pub type SurfaceSetId = SemanticId<SurfaceSetKind>;

/// Checked subject identity.
#[derive(Clone, Copy, Debug, PartialEq, Eq, PartialOrd, Ord, Hash)]
pub struct CheckedSubjectKind;

impl IdKind for CheckedSubjectKind {
    open spec fn domain_name() -> Seq<char> {
        "checked-subject-v1"@
    }

    fn domain() -> (s: &'static str) {
        "checked-subject-v1"
    }
}

/// Checked subject identity.
pub type CheckedSubjectId = SemanticId<CheckedSubjectKind>;

/// Checker binding identity.
#[derive(Clone, Copy, Debug, PartialEq, Eq, PartialOrd, Ord, Hash)]
pub struct CheckerBindingKind;

impl IdKind for CheckerBindingKind {
    open spec fn domain_name() -> Seq<char> {
        "checker-binding-v1"@
    }

    fn domain() -> (s: &'static str) {
        "checker-binding-v1"
    }
}

/// Checker binding identity.
pub type CheckerBindingId = SemanticId<CheckerBindingKind>;

/// Check template identity.
#[derive(Clone, Copy, Debug, PartialEq, Eq, PartialOrd, Ord, Hash)]
pub struct CheckTemplateKind;

impl IdKind for CheckTemplateKind {
    open spec fn domain_name() -> Seq<char> {
        "check-template-v1"@
    }

    fn domain() -> (s: &'static str) {
        "check-template-v1"
    }
}

/// Check template identity.
pub type CheckTemplateId = SemanticId<CheckTemplateKind>;

/// Check invocation identity.
#[derive(Clone, Copy, Debug, PartialEq, Eq, PartialOrd, Ord, Hash)]
pub struct CheckInvocationKind;

impl IdKind for CheckInvocationKind {
    open spec fn domain_name() -> Seq<char> {
        "check-invocation-v1"@
    }

    fn domain() -> (s: &'static str) {
        "check-invocation-v1"
    }
}

/// Check invocation identity.
pub type CheckInvocationId = SemanticId<CheckInvocationKind>;

/// Checker receipt identity.
#[derive(Clone, Copy, Debug, PartialEq, Eq, PartialOrd, Ord, Hash)]
pub struct CheckerReceiptKind;

impl IdKind for CheckerReceiptKind {
    open spec fn domain_name() -> Seq<char> {
        "checker-receipt-v1"@
    }

    fn domain() -> (s: &'static str) {
        "checker-receipt-v1"
    }
}

/// Checker receipt identity.
pub type CheckerReceiptId = SemanticId<CheckerReceiptKind>;

/// Checker result identity.
#[derive(Clone, Copy, Debug, PartialEq, Eq, PartialOrd, Ord, Hash)]
pub struct CheckerResultKind;

impl IdKind for CheckerResultKind {
    open spec fn domain_name() -> Seq<char> {
        "checker-result-v1"@
    }

    fn domain() -> (s: &'static str) {
        "checker-result-v1"
    }
}

/// Checker result identity.
pub type CheckerResultId = SemanticId<CheckerResultKind>;

/// Exact executable call identity.
#[derive(Clone, Copy, Debug, PartialEq, Eq, PartialOrd, Ord, Hash)]
pub struct ExactCheckCallKind;

impl IdKind for ExactCheckCallKind {
    open spec fn domain_name() -> Seq<char> {
        "exact-check-call-v1"@
    }

    fn domain() -> (s: &'static str) {
        "exact-check-call-v1"
    }
}

/// Exact executable call identity.
pub type ExactCheckCallId = SemanticId<ExactCheckCallKind>;

/// Input-closure identity.
#[derive(Clone, Copy, Debug, PartialEq, Eq, PartialOrd, Ord, Hash)]
pub struct CheckInputClosureKind;

impl IdKind for CheckInputClosureKind {
    open spec fn domain_name() -> Seq<char> {
        "check-input-closure-v1"@
    }

    fn domain() -> (s: &'static str) {
        "check-input-closure-v1"
    }
}

/// Input-closure identity.
pub type CheckInputClosureId = SemanticId<CheckInputClosureKind>;

/// Checker-code identity.
#[derive(Clone, Copy, Debug, PartialEq, Eq, PartialOrd, Ord, Hash)]
pub struct ProofCodeKind;

impl IdKind for ProofCodeKind {
    open spec fn domain_name() -> Seq<char> {
        "proof-code-v1"@
    }

    fn domain() -> (s: &'static str) {
        "proof-code-v1"
    }
}

/// Checker-code identity.
pub type ProofCodeId = SemanticId<ProofCodeKind>;

/// Pack identity.
#[derive(Clone, Copy, Debug, PartialEq, Eq, PartialOrd, Ord, Hash)]
pub struct ConformancePackKind;

impl IdKind for ConformancePackKind {
    open spec fn domain_name() -> Seq<char> {
        "pack-v1"@
    }

    fn domain() -> (s: &'static str) {
        "pack-v1"
    }
}

/// Pack identity.
pub type ConformancePackId = SemanticId<ConformancePackKind>;

/// Scope identity.
#[derive(Clone, Copy, Debug, PartialEq, Eq, PartialOrd, Ord, Hash)]
pub struct CheckScopeKind;

impl IdKind for CheckScopeKind {
    open spec fn domain_name() -> Seq<char> {
        "check-scope-v1"@
    }

    fn domain() -> (s: &'static str) {
        "check-scope-v1"
    }
}

/// Scope identity.
pub type CheckScopeId = SemanticId<CheckScopeKind>;

/// Command identity.
#[derive(Clone, Copy, Debug, PartialEq, Eq, PartialOrd, Ord, Hash)]
pub struct CommandKind;

impl IdKind for CommandKind {
    open spec fn domain_name() -> Seq<char> {
        "command-v1"@
    }

    fn domain() -> (s: &'static str) {
        "command-v1"
    }
}

/// Command identity.
pub type CommandId = SemanticId<CommandKind>;

/// Working-directory policy identity.
#[derive(Clone, Copy, Debug, PartialEq, Eq, PartialOrd, Ord, Hash)]
pub struct WorkingDirectoryPolicyKind;

impl IdKind for WorkingDirectoryPolicyKind {
    open spec fn domain_name() -> Seq<char> {
        "cwd-policy-v1"@
    }

    fn domain() -> (s: &'static str) {
        "cwd-policy-v1"
    }
}

/// Working-directory policy identity.
pub type WorkingDirectoryPolicyId = SemanticId<WorkingDirectoryPolicyKind>;

/// Environment policy identity.
#[derive(Clone, Copy, Debug, PartialEq, Eq, PartialOrd, Ord, Hash)]
pub struct EnvironmentPolicyKind;

impl IdKind for EnvironmentPolicyKind {
    open spec fn domain_name() -> Seq<char> {
        "environment-policy-v1"@
    }

    fn domain() -> (s: &'static str) {
        "environment-policy-v1"
    }
}

/// Environment policy identity.
pub type EnvironmentPolicyId = SemanticId<EnvironmentPolicyKind>;

/// Output shape identity.
#[derive(Clone, Copy, Debug, PartialEq, Eq, PartialOrd, Ord, Hash)]
pub struct OutputShapeKind;

impl IdKind for OutputShapeKind {
    open spec fn domain_name() -> Seq<char> {
        "output-shape-v1"@
    }

    fn domain() -> (s: &'static str) {
        "output-shape-v1"
    }
}

/// Output shape identity.
pub type OutputShapeId = SemanticId<OutputShapeKind>;

/// Revocation source identity.
#[derive(Clone, Copy, Debug, PartialEq, Eq, PartialOrd, Ord, Hash)]
pub struct RevocationSourceKind;

impl IdKind for RevocationSourceKind {
    open spec fn domain_name() -> Seq<char> {
        "revocation-source-v1"@
    }

    fn domain() -> (s: &'static str) {
        "revocation-source-v1"
    }
}

/// Revocation source identity.
pub type RevocationSourceId = SemanticId<RevocationSourceKind>;

/// Evidence support set identity.
#[derive(Clone, Copy, Debug, PartialEq, Eq, PartialOrd, Ord, Hash)]
pub struct EvidenceSetKind;

impl IdKind for EvidenceSetKind {
    open spec fn domain_name() -> Seq<char> {
        "evidence-set-v1"@
    }

    fn domain() -> (s: &'static str) {
        "evidence-set-v1"
    }
}

/// Evidence support set identity.
pub type EvidenceSetId = SemanticId<EvidenceSetKind>;

/// Evidence provenance identity.
#[derive(Clone, Copy, Debug, PartialEq, Eq, PartialOrd, Ord, Hash)]
pub struct EvidenceProvenanceKind;

impl IdKind for EvidenceProvenanceKind {
    open spec fn domain_name() -> Seq<char> {
        "evidence-provenance-v1"@
    }

    fn domain() -> (s: &'static str) {
        "evidence-provenance-v1"
    }
}

/// Evidence provenance identity.
pub type EvidenceProvenanceId = SemanticId<EvidenceProvenanceKind>;

/// Checker policy identity.
#[derive(Clone, Copy, Debug, PartialEq, Eq, PartialOrd, Ord, Hash)]
pub struct PolicyKind;

impl IdKind for PolicyKind {
    open spec fn domain_name() -> Seq<char> {
        "policy-v1"@
    }

    fn domain() -> (s: &'static str) {
        "policy-v1"
    }
}

/// Checker policy identity.
pub type PolicyId = SemanticId<PolicyKind>;

/// Digest-construction record identity.
#[derive(Clone, Copy, Debug, PartialEq, Eq, PartialOrd, Ord, Hash)]
pub struct DigestConstructionKind;

impl IdKind for DigestConstructionKind {
    open spec fn domain_name() -> Seq<char> {
        "digest-construction-v1"@
    }

    fn domain() -> (s: &'static str) {
        "digest-construction-v1"
    }
}

/// Digest-construction record identity.
pub type DigestConstructionId = SemanticId<DigestConstructionKind>;

/// Complete digest register identity.
#[derive(Clone, Copy, Debug, PartialEq, Eq, PartialOrd, Ord, Hash)]
pub struct DigestRegisterKind;

impl IdKind for DigestRegisterKind {
    open spec fn domain_name() -> Seq<char> {
        "digest-register-v1"@
    }

    fn domain() -> (s: &'static str) {
        "digest-register-v1"
    }
}

/// Complete digest register identity.
pub type DigestConstructionRegisterId = SemanticId<DigestRegisterKind>;

} // verus!
