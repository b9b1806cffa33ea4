//! Canonical data records and their content identity.
//!
//! A [`CanonicalDatum`] is the plain form of the kernel's datum: a symbol,
//! text, bytes, an ordered vector or a tagged node with named fields. Its
//! content digest is the kernel's: the datum is handed to
//! `sim_kernel::Datum::content_id`, and the library names the result.

use vstd::prelude::*;

use crate::text::text;

verus! {

/// The kernel's datum type.
#[verifier::external_type_specification]
#[verifier::external_body]
pub struct ExKernelDatum(sim_kernel::Datum);

/// The kernel's symbol type.
#[verifier::external_type_specification]
#[verifier::external_body]
pub struct ExKernelSymbol(sim_kernel::Symbol);

/// The kernel content digest of a datum of the given value, or `None` when
/// the kernel refuses to canonicalize it.
pub uninterp spec fn kernel_digest(d: DatumV) -> Option<Seq<u8>>;

/// The SHA-256 digest of a byte string.
pub uninterp spec fn sha256_spec(b: Seq<u8>) -> Seq<u8>;

/// A possibly namespaced symbol.
#[derive(Clone, Debug, PartialEq, Eq)]
pub struct Sym {
    /// Namespace, when qualified.
    pub namespace: Option<String>,
    /// Name.
    pub name: String,
}

/// Mathematical value of a symbol.
pub open spec fn sym_v(s: Sym) -> (Option<Seq<char>>, Seq<char>) {
    (
        match s.namespace {
            Some(n) => Some(n@),
            None => None,
        },
        s.name@,
    )
}

/// A canonical datum.
#[derive(Debug, PartialEq, Eq)]
pub enum CanonicalDatum {
    /// Nil.
    Nil,
    /// A symbol.
    Symbol(Sym),
    /// A UTF-8 text.
    Text(String),
    /// Bytes.
    Bytes(Vec<u8>),
    /// An ordered vector.
    Vector(Vec<CanonicalDatum>),
    /// A tagged node with named fields.
    Node { tag: Sym, fields: Vec<(Sym, CanonicalDatum)> },
}

/// Mathematical value of a datum.
pub enum DatumV {
    Nil,
    Symbol((Option<Seq<char>>, Seq<char>)),
    Text(Seq<char>),
    Bytes(Seq<u8>),
    Vector(Seq<DatumV>),
    Node((Option<Seq<char>>, Seq<char>), Seq<((Option<Seq<char>>, Seq<char>), DatumV)>),
}

/// The value of a datum.
pub open spec fn datum_v(d: CanonicalDatum) -> DatumV
    decreases d,
{
    match d {
        CanonicalDatum::Nil => DatumV::Nil,
        CanonicalDatum::Symbol(s) => DatumV::Symbol(sym_v(s)),
        CanonicalDatum::Text(s) => DatumV::Text(s@),
        CanonicalDatum::Bytes(b) => DatumV::Bytes(b@),
        CanonicalDatum::Vector(v) => DatumV::Vector(
            Seq::new(
                v@.len(),
                |i: int|
                    if 0 <= i < v@.len() {
                        datum_v(v@[i])
                    } else {
                        DatumV::Nil
                    },
            ),
        ),
        CanonicalDatum::Node { tag, fields } => DatumV::Node(
            sym_v(tag),
            Seq::new(
                fields@.len(),
                |i: int|
                    if 0 <= i < fields@.len() {
                        (sym_v(fields@[i].0), datum_v(fields@[i].1))
                    } else {
                        ((None, Seq::empty()), DatumV::Nil)
                    },
            ),
        ),
    }
}

/// A symbol in the `conformance` namespace.
pub open spec fn csym(name: Seq<char>) -> (Option<Seq<char>>, Seq<char>) {
    (Some("conformance"@), name)
}

impl Sym {
    /// A symbol qualified by a namespace.
    pub fn qualified(namespace: &str, name: &str) -> (r: Sym)
        ensures
            sym_v(r) == (Some(namespace@), name@),
    {
        Sym { namespace: Some(text(namespace)), name: text(name) }
    }

    /// A symbol in the `conformance` namespace.
    pub fn conformance(name: &str) -> (r: Sym)
        ensures
            sym_v(r) == csym(name@),
    {
        Sym::qualified("conformance", name)
    }

    /// An exact copy.
    pub fn copy(&self) -> (r: Sym)
        ensures
            r == *self,
    {
        Sym {
            namespace: match &self.namespace {
                Some(n) => Some(n.clone()),
                None => None,
            },
            name: self.name.clone(),
        }
    }
}

/// Converts a symbol to the kernel's symbol, component for component.
#[verifier::external_body]
fn to_kernel_symbol(s: &Sym) -> sim_kernel::Symbol {
    match &s.namespace {
        Some(n) => sim_kernel::Symbol::qualified(n.clone(), s.name.clone()),
        None => sim_kernel::Symbol::new(s.name.clone()),
    }
}

/// Converts a datum to the kernel's datum, variant for variant.
#[verifier::external_body]
fn to_kernel_datum(d: &CanonicalDatum) -> sim_kernel::Datum {
    match d {
        CanonicalDatum::Nil => sim_kernel::Datum::Nil,
        CanonicalDatum::Symbol(s) => sim_kernel::Datum::Symbol(to_kernel_symbol(s)),
        CanonicalDatum::Text(s) => sim_kernel::Datum::String(s.clone()),
        CanonicalDatum::Bytes(b) => sim_kernel::Datum::Bytes(b.clone()),
        CanonicalDatum::Vector(v) => sim_kernel::Datum::Vector(v.iter().map(to_kernel_datum).collect()),
        CanonicalDatum::Node { tag, fields } => sim_kernel::Datum::Node {
            tag: to_kernel_symbol(tag),
            fields: fields.iter().map(|f| (to_kernel_symbol(&f.0), to_kernel_datum(&f.1))).collect(),
        },
    }
}

/// `sim_kernel::Datum::content_id`: the digest bytes of the kernel content id
/// of the datum, or `None` when the kernel refuses to canonicalize it. The
/// result is named [`kernel_digest`] of the datum's value.
#[verifier::external_body]
pub(crate) fn datum_digest(d: &CanonicalDatum) -> (r: Option<[u8; 32]>)
    ensures
        (match r {
            Some(b) => Some(b@),
            None => None,
        }) == kernel_digest(datum_v(*d)),
{
    to_kernel_datum(d).content_id().ok().map(|id| id.bytes)
}

/// `sha2::Sha256::digest`: the SHA-256 digest of the bytes, named
/// [`sha256_spec`] of them.
#[verifier::external_body]
pub(crate) fn sha256_digest(b: &[u8]) -> (r: [u8; 32])
    ensures
        r@ == sha256_spec(b@),
{
    <sha2::Sha256 as sha2::Digest>::digest(b).into()
}

} // verus!
