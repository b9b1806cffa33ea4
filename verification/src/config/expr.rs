//! Configuration data: the data forms of the kernel's expression graph.
//!
//! A configuration table is a map expression whose keys name fields. A key
//! spells a field name when it is an unqualified symbol or a string; two
//! keys name the same field when they spell the same name, and otherwise
//! when the kernel considers the two expressions equal.

use vstd::prelude::*;

use crate::conformance::datum::{Sym, sym_v};
use crate::text::{str_eq, text};

verus! {

/// The kernel's expression type.
#[verifier::external_type_specification]
#[verifier::external_body]
pub struct ExKernelExpr(sim_kernel::Expr);

/// A configuration expression.
#[derive(Debug, PartialEq, Eq)]
pub enum ConfigExpr {
    /// Nil.
    Nil,
    /// A boolean.
    Bool(bool),
    /// A number literal: its domain and canonical text.
    Number {
        /// The number domain.
        domain: Sym,
        /// The canonical text of the number.
        canonical: String,
    },
    /// A symbol.
    Symbol(Sym),
    /// A string.
    String(String),
    /// Bytes.
    Bytes(Vec<u8>),
    /// An ordered list.
    List(Vec<ConfigExpr>),
    /// An ordered vector.
    Vector(Vec<ConfigExpr>),
    /// Key/value entries: a map form.
    Table(Vec<(ConfigExpr, ConfigExpr)>),
    /// A set form.
    Members(Vec<ConfigExpr>),
}

/// A symbol's value: namespace, when qualified, and name.
pub type SymV = (Option<Seq<char>>, Seq<char>);

/// Mathematical value of an expression.
pub enum ExprV {
    Nil,
    Bool(bool),
    Number(SymV, Seq<char>),
    Symbol(SymV),
    Str(Seq<char>),
    Bytes(Seq<u8>),
    List(Seq<ExprV>),
    Vector(Seq<ExprV>),
    Table(Seq<(ExprV, ExprV)>),
    Members(Seq<ExprV>),
}

/// The values of a list of expressions.
pub open spec fn items_v(v: Seq<ConfigExpr>) -> Seq<ExprV>
    decreases v,
{
    Seq::new(
        v.len(),
        |i: int|
            if 0 <= i < v.len() {
                expr_v(v[i])
            } else {
                ExprV::Nil
            },
    )
}

/// The values of a list of entries.
pub open spec fn entries_v(v: Seq<(ConfigExpr, ConfigExpr)>) -> Seq<(ExprV, ExprV)>
    decreases v,
{
    Seq::new(
        v.len(),
        |i: int|
            if 0 <= i < v.len() {
                (expr_v(v[i].0), expr_v(v[i].1))
            } else {
                (ExprV::Nil, ExprV::Nil)
            },
    )
}

/// The value of an expression.
pub open spec fn expr_v(e: ConfigExpr) -> ExprV
    decreases e,
{
    match e {
        ConfigExpr::Nil => ExprV::Nil,
        ConfigExpr::Bool(b) => ExprV::Bool(b),
        ConfigExpr::Number { domain, canonical } => ExprV::Number(sym_v(domain), canonical@),
        ConfigExpr::Symbol(s) => ExprV::Symbol(sym_v(s)),
        ConfigExpr::String(s) => ExprV::Str(s@),
        ConfigExpr::Bytes(b) => ExprV::Bytes(b@),
        ConfigExpr::List(v) => ExprV::List(items_v(v@)),
        ConfigExpr::Vector(v) => ExprV::Vector(items_v(v@)),
        ConfigExpr::Table(v) => ExprV::Table(entries_v(v@)),
        ConfigExpr::Members(v) => ExprV::Members(items_v(v@)),
    }
}

/// The kernel's canonical equality of two expressions (map entries and set
/// members compare without regard to order).
pub uninterp spec fn kernel_same(a: ExprV, b: ExprV) -> bool;

/// The kernel's debug rendering of an expression.
pub uninterp spec fn kernel_debug(e: ExprV) -> Seq<char>;

/// Converts a symbol to the kernel's symbol, component for component.
#[verifier::external_body]
fn to_kernel_symbol(s: &Sym) -> sim_kernel::Symbol {
    match &s.namespace {
        Some(n) => sim_kernel::Symbol::qualified(n.clone(), s.name.clone()),
        None => sim_kernel::Symbol::new(s.name.clone()),
    }
}

/// Converts an expression to the kernel's expression, variant for variant.
#[verifier::external_body]
fn to_kernel_expr(e: &ConfigExpr) -> sim_kernel::Expr {
    match e {
        ConfigExpr::Nil => sim_kernel::Expr::Nil,
        ConfigExpr::Bool(b) => sim_kernel::Expr::Bool(*b),
        ConfigExpr::Number { domain, canonical } => to_kernel_number(domain, canonical),
        ConfigExpr::Symbol(s) => sim_kernel::Expr::Symbol(to_kernel_symbol(s)),
        ConfigExpr::String(s) => sim_kernel::Expr::String(s.clone()),
        ConfigExpr::Bytes(b) => sim_kernel::Expr::Bytes(b.clone()),
        ConfigExpr::List(v) => sim_kernel::Expr::List(to_kernel_items(v)),
        ConfigExpr::Vector(v) => sim_kernel::Expr::Vector(to_kernel_items(v)),
        ConfigExpr::Table(v) => sim_kernel::Expr::Map(to_kernel_entries(v)),
        ConfigExpr::Members(v) => sim_kernel::Expr::Set(to_kernel_items(v)),
    }
}

/// Converts a number literal to the kernel's number expression.
#[verifier::external_body]
fn to_kernel_number(domain: &Sym, canonical: &String) -> sim_kernel::Expr {
    sim_kernel::Expr::Number(sim_kernel::expr::NumberLiteral {
        domain: to_kernel_symbol(domain),
        canonical: canonical.clone(),
    })
}

/// Converts expressions to the kernel's, item for item.
#[verifier::external_body]
fn to_kernel_items(v: &Vec<ConfigExpr>) -> Vec<sim_kernel::Expr> {
    v.iter().map(to_kernel_expr).collect()
}

/// Converts entries to the kernel's, pair for pair.
#[verifier::external_body]
fn to_kernel_entries(v: &Vec<(ConfigExpr, ConfigExpr)>) -> Vec<(sim_kernel::Expr, sim_kernel::Expr)> {
    v.iter().map(|p| (to_kernel_expr(&p.0), to_kernel_expr(&p.1))).collect()
}

/// `PartialEq for sim_kernel::Expr`: the kernel's canonical equality of the
/// two expressions, named [`kernel_same`] of their values.
#[verifier::external_body]
fn kernel_eq(a: &ConfigExpr, b: &ConfigExpr) -> (r: bool)
    ensures
        r == kernel_same(expr_v(*a), expr_v(*b)),
{
    to_kernel_expr(a) == to_kernel_expr(b)
}

/// `Debug for sim_kernel::Expr`: the kernel's debug text of the
/// expression, named [`kernel_debug`] of its value.
#[verifier::external_body]
pub(crate) fn debug_text(e: &ConfigExpr) -> (r: String)
    ensures
        r@ == kernel_debug(expr_v(*e)),
{
    format!("{:?}", to_kernel_expr(e))
}

/// The unqualified field name a key spells: an unqualified symbol's name or
/// a string's text.
pub open spec fn field_name(k: ExprV) -> Option<Seq<char>> {
    match k {
        ExprV::Symbol(s) => if s.0 is None {
            Some(s.1)
        } else {
            None
        },
        ExprV::Str(t) => Some(t),
        _ => None,
    }
}

/// Two keys identify the same config field: equal field names, or, when
/// either key spells no field name, kernel equality.
pub open spec fn same_field(a: ExprV, b: ExprV) -> bool {
    match (field_name(a), field_name(b)) {
        (Some(x), Some(y)) => x == y,
        _ => kernel_same(a, b),
    }
}

/// A key's label: its field name, else its debug text.
pub open spec fn key_label(k: ExprV) -> Seq<char> {
    match field_name(k) {
        Some(n) => n,
        None => kernel_debug(k),
    }
}

/// Returns the canonical unqualified config field name represented by `key`.
pub fn config_field_name(key: &ConfigExpr) -> (r: Option<&str>)
    ensures
        match r {
            Some(s) => field_name(expr_v(*key)) == Some(s@),
            None => field_name(expr_v(*key)) is None,
        },
{
    match key {
        ConfigExpr::Symbol(s) => match &s.namespace {
            None => Some(s.name.as_str()),
            Some(_) => None,
        },
        ConfigExpr::String(t) => Some(t.as_str()),
        _ => None,
    }
}

/// Returns true when two keys identify the same config field.
pub fn same_config_field(left: &ConfigExpr, right: &ConfigExpr) -> (r: bool)
    ensures
        r == same_field(expr_v(*left), expr_v(*right)),
{
    match (config_field_name(left), config_field_name(right)) {
        (Some(a), Some(b)) => str_eq(a, b),
        _ => kernel_eq(left, right),
    }
}

/// A key's label: its field name, else its debug text.
pub fn config_field_label(key: &ConfigExpr) -> (r: String)
    ensures
        r@ == key_label(expr_v(*key)),
{
    match config_field_name(key) {
        Some(n) => text(n),
        None => debug_text(key),
    }
}

/// The value of the first entry whose key spells the field `name`.
pub open spec fn entry_field_spec(entries: Seq<(ExprV, ExprV)>, name: Seq<char>) -> Option<ExprV>
    decreases entries.len(),
{
    if entries.len() == 0 {
        None
    } else if field_name(entries[0].0) == Some(name) {
        Some(entries[0].1)
    } else {
        entry_field_spec(entries.drop_first(), name)
    }
}

/// The field `name` of a map, else nothing.
pub open spec fn field_spec(e: ExprV, name: Seq<char>) -> Option<ExprV> {
    match e {
        ExprV::Table(entries) => entry_field_spec(entries, name),
        _ => None,
    }
}

/// Looks up a field in map entries, accepting an unqualified-symbol or a
/// string key.
pub fn entry_field_any<'a>(entries: &'a [(ConfigExpr, ConfigExpr)], name: &str) -> (r: Option<&'a ConfigExpr>)
    ensures
        match r {
            Some(v) => entry_field_spec(entries_v(entries@), name@) == Some(expr_v(*v)),
            None => entry_field_spec(entries_v(entries@), name@) is None,
        },
{
    let ghost ev = entries_v(entries@);
    assert(ev.skip(0) =~= ev);
    let mut i: usize = 0;
    while i < entries.len()
        invariant
            i <= entries@.len(),
            ev == entries_v(entries@),
            entry_field_spec(ev, name@) == entry_field_spec(ev.skip(i as int), name@),
        decreases entries@.len() - i,
    {
        let ghost rest = ev.skip(i as int);
        assert(rest[0] == (expr_v(entries@[i as int].0), expr_v(entries@[i as int].1)));
        assert(rest.drop_first() =~= ev.skip(i + 1));
        match config_field_name(&entries[i].0) {
            Some(n) => {
                if str_eq(n, name) {
                    return Some(&entries[i].1);
                }
            },
            None => {},
        }
        i += 1;
    }
    None
}

/// Looks up a field by name in a map, accepting an unqualified-symbol or a
/// string key.
pub fn field_any<'a>(map: &'a ConfigExpr, name: &str) -> (r: Option<&'a ConfigExpr>)
    ensures
        match r {
            Some(v) => field_spec(expr_v(*map), name@) == Some(expr_v(*v)),
            None => field_spec(expr_v(*map), name@) is None,
        },
{
    match map {
        ConfigExpr::Table(entries) => {
            assert(expr_v(*map) == ExprV::Table(entries_v(entries@)));
            entry_field_any(entries.as_slice(), name)
        },
        _ => None,
    }
}

impl Sym {
    /// An unqualified symbol.
    pub fn new(name: &str) -> (r: Sym)
        ensures
            sym_v(r) == (None::<Seq<char>>, name@),
    {
        Sym { namespace: None, name: text(name) }
    }
}

impl ConfigExpr {
    /// A copy with the same value.
    pub fn copy(&self) -> (r: ConfigExpr)
        ensures
            expr_v(r) == expr_v(*self),
        decreases self,
    {
        match self {
            ConfigExpr::Nil => ConfigExpr::Nil,
            ConfigExpr::Bool(b) => ConfigExpr::Bool(*b),
            ConfigExpr::Number { domain, canonical } => ConfigExpr::Number { domain: domain.copy(), canonical: canonical.clone() },
            ConfigExpr::Symbol(s) => ConfigExpr::Symbol(s.copy()),
            ConfigExpr::String(s) => ConfigExpr::String(s.clone()),
            ConfigExpr::Bytes(b) => ConfigExpr::Bytes(vstd::slice::slice_to_vec(b.as_slice())),
            ConfigExpr::List(v) => ConfigExpr::List(copy_items(v)),
            ConfigExpr::Vector(v) => ConfigExpr::Vector(copy_items(v)),
            ConfigExpr::Members(v) => ConfigExpr::Members(copy_items(v)),
            ConfigExpr::Table(v) => ConfigExpr::Table(copy_entries(v)),
        }
    }
}

/// Copies of a list of expressions.
pub fn copy_items(v: &Vec<ConfigExpr>) -> (r: Vec<ConfigExpr>)
    ensures
        items_v(r@) == items_v(v@),
    decreases v,
{
    let mut out: Vec<ConfigExpr> = Vec::new();
    let mut i: usize = 0;
    while i < v.len()
        invariant
            i <= v@.len(),
            out@.len() == i,
            forall|j: int| 0 <= j < i ==> expr_v(#[trigger] out@[j]) == expr_v(v@[j]),
        decreases v@.len() - i,
    {
        assert(decreases_to!(v => v@));
        assert(decreases_to!(v@ => v@[i as int]));
        out.push(v[i].copy());
        i += 1;
    }
    assert(items_v(out@) =~= items_v(v@));
    out
}

/// Copies of a list of entries.
pub fn copy_entries(v: &Vec<(ConfigExpr, ConfigExpr)>) -> (r: Vec<(ConfigExpr, ConfigExpr)>)
    ensures
        entries_v(r@) == entries_v(v@),
    decreases v,
{
    let mut out: Vec<(ConfigExpr, ConfigExpr)> = Vec::new();
    let mut i: usize = 0;
    while i < v.len()
        invariant
            i <= v@.len(),
            out@.len() == i,
            forall|j: int|
                0 <= j < i ==> expr_v((#[trigger] out@[j]).0) == expr_v(v@[j].0) && expr_v(out@[j].1)
                    == expr_v(v@[j].1),
        decreases v@.len() - i,
    {
        assert(decreases_to!(v => v@));
        assert(decreases_to!(v@ => v@[i as int]));
        assert(decreases_to!(v@[i as int] => v@[i as int].0));
        assert(decreases_to!(v@[i as int] => v@[i as int].1));
        out.push((v[i].0.copy(), v[i].1.copy()));
        i += 1;
    }
    assert(entries_v(out@) =~= entries_v(v@));
    out
}

} // verus!
