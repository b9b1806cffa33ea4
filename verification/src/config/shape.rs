//! Table contracts and shape-backed configuration defaults.
//!
//! A table contract names the fields a config table may hold, which of them
//! are required, and the shape of each value: a value kind, a list of
//! strings, or a list of tables with their own fields. A config shape pairs
//! a library's contract with its built-in defaults: validation overlays a
//! table on the defaults and checks the result against the contract.

use vstd::prelude::*;

use crate::config::expr::{ConfigExpr, ExprV, SymV, entries_v, expr_v, field_name, items_v, same_config_field, same_field, config_field_name};
use crate::config::merge::{ConfigLayer, ConfigSource, EffV, SourceV, eff_v, layer_v, merge_layers, merge_layers_spec};
use crate::config::table::{ConfigDir, ConfigTable, as_qualified_str, dir_v, first_lib, qualified_str, table_v};
use crate::conformance::datum::{Sym, sym_v};
use crate::conformance::graph::texts;
use crate::conformance::identity::same_sym;
use crate::text::{append_str, decimal, decimal_chars, str_eq, string_of, text};

verus! {

/// A coarse classifier over expression forms.
#[derive(Clone, Copy, Debug, PartialEq, Eq, Structural)]
pub enum ValueKind {
    /// Nil.
    Nil,
    /// A boolean.
    Bool,
    /// A number.
    Number,
    /// A symbol.
    Symbol,
    /// A string.
    String,
    /// Bytes.
    Bytes,
    /// A list.
    List,
    /// A vector.
    Vector,
    /// A map form.
    Table,
    /// A set form.
    Members,
}

/// An expression is of a kind.
pub open spec fn kind_matches(k: ValueKind, e: ExprV) -> bool {
    match k {
        ValueKind::Nil => e is Nil,
        ValueKind::Bool => e is Bool,
        ValueKind::Number => e is Number,
        ValueKind::Symbol => e is Symbol,
        ValueKind::String => e is Str,
        ValueKind::Bytes => e is Bytes,
        ValueKind::List => e is List,
        ValueKind::Vector => e is Vector,
        ValueKind::Table => e is Table,
        ValueKind::Members => e is Members,
    }
}

/// A kind's lowercase name.
pub open spec fn kind_name(k: ValueKind) -> Seq<char> {
    match k {
        ValueKind::Nil => "nil"@,
        ValueKind::Bool => "bool"@,
        ValueKind::Number => "number"@,
        ValueKind::Symbol => "symbol"@,
        ValueKind::String => "string"@,
        ValueKind::Bytes => "bytes"@,
        ValueKind::List => "list"@,
        ValueKind::Vector => "vector"@,
        ValueKind::Table => "map"@,
        ValueKind::Members => "set"@,
    }
}

impl ValueKind {
    /// Whether an expression is of this kind.
    pub fn matches(&self, e: &ConfigExpr) -> (b: bool)
        ensures
            b == kind_matches(*self, expr_v(*e)),
    {
        match (self, e) {
            (ValueKind::Nil, ConfigExpr::Nil) => true,
            (ValueKind::Bool, ConfigExpr::Bool(_)) => true,
            (ValueKind::Number, ConfigExpr::Number { .. }) => true,
            (ValueKind::Symbol, ConfigExpr::Symbol(_)) => true,
            (ValueKind::String, ConfigExpr::String(_)) => true,
            (ValueKind::Bytes, ConfigExpr::Bytes(_)) => true,
            (ValueKind::List, ConfigExpr::List(_)) => true,
            (ValueKind::Vector, ConfigExpr::Vector(_)) => true,
            (ValueKind::Table, ConfigExpr::Table(_)) => true,
            (ValueKind::Members, ConfigExpr::Members(_)) => true,
            _ => false,
        }
    }

    /// The kind's lowercase name.
    pub fn name(&self) -> (s: &'static str)
        ensures
            s@ == kind_name(*self),
    {
        match self {
            ValueKind::Nil => "nil",
            ValueKind::Bool => "bool",
            ValueKind::Number => "number",
            ValueKind::Symbol => "symbol",
            ValueKind::String => "string",
            ValueKind::Bytes => "bytes",
            ValueKind::List => "list",
            ValueKind::Vector => "vector",
            ValueKind::Table => "map",
            ValueKind::Members => "set",
        }
    }
}

/// The shape of one field's value.
#[derive(Debug, PartialEq, Eq)]
pub enum FieldShape {
    /// A value of one kind.
    Kind(ValueKind),
    /// A list of strings.
    StringList,
    /// A list of tables, each checked against the fields.
    TableList(Vec<FieldSpec>),
}

/// One field of a table contract.
#[derive(Debug, PartialEq, Eq)]
pub struct FieldSpec {
    /// Field name.
    pub name: String,
    /// Value shape.
    pub shape: FieldShape,
    /// Whether the field must be present.
    pub required: bool,
}

impl FieldSpec {
    /// A field that must be present.
    pub fn required(name: &str, shape: FieldShape) -> (r: FieldSpec)
        ensures
            r.name@ == name@ && r.shape == shape && r.required,
    {
        FieldSpec { name: text(name), shape, required: true }
    }

    /// A field that may be absent.
    pub fn optional(name: &str, shape: FieldShape) -> (r: FieldSpec)
        ensures
            r.name@ == name@ && r.shape == shape && !r.required,
    {
        FieldSpec { name: text(name), shape, required: false }
    }
}

/// `context[index]`: the context of a list item.
pub open spec fn indexed(name: Seq<char>, i: nat) -> Seq<char> {
    name + "["@ + decimal(i) + "]"@
}

/// Position of the first field spec with the name.
pub open spec fn first_spec(fields: Seq<FieldSpec>, name: Seq<char>) -> Option<int> {
    if exists|k: int| 0 <= k < fields.len() && (#[trigger] fields[k]).name@ == name && forall|j: int| 0 <= j < k ==> fields[j].name@ != name {
        Some(choose|k: int| 0 <= k < fields.len() && (#[trigger] fields[k]).name@ == name && forall|j: int| 0 <= j < k ==> fields[j].name@ != name)
    } else {
        None
    }
}

/// The check of a table against fields: it must be a map; each entry in
/// order must not repeat an earlier field, must spell a field name, must
/// name a declared field and must fit that field's shape; then each
/// required field must be present.
pub open spec fn table_check(e: ExprV, fields: Seq<FieldSpec>, context: Seq<char>) -> Result<(), Seq<char>>
    decreases fields, 2nat, 0nat,
{
    match e {
        ExprV::Table(entries) => match check_entries(entries, fields, context, 0) {
            Err(m) => Err(m),
            Ok(()) => required_check(entries, fields, context, 0),
        },
        _ => Err(context + " expected map"@),
    }
}

/// [`table_check`] over the entries from position `i` on.
pub open spec fn check_entries(entries: Seq<(ExprV, ExprV)>, fields: Seq<FieldSpec>, context: Seq<char>, i: nat) -> Result<(), Seq<char>>
    decreases fields, 1nat, entries.len() - i,
{
    if i >= entries.len() {
        Ok(())
    } else {
        let k = entries[i as int].0;
        if exists|j: int| 0 <= j < i && same_field(#[trigger] entries[j].0, k) {
            Err(context + ": duplicate key "@ + match field_name(k) {
                Some(n) => n,
                None => "<opaque>"@,
            })
        } else {
            match field_name(k) {
                None => Err(context + " key expected symbol or string"@),
                Some(name) => match first_spec(fields, name) {
                    None => Err(context + ": extra key "@ + name),
                    Some(f) => {
                        proof {
                            assert(decreases_to!(fields => fields[f]));
                        }
                        match shape_check(fields[f].shape, name, entries[i as int].1) {
                            Err(m) => Err(m),
                            Ok(()) => check_entries(entries, fields, context, i + 1),
                        }
                    },
                },
            }
        }
    }
}

/// Required fields from position `i` on are present.
pub open spec fn required_check(entries: Seq<(ExprV, ExprV)>, fields: Seq<FieldSpec>, context: Seq<char>, i: nat) -> Result<(), Seq<char>>
    decreases fields.len() - i,
{
    if i >= fields.len() {
        Ok(())
    } else if fields[i as int].required && !exists|j: int| 0 <= j < entries.len() && field_name(#[trigger] entries[j].0) == Some(fields[i as int].name@) {
        Err(context + ": missing required key "@ + fields[i as int].name@)
    } else {
        required_check(entries, fields, context, i + 1)
    }
}

/// A field value fits its shape.
pub open spec fn shape_check(shape: FieldShape, name: Seq<char>, v: ExprV) -> Result<(), Seq<char>>
    decreases shape, 0nat, 0nat,
{
    match shape {
        FieldShape::Kind(k) => if kind_matches(k, v) {
            Ok(())
        } else {
            Err(name + " expected "@ + kind_name(k))
        },
        FieldShape::StringList => match v {
            ExprV::List(items) => string_items_check(items, name, 0),
            _ => Err(name + " expected list"@),
        },
        FieldShape::TableList(fs) => match v {
            ExprV::List(items) => {
                proof {
                    assert(decreases_to!(shape => fs));
                    assert(decreases_to!(fs => fs@));
                }
                list_check(items, fs@, name, 0)
            },
            _ => Err(name + " expected repeated table list"@),
        },
    }
}

/// Items from position `i` on are strings.
pub open spec fn string_items_check(items: Seq<ExprV>, name: Seq<char>, i: nat) -> Result<(), Seq<char>>
    decreases items.len() - i,
{
    if i >= items.len() {
        Ok(())
    } else if !(items[i as int] is Str) {
        Err(indexed(name, i) + " expected string"@)
    } else {
        string_items_check(items, name, i + 1)
    }
}

/// Items from position `i` on are tables fitting the fields.
pub open spec fn list_check(items: Seq<ExprV>, fields: Seq<FieldSpec>, name: Seq<char>, i: nat) -> Result<(), Seq<char>>
    decreases fields, 3nat, items.len() - i,
{
    if i >= items.len() {
        Ok(())
    } else {
        match table_check(items[i as int], fields, indexed(name, i)) {
            Err(m) => Err(m),
            Ok(()) => list_check(items, fields, name, i + 1),
        }
    }
}


/// Value of a check result.
pub open spec fn res_text(r: Result<(), String>) -> Result<(), Seq<char>> {
    match r {
        Ok(()) => Ok(()),
        Err(m) => Err(m@),
    }
}

proof fn lemma_first_spec(fields: Seq<FieldSpec>, name: Seq<char>, k: int)
    requires
        0 <= k < fields.len(),
        fields[k].name@ == name,
        forall|j: int| 0 <= j < k ==> fields[j].name@ != name,
    ensures
        first_spec(fields, name) == Some(k),
{
    assert(fields[k].name@ == name);
    let w = choose|w: int| 0 <= w < fields.len() && (#[trigger] fields[w]).name@ == name && forall|j: int| 0 <= j < w ==> fields[j].name@ != name;
    assert(w == k) by {
        if w < k {
            assert(fields[w].name@ != name);
        } else if k < w {
            assert(fields[k].name@ != name);
        }
    }
}

fn find_spec(fields: &Vec<FieldSpec>, name: &str) -> (r: Option<usize>)
    ensures
        match r {
            Some(k) => k < fields@.len() && first_spec(fields@, name@) == Some(k as int),
            None => first_spec(fields@, name@) is None,
        },
{
    let mut k: usize = 0;
    while k < fields.len()
        invariant
            k <= fields@.len(),
            forall|j: int| 0 <= j < k ==> fields@[j].name@ != name@,
        decreases fields@.len() - k,
    {
        if str_eq(fields[k].name.as_str(), name) {
            proof {
                lemma_first_spec(fields@, name@, k as int);
            }
            return Some(k);
        }
        k += 1;
    }
    None
}

fn concat2(a: &str, b: &str) -> (r: String)
    ensures
        r@ == a@ + b@,
{
    let mut out = text(a);
    append_str(&mut out, b);
    out
}

fn indexed_text(name: &str, i: usize) -> (r: String)
    ensures
        r@ == indexed(name@, i as nat),
{
    let mut out = concat2(name, "[");
    let d = string_of(&decimal_chars(i as u64));
    append_str(&mut out, d.as_str());
    append_str(&mut out, "]");
    out
}

/// Checks a table against fields.
pub fn check_table(expr: &ConfigExpr, fields: &Vec<FieldSpec>, context: &str) -> (r: Result<(), String>)
    ensures
        res_text(r) == table_check(expr_v(*expr), fields@, context@),
    decreases fields, 2nat, 0nat,
{
    match expr {
        ConfigExpr::Table(entries) => {
            match check_entries_exec(entries, fields, context) {
                Ok(()) => {},
                Err(m) => {
                    return Err(m);
                },
            }
            check_required(entries, fields, context)
        },
        _ => Err(concat2(context, " expected map")),
    }
}

fn check_required(entries: &Vec<(ConfigExpr, ConfigExpr)>, fields: &Vec<FieldSpec>, context: &str) -> (r: Result<(), String>)
    ensures
        res_text(r) == required_check(entries_v(entries@), fields@, context@, 0),
{
    let ghost ev = entries_v(entries@);
    let mut i: usize = 0;
    while i < fields.len()
        invariant
            i <= fields@.len(),
            ev == entries_v(entries@),
            required_check(ev, fields@, context@, 0) == required_check(ev, fields@, context@, i as nat),
        decreases fields@.len() - i,
    {
        if fields[i].required {
            let mut j: usize = 0;
            let mut present = false;
            while j < entries.len()
                invariant
                    j <= entries@.len(),
                    i < fields@.len(),
                    ev == entries_v(entries@),
                    present ==> exists|x: int| 0 <= x < ev.len() && field_name(#[trigger] ev[x].0) == Some(fields@[i as int].name@),
                    !present ==> forall|x: int| 0 <= x < j ==> field_name(#[trigger] ev[x].0) != Some(fields@[i as int].name@),
                decreases entries@.len() - j,
            {
                assert(ev[j as int].0 == expr_v(entries@[j as int].0));
                match config_field_name(&entries[j].0) {
                    Some(n) => {
                        if str_eq(n, fields[i].name.as_str()) {
                            present = true;
                        }
                    },
                    None => {},
                }
                j += 1;
            }
            if !present {
                let mut m = concat2(context, ": missing required key ");
                append_str(&mut m, fields[i].name.as_str());
                return Err(m);
            }
        }
        i += 1;
    }
    Ok(())
}

fn check_entries_exec(entries: &Vec<(ConfigExpr, ConfigExpr)>, fields: &Vec<FieldSpec>, context: &str) -> (r: Result<(), String>)
    ensures
        res_text(r) == check_entries(entries_v(entries@), fields@, context@, 0),
    decreases fields, 1nat, 0nat,
{
    let ghost ev = entries_v(entries@);
    let mut i: usize = 0;
    while i < entries.len()
        invariant
            i <= entries@.len(),
            ev == entries_v(entries@),
            check_entries(ev, fields@, context@, 0) == check_entries(ev, fields@, context@, i as nat),
        decreases entries@.len() - i,
    {
        assert(ev[i as int] == (expr_v(entries@[i as int].0), expr_v(entries@[i as int].1)));
        let mut j: usize = 0;
        while j < i
            invariant
                j <= i < entries@.len(),
                ev == entries_v(entries@),
                check_entries(ev, fields@, context@, 0) == check_entries(ev, fields@, context@, i as nat),
                forall|x: int| 0 <= x < j ==> !same_field(#[trigger] ev[x].0, ev[i as int].0),
            decreases i - j,
        {
            assert(ev[j as int].0 == expr_v(entries@[j as int].0));
            if same_config_field(&entries[j].0, &entries[i].0) {
                assert(exists|x: int| 0 <= x < i && same_field(#[trigger] ev[x].0, ev[i as int].0));
                let mut m = concat2(context, ": duplicate key ");
                match config_field_name(&entries[i].0) {
                    Some(n) => append_str(&mut m, n),
                    None => append_str(&mut m, "<opaque>"),
                }
                return Err(m);
            }
            j += 1;
        }
        let name = match config_field_name(&entries[i].0) {
            Some(n) => n,
            None => {
                return Err(concat2(context, " key expected symbol or string"));
            },
        };
        let k = match find_spec(fields, name) {
            Some(k) => k,
            None => {
                let mut m = concat2(context, ": extra key ");
                append_str(&mut m, name);
                return Err(m);
            },
        };
        assert(decreases_to!(fields => fields@));
        assert(decreases_to!(fields@ => fields@[k as int]));
        assert(decreases_to!(fields@[k as int] => fields@[k as int].shape));
        match check_shape(&fields[k].shape, name, &entries[i].1) {
            Ok(()) => {},
            Err(m) => {
                return Err(m);
            },
        }
        i += 1;
    }
    Ok(())
}

fn check_shape(shape: &FieldShape, name: &str, v: &ConfigExpr) -> (r: Result<(), String>)
    ensures
        res_text(r) == shape_check(*shape, name@, expr_v(*v)),
    decreases shape, 0nat, 0nat,
{
    match shape {
        FieldShape::Kind(k) => {
            if k.matches(v) {
                Ok(())
            } else {
                let mut m = concat2(name, " expected ");
                append_str(&mut m, k.name());
                Err(m)
            }
        },
        FieldShape::StringList => match v {
            ConfigExpr::List(items) => {
                let ghost iv = items_v(items@);
                let mut i: usize = 0;
                while i < items.len()
                    invariant
                        i <= items@.len(),
                        iv == items_v(items@),
                        *shape == FieldShape::StringList,
                        expr_v(*v) == ExprV::List(iv),
                        string_items_check(iv, name@, 0) == string_items_check(iv, name@, i as nat),
                    decreases items@.len() - i,
                {
                    let is_str = match &items[i] {
                        ConfigExpr::String(_) => true,
                        _ => false,
                    };
                    if !is_str {
                        assert(!(iv[i as int] is Str));
                        let mut m = indexed_text(name, i);
                        append_str(&mut m, " expected string");
                        return Err(m);
                    }
                    i += 1;
                }
                Ok(())
            },
            _ => Err(concat2(name, " expected list")),
        },
        FieldShape::TableList(fs) => match v {
            ConfigExpr::List(items) => {
                assert(decreases_to!(*shape => (*shape)->TableList_0));
                check_list(items, fs, name)
            },
            _ => Err(concat2(name, " expected repeated table list")),
        },
    }
}

fn check_list(items: &Vec<ConfigExpr>, fields: &Vec<FieldSpec>, name: &str) -> (r: Result<(), String>)
    ensures
        res_text(r) == list_check(items_v(items@), fields@, name@, 0),
    decreases fields, 3nat, 0nat,
{
    let ghost iv = items_v(items@);
    let mut i: usize = 0;
    while i < items.len()
        invariant
            i <= items@.len(),
            iv == items_v(items@),
            list_check(iv, fields@, name@, 0) == list_check(iv, fields@, name@, i as nat),
        decreases items@.len() - i,
    {
        let ctx = indexed_text(name, i);
        match check_table(&items[i], fields, ctx.as_str()) {
            Ok(()) => {},
            Err(m) => {
                return Err(m);
            },
        }
        i += 1;
    }
    Ok(())
}


/// A named contract for a config table.
#[derive(Debug, PartialEq, Eq)]
pub struct TableContract {
    /// Contract id.
    pub symbol: Sym,
    /// Declared fields.
    pub fields: Vec<FieldSpec>,
}

impl TableContract {
    /// A contract over the fields.
    pub fn new(symbol: Sym, fields: Vec<FieldSpec>) -> (r: TableContract)
        ensures
            r.symbol == symbol && r.fields == fields,
    {
        TableContract { symbol, fields }
    }

    /// Checks a table expression: its score, the number of declared fields,
    /// or the first violation.
    pub fn check(&self, expr: &ConfigExpr) -> (r: Result<usize, String>)
        ensures
            match table_check(expr_v(*expr), self.fields@, "config table"@) {
                Ok(()) => r == Ok::<usize, String>(self.fields@.len() as usize),
                Err(m) => r matches Err(x) && x@ == m,
            },
    {
        match check_table(expr, &self.fields, "config table") {
            Ok(()) => Ok(self.fields.len()),
            Err(m) => Err(m),
        }
    }
}

/// Keys in order of first appearance, each once.
pub open spec fn dedup_spec(keys: Seq<Seq<char>>) -> Seq<Seq<char>>
    decreases keys.len(),
{
    if keys.len() == 0 {
        Seq::empty()
    } else {
        let prev = dedup_spec(keys.drop_last());
        if prev.contains(keys.last()) {
            prev
        } else {
            prev.push(keys.last())
        }
    }
}

/// Keys in order of first appearance, each once.
fn dedupe_keys(keys: &Vec<String>) -> (r: Vec<String>)
    ensures
        texts(r@) == dedup_spec(texts(keys@)),
{
    let ghost kv = texts(keys@);
    let mut out: Vec<String> = Vec::new();
    let mut i: usize = 0;
    while i < keys.len()
        invariant
            i <= keys@.len(),
            kv == texts(keys@),
            texts(out@) == dedup_spec(kv.take(i as int)),
        decreases keys@.len() - i,
    {
        let ghost ov = texts(out@);
        assert(kv.take(i + 1).drop_last() =~= kv.take(i as int));
        assert(kv.take(i + 1).last() == keys@[i as int]@);
        let mut j: usize = 0;
        let mut seen = false;
        while j < out.len()
            invariant
                j <= out@.len(),
                ov == texts(out@),
                i < keys@.len(),
                seen ==> ov.contains(keys@[i as int]@),
                !seen ==> forall|x: int| 0 <= x < j ==> ov[x] != keys@[i as int]@,
            decreases out@.len() - j,
        {
            if str_eq(out[j].as_str(), keys[i].as_str()) {
                assert(ov[j as int] == keys@[i as int]@);
                seen = true;
            }
            j += 1;
        }
        if !seen {
            out.push(keys[i].clone());
            assert(texts(out@) =~= ov.push(keys@[i as int]@));
        }
        i += 1;
    }
    assert(kv.take(keys@.len() as int) =~= kv);
    out
}

/// Secret-bearing config field metadata exported by a [`ConfigShape`].
#[derive(Clone, Debug, PartialEq, Eq)]
pub struct ConfigSecretField {
    /// Library whose table contains the secret field.
    pub lib: Sym,
    /// Top-level field key whose value must be redacted by report surfaces.
    pub key: String,
}

/// Shape-backed contract for one library's configuration table.
#[derive(Debug, PartialEq, Eq)]
pub struct ConfigShape {
    /// Library id whose configuration this shape validates.
    pub lib: Sym,
    /// Contract applied to the effective table after defaults are bound.
    pub shape: TableContract,
    /// Built-in defaults for absent fields.
    pub defaults: ConfigTable,
    /// Top-level keys whose values are secret-bearing.
    pub secret_keys: Vec<String>,
}

/// The layers that bind a table to defaults: the defaults as built-in
/// configuration of the library, then the table as explicit input.
pub open spec fn binding_layers(lib: SymV, defaults: (SymV, ExprV), table: (SymV, ExprV)) -> Seq<(SourceV, Seq<(SymV, ExprV)>)> {
    seq![
        (SourceV::BuiltIn(lib), seq![defaults]),
        (SourceV::Explicit("shape-validated-input"@), seq![table]),
    ]
}

/// A table bound to defaults: the library's merged table, or the table
/// itself when the merge holds none.
pub open spec fn bound_table(lib: SymV, defaults: (SymV, ExprV), table: (SymV, ExprV)) -> (SymV, ExprV) {
    let e = merge_layers_spec(binding_layers(lib, defaults, table), 2);
    match first_lib(e.dir, lib) {
        Some(i) => e.dir[i],
        None => table,
    }
}

/// What validating a table answers: a table of another library, or
/// defaults of another library, are refused; otherwise the table bound to
/// the defaults must fit the contract.
pub open spec fn validate_spec(s: ConfigShape, table: (SymV, ExprV)) -> Result<(SymV, ExprV), Seq<char>> {
    let lib = sym_v(s.lib);
    if table.0 != lib {
        Err("config table for `"@ + qualified_str(table.0) + "` cannot validate as `"@ + qualified_str(lib) + "`"@)
    } else if sym_v(s.defaults.lib) != lib {
        Err("config defaults for `"@ + qualified_str(sym_v(s.defaults.lib)) + "` do not match shape lib `"@
            + qualified_str(lib) + "`"@)
    } else {
        let b = bound_table(lib, table_v(s.defaults), table);
        match table_check(b.1, s.shape.fields@, "config table"@) {
            Ok(()) => Ok(b),
            Err(m) => Err(m),
        }
    }
}

impl ConfigShape {
    /// Creates a config shape with no secret keys.
    pub fn new(lib: Sym, shape: TableContract, defaults: ConfigTable) -> (r: ConfigShape)
        ensures
            r.lib == lib && r.shape == shape && r.defaults == defaults && r.secret_keys@.len() == 0,
    {
        ConfigShape { lib, shape, defaults, secret_keys: Vec::new() }
    }

    /// Sets the secret keys, each once, in order of first appearance.
    pub fn with_secret_keys(self, keys: Vec<String>) -> (r: ConfigShape)
        ensures
            r.lib == self.lib && r.shape == self.shape && r.defaults == self.defaults,
            texts(r.secret_keys@) == dedup_spec(texts(keys@)),
    {
        let secret_keys = dedupe_keys(&keys);
        ConfigShape { lib: self.lib, shape: self.shape, defaults: self.defaults, secret_keys }
    }

    /// Validates a table: binds it to the built-in defaults and checks the
    /// result against the contract, returning the bound table.
    pub fn validate(&self, table: &ConfigTable) -> (r: Result<ConfigTable, String>)
        ensures
            match validate_spec(*self, table_v(*table)) {
                Ok(t) => r matches Ok(x) && table_v(x) == t,
                Err(m) => r matches Err(x) && x@ == m,
            },
    {
        if !same_sym(&table.lib, &self.lib) {
            let mut m = text("config table for `");
            append_str(&mut m, as_qualified_str(&table.lib).as_str());
            append_str(&mut m, "` cannot validate as `");
            append_str(&mut m, as_qualified_str(&self.lib).as_str());
            append_str(&mut m, "`");
            return Err(m);
        }
        if !same_sym(&self.defaults.lib, &self.lib) {
            let mut m = text("config defaults for `");
            append_str(&mut m, as_qualified_str(&self.defaults.lib).as_str());
            append_str(&mut m, "` do not match shape lib `");
            append_str(&mut m, as_qualified_str(&self.lib).as_str());
            append_str(&mut m, "`");
            return Err(m);
        }
        let effective = self.bind_defaults(table);
        match self.shape.check(&effective.table) {
            Ok(_) => Ok(effective),
            Err(m) => Err(m),
        }
    }

    /// Returns this shape's built-in defaults as a merge layer.
    pub fn defaults_layer(&self) -> (r: ConfigLayer)
        ensures
            layer_v(r) == (SourceV::BuiltIn(sym_v(self.lib)), seq![table_v(self.defaults)]),
    {
        let mut entries: Vec<ConfigTable> = Vec::new();
        entries.push(self.defaults.copy());
        let dir = ConfigDir { entries };
        assert(dir_v(dir) =~= seq![table_v(self.defaults)]);
        ConfigLayer { source: ConfigSource::BuiltIn { lib: self.lib.copy() }, dir }
    }

    /// Whether `key` is marked secret-bearing.
    pub fn marks_secret(&self, key: &str) -> (b: bool)
        ensures
            b == texts(self.secret_keys@).contains(key@),
    {
        let mut i: usize = 0;
        while i < self.secret_keys.len()
            invariant
                i <= self.secret_keys@.len(),
                forall|j: int| 0 <= j < i ==> self.secret_keys@[j]@ != key@,
            decreases self.secret_keys@.len() - i,
        {
            if str_eq(self.secret_keys[i].as_str(), key) {
                assert(texts(self.secret_keys@)[i as int] == key@);
                return true;
            }
            i += 1;
        }
        assert(!texts(self.secret_keys@).contains(key@)) by {
            if texts(self.secret_keys@).contains(key@) {
                let j = choose|j: int| 0 <= j < texts(self.secret_keys@).len() && texts(self.secret_keys@)[j] == key@;
                assert(self.secret_keys@[j]@ == key@);
            }
        }
        false
    }

    /// Secret field records for report and redaction code: each secret key
    /// once, in order, with this shape's library.
    pub fn secret_fields(&self) -> (r: Vec<ConfigSecretField>)
        ensures
            r@.len() == dedup_spec(texts(self.secret_keys@)).len(),
            forall|i: int|
                0 <= i < r@.len() ==> sym_v((#[trigger] r@[i]).lib) == sym_v(self.lib) && r@[i].key@
                    == dedup_spec(texts(self.secret_keys@))[i],
    {
        let keys = dedupe_keys(&self.secret_keys);
        let mut out: Vec<ConfigSecretField> = Vec::new();
        let mut i: usize = 0;
        while i < keys.len()
            invariant
                i <= keys@.len(),
                texts(keys@) == dedup_spec(texts(self.secret_keys@)),
                out@.len() == i,
                forall|j: int|
                    0 <= j < i ==> sym_v((#[trigger] out@[j]).lib) == sym_v(self.lib) && out@[j].key@ == keys@[j]@,
            decreases keys@.len() - i,
        {
            out.push(ConfigSecretField { lib: self.lib.copy(), key: keys[i].clone() });
            i += 1;
        }
        proof {
            assert forall|j: int| 0 <= j < out@.len() implies out@[j].key@ == dedup_spec(texts(self.secret_keys@))[j] by {
                assert(texts(keys@)[j] == keys@[j]@);
            }
        }
        out
    }

    fn bind_defaults(&self, table: &ConfigTable) -> (r: ConfigTable)
        ensures
            table_v(r) == bound_table(sym_v(self.lib), table_v(self.defaults), table_v(*table)),
    {
        let mut entries: Vec<ConfigTable> = Vec::new();
        entries.push(table.copy());
        let dir = ConfigDir { entries };
        assert(dir_v(dir) =~= seq![table_v(*table)]);
        let explicit = ConfigLayer { source: ConfigSource::Explicit { label: text("shape-validated-input") }, dir };
        let mut layers: Vec<ConfigLayer> = Vec::new();
        layers.push(self.defaults_layer());
        layers.push(explicit);
        proof {
            assert(layers@.map_values(|l: ConfigLayer| layer_v(l)) =~= binding_layers(
                sym_v(self.lib),
                table_v(self.defaults),
                table_v(*table),
            ));
        }
        let effective = merge_layers(layers.as_slice());
        match effective.dir.table(&self.lib) {
            Some(t) => t.copy(),
            None => table.copy(),
        }
    }
}

/// Default configuration contract exposed by a loadable library.
pub trait LibConfigDefaults {
    /// Returns the shape-backed config contract for this library.
    fn config_shape(&self) -> ConfigShape;

    /// Returns the built-in defaults layer published by this library.
    fn built_in_config_layer(&self) -> ConfigLayer {
        self.config_shape().defaults_layer()
    }
}

} // verus!
