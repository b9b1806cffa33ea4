//! Configuration tables and dirs.
//!
//! A table is one library's map expression; a dir carries one table per
//! library id. Library ids are canonical symbols: `namespace/name` or a
//! plain name, each part non-empty and free of `/` and control characters.

use vstd::prelude::*;

use crate::config::expr::{
    ConfigExpr, ExprV, SymV, config_field_label, debug_text, expr_v, entries_v, items_v, kernel_debug, key_label,
    same_config_field, same_field,
};
use crate::conformance::datum::{Sym, sym_v};
use crate::conformance::identity::{contains_control, has_control};
use crate::text::{append_str, str_debug, chars_of, concat3, str_eq, string_of_range, text};

verus! {

/// Error reported by config table, view and path helpers.
#[derive(Debug, PartialEq, Eq)]
pub enum ConfigError {
    /// A dir expression was not a map.
    NonDirExpr,
    /// A table expression was not a map.
    NonTableExpr,
    /// A dir entry for `lib` did not contain a table value.
    NonTableConfig {
        /// The library whose dir entry was malformed.
        lib: Sym,
    },
    /// A dir key could not be interpreted as a library id.
    UnsupportedDirKey {
        /// The unsupported key expression.
        key: ConfigExpr,
    },
    /// A library id or id segment is not safe for config use.
    InvalidLibId {
        /// The rejected id.
        id: String,
    },
    /// A library config path segment was rejected.
    InvalidPathSegment {
        /// The rejected segment.
        segment: String,
    },
    /// A required field was absent from a config table.
    MissingField {
        /// The missing field name.
        key: String,
    },
    /// A config field had a different shape than the caller requested.
    TypeMismatch {
        /// The field name.
        key: String,
        /// The expected shape.
        expected: &'static str,
    },
    /// Two dir entries named the same library.
    DuplicateLibId {
        /// The repeated library id.
        lib: Sym,
    },
    /// Two keys of one map named the same field.
    DuplicateField {
        /// The repeated field's label.
        key: String,
    },
}

/// Mathematical value of a [`ConfigError`].
pub enum ConfigErrorV {
    NonDirExpr,
    NonTableExpr,
    NonTableConfig(SymV),
    UnsupportedDirKey(ExprV),
    InvalidLibId(Seq<char>),
    InvalidPathSegment(Seq<char>),
    MissingField(Seq<char>),
    TypeMismatch(Seq<char>, Seq<char>),
    DuplicateLibId(SymV),
    DuplicateField(Seq<char>),
}

impl View for ConfigError {
    type V = ConfigErrorV;

    open spec fn view(&self) -> ConfigErrorV {
        match self {
            ConfigError::NonDirExpr => ConfigErrorV::NonDirExpr,
            ConfigError::NonTableExpr => ConfigErrorV::NonTableExpr,
            ConfigError::NonTableConfig { lib } => ConfigErrorV::NonTableConfig(sym_v(*lib)),
            ConfigError::UnsupportedDirKey { key } => ConfigErrorV::UnsupportedDirKey(expr_v(*key)),
            ConfigError::InvalidLibId { id } => ConfigErrorV::InvalidLibId(id@),
            ConfigError::InvalidPathSegment { segment } => ConfigErrorV::InvalidPathSegment(segment@),
            ConfigError::MissingField { key } => ConfigErrorV::MissingField(key@),
            ConfigError::TypeMismatch { key, expected } => ConfigErrorV::TypeMismatch(key@, expected@),
            ConfigError::DuplicateLibId { lib } => ConfigErrorV::DuplicateLibId(sym_v(*lib)),
            ConfigError::DuplicateField { key } => ConfigErrorV::DuplicateField(key@),
        }
    }
}

/// The text of a config error.
pub open spec fn config_error_message(e: ConfigErrorV) -> Seq<char> {
    match e {
        ConfigErrorV::NonDirExpr => "config dir must be an Expr::Map"@,
        ConfigErrorV::NonTableExpr => "config table must be an Expr::Map"@,
        ConfigErrorV::NonTableConfig(lib) => "config for `"@ + qualified_str(lib) + "` must be a table"@,
        ConfigErrorV::UnsupportedDirKey(k) => "config dir key "@ + kernel_debug(k)
            + " is not a supported library id"@,
        ConfigErrorV::InvalidLibId(id) => "invalid config library id `"@ + id + "`"@,
        ConfigErrorV::InvalidPathSegment(g) => "invalid config path segment `"@ + g + "`"@,
        ConfigErrorV::MissingField(k) => "config field `"@ + k + "` is missing"@,
        ConfigErrorV::TypeMismatch(k, x) => "config field `"@ + k + "` is not "@ + x,
        ConfigErrorV::DuplicateLibId(lib) => "config for `"@ + qualified_str(lib)
            + "` appears more than once"@,
        ConfigErrorV::DuplicateField(k) => "config field `"@ + k + "` appears more than once"@,
    }
}

impl ConfigError {
    /// The text of this error.
    pub fn message(&self) -> (r: String)
        ensures
            r@ == config_error_message(self@),
    {
        match self {
            ConfigError::NonDirExpr => text("config dir must be an Expr::Map"),
            ConfigError::NonTableExpr => text("config table must be an Expr::Map"),
            ConfigError::NonTableConfig { lib } => concat3(
                "config for `",
                as_qualified_str(lib).as_str(),
                "` must be a table",
            ),
            ConfigError::UnsupportedDirKey { key } => concat3(
                "config dir key ",
                debug_text(key).as_str(),
                " is not a supported library id",
            ),
            ConfigError::InvalidLibId { id } => concat3("invalid config library id `", id.as_str(), "`"),
            ConfigError::InvalidPathSegment { segment } => concat3(
                "invalid config path segment `",
                segment.as_str(),
                "`",
            ),
            ConfigError::MissingField { key } => concat3("config field `", key.as_str(), "` is missing"),
            ConfigError::TypeMismatch { key, expected } => {
                let mut r = concat3("config field `", key.as_str(), "` is not ");
                append_str(&mut r, expected);
                r
            },
            ConfigError::DuplicateLibId { lib } => concat3(
                "config for `",
                as_qualified_str(lib).as_str(),
                "` appears more than once",
            ),
            ConfigError::DuplicateField { key } => concat3(
                "config field `",
                key.as_str(),
                "` appears more than once",
            ),
        }
    }
}

/// The text the kernel reports when it refuses a symbol name: the name as
/// a `{:?}` literal, then why, a `/` taking precedence over a control
/// character.
pub open spec fn symbol_check_text(name: Seq<char>) -> Seq<char> {
    if name.contains('/') {
        "symbol name "@ + str_debug(name) + " contains the reserved namespace separator '/'"@
    } else {
        "symbol name "@ + str_debug(name) + " contains a control character"@
    }
}

/// `sim_kernel::Symbol::checked`: refuses a name holding `/` or a control
/// character, reporting the refusal's display text, [`symbol_check_text`]
/// of the name.
#[verifier::external_body]
fn check_symbol_name(name: &str) -> (r: Option<String>)
    ensures
        match r {
            None => !name@.contains('/') && !has_control(name@),
            Some(m) => (name@.contains('/') || has_control(name@)) && m@ == symbol_check_text(name@),
        },
{
    sim_kernel::Symbol::checked(name).err().map(|e| e.to_string())
}

/// A symbol written as `namespace/name`, or `name` when unqualified.
pub open spec fn qualified_str(s: SymV) -> Seq<char> {
    match s.0 {
        Some(n) => n + "/"@ + s.1,
        None => s.1,
    }
}

/// Position of the first `/`.
pub open spec fn first_slash(id: Seq<char>) -> Option<int> {
    if id.contains('/') {
        Some(choose|p: int| 0 <= p < id.len() && id[p] == '/' && forall|q: int| 0 <= q < p ==> id[q] != '/')
    } else {
        None
    }
}

/// The library id a text names, or why it names none.
pub open spec fn lib_id_spec(id: Seq<char>) -> Result<SymV, ConfigErrorV> {
    if id.len() == 0 {
        Err(ConfigErrorV::InvalidLibId(id))
    } else {
        match first_slash(id) {
            Some(p) => {
                let ns = id.take(p);
                let name = id.skip(p + 1);
                if ns.len() > 0 && name.len() > 0 {
                    if name.contains('/') {
                        Err(ConfigErrorV::InvalidLibId(id))
                    } else if has_control(ns) {
                        Err(ConfigErrorV::InvalidLibId(symbol_check_text(ns)))
                    } else if has_control(name) {
                        Err(ConfigErrorV::InvalidLibId(symbol_check_text(name)))
                    } else {
                        Ok((Some(ns), name))
                    }
                } else {
                    Err(ConfigErrorV::InvalidLibId(id))
                }
            },
            None => if has_control(id) {
                Err(ConfigErrorV::InvalidLibId(symbol_check_text(id)))
            } else {
                Ok((None, id))
            },
        }
    }
}

/// Value of a symbol result.
pub open spec fn sym_result_v(r: Result<Sym, ConfigError>) -> Result<SymV, ConfigErrorV> {
    match r {
        Ok(s) => Ok(sym_v(s)),
        Err(e) => Err(e@),
    }
}

/// Parses a library id string into a symbol.
pub fn lib_symbol_from_str(id: &str) -> (r: Result<Sym, ConfigError>)
    ensures
        sym_result_v(r) == lib_id_spec(id@),
{
    if id.is_empty() {
        return Err(ConfigError::InvalidLibId { id: text(id) });
    }
    let cs = chars_of(id);
    let mut p: usize = 0;
    while p < cs.len() && cs[p] != '/'
        invariant
            p <= cs@.len(),
            cs@ == id@,
            forall|q: int| 0 <= q < p ==> cs@[q] != '/',
        decreases cs@.len() - p,
    {
        p += 1;
    }
    if p == cs.len() {
        assert(!id@.contains('/')) by {
            if id@.contains('/') {
                let q = choose|q: int| 0 <= q < id@.len() && id@[q] == '/';
            }
        }
        return match check_symbol_name(id) {
            None => Ok(Sym { namespace: None, name: text(id) }),
            Some(m) => Err(ConfigError::InvalidLibId { id: m }),
        };
    }
    proof {
        assert(id@.contains('/')) by {
            assert(id@[p as int] == '/');
        }
        let w = choose|w: int| 0 <= w < id@.len() && id@[w] == '/' && forall|q: int| 0 <= q < w ==> id@[q] != '/';
        assert(w == p) by {
            if w < p {
                assert(cs@[w] != '/');
            } else if p < w {
                assert(id@[p as int] != '/');
            }
        }
    }
    assert(first_slash(id@) == Some(p as int));
    let ns = string_of_range(&cs, 0, p);
    let name = string_of_range(&cs, p + 1, cs.len());
    assert(ns@ =~= id@.take(p as int));
    assert(name@ =~= id@.skip(p + 1));
    if ns.as_str().is_empty() || name.as_str().is_empty() {
        return Err(ConfigError::InvalidLibId { id: text(id) });
    }
    let nc = chars_of(name.as_str());
    let mut k: usize = 0;
    while k < nc.len()
        invariant
            k <= nc@.len(),
            nc@ == name@,
            id@.len() > 0,
            first_slash(id@) == Some(p as int),
            ns@ == id@.take(p as int),
            name@ == id@.skip(p + 1),
            ns@.len() > 0 && name@.len() > 0,
            forall|q: int| 0 <= q < k ==> nc@[q] != '/',
        decreases nc@.len() - k,
    {
        if nc[k] == '/' {
            assert(name@.contains('/')) by {
                assert(name@[k as int] == '/');
            }
            return Err(ConfigError::InvalidLibId { id: text(id) });
        }
        k += 1;
    }
    assert(!name@.contains('/')) by {
        if name@.contains('/') {
            let q = choose|q: int| 0 <= q < name@.len() && name@[q] == '/';
            assert(nc@[q] == '/');
        }
    }
    assert(!ns@.contains('/')) by {
        if ns@.contains('/') {
            let q = choose|q: int| 0 <= q < ns@.len() && ns@[q] == '/';
            assert(cs@[q] == '/');
        }
    }
    match check_symbol_name(ns.as_str()) {
        Some(m) => {
            return Err(ConfigError::InvalidLibId { id: m });
        },
        None => {},
    }
    match check_symbol_name(name.as_str()) {
        Some(m) => {
            return Err(ConfigError::InvalidLibId { id: m });
        },
        None => {},
    }
    Ok(Sym { namespace: Some(ns), name })
}

/// Writes a symbol as `namespace/name`, or `name` when unqualified.
pub fn as_qualified_str(s: &Sym) -> (r: String)
    ensures
        r@ == qualified_str(sym_v(*s)),
{
    match &s.namespace {
        Some(n) => concat3(n.as_str(), "/", s.name.as_str()),
        None => s.name.clone(),
    }
}

/// The canonical spelling of a library symbol.
pub open spec fn canonical_lib_spec(s: SymV) -> Result<SymV, ConfigErrorV> {
    lib_id_spec(qualified_str(s))
}

fn canonical_lib_symbol(symbol: &Sym) -> (r: Result<Sym, ConfigError>)
    ensures
        sym_result_v(r) == canonical_lib_spec(sym_v(*symbol)),
{
    let q = as_qualified_str(symbol);
    lib_symbol_from_str(q.as_str())
}

/// The first repeated field of a map, searching nested maps and list items
/// in order: the label of the first key naming the same field as an
/// earlier key of its map.
pub open spec fn dup_in(e: ExprV) -> Option<Seq<char>>
    decreases e, 0nat,
{
    match e {
        ExprV::Table(entries) => dup_entries(entries, 0),
        ExprV::List(items) => dup_items(items, 0),
        _ => None,
    }
}

/// [`dup_in`] over the entries from position `i` on.
pub open spec fn dup_entries(entries: Seq<(ExprV, ExprV)>, i: nat) -> Option<Seq<char>>
    decreases entries, entries.len() - i,
{
    if i >= entries.len() {
        None
    } else if exists|j: int| 0 <= j < i && same_field(#[trigger] entries[j].0, entries[i as int].0) {
        Some(key_label(entries[i as int].0))
    } else {
        proof {
            assert(decreases_to!(entries => entries[i as int]));
        }
        match dup_in(entries[i as int].1) {
            Some(k) => Some(k),
            None => dup_entries(entries, i + 1),
        }
    }
}

/// [`dup_in`] over the items from position `i` on.
pub open spec fn dup_items(items: Seq<ExprV>, i: nat) -> Option<Seq<char>>
    decreases items, items.len() - i,
{
    if i >= items.len() {
        None
    } else {
        match dup_in(items[i as int]) {
            Some(k) => Some(k),
            None => dup_items(items, i + 1),
        }
    }
}

fn reject_duplicate_fields(e: &ConfigExpr) -> (r: Result<(), ConfigError>)
    ensures
        match dup_in(expr_v(*e)) {
            Some(k) => r matches Err(err) && err@ == ConfigErrorV::DuplicateField(k),
            None => r is Ok,
        },
    decreases e,
{
    match e {
        ConfigExpr::Table(entries) => {
            let ghost ev = entries_v(entries@);
            let mut i: usize = 0;
            while i < entries.len()
                invariant
                    i <= entries@.len(),
                    *e == ConfigExpr::Table(*entries),
                    ev == entries_v(entries@),
                    dup_in(expr_v(*e)) == dup_entries(ev, i as nat),
                decreases entries@.len() - i,
            {
                let mut j: usize = 0;
                while j < i
                    invariant
                        j <= i < entries@.len(),
                        ev == entries_v(entries@),
                        *e == ConfigExpr::Table(*entries),
                        dup_in(expr_v(*e)) == dup_entries(ev, i as nat),
                        forall|x: int| 0 <= x < j ==> !same_field(#[trigger] ev[x].0, ev[i as int].0),
                    decreases i - j,
                {
                    if same_config_field(&entries[j].0, &entries[i].0) {
                        assert(ev[j as int].0 == expr_v(entries@[j as int].0));
                        assert(ev[i as int].0 == expr_v(entries@[i as int].0));
                        assert(same_field(ev[j as int].0, ev[i as int].0));
                        assert(exists|x: int| 0 <= x < i && same_field(#[trigger] ev[x].0, ev[i as int].0));
                        return Err(ConfigError::DuplicateField { key: config_field_label(&entries[i].0) });
                    }
                    j += 1;
                }
                assert(decreases_to!(*e => (*e)->Table_0));
                assert(decreases_to!((*e)->Table_0 => ((*e)->Table_0)@));
                assert(decreases_to!(((*e)->Table_0)@ => ((*e)->Table_0)@[i as int]));
                assert(decreases_to!(((*e)->Table_0)@[i as int] => ((*e)->Table_0)@[i as int].1));
                match reject_duplicate_fields(&entries[i].1) {
                    Ok(()) => {},
                    Err(err) => {
                        return Err(err);
                    },
                }
                i += 1;
            }
            Ok(())
        },
        ConfigExpr::List(items) => {
            let ghost iv = items_v(items@);
            let mut i: usize = 0;
            while i < items.len()
                invariant
                    i <= items@.len(),
                    *e == ConfigExpr::List(*items),
                    iv == items_v(items@),
                    dup_in(expr_v(*e)) == dup_items(iv, i as nat),
                decreases items@.len() - i,
            {
                assert(decreases_to!(*e => (*e)->List_0));
                assert(decreases_to!((*e)->List_0 => ((*e)->List_0)@));
                assert(decreases_to!(((*e)->List_0)@ => ((*e)->List_0)@[i as int]));
                match reject_duplicate_fields(&items[i]) {
                    Ok(()) => {},
                    Err(err) => {
                        return Err(err);
                    },
                }
                i += 1;
            }
            Ok(())
        },
        _ => Ok(()),
    }
}


/// One library's configuration table.
#[derive(Debug, PartialEq, Eq)]
pub struct ConfigTable {
    /// Library id whose configuration this table carries.
    pub lib: Sym,
    /// Configuration data; a map when built by [`ConfigTable::new`].
    pub table: ConfigExpr,
}

/// Value of a table: its library and its expression.
pub open spec fn table_v(t: ConfigTable) -> (SymV, ExprV) {
    (sym_v(t.lib), expr_v(t.table))
}

/// The table a library and an expression make, or why they make none: the
/// expression must be a map without repeated fields, and the library id
/// must be valid; it is kept in canonical spelling.
pub open spec fn table_spec(lib: SymV, table: ExprV) -> Result<(SymV, ExprV), ConfigErrorV> {
    if !(table is Table) {
        Err(ConfigErrorV::NonTableExpr)
    } else {
        match dup_in(table) {
            Some(k) => Err(ConfigErrorV::DuplicateField(k)),
            None => match canonical_lib_spec(lib) {
                Ok(s) => Ok((s, table)),
                Err(e) => Err(e),
            },
        }
    }
}

/// Value of a table result.
pub open spec fn table_result_v(r: Result<ConfigTable, ConfigError>) -> Result<(SymV, ExprV), ConfigErrorV> {
    match r {
        Ok(t) => Ok(table_v(t)),
        Err(e) => Err(e@),
    }
}

impl ConfigTable {
    /// Creates a table, rejecting non-map expressions, repeated fields and
    /// invalid library ids.
    pub fn new(lib: Sym, table: ConfigExpr) -> (r: Result<ConfigTable, ConfigError>)
        ensures
            table_result_v(r) == table_spec(sym_v(lib), expr_v(table)),
    {
        let is_table = match &table {
            ConfigExpr::Table(_) => true,
            _ => false,
        };
        if !is_table {
            return Err(ConfigError::NonTableExpr);
        }
        match reject_duplicate_fields(&table) {
            Ok(()) => {},
            Err(e) => {
                return Err(e);
            },
        }
        match canonical_lib_symbol(&lib) {
            Ok(s) => Ok(ConfigTable { lib: s, table }),
            Err(e) => Err(e),
        }
    }

    /// Borrows this table's map entries.
    pub fn entries(&self) -> (r: Result<&Vec<(ConfigExpr, ConfigExpr)>, ConfigError>)
        ensures
            match expr_v(self.table) {
                ExprV::Table(es) => r matches Ok(v) && entries_v(v@) == es,
                _ => r matches Err(e) && e@ == ConfigErrorV::NonTableExpr,
            },
    {
        match &self.table {
            ConfigExpr::Table(entries) => Ok(entries),
            _ => Err(ConfigError::NonTableExpr),
        }
    }

    /// A copy with the same value.
    pub fn copy(&self) -> (r: ConfigTable)
        ensures
            table_v(r) == table_v(*self),
    {
        ConfigTable { lib: self.lib.copy(), table: self.table.copy() }
    }
}

/// A configuration dir: library id to table.
#[derive(Debug, PartialEq, Eq)]
pub struct ConfigDir {
    /// Tables carried by this dir.
    pub entries: Vec<ConfigTable>,
}

/// Value of a dir: its tables in order.
pub open spec fn dir_v(d: ConfigDir) -> Seq<(SymV, ExprV)> {
    tables_v(d.entries@)
}

/// Values of a list of tables.
pub open spec fn tables_v(v: Seq<ConfigTable>) -> Seq<(SymV, ExprV)> {
    v.map_values(|t: ConfigTable| table_v(t))
}

/// Position of the first table of a library.
pub open spec fn first_lib(d: Seq<(SymV, ExprV)>, lib: SymV) -> Option<int> {
    if exists|i: int| 0 <= i < d.len() && #[trigger] d[i].0 == lib && forall|j: int| 0 <= j < i ==> d[j].0 != lib {
        Some(choose|i: int| 0 <= i < d.len() && #[trigger] d[i].0 == lib && forall|j: int| 0 <= j < i ==> d[j].0 != lib)
    } else {
        None
    }
}

/// The first table of `lib` is at `i`.
pub proof fn lemma_first_lib(d: Seq<(SymV, ExprV)>, lib: SymV, i: int)
    requires
        0 <= i < d.len(),
        d[i].0 == lib,
        forall|j: int| 0 <= j < i ==> d[j].0 != lib,
    ensures
        first_lib(d, lib) == Some(i),
{
    let w = choose|w: int| 0 <= w < d.len() && #[trigger] d[w].0 == lib && forall|j: int| 0 <= j < w ==> d[j].0 != lib;
    assert(d[i].0 == lib);
    assert(w == i) by {
        if w < i {
            assert(d[w].0 != lib);
        } else if i < w {
            assert(d[i].0 != lib);
        }
    }
}

/// Finds the position of the first table of a library.
pub(crate) fn find_lib(v: &Vec<ConfigTable>, lib: &Sym) -> (r: Option<usize>)
    ensures
        match r {
            Some(i) => first_lib(tables_v(v@), sym_v(*lib)) == Some(i as int) && i < v@.len()
                && sym_v(v@[i as int].lib) == sym_v(*lib),
            None => first_lib(tables_v(v@), sym_v(*lib)) is None && forall|j: int|
                0 <= j < v@.len() ==> (#[trigger] tables_v(v@)[j]).0 != sym_v(*lib),
        },
{
    let ghost d = tables_v(v@);
    let mut i: usize = 0;
    while i < v.len()
        invariant
            i <= v@.len(),
            d == tables_v(v@),
            forall|j: int| 0 <= j < i ==> d[j].0 != sym_v(*lib),
        decreases v@.len() - i,
    {
        if crate::conformance::identity::same_sym(&v[i].lib, lib) {
            proof {
                lemma_first_lib(d, sym_v(*lib), i as int);
            }
            return Some(i);
        }
        i += 1;
    }
    assert(!exists|x: int| 0 <= x < d.len() && #[trigger] d[x].0 == sym_v(*lib));
    None
}

/// The dir value after inserting or replacing a library's table.
pub open spec fn upsert_spec(d: Seq<(SymV, ExprV)>, t: (SymV, ExprV)) -> Seq<(SymV, ExprV)> {
    match first_lib(d, t.0) {
        Some(i) => d.update(i, t),
        None => d.push(t),
    }
}

/// The library a dir key names: a symbol's canonical spelling or a string's
/// library id.
pub open spec fn symbol_key_spec(k: ExprV) -> Result<SymV, ConfigErrorV> {
    match k {
        ExprV::Symbol(s) => canonical_lib_spec(s),
        ExprV::Str(t) => lib_id_spec(t),
        _ => Err(ConfigErrorV::UnsupportedDirKey(k)),
    }
}

/// The table one dir entry adds after the tables `prev`, or why it fails:
/// an unsupported key, a non-table value, a table error, or a library
/// already present.
pub open spec fn dir_step_spec(prev: Seq<(SymV, ExprV)>, k: ExprV, v: ExprV) -> Result<(SymV, ExprV), ConfigErrorV> {
    match symbol_key_spec(k) {
        Err(e) => Err(e),
        Ok(lib) => if !(v is Table) {
            Err(ConfigErrorV::NonTableConfig(lib))
        } else {
            match table_spec(lib, v) {
                Err(e) => Err(e),
                Ok(t) => if exists|j: int| 0 <= j < prev.len() && #[trigger] prev[j].0 == t.0 {
                    Err(ConfigErrorV::DuplicateLibId(t.0))
                } else {
                    Ok(t)
                },
            }
        },
    }
}

/// The tables that dir entries make, or the first reason one fails.
pub open spec fn dir_pairs_spec(pairs: Seq<(ExprV, ExprV)>) -> Result<Seq<(SymV, ExprV)>, ConfigErrorV>
    decreases pairs.len(),
{
    if pairs.len() == 0 {
        Ok(Seq::empty())
    } else {
        match dir_pairs_spec(pairs.drop_last()) {
            Err(e) => Err(e),
            Ok(prev) => match dir_step_spec(prev, pairs.last().0, pairs.last().1) {
                Err(e) => Err(e),
                Ok(t) => Ok(prev.push(t)),
            },
        }
    }
}

/// The dir a map expression makes, or why it makes none.
pub open spec fn dir_expr_spec(e: ExprV) -> Result<Seq<(SymV, ExprV)>, ConfigErrorV> {
    match e {
        ExprV::Table(pairs) => dir_pairs_spec(pairs),
        _ => Err(ConfigErrorV::NonDirExpr),
    }
}

/// Once a prefix of the entries fails, the whole list fails the same way.
proof fn lemma_dir_pairs_err(pairs: Seq<(ExprV, ExprV)>, i: int)
    requires
        0 <= i <= pairs.len(),
        dir_pairs_spec(pairs.take(i)) is Err,
    ensures
        dir_pairs_spec(pairs) == dir_pairs_spec(pairs.take(i)),
    decreases pairs.len() - i,
{
    if i < pairs.len() {
        assert(pairs.take(i + 1).drop_last() =~= pairs.take(i));
        lemma_dir_pairs_err(pairs, i + 1);
    } else {
        assert(pairs.take(i) =~= pairs);
    }
}

/// Value of a dir result.
pub open spec fn dir_result_v(r: Result<ConfigDir, ConfigError>) -> Result<Seq<(SymV, ExprV)>, ConfigErrorV> {
    match r {
        Ok(d) => Ok(dir_v(d)),
        Err(e) => Err(e@),
    }
}

impl Default for ConfigDir {
    /// An empty dir.
    fn default() -> (d: ConfigDir)
        ensures
            dir_v(d) == Seq::<(SymV, ExprV)>::empty(),
    {
        ConfigDir { entries: Vec::new() }
    }
}

impl ConfigDir {
    /// Creates an empty dir.
    pub fn new() -> (d: ConfigDir)
        ensures
            dir_v(d) == Seq::<(SymV, ExprV)>::empty(),
    {
        ConfigDir { entries: Vec::new() }
    }

    /// Creates a dir with one library table.
    pub fn one(lib: Sym, table: ConfigExpr) -> (r: Result<ConfigDir, ConfigError>)
        ensures
            dir_result_v(r) == match table_spec(sym_v(lib), expr_v(table)) {
                Ok(t) => Ok(seq![t]),
                Err(e) => Err(e),
            },
    {
        match ConfigTable::new(lib, table) {
            Ok(t) => {
                let mut entries: Vec<ConfigTable> = Vec::new();
                entries.push(t);
                let d = ConfigDir { entries };
                assert(dir_v(d) =~= seq![table_v(d.entries@[0])]);
                Ok(d)
            },
            Err(e) => Err(e),
        }
    }

    /// Finds the first table of a library.
    pub fn table(&self, lib: &Sym) -> (r: Option<&ConfigTable>)
        ensures
            match first_lib(dir_v(*self), sym_v(*lib)) {
                Some(i) => r matches Some(t) && table_v(*t) == dir_v(*self)[i],
                None => r is None,
            },
    {
        match find_lib(&self.entries, lib) {
            Some(i) => Some(&self.entries[i]),
            None => None,
        }
    }

    /// Finds the first table of a library, for changing it in place.
    pub fn table_mut(&mut self, lib: &Sym) -> (r: Option<&mut ConfigTable>)
        ensures
            match first_lib(dir_v(*old(self)), sym_v(*lib)) {
                Some(i) => r matches Some(t) && table_v(*t) == dir_v(*old(self))[i]
                    && final(self).entries@ == old(self).entries@.update(i, *final(t)),
                None => r is None && *final(self) == *old(self),
            },
    {
        match find_lib(&self.entries, lib) {
            Some(i) => Some(&mut self.entries[i]),
            None => None,
        }
    }

    /// Inserts or replaces the table for its library id.
    pub fn upsert(&mut self, table: ConfigTable)
        ensures
            dir_v(*final(self)) == upsert_spec(dir_v(*old(self)), table_v(table)),
    {
        let ghost t = table_v(table);
        match find_lib(&self.entries, &table.lib) {
            Some(i) => {
                self.entries.set(i, table);
                assert(dir_v(*self) =~= dir_v(*old(self)).update(i as int, t));
            },
            None => {
                self.entries.push(table);
                assert(dir_v(*self) =~= dir_v(*old(self)).push(t));
            },
        }
    }

    /// Builds a dir from a map of library id keys to table values.
    pub fn from_dir_expr(expr: &ConfigExpr) -> (r: Result<ConfigDir, ConfigError>)
        ensures
            dir_result_v(r) == dir_expr_spec(expr_v(*expr)),
    {
        let pairs = match expr {
            ConfigExpr::Table(pairs) => pairs,
            _ => {
                return Err(ConfigError::NonDirExpr);
            },
        };
        let ghost pv = entries_v(pairs@);
        assert(pv.take(0) =~= Seq::<(ExprV, ExprV)>::empty());
        let mut entries: Vec<ConfigTable> = Vec::new();
        assert(tables_v(entries@) =~= Seq::<(SymV, ExprV)>::empty());
        let mut i: usize = 0;
        while i < pairs.len()
            invariant
                i <= pairs@.len(),
                pv == entries_v(pairs@),
                expr_v(*expr) == ExprV::Table(pv),
                dir_pairs_spec(pv.take(i as int)) == Ok::<Seq<(SymV, ExprV)>, ConfigErrorV>(tables_v(entries@)),
            decreases pairs@.len() - i,
        {
            let ghost prev = tables_v(entries@);
            assert(pv.take(i + 1).drop_last() =~= pv.take(i as int));
            assert(pv.take(i + 1).last() == pv[i as int]);
            assert(pv[i as int] == (expr_v(pairs@[i as int].0), expr_v(pairs@[i as int].1)));
            let table = match dir_step(&entries, &pairs[i].0, &pairs[i].1) {
                Ok(t) => t,
                Err(e) => {
                    proof {
                        lemma_dir_pairs_err(pv, i + 1);
                    }
                    return Err(e);
                },
            };
            entries.push(table);
            assert(tables_v(entries@) =~= prev.push(table_v(table)));
            i += 1;
        }
        assert(pv.take(pairs@.len() as int) =~= pv);
        Ok(ConfigDir { entries })
    }

    /// Converts this dir back to a map expression keyed by library symbols.
    pub fn to_expr(&self) -> (r: ConfigExpr)
        ensures
            expr_v(r) == ExprV::Table(
                dir_v(*self).map_values(|t: (SymV, ExprV)| (ExprV::Symbol(t.0), t.1)),
            ),
    {
        let mut out: Vec<(ConfigExpr, ConfigExpr)> = Vec::new();
        let mut i: usize = 0;
        while i < self.entries.len()
            invariant
                i <= self.entries@.len(),
                out@.len() == i,
                forall|j: int|
                    0 <= j < i ==> expr_v((#[trigger] out@[j]).0) == ExprV::Symbol(sym_v(self.entries@[j].lib))
                        && expr_v(out@[j].1) == expr_v(self.entries@[j].table),
            decreases self.entries@.len() - i,
        {
            out.push((ConfigExpr::Symbol(self.entries[i].lib.copy()), self.entries[i].table.copy()));
            i += 1;
        }
        let r = ConfigExpr::Table(out);
        assert(entries_v(out@) =~= dir_v(*self).map_values(|t: (SymV, ExprV)| (ExprV::Symbol(t.0), t.1)));
        r
    }
}

/// The table one dir entry adds after `entries`.
#[verifier::spinoff_prover]
#[verifier::rlimit(60)]
fn dir_step(entries: &Vec<ConfigTable>, key: &ConfigExpr, value: &ConfigExpr) -> (r: Result<ConfigTable, ConfigError>)
    ensures
        table_result_v(r) == dir_step_spec(tables_v(entries@), expr_v(*key), expr_v(*value)),
{
    let ghost prev = tables_v(entries@);
    let lib = match symbol_key(key) {
        Ok(lib) => lib,
        Err(e) => {
            return Err(e);
        },
    };
    let is_table = match value {
        ConfigExpr::Table(_) => true,
        _ => false,
    };
    if !is_table {
        return Err(ConfigError::NonTableConfig { lib });
    }
    let table = match ConfigTable::new(lib, value.copy()) {
        Ok(t) => t,
        Err(e) => {
            return Err(e);
        },
    };
    match find_lib(entries, &table.lib) {
        Some(j) => {
            assert(prev[j as int].0 == table_v(table).0);
            Err(ConfigError::DuplicateLibId { lib: table.lib })
        },
        None => {
            assert(!exists|j: int| 0 <= j < prev.len() && #[trigger] prev[j].0 == table_v(table).0);
            Ok(table)
        },
    }
}

/// The library a dir key names.
fn symbol_key(key: &ConfigExpr) -> (r: Result<Sym, ConfigError>)
    ensures
        sym_result_v(r) == symbol_key_spec(expr_v(*key)),
{
    match key {
        ConfigExpr::Symbol(s) => canonical_lib_symbol(s),
        ConfigExpr::String(t) => lib_symbol_from_str(t.as_str()),
        _ => Err(ConfigError::UnsupportedDirKey { key: key.copy() }),
    }
}

} // verus!
