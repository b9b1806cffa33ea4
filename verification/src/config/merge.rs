//! Layer merging and field-level provenance.
//!
//! Layers apply from lowest to highest precedence. A library's table from a
//! higher layer overlays the effective one field by field: a map value merges
//! into a map value; a list of id-keyed tables merges into another such list
//! by id; any other value replaces. Every top-level field a layer sets
//! records that layer as the field's source.

use vstd::prelude::*;

use crate::config::ProbeMode;
use crate::config::expr::{
    ConfigExpr, ExprV, SymV, config_field_label, copy_entries, copy_items, entries_v, expr_v,
    field_any, field_spec, items_v, key_label, same_config_field, same_field,
};
use crate::config::table::{
    ConfigDir, ConfigTable, as_qualified_str, dir_v, find_lib, first_lib, lemma_first_lib,
    qualified_str, table_v, tables_v,
};
use crate::conformance::datum::{Sym, sym_v};
use crate::conformance::identity::same_sym;
use crate::conformance::graph::texts;
use crate::text::{str_eq, text};

verus! {

/// Source layer that contributed configuration data.
#[derive(Clone, Debug, PartialEq, Eq)]
pub enum ConfigSource {
    /// Built-in defaults supplied by the named library.
    BuiltIn {
        /// Library whose defaults produced this layer.
        lib: Sym,
    },
    /// Defaults produced by a modeled or real probe.
    Probe {
        /// Probe implementation id.
        probe: Sym,
        /// Probe mode for producing the layer.
        mode: ProbeMode,
    },
    /// Per-library file from the central home config root.
    HomeFile {
        /// File path that produced this layer.
        path: String,
    },
    /// Per-library file from the working config root.
    WorkFile {
        /// File path that produced this layer.
        path: String,
    },
    /// Single `sim.toml` file containing multiple library tables.
    SingleFile {
        /// File path that produced this layer.
        path: String,
    },
    /// Opaque site-backed config producer.
    Site {
        /// Site id.
        site: Sym,
    },
    /// Explicit process-level override.
    Explicit {
        /// Human-readable override label.
        label: String,
    },
}

/// Mathematical value of a [`ConfigSource`].
pub enum SourceV {
    BuiltIn(SymV),
    Probe(SymV, ProbeMode),
    HomeFile(Seq<char>),
    WorkFile(Seq<char>),
    SingleFile(Seq<char>),
    Site(SymV),
    Explicit(Seq<char>),
}

impl View for ConfigSource {
    type V = SourceV;

    open spec fn view(&self) -> SourceV {
        match self {
            ConfigSource::BuiltIn { lib } => SourceV::BuiltIn(sym_v(*lib)),
            ConfigSource::Probe { probe, mode } => SourceV::Probe(sym_v(*probe), *mode),
            ConfigSource::HomeFile { path } => SourceV::HomeFile(path@),
            ConfigSource::WorkFile { path } => SourceV::WorkFile(path@),
            ConfigSource::SingleFile { path } => SourceV::SingleFile(path@),
            ConfigSource::Site { site } => SourceV::Site(sym_v(*site)),
            ConfigSource::Explicit { label } => SourceV::Explicit(label@),
        }
    }
}

impl ConfigSource {
    /// An exact copy.
    pub fn copy(&self) -> (r: ConfigSource)
        ensures
            r@ == self@,
    {
        match self {
            ConfigSource::BuiltIn { lib } => ConfigSource::BuiltIn { lib: lib.copy() },
            ConfigSource::Probe { probe, mode } => ConfigSource::Probe { probe: probe.copy(), mode: *mode },
            ConfigSource::HomeFile { path } => ConfigSource::HomeFile { path: path.clone() },
            ConfigSource::WorkFile { path } => ConfigSource::WorkFile { path: path.clone() },
            ConfigSource::SingleFile { path } => ConfigSource::SingleFile { path: path.clone() },
            ConfigSource::Site { site } => ConfigSource::Site { site: site.copy() },
            ConfigSource::Explicit { label } => ConfigSource::Explicit { label: label.clone() },
        }
    }
}

/// One configuration layer and the source that produced it.
#[derive(Debug, PartialEq, Eq)]
pub struct ConfigLayer {
    /// Source metadata for this layer.
    pub source: ConfigSource,
    /// Dir data carried by this layer.
    pub dir: ConfigDir,
}

/// Value of a layer: its source and its tables.
pub open spec fn layer_v(l: ConfigLayer) -> (SourceV, Seq<(SymV, ExprV)>) {
    (l.source@, dir_v(l.dir))
}

impl ConfigLayer {
    /// Creates a new layer from source metadata and dir data.
    pub fn new(source: ConfigSource, dir: ConfigDir) -> (r: ConfigLayer)
        ensures
            r.source == source && r.dir == dir,
    {
        ConfigLayer { source, dir }
    }
}

/// Provenance for one effective top-level field.
#[derive(Clone, Debug, PartialEq, Eq)]
pub struct MergeTrace {
    /// Library table that contains the field.
    pub lib: Sym,
    /// Top-level field key.
    pub key: String,
    /// Source that supplied the effective value.
    pub source: ConfigSource,
}

/// Value of a trace entry: library, key and source.
pub open spec fn trace_v(t: MergeTrace) -> (SymV, Seq<char>, SourceV) {
    (sym_v(t.lib), t.key@, t.source@)
}

/// Result of merging config layers.
#[derive(Debug, PartialEq, Eq)]
pub struct EffectiveConfig {
    /// Effective dir after layer precedence is applied.
    pub dir: ConfigDir,
    /// Field-level provenance for effective top-level fields.
    pub trace: Vec<MergeTrace>,
}

/// Value of an effective config: its tables and its provenance.
#[verifier::ext_equal]
pub struct EffV {
    /// The effective tables.
    pub dir: Seq<(SymV, ExprV)>,
    /// The provenance of each top-level field.
    pub trace: Seq<(SymV, Seq<char>, SourceV)>,
}

/// Value of an effective config.
pub open spec fn eff_v(e: EffectiveConfig) -> EffV {
    EffV { dir: dir_v(e.dir), trace: e.trace@.map_values(|t: MergeTrace| trace_v(t)) }
}

impl Default for EffectiveConfig {
    /// An empty effective config.
    fn default() -> (e: EffectiveConfig)
        ensures
            eff_v(e) == (EffV { dir: Seq::empty(), trace: Seq::empty() }),
    {
        let e = EffectiveConfig { dir: ConfigDir::new(), trace: Vec::new() };
        assert(eff_v(e).trace =~= Seq::<(SymV, Seq<char>, SourceV)>::empty());
        e
    }
}

/// Position of the first trace entry of a library's field.
pub open spec fn first_trace(t: Seq<(SymV, Seq<char>, SourceV)>, lib: SymV, key: Seq<char>) -> Option<int> {
    if exists|i: int|
        0 <= i < t.len() && (#[trigger] t[i]).0 == lib && t[i].1 == key && forall|j: int|
            0 <= j < i ==> !(t[j].0 == lib && t[j].1 == key) {
        Some(
            choose|i: int|
                0 <= i < t.len() && (#[trigger] t[i]).0 == lib && t[i].1 == key && forall|j: int|
                    0 <= j < i ==> !(t[j].0 == lib && t[j].1 == key),
        )
    } else {
        None
    }
}

/// The provenance after a source sets a library's field: the field's entry
/// takes the source, or a new entry is appended.
pub open spec fn record_spec(
    t: Seq<(SymV, Seq<char>, SourceV)>,
    lib: SymV,
    key: Seq<char>,
    source: SourceV,
) -> Seq<(SymV, Seq<char>, SourceV)> {
    match first_trace(t, lib, key) {
        Some(i) => t.update(i, (lib, key, source)),
        None => t.push((lib, key, source)),
    }
}

/// The provenance after a source sets each of the keys, in order.
pub open spec fn record_all(
    t: Seq<(SymV, Seq<char>, SourceV)>,
    lib: SymV,
    keys: Seq<Seq<char>>,
    source: SourceV,
) -> Seq<(SymV, Seq<char>, SourceV)>
    decreases keys.len(),
{
    if keys.len() == 0 {
        t
    } else {
        record_spec(record_all(t, lib, keys.drop_last(), source), lib, keys.last(), source)
    }
}

/// Labels of a map's top-level keys, in order; none for a non-map.
pub open spec fn top_keys(e: ExprV) -> Seq<Seq<char>> {
    match e {
        ExprV::Table(es) => es.map_values(|kv: (ExprV, ExprV)| key_label(kv.0)),
        _ => Seq::empty(),
    }
}

/// Position of the first entry whose key names the same field as `k`.
pub open spec fn first_field(es: Seq<(ExprV, ExprV)>, k: ExprV) -> Option<int> {
    if exists|i: int|
        0 <= i < es.len() && same_field(#[trigger] es[i].0, k) && forall|j: int|
            0 <= j < i ==> !same_field(es[j].0, k) {
        Some(
            choose|i: int|
                0 <= i < es.len() && same_field(#[trigger] es[i].0, k) && forall|j: int|
                    0 <= j < i ==> !same_field(es[j].0, k),
        )
    } else {
        None
    }
}

/// The id of a repeated-table item: its `id` field's string, or its symbol
/// written out.
pub open spec fn item_id(e: ExprV) -> Option<Seq<char>> {
    match field_spec(e, "id"@) {
        Some(ExprV::Str(s)) => Some(s),
        Some(ExprV::Symbol(s)) => Some(qualified_str(s)),
        _ => None,
    }
}

/// A non-empty list whose every item has an id.
pub open spec fn id_keyed(items: Seq<ExprV>) -> bool {
    items.len() > 0 && forall|i: int| 0 <= i < items.len() ==> (#[trigger] item_id(items[i])) is Some
}

/// Position of the first item with the given id.
pub open spec fn first_id(items: Seq<ExprV>, id: Seq<char>) -> Option<int> {
    if exists|i: int|
        0 <= i < items.len() && #[trigger] item_id(items[i]) == Some(id) && forall|j: int|
            0 <= j < i ==> item_id(items[j]) != Some(id) {
        Some(
            choose|i: int|
                0 <= i < items.len() && #[trigger] item_id(items[i]) == Some(id) && forall|j: int|
                    0 <= j < i ==> item_id(items[j]) != Some(id),
        )
    } else {
        None
    }
}

/// Id-keyed items after the first `n` overlay items: an item replaces the
/// first item with its id, or is appended.
pub open spec fn merge_ids(base: Seq<ExprV>, o: Seq<ExprV>, n: nat) -> Seq<ExprV>
    decreases n,
{
    if n == 0 || n > o.len() {
        base
    } else {
        let prev = merge_ids(base, o, (n - 1) as nat);
        let it = o[n - 1];
        match item_id(it) {
            None => prev,
            Some(id) => match first_id(prev, id) {
                Some(i) => prev.update(i, it),
                None => prev.push(it),
            },
        }
    }
}

/// A value merged under an overlay value: maps merge field by field,
/// id-keyed lists merge by id, anything else is replaced.
pub open spec fn merge_value(base: ExprV, overlay: ExprV) -> ExprV
    decreases overlay,
{
    match (base, overlay) {
        (ExprV::Table(b), ExprV::Table(o)) => ExprV::Table(merge_entries(b, o, o.len())),
        (ExprV::List(b), ExprV::List(o)) => if id_keyed(b) && id_keyed(o) {
            ExprV::List(merge_ids(b, o, o.len()))
        } else {
            overlay
        },
        _ => overlay,
    }
}

/// Map entries after the first `n` overlay entries: an entry merges into
/// the first entry naming the same field, keeping that entry's key, or is
/// appended.
pub open spec fn merge_entries(base: Seq<(ExprV, ExprV)>, o: Seq<(ExprV, ExprV)>, n: nat) -> Seq<
    (ExprV, ExprV),
>
    decreases o, n,
{
    if n == 0 || n > o.len() {
        base
    } else {
        let prev = merge_entries(base, o, (n - 1) as nat);
        proof {
            assert(decreases_to!(o => o[n - 1]));
        }
        match first_field(prev, o[n - 1].0) {
            Some(i) => prev.update(i, (prev[i].0, merge_value(prev[i].1, o[n - 1].1))),
            None => prev.push(o[n - 1]),
        }
    }
}

/// A table expression under an overlay expression, and the labels of the
/// fields the overlay set: maps merge; otherwise the overlay replaces.
pub open spec fn merge_table_spec(base: ExprV, overlay: ExprV) -> (ExprV, Seq<Seq<char>>) {
    match (base, overlay) {
        (ExprV::Table(b), ExprV::Table(o)) => (ExprV::Table(merge_entries(b, o, o.len())), top_keys(overlay)),
        _ => (overlay, top_keys(overlay)),
    }
}

/// The effective config after one table of a layer: a new library's table
/// is appended; a present library's table is merged; each field the table
/// sets records the layer's source.
pub open spec fn overlay_table_spec(e: EffV, t: (SymV, ExprV), source: SourceV) -> EffV {
    match first_lib(e.dir, t.0) {
        None => EffV { dir: e.dir.push(t), trace: record_all(e.trace, t.0, top_keys(t.1), source) },
        Some(i) => {
            let m = merge_table_spec(e.dir[i].1, t.1);
            EffV { dir: e.dir.update(i, (e.dir[i].0, m.0)), trace: record_all(e.trace, t.0, m.1, source) }
        },
    }
}

/// The effective config after the first `n` tables of a layer.
pub open spec fn overlay_tables(e: EffV, tables: Seq<(SymV, ExprV)>, source: SourceV, n: nat) -> EffV
    decreases n,
{
    if n == 0 || n > tables.len() {
        e
    } else {
        overlay_table_spec(overlay_tables(e, tables, source, (n - 1) as nat), tables[n - 1], source)
    }
}

/// The effective config of the first `n` layers, lowest first.
pub open spec fn merge_layers_spec(layers: Seq<(SourceV, Seq<(SymV, ExprV)>)>, n: nat) -> EffV
    decreases n,
{
    if n == 0 || n > layers.len() {
        EffV { dir: Seq::empty(), trace: Seq::empty() }
    } else {
        let l = layers[n - 1];
        overlay_tables(merge_layers_spec(layers, (n - 1) as nat), l.1, l.0, l.1.len())
    }
}


proof fn lemma_first_trace(t: Seq<(SymV, Seq<char>, SourceV)>, lib: SymV, key: Seq<char>, i: int)
    requires
        0 <= i < t.len(),
        t[i].0 == lib && t[i].1 == key,
        forall|j: int| 0 <= j < i ==> !(t[j].0 == lib && t[j].1 == key),
    ensures
        first_trace(t, lib, key) == Some(i),
{
    let w = choose|w: int|
        0 <= w < t.len() && (#[trigger] t[w]).0 == lib && t[w].1 == key && forall|j: int|
            0 <= j < w ==> !(t[j].0 == lib && t[j].1 == key);
    assert(t[i].0 == lib);
    assert(w == i) by {
        if w < i {
            assert(!(t[w].0 == lib && t[w].1 == key));
        } else if i < w {
            assert(!(t[i].0 == lib && t[i].1 == key));
        }
    }
}

proof fn lemma_first_field(es: Seq<(ExprV, ExprV)>, k: ExprV, i: int)
    requires
        0 <= i < es.len(),
        same_field(es[i].0, k),
        forall|j: int| 0 <= j < i ==> !same_field(es[j].0, k),
    ensures
        first_field(es, k) == Some(i),
{
    let w = choose|w: int|
        0 <= w < es.len() && same_field(#[trigger] es[w].0, k) && forall|j: int|
            0 <= j < w ==> !same_field(es[j].0, k);
    assert(same_field(es[i].0, k));
    assert(w == i) by {
        if w < i {
            assert(!same_field(es[w].0, k));
        } else if i < w {
            assert(!same_field(es[i].0, k));
        }
    }
}

proof fn lemma_first_id(items: Seq<ExprV>, id: Seq<char>, i: int)
    requires
        0 <= i < items.len(),
        item_id(items[i]) == Some(id),
        forall|j: int| 0 <= j < i ==> item_id(items[j]) != Some(id),
    ensures
        first_id(items, id) == Some(i),
{
    let w = choose|w: int|
        0 <= w < items.len() && #[trigger] item_id(items[w]) == Some(id) && forall|j: int|
            0 <= j < w ==> item_id(items[j]) != Some(id);
    assert(item_id(items[i]) == Some(id));
    assert(w == i) by {
        if w < i {
            assert(item_id(items[w]) != Some(id));
        } else if i < w {
            assert(item_id(items[i]) != Some(id));
        }
    }
}

/// Value of an optional text.
pub open spec fn opt_text(r: Option<String>) -> Option<Seq<char>> {
    match r {
        Some(s) => Some(s@),
        None => None,
    }
}

/// Position of the first item with the given id.
fn find_id(items: &Vec<ConfigExpr>, id: &str) -> (r: Option<usize>)
    ensures
        match r {
            Some(j) => j < items@.len() && first_id(items_v(items@), id@) == Some(j as int),
            None => first_id(items_v(items@), id@) is None,
        },
{
    let ghost iv = items_v(items@);
    let mut j: usize = 0;
    while j < items.len()
        invariant
            j <= items@.len(),
            iv == items_v(items@),
            forall|x: int| 0 <= x < j ==> item_id(#[trigger] iv[x]) != Some(id@),
        decreases items@.len() - j,
    {
        match item_id_exec(&items[j]) {
            Some(other) => {
                if str_eq(other.as_str(), id) {
                    proof {
                        lemma_first_id(iv, id@, j as int);
                    }
                    return Some(j);
                }
            },
            None => {},
        }
        j += 1;
    }
    assert(!exists|x: int| 0 <= x < iv.len() && #[trigger] item_id(iv[x]) == Some(id@));
    None
}

/// Position of the first entry naming the same field as `k`.
fn find_field(es: &Vec<(ConfigExpr, ConfigExpr)>, k: &ConfigExpr) -> (r: Option<usize>)
    ensures
        match r {
            Some(j) => j < es@.len() && first_field(entries_v(es@), expr_v(*k)) == Some(j as int),
            None => first_field(entries_v(es@), expr_v(*k)) is None,
        },
{
    let ghost ev = entries_v(es@);
    let mut j: usize = 0;
    while j < es.len()
        invariant
            j <= es@.len(),
            ev == entries_v(es@),
            forall|x: int| 0 <= x < j ==> !same_field(#[trigger] ev[x].0, expr_v(*k)),
        decreases es@.len() - j,
    {
        assert(ev[j as int].0 == expr_v(es@[j as int].0));
        if same_config_field(&es[j].0, k) {
            proof {
                lemma_first_field(ev, expr_v(*k), j as int);
            }
            return Some(j);
        }
        j += 1;
    }
    assert(!exists|x: int| 0 <= x < ev.len() && same_field(#[trigger] ev[x].0, expr_v(*k)));
    None
}

/// The id of a repeated-table item.
fn item_id_exec(e: &ConfigExpr) -> (r: Option<String>)
    ensures
        opt_text(r) == item_id(expr_v(*e)),
{
    match field_any(e, "id") {
        Some(v) => match v {
            ConfigExpr::String(s) => Some(s.clone()),
            ConfigExpr::Symbol(s) => Some(as_qualified_str(s)),
            _ => None,
        },
        None => None,
    }
}

/// Whether a list is non-empty and every item has an id.
fn id_keyed_exec(items: &Vec<ConfigExpr>) -> (b: bool)
    ensures
        b == id_keyed(items_v(items@)),
{
    let ghost iv = items_v(items@);
    if items.len() == 0 {
        return false;
    }
    let mut i: usize = 0;
    while i < items.len()
        invariant
            i <= items@.len(),
            iv == items_v(items@),
            forall|j: int| 0 <= j < i ==> (#[trigger] item_id(iv[j])) is Some,
        decreases items@.len() - i,
    {
        if item_id_exec(&items[i]).is_none() {
            assert(item_id(iv[i as int]) is None);
            return false;
        }
        i += 1;
    }
    true
}

/// Merges id-keyed overlay items into base items by id.
fn merge_ids_exec(base: &Vec<ConfigExpr>, overlay: &Vec<ConfigExpr>) -> (r: Vec<ConfigExpr>)
    ensures
        items_v(r@) == merge_ids(items_v(base@), items_v(overlay@), overlay@.len() as nat),
{
    let ghost bv = items_v(base@);
    let ghost ov = items_v(overlay@);
    let mut cur = copy_items(base);
    let mut i: usize = 0;
    while i < overlay.len()
        invariant
            i <= overlay@.len(),
            bv == items_v(base@),
            ov == items_v(overlay@),
            items_v(cur@) == merge_ids(bv, ov, i as nat),
        decreases overlay@.len() - i,
    {
        let ghost cv = items_v(cur@);
        match item_id_exec(&overlay[i]) {
            None => {},
            Some(id) => {
                match find_id(&cur, id.as_str()) {
                    Some(j) => {
                        cur.set(j, overlay[i].copy());
                        assert(items_v(cur@) =~= cv.update(j as int, ov[i as int]));
                    },
                    None => {
                        cur.push(overlay[i].copy());
                        assert(items_v(cur@) =~= cv.push(ov[i as int]));
                    },
                }
            },
        }
        i += 1;
    }
    cur
}

/// A value merged under an overlay value.
fn merge_value_exec(base: &ConfigExpr, overlay: &ConfigExpr) -> (r: ConfigExpr)
    ensures
        expr_v(r) == merge_value(expr_v(*base), expr_v(*overlay)),
    decreases overlay,
{
    match (base, overlay) {
        (ConfigExpr::Table(b), ConfigExpr::Table(o)) => {
            assert(decreases_to!(*overlay => (*overlay)->Table_0));
            ConfigExpr::Table(merge_entries_exec(b, o))
        },
        (ConfigExpr::List(b), ConfigExpr::List(o)) => {
            if id_keyed_exec(b) && id_keyed_exec(o) {
                ConfigExpr::List(merge_ids_exec(b, o))
            } else {
                overlay.copy()
            }
        },
        _ => overlay.copy(),
    }
}

/// Map entries merged under overlay entries.
fn merge_entries_exec(base: &Vec<(ConfigExpr, ConfigExpr)>, overlay: &Vec<(ConfigExpr, ConfigExpr)>) -> (r: Vec<
    (ConfigExpr, ConfigExpr),
>)
    ensures
        entries_v(r@) == merge_entries(entries_v(base@), entries_v(overlay@), overlay@.len() as nat),
    decreases overlay,
{
    let ghost bv = entries_v(base@);
    let ghost ov = entries_v(overlay@);
    let mut cur = copy_entries(base);
    let mut i: usize = 0;
    while i < overlay.len()
        invariant
            i <= overlay@.len(),
            bv == entries_v(base@),
            ov == entries_v(overlay@),
            entries_v(cur@) == merge_entries(bv, ov, i as nat),
        decreases overlay@.len() - i,
    {
        let ghost cv = entries_v(cur@);
        assert(ov[i as int] == (expr_v(overlay@[i as int].0), expr_v(overlay@[i as int].1)));
        match find_field(&cur, &overlay[i].0) {
            Some(j) => {
                assert(cv[j as int] == (expr_v(cur@[j as int].0), expr_v(cur@[j as int].1)));
                assert(decreases_to!(overlay => overlay@));
                assert(decreases_to!(overlay@ => overlay@[i as int]));
                assert(decreases_to!(overlay@[i as int] => overlay@[i as int].1));
                let nv = merge_value_exec(&cur[j].1, &overlay[i].1);
                let k = cur[j].0.copy();
                cur.set(j, (k, nv));
                assert(entries_v(cur@) =~= cv.update(j as int, (cv[j as int].0, merge_value(cv[j as int].1, ov[i as int].1))));
            },
            None => {
                cur.push((overlay[i].0.copy(), overlay[i].1.copy()));
                assert(entries_v(cur@) =~= cv.push(ov[i as int]));
            },
        }
        i += 1;
    }
    cur
}

/// Labels of a map's top-level keys.
fn top_level_keys(e: &ConfigExpr) -> (r: Vec<String>)
    ensures
        texts(r@) == top_keys(expr_v(*e)),
{
    let mut out: Vec<String> = Vec::new();
    match e {
        ConfigExpr::Table(es) => {
            let mut i: usize = 0;
            while i < es.len()
                invariant
                    i <= es@.len(),
                    out@.len() == i,
                    forall|j: int| 0 <= j < i ==> (#[trigger] out@[j])@ == key_label(expr_v(es@[j].0)),
                decreases es@.len() - i,
            {
                out.push(config_field_label(&es[i].0));
                i += 1;
            }
            assert(texts(out@) =~= top_keys(expr_v(*e)));
        },
        _ => {
            assert(texts(out@) =~= Seq::<Seq<char>>::empty());
        },
    }
    out
}

/// A table expression under an overlay expression, and the labels of the
/// fields the overlay set.
fn merge_table(base: &ConfigExpr, overlay: &ConfigExpr) -> (r: (ConfigExpr, Vec<String>))
    ensures
        expr_v(r.0) == merge_table_spec(expr_v(*base), expr_v(*overlay)).0,
        texts(r.1@) == merge_table_spec(expr_v(*base), expr_v(*overlay)).1,
{
    let keys = top_level_keys(overlay);
    match (base, overlay) {
        (ConfigExpr::Table(b), ConfigExpr::Table(o)) => (ConfigExpr::Table(merge_entries_exec(b, o)), keys),
        _ => (overlay.copy(), keys),
    }
}

impl EffectiveConfig {
    fn record_trace(&mut self, lib: &Sym, key: String, source: &ConfigSource)
        ensures
            final(self).dir == old(self).dir,
            eff_v(*final(self)).trace == record_spec(eff_v(*old(self)).trace, sym_v(*lib), key@, source@),
    {
        let ghost t = eff_v(*self).trace;
        let mut i: usize = 0;
        while i < self.trace.len()
            invariant
                i <= self.trace@.len(),
                *self == *old(self),
                t == eff_v(*self).trace,
                forall|j: int| 0 <= j < i ==> !(t[j].0 == sym_v(*lib) && t[j].1 == key@),
            decreases self.trace@.len() - i,
        {
            if same_sym(&self.trace[i].lib, lib) && str_eq(self.trace[i].key.as_str(), key.as_str()) {
                proof {
                    lemma_first_trace(t, sym_v(*lib), key@, i as int);
                }
                let entry = MergeTrace { lib: lib.copy(), key, source: source.copy() };
                let ghost ev = trace_v(entry);
                self.trace.set(i, entry);
                assert(eff_v(*self).trace =~= t.update(i as int, ev));
                return;
            }
            i += 1;
        }
        assert(!exists|x: int| 0 <= x < t.len() && (#[trigger] t[x]).0 == sym_v(*lib) && t[x].1 == key@);
        let entry = MergeTrace { lib: lib.copy(), key, source: source.copy() };
        let ghost ev = trace_v(entry);
        self.trace.push(entry);
        assert(eff_v(*self).trace =~= t.push(ev));
    }

    fn record_keys(&mut self, lib: &Sym, keys: Vec<String>, source: &ConfigSource)
        ensures
            final(self).dir == old(self).dir,
            eff_v(*final(self)).trace == record_all(eff_v(*old(self)).trace, sym_v(*lib), texts(keys@), source@),
    {
        let ghost kv = texts(keys@);
        let mut i: usize = 0;
        while i < keys.len()
            invariant
                i <= keys@.len(),
                kv == texts(keys@),
                self.dir == old(self).dir,
                eff_v(*self).trace == record_all(eff_v(*old(self)).trace, sym_v(*lib), kv.take(i as int), source@),
            decreases keys@.len() - i,
        {
            assert(kv.take(i + 1).drop_last() =~= kv.take(i as int));
            self.record_trace(lib, keys[i].clone(), source);
            i += 1;
        }
        assert(kv.take(keys@.len() as int) =~= kv);
    }

    fn overlay_table(&mut self, table: &ConfigTable, source: &ConfigSource)
        ensures
            eff_v(*final(self)) == overlay_table_spec(eff_v(*old(self)), table_v(*table), source@),
    {
        let ghost d = dir_v(self.dir);
        match find_lib(&self.dir.entries, &table.lib) {
            None => {
                self.dir.entries.push(table.copy());
                assert(dir_v(self.dir) =~= d.push(table_v(*table)));
                let keys = top_level_keys(&table.table);
                self.record_keys(&table.lib, keys, source);
            },
            Some(i) => {
                let (merged, changed) = merge_table(&self.dir.entries[i].table, &table.table);
                let lib = self.dir.entries[i].lib.copy();
                let ghost nt = (sym_v(lib), expr_v(merged));
                self.dir.entries.set(i, ConfigTable { lib, table: merged });
                assert(dir_v(self.dir) =~= d.update(i as int, (d[i as int].0, nt.1)));
                self.record_keys(&table.lib, changed, source);
            },
        }
    }
}

/// Merges config layers from lowest to highest precedence.
pub fn merge_layers(layers: &[ConfigLayer]) -> (r: EffectiveConfig)
    ensures
        eff_v(r) == merge_layers_spec(layers@.map_values(|l: ConfigLayer| layer_v(l)), layers@.len() as nat),
{
    let ghost lv = layers@.map_values(|l: ConfigLayer| layer_v(l));
    let mut effective = EffectiveConfig::default();
    let mut n: usize = 0;
    while n < layers.len()
        invariant
            n <= layers@.len(),
            lv == layers@.map_values(|l: ConfigLayer| layer_v(l)),
            eff_v(effective) == merge_layers_spec(lv, n as nat),
        decreases layers@.len() - n,
    {
        let layer = &layers[n];
        let ghost start = eff_v(effective);
        let ghost tv = dir_v(layer.dir);
        let mut m: usize = 0;
        while m < layer.dir.entries.len()
            invariant
                m <= layer.dir.entries@.len(),
                tv == dir_v(layer.dir),
                eff_v(effective) == overlay_tables(start, tv, layer.source@, m as nat),
            decreases layer.dir.entries@.len() - m,
        {
            effective.overlay_table(&layer.dir.entries[m], &layer.source);
            assert(tv[m as int] == table_v(layer.dir.entries@[m as int]));
            m += 1;
        }
        assert(lv[n as int] == layer_v(*layer));
        n += 1;
    }
    effective
}


/// Merging never drops, reorders or renames a base entry: the merge keeps
/// at least the base's entries, each at its position under its own key.
pub proof fn lemma_merge_keeps_keys(base: Seq<(ExprV, ExprV)>, o: Seq<(ExprV, ExprV)>, n: nat)
    requires
        n <= o.len(),
    ensures
        merge_entries(base, o, n).len() >= base.len(),
        forall|i: int| 0 <= i < base.len() ==> (#[trigger] merge_entries(base, o, n)[i]).0 == base[i].0,
    decreases n,
{
    if n > 0 {
        lemma_merge_keeps_keys(base, o, (n - 1) as nat);
        let prev = merge_entries(base, o, (n - 1) as nat);
        assert forall|i: int| 0 <= i < base.len() implies (#[trigger] merge_entries(base, o, n)[i]).0 == base[i].0 by {
            assert(prev[i].0 == base[i].0);
        }
    }
}

/// A field that no overlay entry names keeps its base value: layering only
/// changes the fields a layer sets.
pub proof fn lemma_merge_preserves_absent(base: Seq<(ExprV, ExprV)>, o: Seq<(ExprV, ExprV)>, n: nat, i: int)
    requires
        n <= o.len(),
        0 <= i < base.len(),
        forall|j: int| 0 <= j < n ==> !same_field(base[i].0, #[trigger] o[j].0),
    ensures
        merge_entries(base, o, n)[i] == base[i],
    decreases n,
{
    if n > 0 {
        lemma_merge_preserves_absent(base, o, (n - 1) as nat, i);
        lemma_merge_keeps_keys(base, o, (n - 1) as nat);
        let prev = merge_entries(base, o, (n - 1) as nat);
        match first_field(prev, o[n - 1].0) {
            Some(x) => {
                assert(same_field(prev[x].0, o[n - 1].0));
                assert(x != i) by {
                    if x == i {
                        assert(prev[i].0 == base[i].0);
                        assert(!same_field(base[i].0, o[n - 1].0));
                    }
                }
            },
            None => {},
        }
    }
}

/// An overlay value that is neither a map nor a list replaces the base
/// value outright.
pub proof fn lemma_scalar_overlay_replaces(base: ExprV, overlay: ExprV)
    requires
        !(overlay is Table),
        !(overlay is List),
    ensures
        merge_value(base, overlay) == overlay,
{
}

/// An overlay entry for a field the base already holds merges into that
/// entry instead of adding one: equivalent keys never duplicate a field.
pub proof fn lemma_named_field_merges_in_place(base: Seq<(ExprV, ExprV)>, k: ExprV, v: ExprV, i: int)
    requires
        0 <= i < base.len(),
        same_field(base[i].0, k),
        forall|j: int| 0 <= j < i ==> !same_field(base[j].0, k),
    ensures
        merge_entries(base, seq![(k, v)], 1) == base.update(i, (base[i].0, merge_value(base[i].1, v))),
        merge_entries(base, seq![(k, v)], 1).len() == base.len(),
{
    lemma_first_field(base, k, i);
    assert(merge_entries(base, seq![(k, v)], 0) == base);
}

/// An overlay item replaces, in place, the first base item carrying its
/// id, and is appended when no base item carries it; an overlay item
/// without an id changes nothing.
pub proof fn lemma_overlay_item(base: Seq<ExprV>, it: ExprV, i: int)
    ensures
        item_id(it) is None ==> merge_ids(base, seq![it], 1) == base,
        (item_id(it) is Some && 0 <= i < base.len() && item_id(base[i]) == item_id(it) && forall|j: int|
            0 <= j < i ==> item_id(#[trigger] base[j]) != item_id(it)) ==> merge_ids(base, seq![it], 1)
            == base.update(i, it),
        (item_id(it) is Some && forall|j: int| 0 <= j < base.len() ==> item_id(#[trigger] base[j]) != item_id(it))
            ==> merge_ids(base, seq![it], 1) == base.push(it),
{
    assert(merge_ids(base, seq![it], 0) == base);
    if let Some(id) = item_id(it) {
        if 0 <= i < base.len() && item_id(base[i]) == Some(id) && forall|j: int|
            0 <= j < i ==> item_id(#[trigger] base[j]) != Some(id) {
            lemma_first_id(base, id, i);
        }
        if forall|j: int| 0 <= j < base.len() ==> item_id(#[trigger] base[j]) != Some(id) {
            assert(first_id(base, id) is None);
        }
    }
}

/// Items whose id no overlay item carries keep their place and value.
pub proof fn lemma_merge_ids_preserves_absent(base: Seq<ExprV>, o: Seq<ExprV>, n: nat, i: int)
    requires
        n <= o.len(),
        0 <= i < base.len(),
        item_id(base[i]) is Some,
        forall|j: int| 0 <= j < n ==> item_id(#[trigger] o[j]) != item_id(base[i]),
    ensures
        merge_ids(base, o, n).len() >= base.len(),
        merge_ids(base, o, n)[i] == base[i],
    decreases n,
{
    if n > 0 {
        lemma_merge_ids_preserves_absent(base, o, (n - 1) as nat, i);
        let prev = merge_ids(base, o, (n - 1) as nat);
        match item_id(o[n - 1]) {
            None => {},
            Some(id) => match first_id(prev, id) {
                Some(x) => {
                    assert(item_id(prev[x]) == Some(id));
                    assert(x != i);
                },
                None => {},
            },
        }
    }
}

/// After a source sets a library's field, the provenance holds exactly one
/// entry more or the same entries, and the field's first entry names that
/// source.
pub proof fn lemma_record_names_source(
    t: Seq<(SymV, Seq<char>, SourceV)>,
    lib: SymV,
    key: Seq<char>,
    source: SourceV,
)
    ensures
        ({
            let r = record_spec(t, lib, key, source);
            &&& r.len() == t.len() || r.len() == t.len() + 1
            &&& exists|i: int| 0 <= i < r.len() && #[trigger] r[i] == (lib, key, source) && forall|j: int|
                0 <= j < i ==> !(r[j].0 == lib && r[j].1 == key)
        }),
{
    let r = record_spec(t, lib, key, source);
    match first_trace(t, lib, key) {
        Some(i) => {
            assert(r[i] == (lib, key, source));
        },
        None => {
            assert(forall|j: int| 0 <= j < t.len() ==> !(t[j].0 == lib && t[j].1 == key)) by {
                if exists|j: int| 0 <= j < t.len() && (t[j].0 == lib && t[j].1 == key) {
                    let j = choose|j: int| 0 <= j < t.len() && (t[j].0 == lib && t[j].1 == key);
                    lemma_exists_first_trace(t, lib, key, j);
                }
            }
            assert(r[t.len() as int] == (lib, key, source));
        },
    }
}

/// When some entry records a library's field, a first one does.
proof fn lemma_exists_first_trace(t: Seq<(SymV, Seq<char>, SourceV)>, lib: SymV, key: Seq<char>, i: int)
    requires
        0 <= i < t.len(),
        t[i].0 == lib && t[i].1 == key,
    ensures
        first_trace(t, lib, key) is Some,
    decreases i,
{
    if exists|j: int| 0 <= j < i && (t[j].0 == lib && t[j].1 == key) {
        let j = choose|j: int| 0 <= j < i && (t[j].0 == lib && t[j].1 == key);
        lemma_exists_first_trace(t, lib, key, j);
    } else {
        lemma_first_trace(t, lib, key, i);
    }
}

} // verus!
