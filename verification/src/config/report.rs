//! Report model for effective config provenance.

use vstd::prelude::*;

use crate::config::ProbeMode;
use crate::config::expr::SymV;
use crate::config::merge::{ConfigSource, EffectiveConfig, MergeTrace, SourceV, eff_v, trace_v};
use crate::config::table::{as_qualified_str, qualified_str};
use crate::conformance::datum::{Sym, sym_v};
use crate::text::{append_str, text};

verus! {

/// One field's effective source label.
#[derive(Clone, Debug, PartialEq, Eq)]
pub struct ConfigReportEntry {
    /// Library table that contains the field.
    pub lib: Sym,
    /// Top-level field key.
    pub key: String,
    /// Human-readable source label.
    pub source: String,
}

/// User-facing summary of field provenance in an effective config.
#[derive(Clone, Debug, PartialEq, Eq)]
pub struct ConfigReport {
    /// Provenance entries, one per effective top-level field.
    pub entries: Vec<ConfigReportEntry>,
}

/// A source's label: its kind, a colon, and its library, path or label; a
/// probe adds its mode.
pub open spec fn source_label_spec(s: SourceV) -> Seq<char> {
    match s {
        SourceV::BuiltIn(lib) => "built-in:"@ + qualified_str(lib),
        SourceV::Probe(p, mode) => "probe:"@ + qualified_str(p) + ":"@ + match mode {
            ProbeMode::Modeled => "Modeled"@,
            ProbeMode::Real => "Real"@,
        },
        SourceV::HomeFile(path) => "home-file:"@ + path,
        SourceV::WorkFile(path) => "work-file:"@ + path,
        SourceV::SingleFile(path) => "single-file:"@ + path,
        SourceV::Site(site) => "site:"@ + qualified_str(site),
        SourceV::Explicit(label) => "explicit:"@ + label,
    }
}

/// Value of a report entry.
pub open spec fn report_entry_v(e: ConfigReportEntry) -> (SymV, Seq<char>, Seq<char>) {
    (sym_v(e.lib), e.key@, e.source@)
}

fn prefixed(prefix: &str, rest: &str) -> (r: String)
    ensures
        r@ == prefix@ + rest@,
{
    let mut out = text(prefix);
    append_str(&mut out, rest);
    out
}

fn source_label(source: &ConfigSource) -> (r: String)
    ensures
        r@ == source_label_spec(source@),
{
    match source {
        ConfigSource::BuiltIn { lib } => prefixed("built-in:", as_qualified_str(lib).as_str()),
        ConfigSource::Probe { probe, mode } => {
            let mut out = prefixed("probe:", as_qualified_str(probe).as_str());
            append_str(&mut out, ":");
            append_str(
                &mut out,
                match mode {
                    ProbeMode::Modeled => "Modeled",
                    ProbeMode::Real => "Real",
                },
            );
            out
        },
        ConfigSource::HomeFile { path } => prefixed("home-file:", path.as_str()),
        ConfigSource::WorkFile { path } => prefixed("work-file:", path.as_str()),
        ConfigSource::SingleFile { path } => prefixed("single-file:", path.as_str()),
        ConfigSource::Site { site } => prefixed("site:", as_qualified_str(site).as_str()),
        ConfigSource::Explicit { label } => prefixed("explicit:", label.as_str()),
    }
}

impl ConfigReport {
    /// Builds a report from an effective config: one entry per trace entry,
    /// in order, with the source written as its label.
    pub fn from_effective(effective: &EffectiveConfig) -> (r: ConfigReport)
        ensures
            r.entries@.len() == effective.trace@.len(),
            forall|i: int|
                0 <= i < r.entries@.len() ==> report_entry_v(#[trigger] r.entries@[i]) == (
                    trace_v(effective.trace@[i]).0,
                    trace_v(effective.trace@[i]).1,
                    source_label_spec(trace_v(effective.trace@[i]).2),
                ),
    {
        let mut entries: Vec<ConfigReportEntry> = Vec::new();
        let mut i: usize = 0;
        while i < effective.trace.len()
            invariant
                i <= effective.trace@.len(),
                entries@.len() == i,
                forall|j: int|
                    0 <= j < i ==> report_entry_v(#[trigger] entries@[j]) == (
                        trace_v(effective.trace@[j]).0,
                        trace_v(effective.trace@[j]).1,
                        source_label_spec(trace_v(effective.trace@[j]).2),
                    ),
            decreases effective.trace@.len() - i,
        {
            let t = &effective.trace[i];
            entries.push(
                ConfigReportEntry { lib: t.lib.copy(), key: t.key.clone(), source: source_label(&t.source) },
            );
            i += 1;
        }
        ConfigReport { entries }
    }
}

impl Default for ConfigReport {
    /// An empty report.
    fn default() -> (r: ConfigReport)
        ensures
            r.entries@.len() == 0,
    {
        ConfigReport { entries: Vec::new() }
    }
}

} // verus!
