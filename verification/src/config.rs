//! Configuration roots and probe vocabulary.
//!
//! Paths are `/`-separated text. [`join_path`] follows `PathBuf::join` on
//! Unix: an absolute part replaces the base, otherwise the part is appended
//! after a separator (added only when the base does not already end in one).

use vstd::prelude::*;

pub mod expr;
pub mod table;
pub mod merge;
pub mod view;
pub mod report;
pub mod shape;

use crate::config::expr::SymV;
use crate::config::merge::ConfigLayer;
use crate::config::table::{ConfigError, ConfigErrorV, as_qualified_str, first_slash, qualified_str};
use crate::conformance::datum::{Sym, sym_v};
use crate::text::{append_str, chars_of, string_of_range, text};

verus! {

/// Joining a path part onto a base, as `PathBuf::join` does on Unix.
pub open spec fn join_spec(base: Seq<char>, part: Seq<char>) -> Seq<char> {
    if part.len() > 0 && part[0] == '/' {
        part
    } else if base.len() == 0 || base.last() == '/' {
        base + part
    } else {
        base + seq!['/'] + part
    }
}

/// Joins `part` onto `base`.
pub fn join_path(base: &str, part: &str) -> (r: String)
    ensures
        r@ == join_spec(base@, part@),
{
    let b = crate::text::chars_of(base);
    let p = crate::text::chars_of(part);
    if p.len() > 0 && p[0] == '/' {
        return text(part);
    }
    let mut r = text(base);
    if !(b.len() == 0 || b[b.len() - 1] == '/') {
        crate::text::push_char(&mut r, '/');
    }
    r.append(part);
    r
}

/// Central and working config roots.
#[derive(Clone, Debug, PartialEq, Eq)]
pub struct ConfigRoots {
    /// Explicit central user config root, when supplied by the host.
    pub home: Option<String>,
    /// Working config root.
    pub work: String,
}

/// The central root chosen from the environment: `SIM_CONFIG_HOME` as is,
/// else `$XDG_CONFIG_HOME/sim`, else `$HOME/.config/sim`.
pub open spec fn home_root(
    sim_config_home: Option<Seq<char>>,
    xdg_config_home: Option<Seq<char>>,
    home: Option<Seq<char>>,
) -> Option<Seq<char>> {
    match sim_config_home {
        Some(h) => Some(h),
        None => match xdg_config_home {
            Some(x) => Some(join_spec(x, seq!['s', 'i', 'm'])),
            None => match home {
                Some(h) => Some(
                    join_spec(join_spec(h, seq!['.', 'c', 'o', 'n', 'f', 'i', 'g']), seq!['s', 'i', 'm']),
                ),
                None => None,
            },
        },
    }
}

/// The view of an optional path.
pub open spec fn opt_view(p: Option<String>) -> Option<Seq<char>> {
    match p {
        Some(s) => Some(s@),
        None => None,
    }
}

impl ConfigRoots {
    /// Creates roots from explicit values without reading the filesystem.
    pub fn new(home: Option<String>, work: String) -> (r: ConfigRoots)
        ensures
            r.home == home,
            r.work == work,
    {
        ConfigRoots { home, work }
    }

    /// Derives roots from provided environment values: the working root is
    /// `<work_root>/.sim/config`, the central root as [`home_root`] says.
    pub fn from_env_values(
        work_root: String,
        sim_config_home: Option<String>,
        xdg_config_home: Option<String>,
        home: Option<String>,
    ) -> (r: ConfigRoots)
        ensures
            opt_view(r.home) == home_root(
                opt_view(sim_config_home),
                opt_view(xdg_config_home),
                opt_view(home),
            ),
            r.work@ == join_spec(
                join_spec(work_root@, seq!['.', 's', 'i', 'm']),
                seq!['c', 'o', 'n', 'f', 'i', 'g'],
            ),
    {
        proof {
            reveal_strlit("sim");
            reveal_strlit(".config");
            reveal_strlit(".sim");
            reveal_strlit("config");
        }
        assert("sim"@ =~= seq!['s', 'i', 'm']);
        assert(".config"@ =~= seq!['.', 'c', 'o', 'n', 'f', 'i', 'g']);
        assert(".sim"@ =~= seq!['.', 's', 'i', 'm']);
        assert("config"@ =~= seq!['c', 'o', 'n', 'f', 'i', 'g']);
        let central = match sim_config_home {
            Some(h) => Some(h),
            None => match xdg_config_home {
                Some(x) => Some(join_path(x.as_str(), "sim")),
                None => match home {
                    Some(h) => {
                        let c = join_path(h.as_str(), ".config");
                        Some(join_path(c.as_str(), "sim"))
                    },
                    None => None,
                },
            },
        };
        let w = join_path(work_root.as_str(), ".sim");
        ConfigRoots { home: central, work: join_path(w.as_str(), "config") }
    }
}

/// Probe mode for config defaults.
#[derive(Clone, Copy, Debug, PartialEq, Eq)]
pub enum ProbeMode {
    /// Deterministic, modeled inventory; performs no real I/O.
    Modeled,
    /// Capability-gated real inventory.
    Real,
}

impl Default for ProbeMode {
    /// The modeled mode.
    fn default() -> (m: ProbeMode)
        ensures
            m == ProbeMode::Modeled,
    {
        ProbeMode::Modeled
    }
}

/// Capability grants available to a configuration probe.
#[derive(Clone, Copy, Debug, Default, PartialEq, Eq)]
pub struct ConfigProbeCaps {
    /// Permission to inspect environment-variable presence.
    pub env: bool,
    /// Permission to inspect operating-system facts.
    pub os: bool,
    /// Permission to inspect hardware inventory.
    pub hardware_inventory: bool,
    /// Permission to inspect network inventory.
    pub network_inventory: bool,
}

/// Outcome reported by a configuration probe.
#[derive(Clone, Debug, PartialEq, Eq)]
pub enum ConfigProbeStatus {
    /// A config layer was emitted and applied.
    Applied,
    /// The probe intentionally did not emit a layer.
    Skipped {
        /// Human-readable skip reason.
        reason: String,
    },
    /// The probe was denied a required capability.
    Denied {
        /// Capability name that was required.
        capability: String,
    },
    /// The probe failed without making configuration discovery fatal.
    Failed {
        /// Human-readable failure message.
        message: String,
    },
}


/// `sim_table_core::is_legal_table_segment`: a table path segment is legal
/// when it is not empty, `.` or `..`, and holds no `/` or `\`.
#[verifier::external_body]
fn legal_table_segment(name: &str) -> (b: bool)
    ensures
        b == !(name@.len() == 0 || name@ == "."@ || name@ == ".."@ || name@.contains('/')
            || name@.contains('\\')),
{
    sim_table_core::is_legal_table_segment(name)
}

/// A safe path segment: a legal table segment of ASCII letters, digits,
/// `_`, `-` and `.`.
pub open spec fn safe_segment(s: Seq<char>) -> bool {
    &&& !(s.len() == 0 || s == "."@ || s == ".."@ || s.contains('/') || s.contains('\\'))
    &&& forall|i: int| 0 <= i < s.len() ==> #[trigger] path_char(s[i])
}

/// A character allowed in a path segment.
pub open spec fn path_char(c: char) -> bool {
    ('a' <= c && c <= 'z') || ('A' <= c && c <= 'Z') || ('0' <= c && c <= '9') || c == '_' || c == '-'
        || c == '.'
}

/// The `/`-separated parts of a text.
#[verifier::opaque]
pub open spec fn split_slash(s: Seq<char>) -> Seq<Seq<char>>
    decreases s.len(),
{
    match first_slash(s) {
        Some(p) => if 0 <= p < s.len() {
            seq![s.take(p)] + split_slash(s.skip(p + 1))
        } else {
            seq![s]
        },
        None => seq![s],
    }
}

proof fn lemma_split_found(s: Seq<char>, p: int)
    requires
        0 <= p < s.len(),
        s[p] == '/',
        forall|q: int| 0 <= q < p ==> s[q] != '/',
    ensures
        split_slash(s) == seq![s.take(p)] + split_slash(s.skip(p + 1)),
{
    reveal(split_slash);
    assert(s.contains('/'));
    let w = choose|w: int| 0 <= w < s.len() && s[w] == '/' && forall|q: int| 0 <= q < w ==> s[q] != '/';
    assert(w == p) by {
        if w < p {
            assert(s[w] != '/');
        } else if w > p {
            assert(s[p] != '/');
        }
    }
}

proof fn lemma_split_none(s: Seq<char>)
    requires
        !s.contains('/'),
    ensures
        split_slash(s) == seq![s],
{
    reveal(split_slash);
}

/// A file name without its extension: up to its last `.`, unless that dot
/// is its first character or it has none.
pub open spec fn file_stem(name: Seq<char>) -> Seq<char> {
    if exists|i: int| 0 < i < name.len() && name[i] == '.' {
        name.take(choose|i: int| 0 < i < name.len() && name[i] == '.' && forall|j: int| i < j < name.len() ==> name[j] != '.')
    } else {
        name
    }
}

/// Returns the safe relative path of one library's per-library config
/// file, or the first unsafe segment of its id.
pub fn lib_config_path(lib: &Sym) -> (r: Result<String, ConfigError>)
    ensures
        ({
            let parts = split_slash(qualified_str(sym_v(*lib)));
            if exists|i: int| 0 <= i < parts.len() && !safe_segment(#[trigger] parts[i]) {
                exists|i: int|
                    0 <= i < parts.len() && !safe_segment(#[trigger] parts[i]) && (forall|j: int|
                        0 <= j < i ==> safe_segment(parts[j])) && (r matches Err(e) && e@
                        == ConfigErrorV::InvalidPathSegment(parts[i]))
            } else {
                r matches Ok(p) && p@ == lib_path_string(parts)
            }
        }),
{
    let q = as_qualified_str(lib);
    let parts = split_parts(q.as_str());
    let ghost pv = split_slash(q@);
    let mut i: usize = 0;
    while i < parts.len()
        invariant
            i <= parts@.len(),
            crate::conformance::graph::texts(parts@) == pv,
            pv == split_slash(qualified_str(sym_v(*lib))),
            forall|j: int| 0 <= j < i ==> safe_segment(#[trigger] pv[j]),
        decreases parts@.len() - i,
    {
        assert(pv[i as int] == parts@[i as int]@);
        if !safe_segment_exec(parts[i].as_str()) {
            assert(!safe_segment(pv[i as int]));
            return Err(ConfigError::InvalidPathSegment { segment: parts[i].clone() });
        }
        i += 1;
    }
    assert(!exists|x: int| 0 <= x < pv.len() && !safe_segment(#[trigger] pv[x]));
    Ok(join_lib_path(&parts))
}

/// `libs/` followed by the parts joined with `/`, the last one's
/// extension set to `toml`.
pub open spec fn lib_path_string(parts: Seq<Seq<char>>) -> Seq<char>
    decreases parts.len(),
{
    if parts.len() == 0 {
        "libs"@
    } else {
        joined_dirs(parts.drop_last()) + file_stem(parts.last()) + ".toml"@
    }
}

/// `libs/` followed by each part and a `/`.
pub open spec fn joined_dirs(parts: Seq<Seq<char>>) -> Seq<char>
    decreases parts.len(),
{
    if parts.len() == 0 {
        "libs/"@
    } else {
        joined_dirs(parts.drop_last()) + parts.last() + "/"@
    }
}

fn safe_segment_exec(s: &str) -> (b: bool)
    ensures
        b == safe_segment(s@),
{
    if !legal_table_segment(s) {
        return false;
    }
    let cs = chars_of(s);
    let mut i: usize = 0;
    while i < cs.len()
        invariant
            i <= cs@.len(),
            cs@ == s@,
            forall|j: int| 0 <= j < i ==> #[trigger] path_char(s@[j]),
        decreases cs@.len() - i,
    {
        let c = cs[i];
        if !(('a' <= c && c <= 'z') || ('A' <= c && c <= 'Z') || ('0' <= c && c <= '9') || c == '_'
            || c == '-' || c == '.') {
            assert(!path_char(s@[i as int]));
            return false;
        }
        i += 1;
    }
    true
}

/// Splits a text at each `/`.
fn split_parts(s: &str) -> (r: Vec<String>)
    ensures
        crate::conformance::graph::texts(r@) == split_slash(s@),
{
    let cs = chars_of(s);
    let mut out: Vec<String> = Vec::new();
    assert(cs@.skip(0) =~= s@);
    assert(crate::conformance::graph::texts(out@) + split_slash(cs@.skip(0)) =~= split_slash(s@));
    let mut start: usize = 0;
    let mut i: usize = 0;
    while i < cs.len()
        invariant
            start <= i <= cs@.len(),
            cs@ == s@,
            forall|j: int| start <= j < i ==> cs@[j] != '/',
            crate::conformance::graph::texts(out@) + split_slash(cs@.skip(start as int)) == split_slash(s@),
        decreases cs@.len() - i,
    {
        if cs[i] == '/' {
            let ghost rest = cs@.skip(start as int);
            proof {
                assert(rest[i - start] == '/');
                assert forall|q: int| 0 <= q < i - start implies rest[q] != '/' by {
                    assert(cs@[start + q] != '/');
                }
                lemma_split_found(rest, i - start);
                assert(rest.take(i - start) =~= cs@.subrange(start as int, i as int));
                assert(rest.skip(i - start + 1) =~= cs@.skip(i + 1));
            }
            let part = string_of_range(&cs, start, i);
            let ghost before = crate::conformance::graph::texts(out@);
            out.push(part);
            assert(crate::conformance::graph::texts(out@) =~= before.push(cs@.subrange(start as int, i as int)));
            assert(crate::conformance::graph::texts(out@) + split_slash(cs@.skip(i + 1)) =~= before + split_slash(rest));
            start = i + 1;
        }
        i += 1;
    }
    let ghost rest = cs@.skip(start as int);
    assert(!rest.contains('/')) by {
        if rest.contains('/') {
            let q = choose|q: int| 0 <= q < rest.len() && rest[q] == '/';
            assert(cs@[start + q] == '/');
        }
    }
    proof {
        lemma_split_none(rest);
    }
    let last = string_of_range(&cs, start, cs.len());
    assert(last@ =~= rest);
    let ghost before = crate::conformance::graph::texts(out@);
    out.push(last);
    assert(crate::conformance::graph::texts(out@) =~= before + split_slash(rest));
    out
}

/// The stem of a file name.
fn stem_of(name: &str) -> (r: String)
    ensures
        r@ == file_stem(name@),
{
    let cs = chars_of(name);
    let mut i: usize = cs.len();
    while i > 0 && cs[i - 1] != '.'
        invariant
            i <= cs@.len(),
            cs@ == name@,
            forall|j: int| i <= j < cs@.len() ==> cs@[j] != '.',
        decreases i,
    {
        i -= 1;
    }
    if i <= 1 {
        assert(!exists|x: int| 0 < x < name@.len() && name@[x] == '.') by {
            if exists|x: int| 0 < x < name@.len() && name@[x] == '.' {
                let x = choose|x: int| 0 < x < name@.len() && name@[x] == '.';
                if i == 1 {
                    assert(x >= 1);
                }
            }
        }
        text(name)
    } else {
        let d = i - 1;
        proof {
            assert(name@[d as int] == '.');
            let w = choose|w: int| 0 < w < name@.len() && name@[w] == '.' && forall|j: int| w < j < name@.len() ==> name@[j] != '.';
            assert(w == d) by {
                if w < d {
                    assert(name@[d as int] != '.');
                } else if w > d {
                    assert(cs@[w] != '.');
                }
            }
        }
        let r = string_of_range(&cs, 0, d);
        assert(r@ =~= name@.take(d as int));
        r
    }
}

/// Joins `libs`, the parts, and the last part's stem with `.toml`.
fn join_lib_path(parts: &Vec<String>) -> (r: String)
    ensures
        r@ == lib_path_string(crate::conformance::graph::texts(parts@)),
{
    let ghost pv = crate::conformance::graph::texts(parts@);
    if parts.len() == 0 {
        return text("libs");
    }
    let mut out = text("libs/");
    let mut i: usize = 0;
    while i < parts.len() - 1
        invariant
            i + 1 <= parts@.len(),
            pv == crate::conformance::graph::texts(parts@),
            out@ == joined_dirs(pv.take(i as int)),
        decreases parts@.len() - i,
    {
        append_str(&mut out, parts[i].as_str());
        append_str(&mut out, "/");
        assert(pv.take(i + 1).drop_last() =~= pv.take(i as int));
        assert(pv.take(i + 1).last() == parts@[i as int]@);
        i += 1;
    }
    let stem = stem_of(parts[i].as_str());
    append_str(&mut out, stem.as_str());
    append_str(&mut out, ".toml");
    assert(pv.drop_last() =~= pv.take(i as int));
    out
}

/// One probe request.
#[derive(Clone, Debug, PartialEq, Eq)]
pub struct ConfigProbeRequest {
    /// Library whose defaults are requested.
    pub lib: Sym,
    /// Probe mode.
    pub mode: ProbeMode,
    /// Capability grants.
    pub caps: ConfigProbeCaps,
}

/// Typed probe report.
#[derive(Clone, Debug, PartialEq, Eq)]
pub struct ConfigProbeReport {
    /// Probe implementation id.
    pub probe: Sym,
    /// Library whose defaults were requested.
    pub lib: Sym,
    /// Probe mode.
    pub mode: ProbeMode,
    /// Outcome.
    pub status: ConfigProbeStatus,
    /// Top-level keys emitted by the probe layer.
    pub emitted_keys: Vec<String>,
}

/// Implemented by modeled or real config probes.
pub trait ConfigProbe {
    /// Stable probe implementation id.
    fn symbol(&self) -> Sym;

    /// Produces an optional config layer and a typed report.
    fn probe(&self, request: &ConfigProbeRequest) -> (Option<ConfigLayer>, ConfigProbeReport);
}

} // verus!
