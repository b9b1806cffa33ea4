//! Canonical feature keys.
//!
//! The key of a feature is `<subject>/<slug>`, where the slug of a label
//! keeps lowercase letters, digits, `_` and `.`, lowercases ASCII capitals,
//! turns every other run of characters into one `-` (never leading or
//! trailing), and is `feature` when nothing remains.

use vstd::prelude::*;

use crate::index::model::SubjectId;
use crate::index::shape::{index_id, is_index_id};
use crate::text::{chars_of, lower, lower_exec, push_char, text};

verus! {

/// Canonical key for one feature, independent of projections and routes.
#[derive(Clone, Debug, PartialEq, Eq, PartialOrd, Ord, Hash)]
pub struct CanonicalFeatureKey {
    text: String,
}

impl View for CanonicalFeatureKey {
    type V = Seq<char>;

    closed spec fn view(&self) -> Seq<char> {
        self.text@
    }
}

impl CanonicalFeatureKey {
    /// Builds a key from already-normalized text.
    pub fn new(value: &str) -> (k: CanonicalFeatureKey)
        ensures
            k@ == value@,
    {
        CanonicalFeatureKey { text: text(value) }
    }

    /// Borrows the key text.
    pub fn as_str(&self) -> (s: &str)
        ensures
            s@ == self@,
    {
        self.text.as_str()
    }

    /// Returns true when the key satisfies the canonical key grammar.
    pub fn is_valid(&self) -> (b: bool)
        ensures
            b == index_id(self@),
    {
        is_index_id(self.text.as_str())
    }

    /// A copy of this key.
    pub fn copy(&self) -> (k: CanonicalFeatureKey)
        ensures
            k == *self,
    {
        CanonicalFeatureKey { text: self.text.clone() }
    }
}

/// A character kept (after lowercasing) in a slug.
pub open spec fn slug_keeps(c: char) -> bool {
    ('A' <= c && c <= 'Z') || ('a' <= c && c <= 'z') || ('0' <= c && c <= '9') || c == '_' || c
        == '.'
}

/// Slugging the first `n` characters of `s`: the text so far, and whether
/// the last character seen was turned into a dash.
pub open spec fn slug_prefix(s: Seq<char>, n: int) -> (Seq<char>, bool)
    decreases n,
{
    if n <= 0 {
        (Seq::empty(), false)
    } else {
        let (out, last_dash) = slug_prefix(s, n - 1);
        let c = s[n - 1];
        if slug_keeps(c) {
            (out.push(lower(c)), false)
        } else if !last_dash && out.len() > 0 {
            (out.push('-'), true)
        } else {
            (out, true)
        }
    }
}

/// `s` without its trailing dashes.
pub open spec fn trim_dashes(s: Seq<char>) -> Seq<char>
    decreases s.len(),
{
    if s.len() > 0 && s.last() == '-' {
        trim_dashes(s.drop_last())
    } else {
        s
    }
}

/// The slug of a label.
pub open spec fn slug_spec(label: Seq<char>) -> Seq<char> {
    let t = trim_dashes(slug_prefix(label, label.len() as int).0);
    if t.len() == 0 {
        "feature"@
    } else {
        t
    }
}

fn slug(value: &str) -> (r: String)
    ensures
        r@ == slug_spec(value@),
{
    let v = chars_of(value);
    let mut out: Vec<char> = Vec::new();
    let mut last_dash = false;
    let mut i: usize = 0;
    while i < v.len()
        invariant
            i <= v.len(),
            (out@, last_dash) == slug_prefix(v@, i as int),
        decreases v.len() - i,
    {
        let c = v[i];
        let keeps = ('A' <= c && c <= 'Z') || ('a' <= c && c <= 'z') || ('0' <= c && c <= '9') || c
            == '_' || c == '.';
        if keeps {
            out.push(lower_exec(c));
            last_dash = false;
        } else if !last_dash && out.len() > 0 {
            out.push('-');
            last_dash = true;
        } else {
            last_dash = true;
        }
        i += 1;
    }
    assert(v@ == value@);
    while out.len() > 0 && out[out.len() - 1] == '-'
        invariant
            trim_dashes(out@) == trim_dashes(slug_prefix(v@, v@.len() as int).0),
        decreases out.len(),
    {
        let ghost before = out@;
        out.pop();
        assert(out@ =~= before.drop_last());
    }
    if out.len() == 0 {
        return text("feature");
    }
    let mut s = String::new();
    let mut k: usize = 0;
    while k < out.len()
        invariant
            k <= out.len(),
            s@ == out@.take(k as int),
        decreases out.len() - k,
    {
        push_char(&mut s, out[k]);
        k += 1;
        assert(s@ =~= out@.take(k as int));
    }
    assert(out@.take(k as int) =~= out@);
    s
}

/// Builds the canonical feature key for a subject and feature label:
/// `<subject>/<slug of label>`.
pub fn canonical_feature_key(subject: &SubjectId, label: &str) -> (k: CanonicalFeatureKey)
    ensures
        k@ == subject@ + "/"@ + slug_spec(label@),
{
    let mut t = text(subject.as_str());
    t.append("/");
    let s = slug(label);
    t.append(s.as_str());
    CanonicalFeatureKey { text: t }
}

} // verus!
