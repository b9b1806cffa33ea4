//! Materializing authored feature drafts into feature records.

use vstd::prelude::*;

use crate::index::key::{canonical_feature_key, slug_spec, CanonicalFeatureKey};
use crate::index::model::{FeatureDraft, FeatureRecord};

verus! {

/// Materializes a draft with an explicit canonical key: the record keeps
/// the draft's id, subject, title, summary, claimed ids, grammar contracts
/// and documentation anchor; literal claims are dropped.
pub fn materialize_draft_with_key(draft: FeatureDraft, key: CanonicalFeatureKey) -> (r: FeatureRecord)
    ensures
        r.id == draft.id,
        r.key == key,
        r.subject == draft.subject,
        r.title == draft.title,
        r.summary == draft.summary,
        r.anchors == draft.claims_anchors,
        r.surfaces == draft.claims_surfaces,
        r.specimens == draft.claims_specimens,
        r.grammar_contracts == draft.grammar_contracts,
        r.doc_anchor == draft.doc_anchor,
{
    FeatureRecord {
        id: draft.id,
        key,
        subject: draft.subject,
        title: draft.title,
        summary: draft.summary,
        anchors: draft.claims_anchors,
        surfaces: draft.claims_surfaces,
        specimens: draft.claims_specimens,
        grammar_contracts: draft.grammar_contracts,
        doc_anchor: draft.doc_anchor,
    }
}

/// Materializes a draft with the default canonical key of its subject and
/// id.
pub fn materialize_draft(draft: FeatureDraft) -> (r: FeatureRecord)
    ensures
        r.key@ == draft.subject@ + "/"@ + slug_spec(draft.id@),
        r.id == draft.id,
        r.subject == draft.subject,
        r.title == draft.title,
        r.summary == draft.summary,
        r.anchors == draft.claims_anchors,
        r.surfaces == draft.claims_surfaces,
        r.specimens == draft.claims_specimens,
        r.grammar_contracts == draft.grammar_contracts,
        r.doc_anchor == draft.doc_anchor,
{
    let key = canonical_feature_key(&draft.subject, draft.id.as_str());
    materialize_draft_with_key(draft, key)
}

} // verus!
