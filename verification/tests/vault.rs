use sim_foundation::index::key::canonical_feature_key;
use sim_foundation::index::model::{
    AnchorId, DeclarationFact, DeclarationRole, DiscoveredAnchor, DiscoveredSpecimen,
    DiscoveredSurface, FeatureDraft, FeatureId, FeatureRecord, GrammarContract, IndexDoc,
    IndexEdge, ProtocolRelation, ProtocolResolution, RouteId, RouteRecord, RouteStep,
    SourceCompleteness, SourceLocation, SourceReachability, SourceUnit, SpecimenId, SubjectId,
    SubjectRecord, SurfaceId, SyntaxBound, Visibility,
};
use sim_foundation::index::rows::IndexRow;
use sim_foundation::vault::claim::{ClaimCertificate, ClaimSite, DerivedClaim};
use sim_foundation::vault::model::{
    validate_incoming_relations, ProjectionError, Relation, RelationOrigin, VaultGranularity,
    VaultNoteId, VaultNoteKind,
};
use sim_foundation::vault::projection::{FragmentProjection, VaultProjection};

fn fixture() -> IndexDoc {
    let subject = SubjectId::new("crate/example");
    let anchor = AnchorId::new("export/example/value");
    let doc_anchor = AnchorId::new("doc/example/value");
    let surface = SurfaceId::new("syntax/example");
    let specimen = SpecimenId::new("recipe/example/value");
    let feature = FeatureId::new("feature/example/value");
    IndexDoc {
        schema: "sim.index".into(),
        generated_by: "vault-test".into(),
        visibility: Visibility::Public,
        subjects: vec![SubjectRecord {
            id: subject.clone(),
            kind: "crate".into(),
            title: "Example".into(),
        }],
        anchors: vec![
            DiscoveredAnchor {
                id: anchor.clone(),
                subject: subject.clone(),
                kind: "export".into(),
            },
            DiscoveredAnchor {
                id: doc_anchor.clone(),
                subject: subject.clone(),
                kind: "doc".into(),
            },
        ],
        source_units: vec![SourceUnit {
            subject: subject.clone(),
            path: "src/lib.rs".into(),
            reachability: SourceReachability::Reachable,
            completeness: SourceCompleteness::Complete,
            reason: String::new(),
            retained_bound: SyntaxBound {
                max_bytes: 4096,
                truncated: false,
            },
            declaration_count: 2,
        }],
        declarations: vec![DeclarationFact {
            anchor: anchor.clone(),
            role: DeclarationRole::Struct,
            path_in_crate: "example::Value".into(),
            generics: String::new(),
            members: vec!["value: String".into()],
            location: SourceLocation {
                file: "src/lib.rs".into(),
                declaration: 0,
            },
            syntax_bound: SyntaxBound {
                max_bytes: 4096,
                truncated: false,
            },
        }],
        protocol_relations: vec![ProtocolRelation {
            anchor: anchor.clone(),
            implementor: "Value".into(),
            source_spelling: "Display".into(),
            body_fingerprint: "fmt".into(),
            body_bound: SyntaxBound {
                max_bytes: 4096,
                truncated: false,
            },
            resolution: ProtocolResolution::Resolved {
                protocol: "core::fmt::Display".into(),
            },
        }],
        surfaces: vec![DiscoveredSurface {
            id: surface.clone(),
            subject: subject.clone(),
            kind: "syntax".into(),
        }],
        specimens: vec![DiscoveredSpecimen {
            id: specimen.clone(),
            subject: subject.clone(),
            kind: "recipe".into(),
            path: "recipes/value".into(),
            language: Some("sim".into()),
            runnable: true,
            checked: true,
            checked_by: Some("test".into()),
            doc_anchor: Some(doc_anchor.clone()),
        }],
        drafts: vec![FeatureDraft {
            id: FeatureId::new("feature/example/draft"),
            subject: subject.clone(),
            title: "Draft".into(),
            summary: "Draft feature".into(),
            claims_anchors: vec![],
            claims_surfaces: vec![],
            claims_specimens: vec![],
            literal_anchors: vec![],
            literal_surfaces: vec![],
            literal_specimens: vec![],
            grammar_contracts: vec![],
            doc_anchor: None,
        }],
        features: vec![FeatureRecord {
            id: feature.clone(),
            key: canonical_feature_key(&subject, feature.as_str()),
            subject: subject.clone(),
            title: "Value".into(),
            summary: "Example value".into(),
            anchors: vec![anchor.clone()],
            surfaces: vec![surface.clone()],
            specimens: vec![specimen.clone()],
            grammar_contracts: vec![GrammarContract {
                id: "grammar/example".into(),
                decoder: Some(anchor),
                encoder: None,
                surface: Some(surface),
                round_trip: true,
            }],
            doc_anchor: Some(doc_anchor),
        }],
        routes: vec![RouteRecord {
            id: RouteId::new("route/example/value"),
            title: "Use value".into(),
            audiences: vec!["user".into()],
            steps: vec![
                RouteStep::Feature {
                    id: feature.clone(),
                    why: "Learn it".into(),
                },
                RouteStep::Specimen {
                    id: specimen,
                    why: "Run it".into(),
                },
            ],
            doc_anchor: None,
        }],
        edges: vec![IndexEdge::relates(feature.clone(), "supports", feature)],
    }
}

fn site() -> ClaimSite {
    ClaimSite {
        note: VaultNoteId::new("note/test"),
        section: "rows".into(),
    }
}

#[test]
fn every_inventory_family_closes_and_permutations_are_identical() {
    let doc = fixture();
    let projection = VaultProjection::from_complete(&doc, VaultGranularity::Full).unwrap();
    assert!(projection.certificate().is_closed());
    assert_eq!(
        projection.certificate().primary().len(),
        doc.inventory().1.len()
    );
    let mut reordered = doc.clone();
    reordered.anchors.reverse();
    assert_eq!(
        projection,
        VaultProjection::from_complete(&reordered, VaultGranularity::Full).unwrap()
    );
    assert!(matches!(
        doc.protocol_relations[0].resolution,
        ProtocolResolution::Resolved { .. }
    ));
}

#[test]
fn exact_certificate_distinguishes_all_claim_failures_and_substitution() {
    let a = IndexRow::Subject(fixture().subjects[0].clone());
    let mut other = fixture().subjects[0].clone();
    other.id = SubjectId::new("crate/other");
    let b = IndexRow::Subject(other);
    assert!(matches!(
        ClaimCertificate::close(vec![a.clone(), a.clone()], vec![], vec![]),
        Err(ProjectionError::DuplicateCanonicalRow(_))
    ));
    assert!(matches!(
        ClaimCertificate::close(vec![a.clone()], vec![(b.clone(), site())], vec![]),
        Err(ProjectionError::UnknownClaimedRow(_))
    ));
    assert!(matches!(
        ClaimCertificate::close(vec![a.clone()], vec![], vec![]),
        Err(ProjectionError::UnclaimedRow(_))
    ));
    assert!(matches!(
        ClaimCertificate::close(
            vec![a.clone()],
            vec![(a.clone(), site()), (a.clone(), site())],
            vec![]
        ),
        Err(ProjectionError::MultiplyClaimedRow(_))
    ));
    let derived = DerivedClaim {
        row: b.clone(),
        site: site(),
        origin: "test".into(),
    };
    assert!(matches!(
        ClaimCertificate::close(vec![a.clone()], vec![(a, site())], vec![derived]),
        Err(ProjectionError::DerivedWithoutPrimary(_))
    ));
    // A same-sized substitution is rejected by row identity, never hidden by totals.
    assert!(matches!(
        ClaimCertificate::close(vec![b.clone()], vec![(b.clone(), site()), (b, site())], vec![]),
        Err(ProjectionError::MultiplyClaimedRow(_))
    ));
}

#[test]
fn private_documents_are_rejected_before_planning() {
    let mut doc = fixture();
    doc.visibility = Visibility::PrivateLocal;
    assert_eq!(
        VaultProjection::from_complete(&doc, VaultGranularity::Full),
        Err(ProjectionError::NonPublicDocument)
    );
}

#[test]
fn every_row_has_exactly_one_home_note() {
    let doc = fixture();
    let projection = VaultProjection::from_complete(&doc, VaultGranularity::Full).unwrap();
    let total: usize = projection.notes().iter().map(|n| n.rows.len()).sum();
    assert_eq!(total, doc.inventory().1.len());
    let ids: Vec<&str> = projection.notes().iter().map(|n| n.id.as_str()).collect();
    let mut sorted = ids.clone();
    sorted.sort();
    sorted.dedup();
    assert_eq!(ids, sorted);
    let relations = projection
        .notes()
        .iter()
        .find(|n| n.id.as_str() == "index/relations")
        .unwrap();
    assert_eq!(relations.kind, VaultNoteKind::Index);
    assert_eq!(relations.rows.len(), 1);
}

#[test]
fn compact_granularity_keeps_rows_and_drops_navigation() {
    let doc = fixture();
    let compact = VaultProjection::from_complete(&doc, VaultGranularity::Compact).unwrap();
    let full = VaultProjection::from_complete(&doc, VaultGranularity::Full).unwrap();
    assert!(compact.certificate().derived().is_empty());
    assert!(!full.certificate().derived().is_empty());
    assert_eq!(
        compact.certificate().primary().len(),
        full.certificate().primary().len()
    );
    let subject_note = compact
        .notes()
        .iter()
        .find(|n| n.id.as_str() == "crate/example")
        .unwrap();
    assert_eq!(subject_note.kind, VaultNoteKind::Subject);
    // subject, both anchors, source unit, surface-owned rows stay in their own notes
    assert_eq!(subject_note.rows.len(), 4);
}

#[test]
fn full_granularity_derives_navigation_with_origins() {
    let doc = fixture();
    let projection = VaultProjection::from_complete(&doc, VaultGranularity::Full).unwrap();
    let origins: Vec<&str> = projection
        .certificate()
        .derived()
        .iter()
        .map(|d| d.origin.as_str())
        .collect();
    assert_eq!(
        origins,
        vec![
            "readme-navigation",
            "feature-claim",
            "route-step",
            "route-step"
        ]
    );
    let route_targets: Vec<&str> = projection
        .certificate()
        .derived()
        .iter()
        .filter(|d| d.origin == "route-step")
        .map(|d| d.site.note.as_str())
        .collect();
    assert_eq!(
        route_targets,
        vec!["feature/example/value", "recipe/example/value"]
    );
}

#[test]
fn edges_project_forward_and_mirrored_relations() {
    let doc = fixture();
    let projection = VaultProjection::from_complete(&doc, VaultGranularity::Full).unwrap();
    assert_eq!(
        projection.relations(),
        &[Relation::canonical(
            "feature/example/value",
            "supports",
            "feature/example/value"
        )]
    );
    assert_eq!(projection.reverse_relations()[0].origin, RelationOrigin::Derived);
    assert!(validate_incoming_relations(
        projection.relations(),
        projection.reverse_relations()
    )
    .is_ok());
}

#[test]
fn incoming_relations_must_mirror_forward_facts_exactly() {
    let forward = vec![Relation::canonical("a/x", "uses", "b/y")];
    let mirror = forward[0].mirrored();
    assert!(validate_incoming_relations(&forward, &[mirror.clone()]).is_ok());
    assert_eq!(
        validate_incoming_relations(&forward, &[]),
        Err(ProjectionError::MissingDerivedRelation(mirror.clone()))
    );
    let stray = Relation::canonical("b/y", "uses", "c/z");
    assert_eq!(
        validate_incoming_relations(&forward, &[mirror, stray.clone()]),
        Err(ProjectionError::ReverseWithoutForward(stray))
    );
}

#[test]
fn duplicate_rows_are_refused_by_the_projection() {
    let mut doc = fixture();
    doc.subjects.push(doc.subjects[0].clone());
    assert!(matches!(
        VaultProjection::from_complete(&doc, VaultGranularity::Full),
        Err(ProjectionError::DuplicateCanonicalRow(_))
    ));
}

#[test]
fn certificate_rows_are_in_key_order_and_match_claims() {
    let a = IndexRow::Subject(fixture().subjects[0].clone());
    let mut other = fixture().subjects[0].clone();
    other.id = SubjectId::new("crate/aaa");
    let b = IndexRow::Subject(other);
    let c = ClaimCertificate::close(
        vec![a.clone(), b.clone()],
        vec![(a.clone(), site()), (b.clone(), site())],
        vec![],
    )
    .unwrap();
    assert!(c.is_closed());
    assert_eq!(c.canonical(), &[b.clone(), a.clone()]);
    assert_eq!(c.primary()[0].0, b);
    assert_eq!(c.primary()[1].0, a);
}

#[test]
fn unknown_and_unclaimed_rows_report_the_least_row() {
    let mk = |id: &str| {
        let mut s = fixture().subjects[0].clone();
        s.id = SubjectId::new(id);
        IndexRow::Subject(s)
    };
    let (a, b, c) = (mk("crate/a"), mk("crate/b"), mk("crate/c"));
    assert_eq!(
        ClaimCertificate::close(vec![a.clone()], vec![(c.clone(), site()), (b.clone(), site())], vec![]),
        Err(ProjectionError::UnknownClaimedRow(Box::new(b.clone())))
    );
    assert_eq!(
        ClaimCertificate::close(vec![c.clone(), b.clone(), a.clone()], vec![(a, site())], vec![]),
        Err(ProjectionError::UnclaimedRow(Box::new(b)))
    );
}

#[test]
fn fragments_defer_external_edge_targets() {
    let mut doc = fixture();
    doc.edges.push(IndexEdge::new("feature/example/value", "extends", "feature/remote/z"));
    doc.edges.push(IndexEdge::new("feature/example/value", "extends", "feature/remote/a"));
    let fragment = FragmentProjection::from_fragment(&doc, VaultGranularity::Compact).unwrap();
    let deferred: Vec<&str> = fragment
        .certificate()
        .deferred_external_endpoints()
        .iter()
        .map(|w| w.external_to.as_str())
        .collect();
    assert_eq!(deferred, vec!["feature/remote/a", "feature/remote/z"]);
    assert!(!fragment.certificate().is_whole_graph_complete());
    assert!(fragment.certificate().local_claims().is_closed());
    assert_eq!(fragment.certificate().metadata().schema, "sim.index");
    assert!(!fragment.notes().is_empty());
}

#[test]
fn note_ids_and_sites_copy_exactly() {
    let id = VaultNoteId::new("note/x");
    assert_eq!(id.as_str(), "note/x");
    let s = ClaimSite { note: id.copy(), section: "rows".into() };
    assert_eq!(s.copy(), s);
}
