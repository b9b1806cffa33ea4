use sim_foundation::conformance::binding::{
    BindingQualificationReceipt, BoundSurface, CheckedSurfaceRef, DependencyUseSet, OwnerBinding, OwnerCommand,
    OwnerDisposition, QualificationScope, SurfaceKey, SurfaceStatus, SurfaceUse, SurfaceUseRole,
};
use sim_foundation::conformance::checker::{
    CheckArgument, CheckTemplate, CheckerBinding, CheckerReceipt, EvidenceGrade, RevocationStatus,
};
use sim_foundation::conformance::datum::CanonicalDatum;
use sim_foundation::conformance::digest::{
    ConstructionDisposition, DigestConstruction, DigestConstructionRegister, IdentityRole,
};
use sim_foundation::conformance::fake::{CheckEffectPort, FakeClock, FakeEffectPort, FakeInputPort};
use sim_foundation::conformance::graph::{ConformanceError, SupportGraph, SupportNode};
use sim_foundation::conformance::identity::{
    field, text_datum, CheckScopeId, CheckedSubjectId, CommandId, ConformancePackId, IdKind, OwnerBindingId,
    SemanticId, StorageId,
};

fn id<K: IdKind>(value: &str) -> SemanticId<K> {
    SemanticId::<K>::from_text(value).ok().unwrap()
}

fn node(name: &str) -> SupportNode {
    SupportNode(name.to_owned())
}

fn key(name: &str) -> SurfaceKey {
    SurfaceKey::new(name).ok().unwrap()
}

fn command(name: &str) -> OwnerCommand {
    OwnerCommand { id: id(name), cwd: ".".to_owned(), argv: vec![name.to_owned()], environment: "clean".to_owned() }
}

fn surface(name: &str, planned: bool) -> BoundSurface {
    BoundSurface {
        key: key(name),
        public_name: format!("crate::{name}"),
        status: if planned {
            SurfaceStatus::Planned { producing_phase: "phase-2".to_owned() }
        } else {
            SurfaceStatus::Existing
        },
    }
}

fn owner_binding(surfaces: Vec<BoundSurface>) -> Result<OwnerBinding, ConformanceError> {
    OwnerBinding::new(
        "single owner".to_owned(),
        OwnerDisposition::ExtendExisting,
        vec!["sim-core".to_owned()],
        surfaces,
        vec![],
        "down".to_owned(),
        key("route"),
        key("specimen"),
        command("validate"),
        command("docs"),
    )
}

#[test]
fn semantic_ids_depend_on_fields_and_role() {
    let a: CheckedSubjectId = id("subject");
    let b: CheckedSubjectId = id("subject");
    let c: CheckedSubjectId = id("other");
    assert!(a.same(&b));
    assert!(!a.same(&c));
    let pack: ConformancePackId = id("subject");
    assert_ne!(a.digest_bytes(), pack.digest_bytes());
    let d: CheckedSubjectId =
        SemanticId::from_fields(vec![field("value", text_datum("subject"))]).ok().unwrap();
    assert!(a.same(&d));
}

#[test]
fn semantic_text_is_bounded_and_fields_are_unique() {
    assert!(matches!(CheckedSubjectId::from_text(""), Err(ConformanceError::BoundExceeded("semantic id text"))));
    assert!(matches!(CheckedSubjectId::from_text("bad\u{7}"), Err(ConformanceError::BoundExceeded(_))));
    assert!(CheckedSubjectId::from_text(&"x".repeat(16_384)).is_ok());
    assert!(CheckedSubjectId::from_text(&"x".repeat(16_385)).is_err());
    let dup = CheckedSubjectId::from_fields(vec![field("a", CanonicalDatum::Nil), field("a", CanonicalDatum::Nil)]);
    assert!(matches!(dup, Err(ConformanceError::DuplicateField(ref m)) if m == "conformance/a"));
}

#[test]
fn ids_round_trip_through_their_datum_only_in_their_role() {
    let a: CheckedSubjectId = id("subject");
    let d = a.to_datum();
    assert!(matches!(CheckedSubjectId::from_datum(&d), Err(ConformanceError::WrongIdentityDomain)));
    let node = CanonicalDatum::Node {
        tag: sim_foundation::conformance::datum::Sym::qualified("conformance", "checked-subject-v1"),
        fields: vec![field("value", text_datum("subject"))],
    };
    assert!(CheckedSubjectId::from_datum(&node).ok().unwrap().same(&a));
}

#[test]
fn storage_ids_address_exact_bytes() {
    let loc = StorageId::for_bytes(b"opaque");
    assert!(loc.verify(b"opaque").is_ok());
    assert_eq!(loc.verify(b"opaquE"), Err(ConformanceError::StorageDigestMismatch));
    assert!(loc.same(&StorageId::for_bytes(b"opaque")));
}

#[test]
fn support_graph_rejects_cycles_and_accepts_dags() {
    let mut g = SupportGraph::default();
    g.add_support(node("receipt"), node("call")).unwrap();
    g.add_support(node("call"), node("subject")).unwrap();
    g.add_node(node("lonely"));
    assert!(g.validate().is_ok());
    g.add_support(node("subject"), node("receipt")).unwrap();
    match g.validate() {
        Err(ConformanceError::SupportCycle(path)) => assert!(path.len() >= 2),
        other => panic!("expected a cycle, got {other:?}"),
    }
    let mut h = SupportGraph::new();
    assert_eq!(h.add_support(node("a"), node("a")), Err(ConformanceError::SupportCycle(vec!["a".to_owned()])));
}

#[test]
fn fake_clock_refuses_overflow() {
    let mut clock = FakeClock::new(u64::MAX - 1);
    assert!(clock.advance(1).is_ok());
    assert_eq!(clock.read(), u64::MAX);
    assert_eq!(clock.advance(1), Err(ConformanceError::BoundExceeded("clock")));
    assert_eq!(clock.read(), u64::MAX);
}

#[test]
fn fake_ports_replay_and_record() {
    let mut input = FakeInputPort::new();
    let loc = input.insert(b"bytes".to_vec());
    assert_eq!(input.load(&loc), Ok(b"bytes".to_vec()));
    assert!(input.load(&StorageId::for_bytes(b"other")).is_err());
    assert_eq!(input.reads().len(), 2);

    let mut effects = FakeEffectPort::new();
    effects.push(Ok("done".to_owned()));
    assert_eq!(effects.call("first"), Ok("done".to_owned()));
    assert_eq!(effects.call("second"), Err(ConformanceError::MissingSurface("fake effect result".to_owned())));
    assert_eq!(effects.calls(), ["first".to_owned(), "second".to_owned()]);
}

#[test]
fn scripted_effects_come_back_in_queue_order() {
    let mut effects = FakeEffectPort::new();
    effects.push(Ok("one".to_owned()));
    effects.push(Err(ConformanceError::UnresolvedBinding));
    effects.push(Ok("three".to_owned()));
    assert_eq!(CheckEffectPort::invoke(&mut effects, "a"), Ok("one".to_owned()));
    assert_eq!(CheckEffectPort::invoke(&mut effects, "b"), Err(ConformanceError::UnresolvedBinding));
    assert_eq!(CheckEffectPort::invoke(&mut effects, "c"), Ok("three".to_owned()));
    assert_eq!(
        CheckEffectPort::invoke(&mut effects, "d"),
        Err(ConformanceError::MissingSurface("fake effect result".to_owned()))
    );
    assert_eq!(
        CheckEffectPort::invoke(&mut effects, "e"),
        Err(ConformanceError::MissingSurface("fake effect result".to_owned()))
    );
    assert_eq!(effects.calls(), ["a", "b", "c", "d", "e"].map(|s| s.to_owned()));
}

#[test]
fn owner_bindings_refuse_unresolved_and_repeated_entries() {
    assert!(owner_binding(vec![surface("api", false)]).is_ok());
    assert!(matches!(owner_binding(vec![]), Err(ConformanceError::UnresolvedBinding)));
    assert!(matches!(
        owner_binding(vec![surface("api", false), surface("api", true)]),
        Err(ConformanceError::DuplicateField(ref m)) if m == "surface:api"
    ));
    let extract = OwnerBinding::new(
        "law".to_owned(),
        OwnerDisposition::ExtractReusable,
        vec!["sim-core".to_owned()],
        vec![surface("api", false)],
        vec!["only-one".to_owned()],
        "down".to_owned(),
        key("route"),
        key("specimen"),
        command("validate"),
        command("docs"),
    );
    assert!(matches!(extract, Err(ConformanceError::UnresolvedBinding)));
    assert!(SurfaceKey::new("").is_err());
}

#[test]
fn owner_binding_ids_are_deterministic_and_surfaces_resolve() {
    let a = owner_binding(vec![surface("api", false), surface("next", true)]).ok().unwrap();
    let b = owner_binding(vec![surface("api", false), surface("next", true)]).ok().unwrap();
    let c = owner_binding(vec![surface("api", false)]).ok().unwrap();
    assert!(a.id().same(b.id()));
    assert!(!a.id().same(c.id()));
    assert!(matches!(a.surface(&key("next")).unwrap().status, SurfaceStatus::Planned { .. }));
    assert!(a.surface(&key("missing")).is_none());
}

fn surface_ref(name: &str) -> CheckedSurfaceRef {
    CheckedSurfaceRef { key: key(name), source: id("src"), package: id("pkg"), receipt: id("receipt") }
}

#[test]
fn qualification_receipts_check_owner_surfaces_and_scope() {
    let binding = owner_binding(vec![surface("api", false), surface("next", true)]).ok().unwrap();
    let produced = || QualificationScope::Produced { phase: "phase-1".to_owned(), surfaces: id("surfaces") };
    let ok = BindingQualificationReceipt::new(&binding, produced(), vec![surface_ref("api")], id("subject"), vec![id("check")]);
    assert!(ok.is_ok());
    let missing =
        BindingQualificationReceipt::new(&binding, produced(), vec![surface_ref("absent")], id("subject"), vec![id("check")]);
    assert!(matches!(missing, Err(ConformanceError::MissingSurface(ref m)) if m == "absent"));
    let twice = BindingQualificationReceipt::new(
        &binding,
        produced(),
        vec![surface_ref("api"), surface_ref("api")],
        id("subject"),
        vec![id("check")],
    );
    assert!(matches!(twice, Err(ConformanceError::DuplicateField(_))));
    let unchecked = BindingQualificationReceipt::new(&binding, produced(), vec![surface_ref("api")], id("subject"), vec![]);
    assert!(matches!(unchecked, Err(ConformanceError::UnqualifiedDependency(ref m)) if m == "single owner"));
    let activation = BindingQualificationReceipt::new(
        &binding,
        QualificationScope::Activation { map: id("map") },
        vec![surface_ref("next")],
        id("subject"),
        vec![id("check")],
    );
    assert!(matches!(activation, Err(ConformanceError::ActivationIsNotProductionEvidence)));
    let other = owner_binding(vec![surface("api", false)]).ok().unwrap();
    let receipt = ok.ok().unwrap();
    assert_eq!(receipt.verify(&other), Err(ConformanceError::WrongOwner));
    assert!(receipt.verify(&binding).is_ok());
}

#[test]
fn dependency_use_sets_are_ordered_and_unique() {
    let owner: OwnerBindingId = id("owner");
    let uses = vec![
        SurfaceUse { surface: key("b"), role: SurfaceUseRole::ReleasedDependency },
        SurfaceUse { surface: key("a"), role: SurfaceUseRole::FundedTarget },
    ];
    let set = DependencyUseSet::new("phase".to_owned(), owner.copy(), uses).ok().unwrap();
    let reordered = vec![
        SurfaceUse { surface: key("a"), role: SurfaceUseRole::FundedTarget },
        SurfaceUse { surface: key("b"), role: SurfaceUseRole::ReleasedDependency },
    ];
    let same = DependencyUseSet::new("phase".to_owned(), owner.copy(), reordered).ok().unwrap();
    assert!(set.id().same(same.id()));
    let twice = vec![
        SurfaceUse { surface: key("a"), role: SurfaceUseRole::FundedTarget },
        SurfaceUse { surface: key("a"), role: SurfaceUseRole::ReleasedDependency },
    ];
    assert!(matches!(
        DependencyUseSet::new("phase".to_owned(), owner.copy(), twice),
        Err(ConformanceError::DuplicateField(ref m)) if m == "surface use:a"
    ));
    assert!(matches!(DependencyUseSet::new(String::new(), owner, vec![]), Err(ConformanceError::UnresolvedBinding)));
}

fn template(arguments: Vec<CheckArgument>) -> Result<CheckTemplate, ConformanceError> {
    CheckTemplate::new("check".to_owned(), arguments, id("cwd"), id("env"), id("shape"))
}

fn full_arguments() -> Vec<CheckArgument> {
    vec![
        CheckArgument::Literal("--strict".to_owned()),
        CheckArgument::BindingSlot,
        CheckArgument::SubjectSlot,
        CheckArgument::ScopeSlot,
    ]
}

#[test]
fn templates_need_exactly_one_of_each_slot() {
    assert!(template(full_arguments()).is_ok());
    assert!(matches!(template(vec![]), Err(ConformanceError::InvalidTemplate("empty template"))));
    assert!(matches!(
        template(vec![CheckArgument::SubjectSlot, CheckArgument::ScopeSlot]),
        Err(ConformanceError::InvalidTemplate("binding slot"))
    ));
    assert!(matches!(
        template(vec![CheckArgument::BindingSlot, CheckArgument::ScopeSlot]),
        Err(ConformanceError::InvalidTemplate("subject slot"))
    ));
    assert!(matches!(
        template(vec![CheckArgument::BindingSlot, CheckArgument::SubjectSlot, CheckArgument::ScopeSlot, CheckArgument::ScopeSlot]),
        Err(ConformanceError::InvalidTemplate("scope slot"))
    ));
    assert!(matches!(
        CheckTemplate::new(String::new(), full_arguments(), id("cwd"), id("env"), id("shape")),
        Err(ConformanceError::InvalidTemplate("empty template"))
    ));
}

fn checker_binding(scopes: Vec<CheckScopeId>) -> Result<CheckerBinding, ConformanceError> {
    CheckerBinding::new(
        "lint".to_owned(),
        id("owner"),
        "sim::lint".to_owned(),
        vec![id("pack")],
        id("receipt-shape"),
        id("revocation"),
        id("validate"),
        id("docs"),
        scopes,
        template(full_arguments()).ok().unwrap(),
    )
}

#[test]
fn checker_bindings_keep_scopes_as_a_set() {
    let a = checker_binding(vec![id("s1"), id("s2"), id("s1")]).ok().unwrap();
    let b = checker_binding(vec![id("s2"), id("s1")]).ok().unwrap();
    assert_eq!(a.allowed_scopes.len(), 2);
    assert!(a.id().same(b.id()));
    assert!(matches!(checker_binding(vec![]), Err(ConformanceError::UnresolvedBinding)));
}

#[test]
fn invocations_render_slots_and_receipts_verify() {
    let binding = checker_binding(vec![id("scope")]).ok().unwrap();
    assert!(matches!(
        binding.instantiate(id("code"), id("other-pack"), id("subject"), id("scope"), id("inputs")),
        Err(ConformanceError::InvocationMismatch("pack"))
    ));
    assert!(matches!(
        binding.instantiate(id("code"), id("pack"), id("subject"), id("elsewhere"), id("inputs")),
        Err(ConformanceError::UnauthorizedScope)
    ));
    let invocation = binding.instantiate(id("code"), id("pack"), id("subject"), id("scope"), id("inputs")).ok().unwrap();
    let args = &invocation.execution.arguments;
    assert_eq!(args[0], "--strict");
    let binding_hex: String = binding.id().digest_bytes().iter().map(|b| format!("{b:02x}")).collect();
    assert_eq!(args[1], format!("core/sha256-datum-v1:{binding_hex}"));
    assert_eq!(args[1].len(), "core/sha256-datum-v1:".len() + 64);
    assert!(invocation.binding.same(binding.id()));

    assert!(matches!(
        CheckerReceipt::passing(&invocation, id("result"), EvidenceGrade::Bootstrap, id("prov"), id("policy"), id("support"), RevocationStatus::Unknown),
        Err(ConformanceError::RevocationUnknownOrActive)
    ));
    let receipt = CheckerReceipt::passing(
        &invocation,
        id("result"),
        EvidenceGrade::Release,
        id("prov"),
        id("policy"),
        id("support"),
        RevocationStatus::Current,
    )
    .ok()
    .unwrap();
    assert_eq!(receipt.grade(), EvidenceGrade::Release);
    assert!(receipt.invocation().same(invocation.id()));
    assert_eq!(receipt.verify(&binding, &invocation, RevocationStatus::Current), Ok(()));
    assert_eq!(
        receipt.verify(&binding, &invocation, RevocationStatus::Revoked),
        Err(ConformanceError::RevocationUnknownOrActive)
    );
    let other = checker_binding(vec![id("scope"), id("more")]).ok().unwrap();
    assert_eq!(
        receipt.verify(&other, &invocation, RevocationStatus::Current),
        Err(ConformanceError::InvocationMismatch("binding or invocation"))
    );
}

fn construction(key: &str, constructor: &str, sites: Vec<CheckedSubjectId>) -> Result<DigestConstruction, ConformanceError> {
    DigestConstruction::new(
        key.to_owned(),
        id("owner"),
        "sim::digest".to_owned(),
        id(constructor),
        sites,
        "ContentId".to_owned(),
        "tagged node".to_owned(),
        IdentityRole::Semantic,
        id("reach"),
        ConstructionDisposition::Conforming { pack: id("pack") },
    )
}

#[test]
fn digest_constructions_are_funded_and_sites_unique() {
    let a = construction("k", "ctor", vec![id("s2"), id("s1")]).ok().unwrap();
    let b = construction("k", "ctor", vec![id("s1"), id("s2")]).ok().unwrap();
    assert!(a.id().same(b.id()));
    assert!(matches!(
        construction("k", "ctor", vec![id("s1"), id("s1")]),
        Err(ConformanceError::DuplicateConstruction(ref k)) if k == "k"
    ));
    assert!(matches!(construction("", "ctor", vec![]), Err(ConformanceError::UnfundedConstruction(_))));
    let unfunded = DigestConstruction::new(
        "n".to_owned(),
        id("owner"),
        "sym".to_owned(),
        id("ctor"),
        vec![],
        "Id".to_owned(),
        "law".to_owned(),
        IdentityRole::Fixture,
        id("reach"),
        ConstructionDisposition::Normalize {
            phase: "p".to_owned(),
            target_domain: String::new(),
            affected_consumers: vec![],
            compatibility: "c".to_owned(),
        },
    );
    assert!(matches!(unfunded, Err(ConformanceError::UnfundedConstruction(ref k)) if k == "n"));
}

#[test]
fn digest_registers_sort_rows_and_refuse_repeats() {
    let rows = vec![
        construction("b", "ctor-b", vec![]).ok().unwrap(),
        construction("a", "ctor-a", vec![]).ok().unwrap(),
    ];
    let register = DigestConstructionRegister::new(rows).ok().unwrap();
    assert_eq!(register.constructions[0].key, "a");
    assert_eq!(register.constructions[1].key, "b");
    let same_key = vec![
        construction("a", "ctor-1", vec![]).ok().unwrap(),
        construction("a", "ctor-2", vec![]).ok().unwrap(),
    ];
    assert!(matches!(
        DigestConstructionRegister::new(same_key),
        Err(ConformanceError::DuplicateConstruction(ref k)) if k == "a"
    ));
    let same_ctor = vec![
        construction("x", "ctor", vec![]).ok().unwrap(),
        construction("y", "ctor", vec![]).ok().unwrap(),
    ];
    assert!(matches!(
        DigestConstructionRegister::new(same_ctor),
        Err(ConformanceError::DuplicateConstruction(ref k)) if k == "y"
    ));
}

#[test]
fn digest_registers_do_not_depend_on_row_order() {
    let forward = vec![
        construction("a", "ctor-a", vec![]).ok().unwrap(),
        construction("b", "ctor-b", vec![]).ok().unwrap(),
        construction("c", "ctor-c", vec![]).ok().unwrap(),
    ];
    let backward = vec![
        construction("c", "ctor-c", vec![]).ok().unwrap(),
        construction("a", "ctor-a", vec![]).ok().unwrap(),
        construction("b", "ctor-b", vec![]).ok().unwrap(),
    ];
    let one = DigestConstructionRegister::new(forward).ok().unwrap();
    let two = DigestConstructionRegister::new(backward).ok().unwrap();
    assert!(one.id().same(two.id()));
    let keys: Vec<&str> = two.constructions.iter().map(|c| c.key.as_str()).collect();
    assert_eq!(keys, ["a", "b", "c"]);
}

#[test]
fn dependency_use_sets_name_the_least_repeat_in_any_order() {
    let owner: OwnerBindingId = id("owner");
    let first = vec![
        SurfaceUse { surface: key("z"), role: SurfaceUseRole::FundedTarget },
        SurfaceUse { surface: key("m"), role: SurfaceUseRole::FundedTarget },
        SurfaceUse { surface: key("z"), role: SurfaceUseRole::ReleasedDependency },
        SurfaceUse { surface: key("m"), role: SurfaceUseRole::ReleasedDependency },
    ];
    let second = vec![
        SurfaceUse { surface: key("m"), role: SurfaceUseRole::ReleasedDependency },
        SurfaceUse { surface: key("z"), role: SurfaceUseRole::ReleasedDependency },
        SurfaceUse { surface: key("m"), role: SurfaceUseRole::FundedTarget },
        SurfaceUse { surface: key("z"), role: SurfaceUseRole::FundedTarget },
    ];
    for uses in [first, second] {
        assert!(matches!(
            DependencyUseSet::new("phase".to_owned(), owner.copy(), uses),
            Err(ConformanceError::DuplicateField(ref m)) if m == "surface use:m"
        ));
    }
}

#[test]
fn conformance_error_messages_match_their_debug_form() {
    let errors = vec![
        ConformanceError::WrongOwner,
        ConformanceError::DuplicateField("a\"b".to_owned()),
        ConformanceError::SupportCycle(vec!["x".to_owned(), "y".to_owned(), "x".to_owned()]),
        ConformanceError::SupportCycle(Vec::new()),
        ConformanceError::InvalidTemplate("slot"),
        ConformanceError::UnfundedConstruction("site".to_owned()),
    ];
    for e in &errors {
        assert_eq!(e.message(), format!("{e:?}"));
    }
    assert_eq!(errors[2].message(), "SupportCycle([\"x\", \"y\", \"x\"])");
    assert_eq!(errors[4].message(), "InvalidTemplate(\"slot\")");
}
