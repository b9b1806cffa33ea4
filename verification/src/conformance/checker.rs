//! Static checker bindings, exact invocations, receipts and revocation.
//!
//! A checker binding declares, once, which checker runs over which packs and
//! scopes, with a reusable call template. An invocation instantiates the
//! template for one subject and one authorized scope; a receipt copies the
//! invocation's fields and is only accepted while revocation authority says
//! the checker is current.

use vstd::prelude::*;

use crate::conformance::datum::{CanonicalDatum, DatumV, Sym, csym, datum_v};
use crate::conformance::graph::{ConformanceError, texts};
use crate::conformance::identity::{
    CheckInputClosureId, CheckInvocationId, CheckScopeId, CheckTemplateId, CheckedSubjectId,
    CheckerBindingId, CheckerReceiptId, CheckerResultId, CommandId, ConformancePackId,
    ContentDigest, EnvironmentPolicyId, EvidenceProvenanceId, EvidenceSetId, ExactCheckCallId,
    IdKind, OutputShapeId, OwnerBindingId, PolicyId, ProofCodeId, RevocationSourceId, SemanticId,
    WorkingDirectoryPolicyId, datum_algorithm, digests, field, fields_v, id_v, ids, ids_v,
    names_distinct, qualified_text, role_digest, strings, strings_v, text_datum,
};
use crate::conformance::datum::sym_v;
use crate::conformance::order::{ids_sorted, sort_ids};
use crate::cookbook::digest::{hex_digit, hex_digit_exec};
use crate::text::{append_str, push_char};

verus! {

/// A named field of a canonical node, by value.
pub type FieldV = ((Option<Seq<char>>, Seq<char>), DatumV);

/// One typed argument in a reusable checker call template.
#[derive(Clone, Debug, PartialEq, Eq)]
pub enum CheckArgument {
    /// Exact invariant text chosen by the checker owner.
    Literal(String),
    /// Static binding id, supplied during instantiation.
    BindingSlot,
    /// Checked subject id, supplied during instantiation.
    SubjectSlot,
    /// Authorized scope id, supplied during instantiation.
    ScopeSlot,
}

/// Value of an argument's datum: a node tagged by the argument's kind whose
/// one `value` field holds the literal text, or nil for a slot.
pub open spec fn arg_v(a: CheckArgument) -> DatumV {
    match a {
        CheckArgument::Literal(v) => DatumV::Node(
            csym("check-argument-literal-v1"@),
            seq![(csym("value"@), DatumV::Text(v@))],
        ),
        CheckArgument::BindingSlot => DatumV::Node(
            csym("check-argument-binding-slot-v1"@),
            seq![(csym("value"@), DatumV::Nil)],
        ),
        CheckArgument::SubjectSlot => DatumV::Node(
            csym("check-argument-subject-slot-v1"@),
            seq![(csym("value"@), DatumV::Nil)],
        ),
        CheckArgument::ScopeSlot => DatumV::Node(
            csym("check-argument-scope-slot-v1"@),
            seq![(csym("value"@), DatumV::Nil)],
        ),
    }
}

/// The kind of an argument: 0 for a literal, 1, 2 and 3 for the binding,
/// subject and scope slots.
pub open spec fn slot_kind(a: CheckArgument) -> int {
    match a {
        CheckArgument::Literal(_) => 0,
        CheckArgument::BindingSlot => 1,
        CheckArgument::SubjectSlot => 2,
        CheckArgument::ScopeSlot => 3,
    }
}

/// How many arguments are of kind `k`.
pub open spec fn slot_count(s: Seq<CheckArgument>, k: int) -> nat
    decreases s.len(),
{
    if s.len() == 0 {
        0
    } else {
        slot_count(s.drop_last(), k) + if slot_kind(s.last()) == k {
            1nat
        } else {
            0nat
        }
    }
}

/// A node with the given tag and one `value` field.
fn tagged_value(tag: &str, value: CanonicalDatum) -> (r: CanonicalDatum)
    ensures
        datum_v(r) == DatumV::Node(csym(tag@), seq![(csym("value"@), datum_v(value))]),
{
    let ghost v = datum_v(value);
    let mut fields: Vec<(Sym, CanonicalDatum)> = Vec::new();
    fields.push(field("value", value));
    let r = CanonicalDatum::Node { tag: Sym::conformance(tag), fields };
    proof {
        if let DatumV::Node(_, f) = datum_v(r) {
            assert(f =~= seq![(csym("value"@), v)]);
        }
    }
    r
}

impl CheckArgument {
    fn datum(&self) -> (r: CanonicalDatum)
        ensures
            datum_v(r) == arg_v(*self),
    {
        match self {
            CheckArgument::Literal(v) => tagged_value("check-argument-literal-v1", text_datum(v.as_str())),
            CheckArgument::BindingSlot => tagged_value("check-argument-binding-slot-v1", CanonicalDatum::Nil),
            CheckArgument::SubjectSlot => tagged_value("check-argument-subject-slot-v1", CanonicalDatum::Nil),
            CheckArgument::ScopeSlot => tagged_value("check-argument-scope-slot-v1", CanonicalDatum::Nil),
        }
    }
}

/// Fields of a template or call node: entrypoint, arguments, working
/// directory, environment and output shape.
pub open spec fn call_fields(
    entrypoint: Seq<char>,
    arguments: DatumV,
    cwd: Seq<u8>,
    environment: Seq<u8>,
    output_shape: Seq<u8>,
) -> Seq<FieldV> {
    seq![
        (csym("entrypoint"@), DatumV::Text(entrypoint)),
        (csym("arguments"@), arguments),
        (csym("cwd"@), id_v(cwd)),
        (csym("environment"@), id_v(environment)),
        (csym("output-shape"@), id_v(output_shape)),
    ]
}

/// Value of a template's argument list.
pub open spec fn args_v(args: Seq<CheckArgument>) -> DatumV {
    DatumV::Vector(args.map_values(|a: CheckArgument| arg_v(a)))
}

/// Lowercase hexadecimal digits of bytes, two per byte.
pub open spec fn hex_bytes(b: Seq<u8>) -> Seq<char>
    decreases b.len(),
{
    if b.len() == 0 {
        Seq::empty()
    } else {
        hex_bytes(b.drop_last()) + seq![
            hex_digit((b.last() / 16) as u64),
            hex_digit((b.last() % 16) as u64),
        ]
    }
}

/// How an id is written into a call: its algorithm, a colon and its digest
/// in hexadecimal.
pub open spec fn render_v(digest: Seq<u8>) -> Seq<char> {
    "core"@ + "/"@ + "sha256-datum-v1"@ + ":"@ + hex_bytes(digest)
}

/// The call arguments of a template instantiated for a binding, subject
/// and scope.
pub open spec fn rendered_args(
    args: Seq<CheckArgument>,
    binding: Seq<u8>,
    subject: Seq<u8>,
    scope: Seq<u8>,
) -> Seq<Seq<char>> {
    args.map_values(
        |a: CheckArgument|
            match a {
                CheckArgument::Literal(v) => v@,
                CheckArgument::BindingSlot => render_v(binding),
                CheckArgument::SubjectSlot => render_v(subject),
                CheckArgument::ScopeSlot => render_v(scope),
            },
    )
}

/// Writes a content identity as `namespace/name:hex`.
fn render(id: &ContentDigest) -> (r: String)
    requires
        sym_v(id.algorithm) == datum_algorithm(),
    ensures
        r@ == render_v(id.bytes@),
{
    let mut out = qualified_text(&id.algorithm);
    append_str(&mut out, ":");
    let ghost head = out@;
    let mut i: usize = 0;
    while i < 32
        invariant
            i <= 32,
            out@ == head + hex_bytes(id.bytes@.take(i as int)),
        decreases 32 - i,
    {
        let b = id.bytes[i];
        let hi: u64 = (b / 16) as u64;
        let lo: u64 = (b % 16) as u64;
        push_char(&mut out, hex_digit_exec(hi));
        push_char(&mut out, hex_digit_exec(lo));
        proof {
            let t = id.bytes@.take(i + 1);
            assert(t.drop_last() =~= id.bytes@.take(i as int));
            assert(t.last() == b);
            assert(out@ =~= head + hex_bytes(t));
        }
        i += 1;
    }
    assert(id.bytes@.take(32) =~= id.bytes@);
    out
}

/// What a template holds, by value.
pub struct TemplateView {
    /// Identity.
    pub id: Seq<u8>,
    /// Entrypoint.
    pub entrypoint: Seq<char>,
    /// Arguments.
    pub arguments: Seq<CheckArgument>,
    /// Working-directory policy.
    pub cwd: Seq<u8>,
    /// Environment policy.
    pub environment: Seq<u8>,
    /// Output shape.
    pub output_shape: Seq<u8>,
}

/// What an exact call holds, by value.
pub struct CallView {
    /// Identity.
    pub id: Seq<u8>,
    /// Entrypoint.
    pub entrypoint: Seq<char>,
    /// Substituted arguments.
    pub arguments: Seq<Seq<char>>,
    /// Working-directory policy.
    pub cwd: Seq<u8>,
    /// Environment policy.
    pub environment: Seq<u8>,
    /// Output shape.
    pub output_shape: Seq<u8>,
}

/// A typed checker template without any concrete binding, subject, scope
/// or result.
pub struct CheckTemplate {
    id: CheckTemplateId,
    /// Stable callable entrypoint.
    pub entrypoint: String,
    /// Ordered literal and typed slot arguments.
    pub arguments: Vec<CheckArgument>,
    /// Exact working-directory policy.
    pub cwd: WorkingDirectoryPolicyId,
    /// Exact environment policy.
    pub environment: EnvironmentPolicyId,
    /// Expected result shape.
    pub output_shape: OutputShapeId,
}

/// The digest of the call a template makes for a binding, subject and
/// scope, when the kernel canonicalizes it.
pub open spec fn call_digest(t: TemplateView, binding: Seq<u8>, subject: Seq<u8>, scope: Seq<u8>) -> Option<Seq<u8>> {
    role_digest(
        "exact-check-call-v1"@,
        call_fields(
            t.entrypoint,
            strings_v(rendered_args(t.arguments, binding, subject, scope)),
            t.cwd,
            t.environment,
            t.output_shape,
        ),
    )
}

/// `c` is the call a template makes for a binding, subject and scope.
pub open spec fn call_matches(
    c: CallView,
    t: TemplateView,
    binding: Seq<u8>,
    subject: Seq<u8>,
    scope: Seq<u8>,
) -> bool {
    &&& c.entrypoint == t.entrypoint
    &&& c.arguments == rendered_args(t.arguments, binding, subject, scope)
    &&& c.cwd == t.cwd
    &&& c.environment == t.environment
    &&& c.output_shape == t.output_shape
    &&& call_digest(t, binding, subject, scope) == Some(c.id)
}

impl View for CheckTemplate {
    type V = TemplateView;

    closed spec fn view(&self) -> TemplateView {
        TemplateView {
            id: self.id@,
            entrypoint: self.entrypoint@,
            arguments: self.arguments@,
            cwd: self.cwd@,
            environment: self.environment@,
            output_shape: self.output_shape@,
        }
    }
}

impl View for ExactCheckCall {
    type V = CallView;

    closed spec fn view(&self) -> CallView {
        CallView {
            id: self.id@,
            entrypoint: self.entrypoint@,
            arguments: texts(self.arguments@),
            cwd: self.cwd@,
            environment: self.environment@,
            output_shape: self.output_shape@,
        }
    }
}

impl CheckTemplate {
    /// Validates exactly one binding, subject and scope slot and identifies
    /// the template. An empty entrypoint or argument list is refused first,
    /// then a missing or repeated binding, subject or scope slot, in that
    /// order.
    pub fn new(
        entrypoint: String,
        arguments: Vec<CheckArgument>,
        cwd: WorkingDirectoryPolicyId,
        environment: EnvironmentPolicyId,
        output_shape: OutputShapeId,
    ) -> (r: Result<CheckTemplate, ConformanceError>)
        ensures
            (entrypoint@.len() == 0 || arguments@.len() == 0) ==> r == Err::<CheckTemplate, ConformanceError>(
                ConformanceError::InvalidTemplate("empty template"),
            ),
            !(entrypoint@.len() == 0 || arguments@.len() == 0) ==> {
                if slot_count(arguments@, 1) != 1 {
                    r == Err::<CheckTemplate, ConformanceError>(ConformanceError::InvalidTemplate("binding slot"))
                } else if slot_count(arguments@, 2) != 1 {
                    r == Err::<CheckTemplate, ConformanceError>(ConformanceError::InvalidTemplate("subject slot"))
                } else if slot_count(arguments@, 3) != 1 {
                    r == Err::<CheckTemplate, ConformanceError>(ConformanceError::InvalidTemplate("scope slot"))
                } else {
                    let f = call_fields(entrypoint@, args_v(arguments@), cwd@, environment@, output_shape@);
                    match r {
                        Ok(t) => t@.entrypoint == entrypoint@ && t@.arguments == arguments@ && t@.cwd == cwd@
                            && t@.environment == environment@ && t@.output_shape == output_shape@
                            && role_digest("check-template-v1"@, f) == Some(t@.id),
                        Err(e) => e == ConformanceError::NoncanonicalDatum && role_digest(
                            "check-template-v1"@,
                            f,
                        ) is None,
                    }
                }
            },
    {
        if entrypoint.as_str().is_empty() || arguments.len() == 0 {
            return Err(ConformanceError::InvalidTemplate("empty template"));
        }
        let mut binding_slots: usize = 0;
        let mut subject_slots: usize = 0;
        let mut scope_slots: usize = 0;
        let mut items: Vec<CanonicalDatum> = Vec::new();
        let mut i: usize = 0;
        while i < arguments.len()
            invariant
                i <= arguments@.len(),
                binding_slots <= i && subject_slots <= i && scope_slots <= i,
                binding_slots == slot_count(arguments@.take(i as int), 1),
                subject_slots == slot_count(arguments@.take(i as int), 2),
                scope_slots == slot_count(arguments@.take(i as int), 3),
                items@.len() == i,
                forall|j: int| 0 <= j < i ==> datum_v(#[trigger] items@[j]) == arg_v(arguments@[j]),
            decreases arguments@.len() - i,
        {
            match &arguments[i] {
                CheckArgument::BindingSlot => {
                    binding_slots = binding_slots + 1;
                },
                CheckArgument::SubjectSlot => {
                    subject_slots = subject_slots + 1;
                },
                CheckArgument::ScopeSlot => {
                    scope_slots = scope_slots + 1;
                },
                CheckArgument::Literal(_) => {},
            }
            items.push(arguments[i].datum());
            assert(arguments@.take(i + 1).drop_last() =~= arguments@.take(i as int));
            i += 1;
        }
        assert(arguments@.take(arguments@.len() as int) =~= arguments@);
        if binding_slots != 1 {
            return Err(ConformanceError::InvalidTemplate("binding slot"));
        }
        if subject_slots != 1 {
            return Err(ConformanceError::InvalidTemplate("subject slot"));
        }
        if scope_slots != 1 {
            return Err(ConformanceError::InvalidTemplate("scope slot"));
        }
        let args_datum = CanonicalDatum::Vector(items);
        proof {
            if let DatumV::Vector(s) = datum_v(args_datum) {
                assert(s =~= arguments@.map_values(|a: CheckArgument| arg_v(a)));
            }
        }
        let mut fields: Vec<(Sym, CanonicalDatum)> = Vec::new();
        fields.push(field("entrypoint", text_datum(entrypoint.as_str())));
        fields.push(field("arguments", args_datum));
        fields.push(field("cwd", cwd.to_datum()));
        fields.push(field("environment", environment.to_datum()));
        fields.push(field("output-shape", output_shape.to_datum()));
        let ghost f = call_fields(entrypoint@, args_v(arguments@), cwd@, environment@, output_shape@);
        proof {
            assert(fields_v(fields@) =~= f);
            lemma_call_names(args_v(arguments@), f);
        }
        let id = match SemanticId::from_fields(fields) {
            Ok(id) => id,
            Err(e) => {
                return Err(e);
            },
        };
        Ok(CheckTemplate { id, entrypoint, arguments, cwd, environment, output_shape })
    }

    /// Returns the immutable template identity.
    pub fn id(&self) -> (r: &CheckTemplateId)
        ensures
            r@ == self@.id,
    {
        &self.id
    }

    /// Fills the slots with the rendered binding, subject and scope ids.
    fn instantiate(
        &self,
        binding: &CheckerBindingId,
        subject: &CheckedSubjectId,
        scope: &CheckScopeId,
    ) -> (r: Result<ExactCheckCall, ConformanceError>)
        ensures
            match r {
                Ok(c) => call_matches(c@, self@, binding@, subject@, scope@),
                Err(e) => e == ConformanceError::NoncanonicalDatum && call_digest(
                    self@,
                    binding@,
                    subject@,
                    scope@,
                ) is None,
            },
    {
        let b = render(&binding.content_id());
        let s = render(&subject.content_id());
        let c = render(&scope.content_id());
        let ghost want = rendered_args(self.arguments@, binding@, subject@, scope@);
        let mut out: Vec<String> = Vec::new();
        let mut i: usize = 0;
        while i < self.arguments.len()
            invariant
                i <= self.arguments@.len(),
                want == rendered_args(self.arguments@, binding@, subject@, scope@),
                b@ == render_v(binding@) && s@ == render_v(subject@) && c@ == render_v(scope@),
                out@.len() == i,
                forall|j: int| 0 <= j < i ==> (#[trigger] out@[j])@ == want[j],
            decreases self.arguments@.len() - i,
        {
            let v = match &self.arguments[i] {
                CheckArgument::Literal(value) => value.clone(),
                CheckArgument::BindingSlot => b.clone(),
                CheckArgument::SubjectSlot => s.clone(),
                CheckArgument::ScopeSlot => c.clone(),
            };
            out.push(v);
            i += 1;
        }
        assert(texts(out@) =~= want);
        ExactCheckCall::new(
            crate::text::text(self.entrypoint.as_str()),
            out,
            self.cwd.copy(),
            self.environment.copy(),
            self.output_shape.copy(),
        )
    }
}

/// One exact instantiated native or command call.
pub struct ExactCheckCall {
    id: ExactCheckCallId,
    /// Entrypoint name.
    pub entrypoint: String,
    /// Fully substituted arguments.
    pub arguments: Vec<String>,
    /// Working-directory policy.
    pub cwd: WorkingDirectoryPolicyId,
    /// Environment policy.
    pub environment: EnvironmentPolicyId,
    /// Expected output shape.
    pub output_shape: OutputShapeId,
}

impl ExactCheckCall {
    fn new(
        entrypoint: String,
        arguments: Vec<String>,
        cwd: WorkingDirectoryPolicyId,
        environment: EnvironmentPolicyId,
        output_shape: OutputShapeId,
    ) -> (r: Result<ExactCheckCall, ConformanceError>)
        ensures
            ({
                let f = call_fields(entrypoint@, strings_v(texts(arguments@)), cwd@, environment@, output_shape@);
                match r {
                    Ok(c) => c@.entrypoint == entrypoint@ && c@.arguments == texts(arguments@) && c@.cwd == cwd@
                        && c@.environment == environment@ && c@.output_shape == output_shape@
                        && role_digest("exact-check-call-v1"@, f) == Some(c@.id),
                    Err(e) => e == ConformanceError::NoncanonicalDatum && role_digest(
                        "exact-check-call-v1"@,
                        f,
                    ) is None,
                }
            }),
    {
        let mut fields: Vec<(Sym, CanonicalDatum)> = Vec::new();
        fields.push(field("entrypoint", text_datum(entrypoint.as_str())));
        fields.push(field("arguments", strings(&arguments)));
        fields.push(field("cwd", cwd.to_datum()));
        fields.push(field("environment", environment.to_datum()));
        fields.push(field("output-shape", output_shape.to_datum()));
        let ghost f = call_fields(entrypoint@, strings_v(texts(arguments@)), cwd@, environment@, output_shape@);
        proof {
            assert(texts(arguments@) =~= arguments@.map_values(|s: String| s@));
            assert(fields_v(fields@) =~= f);
            lemma_call_names(strings_v(texts(arguments@)), f);
        }
        let id = match SemanticId::from_fields(fields) {
            Ok(id) => id,
            Err(e) => {
                return Err(e);
            },
        };
        Ok(ExactCheckCall { id, entrypoint, arguments, cwd, environment, output_shape })
    }

    /// Returns the exact call identity.
    pub fn id(&self) -> (r: &ExactCheckCallId)
        ensures
            r@ == self@.id,
    {
        &self.id
    }
}

/// The field names of a call node are distinct, whatever its arguments.
proof fn lemma_call_names(arguments: DatumV, f: Seq<FieldV>)
    requires
        exists|e: Seq<char>, c: Seq<u8>, v: Seq<u8>, o: Seq<u8>| f == call_fields(e, arguments, c, v, o),
    ensures
        names_distinct(f),
{
    lemma_call_names_distinct();
    let g = seq![
        (csym("entrypoint"@), DatumV::Nil),
        (csym("arguments"@), DatumV::Nil),
        (csym("cwd"@), DatumV::Nil),
        (csym("environment"@), DatumV::Nil),
        (csym("output-shape"@), DatumV::Nil),
    ];
    assert forall|a: int, b: int| 0 <= a < b < f.len() implies #[trigger] f[a].0 != #[trigger] f[b].0 by {
        assert(g[a].0 == f[a].0 && g[b].0 == f[b].0);
    }
}

/// Whether an identity occurs in a list.
pub fn contains_id<K: IdKind>(v: &Vec<SemanticId<K>>, x: &SemanticId<K>) -> (b: bool)
    ensures
        b == digests(v@).contains(x@),
{
    let mut i: usize = 0;
    while i < v.len()
        invariant
            i <= v@.len(),
            forall|j: int| 0 <= j < i ==> (#[trigger] v@[j])@ != x@,
        decreases v@.len() - i,
    {
        if v[i].same(x) {
            assert(digests(v@)[i as int] == x@);
            return true;
        }
        i += 1;
    }
    assert(!digests(v@).contains(x@)) by {
        if digests(v@).contains(x@) {
            let j = choose|j: int| 0 <= j < digests(v@).len() && digests(v@)[j] == x@;
            assert(v@[j]@ == x@);
        }
    }
    false
}

/// Exact copies of a list of identities.
pub fn copy_ids<K: IdKind>(v: &Vec<SemanticId<K>>) -> (r: Vec<SemanticId<K>>)
    ensures
        digests(r@) == digests(v@),
{
    let mut r: Vec<SemanticId<K>> = Vec::new();
    let mut i: usize = 0;
    while i < v.len()
        invariant
            i <= v@.len(),
            r@.len() == i,
            forall|j: int| 0 <= j < i ==> (#[trigger] r@[j])@ == v@[j]@,
        decreases v@.len() - i,
    {
        r.push(v[i].copy());
        i += 1;
    }
    assert(digests(r@) =~= digests(v@));
    r
}

/// Fields of a checker binding's node.
pub open spec fn binding_fields(
    checker: Seq<char>,
    owner: Seq<u8>,
    symbol: Seq<char>,
    packs: Seq<Seq<u8>>,
    receipt_shape: Seq<u8>,
    revocation_source: Seq<u8>,
    owner_validation: Seq<u8>,
    owner_docs: Seq<u8>,
    allowed_scopes: Seq<Seq<u8>>,
    template: Seq<u8>,
) -> Seq<FieldV> {
    seq![
        (csym("checker"@), DatumV::Text(checker)),
        (csym("owner"@), id_v(owner)),
        (csym("symbol"@), DatumV::Text(symbol)),
        (csym("packs"@), ids_v(packs)),
        (csym("receipt-shape"@), id_v(receipt_shape)),
        (csym("revocation-source"@), id_v(revocation_source)),
        (csym("owner-validation"@), id_v(owner_validation)),
        (csym("owner-docs"@), id_v(owner_docs)),
        (csym("allowed-scopes"@), ids_v(allowed_scopes)),
        (csym("template"@), id_v(template)),
    ]
}

/// `s` lists, in strictly increasing byte order, exactly the digests of `v`.
pub open spec fn sorted_set_of(s: Seq<Seq<u8>>, v: Seq<Seq<u8>>) -> bool {
    &&& ids_sorted(s)
    &&& forall|x: Seq<u8>| #[trigger] s.contains(x) <==> v.contains(x)
}

/// What a checker binding holds, by value.
pub struct BindingView {
    /// Identity.
    pub id: Seq<u8>,
    /// Checker name.
    pub checker: Seq<char>,
    /// Owning module binding.
    pub owner: Seq<u8>,
    /// Public symbol.
    pub symbol: Seq<char>,
    /// Allowed packs.
    pub packs: Seq<Seq<u8>>,
    /// Receipt shape.
    pub receipt_shape: Seq<u8>,
    /// Revocation source.
    pub revocation_source: Seq<u8>,
    /// Owner validation command.
    pub owner_validation: Seq<u8>,
    /// Owner docs command.
    pub owner_docs: Seq<u8>,
    /// Allowed scopes.
    pub allowed_scopes: Seq<Seq<u8>>,
    /// Invocation template.
    pub template: TemplateView,
}

/// What an invocation holds, by value.
pub struct InvocationView {
    /// Identity.
    pub id: Seq<u8>,
    /// Static checker binding.
    pub binding: Seq<u8>,
    /// Checker code.
    pub checker_code: Seq<u8>,
    /// Selected pack.
    pub pack: Seq<u8>,
    /// Checked subject.
    pub subject: Seq<u8>,
    /// Scope.
    pub scope: Seq<u8>,
    /// Instantiated call.
    pub execution: CallView,
    /// Input closure.
    pub input_closure: Seq<u8>,
}

/// Immutable declaration of one checker and its allowed scopes.
pub struct CheckerBinding {
    id: CheckerBindingId,
    /// Stable checker name.
    pub checker: String,
    /// Owning module binding.
    pub owner: OwnerBindingId,
    /// Stable public symbol.
    pub symbol: String,
    /// Allowed conformance packs.
    pub packs: Vec<ConformancePackId>,
    /// Receipt shape.
    pub receipt_shape: OutputShapeId,
    /// Canonical revocation source.
    pub revocation_source: RevocationSourceId,
    /// Exact owner validation command.
    pub owner_validation: CommandId,
    /// Exact owner docs command.
    pub owner_docs: CommandId,
    /// Exact allowed scopes, each once, in increasing order.
    pub allowed_scopes: Vec<CheckScopeId>,
    /// Reusable typed invocation template.
    pub template: CheckTemplate,
}

/// Fields of an invocation's node.
pub open spec fn invocation_fields(
    binding: Seq<u8>,
    checker_code: Seq<u8>,
    pack: Seq<u8>,
    subject: Seq<u8>,
    scope: Seq<u8>,
    execution: Seq<u8>,
    input_closure: Seq<u8>,
) -> Seq<FieldV> {
    seq![
        (csym("binding"@), id_v(binding)),
        (csym("checker-code"@), id_v(checker_code)),
        (csym("pack"@), id_v(pack)),
        (csym("subject"@), id_v(subject)),
        (csym("scope"@), id_v(scope)),
        (csym("execution"@), id_v(execution)),
        (csym("input-closure"@), id_v(input_closure)),
    ]
}

impl View for CheckerBinding {
    type V = BindingView;

    closed spec fn view(&self) -> BindingView {
        BindingView {
            id: self.id@,
            checker: self.checker@,
            owner: self.owner@,
            symbol: self.symbol@,
            packs: digests(self.packs@),
            receipt_shape: self.receipt_shape@,
            revocation_source: self.revocation_source@,
            owner_validation: self.owner_validation@,
            owner_docs: self.owner_docs@,
            allowed_scopes: digests(self.allowed_scopes@),
            template: self.template@,
        }
    }
}

impl View for CheckInvocation {
    type V = InvocationView;

    closed spec fn view(&self) -> InvocationView {
        InvocationView {
            id: self.id@,
            binding: self.binding@,
            checker_code: self.checker_code@,
            pack: self.pack@,
            subject: self.subject@,
            scope: self.scope@,
            execution: self.execution@,
            input_closure: self.input_closure@,
        }
    }
}

impl CheckerBinding {
    /// Constructs a static binding that contains no concrete invocation.
    /// An empty checker name or symbol, or no pack or scope, is refused;
    /// the scopes are kept as a set, each once and in increasing order.
    pub fn new(
        checker: String,
        owner: OwnerBindingId,
        symbol: String,
        packs: Vec<ConformancePackId>,
        receipt_shape: OutputShapeId,
        revocation_source: RevocationSourceId,
        owner_validation: CommandId,
        owner_docs: CommandId,
        allowed_scopes: Vec<CheckScopeId>,
        template: CheckTemplate,
    ) -> (r: Result<CheckerBinding, ConformanceError>)
        ensures
            (checker@.len() == 0 || symbol@.len() == 0 || packs@.len() == 0 || allowed_scopes@.len() == 0)
                ==> r == Err::<CheckerBinding, ConformanceError>(ConformanceError::UnresolvedBinding),
            !(checker@.len() == 0 || symbol@.len() == 0 || packs@.len() == 0 || allowed_scopes@.len() == 0)
                ==> match r {
                Ok(b) => b@.checker == checker@ && b@.owner == owner@ && b@.symbol == symbol@
                    && b@.packs == digests(packs@) && b@.receipt_shape == receipt_shape@
                    && b@.revocation_source == revocation_source@ && b@.owner_validation == owner_validation@
                    && b@.owner_docs == owner_docs@ && b@.template == template@
                    && sorted_set_of(b@.allowed_scopes, digests(allowed_scopes@))
                    && role_digest(
                    "checker-binding-v1"@,
                    binding_fields(
                        checker@,
                        owner@,
                        symbol@,
                        digests(packs@),
                        receipt_shape@,
                        revocation_source@,
                        owner_validation@,
                        owner_docs@,
                        b@.allowed_scopes,
                        template@.id,
                    ),
                ) == Some(b@.id),
                Err(e) => e == ConformanceError::NoncanonicalDatum && exists|s: Seq<Seq<u8>>|
                    #[trigger] sorted_set_of(s, digests(allowed_scopes@)) && role_digest(
                        "checker-binding-v1"@,
                        binding_fields(
                            checker@,
                            owner@,
                            symbol@,
                            digests(packs@),
                            receipt_shape@,
                            revocation_source@,
                            owner_validation@,
                            owner_docs@,
                            s,
                            template@.id,
                        ),
                    ) is None,
            },
    {
        if checker.as_str().is_empty() || symbol.as_str().is_empty() || packs.len() == 0
            || allowed_scopes.len() == 0 {
            return Err(ConformanceError::UnresolvedBinding);
        }
        let (scopes, _) = sort_ids(&allowed_scopes);
        let ghost s = digests(scopes@);
        let mut fields: Vec<(Sym, CanonicalDatum)> = Vec::new();
        fields.push(field("checker", text_datum(checker.as_str())));
        fields.push(field("owner", owner.to_datum()));
        fields.push(field("symbol", text_datum(symbol.as_str())));
        fields.push(field("packs", ids(packs.as_slice())));
        fields.push(field("receipt-shape", receipt_shape.to_datum()));
        fields.push(field("revocation-source", revocation_source.to_datum()));
        fields.push(field("owner-validation", owner_validation.to_datum()));
        fields.push(field("owner-docs", owner_docs.to_datum()));
        fields.push(field("allowed-scopes", ids(scopes.as_slice())));
        fields.push(field("template", template.id().to_datum()));
        let ghost f = binding_fields(
            checker@,
            owner@,
            symbol@,
            digests(packs@),
            receipt_shape@,
            revocation_source@,
            owner_validation@,
            owner_docs@,
            s,
            template@.id,
        );
        proof {
            assert(fields_v(fields@) =~= f);
            lemma_checker_binding_names_distinct();
            let g = seq![
                (csym("checker"@), DatumV::Nil),
                (csym("owner"@), DatumV::Nil),
                (csym("symbol"@), DatumV::Nil),
                (csym("packs"@), DatumV::Nil),
                (csym("receipt-shape"@), DatumV::Nil),
                (csym("revocation-source"@), DatumV::Nil),
                (csym("owner-validation"@), DatumV::Nil),
                (csym("owner-docs"@), DatumV::Nil),
                (csym("allowed-scopes"@), DatumV::Nil),
                (csym("template"@), DatumV::Nil),
            ];
            assert forall|a: int, b: int| 0 <= a < b < f.len() implies #[trigger] f[a].0 != #[trigger] f[b].0 by {
                assert(g[a].0 == f[a].0 && g[b].0 == f[b].0);
            }
            assert(sorted_set_of(s, digests(allowed_scopes@)));
        }
        let id = match SemanticId::from_fields(fields) {
            Ok(id) => id,
            Err(e) => {
                return Err(e);
            },
        };
        Ok(
            CheckerBinding {
                id,
                checker,
                owner,
                symbol,
                packs,
                receipt_shape,
                revocation_source,
                owner_validation,
                owner_docs,
                allowed_scopes: scopes,
                template,
            },
        )
    }

    /// Returns the static binding identity.
    pub fn id(&self) -> (r: &CheckerBindingId)
        ensures
            r@ == self@.id,
    {
        &self.id
    }

    /// Instantiates the exact call only after subject and scope exist: the
    /// pack must be one of the binding's and the scope one it allows.
    pub fn instantiate(
        &self,
        checker_code: ProofCodeId,
        pack: ConformancePackId,
        subject: CheckedSubjectId,
        scope: CheckScopeId,
        input_closure: CheckInputClosureId,
    ) -> (r: Result<CheckInvocation, ConformanceError>)
        ensures
            !self@.packs.contains(pack@) ==> r == Err::<CheckInvocation, ConformanceError>(
                ConformanceError::InvocationMismatch("pack"),
            ),
            self@.packs.contains(pack@) && !self@.allowed_scopes.contains(scope@)
                ==> r == Err::<CheckInvocation, ConformanceError>(ConformanceError::UnauthorizedScope),
            self@.packs.contains(pack@) && self@.allowed_scopes.contains(scope@)
                ==> match r {
                Ok(inv) => inv@.binding == self@.id && inv@.checker_code == checker_code@
                    && inv@.pack == pack@ && inv@.subject == subject@ && inv@.scope == scope@
                    && inv@.input_closure == input_closure@
                    && call_matches(inv@.execution, self@.template, self@.id, subject@, scope@)
                    && role_digest(
                    "check-invocation-v1"@,
                    invocation_fields(
                        self@.id,
                        checker_code@,
                        pack@,
                        subject@,
                        scope@,
                        inv@.execution.id,
                        input_closure@,
                    ),
                ) == Some(inv@.id),
                Err(e) => e == ConformanceError::NoncanonicalDatum && match call_digest(
                    self@.template,
                    self@.id,
                    subject@,
                    scope@,
                ) {
                    None => true,
                    Some(x) => role_digest(
                        "check-invocation-v1"@,
                        invocation_fields(
                            self@.id,
                            checker_code@,
                            pack@,
                            subject@,
                            scope@,
                            x,
                            input_closure@,
                        ),
                    ) is None,
                },
            },
    {
        if !contains_id(&self.packs, &pack) {
            return Err(ConformanceError::InvocationMismatch("pack"));
        }
        if !contains_id(&self.allowed_scopes, &scope) {
            return Err(ConformanceError::UnauthorizedScope);
        }
        let execution = match self.template.instantiate(&self.id, &subject, &scope) {
            Ok(c) => c,
            Err(e) => {
                return Err(e);
            },
        };
        let mut fields: Vec<(Sym, CanonicalDatum)> = Vec::new();
        fields.push(field("binding", self.id.to_datum()));
        fields.push(field("checker-code", checker_code.to_datum()));
        fields.push(field("pack", pack.to_datum()));
        fields.push(field("subject", subject.to_datum()));
        fields.push(field("scope", scope.to_datum()));
        fields.push(field("execution", execution.id().to_datum()));
        fields.push(field("input-closure", input_closure.to_datum()));
        let ghost f = invocation_fields(
            self@.id,
            checker_code@,
            pack@,
            subject@,
            scope@,
            execution@.id,
            input_closure@,
        );
        proof {
            assert(fields_v(fields@) =~= f);
            lemma_invocation_names_distinct();
            let g = seq![
                (csym("binding"@), DatumV::Nil),
                (csym("checker-code"@), DatumV::Nil),
                (csym("pack"@), DatumV::Nil),
                (csym("subject"@), DatumV::Nil),
                (csym("scope"@), DatumV::Nil),
                (csym("execution"@), DatumV::Nil),
                (csym("input-closure"@), DatumV::Nil),
            ];
            assert forall|a: int, b: int| 0 <= a < b < f.len() implies #[trigger] f[a].0 != #[trigger] f[b].0 by {
                assert(g[a].0 == f[a].0 && g[b].0 == f[b].0);
            }
        }
        let id = match SemanticId::from_fields(fields) {
            Ok(id) => id,
            Err(e) => {
                return Err(e);
            },
        };
        Ok(
            CheckInvocation {
                id,
                binding: self.id.copy(),
                checker_code,
                pack,
                subject,
                scope,
                execution,
                input_closure,
            },
        )
    }
}

/// Exact invocation of a static checker binding.
pub struct CheckInvocation {
    id: CheckInvocationId,
    /// Static checker binding.
    pub binding: CheckerBindingId,
    /// Exact checker code.
    pub checker_code: ProofCodeId,
    /// Selected pack.
    pub pack: ConformancePackId,
    /// Checked subject.
    pub subject: CheckedSubjectId,
    /// Exact allowed scope.
    pub scope: CheckScopeId,
    /// Fully instantiated call.
    pub execution: ExactCheckCall,
    /// Exact input closure.
    pub input_closure: CheckInputClosureId,
}

impl CheckInvocation {
    /// Returns the invocation identity.
    pub fn id(&self) -> (r: &CheckInvocationId)
        ensures
            r@ == self@.id,
    {
        &self.id
    }
}

/// Strength of one immutable checker result.
#[derive(Clone, Copy, Debug, PartialEq, Eq, Structural, PartialOrd, Ord)]
pub enum EvidenceGrade {
    /// Deterministic local bootstrap evidence without cross-world reuse
    /// authority.
    Bootstrap,
    /// Independently checked reproducible evidence.
    Reproducible,
    /// Evidence accepted for release.
    Release,
}

/// Value of a grade's datum.
pub open spec fn grade_v(g: EvidenceGrade) -> DatumV {
    DatumV::Text(
        match g {
            EvidenceGrade::Bootstrap => "bootstrap"@,
            EvidenceGrade::Reproducible => "reproducible"@,
            EvidenceGrade::Release => "release"@,
        },
    )
}

impl EvidenceGrade {
    fn datum(self) -> (r: CanonicalDatum)
        ensures
            datum_v(r) == grade_v(self),
    {
        text_datum(
            match self {
                EvidenceGrade::Bootstrap => "bootstrap",
                EvidenceGrade::Reproducible => "reproducible",
                EvidenceGrade::Release => "release",
            },
        )
    }
}

/// Canonical revocation state supplied by the checker's owner policy.
#[derive(Clone, Copy, Debug, PartialEq, Eq, Structural)]
pub enum RevocationStatus {
    /// No authoritative revocation state was available.
    Unknown,
    /// The exact checker code and pack version remain current.
    Current,
    /// The result is revoked.
    Revoked,
}

/// What a receipt records, by value.
pub struct ReceiptView {
    /// Static binding.
    pub binding: Seq<u8>,
    /// Exact invocation.
    pub invocation: Seq<u8>,
    /// Exact checker code.
    pub checker_code: Seq<u8>,
    /// Pack.
    pub pack: Seq<u8>,
    /// Scope.
    pub scope: Seq<u8>,
    /// Checked subject.
    pub subject: Seq<u8>,
    /// Passing result.
    pub result: Seq<u8>,
    /// Evidence grade.
    pub grade: EvidenceGrade,
    /// Execution provenance.
    pub provenance: Seq<u8>,
    /// Checker-owner policy.
    pub policy: Seq<u8>,
    /// Supporting evidence.
    pub support: Seq<u8>,
}

/// The record a passing receipt keeps of an invocation and its result.
pub open spec fn passing_view(
    inv: InvocationView,
    result: Seq<u8>,
    grade: EvidenceGrade,
    provenance: Seq<u8>,
    policy: Seq<u8>,
    support: Seq<u8>,
) -> ReceiptView {
    ReceiptView {
        binding: inv.binding,
        invocation: inv.id,
        checker_code: inv.checker_code,
        pack: inv.pack,
        scope: inv.scope,
        subject: inv.subject,
        result,
        grade,
        provenance,
        policy,
        support,
    }
}

/// Fields of a receipt's node.
pub open spec fn receipt_fields(v: ReceiptView) -> Seq<FieldV> {
    seq![
        (csym("binding"@), id_v(v.binding)),
        (csym("invocation"@), id_v(v.invocation)),
        (csym("checker-code"@), id_v(v.checker_code)),
        (csym("pack"@), id_v(v.pack)),
        (csym("scope"@), id_v(v.scope)),
        (csym("subject"@), id_v(v.subject)),
        (csym("result"@), id_v(v.result)),
        (csym("grade"@), grade_v(v.grade)),
        (csym("provenance"@), id_v(v.provenance)),
        (csym("policy"@), id_v(v.policy)),
        (csym("support"@), id_v(v.support)),
    ]
}

/// What checking a receipt against a binding and an invocation answers:
/// revocation first, then the binding and invocation identities, then the
/// copied invocation fields, then the scope's authorization.
pub open spec fn receipt_verdict(
    v: ReceiptView,
    b: BindingView,
    inv: InvocationView,
    revocation: RevocationStatus,
) -> Result<(), ConformanceError> {
    if revocation != RevocationStatus::Current {
        Err(ConformanceError::RevocationUnknownOrActive)
    } else if v.binding != b.id || v.invocation != inv.id {
        Err(ConformanceError::InvocationMismatch("binding or invocation"))
    } else if v.checker_code != inv.checker_code || v.pack != inv.pack || v.scope != inv.scope
        || v.subject != inv.subject {
        Err(ConformanceError::InvocationMismatch("copied invocation fields"))
    } else if !b.allowed_scopes.contains(v.scope) {
        Err(ConformanceError::UnauthorizedScope)
    } else {
        Ok(())
    }
}

/// Immutable receipt tied to one exact invocation.
pub struct CheckerReceipt {
    id: CheckerReceiptId,
    binding: CheckerBindingId,
    invocation: CheckInvocationId,
    checker_code: ProofCodeId,
    pack: ConformancePackId,
    scope: CheckScopeId,
    subject: CheckedSubjectId,
    result: CheckerResultId,
    grade: EvidenceGrade,
    provenance: EvidenceProvenanceId,
    policy: PolicyId,
    support: EvidenceSetId,
}

impl View for CheckerReceipt {
    type V = ReceiptView;

    closed spec fn view(&self) -> ReceiptView {
        ReceiptView {
            binding: self.binding@,
            invocation: self.invocation@,
            checker_code: self.checker_code@,
            pack: self.pack@,
            scope: self.scope@,
            subject: self.subject@,
            result: self.result@,
            grade: self.grade,
            provenance: self.provenance@,
            policy: self.policy@,
            support: self.support@,
        }
    }
}

impl CheckerReceipt {
    /// The receipt's identity.
    pub closed spec fn spec_id(&self) -> Seq<u8> {
        self.id@
    }

    /// Constructs a receipt for an invocation's passing result, only while
    /// revocation authority says the checker is current.
    pub fn passing(
        invocation: &CheckInvocation,
        result: CheckerResultId,
        grade: EvidenceGrade,
        provenance: EvidenceProvenanceId,
        policy: PolicyId,
        support: EvidenceSetId,
        revocation: RevocationStatus,
    ) -> (r: Result<CheckerReceipt, ConformanceError>)
        ensures
            revocation != RevocationStatus::Current ==> r == Err::<CheckerReceipt, ConformanceError>(
                ConformanceError::RevocationUnknownOrActive,
            ),
            revocation == RevocationStatus::Current ==> {
                let v = passing_view(invocation@, result@, grade, provenance@, policy@, support@);
                match r {
                    Ok(rc) => rc@ == v && role_digest("checker-receipt-v1"@, receipt_fields(v)) == Some(
                        rc.spec_id(),
                    ),
                    Err(e) => e == ConformanceError::NoncanonicalDatum && role_digest(
                        "checker-receipt-v1"@,
                        receipt_fields(v),
                    ) is None,
                }
            },
    {
        if revocation != RevocationStatus::Current {
            return Err(ConformanceError::RevocationUnknownOrActive);
        }
        let mut fields: Vec<(Sym, CanonicalDatum)> = Vec::new();
        fields.push(field("binding", invocation.binding.to_datum()));
        fields.push(field("invocation", invocation.id().to_datum()));
        fields.push(field("checker-code", invocation.checker_code.to_datum()));
        fields.push(field("pack", invocation.pack.to_datum()));
        fields.push(field("scope", invocation.scope.to_datum()));
        fields.push(field("subject", invocation.subject.to_datum()));
        fields.push(field("result", result.to_datum()));
        fields.push(field("grade", grade.datum()));
        fields.push(field("provenance", provenance.to_datum()));
        fields.push(field("policy", policy.to_datum()));
        fields.push(field("support", support.to_datum()));
        let ghost v = passing_view(invocation@, result@, grade, provenance@, policy@, support@);
        let ghost f = receipt_fields(v);
        proof {
            assert(fields_v(fields@) =~= f);
            lemma_receipt_names_distinct();
            let g = seq![
                (csym("binding"@), DatumV::Nil),
                (csym("invocation"@), DatumV::Nil),
                (csym("checker-code"@), DatumV::Nil),
                (csym("pack"@), DatumV::Nil),
                (csym("scope"@), DatumV::Nil),
                (csym("subject"@), DatumV::Nil),
                (csym("result"@), DatumV::Nil),
                (csym("grade"@), DatumV::Nil),
                (csym("provenance"@), DatumV::Nil),
                (csym("policy"@), DatumV::Nil),
                (csym("support"@), DatumV::Nil),
            ];
            assert forall|a: int, b: int| 0 <= a < b < f.len() implies #[trigger] f[a].0 != #[trigger] f[b].0 by {
                assert(g[a].0 == f[a].0 && g[b].0 == f[b].0);
            }
        }
        let id = match SemanticId::from_fields(fields) {
            Ok(id) => id,
            Err(e) => {
                return Err(e);
            },
        };
        Ok(
            CheckerReceipt {
                id,
                binding: invocation.binding.copy(),
                invocation: invocation.id().copy(),
                checker_code: invocation.checker_code.copy(),
                pack: invocation.pack.copy(),
                scope: invocation.scope.copy(),
                subject: invocation.subject.copy(),
                result,
                grade,
                provenance,
                policy,
                support,
            },
        )
    }

    /// Verifies every copied invocation field and the exact scope.
    pub fn verify(
        &self,
        binding: &CheckerBinding,
        invocation: &CheckInvocation,
        revocation: RevocationStatus,
    ) -> (r: Result<(), ConformanceError>)
        ensures
            r == receipt_verdict(self@, binding@, invocation@, revocation),
    {
        if revocation != RevocationStatus::Current {
            return Err(ConformanceError::RevocationUnknownOrActive);
        }
        if !self.binding.same(binding.id()) || !self.invocation.same(invocation.id()) {
            return Err(ConformanceError::InvocationMismatch("binding or invocation"));
        }
        if !self.checker_code.same(&invocation.checker_code) || !self.pack.same(&invocation.pack)
            || !self.scope.same(&invocation.scope) || !self.subject.same(&invocation.subject) {
            return Err(ConformanceError::InvocationMismatch("copied invocation fields"));
        }
        if !contains_id(&binding.allowed_scopes, &self.scope) {
            return Err(ConformanceError::UnauthorizedScope);
        }
        Ok(())
    }

    /// Returns the receipt identity.
    pub fn id(&self) -> (r: &CheckerReceiptId)
        ensures
            r@ == self.spec_id(),
    {
        &self.id
    }

    /// Returns the static checker binding identity.
    pub fn binding(&self) -> (r: &CheckerBindingId)
        ensures
            r@ == self@.binding,
    {
        &self.binding
    }

    /// Returns the exact invocation identity.
    pub fn invocation(&self) -> (r: &CheckInvocationId)
        ensures
            r@ == self@.invocation,
    {
        &self.invocation
    }

    /// Returns the exact checker code identity.
    pub fn checker_code(&self) -> (r: &ProofCodeId)
        ensures
            r@ == self@.checker_code,
    {
        &self.checker_code
    }

    /// Returns the conformance pack identity.
    pub fn pack(&self) -> (r: &ConformancePackId)
        ensures
            r@ == self@.pack,
    {
        &self.pack
    }

    /// Returns the authorized scope identity.
    pub fn scope(&self) -> (r: &CheckScopeId)
        ensures
            r@ == self@.scope,
    {
        &self.scope
    }

    /// Returns the checked subject identity.
    pub fn subject(&self) -> (r: &CheckedSubjectId)
        ensures
            r@ == self@.subject,
    {
        &self.subject
    }

    /// Returns the checker's passing result identity.
    pub fn result(&self) -> (r: &CheckerResultId)
        ensures
            r@ == self@.result,
    {
        &self.result
    }

    /// Returns the evidence grade.
    pub fn grade(&self) -> (r: EvidenceGrade)
        ensures
            r == self@.grade,
    {
        self.grade
    }

    /// Returns the execution provenance identity.
    pub fn provenance(&self) -> (r: &EvidenceProvenanceId)
        ensures
            r@ == self@.provenance,
    {
        &self.provenance
    }

    /// Returns the checker-owner policy identity.
    pub fn policy(&self) -> (r: &PolicyId)
        ensures
            r@ == self@.policy,
    {
        &self.policy
    }

    /// Returns the acyclic supporting-evidence set identity.
    pub fn support(&self) -> (r: &EvidenceSetId)
        ensures
            r@ == self@.support,
    {
        &self.support
    }
}

/// A receipt issued for an invocation of a binding, at a scope the binding
/// allows, is accepted against that binding and invocation for as long as
/// the checker stays current.
pub proof fn lemma_passing_receipt_verifies(
    b: BindingView,
    inv: InvocationView,
    result: Seq<u8>,
    grade: EvidenceGrade,
    provenance: Seq<u8>,
    policy: Seq<u8>,
    support: Seq<u8>,
)
    requires
        inv.binding == b.id,
        b.allowed_scopes.contains(inv.scope),
    ensures
        receipt_verdict(
            passing_view(inv, result, grade, provenance, policy, support),
            b,
            inv,
            RevocationStatus::Current,
        ) == Ok::<(), ConformanceError>(()),
{
}

/// A receipt is never accepted without current revocation authority.
pub proof fn lemma_receipt_needs_current(
    v: ReceiptView,
    b: BindingView,
    inv: InvocationView,
    revocation: RevocationStatus,
)
    requires
        revocation != RevocationStatus::Current,
    ensures
        receipt_verdict(v, b, inv, revocation) == Err::<(), ConformanceError>(
            ConformanceError::RevocationUnknownOrActive,
        ),
{
}

proof fn lemma_call_names_distinct()
    ensures
        names_distinct(seq![
        (csym("entrypoint"@), DatumV::Nil),
        (csym("arguments"@), DatumV::Nil),
        (csym("cwd"@), DatumV::Nil),
        (csym("environment"@), DatumV::Nil),
        (csym("output-shape"@), DatumV::Nil),
        ]),
{
    reveal_strlit("entrypoint");
    reveal_strlit("arguments");
    reveal_strlit("cwd");
    reveal_strlit("environment");
    reveal_strlit("output-shape");
    let g = seq![
        (csym("entrypoint"@), DatumV::Nil),
        (csym("arguments"@), DatumV::Nil),
        (csym("cwd"@), DatumV::Nil),
        (csym("environment"@), DatumV::Nil),
        (csym("output-shape"@), DatumV::Nil),
    ];
    assert forall|x: int, y: int| 0 <= x < y < g.len() implies #[trigger] g[x].0 != #[trigger] g[y].0 by {
        if x == 0 && y == 1 {
            assert("entrypoint"@.len() != "arguments"@.len());
        }
        if x == 0 && y == 2 {
            assert("entrypoint"@.len() != "cwd"@.len());
        }
        if x == 0 && y == 3 {
            assert("entrypoint"@.len() != "environment"@.len());
        }
        if x == 0 && y == 4 {
            assert("entrypoint"@.len() != "output-shape"@.len());
        }
        if x == 1 && y == 2 {
            assert("arguments"@.len() != "cwd"@.len());
        }
        if x == 1 && y == 3 {
            assert("arguments"@.len() != "environment"@.len());
        }
        if x == 1 && y == 4 {
            assert("arguments"@.len() != "output-shape"@.len());
        }
        if x == 2 && y == 3 {
            assert("cwd"@.len() != "environment"@.len());
        }
        if x == 2 && y == 4 {
            assert("cwd"@.len() != "output-shape"@.len());
        }
        if x == 3 && y == 4 {
            assert("environment"@.len() != "output-shape"@.len());
        }
    }
}

proof fn lemma_checker_binding_names_distinct()
    ensures
        names_distinct(seq![
        (csym("checker"@), DatumV::Nil),
        (csym("owner"@), DatumV::Nil),
        (csym("symbol"@), DatumV::Nil),
        (csym("packs"@), DatumV::Nil),
        (csym("receipt-shape"@), DatumV::Nil),
        (csym("revocation-source"@), DatumV::Nil),
        (csym("owner-validation"@), DatumV::Nil),
        (csym("owner-docs"@), DatumV::Nil),
        (csym("allowed-scopes"@), DatumV::Nil),
        (csym("template"@), DatumV::Nil),
        ]),
{
    reveal_strlit("checker");
    reveal_strlit("owner");
    reveal_strlit("symbol");
    reveal_strlit("packs");
    reveal_strlit("receipt-shape");
    reveal_strlit("revocation-source");
    reveal_strlit("owner-validation");
    reveal_strlit("owner-docs");
    reveal_strlit("allowed-scopes");
    reveal_strlit("template");
    let g = seq![
        (csym("checker"@), DatumV::Nil),
        (csym("owner"@), DatumV::Nil),
        (csym("symbol"@), DatumV::Nil),
        (csym("packs"@), DatumV::Nil),
        (csym("receipt-shape"@), DatumV::Nil),
        (csym("revocation-source"@), DatumV::Nil),
        (csym("owner-validation"@), DatumV::Nil),
        (csym("owner-docs"@), DatumV::Nil),
        (csym("allowed-scopes"@), DatumV::Nil),
        (csym("template"@), DatumV::Nil),
    ];
    assert forall|x: int, y: int| 0 <= x < y < g.len() implies #[trigger] g[x].0 != #[trigger] g[y].0 by {
        if x == 0 && y == 1 {
            assert("checker"@.len() != "owner"@.len());
        }
        if x == 0 && y == 2 {
            assert("checker"@.len() != "symbol"@.len());
        }
        if x == 0 && y == 3 {
            assert("checker"@.len() != "packs"@.len());
        }
        if x == 0 && y == 4 {
            assert("checker"@.len() != "receipt-shape"@.len());
        }
        if x == 0 && y == 5 {
            assert("checker"@.len() != "revocation-source"@.len());
        }
        if x == 0 && y == 6 {
            assert("checker"@.len() != "owner-validation"@.len());
        }
        if x == 0 && y == 7 {
            assert("checker"@.len() != "owner-docs"@.len());
        }
        if x == 0 && y == 8 {
            assert("checker"@.len() != "allowed-scopes"@.len());
        }
        if x == 0 && y == 9 {
            assert("checker"@.len() != "template"@.len());
        }
        if x == 1 && y == 2 {
            assert("owner"@.len() != "symbol"@.len());
        }
        if x == 1 && y == 3 {
            assert("owner"@[0] != "packs"@[0]);
        }
        if x == 1 && y == 4 {
            assert("owner"@.len() != "receipt-shape"@.len());
        }
        if x == 1 && y == 5 {
            assert("owner"@.len() != "revocation-source"@.len());
        }
        if x == 1 && y == 6 {
            assert("owner"@.len() != "owner-validation"@.len());
        }
        if x == 1 && y == 7 {
            assert("owner"@.len() != "owner-docs"@.len());
        }
        if x == 1 && y == 8 {
            assert("owner"@.len() != "allowed-scopes"@.len());
        }
        if x == 1 && y == 9 {
            assert("owner"@.len() != "template"@.len());
        }
        if x == 2 && y == 3 {
            assert("symbol"@.len() != "packs"@.len());
        }
        if x == 2 && y == 4 {
            assert("symbol"@.len() != "receipt-shape"@.len());
        }
        if x == 2 && y == 5 {
            assert("symbol"@.len() != "revocation-source"@.len());
        }
        if x == 2 && y == 6 {
            assert("symbol"@.len() != "owner-validation"@.len());
        }
        if x == 2 && y == 7 {
            assert("symbol"@.len() != "owner-docs"@.len());
        }
        if x == 2 && y == 8 {
            assert("symbol"@.len() != "allowed-scopes"@.len());
        }
        if x == 2 && y == 9 {
            assert("symbol"@.len() != "template"@.len());
        }
        if x == 3 && y == 4 {
            assert("packs"@.len() != "receipt-shape"@.len());
        }
        if x == 3 && y == 5 {
            assert("packs"@.len() != "revocation-source"@.len());
        }
        if x == 3 && y == 6 {
            assert("packs"@.len() != "owner-validation"@.len());
        }
        if x == 3 && y == 7 {
            assert("packs"@.len() != "owner-docs"@.len());
        }
        if x == 3 && y == 8 {
            assert("packs"@.len() != "allowed-scopes"@.len());
        }
        if x == 3 && y == 9 {
            assert("packs"@.len() != "template"@.len());
        }
        if x == 4 && y == 5 {
            assert("receipt-shape"@.len() != "revocation-source"@.len());
        }
        if x == 4 && y == 6 {
            assert("receipt-shape"@.len() != "owner-validation"@.len());
        }
        if x == 4 && y == 7 {
            assert("receipt-shape"@.len() != "owner-docs"@.len());
        }
        if x == 4 && y == 8 {
            assert("receipt-shape"@.len() != "allowed-scopes"@.len());
        }
        if x == 4 && y == 9 {
            assert("receipt-shape"@.len() != "template"@.len());
        }
        if x == 5 && y == 6 {
            assert("revocation-source"@.len() != "owner-validation"@.len());
        }
        if x == 5 && y == 7 {
            assert("revocation-source"@.len() != "owner-docs"@.len());
        }
        if x == 5 && y == 8 {
            assert("revocation-source"@.len() != "allowed-scopes"@.len());
        }
        if x == 5 && y == 9 {
            assert("revocation-source"@.len() != "template"@.len());
        }
        if x == 6 && y == 7 {
            assert("owner-validation"@.len() != "owner-docs"@.len());
        }
        if x == 6 && y == 8 {
            assert("owner-validation"@.len() != "allowed-scopes"@.len());
        }
        if x == 6 && y == 9 {
            assert("owner-validation"@.len() != "template"@.len());
        }
        if x == 7 && y == 8 {
            assert("owner-docs"@.len() != "allowed-scopes"@.len());
        }
        if x == 7 && y == 9 {
            assert("owner-docs"@.len() != "template"@.len());
        }
        if x == 8 && y == 9 {
            assert("allowed-scopes"@.len() != "template"@.len());
        }
    }
}

proof fn lemma_invocation_names_distinct()
    ensures
        names_distinct(seq![
        (csym("binding"@), DatumV::Nil),
        (csym("checker-code"@), DatumV::Nil),
        (csym("pack"@), DatumV::Nil),
        (csym("subject"@), DatumV::Nil),
        (csym("scope"@), DatumV::Nil),
        (csym("execution"@), DatumV::Nil),
        (csym("input-closure"@), DatumV::Nil),
        ]),
{
    reveal_strlit("binding");
    reveal_strlit("checker-code");
    reveal_strlit("pack");
    reveal_strlit("subject");
    reveal_strlit("scope");
    reveal_strlit("execution");
    reveal_strlit("input-closure");
    let g = seq![
        (csym("binding"@), DatumV::Nil),
        (csym("checker-code"@), DatumV::Nil),
        (csym("pack"@), DatumV::Nil),
        (csym("subject"@), DatumV::Nil),
        (csym("scope"@), DatumV::Nil),
        (csym("execution"@), DatumV::Nil),
        (csym("input-closure"@), DatumV::Nil),
    ];
    assert forall|x: int, y: int| 0 <= x < y < g.len() implies #[trigger] g[x].0 != #[trigger] g[y].0 by {
        if x == 0 && y == 1 {
            assert("binding"@.len() != "checker-code"@.len());
        }
        if x == 0 && y == 2 {
            assert("binding"@.len() != "pack"@.len());
        }
        if x == 0 && y == 3 {
            assert("binding"@[0] != "subject"@[0]);
        }
        if x == 0 && y == 4 {
            assert("binding"@.len() != "scope"@.len());
        }
        if x == 0 && y == 5 {
            assert("binding"@.len() != "execution"@.len());
        }
        if x == 0 && y == 6 {
            assert("binding"@.len() != "input-closure"@.len());
        }
        if x == 1 && y == 2 {
            assert("checker-code"@.len() != "pack"@.len());
        }
        if x == 1 && y == 3 {
            assert("checker-code"@.len() != "subject"@.len());
        }
        if x == 1 && y == 4 {
            assert("checker-code"@.len() != "scope"@.len());
        }
        if x == 1 && y == 5 {
            assert("checker-code"@.len() != "execution"@.len());
        }
        if x == 1 && y == 6 {
            assert("checker-code"@.len() != "input-closure"@.len());
        }
        if x == 2 && y == 3 {
            assert("pack"@.len() != "subject"@.len());
        }
        if x == 2 && y == 4 {
            assert("pack"@.len() != "scope"@.len());
        }
        if x == 2 && y == 5 {
            assert("pack"@.len() != "execution"@.len());
        }
        if x == 2 && y == 6 {
            assert("pack"@.len() != "input-closure"@.len());
        }
        if x == 3 && y == 4 {
            assert("subject"@.len() != "scope"@.len());
        }
        if x == 3 && y == 5 {
            assert("subject"@.len() != "execution"@.len());
        }
        if x == 3 && y == 6 {
            assert("subject"@.len() != "input-closure"@.len());
        }
        if x == 4 && y == 5 {
            assert("scope"@.len() != "execution"@.len());
        }
        if x == 4 && y == 6 {
            assert("scope"@.len() != "input-closure"@.len());
        }
        if x == 5 && y == 6 {
            assert("execution"@.len() != "input-closure"@.len());
        }
    }
}

proof fn lemma_receipt_names_distinct()
    ensures
        names_distinct(seq![
        (csym("binding"@), DatumV::Nil),
        (csym("invocation"@), DatumV::Nil),
        (csym("checker-code"@), DatumV::Nil),
        (csym("pack"@), DatumV::Nil),
        (csym("scope"@), DatumV::Nil),
        (csym("subject"@), DatumV::Nil),
        (csym("result"@), DatumV::Nil),
        (csym("grade"@), DatumV::Nil),
        (csym("provenance"@), DatumV::Nil),
        (csym("policy"@), DatumV::Nil),
        (csym("support"@), DatumV::Nil),
        ]),
{
    reveal_strlit("binding");
    reveal_strlit("invocation");
    reveal_strlit("checker-code");
    reveal_strlit("pack");
    reveal_strlit("scope");
    reveal_strlit("subject");
    reveal_strlit("result");
    reveal_strlit("grade");
    reveal_strlit("provenance");
    reveal_strlit("policy");
    reveal_strlit("support");
    let g = seq![
        (csym("binding"@), DatumV::Nil),
        (csym("invocation"@), DatumV::Nil),
        (csym("checker-code"@), DatumV::Nil),
        (csym("pack"@), DatumV::Nil),
        (csym("scope"@), DatumV::Nil),
        (csym("subject"@), DatumV::Nil),
        (csym("result"@), DatumV::Nil),
        (csym("grade"@), DatumV::Nil),
        (csym("provenance"@), DatumV::Nil),
        (csym("policy"@), DatumV::Nil),
        (csym("support"@), DatumV::Nil),
    ];
    assert forall|x: int, y: int| 0 <= x < y < g.len() implies #[trigger] g[x].0 != #[trigger] g[y].0 by {
        if x == 0 && y == 1 {
            assert("binding"@.len() != "invocation"@.len());
        }
        if x == 0 && y == 2 {
            assert("binding"@.len() != "checker-code"@.len());
        }
        if x == 0 && y == 3 {
            assert("binding"@.len() != "pack"@.len());
        }
        if x == 0 && y == 4 {
            assert("binding"@.len() != "scope"@.len());
        }
        if x == 0 && y == 5 {
            assert("binding"@[0] != "subject"@[0]);
        }
        if x == 0 && y == 6 {
            assert("binding"@.len() != "result"@.len());
        }
        if x == 0 && y == 7 {
            assert("binding"@.len() != "grade"@.len());
        }
        if x == 0 && y == 8 {
            assert("binding"@.len() != "provenance"@.len());
        }
        if x == 0 && y == 9 {
            assert("binding"@.len() != "policy"@.len());
        }
        if x == 0 && y == 10 {
            assert("binding"@[0] != "support"@[0]);
        }
        if x == 1 && y == 2 {
            assert("invocation"@.len() != "checker-code"@.len());
        }
        if x == 1 && y == 3 {
            assert("invocation"@.len() != "pack"@.len());
        }
        if x == 1 && y == 4 {
            assert("invocation"@.len() != "scope"@.len());
        }
        if x == 1 && y == 5 {
            assert("invocation"@.len() != "subject"@.len());
        }
        if x == 1 && y == 6 {
            assert("invocation"@.len() != "result"@.len());
        }
        if x == 1 && y == 7 {
            assert("invocation"@.len() != "grade"@.len());
        }
        if x == 1 && y == 8 {
            assert("invocation"@[0] != "provenance"@[0]);
        }
        if x == 1 && y == 9 {
            assert("invocation"@.len() != "policy"@.len());
        }
        if x == 1 && y == 10 {
            assert("invocation"@.len() != "support"@.len());
        }
        if x == 2 && y == 3 {
            assert("checker-code"@.len() != "pack"@.len());
        }
        if x == 2 && y == 4 {
            assert("checker-code"@.len() != "scope"@.len());
        }
        if x == 2 && y == 5 {
            assert("checker-code"@.len() != "subject"@.len());
        }
        if x == 2 && y == 6 {
            assert("checker-code"@.len() != "result"@.len());
        }
        if x == 2 && y == 7 {
            assert("checker-code"@.len() != "grade"@.len());
        }
        if x == 2 && y == 8 {
            assert("checker-code"@.len() != "provenance"@.len());
        }
        if x == 2 && y == 9 {
            assert("checker-code"@.len() != "policy"@.len());
        }
        if x == 2 && y == 10 {
            assert("checker-code"@.len() != "support"@.len());
        }
        if x == 3 && y == 4 {
            assert("pack"@.len() != "scope"@.len());
        }
        if x == 3 && y == 5 {
            assert("pack"@.len() != "subject"@.len());
        }
        if x == 3 && y == 6 {
            assert("pack"@.len() != "result"@.len());
        }
        if x == 3 && y == 7 {
            assert("pack"@.len() != "grade"@.len());
        }
        if x == 3 && y == 8 {
            assert("pack"@.len() != "provenance"@.len());
        }
        if x == 3 && y == 9 {
            assert("pack"@.len() != "policy"@.len());
        }
        if x == 3 && y == 10 {
            assert("pack"@.len() != "support"@.len());
        }
        if x == 4 && y == 5 {
            assert("scope"@.len() != "subject"@.len());
        }
        if x == 4 && y == 6 {
            assert("scope"@.len() != "result"@.len());
        }
        if x == 4 && y == 7 {
            assert("scope"@[0] != "grade"@[0]);
        }
        if x == 4 && y == 8 {
            assert("scope"@.len() != "provenance"@.len());
        }
        if x == 4 && y == 9 {
            assert("scope"@.len() != "policy"@.len());
        }
        if x == 4 && y == 10 {
            assert("scope"@.len() != "support"@.len());
        }
        if x == 5 && y == 6 {
            assert("subject"@.len() != "result"@.len());
        }
        if x == 5 && y == 7 {
            assert("subject"@.len() != "grade"@.len());
        }
        if x == 5 && y == 8 {
            assert("subject"@.len() != "provenance"@.len());
        }
        if x == 5 && y == 9 {
            assert("subject"@.len() != "policy"@.len());
        }
        if x == 5 && y == 10 {
            assert("subject"@[2] != "support"@[2]);
        }
        if x == 6 && y == 7 {
            assert("result"@.len() != "grade"@.len());
        }
        if x == 6 && y == 8 {
            assert("result"@.len() != "provenance"@.len());
        }
        if x == 6 && y == 9 {
            assert("result"@[0] != "policy"@[0]);
        }
        if x == 6 && y == 10 {
            assert("result"@.len() != "support"@.len());
        }
        if x == 7 && y == 8 {
            assert("grade"@.len() != "provenance"@.len());
        }
        if x == 7 && y == 9 {
            assert("grade"@.len() != "policy"@.len());
        }
        if x == 7 && y == 10 {
            assert("grade"@.len() != "support"@.len());
        }
        if x == 8 && y == 9 {
            assert("provenance"@.len() != "policy"@.len());
        }
        if x == 8 && y == 10 {
            assert("provenance"@.len() != "support"@.len());
        }
        if x == 9 && y == 10 {
            assert("policy"@.len() != "support"@.len());
        }
    }
}

} // verus!
