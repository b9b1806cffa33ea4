//! Card projections for index rows.
//!
//! A card is a subject, `index/<kind>/<id>`, and ordered named entries:
//! texts, symbols, booleans and lists of texts. The projections decide
//! which entries a row publishes; the kernel then holds the card as an
//! opaque value.

use vstd::prelude::*;

use crate::index::model::{
    DeclarationFact, DiscoveredSpecimen, FeatureRecord, ProtocolRelation, ProtocolResolution,
    RouteRecord, RouteStep, role_label, step_target,
};
use crate::text::{append_str, text};

verus! {

/// The kernel's evaluation context.
#[verifier::external_type_specification]
#[verifier::external_body]
pub struct ExKernelCx(sim_kernel::Cx);

/// The kernel's value handle.
#[verifier::external_type_specification]
#[verifier::external_body]
pub struct ExKernelValue(sim_kernel::Value);

/// The kernel's error.
#[verifier::external_type_specification]
#[verifier::external_body]
pub struct ExKernelError(sim_kernel::Error);

/// One card entry's value.
#[derive(Clone, Debug, PartialEq, Eq)]
pub enum CardValue {
    /// A text.
    Text(String),
    /// An unqualified symbol.
    Symbol(String),
    /// A boolean.
    Bool(bool),
    /// A list of texts.
    TextList(Vec<String>),
}

/// Value of a card entry.
pub enum CardValueV {
    Text(Seq<char>),
    Symbol(Seq<char>),
    Bool(bool),
    TextList(Seq<Seq<char>>),
}

/// Value of a card entry.
pub open spec fn card_value_v(v: CardValue) -> CardValueV {
    match v {
        CardValue::Text(s) => CardValueV::Text(s@),
        CardValue::Symbol(s) => CardValueV::Symbol(s@),
        CardValue::Bool(b) => CardValueV::Bool(b),
        CardValue::TextList(v) => CardValueV::TextList(v@.map_values(|s: String| s@)),
    }
}

/// A card: its subject and its ordered entries.
#[derive(Clone, Debug, PartialEq, Eq)]
pub struct CardSpec {
    /// Subject, `index/<kind>/<id>`.
    pub subject: String,
    /// Named entries, in order.
    pub entries: Vec<(String, CardValue)>,
}

/// Value of a card.
pub open spec fn card_v(c: CardSpec) -> (Seq<char>, Seq<(Seq<char>, CardValueV)>) {
    (c.subject@, card_entries_v(c.entries@))
}

/// Values of card entries.
pub open spec fn card_entries_v(e: Seq<(String, CardValue)>) -> Seq<(Seq<char>, CardValueV)> {
    e.map_values(|e: (String, CardValue)| (e.0@, card_value_v(e.1)))
}

/// The subject of a card of a kind and id.
pub open spec fn card_subject(kind: Seq<char>, id: Seq<char>) -> Seq<char> {
    "index/"@ + kind + "/"@ + id
}

fn subject(kind: &str, id: &str) -> (r: String)
    ensures
        r@ == card_subject(kind@, id@),
{
    let mut out = text("index/");
    append_str(&mut out, kind);
    append_str(&mut out, "/");
    append_str(&mut out, id);
    out
}

fn entry(name: &str, value: CardValue) -> (r: (String, CardValue))
    ensures
        r.0@ == name@ && r.1 == value,
{
    (text(name), value)
}

fn texts_of<'a>(v: &Vec<&'a str>) -> (r: Vec<String>)
    ensures
        r@.map_values(|s: String| s@) == v@.map_values(|s: &str| s@),
{
    let mut out: Vec<String> = Vec::new();
    let mut i: usize = 0;
    while i < v.len()
        invariant
            i <= v@.len(),
            out@.len() == i,
            forall|j: int| 0 <= j < i ==> (#[trigger] out@[j])@ == v@[j]@,
        decreases v@.len() - i,
    {
        out.push(text(v[i]));
        i += 1;
    }
    assert(out@.map_values(|s: String| s@) =~= v@.map_values(|s: &str| s@));
    out
}

/// The card of a declaration: its anchor, kind, source role and module
/// path, and no signature.
pub fn declaration_card_spec(d: &DeclarationFact) -> (r: CardSpec)
    ensures
        card_v(r) == (
            card_subject("declaration"@, d.anchor@),
            seq![
                ("anchor"@, CardValueV::Text(d.anchor@)),
                ("kind"@, CardValueV::Symbol("declaration"@)),
                ("source-role"@, CardValueV::Symbol(role_label(d.role))),
                ("module-path"@, CardValueV::Text(d.path_in_crate@)),
            ],
        ),
{
    let mut entries: Vec<(String, CardValue)> = Vec::new();
    entries.push(entry("anchor", CardValue::Text(text(d.anchor.as_str()))));
    entries.push(entry("kind", CardValue::Symbol(text("declaration"))));
    entries.push(entry("source-role", CardValue::Symbol(text(d.role.as_str()))));
    entries.push(entry("module-path", CardValue::Text(d.path_in_crate.clone())));
    let r = CardSpec { subject: subject("declaration", d.anchor.as_str()), entries };
    assert(card_v(r).1 =~= seq![
        ("anchor"@, CardValueV::Text(d.anchor@)),
        ("kind"@, CardValueV::Symbol("declaration"@)),
        ("source-role"@, CardValueV::Symbol(role_label(d.role))),
        ("module-path"@, CardValueV::Text(d.path_in_crate@)),
    ]);
    r
}

/// The card of a protocol relation: its anchor, kind, implementor role and
/// resolution state, and the protocol when resolved.
pub fn protocol_relation_card_spec(p: &ProtocolRelation) -> (r: CardSpec)
    ensures
        card_v(r) == (
            card_subject("protocol-relation"@, p.anchor@),
            seq![
                ("anchor"@, CardValueV::Text(p.anchor@)),
                ("kind"@, CardValueV::Symbol("protocol-relation"@)),
                ("source-role"@, CardValueV::Symbol("implementor"@)),
                ("resolution"@, CardValueV::Symbol(
                    match p.resolution {
                        ProtocolResolution::Resolved { .. } => "resolved"@,
                        ProtocolResolution::Unresolved { .. } => "unresolved"@,
                    },
                )),
            ] + match p.resolution {
                ProtocolResolution::Resolved { protocol } => seq![("protocol"@, CardValueV::Text(protocol@))],
                ProtocolResolution::Unresolved { .. } => Seq::empty(),
            },
        ),
{
    let mut entries: Vec<(String, CardValue)> = Vec::new();
    entries.push(entry("anchor", CardValue::Text(text(p.anchor.as_str()))));
    entries.push(entry("kind", CardValue::Symbol(text("protocol-relation"))));
    entries.push(entry("source-role", CardValue::Symbol(text("implementor"))));
    match &p.resolution {
        ProtocolResolution::Resolved { protocol } => {
            entries.push(entry("resolution", CardValue::Symbol(text("resolved"))));
            entries.push(entry("protocol", CardValue::Text(protocol.clone())));
        },
        ProtocolResolution::Unresolved { .. } => {
            entries.push(entry("resolution", CardValue::Symbol(text("unresolved"))));
        },
    }
    let r = CardSpec { subject: subject("protocol-relation", p.anchor.as_str()), entries };
    proof {
        let head = seq![
            ("anchor"@, CardValueV::Text(p.anchor@)),
            ("kind"@, CardValueV::Symbol("protocol-relation"@)),
            ("source-role"@, CardValueV::Symbol("implementor"@)),
            ("resolution"@, CardValueV::Symbol(
                match p.resolution {
                    ProtocolResolution::Resolved { .. } => "resolved"@,
                    ProtocolResolution::Unresolved { .. } => "unresolved"@,
                },
            )),
        ];
        match &p.resolution {
            ProtocolResolution::Resolved { protocol } => {
                assert(card_v(r).1 =~= head + seq![("protocol"@, CardValueV::Text(protocol@))]);
            },
            ProtocolResolution::Unresolved { .. } => {
                assert(card_v(r).1 =~= head + Seq::empty());
            },
        }
    }
    r
}

/// The texts of a list of anchor ids.
fn anchor_texts(v: &Vec<crate::index::model::AnchorId>) -> (r: Vec<String>)
    ensures
        r@.map_values(|s: String| s@) == v@.map_values(|x: crate::index::model::AnchorId| x@),
{
    let mut out: Vec<String> = Vec::new();
    let mut i: usize = 0;
    while i < v.len()
        invariant
            i <= v@.len(),
            out@.len() == i,
            forall|j: int| 0 <= j < i ==> (#[trigger] out@[j])@ == v@[j]@,
        decreases v@.len() - i,
    {
        out.push(text(v[i].as_str()));
        i += 1;
    }
    assert(out@.map_values(|s: String| s@) =~= v@.map_values(|x: crate::index::model::AnchorId| x@));
    out
}

/// The texts of a list of surface ids.
fn surface_texts(v: &Vec<crate::index::model::SurfaceId>) -> (r: Vec<String>)
    ensures
        r@.map_values(|s: String| s@) == v@.map_values(|x: crate::index::model::SurfaceId| x@),
{
    let mut out: Vec<String> = Vec::new();
    let mut i: usize = 0;
    while i < v.len()
        invariant
            i <= v@.len(),
            out@.len() == i,
            forall|j: int| 0 <= j < i ==> (#[trigger] out@[j])@ == v@[j]@,
        decreases v@.len() - i,
    {
        out.push(text(v[i].as_str()));
        i += 1;
    }
    assert(out@.map_values(|s: String| s@) =~= v@.map_values(|x: crate::index::model::SurfaceId| x@));
    out
}

/// The texts of a list of specimen ids.
fn specimen_texts(v: &Vec<crate::index::model::SpecimenId>) -> (r: Vec<String>)
    ensures
        r@.map_values(|s: String| s@) == v@.map_values(|x: crate::index::model::SpecimenId| x@),
{
    let mut out: Vec<String> = Vec::new();
    let mut i: usize = 0;
    while i < v.len()
        invariant
            i <= v@.len(),
            out@.len() == i,
            forall|j: int| 0 <= j < i ==> (#[trigger] out@[j])@ == v@[j]@,
        decreases v@.len() - i,
    {
        out.push(text(v[i].as_str()));
        i += 1;
    }
    assert(out@.map_values(|s: String| s@) =~= v@.map_values(|x: crate::index::model::SpecimenId| x@));
    out
}

/// The card of a feature: its id, kind, canonical key, subject, title,
/// summary, anchors, surfaces and specimens.
pub fn feature_card_spec(f: &FeatureRecord) -> (r: CardSpec)
    ensures
        card_v(r) == (
            card_subject("feature"@, f.id@),
            seq![
                ("id"@, CardValueV::Text(f.id@)),
                ("kind"@, CardValueV::Symbol("feature"@)),
                ("canonical-key"@, CardValueV::Text(f.key@)),
                ("subject"@, CardValueV::Text(f.subject@)),
                ("title"@, CardValueV::Text(f.title@)),
                ("summary"@, CardValueV::Text(f.summary@)),
                ("anchors"@, CardValueV::TextList(f.anchors@.map_values(|x: crate::index::model::AnchorId| x@))),
                ("surfaces"@, CardValueV::TextList(f.surfaces@.map_values(|x: crate::index::model::SurfaceId| x@))),
                ("specimens"@, CardValueV::TextList(f.specimens@.map_values(|x: crate::index::model::SpecimenId| x@))),
            ],
        ),
{
    let mut entries: Vec<(String, CardValue)> = Vec::new();
    entries.push(entry("id", CardValue::Text(text(f.id.as_str()))));
    entries.push(entry("kind", CardValue::Symbol(text("feature"))));
    entries.push(entry("canonical-key", CardValue::Text(text(f.key.as_str()))));
    entries.push(entry("subject", CardValue::Text(text(f.subject.as_str()))));
    entries.push(entry("title", CardValue::Text(f.title.clone())));
    entries.push(entry("summary", CardValue::Text(f.summary.clone())));
    entries.push(entry("anchors", CardValue::TextList(anchor_texts(&f.anchors))));
    entries.push(entry("surfaces", CardValue::TextList(surface_texts(&f.surfaces))));
    entries.push(entry("specimens", CardValue::TextList(specimen_texts(&f.specimens))));
    let r = CardSpec { subject: subject("feature", f.id.as_str()), entries };
    assert(card_v(r).1 =~= seq![
        ("id"@, CardValueV::Text(f.id@)),
        ("kind"@, CardValueV::Symbol("feature"@)),
        ("canonical-key"@, CardValueV::Text(f.key@)),
        ("subject"@, CardValueV::Text(f.subject@)),
        ("title"@, CardValueV::Text(f.title@)),
        ("summary"@, CardValueV::Text(f.summary@)),
        ("anchors"@, CardValueV::TextList(f.anchors@.map_values(|x: crate::index::model::AnchorId| x@))),
        ("surfaces"@, CardValueV::TextList(f.surfaces@.map_values(|x: crate::index::model::SurfaceId| x@))),
        ("specimens"@, CardValueV::TextList(f.specimens@.map_values(|x: crate::index::model::SpecimenId| x@))),
    ]);
    r
}

/// Value of an optional text entry: one entry when present.
pub open spec fn optional_text(name: Seq<char>, v: Option<String>) -> Seq<(Seq<char>, CardValueV)> {
    match v {
        Some(s) => seq![(name, CardValueV::Text(s@))],
        None => Seq::empty(),
    }
}

/// The card of a specimen: its id, kind, subject, specimen kind, path,
/// runnable and checked flags, and its language and checker when known.
pub fn specimen_card_spec(s: &DiscoveredSpecimen) -> (r: CardSpec)
    ensures
        card_v(r) == (
            card_subject("specimen"@, s.id@),
            seq![
                ("id"@, CardValueV::Text(s.id@)),
                ("kind"@, CardValueV::Symbol("specimen"@)),
                ("subject"@, CardValueV::Text(s.subject@)),
                ("specimen-kind"@, CardValueV::Text(s.kind@)),
                ("path"@, CardValueV::Text(s.path@)),
                ("runnable"@, CardValueV::Bool(s.runnable)),
                ("checked"@, CardValueV::Bool(s.checked)),
            ] + optional_text("language"@, s.language) + optional_text("checked-by"@, s.checked_by),
        ),
{
    let mut entries: Vec<(String, CardValue)> = Vec::new();
    entries.push(entry("id", CardValue::Text(text(s.id.as_str()))));
    entries.push(entry("kind", CardValue::Symbol(text("specimen"))));
    entries.push(entry("subject", CardValue::Text(text(s.subject.as_str()))));
    entries.push(entry("specimen-kind", CardValue::Text(s.kind.clone())));
    entries.push(entry("path", CardValue::Text(s.path.clone())));
    entries.push(entry("runnable", CardValue::Bool(s.runnable)));
    entries.push(entry("checked", CardValue::Bool(s.checked)));
    let ghost head = card_entries_v(entries@);
    match &s.language {
        Some(l) => entries.push(entry("language", CardValue::Text(l.clone()))),
        None => {},
    }
    let ghost mid = card_entries_v(entries@);
    match &s.checked_by {
        Some(c) => entries.push(entry("checked-by", CardValue::Text(c.clone()))),
        None => {},
    }
    let r = CardSpec { subject: subject("specimen", s.id.as_str()), entries };
    assert(mid =~= head + optional_text("language"@, s.language));
    assert(card_v(r).1 =~= mid + optional_text("checked-by"@, s.checked_by));
    assert(head =~= seq![
        ("id"@, CardValueV::Text(s.id@)),
        ("kind"@, CardValueV::Symbol("specimen"@)),
        ("subject"@, CardValueV::Text(s.subject@)),
        ("specimen-kind"@, CardValueV::Text(s.kind@)),
        ("path"@, CardValueV::Text(s.path@)),
        ("runnable"@, CardValueV::Bool(s.runnable)),
        ("checked"@, CardValueV::Bool(s.checked)),
    ]);
    r
}

/// The card of a route: its id, kind, title and step targets.
pub fn route_card_spec(route: &RouteRecord) -> (r: CardSpec)
    ensures
        card_v(r) == (
            card_subject("route"@, route.id@),
            seq![
                ("id"@, CardValueV::Text(route.id@)),
                ("kind"@, CardValueV::Symbol("route"@)),
                ("title"@, CardValueV::Text(route.title@)),
                ("steps"@, CardValueV::TextList(route.steps@.map_values(|s: RouteStep| step_target(s)))),
            ],
        ),
{
    let mut steps: Vec<String> = Vec::new();
    let mut i: usize = 0;
    while i < route.steps.len()
        invariant
            i <= route.steps@.len(),
            steps@.len() == i,
            forall|j: int| 0 <= j < i ==> (#[trigger] steps@[j])@ == step_target(route.steps@[j]),
        decreases route.steps@.len() - i,
    {
        steps.push(text(route.steps[i].id()));
        i += 1;
    }
    assert(steps@.map_values(|s: String| s@) =~= route.steps@.map_values(|s: RouteStep| step_target(s)));
    let mut entries: Vec<(String, CardValue)> = Vec::new();
    entries.push(entry("id", CardValue::Text(text(route.id.as_str()))));
    entries.push(entry("kind", CardValue::Symbol(text("route"))));
    entries.push(entry("title", CardValue::Text(route.title.clone())));
    entries.push(entry("steps", CardValue::TextList(steps)));
    let r = CardSpec { subject: subject("route", route.id.as_str()), entries };
    assert(card_v(r).1 =~= seq![
        ("id"@, CardValueV::Text(route.id@)),
        ("kind"@, CardValueV::Symbol("route"@)),
        ("title"@, CardValueV::Text(route.title@)),
        ("steps"@, CardValueV::TextList(route.steps@.map_values(|s: RouteStep| step_target(s)))),
    ]);
    r
}

/// `Factory::string` of the context's factory: a kernel string value.
#[verifier::external_body]
fn kernel_string(cx: &mut sim_kernel::Cx, s: &str) -> Result<sim_kernel::Value, sim_kernel::Error> {
    cx.factory().string(s.to_owned())
}

/// `Factory::symbol` of the context's factory: a kernel symbol value.
#[verifier::external_body]
fn kernel_symbol(cx: &mut sim_kernel::Cx, s: &str) -> Result<sim_kernel::Value, sim_kernel::Error> {
    cx.factory().symbol(sim_kernel::Symbol::new(s))
}

/// `Factory::bool` of the context's factory: a kernel boolean value.
#[verifier::external_body]
fn kernel_bool(cx: &mut sim_kernel::Cx, b: bool) -> Result<sim_kernel::Value, sim_kernel::Error> {
    cx.factory().bool(b)
}

/// `Factory::list` of the context's factory: a kernel list of the values.
#[verifier::external_body]
fn kernel_list(cx: &mut sim_kernel::Cx, items: Vec<sim_kernel::Value>) -> Result<sim_kernel::Value, sim_kernel::Error> {
    cx.factory().list(items)
}

/// `Factory::opaque` of a `sim_kernel::card::Card` whose subject is the
/// symbol `subject` and whose entries are named by unqualified symbols.
#[verifier::external_body]
fn kernel_card(
    cx: &mut sim_kernel::Cx,
    subject: &str,
    entries: Vec<(String, sim_kernel::Value)>,
) -> Result<sim_kernel::Value, sim_kernel::Error> {
    let subject = sim_kernel::Ref::Symbol(sim_kernel::Symbol::new(subject));
    let entries = entries.into_iter().map(|(name, value)| (sim_kernel::Symbol::new(name), value)).collect();
    cx.factory().opaque(std::sync::Arc::new(sim_kernel::card::Card::new(subject, entries)))
}

/// Makes a card's entry value in the kernel.
fn card_entry_value(cx: &mut sim_kernel::Cx, v: &CardValue) -> Result<sim_kernel::Value, sim_kernel::Error> {
    match v {
        CardValue::Text(s) => kernel_string(cx, s.as_str()),
        CardValue::Symbol(s) => kernel_symbol(cx, s.as_str()),
        CardValue::Bool(b) => kernel_bool(cx, *b),
        CardValue::TextList(items) => {
            let mut values: Vec<sim_kernel::Value> = Vec::new();
            let mut i: usize = 0;
            while i < items.len()
                invariant
                    i <= items@.len(),
                decreases items@.len() - i,
            {
                match kernel_string(cx, items[i].as_str()) {
                    Ok(v) => values.push(v),
                    Err(e) => {
                        return Err(e);
                    },
                }
                i += 1;
            }
            kernel_list(cx, values)
        },
    }
}

/// Makes the kernel values of a card's entries, entry by entry in order,
/// each under its entry's name.
fn entry_values(cx: &mut sim_kernel::Cx, card: &CardSpec) -> (r: Result<
    Vec<(String, sim_kernel::Value)>,
    sim_kernel::Error,
>)
    ensures
        r matches Ok(v) ==> v@.len() == card.entries@.len() && forall|i: int|
            0 <= i < v@.len() ==> (#[trigger] v@[i]).0@ == card.entries@[i].0@,
{
    let mut entries: Vec<(String, sim_kernel::Value)> = Vec::new();
    let mut i: usize = 0;
    while i < card.entries.len()
        invariant
            i <= card.entries@.len(),
            entries@.len() == i,
            forall|j: int| 0 <= j < i ==> (#[trigger] entries@[j]).0@ == card.entries@[j].0@,
        decreases card.entries@.len() - i,
    {
        match card_entry_value(cx, &card.entries[i].1) {
            Ok(v) => entries.push((card.entries[i].0.clone(), v)),
            Err(e) => {
                return Err(e);
            },
        }
        i += 1;
    }
    Ok(entries)
}

/// Makes a card in the kernel: its subject, then each entry's value under
/// the entry's name, in order.
pub fn card_value(cx: &mut sim_kernel::Cx, card: &CardSpec) -> Result<sim_kernel::Value, sim_kernel::Error> {
    let entries = match entry_values(cx, card) {
        Ok(v) => v,
        Err(e) => {
            return Err(e);
        },
    };
    kernel_card(cx, card.subject.as_str(), entries)
}

/// Projects compact declaration-role evidence, without signatures, into a
/// kernel card.
pub fn declaration_card(cx: &mut sim_kernel::Cx, declaration: &DeclarationFact) -> Result<sim_kernel::Value, sim_kernel::Error> {
    let card = declaration_card_spec(declaration);
    card_value(cx, &card)
}

/// Projects compact protocol-role and resolution evidence into a kernel
/// card.
pub fn protocol_relation_card(cx: &mut sim_kernel::Cx, relation: &ProtocolRelation) -> Result<sim_kernel::Value, sim_kernel::Error> {
    let card = protocol_relation_card_spec(relation);
    card_value(cx, &card)
}

/// Projects a feature row into a kernel card.
pub fn feature_card(cx: &mut sim_kernel::Cx, feature: &FeatureRecord) -> Result<sim_kernel::Value, sim_kernel::Error> {
    let card = feature_card_spec(feature);
    card_value(cx, &card)
}

/// Projects a specimen row into a kernel card.
pub fn specimen_card(cx: &mut sim_kernel::Cx, specimen: &DiscoveredSpecimen) -> Result<sim_kernel::Value, sim_kernel::Error> {
    let card = specimen_card_spec(specimen);
    card_value(cx, &card)
}

/// Projects a route row into a kernel card.
pub fn route_card(cx: &mut sim_kernel::Cx, route: &RouteRecord) -> Result<sim_kernel::Value, sim_kernel::Error> {
    let card = route_card_spec(route);
    card_value(cx, &card)
}

} // verus!
