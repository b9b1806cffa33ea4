//! Config contracts for cookbook-facing runtime configuration.
//!
//! `sim/cookbook` carries `minimum_loaded`, `hide` and `order` string lists
//! and repeated `loadable_lib` rows, each with an `id` and a host-owned
//! `source`; `stream/host` carries backend candidates, patterns and audio
//! sizes; `model/defaults` carries model selection preferences.

use vstd::prelude::*;

use crate::config::expr::{ConfigExpr, ExprV, expr_v};
use crate::config::shape::{ConfigShape, FieldShape, FieldSpec, TableContract, ValueKind};
use crate::config::table::ConfigTable;
use crate::conformance::datum::{Sym, sym_v};
use crate::text::text;

verus! {

/// The stable config library id for cookbook defaults.
pub fn cookbook_lib_symbol() -> (r: Sym)
    ensures
        sym_v(r) == (Some("sim"@), "cookbook"@),
{
    Sym::qualified("sim", "cookbook")
}

/// The stable config library id for stream-host defaults.
pub fn stream_host_lib_symbol() -> (r: Sym)
    ensures
        sym_v(r) == (Some("stream"@), "host"@),
{
    Sym::qualified("stream", "host")
}

/// The stable config library id for model defaults.
pub fn model_defaults_lib_symbol() -> (r: Sym)
    ensures
        sym_v(r) == (Some("model"@), "defaults"@),
{
    Sym::qualified("model", "defaults")
}

/// An unqualified-symbol key.
fn key(name: &str) -> (r: ConfigExpr)
    ensures
        expr_v(r) == ExprV::Symbol((None, name@)),
{
    ConfigExpr::Symbol(Sym::new(name))
}

/// A string value.
fn string(value: &str) -> (r: ConfigExpr)
    ensures
        expr_v(r) == ExprV::Str(value@),
{
    ConfigExpr::String(text(value))
}

/// An `i64` number value with the given canonical text.
fn i64_number(canonical: &str) -> (r: ConfigExpr)
    ensures
        expr_v(r) == ExprV::Number((None, "i64"@), canonical@),
{
    ConfigExpr::Number { domain: Sym::new("i64"), canonical: text(canonical) }
}

/// A one-string list.
fn one_string_list(value: &str) -> (r: ConfigExpr)
    ensures
        expr_v(r) == ExprV::List(seq![ExprV::Str(value@)]),
{
    let mut items: Vec<ConfigExpr> = Vec::new();
    items.push(string(value));
    let r = ConfigExpr::List(items);
    assert(crate::config::expr::items_v(items@) =~= seq![ExprV::Str(value@)]);
    r
}

/// The `sim/cookbook` defaults: `minimum_loaded` holds `codec/lisp` and
/// `loadable_lib` is empty.
pub open spec fn cookbook_defaults_v() -> ExprV {
    ExprV::Table(
        seq![
            (ExprV::Symbol((None, "minimum_loaded"@)), ExprV::List(seq![ExprV::Str("codec/lisp"@)])),
            (ExprV::Symbol((None, "loadable_lib"@)), ExprV::List(Seq::empty())),
        ],
    )
}

/// Contract for the `sim/cookbook` config table: optional string lists
/// `minimum_loaded`, `hide` and `order`, and optional `loadable_lib` rows
/// each requiring string `id` and `source`.
pub fn cookbook_config_shape() -> (r: ConfigShape)
    ensures
        sym_v(r.lib) == (Some("sim"@), "cookbook"@),
        sym_v(r.defaults.lib) == sym_v(r.lib),
        expr_v(r.defaults.table) == cookbook_defaults_v(),
        sym_v(r.shape.symbol) == (Some("config-shape"@), "sim/cookbook"@),
        r.shape.fields@.len() == 4,
        r.shape.fields@[0].name@ == "minimum_loaded"@ && r.shape.fields@[0].shape == FieldShape::StringList && !r.shape.fields@[0].required,
        r.shape.fields@[1].name@ == "hide"@ && r.shape.fields@[1].shape == FieldShape::StringList && !r.shape.fields@[1].required,
        r.shape.fields@[2].name@ == "order"@ && r.shape.fields@[2].shape == FieldShape::StringList && !r.shape.fields@[2].required,
        r.shape.fields@[3].name@ == "loadable_lib"@ && !r.shape.fields@[3].required && (r.shape.fields@[3].shape matches FieldShape::TableList(row) && row@.len() == 2
            && row@[0].name@ == "id"@ && row@[0].shape == FieldShape::Kind(ValueKind::String) && row@[0].required
            && row@[1].name@ == "source"@ && row@[1].shape == FieldShape::Kind(ValueKind::String) && row@[1].required),
        r.secret_keys@.len() == 0,
{
    let mut row: Vec<FieldSpec> = Vec::new();
    row.push(FieldSpec::required("id", FieldShape::Kind(ValueKind::String)));
    row.push(FieldSpec::required("source", FieldShape::Kind(ValueKind::String)));
    let mut fields: Vec<FieldSpec> = Vec::new();
    fields.push(FieldSpec::optional("minimum_loaded", FieldShape::StringList));
    fields.push(FieldSpec::optional("hide", FieldShape::StringList));
    fields.push(FieldSpec::optional("order", FieldShape::StringList));
    fields.push(FieldSpec::optional("loadable_lib", FieldShape::TableList(row)));
    let mut entries: Vec<(ConfigExpr, ConfigExpr)> = Vec::new();
    entries.push((key("minimum_loaded"), one_string_list("codec/lisp")));
    entries.push((key("loadable_lib"), ConfigExpr::List(Vec::new())));
    let table = ConfigExpr::Table(entries);
    proof {
        assert(crate::config::expr::items_v(Seq::<ConfigExpr>::empty()) =~= Seq::<ExprV>::empty());
        assert(crate::config::expr::entries_v(entries@) =~= seq![
            (ExprV::Symbol((None, "minimum_loaded"@)), ExprV::List(seq![ExprV::Str("codec/lisp"@)])),
            (ExprV::Symbol((None, "loadable_lib"@)), ExprV::List(Seq::empty())),
        ]);
    }
    let lib = cookbook_lib_symbol();
    ConfigShape::new(
        lib.copy(),
        TableContract::new(Sym::qualified("config-shape", "sim/cookbook"), fields),
        ConfigTable { lib, table },
    )
}

/// The `stream/host` defaults: modeled backends, modeled-only patterns,
/// 48000 Hz and 512-frame blocks.
pub open spec fn stream_host_defaults_v() -> ExprV {
    ExprV::Table(
        seq![
            (ExprV::Symbol((None, "audio_backend_candidates"@)), ExprV::List(seq![ExprV::Str("modeled"@)])),
            (ExprV::Symbol((None, "midi_backend_candidates"@)), ExprV::List(seq![ExprV::Str("modeled"@)])),
            (ExprV::Symbol((None, "audio_backend_regex"@)), ExprV::Str("^(?:modeled)$"@)),
            (ExprV::Symbol((None, "midi_backend_regex"@)), ExprV::Str("^(?:modeled)$"@)),
            (ExprV::Symbol((None, "sample_rate_hz"@)), ExprV::Number((None, "i64"@), "48000"@)),
            (ExprV::Symbol((None, "max_block_frames"@)), ExprV::Number((None, "i64"@), "512"@)),
        ],
    )
}

/// Contract for the `stream/host` config table: optional backend candidate
/// lists, optional backend patterns and optional numeric sizes.
pub fn stream_host_config_shape() -> (r: ConfigShape)
    ensures
        sym_v(r.lib) == (Some("stream"@), "host"@),
        sym_v(r.defaults.lib) == sym_v(r.lib),
        expr_v(r.defaults.table) == stream_host_defaults_v(),
        sym_v(r.shape.symbol) == (Some("config-shape"@), "stream/host"@),
        r.shape.fields@.len() == 6,
        forall|i: int| 0 <= i < 6 ==> !(#[trigger] r.shape.fields@[i]).required,
        r.shape.fields@[0].name@ == "audio_backend_candidates"@ && r.shape.fields@[0].shape == FieldShape::StringList,
        r.shape.fields@[1].name@ == "midi_backend_candidates"@ && r.shape.fields@[1].shape == FieldShape::StringList,
        r.shape.fields@[2].name@ == "audio_backend_regex"@ && r.shape.fields@[2].shape == FieldShape::Kind(ValueKind::String),
        r.shape.fields@[3].name@ == "midi_backend_regex"@ && r.shape.fields@[3].shape == FieldShape::Kind(ValueKind::String),
        r.shape.fields@[4].name@ == "sample_rate_hz"@ && r.shape.fields@[4].shape == FieldShape::Kind(ValueKind::Number),
        r.shape.fields@[5].name@ == "max_block_frames"@ && r.shape.fields@[5].shape == FieldShape::Kind(ValueKind::Number),
        r.secret_keys@.len() == 0,
{
    let mut fields: Vec<FieldSpec> = Vec::new();
    fields.push(FieldSpec::optional("audio_backend_candidates", FieldShape::StringList));
    fields.push(FieldSpec::optional("midi_backend_candidates", FieldShape::StringList));
    fields.push(FieldSpec::optional("audio_backend_regex", FieldShape::Kind(ValueKind::String)));
    fields.push(FieldSpec::optional("midi_backend_regex", FieldShape::Kind(ValueKind::String)));
    fields.push(FieldSpec::optional("sample_rate_hz", FieldShape::Kind(ValueKind::Number)));
    fields.push(FieldSpec::optional("max_block_frames", FieldShape::Kind(ValueKind::Number)));
    let mut entries: Vec<(ConfigExpr, ConfigExpr)> = Vec::new();
    entries.push((key("audio_backend_candidates"), one_string_list("modeled")));
    entries.push((key("midi_backend_candidates"), one_string_list("modeled")));
    entries.push((key("audio_backend_regex"), string("^(?:modeled)$")));
    entries.push((key("midi_backend_regex"), string("^(?:modeled)$")));
    entries.push((key("sample_rate_hz"), i64_number("48000")));
    entries.push((key("max_block_frames"), i64_number("512")));
    let table = ConfigExpr::Table(entries);
    proof {
        assert(crate::config::expr::entries_v(entries@) =~= seq![
            (ExprV::Symbol((None, "audio_backend_candidates"@)), ExprV::List(seq![ExprV::Str("modeled"@)])),
            (ExprV::Symbol((None, "midi_backend_candidates"@)), ExprV::List(seq![ExprV::Str("modeled"@)])),
            (ExprV::Symbol((None, "audio_backend_regex"@)), ExprV::Str("^(?:modeled)$"@)),
            (ExprV::Symbol((None, "midi_backend_regex"@)), ExprV::Str("^(?:modeled)$"@)),
            (ExprV::Symbol((None, "sample_rate_hz"@)), ExprV::Number((None, "i64"@), "48000"@)),
            (ExprV::Symbol((None, "max_block_frames"@)), ExprV::Number((None, "i64"@), "512"@)),
        ]);
    }
    let lib = stream_host_lib_symbol();
    ConfigShape::new(
        lib.copy(),
        TableContract::new(Sym::qualified("config-shape", "stream/host"), fields),
        ConfigTable { lib, table },
    )
}

/// The `model/defaults` defaults: fixture and built-in model patterns, the
/// modeled provider, local preference, the echo fixture model and no
/// provider credentials present.
pub open spec fn model_defaults_v() -> ExprV {
    ExprV::Table(
        seq![
            (ExprV::Symbol((None, "model_regex"@)), ExprV::Str("^(?:fixture/|sim/|gpt-4\\.1|o[34]).*"@)),
            (ExprV::Symbol((None, "provider_regex"@)), ExprV::Str("^(?:modeled)$"@)),
            (ExprV::Symbol((None, "prefer_local"@)), ExprV::Bool(true)),
            (ExprV::Symbol((None, "default_model"@)), ExprV::Str("fixture/echo"@)),
            (ExprV::Symbol((None, "openai_key_present"@)), ExprV::Bool(false)),
            (ExprV::Symbol((None, "openai_base_present"@)), ExprV::Bool(false)),
            (ExprV::Symbol((None, "ollama_host_present"@)), ExprV::Bool(false)),
        ],
    )
}

/// Contract for the `model/defaults` config table: optional model and
/// provider patterns, local preference, default model, and presence flags
/// of provider credentials.
pub fn model_defaults_config_shape() -> (r: ConfigShape)
    ensures
        sym_v(r.lib) == (Some("model"@), "defaults"@),
        sym_v(r.defaults.lib) == sym_v(r.lib),
        expr_v(r.defaults.table) == model_defaults_v(),
        sym_v(r.shape.symbol) == (Some("config-shape"@), "model/defaults"@),
        r.shape.fields@.len() == 7,
        forall|i: int| 0 <= i < 7 ==> !(#[trigger] r.shape.fields@[i]).required,
        r.shape.fields@[0].name@ == "model_regex"@ && r.shape.fields@[0].shape == FieldShape::Kind(ValueKind::String),
        r.shape.fields@[1].name@ == "provider_regex"@ && r.shape.fields@[1].shape == FieldShape::Kind(ValueKind::String),
        r.shape.fields@[2].name@ == "prefer_local"@ && r.shape.fields@[2].shape == FieldShape::Kind(ValueKind::Bool),
        r.shape.fields@[3].name@ == "default_model"@ && r.shape.fields@[3].shape == FieldShape::Kind(ValueKind::String),
        r.shape.fields@[4].name@ == "openai_key_present"@ && r.shape.fields@[4].shape == FieldShape::Kind(ValueKind::Bool),
        r.shape.fields@[5].name@ == "openai_base_present"@ && r.shape.fields@[5].shape == FieldShape::Kind(ValueKind::Bool),
        r.shape.fields@[6].name@ == "ollama_host_present"@ && r.shape.fields@[6].shape == FieldShape::Kind(ValueKind::Bool),
        r.secret_keys@.len() == 0,
{
    let mut fields: Vec<FieldSpec> = Vec::new();
    fields.push(FieldSpec::optional("model_regex", FieldShape::Kind(ValueKind::String)));
    fields.push(FieldSpec::optional("provider_regex", FieldShape::Kind(ValueKind::String)));
    fields.push(FieldSpec::optional("prefer_local", FieldShape::Kind(ValueKind::Bool)));
    fields.push(FieldSpec::optional("default_model", FieldShape::Kind(ValueKind::String)));
    fields.push(FieldSpec::optional("openai_key_present", FieldShape::Kind(ValueKind::Bool)));
    fields.push(FieldSpec::optional("openai_base_present", FieldShape::Kind(ValueKind::Bool)));
    fields.push(FieldSpec::optional("ollama_host_present", FieldShape::Kind(ValueKind::Bool)));
    let mut entries: Vec<(ConfigExpr, ConfigExpr)> = Vec::new();
    entries.push((key("model_regex"), string("^(?:fixture/|sim/|gpt-4\\.1|o[34]).*")));
    entries.push((key("provider_regex"), string("^(?:modeled)$")));
    entries.push((key("prefer_local"), ConfigExpr::Bool(true)));
    entries.push((key("default_model"), string("fixture/echo")));
    entries.push((key("openai_key_present"), ConfigExpr::Bool(false)));
    entries.push((key("openai_base_present"), ConfigExpr::Bool(false)));
    entries.push((key("ollama_host_present"), ConfigExpr::Bool(false)));
    let table = ConfigExpr::Table(entries);
    proof {
        assert(crate::config::expr::entries_v(entries@) =~= seq![
            (ExprV::Symbol((None, "model_regex"@)), ExprV::Str("^(?:fixture/|sim/|gpt-4\\.1|o[34]).*"@)),
            (ExprV::Symbol((None, "provider_regex"@)), ExprV::Str("^(?:modeled)$"@)),
            (ExprV::Symbol((None, "prefer_local"@)), ExprV::Bool(true)),
            (ExprV::Symbol((None, "default_model"@)), ExprV::Str("fixture/echo"@)),
            (ExprV::Symbol((None, "openai_key_present"@)), ExprV::Bool(false)),
            (ExprV::Symbol((None, "openai_base_present"@)), ExprV::Bool(false)),
            (ExprV::Symbol((None, "ollama_host_present"@)), ExprV::Bool(false)),
        ]);
    }
    let lib = model_defaults_lib_symbol();
    ConfigShape::new(
        lib.copy(),
        TableContract::new(Sym::qualified("config-shape", "model/defaults"), fields),
        ConfigTable { lib, table },
    )
}

/// The config contracts the cookbook exports: cookbook, stream host, model
/// defaults, in that order.
pub fn representative_config_shapes() -> (r: Vec<ConfigShape>)
    ensures
        r@.len() == 3,
        sym_v(r@[0].lib) == (Some("sim"@), "cookbook"@),
        sym_v(r@[1].lib) == (Some("stream"@), "host"@),
        sym_v(r@[2].lib) == (Some("model"@), "defaults"@),
{
    let mut r: Vec<ConfigShape> = Vec::new();
    r.push(cookbook_config_shape());
    r.push(stream_host_config_shape());
    r.push(model_defaults_config_shape());
    r
}

} // verus!
