use sim_foundation::config::expr::ConfigExpr;
use sim_foundation::config::table::ConfigTable;
use sim_foundation::config::view::ConfigView;
use sim_foundation::conformance::datum::Sym;
use sim_foundation::cookbook::config::{
    cookbook_config_shape, cookbook_lib_symbol, model_defaults_config_shape, model_defaults_lib_symbol,
    representative_config_shapes, stream_host_config_shape, stream_host_lib_symbol,
};

fn sym(name: &str) -> ConfigExpr {
    ConfigExpr::Symbol(Sym::new(name))
}

fn text(value: &str) -> ConfigExpr {
    ConfigExpr::String(value.to_owned())
}

fn i64_value(value: i64) -> ConfigExpr {
    ConfigExpr::Number { domain: Sym::new("i64"), canonical: value.to_string() }
}

fn list(items: Vec<ConfigExpr>) -> ConfigExpr {
    ConfigExpr::List(items)
}

fn map(entries: Vec<(&str, ConfigExpr)>) -> ConfigExpr {
    ConfigExpr::Table(entries.into_iter().map(|(key, value)| (sym(key), value)).collect())
}

fn string_list(items: &[&str]) -> ConfigExpr {
    list(items.iter().map(|item| text(item)).collect())
}

#[test]
fn cookbook_shape_accepts_provider_fields_together() {
    let shape = cookbook_config_shape();
    let table = ConfigTable::new(
        cookbook_lib_symbol(),
        map(vec![
            ("minimum_loaded", string_list(&["codec/lisp"])),
            ("hide", string_list(&["demo/hidden"])),
            ("order", string_list(&["numbers/cas", "codec/algol"])),
            (
                "loadable_lib",
                list(vec![
                    map(vec![("id", text("numbers/cas")), ("source", text("symbol:numbers/cas"))]),
                    map(vec![("id", text("codec/algol")), ("source", text("symbol:codec/algol"))]),
                ]),
            ),
        ]),
    )
    .unwrap();

    let effective = shape.validate(&table).unwrap();
    let view = ConfigView::new(&effective);

    assert!(matches!(effective.table, ConfigExpr::Table(_)));
    assert_eq!(view.string_array("minimum_loaded").unwrap(), ["codec/lisp"]);
    assert_eq!(view.string_array("hide").unwrap(), ["demo/hidden"]);
    assert_eq!(view.string_array("order").unwrap(), ["numbers/cas", "codec/algol"]);
}

#[test]
fn cookbook_shape_accepts_string_keyed_config_fields() {
    let shape = cookbook_config_shape();
    let table = ConfigTable::new(
        cookbook_lib_symbol(),
        ConfigExpr::Table(vec![
            (ConfigExpr::String("minimum_loaded".to_owned()), string_list(&["codec/lisp"])),
            (
                ConfigExpr::String("loadable_lib".to_owned()),
                list(vec![ConfigExpr::Table(vec![
                    (ConfigExpr::String("id".to_owned()), text("numbers/cas")),
                    (ConfigExpr::String("source".to_owned()), text("symbol:numbers/cas")),
                ])]),
            ),
        ]),
    )
    .unwrap();

    let effective = shape.validate(&table).unwrap();

    assert!(matches!(effective.table, ConfigExpr::Table(_)));
}

#[test]
fn cookbook_shape_rejects_malformed_loadable_rows() {
    let shape = cookbook_config_shape();
    let table = ConfigTable::new(
        cookbook_lib_symbol(),
        map(vec![("loadable_lib", list(vec![map(vec![("id", text("numbers/cas"))])]))]),
    )
    .unwrap();

    let report = shape.validate(&table).unwrap_err();

    assert!(report.contains("missing required key source"));
    assert_eq!(report, "loadable_lib[0]: missing required key source");
}

#[test]
fn representative_shapes_cover_runtime_config_libs() {
    let libs = representative_config_shapes().into_iter().map(|shape| shape.lib).collect::<Vec<_>>();

    assert_eq!(libs, vec![cookbook_lib_symbol(), stream_host_lib_symbol(), model_defaults_lib_symbol()]);
}

#[test]
fn stream_and_model_shapes_validate_probe_style_tables() {
    let stream = ConfigTable::new(
        stream_host_lib_symbol(),
        map(vec![
            ("audio_backend_candidates", string_list(&["modeled"])),
            ("midi_backend_candidates", string_list(&["modeled"])),
            ("sample_rate_hz", i64_value(48_000)),
        ]),
    )
    .unwrap();
    let model = ConfigTable::new(
        model_defaults_lib_symbol(),
        map(vec![
            ("model_regex", text(r"^(?:fixture/|sim/).*")),
            ("provider_regex", text("^(?:modeled)$")),
            ("prefer_local", ConfigExpr::Bool(true)),
        ]),
    )
    .unwrap();

    stream_host_config_shape().validate(&stream).unwrap();
    model_defaults_config_shape().validate(&model).unwrap();
}

#[test]
fn cookbook_shape_reports_each_kind_of_violation() {
    let shape = cookbook_config_shape();
    let extra = ConfigTable::new(cookbook_lib_symbol(), map(vec![("bogus", text("x"))])).unwrap();
    assert_eq!(shape.validate(&extra).unwrap_err(), "config table: extra key bogus");
    let not_list = ConfigTable::new(cookbook_lib_symbol(), map(vec![("hide", text("x"))])).unwrap();
    assert_eq!(shape.validate(&not_list).unwrap_err(), "hide expected list");
    let bad_item = ConfigTable::new(cookbook_lib_symbol(), map(vec![("order", list(vec![text("a"), i64_value(1)]))])).unwrap();
    assert_eq!(shape.validate(&bad_item).unwrap_err(), "order[1] expected string");
    let bad_rows = ConfigTable::new(cookbook_lib_symbol(), map(vec![("loadable_lib", text("x"))])).unwrap();
    assert_eq!(shape.validate(&bad_rows).unwrap_err(), "loadable_lib expected repeated table list");
    let wrong_kind = ConfigTable::new(
        cookbook_lib_symbol(),
        map(vec![("loadable_lib", list(vec![map(vec![("id", i64_value(1)), ("source", text("s"))])]))]),
    )
    .unwrap();
    assert_eq!(shape.validate(&wrong_kind).unwrap_err(), "id expected string");
}
