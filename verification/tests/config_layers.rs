use sim_foundation::config::expr::{config_field_name, field_any, ConfigExpr};
use sim_foundation::config::merge::{merge_layers, ConfigLayer, ConfigSource};
use sim_foundation::config::report::{ConfigReport, ConfigReportEntry};
use sim_foundation::config::shape::{
    ConfigSecretField, ConfigShape, FieldShape, FieldSpec, LibConfigDefaults, TableContract, ValueKind,
};
use sim_foundation::config::table::{lib_symbol_from_str, ConfigDir, ConfigError, ConfigTable};
use sim_foundation::config::view::ConfigView;
use sim_foundation::config::{
    lib_config_path, ConfigProbe, ConfigProbeCaps, ConfigProbeReport, ConfigProbeRequest,
    ConfigProbeStatus, ProbeMode,
};
use sim_foundation::conformance::datum::Sym;

fn sym(name: &str) -> ConfigExpr {
    ConfigExpr::Symbol(Sym::new(name))
}

fn text(value: &str) -> ConfigExpr {
    ConfigExpr::String(value.to_owned())
}

fn i64_value(value: i64) -> ConfigExpr {
    ConfigExpr::Number { domain: Sym::new("i64"), canonical: value.to_string() }
}

fn list(items: Vec<ConfigExpr>) -> ConfigExpr {
    ConfigExpr::List(items)
}

fn map(entries: Vec<(&str, ConfigExpr)>) -> ConfigExpr {
    ConfigExpr::Table(entries.into_iter().map(|(key, value)| (sym(key), value)).collect())
}

fn lib() -> Sym {
    Sym::qualified("sim", "cookbook")
}

fn explicit(label: &str) -> ConfigSource {
    ConfigSource::Explicit { label: label.to_owned() }
}

#[test]
fn config_field_name_is_key_identity_not_map_lookup() {
    assert_eq!(config_field_name(&ConfigExpr::Symbol(Sym::new("mode"))), Some("mode"));
    assert_eq!(config_field_name(&ConfigExpr::String("mode".into())), Some("mode"));
    assert_eq!(config_field_name(&ConfigExpr::Symbol(Sym::qualified("config", "mode"))), None);
    assert_eq!(config_field_name(&ConfigExpr::Bool(true)), None);
}

#[test]
fn higher_layers_replace_scalars_and_preserve_absent_fields() {
    let lower = ConfigDir::one(lib(), map(vec![("mode", text("built-in")), ("keep", i64_value(1))])).unwrap();
    let upper = ConfigDir::one(lib(), map(vec![("mode", text("work"))])).unwrap();

    let effective = merge_layers(&[
        ConfigLayer::new(ConfigSource::BuiltIn { lib: lib() }, lower),
        ConfigLayer::new(explicit("work"), upper),
    ]);

    let table = effective.dir.table(&lib()).unwrap();
    assert_eq!(field_any(&table.table, "mode"), Some(&text("work")));
    assert_eq!(field_any(&table.table, "keep"), Some(&i64_value(1)));
    assert_eq!(
        effective.trace.iter().find(|trace| trace.key == "mode").unwrap().source,
        explicit("work")
    );
}

#[test]
fn equivalent_scalar_keys_replace_in_both_directions() {
    let lower = ConfigDir::one(
        lib(),
        ConfigExpr::Table(vec![(ConfigExpr::String("mode".to_owned()), text("built-in")), (sym("keep"), i64_value(1))]),
    )
    .unwrap();
    let upper = ConfigDir::one(lib(), map(vec![("mode", text("work"))])).unwrap();

    let effective = merge_layers(&[
        ConfigLayer::new(ConfigSource::BuiltIn { lib: lib() }, lower),
        ConfigLayer::new(explicit("symbol-over-string"), upper),
    ]);
    let table = effective.dir.table(&lib()).unwrap();
    let view = ConfigView::new(table);

    assert_eq!(view.string("mode"), Some("work"));
    assert_eq!(view.i64("keep"), Some(1));
    assert_eq!(table.entries().unwrap().len(), 2);
    assert_eq!(
        effective.trace.iter().find(|trace| trace.key == "mode").unwrap().source,
        explicit("symbol-over-string")
    );

    let lower = ConfigDir::one(lib(), map(vec![("mode", text("built-in"))])).unwrap();
    let upper =
        ConfigDir::one(lib(), ConfigExpr::Table(vec![(ConfigExpr::String("mode".to_owned()), text("work"))])).unwrap();
    let effective = merge_layers(&[
        ConfigLayer::new(ConfigSource::BuiltIn { lib: lib() }, lower),
        ConfigLayer::new(explicit("string-over-symbol"), upper),
    ]);

    assert_eq!(ConfigView::new(effective.dir.table(&lib()).unwrap()).string("mode"), Some("work"));
    assert_eq!(
        effective.trace.iter().find(|trace| trace.key == "mode").unwrap().source,
        explicit("string-over-symbol")
    );
}

#[test]
fn equivalent_nested_map_keys_merge_without_duplicates() {
    let lower = ConfigDir::one(
        lib(),
        map(vec![(
            "settings",
            ConfigExpr::Table(vec![(sym("mode"), text("built-in")), (sym("keep"), text("lower"))]),
        )]),
    )
    .unwrap();
    let upper = ConfigDir::one(
        lib(),
        ConfigExpr::Table(vec![(
            ConfigExpr::String("settings".to_owned()),
            ConfigExpr::Table(vec![(ConfigExpr::String("mode".to_owned()), text("work"))]),
        )]),
    )
    .unwrap();

    let effective = merge_layers(&[
        ConfigLayer::new(ConfigSource::BuiltIn { lib: lib() }, lower),
        ConfigLayer::new(explicit("work"), upper),
    ]);
    let view = ConfigView::new(effective.dir.table(&lib()).unwrap());
    let settings = ConfigView::from_entries(view.table("settings").unwrap());

    assert_eq!(settings.string("mode"), Some("work"));
    assert_eq!(settings.string("keep"), Some("lower"));
    assert_eq!(view.table("settings").unwrap().len(), 2);
    assert_eq!(
        effective.trace.iter().find(|trace| trace.key == "settings").unwrap().source,
        explicit("work")
    );
}

#[test]
fn id_keyed_repeated_tables_replace_by_id() {
    let lower = ConfigDir::one(
        lib(),
        map(vec![(
            "loadable_lib",
            ConfigExpr::List(vec![
                map(vec![("id", text("numbers")), ("source", text("stable"))]),
                map(vec![("id", text("shape")), ("source", text("stable"))]),
            ]),
        )]),
    )
    .unwrap();
    let upper = ConfigDir::one(
        lib(),
        map(vec![(
            "loadable_lib",
            ConfigExpr::List(vec![
                map(vec![("id", text("shape")), ("source", text("work"))]),
                map(vec![("id", text("music")), ("source", text("work"))]),
            ]),
        )]),
    )
    .unwrap();

    let effective = merge_layers(&[
        ConfigLayer::new(ConfigSource::BuiltIn { lib: lib() }, lower),
        ConfigLayer::new(explicit("work"), upper),
    ]);

    let list = match field_any(&effective.dir.table(&lib()).unwrap().table, "loadable_lib") {
        Some(ConfigExpr::List(items)) => items,
        other => panic!("expected merged list, got {other:?}"),
    };
    assert_eq!(list.len(), 3);
    assert_eq!(field_any(&list[1], "source"), Some(&text("work")));
    assert_eq!(field_any(&list[2], "id"), Some(&text("music")));
}

#[test]
fn id_keyed_repeated_tables_use_config_field_identity() {
    let lower = ConfigDir::one(
        lib(),
        ConfigExpr::Table(vec![(
            ConfigExpr::String("loadable_lib".to_owned()),
            list(vec![
                ConfigExpr::Table(vec![
                    (ConfigExpr::String("id".to_owned()), text("shape")),
                    (sym("source"), text("stable")),
                ]),
                map(vec![("id", text("numbers")), ("source", text("stable"))]),
            ]),
        )]),
    )
    .unwrap();
    let upper = ConfigDir::one(
        lib(),
        map(vec![(
            "loadable_lib",
            list(vec![ConfigExpr::Table(vec![
                (sym("id"), text("shape")),
                (ConfigExpr::String("source".to_owned()), text("work")),
            ])]),
        )]),
    )
    .unwrap();

    let effective = merge_layers(&[
        ConfigLayer::new(ConfigSource::BuiltIn { lib: lib() }, lower),
        ConfigLayer::new(explicit("work"), upper),
    ]);

    let list = match ConfigView::new(effective.dir.table(&lib()).unwrap()).get("loadable_lib") {
        Some(ConfigExpr::List(items)) => items,
        other => panic!("expected merged list, got {other:?}"),
    };
    assert_eq!(list.len(), 2);
    assert_eq!(field_any(&list[0], "id"), Some(&text("shape")));
    assert_eq!(field_any(&list[0], "source"), Some(&text("work")));
    assert_eq!(field_any(&list[1], "id"), Some(&text("numbers")));
    assert_eq!(
        effective.trace.iter().find(|trace| trace.key == "loadable_lib").unwrap().source,
        explicit("work")
    );
}

#[test]
fn lib_config_path_maps_lib_id_under_libs() {
    let path = lib_config_path(&Sym::qualified("sim", "cookbook")).unwrap();
    assert_eq!(path, "libs/sim/cookbook.toml");
}

#[test]
fn lib_config_path_rejects_unsafe_segments() {
    let error = lib_config_path(&Sym::new("..")).unwrap_err();
    assert_eq!(error, ConfigError::InvalidPathSegment { segment: "..".to_owned() });
}

#[test]
fn lib_config_path_replaces_a_dotted_extension() {
    assert_eq!(lib_config_path(&Sym::qualified("codec", "v1.2")).unwrap(), "libs/codec/v1.toml");
    assert_eq!(lib_config_path(&Sym::new("solo")).unwrap(), "libs/solo.toml");
    assert_eq!(
        lib_config_path(&Sym::qualified("sim", "a b")).unwrap_err(),
        ConfigError::InvalidPathSegment { segment: "a b".to_owned() }
    );
}

struct FakeProbe {
    symbol: Sym,
}

impl ConfigProbe for FakeProbe {
    fn symbol(&self) -> Sym {
        self.symbol.clone()
    }

    fn probe(&self, request: &ConfigProbeRequest) -> (Option<ConfigLayer>, ConfigProbeReport) {
        let layer = ConfigLayer::new(
            ConfigSource::Probe { probe: self.symbol(), mode: request.mode },
            ConfigDir::one(
                request.lib.clone(),
                ConfigExpr::Table(vec![(sym("backend"), ConfigExpr::String("modeled".to_owned()))]),
            )
            .unwrap(),
        );
        let report = ConfigProbeReport {
            probe: self.symbol(),
            lib: request.lib.clone(),
            mode: request.mode,
            status: ConfigProbeStatus::Applied,
            emitted_keys: vec!["backend".to_owned()],
        };
        (Some(layer), report)
    }
}

#[test]
fn probe_returns_optional_layer_and_typed_report() {
    let probe = FakeProbe { symbol: Sym::qualified("config", "fake") };
    let request = ConfigProbeRequest {
        lib: Sym::qualified("stream", "host"),
        mode: ProbeMode::default(),
        caps: ConfigProbeCaps::default(),
    };

    let (layer, report) = probe.probe(&request);

    assert_eq!(report.probe, Sym::qualified("config", "fake"));
    assert_eq!(report.lib, Sym::qualified("stream", "host"));
    assert_eq!(report.mode, ProbeMode::Modeled);
    assert_eq!(report.status, ConfigProbeStatus::Applied);
    assert_eq!(report.emitted_keys, vec!["backend".to_owned()]);
    let layer = layer.unwrap();
    assert_eq!(
        layer.source,
        ConfigSource::Probe { probe: Sym::qualified("config", "fake"), mode: ProbeMode::Modeled }
    );
    assert!(layer.dir.table(&Sym::qualified("stream", "host")).is_some());
}

#[test]
fn report_projects_trace_entries() {
    let dir = ConfigDir::one(lib(), map(vec![("mode", text("built-in"))])).unwrap();
    let effective = merge_layers(&[ConfigLayer::new(ConfigSource::BuiltIn { lib: lib() }, dir)]);

    let report = ConfigReport::from_effective(&effective);

    assert_eq!(
        report.entries,
        vec![ConfigReportEntry { lib: lib(), key: "mode".to_owned(), source: "built-in:sim/cookbook".to_owned() }]
    );
}

#[test]
fn report_labels_each_source_kind() {
    let sources = vec![
        (ConfigSource::Probe { probe: Sym::qualified("config", "fake"), mode: ProbeMode::Real }, "probe:config/fake:Real"),
        (ConfigSource::HomeFile { path: "/h/sim.toml".to_owned() }, "home-file:/h/sim.toml"),
        (ConfigSource::WorkFile { path: "w.toml".to_owned() }, "work-file:w.toml"),
        (ConfigSource::SingleFile { path: "sim.toml".to_owned() }, "single-file:sim.toml"),
        (ConfigSource::Site { site: Sym::new("site") }, "site:site"),
        (explicit("cli"), "explicit:cli"),
    ];
    for (source, label) in sources {
        let effective = merge_layers(&[ConfigLayer::new(source, ConfigDir::one(lib(), map(vec![("a", text("1"))])).unwrap())]);
        assert_eq!(ConfigReport::from_effective(&effective).entries[0].source, label);
    }
}

#[test]
fn repeated_layers_record_one_trace_entry_per_field() {
    let a = ConfigDir::one(lib(), map(vec![("mode", text("a")), ("keep", text("k"))])).unwrap();
    let b = ConfigDir::one(lib(), map(vec![("mode", text("b"))])).unwrap();
    let effective = merge_layers(&[
        ConfigLayer::new(explicit("first"), a),
        ConfigLayer::new(explicit("second"), b),
    ]);
    assert_eq!(effective.trace.len(), 2);
    assert_eq!(effective.trace[0].key, "mode");
    assert_eq!(effective.trace[0].source, explicit("second"));
    assert_eq!(effective.trace[1].source, explicit("first"));
}

fn model_lib() -> Sym {
    Sym::qualified("model", "defaults")
}

fn model_shape() -> ConfigShape {
    let contract = TableContract::new(
        Sym::qualified("test", "closed-config-table"),
        vec![
            FieldSpec::required("provider", FieldShape::Kind(ValueKind::String)),
            FieldSpec::required("enabled", FieldShape::Kind(ValueKind::Bool)),
            FieldSpec::optional("api_key", FieldShape::Kind(ValueKind::String)),
        ],
    );
    let defaults =
        ConfigTable::new(model_lib(), map(vec![("provider", text("modeled")), ("enabled", ConfigExpr::Bool(true))]))
            .unwrap();
    ConfigShape::new(model_lib(), contract, defaults).with_secret_keys(vec!["api_key".to_owned(), "api_key".to_owned()])
}

#[test]
fn validate_binds_built_in_defaults() {
    let table = ConfigTable::new(model_lib(), map(vec![("provider", text("openai"))])).unwrap();

    let effective = model_shape().validate(&table).unwrap();

    assert_eq!(field_any(&effective.table, "provider"), Some(&ConfigExpr::String("openai".to_owned())));
    assert_eq!(field_any(&effective.table, "enabled"), Some(&ConfigExpr::Bool(true)));
}

#[test]
fn validate_rejects_unknown_fields_with_shape_report() {
    let table =
        ConfigTable::new(model_lib(), map(vec![("provider", text("openai")), ("typo", text("bad"))])).unwrap();

    let report = model_shape().validate(&table).unwrap_err();

    assert!(report.contains("extra key typo"));
}

#[test]
fn secret_fields_are_shape_metadata_and_deduped() {
    let shape = model_shape().with_secret_keys(vec!["api_key".to_owned(), "token".to_owned(), "api_key".to_owned()]);

    assert!(shape.marks_secret("api_key"));
    assert!(!shape.marks_secret("provider"));
    assert_eq!(
        shape.secret_fields(),
        vec![
            ConfigSecretField { lib: model_lib(), key: "api_key".to_owned() },
            ConfigSecretField { lib: model_lib(), key: "token".to_owned() }
        ]
    );
}

#[test]
fn scalar_kind_errors_are_shape_reports() {
    let table =
        ConfigTable::new(model_lib(), map(vec![("provider", text("openai")), ("enabled", text("yes"))])).unwrap();

    let report = model_shape().validate(&table).unwrap_err();

    assert!(report.contains("enabled expected bool"));
}

#[test]
fn validate_refuses_tables_of_another_library() {
    let table = ConfigTable::new(lib(), map(vec![("provider", text("openai"))])).unwrap();
    assert_eq!(
        model_shape().validate(&table).unwrap_err(),
        "config table for `sim/cookbook` cannot validate as `model/defaults`"
    );
}

struct DemoLib;

impl LibConfigDefaults for DemoLib {
    fn config_shape(&self) -> ConfigShape {
        model_shape()
    }
}

#[test]
fn loadable_lib_defaults_publish_built_in_layer() {
    let layer = DemoLib.built_in_config_layer();

    assert_eq!(layer.source, ConfigSource::BuiltIn { lib: model_lib() });
    assert!(layer.dir.table(&model_lib()).is_some());
}

#[test]
fn dir_expr_accepts_symbol_and_string_keys() {
    let expr = ConfigExpr::Table(vec![
        (ConfigExpr::Symbol(Sym::qualified("sim", "cookbook")), map(vec![("minimum_loaded", ConfigExpr::List(vec![]))])),
        (ConfigExpr::String("stream/host".to_owned()), map(vec![("audio_backend_regex", text("modeled"))])),
    ]);

    let dir = ConfigDir::from_dir_expr(&expr).unwrap();

    assert!(dir.table(&Sym::qualified("sim", "cookbook")).is_some());
    assert!(dir.table(&Sym::qualified("stream", "host")).is_some());
}

#[test]
fn dir_expr_canonicalizes_single_symbol_slash_spelling() {
    let expr = ConfigExpr::Table(vec![(
        ConfigExpr::Symbol(Sym::new("sim/cookbook")),
        map(vec![("minimum_loaded", ConfigExpr::List(vec![]))]),
    )]);

    let dir = ConfigDir::from_dir_expr(&expr).unwrap();

    assert_eq!(dir.entries[0].lib, Sym::qualified("sim", "cookbook"));
}

#[test]
fn config_dir_one_emits_canonical_symbol_key() {
    let dir = ConfigDir::one(Sym::new("sim/cookbook"), map(vec![("minimum_loaded", ConfigExpr::List(vec![]))])).unwrap();

    assert_eq!(
        dir.to_expr(),
        ConfigExpr::Table(vec![(
            ConfigExpr::Symbol(Sym::qualified("sim", "cookbook")),
            map(vec![("minimum_loaded", ConfigExpr::List(vec![]))]),
        )])
    );
}

#[test]
fn dir_expr_rejects_non_table_entries() {
    let expr = ConfigExpr::Table(vec![(ConfigExpr::String("sim/cookbook".to_owned()), ConfigExpr::Nil)]);

    let error = ConfigDir::from_dir_expr(&expr).unwrap_err();

    assert_eq!(error, ConfigError::NonTableConfig { lib: Sym::qualified("sim", "cookbook") });
}

#[test]
fn dir_expr_rejects_empty_library_ids() {
    let expr = ConfigExpr::Table(vec![(ConfigExpr::String(String::new()), map(vec![]))]);

    let error = ConfigDir::from_dir_expr(&expr).unwrap_err();

    assert_eq!(error, ConfigError::InvalidLibId { id: String::new() });
}

#[test]
fn dir_expr_rejects_repeated_slashes() {
    let expr = ConfigExpr::Table(vec![(
        ConfigExpr::String("sim//cookbook".to_owned()),
        map(vec![("minimum_loaded", ConfigExpr::List(vec![]))]),
    )]);

    let error = ConfigDir::from_dir_expr(&expr).unwrap_err();

    assert_eq!(error, ConfigError::InvalidLibId { id: "sim//cookbook".to_owned() });
}

#[test]
fn dir_expr_rejects_duplicate_equivalent_library_ids() {
    let expr = ConfigExpr::Table(vec![
        (ConfigExpr::String("sim/cookbook".to_owned()), map(vec![("minimum_loaded", ConfigExpr::List(vec![]))])),
        (ConfigExpr::Symbol(Sym::new("sim/cookbook")), map(vec![("minimum_loaded", ConfigExpr::List(vec![]))])),
    ]);

    let error = ConfigDir::from_dir_expr(&expr).unwrap_err();

    assert_eq!(error, ConfigError::DuplicateLibId { lib: Sym::qualified("sim", "cookbook") });
}

#[test]
fn dir_expr_rejects_non_map_dirs_and_unsupported_keys() {
    assert_eq!(ConfigDir::from_dir_expr(&ConfigExpr::Nil).unwrap_err(), ConfigError::NonDirExpr);
    let expr = ConfigExpr::Table(vec![(ConfigExpr::Bool(true), map(vec![]))]);
    assert_eq!(
        ConfigDir::from_dir_expr(&expr).unwrap_err(),
        ConfigError::UnsupportedDirKey { key: ConfigExpr::Bool(true) }
    );
}

#[test]
fn table_rejects_duplicate_equivalent_field_keys() {
    let table = ConfigExpr::Table(vec![
        (ConfigExpr::Symbol(Sym::new("mode")), text("built-in")),
        (ConfigExpr::String("mode".to_owned()), text("work")),
    ]);

    let error = ConfigTable::new(Sym::qualified("sim", "cookbook"), table).unwrap_err();

    assert_eq!(error, ConfigError::DuplicateField { key: "mode".to_owned() });
}

#[test]
fn table_rejects_duplicate_equivalent_nested_field_keys() {
    let table = ConfigExpr::Table(vec![(
        ConfigExpr::Symbol(Sym::new("settings")),
        ConfigExpr::Table(vec![
            (ConfigExpr::Symbol(Sym::new("mode")), text("built-in")),
            (ConfigExpr::String("mode".to_owned()), text("work")),
        ]),
    )]);

    let error = ConfigTable::new(Sym::qualified("sim", "cookbook"), table).unwrap_err();

    assert_eq!(error, ConfigError::DuplicateField { key: "mode".to_owned() });
}

#[test]
fn table_rejects_non_maps_and_control_characters() {
    assert_eq!(ConfigTable::new(lib(), ConfigExpr::Nil).unwrap_err(), ConfigError::NonTableExpr);
    assert!(matches!(
        ConfigTable::new(Sym::new("bad\u{1}id"), map(vec![])).unwrap_err(),
        ConfigError::InvalidLibId { .. }
    ));
    assert_eq!(lib_symbol_from_str("plain").unwrap(), Sym::new("plain"));
    assert_eq!(lib_symbol_from_str("a/b/c").unwrap_err(), ConfigError::InvalidLibId { id: "a/b/c".to_owned() });
    assert_eq!(lib_symbol_from_str("/b").unwrap_err(), ConfigError::InvalidLibId { id: "/b".to_owned() });
}

#[test]
fn view_reads_typed_fields() {
    let table = ConfigTable::new(
        Sym::qualified("model", "defaults"),
        map(vec![("provider", text("modeled")), ("enabled", ConfigExpr::Bool(true)), ("limit", i64_value(3))]),
    )
    .unwrap();
    let view = ConfigView::new(&table);

    assert_eq!(view.required_string("provider").unwrap(), "modeled");
    assert!(view.required_bool("enabled").unwrap());
    assert_eq!(view.required_i64("limit").unwrap(), 3);
    assert_eq!(
        view.required_string("limit").unwrap_err(),
        ConfigError::TypeMismatch { key: "limit".to_owned(), expected: "a string" }
    );
    assert_eq!(view.required_bool("absent").unwrap_err(), ConfigError::MissingField { key: "absent".to_owned() });
}

#[test]
fn view_reads_string_keyed_config_fields() {
    let table = ConfigTable::new(
        Sym::qualified("model", "defaults"),
        ConfigExpr::Table(vec![
            (ConfigExpr::String("provider".to_owned()), text("modeled")),
            (ConfigExpr::String("limit".to_owned()), i64_value(3)),
        ]),
    )
    .unwrap();
    let view = ConfigView::new(&table);

    assert_eq!(view.required_string("provider").unwrap(), "modeled");
    assert_eq!(view.required_i64("limit").unwrap(), 3);
}

#[test]
fn view_reads_string_arrays_and_repeated_tables() {
    let table = ConfigTable::new(
        Sym::qualified("sim", "cookbook"),
        map(vec![
            ("minimum_loaded", list(vec![text("codec/lisp"), text("numbers/i64")])),
            (
                "loadable_lib",
                list(vec![
                    map(vec![("id", text("numbers/i64")), ("source", text("symbol:numbers/i64"))]),
                    map(vec![("id", text("numbers/cas")), ("source", text("symbol:numbers/cas"))]),
                ]),
            ),
        ]),
    )
    .unwrap();
    let view = ConfigView::new(&table);

    assert_eq!(view.string_array("minimum_loaded").unwrap(), ["codec/lisp", "numbers/i64"]);
    let loadable = view.tables("loadable_lib").unwrap();
    assert_eq!(loadable.len(), 2);
    assert_eq!(loadable[0].string("id"), Some("numbers/i64"));
    assert_eq!(loadable[1].string("source"), Some("symbol:numbers/cas"));
    assert!(view.string_array("missing").unwrap().is_empty());
    assert!(view.tables("missing").unwrap().is_empty());
}

#[test]
fn view_reports_array_shape_errors() {
    let table = ConfigTable::new(
        Sym::qualified("sim", "cookbook"),
        map(vec![("minimum_loaded", text("codec/lisp")), ("loadable_lib", list(vec![text("bad")]))]),
    )
    .unwrap();
    let view = ConfigView::new(&table);

    assert_eq!(
        view.string_array("minimum_loaded").unwrap_err(),
        ConfigError::TypeMismatch { key: "minimum_loaded".to_owned(), expected: "a string list" }
    );
    assert_eq!(
        view.tables("loadable_lib").unwrap_err(),
        ConfigError::TypeMismatch { key: "loadable_lib[0]".to_owned(), expected: "a table" }
    );
}

#[test]
fn config_error_messages_name_the_field_and_library() {
    assert_eq!(
        ConfigError::MissingField { key: "mode".to_owned() }.message(),
        "config field `mode` is missing"
    );
    assert_eq!(
        ConfigError::TypeMismatch { key: "limit".to_owned(), expected: "an i64" }.message(),
        "config field `limit` is not an i64"
    );
    assert_eq!(
        ConfigError::NonTableConfig { lib: Sym::qualified("sim", "cookbook") }.message(),
        "config for `sim/cookbook` must be a table"
    );
    assert_eq!(ConfigError::NonDirExpr.message(), "config dir must be an Expr::Map");
    assert_eq!(
        ConfigError::InvalidPathSegment { segment: "..".to_owned() }.message(),
        "invalid config path segment `..`"
    );
}
