use sim_foundation::cookbook::manifest::{parse_book, parse_chapter, parse_recipe, DEFAULT_ORDER};
use sim_foundation::cookbook::model::Expectation;



const VALID_RECIPE: &str = r#"
id = "add-two-numbers"
title = "Add two numbers"
codec = "lisp"
setup = "setup.siml"
purpose = "purpose.md"
order = 100
tags = ["arithmetic", "intro"]
requires = ["numbers-f64"]
[[expect]]
form = 0
result = "3"
"#;

#[test]
fn parses_valid_recipe() {
    let m = parse_recipe(VALID_RECIPE).unwrap();
    assert_eq!(m.id, "add-two-numbers");
    assert_eq!(m.codec, "lisp");
    assert_eq!(m.order, 100);
    assert_eq!(m.tags, ["arithmetic", "intro"]);
    assert_eq!(
        m.expect,
        [Expectation {
            form: 0,
            result: "3".into()
        }]
    );
}

#[test]
fn recipe_order_defaults() {
    let m = parse_recipe(
        "id = \"x\"\ntitle = \"X\"\ncodec = \"lisp\"\nsetup = \"s\"\npurpose = \"p\"\n",
    )
    .unwrap();
    assert_eq!(m.order, DEFAULT_ORDER);
    assert!(m.tags.is_empty());
    assert!(m.requires.is_empty());
}

#[test]
fn missing_required_field_errors_clearly() {
    let err = parse_recipe("title = \"X\"\ncodec = \"lisp\"\n").unwrap_err();
    assert!(err.contains("missing required key `id`"), "{err}");
}

#[test]
fn empty_required_field_errors() {
    let err = parse_recipe(
        "id = \"\"\ntitle = \"X\"\ncodec = \"l\"\nsetup = \"s\"\npurpose = \"p\"\n",
    )
    .unwrap_err();
    assert!(err.contains("must not be empty"), "{err}");
}

#[test]
fn unknown_key_ignored_not_rejected() {
    // COOK8.00: unknown top-level keys are ignored so rich descriptors embed.
    let m = parse_recipe(
        "id = \"x\"\ntitle = \"X\"\ncodec = \"l\"\nsetup = \"s\"\npurpose = \"p\"\nbogus = 1\n",
    )
    .unwrap();
    assert_eq!(m.id, "x");
}

#[test]
fn appending_an_unknown_key_changes_neither_recipe_nor_refusal() {
    let base = "id = \"x\"\ntitle = \"X\"\ncodec = \"l\"\nsetup = \"s\"\npurpose = \"p\"\norder = 7\ntags = [\"a\",\n  \"b\"]\n";
    let with_key = format!("{base}bogus = 1\n");
    assert_eq!(parse_recipe(base), parse_recipe(&with_key));
    let missing = "id = \"x\"\ncodec = \"l\"\n";
    let missing_with_key = format!("{missing}bogus = 1\n");
    assert_eq!(parse_recipe(missing), parse_recipe(&missing_with_key));
    assert_eq!(parse_recipe(missing).unwrap_err(), "missing required key `title`");
}

#[test]
fn manifest_validate_for_dir_rejects_unsafe_paths() {
    let mut manifest = parse_recipe(
        "id = \"x\"\ntitle = \"X\"\ncodec = \"l\"\nsetup = \"../setup.siml\"\npurpose = \"/tmp/purpose.md\"\n",
    )
    .unwrap();
    let err = manifest.validate_for_dir().unwrap_err();
    assert!(
        err.iter()
            .any(|msg| msg.contains("`setup` must not contain `..`")),
        "{err:?}"
    );
    assert!(
        err.iter()
            .any(|msg| msg.contains("`purpose` must be a relative slash path")),
        "{err:?}"
    );

    manifest.setup = "nested\\setup.siml".to_string();
    manifest.purpose = "notes//purpose.md".to_string();
    let err = manifest.validate_for_dir().unwrap_err();
    assert!(
        err.iter()
            .any(|msg| msg.contains("`setup` must use `/` separators only")),
        "{err:?}"
    );
    assert!(
        err.iter()
            .any(|msg| msg.contains("`purpose` must not contain empty path components")),
        "{err:?}"
    );
}

#[test]
fn parses_rich_descriptor_keys() {
    // An `a30-*` descriptor carries a structured vocabulary beyond the core
    // recipe fields. It must parse (and thus embed) unchanged; the extra
    // keys are ignored, and the core fields still resolve.
    let rich = r#"
id = "a30-009-agentic-workflow"
title = "Agentic workflow"
codec = "lisp"
setup = "setup.siml"
purpose = "purpose.md"
order = 9
tags = ["30-agents", "sandbox-descriptor"]
requires = ["agent", "codec/lisp"]
recipe_number = 9
source_chapter = 7
architecture_family = "agentic-workflow"
runner_mode = "fake"
safety_posture = "offline"
capabilities = ["read-eval", "workflow-state"]
descriptor_shape = "agentic-workflow-trace"
assert_tags = ["30-agents", "chapter-07"]
assert_capabilities = ["read-eval"]
assert_setup_codec = "lisp"
expected = "expected.txt"
[[expect]]
form = 0
result = "(agentic-workflow-trace)"
"#;
    let m = parse_recipe(rich).unwrap();
    assert_eq!(m.id, "a30-009-agentic-workflow");
    assert_eq!(m.codec, "lisp");
    assert_eq!(m.order, 9);
    assert_eq!(m.requires, ["agent", "codec/lisp"]);
    assert_eq!(m.expect[0].result, "(agentic-workflow-trace)");
}

#[test]
fn parses_book_and_chapter() {
    let book = parse_book(
        "book = \"numbers-f64\"\ntitle = \"Numbers\"\norder = 200\nchapters = [\"01-basics\"]\n",
    )
    .unwrap();
    assert_eq!(book.book, "numbers-f64");
    assert_eq!(book.order, 200);
    assert_eq!(book.chapters, ["01-basics"]);

    let chapter = parse_chapter("title = \"Basics\"\norder = 10\n").unwrap();
    assert_eq!(chapter.title.as_deref(), Some("Basics"));
    assert_eq!(chapter.order, Some(10));
}

#[test]
fn chapter_unknown_key_ignored_not_rejected() {
    // COOK8.03: rich 30-agents chapters carry `tags` beyond the core chapter
    // fields; they must embed unchanged, so unknown keys are ignored.
    let chapter = parse_chapter(
        "title = \"30 Agents\"\norder = 20\nsummary = \"s\"\ntags = [\"30-agents\"]\n",
    )
    .unwrap();
    assert_eq!(chapter.title.as_deref(), Some("30 Agents"));
    assert_eq!(chapter.order, Some(20));
}

#[test]
fn expect_missing_result_errors() {
    let err = parse_recipe(
        "id = \"x\"\ntitle = \"X\"\ncodec = \"l\"\nsetup = \"s\"\npurpose = \"p\"\n[[expect]]\nform = 0\n",
    )
    .unwrap_err();
    assert!(err.contains("missing `result`"), "{err}");
}
