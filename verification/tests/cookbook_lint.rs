use sim_foundation::cookbook::embed_codegen::generate_embed_code;
use sim_foundation::cookbook::lint::{lint_recipe_files, lint_recipe_manifest, SetupProbe};
use sim_foundation::cookbook::manifest::Diagnostic;

const VALID_RECIPE: &str = r#"
id = "add-two-numbers"
title = "Add two numbers"
codec = "lisp"
setup = "setup.siml"
purpose = "purpose.md"
order = 100
tags = ["arithmetic", "intro"]
requires = ["numbers-f64"]
[[expect]]
form = 0
result = "3"
"#;

/// Lints an in-memory recipe directory `d`: `files` are the other files in
/// it, by relative path, with their text.
fn lint_files(recipe: &str, files: &[(&str, &str)], strict: bool) -> Result<(), Vec<Diagnostic>> {
    let recipe_path = "d/recipe.toml";
    let manifest = lint_recipe_manifest(recipe_path, Ok(recipe.to_owned()))?;
    let setup_path = format!("d/{}", manifest.setup);
    let setup = match files.iter().find(|(p, _)| *p == manifest.setup) {
        None => SetupProbe::Missing,
        Some((_, text)) if strict => SetupProbe::Read((*text).to_owned()),
        Some(_) => SetupProbe::Present,
    };
    let purpose_is_file = files.iter().any(|(p, _)| *p == manifest.purpose);
    lint_recipe_files(recipe_path, &manifest, &setup_path, setup, purpose_is_file, strict)
}

fn lint_dir(recipe: &str, files: &[(&str, &str)]) -> Result<(), Vec<Diagnostic>> {
    lint_files(recipe, files, false)
}

fn lint_dir_strict_no_quote(recipe: &str, files: &[(&str, &str)]) -> Result<(), Vec<Diagnostic>> {
    lint_files(recipe, files, true)
}

#[test]
fn lint_dir_accepts_complete_recipe() {
    let files = [("setup.siml", "(+ 1 2)"), ("purpose.md", "Add.")];
    assert!(lint_dir(VALID_RECIPE, &files).is_ok());
}

#[test]
fn lint_dir_reports_missing_setup_file() {
    let files = [("purpose.md", "Add.")];
    let problems = lint_dir(VALID_RECIPE, &files).unwrap_err();
    assert!(
        problems.iter().any(|d| d.message.contains("setup.siml")),
        "{problems:?}"
    );
    assert_eq!(problems.len(), 1);
    assert_eq!(problems[0].path, "d/recipe.toml");
    assert_eq!(problems[0].message, "setup file `setup.siml` does not exist");
}

#[test]
fn lint_dir_allows_manifest_id_that_differs_from_the_directory_name() {
    let recipe = VALID_RECIPE.replace("add-two-numbers", "frame-facade");
    let files = [("setup.siml", "(+ 1 2)"), ("purpose.md", "Add.")];
    assert!(lint_dir(&recipe, &files).is_ok());
}

#[test]
fn lint_dir_reports_parent_path_components() {
    let recipe = VALID_RECIPE.replace("setup.siml", "../setup.siml");
    let files = [("purpose.md", "Add.")];
    let problems = lint_dir(&recipe, &files).unwrap_err();
    assert!(
        problems
            .iter()
            .any(|d| d.message.contains("`setup` must not contain `..`")),
        "{problems:?}"
    );
}

#[test]
fn lint_dir_reports_absolute_and_backslash_paths() {
    let recipe = VALID_RECIPE
        .replace("setup.siml", "nested\\\\setup.siml")
        .replace("purpose.md", "/tmp/purpose.md");
    let problems = lint_dir(&recipe, &[]).unwrap_err();
    assert!(
        problems
            .iter()
            .any(|d| d.message.contains("`setup` must use `/` separators only")),
        "{problems:?}"
    );
    assert!(
        problems.iter().any(|d| d
            .message
            .contains("`purpose` must be a relative slash path")),
        "{problems:?}"
    );
}

#[test]
fn default_lint_allows_bare_quote_until_strict_gate_is_requested() {
    let files = [("setup.siml", "(quote add-two-numbers)"), ("purpose.md", "Add.")];
    assert!(lint_dir(VALID_RECIPE, &files).is_ok());
}

#[test]
fn strict_lint_reports_bare_quote_setups() {
    for (tag, setup) in [
        ("single-line-quote", "(quote add-two-numbers)"),
        ("spaced-quote", "  ( quote add-two-numbers)"),
        ("multi-line-quote", "\n(quote\n  add-two-numbers\n)"),
    ] {
        let files = [("setup.siml", setup), ("purpose.md", "Add.")];
        let problems = lint_dir_strict_no_quote(VALID_RECIPE, &files).unwrap_err();
        assert!(
            problems.iter().any(|d| {
                d.path.ends_with("setup.siml") && d.message.contains("must not be a bare quote")
            }),
            "{tag}: {problems:?}"
        );
    }
}

#[test]
fn strict_lint_accepts_operation_setups() {
    let files = [("setup.siml", "(+ 1 2)"), ("purpose.md", "Add.")];
    assert!(lint_dir_strict_no_quote(VALID_RECIPE, &files).is_ok());
}

#[test]
fn lint_reports_unreadable_and_unparsable_recipes() {
    let problems = lint_recipe_manifest("d/recipe.toml", Err("permission denied".to_owned())).unwrap_err();
    assert_eq!(problems.len(), 1);
    assert_eq!(problems[0].path, "d/recipe.toml");
    assert_eq!(problems[0].message, "cannot read recipe.toml: permission denied");

    let problems = lint_recipe_manifest("d/recipe.toml", Ok("id = \"x\"\n".to_owned())).unwrap_err();
    assert_eq!(problems.len(), 1);
    assert_eq!(problems[0].path, "d/recipe.toml");
}

#[test]
fn lint_reports_missing_purpose_and_unreadable_strict_setup() {
    let manifest = lint_recipe_manifest("d/recipe.toml", Ok(VALID_RECIPE.to_owned())).unwrap();
    let problems = lint_recipe_files(
        "d/recipe.toml",
        &manifest,
        "d/setup.siml",
        SetupProbe::Unreadable("busy".to_owned()),
        false,
        true,
    )
    .unwrap_err();
    assert_eq!(problems.len(), 2);
    assert_eq!(problems[0].path, "d/setup.siml");
    assert_eq!(problems[0].message, "cannot read setup file `setup.siml`: busy");
    assert_eq!(problems[1].path, "d/recipe.toml");
    assert_eq!(problems[1].message, "purpose file `purpose.md` does not exist");
    // Outside the strict gate an unreadable setup is not looked at.
    assert!(lint_recipe_files(
        "d/recipe.toml",
        &manifest,
        "d/setup.siml",
        SetupProbe::Unreadable("busy".to_owned()),
        true,
        false,
    )
    .is_ok());
}

#[test]
fn empty_dir_yields_empty_slice() {
    let code = generate_embed_code(&Vec::new());
    assert_eq!(code, "&[\n]\n");
}

#[test]
fn generates_sorted_include_bytes() {
    let files = vec![
        ("book.toml".to_owned(), "/r/book.toml".to_owned()),
        ("01-basics/add/recipe.toml".to_owned(), "/r/01-basics/add/recipe.toml".to_owned()),
    ];
    let code = generate_embed_code(&files);
    assert!(code.contains("\"01-basics/add/recipe.toml\""), "{code}");
    assert!(code.contains("\"book.toml\""), "{code}");
    assert!(code.contains("include_bytes!("), "{code}");
    // Entries are sorted by relative path: "01-basics/..." precedes
    // "book.toml" lexicographically, so the nested recipe comes first.
    let recipe_at = code.find("recipe.toml").unwrap();
    let book_at = code.find("book.toml").unwrap();
    assert!(recipe_at < book_at, "expected sorted order, got:\n{code}");
}

#[test]
fn embed_code_escapes_paths_as_string_literals() {
    let files = vec![("a\"b".to_owned(), "/r/a\"b".to_owned())];
    let code = generate_embed_code(&files);
    assert_eq!(
        code,
        "&[\n    (\"a\\\"b\", include_bytes!(\"/r/a\\\"b\") as &[u8]),\n]\n"
    );
}
