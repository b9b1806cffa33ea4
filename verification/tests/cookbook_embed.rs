use sim_foundation::cookbook::embed::{humanize, recipes_from_embedded};
use sim_foundation::cookbook::manifest::{self, DEFAULT_ORDER};



fn fixture() -> Vec<(&'static str, &'static [u8])> {
    vec![
        (
            "book.toml",
            b"book = \"numbers-f64\"\ntitle = \"Numbers (f64)\"\norder = 200\nchapters = [\"01-basics\", \"02-rounding\"]\n" as &[u8],
        ),
        (
            "01-basics/add/recipe.toml",
            b"id = \"add\"\ntitle = \"Add\"\ncodec = \"lisp\"\nsetup = \"setup.siml\"\npurpose = \"purpose.md\"\norder = 100\n[[expect]]\nform = 0\nresult = \"3\"\n",
        ),
        ("01-basics/add/setup.siml", b"(+ 1 2)"),
        ("01-basics/add/setup.rs", b"// auxiliary setup source"),
        ("01-basics/add/purpose.md", b"Add two numbers."),
        (
            "02-rounding/round/recipe.toml",
            b"id = \"round\"\ntitle = \"Round\"\ncodec = \"lisp\"\nsetup = \"s.siml\"\npurpose = \"p.md\"\n",
        ),
        ("02-rounding/round/s.siml", b"(round 1.5)"),
        ("02-rounding/round/p.md", b"Round to even."),
    ]
}

#[test]
fn parses_two_chapters() {
    let cards = recipes_from_embedded(&fixture()).unwrap();
    assert_eq!(cards.len(), 2);
    let add = cards.iter().find(|c| c.id.ends_with("/add")).unwrap();
    assert_eq!(add.id, "numbers-f64/01-basics/add");
    assert_eq!(add.book_title, "Numbers (f64)");
    assert_eq!(add.book_order, 200);
    assert_eq!(add.chapter_title, "Basics"); // humanized from 01-basics
    assert_eq!(add.chapter_order, 100); // first in book.chapters
    assert_eq!(add.setup, b"(+ 1 2)");
    assert_eq!(add.purpose, "Add two numbers.");
    assert_eq!(add.requires, ["numbers-f64"]); // defaulted to owning lib
    assert_eq!(add.expect[0].result, "3");

    let round = cards.iter().find(|c| c.id.ends_with("/round")).unwrap();
    assert_eq!(round.chapter_order, 200); // second in book.chapters
    assert_eq!(round.order, DEFAULT_ORDER); // omitted -> default
}

#[test]
fn loads_the_legacy_schema_shipped_by_published_cookbooks() {
    let dir: Vec<(&str, &[u8])> = vec![
        (
            "book.toml",
            b"book = \"pitch-serial\"\ntitle = \"Pitch Serial\"\nchapters = [\n  \"01-basics\",\n  \"02-partitions\",\n]\n" as &[u8],
        ),
        (
            "02-partitions/partition-mosaic/recipe.toml",
            b"title = \"Analyze partitions\"\ncategory = \"Rust\"\ntags = [\"pitch\", \"serial\"]\nrequires = [\"pitch-serial\", \"pitch-core\"]\npurpose = \"purpose.md\"\n",
        ),
        (
            "02-partitions/partition-mosaic/setup.rs",
            b"pub fn partition_mosaic() {}",
        ),
        (
            "02-partitions/partition-mosaic/purpose.md",
            b"Analyze a row partition.",
        ),
    ];
    let cards = recipes_from_embedded(&dir).unwrap();
    assert_eq!(cards.len(), 1);
    assert_eq!(cards[0].id, "pitch-serial/02-partitions/partition-mosaic");
    assert_eq!(cards[0].codec, "rust");
    assert_eq!(cards[0].setup, b"pub fn partition_mosaic() {}");
    assert_eq!(cards[0].chapter_order, 200);
}

#[test]
fn legacy_defaults_do_not_weaken_authoring_validation() {
    let legacy = "title = \"Legacy\"\ncategory = \"Rust\"\npurpose = \"purpose.md\"\n";
    let error = manifest::parse_recipe(legacy).unwrap_err();
    assert!(error.contains("missing required key `id`"), "{error}");
}

#[test]
fn legacy_manifest_rejects_ambiguous_conventional_setups() {
    let dir: Vec<(&str, &[u8])> = vec![
        ("book.toml", b"book = \"b\"\ntitle = \"B\"\n" as &[u8]),
        (
            "c/r/recipe.toml",
            b"title = \"Legacy\"\ncategory = \"Rust\"\npurpose = \"purpose.md\"\n",
        ),
        ("c/r/setup.rs", b"fn main() {}"),
        ("c/r/setup.siml", b"(quote legacy)"),
        ("c/r/purpose.md", b"Legacy."),
    ];
    let error = recipes_from_embedded(&dir).unwrap_err();
    assert!(
        error.contains("ambiguous conventional setup files"),
        "{error}"
    );
}

#[test]
fn embedded_cards_use_manifest_ids_consistently() {
    let dir: Vec<(&str, &[u8])> = vec![
        ("book.toml", b"book = \"wasm\"\ntitle = \"Wasm\"\n" as &[u8]),
        (
            "01-basics/browser-facade/recipe.toml",
            b"id = \"frame-facade\"\ntitle = \"Frame facade\"\ncodec = \"lisp\"\nsetup = \"setup.siml\"\npurpose = \"purpose.md\"\n",
        ),
        ("01-basics/browser-facade/setup.siml", b"(quote frame-facade)"),
        ("01-basics/browser-facade/purpose.md", b"Frame facade."),
    ];
    let cards = recipes_from_embedded(&dir).unwrap();
    assert_eq!(cards[0].id, "wasm/01-basics/frame-facade");
}

#[test]
fn missing_book_toml_errors() {
    let err = recipes_from_embedded(&[("x/y/recipe.toml", b"")]).unwrap_err();
    assert!(err.contains("missing book.toml"), "{err}");
}

#[test]
fn missing_setup_file_errors() {
    let dir: Vec<(&str, &[u8])> = vec![
        ("book.toml", b"book = \"b\"\ntitle = \"B\"\n"),
        (
            "c/r/recipe.toml",
            b"id = \"r\"\ntitle = \"R\"\ncodec = \"lisp\"\nsetup = \"setup.siml\"\npurpose = \"p.md\"\n",
        ),
        ("c/r/p.md", b"x"),
    ];
    let err = recipes_from_embedded(&dir).unwrap_err();
    assert!(
        err.contains("setup file `setup.siml` not embedded"),
        "{err}"
    );
}

#[test]
fn missing_purpose_file_errors() {
    let dir: Vec<(&str, &[u8])> = vec![
        ("book.toml", b"book = \"b\"\ntitle = \"B\"\n"),
        (
            "c/r/recipe.toml",
            b"id = \"r\"\ntitle = \"R\"\ncodec = \"lisp\"\nsetup = \"setup.siml\"\npurpose = \"purpose.md\"\n",
        ),
        ("c/r/setup.siml", b"(quote r)"),
    ];
    let err = recipes_from_embedded(&dir).unwrap_err();
    assert!(
        err.contains("purpose file `purpose.md` not embedded"),
        "{err}"
    );
}

#[test]
fn unsafe_embedded_recipe_paths_fail_before_lookup() {
    let dir: Vec<(&str, &[u8])> = vec![
        ("book.toml", b"book = \"b\"\ntitle = \"B\"\n"),
        (
            "c/r/recipe.toml",
            b"id = \"r\"\ntitle = \"R\"\ncodec = \"lisp\"\nsetup = \"../setup.siml\"\npurpose = \"purpose.md\"\n",
        ),
        ("c/r/setup.siml", b"(quote r)"),
        ("c/r/purpose.md", b"Purpose."),
    ];
    let err = recipes_from_embedded(&dir).unwrap_err();
    assert!(err.contains("`setup` must not contain `..`"), "{err}");
}

#[test]
fn duplicate_recipe_ids_fail_even_when_dirs_differ() {
    let dir: Vec<(&str, &[u8])> = vec![
        ("book.toml", b"book = \"b\"\ntitle = \"B\"\n" as &[u8]),
        (
            "c/one/recipe.toml",
            b"id = \"dup\"\ntitle = \"One\"\ncodec = \"lisp\"\nsetup = \"setup.siml\"\npurpose = \"purpose.md\"\n",
        ),
        ("c/one/setup.siml", b"(quote one)"),
        ("c/one/purpose.md", b"One."),
        (
            "c/two/recipe.toml",
            b"id = \"dup\"\ntitle = \"Two\"\ncodec = \"lisp\"\nsetup = \"setup.siml\"\npurpose = \"purpose.md\"\n",
        ),
        ("c/two/setup.siml", b"(quote two)"),
        ("c/two/purpose.md", b"Two."),
    ];
    let err = recipes_from_embedded(&dir).unwrap_err();
    assert!(err.contains("duplicate recipe id `dup`"), "{err}");
}

#[test]
fn humanize_strips_numeric_prefix() {
    assert_eq!(humanize("01-basics"), "Basics");
    assert_eq!(humanize("rounding"), "Rounding");
    assert_eq!(humanize("10-deep-dive"), "Deep dive");
}

#[test]
fn ambiguous_setups_are_listed_in_path_order() {
    let dir: Vec<(&str, &[u8])> = vec![
        ("book.toml", b"book = \"b\"\ntitle = \"B\"\n" as &[u8]),
        ("c/r/setup.siml", b"(quote legacy)"),
        (
            "c/r/recipe.toml",
            b"title = \"Legacy\"\ncategory = \"Rust\"\npurpose = \"purpose.md\"\n",
        ),
        ("c/r/setup.rs", b"fn main() {}"),
        ("c/r/purpose.md", b"Legacy."),
    ];
    let error = recipes_from_embedded(&dir).unwrap_err();
    assert!(
        error.ends_with("ambiguous conventional setup files: setup.rs, setup.siml"),
        "{error}"
    );
}
