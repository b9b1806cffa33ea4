use sim_foundation::cookbook::model::RecipeSource;
use sim_foundation::cookbook::overlay::{apply_directives, load_overlay_files, parse_overlay, OverlayDirectives};
use sim_foundation::cookbook::project::view;
use sim_foundation::cookbook::store::RecipeStore;




fn base_store() -> RecipeStore {
    let alpha: Vec<(&str, &[u8])> = vec![
        (
            "book.toml",
            b"book = \"alpha\"\ntitle = \"Alpha\"\norder = 100\n" as &[u8],
        ),
        (
            "01-basics/add/recipe.toml",
            b"id = \"add\"\ntitle = \"Add\"\ncodec = \"lisp\"\nsetup = \"s\"\npurpose = \"p\"\norder = 100\n",
        ),
        ("01-basics/add/s", b"(+ 1 2)"),
        ("01-basics/add/p", b"add"),
        (
            "01-basics/sub/recipe.toml",
            b"id = \"sub\"\ntitle = \"Subtract\"\ncodec = \"lisp\"\nsetup = \"s\"\npurpose = \"p\"\norder = 200\n",
        ),
        ("01-basics/sub/s", b"(- 3 1)"),
        ("01-basics/sub/p", b"sub"),
    ];
    let mut store = RecipeStore::new();
    store.register_book(&alpha).unwrap();
    store
}

#[test]
fn parse_overlay_reads_all_directives() {
    let d = parse_overlay(
        "[[reorder]]\nrecipe = \"alpha/01-basics/sub\"\norder = 1\n[[hide]]\nrecipe = \"alpha/01-basics/add\"\n[[retitle]]\nrecipe = \"alpha/01-basics/sub\"\ntitle = \"Minus\"\n",
    )
    .unwrap();
    assert_eq!(d.reorder, [("alpha/01-basics/sub".to_string(), 1)]);
    assert_eq!(d.hide, ["alpha/01-basics/add"]);
    assert_eq!(
        d.retitle,
        [("alpha/01-basics/sub".to_string(), "Minus".to_string())]
    );
}

#[test]
fn hide_reorder_retitle_apply() {
    let mut store = base_store();
    let directives = OverlayDirectives {
        reorder: vec![("alpha/01-basics/sub".to_string(), 1)],
        hide: vec!["alpha/01-basics/add".to_string()],
        retitle: vec![("alpha/01-basics/sub".to_string(), "Minus".to_string())],
    };
    apply_directives(&mut store, &directives);
    assert!(store.card("alpha/01-basics/add").is_none()); // hidden
    let sub = store.card("alpha/01-basics/sub").unwrap();
    assert_eq!(sub.order, 1); // reordered
    assert_eq!(sub.title, "Minus"); // retitled
}

#[test]
fn overlay_adds_to_foreign_book_and_applies_directives() {
    // Same book id "alpha" -> merges into the existing book.
    let tree: Vec<(&str, &[u8])> = vec![
        ("99-extra/mul/p", b"multiply" as &[u8]),
        (
            "99-extra/mul/recipe.toml",
            b"id = \"mul\"\ntitle = \"Multiply\"\ncodec = \"lisp\"\nsetup = \"s\"\npurpose = \"p\"\norder = 100\n",
        ),
        ("99-extra/mul/s", b"(* 2 3)"),
        ("book.toml", b"book = \"alpha\"\ntitle = \"Alpha\"\norder = 100\n"),
    ];
    let overlay = Some(Ok("[[hide]]\nrecipe = \"alpha/01-basics/sub\"\n".to_owned()));

    let mut store = base_store();
    load_overlay_files(&mut store, &tree, "/tmp/overlay-root", overlay).unwrap();

    // The overlay recipe joined book "alpha".
    let mul = store.card("alpha/99-extra/mul").unwrap();
    assert_eq!(
        mul.source,
        RecipeSource::Overlay {
            path: "/tmp/overlay-root".to_owned()
        }
    );
    // The directive hid sub.
    assert!(store.card("alpha/01-basics/sub").is_none());
    // The view shows alpha with two chapters (01-basics add, 99-extra mul).
    let view = view(&store);
    assert_eq!(view.books.len(), 1);
    let chapters: Vec<&str> = view.books[0]
        .chapters
        .iter()
        .map(|c| c.name.as_str())
        .collect();
    assert_eq!(chapters, ["01-basics", "99-extra"]);
}

#[test]
fn overlay_recipe_overrides_crate_recipe_by_id() {
    let tree: Vec<(&str, &[u8])> = vec![
        ("01-basics/add/p", b"overridden" as &[u8]),
        (
            "01-basics/add/recipe.toml",
            b"id = \"add\"\ntitle = \"Overridden Add\"\ncodec = \"lisp\"\nsetup = \"s\"\npurpose = \"p\"\n",
        ),
        ("01-basics/add/s", b"(+ 9 9)"),
        ("book.toml", b"book = \"alpha\"\ntitle = \"Alpha\"\norder = 100\n"),
    ];
    let mut store = base_store();
    assert_eq!(store.len(), 2);
    load_overlay_files(&mut store, &tree, "/tmp/overlay-root", None).unwrap();
    assert_eq!(store.len(), 2); // upsert, not append
    assert_eq!(
        store.card("alpha/01-basics/add").unwrap().title,
        "Overridden Add"
    );
}

#[test]
fn missing_overlay_dir_is_noop() {
    let mut store = base_store();
    load_overlay_files(&mut store, &[], "/nonexistent/sim/cookbook", None).unwrap();
    assert_eq!(store.len(), 2);
}

#[test]
fn overlay_errors_report_reads_and_bad_trees() {
    let mut store = base_store();
    let err = load_overlay_files(&mut store, &[], "/o", Some(Err("denied".to_owned()))).unwrap_err();
    assert_eq!(err, "denied");
    assert_eq!(store.len(), 2);

    let bad: Vec<(&str, &[u8])> = vec![("01-basics/add/s", b"(+ 1 1)" as &[u8])];
    assert!(load_overlay_files(&mut store, &bad, "/o", None).is_err());
    assert_eq!(store.len(), 2);

    assert!(load_overlay_files(&mut store, &[], "/o", Some(Ok("[[bogus]]\n".to_owned()))).is_err());
    assert_eq!(store.len(), 2);
}
