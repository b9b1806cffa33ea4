use sim_foundation::cookbook::store::RecipeStore;



fn book(id: &'static str) -> Vec<(&'static str, &'static [u8])> {
    // One tiny book whose lib id is `id`. We leak `id` into the embedded
    // strings via a fixed template per test input.
    match id {
        "alpha" => vec![
            ("book.toml", b"book = \"alpha\"\ntitle = \"Alpha\"\n" as &[u8]),
            (
                "c/r/recipe.toml",
                b"id = \"r\"\ntitle = \"R\"\ncodec = \"lisp\"\nsetup = \"s\"\npurpose = \"p\"\n",
            ),
            ("c/r/s", b"(quote a)"),
            ("c/r/p", b"alpha recipe"),
        ],
        _ => vec![
            ("book.toml", b"book = \"beta\"\ntitle = \"Beta\"\n" as &[u8]),
            (
                "c/r/recipe.toml",
                b"id = \"r\"\ntitle = \"R\"\ncodec = \"lisp\"\nsetup = \"s\"\npurpose = \"p\"\n",
            ),
            ("c/r/s", b"(quote b)"),
            ("c/r/p", b"beta recipe"),
        ],
    }
}

#[test]
fn registers_multiple_books() {
    let mut store = RecipeStore::new();
    store.register_book(&book("alpha")).unwrap();
    store.register_book(&book("beta")).unwrap();
    assert_eq!(store.len(), 2);
    assert!(store.card("alpha/c/r").is_some());
    assert!(store.card("beta/c/r").is_some());
}

#[test]
fn rejects_duplicate_book() {
    let mut store = RecipeStore::new();
    store.register_book(&book("alpha")).unwrap();
    let err = store.register_book(&book("alpha")).unwrap_err();
    assert!(err.contains("duplicate recipe id `alpha/c/r`"), "{err}");
}

#[test]
fn card_mut_edits_only_the_named_card() {
    let mut store = RecipeStore::new();
    store.register_book(&book("alpha")).unwrap();
    store.register_book(&book("beta")).unwrap();
    {
        let card = store.card_mut("beta/c/r").expect("card exists");
        card.order = 7;
        card.title = "Renamed".to_owned();
    }
    assert_eq!(store.card("beta/c/r").unwrap().order, 7);
    assert_eq!(store.card("beta/c/r").unwrap().title, "Renamed");
    assert_eq!(store.card("alpha/c/r").unwrap().title, "R");
    assert!(store.card_mut("gamma/c/r").is_none());
    assert_eq!(store.len(), 2);
}
