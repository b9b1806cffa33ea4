use sim_foundation::cookbook::toml_lite::{parse, TomlValue};



#[test]
fn parses_scalars_and_arrays() {
    let doc = parse(
        r#"
        # a comment
        id = "add"        # trailing comment
        order = 100
        flag = true
        tags = ["a", "b"]
        empty = []
        "#,
    )
    .unwrap();
    assert_eq!(doc.get("id").unwrap().as_str().unwrap(), "add");
    assert_eq!(doc.get("order").unwrap().as_int().unwrap(), 100);
    assert_eq!(doc.get("flag").unwrap(), &TomlValue::Bool(true));
    assert_eq!(doc.get("tags").unwrap().as_array().unwrap(), &["a", "b"]);
    assert!(doc.get("empty").unwrap().as_array().unwrap().is_empty());
}

#[test]
fn parses_multiline_string_arrays_with_comments_and_trailing_comma() {
    let doc = parse(
        r#"
        chapters = [
          "01-basics",
          "02-techniques", # retained ordering
          "bracket-]--inside-string",
        ]
        title = "Book"
        "#,
    )
    .unwrap();
    assert_eq!(
        doc.get("chapters").unwrap().as_array().unwrap(),
        ["01-basics", "02-techniques", "bracket-]--inside-string"]
    );
    assert_eq!(doc.get("title").unwrap().as_str().unwrap(), "Book");
}

#[test]
fn parses_named_tables() {
    let doc = parse("title = \"x\"\n[[expect]]\nform = 0\nresult = \"3\"\n").unwrap();
    let expect = doc.tables_named("expect");
    assert_eq!(expect.len(), 1);
    assert_eq!(expect[0][0].0, "form");
    assert_eq!(expect[0][1].1.as_str().unwrap(), "3");
    assert!(doc.reject_unknown_tables(&["expect"]).is_ok());
    assert!(doc.reject_unknown_tables(&[]).is_err());
}

#[test]
fn parses_multiple_named_tables() {
    let doc =
        parse("[[hide]]\nrecipe = \"a\"\n[[reorder]]\nrecipe = \"b\"\norder = 1\n").unwrap();
    assert_eq!(doc.tables_named("hide").len(), 1);
    assert_eq!(doc.tables_named("reorder").len(), 1);
}

#[test]
fn hash_inside_string_is_kept() {
    let doc = parse("title = \"a # b\"\n").unwrap();
    assert_eq!(doc.get("title").unwrap().as_str().unwrap(), "a # b");
}

#[test]
fn rejects_unterminated_string() {
    assert!(parse("id = \"oops\n").is_err());
}

#[test]
fn rejects_unknown_table() {
    let err = parse("[server]\n").unwrap_err();
    assert!(err.contains("unsupported table header"));
}

#[test]
fn reject_unknown_top_flags_extra_keys() {
    let doc = parse("id = \"x\"\nbogus = 1\n").unwrap();
    assert!(doc.reject_unknown_top(&["id"]).is_err());
    assert!(doc.reject_unknown_top(&["id", "bogus"]).is_ok());
}

#[test]
fn errors_name_the_line_they_are_on() {
    let err = parse("a = 1\n\n[table]\n").unwrap_err();
    assert!(err.starts_with("line 3: unsupported table header `[table]`"), "{err}");
}
