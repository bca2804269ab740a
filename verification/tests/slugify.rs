use urd_compiler::slugify::slugify;

#[test]
fn basic_slugification() {
    assert_eq!(slugify("The Rusty Anchor"), "the-rusty-anchor");
}

#[test]
fn strips_special_characters() {
    assert_eq!(slugify("Ask about the harbor!"), "ask-about-the-harbor");
}

#[test]
fn collapses_hyphens() {
    assert_eq!(slugify("foo - - bar"), "foo-bar");
}

#[test]
fn trims_leading_trailing_hyphens() {
    assert_eq!(slugify("- hello -"), "hello");
}

#[test]
fn already_slugified() {
    assert_eq!(slugify("cell"), "cell");
}

#[test]
fn empty_input() {
    assert_eq!(slugify(""), "");
}

#[test]
fn slugify_is_idempotent_on_examples() {
    for s in ["The Rusty Anchor", "  --Weird__ Name!! ", "Ünïcode Café 42", ""] {
        let once = slugify(s);
        assert_eq!(slugify(&once), once);
    }
}

#[test]
fn slug_holds_only_lowercase_digits_and_inner_hyphens() {
    let s = slugify("A -- B!! c_d 9");
    assert_eq!(s, "a-b-cd-9");
    assert!(!s.starts_with('-') && !s.ends_with('-') && !s.contains("--"));
}

#[test]
fn non_ascii_letters_are_dropped() {
    assert_eq!(slugify("Café Über"), "caf-ber");
}
