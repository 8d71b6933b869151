use slug::slugify;

#[test]
fn test_ascii_symbols() {
    assert_eq!(slugify("My Test String!!!1!1"), "My-Test-String-1-1");
    assert_eq!(slugify("You & Me"), "You-Me");
    assert_eq!(slugify("user@example.com"), "user-example-com");
}

#[test]
fn test_escape_char() {
    assert_eq!(slugify("test\nit   now!"), "test-it-now");
}

#[test]
fn test_empty_espaces_and_unecessary_dashes() {
    assert_eq!(slugify("  --test_-_cool"), "test-cool");
}

#[test]
fn test_utf8() {
    assert_eq!(slugify("Æúű--cool?"), "AEuu-cool");
}

#[test]
fn test_empty_input() {
    assert_eq!(slugify(""), "");
}

#[test]
fn test_all_punctuation() {
    assert_eq!(slugify("!!! ---  ??"), "");
}

#[test]
fn test_uppercase_preserved() {
    assert_eq!(slugify("ABC Def"), "ABC-Def");
}

#[test]
fn test_idempotent_on_slugs() {
    for s in ["My-Test-String-1-1", "You-Me", "user-example-com", "test-it-now", "abc", ""] {
        assert_eq!(slugify(s), s);
    }
    let once = slugify("Æúű--cool?");
    assert_eq!(slugify(&once), once);
}

#[test]
fn test_untransliterable_becomes_separator() {
    // U+10FFFF has no entry in the transliteration table.
    assert_eq!(slugify("x\u{10FFFF}y"), "x-y");
}

#[test]
fn test_output_character_class() {
    for s in ["My Test String!!!1!1", "  --test_-_cool", "Æúű--cool?", "北京 2024"] {
        let out = slugify(s);
        assert!(out.chars().all(|c| c.is_ascii_alphanumeric() || c == '-'));
        assert!(!out.starts_with('-'));
        assert!(!out.ends_with('-'));
        assert!(!out.contains("--"));
    }
}

#[test]
fn test_length_bound_on_ascii() {
    for s in ["My Test String!!!1!1", "", "a", "  --test_-_cool", "!!!"] {
        assert!(slugify(s).len() <= s.len());
    }
}

#[test]
fn test_multichar_transliteration() {
    // The transliterated fragment runs through the same separator logic.
    assert_eq!(slugify("Æ"), "AE");
    assert_eq!(slugify("北京"), "Bei-Jing");
}
