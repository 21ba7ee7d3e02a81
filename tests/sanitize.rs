use spacenotes::sanitize::sanitize_path;

#[test]
fn test_sanitize_ellipsis() {
    let input = "Sing the chorus low and ethereal over the intro before the current\u{2026}.md";
    let expected = "Sing the chorus low and ethereal over the intro before the current....md";
    assert_eq!(sanitize_path(input), expected);
}

#[test]
fn test_sanitize_smart_quotes() {
    let input = "folder/\u{201C}Smart\u{201D} quotes \u{2018}here\u{2019}.md";
    let expected = "folder/\"Smart\" quotes 'here'.md";
    assert_eq!(sanitize_path(input), expected);
}

#[test]
fn test_sanitize_dashes() {
    let input = "Note with\u{2014}em dash and\u{2013}en dash.md";
    let expected = "Note with-em dash and-en dash.md";
    assert_eq!(sanitize_path(input), expected);
}

#[test]
fn test_preserve_path_separators() {
    let input = "Development/Projects/My \u{201C}Project\u{201D}.md";
    let expected = "Development/Projects/My \"Project\".md";
    assert_eq!(sanitize_path(input), expected);
}

#[test]
fn test_replace_unknown_unicode() {
    let input = "Note with emoji \u{1F3B5} and symbols \u{A9}.md";
    let expected = "Note with emoji _ and symbols _.md";
    assert_eq!(sanitize_path(input), expected);
}

#[test]
fn test_clean_path_unchanged() {
    let input = "Development/Clean-File_Name.md";
    assert_eq!(sanitize_path(input), input);
}

#[test]
fn sanitize_is_idempotent_on_mixed_input() {
    let inputs = [
        "a/\u{2026}b\u{201C}c\u{2014}d\u{00E9}.md",
        "x\ty\nz#%&.md",
        "",
        "already/clean (1) [2], 'q' \"r\".md",
    ];
    for p in inputs {
        let once = sanitize_path(p);
        assert_eq!(sanitize_path(&once), once);
        assert!(once.chars().all(|c| c.is_ascii_alphanumeric() || "/. -_,()[]\"'".contains(c)));
    }
}

#[test]
fn sanitize_replaces_each_foreign_char() {
    assert_eq!(sanitize_path("\u{00E9}t\u{00E9}.md"), "_t_.md");
    assert_eq!(sanitize_path("a\\b:c*.md"), "a_b_c_.md");
}
