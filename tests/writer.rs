use spacenotes::note::Note;
use spacenotes::writer::{inside_vault, mtime_parts, note_file_text, WriteError};

fn note(id: &str, path: &str, fm: &str, body: &str) -> Note {
    Note::new(id.to_string(), path.to_string(), body.to_string(), fm.to_string(), body.len() as u64, 1, 2)
}

#[test]
fn file_text_without_header() {
    let n = note("abc", "a.md", "{}", "body");
    assert_eq!(note_file_text(&n), Ok("---\nspacetime_id: abc\n---\n\nbody".to_string()));
    let m = note("abc", "a.md", "", "body");
    assert_eq!(note_file_text(&m), Ok("---\nspacetime_id: abc\n---\n\nbody".to_string()));
}

#[test]
fn file_text_overrides_stale_id() {
    let n = note("new-id", "a.md", "{\"title\":\"T\",\"spacetime_id\":\"old\"}", "x");
    assert_eq!(note_file_text(&n), Ok("---\nspacetime_id: new-id\ntitle: T\n---\n\nx".to_string()));
}

#[test]
fn file_text_with_unparsable_header() {
    let n = note("abc", "a.md", "not json", "x");
    assert_eq!(note_file_text(&n), Ok("---\nspacetime_id: abc\n---\n\nx".to_string()));
    let m = note("abc", "a.md", "[1, 2]", "x");
    assert_eq!(note_file_text(&m), Ok("---\nspacetime_id: abc\n---\n\nx".to_string()));
}

#[test]
fn absolute_path_is_refused() {
    let n = note("abc", "/etc/passwd.md", "{}", "x");
    assert_eq!(note_file_text(&n), Err(WriteError::OutsideVault));
    assert!(!inside_vault("/x"));
    assert!(inside_vault("a/b.md"));
    assert!(!inside_vault("../x.md"));
    assert!(!inside_vault("a/../../x.md"));
    assert!(!inside_vault("a/.."));
    assert!(inside_vault("..hidden.md"));
    assert!(inside_vault("a/b../c.md"));
    let up = note("abc", "../escape.md", "{}", "x");
    assert_eq!(note_file_text(&up), Err(WriteError::OutsideVault));
}

#[test]
fn mtime_split() {
    assert_eq!(mtime_parts(1_234_567), (1234, 567_000_000));
    assert_eq!(mtime_parts(999), (0, 999_000_000));
}
