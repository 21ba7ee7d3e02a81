use spacenotes::client::{ReducerCall, SpacetimeClient};
use spacenotes::note::Note;
use spacenotes::tools::{create_folder_tool, create_note_tool, edit_note, move_notes_to_folder, regex_replace, ErrorObject};
use spacenotes::tracker::ContentTracker;

fn client_with(path: &str, content: &str) -> SpacetimeClient {
    let mut c = SpacetimeClient::connect("h", "d");
    let mut t = ContentTracker::new();
    let n = Note::new("ID".into(), path.into(), content.into(), "{}".into(), content.len() as u64, 1, 1);
    c.on_note_inserted(&mut t, n);
    c
}

#[test]
fn edit_note_replies() {
    let mut c = client_with("d.md", "abc abc");
    assert_eq!(edit_note(&mut c, "x.md".into(), "a".into(), "b".into(), false), Err("Note not found: x.md".to_string()));
    assert_eq!(
        edit_note(&mut c, "d.md".into(), "zzz".into(), "q".into(), true),
        Err("Text not found in note: 'zzz'".to_string())
    );
    let long = "y".repeat(60);
    assert_eq!(
        edit_note(&mut c, "d.md".into(), long, "q".into(), true),
        Err(format!("Text not found in note: '{}...'", "y".repeat(50)))
    );
    assert!(c.take_outbox().is_empty());
    assert_eq!(
        edit_note(&mut c, "d.md".into(), "abc".into(), "x".into(), false),
        Ok("Edited note: d.md\n\n---\n\nx abc".to_string())
    );
    assert_eq!(
        edit_note(&mut c, "d.md".into(), "abc".into(), "x".into(), true),
        Ok("Edited note: d.md\n\n---\n\nx x".to_string())
    );
    assert_eq!(c.take_outbox().len(), 2);
}

#[test]
fn bulk_move_to_folder() {
    let mut c = SpacetimeClient::connect("h", "d");
    let paths = vec!["a/one.md".to_string(), "two.md".to_string()];
    assert_eq!(move_notes_to_folder(&mut c, &paths, "Dest"), "Moved 2 notes to Dest/");
    let calls = c.take_outbox();
    assert!(matches!(&calls[0], ReducerCall::MoveNote { old_path, new_path } if old_path == "a/one.md" && new_path == "Dest/one.md"));
    assert!(matches!(&calls[1], ReducerCall::MoveNote { old_path, new_path } if old_path == "two.md" && new_path == "Dest/two.md"));
    let many: Vec<String> = (0..12).map(|i| format!("n{}.md", i)).collect();
    assert_eq!(move_notes_to_folder(&mut c, &many, "D/"), "Moved 12 notes to D/");
}

#[test]
fn regex_replace_replies() {
    let mut c = client_with("r.md", "a\n\n\n\nb\n\n\nc");
    assert_eq!(
        regex_replace(&mut c, "r.md", "\\n\\n+", "\n\n", false, false, 42),
        Ok("Replaced 2 matches in r.md\n\n---\n\na\n\nb\n\nc".to_string())
    );
    let calls = c.take_outbox();
    assert!(matches!(&calls[..], [ReducerCall::UpdateNoteContent { id, content, size, modified_time, .. }]
        if id == "ID" && content == "a\n\nb\n\nc" && *size == 7 && *modified_time == 42));
    assert_eq!(
        regex_replace(&mut c, "r.md", "zzz", "y", false, false, 43),
        Ok("No matches found - note unchanged".to_string())
    );
    assert!(regex_replace(&mut c, "r.md", "(", "y", false, false, 43).unwrap_err().starts_with("Invalid regex pattern: "));
    assert_eq!(regex_replace(&mut c, "none.md", "a", "b", true, true, 1), Err("Note not found: none.md".to_string()));
    assert!(c.take_outbox().is_empty());
}

#[test]
fn create_tools() {
    let mut c = SpacetimeClient::connect("h", "d");
    assert_eq!(create_note_tool(&mut c, "Dev/My Note.md".into(), "hi".into(), "U".into(), 5), "Created note: Dev/My Note.md (id: U)");
    assert_eq!(create_folder_tool(&mut c, "Dev/Sub/".into()), "Created folder: Dev/Sub/");
    let calls = c.take_outbox();
    assert!(matches!(&calls[0], ReducerCall::CreateNote { note } if note.name == "My Note" && note.folder_path == "Dev/" && note.depth == 1 && note.size == 2));
    assert!(matches!(&calls[1], ReducerCall::CreateFolder { path, name, depth } if path == "Dev/Sub/" && name == "Sub" && *depth == 2));
    let e = ErrorObject::tool_failure("boom".into());
    assert_eq!((e.code, e.message.as_str()), (-32603, "boom"));
    assert_eq!(ErrorObject::method_not_found().code, -32601);
}
