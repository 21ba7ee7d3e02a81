use spacenotes::client::{LocalEffect, ReducerCall, SpacetimeClient};
use spacenotes::folder::Folder;
use spacenotes::note::Note;
use spacenotes::reconcile::reconcile_on_startup;
use spacenotes::scanner::{is_skipped_name, read_note_from_text, scan_note_from_text};
use spacenotes::tracker::ContentTracker;
use spacenotes::watcher::{
    notes_under, on_directory_present, on_directory_removed, on_note_file_changed, on_note_file_removed,
    on_note_missing, FileAction,
};

const U: &str = "0b7e8f1a-2c3d-4e5f-8a9b-0c1d2e3f4a5b";

fn note(id: &str, path: &str, content: &str, mtime: u64) -> Note {
    Note::new(id.into(), path.into(), content.into(), "{}".into(), content.len() as u64, mtime, mtime)
}

#[test]
fn uuid_injection_on_first_save() {
    let mut client = SpacetimeClient::connect("http://localhost:3003", "spacenotes");
    let mut tracker = ContentTracker::new();
    let raw = "hello\n";
    let n = read_note_from_text("A.md", raw, 6, 1, 2);
    assert_eq!(n.id, "");
    let action = on_note_file_changed(&mut client, &mut tracker, n, raw, U);
    match action {
        FileAction::WriteBack { content } => {
            assert!(content.starts_with(&format!("---\nspacetime_id: {}\n---\n\n", U)));
            assert_eq!(content, format!("---\nspacetime_id: {}\n---\n\nhello\n", U));
        }
        FileAction::Nothing => panic!("expected the id to be written back"),
    }
    let calls = client.take_outbox();
    assert_eq!(calls.len(), 1);
    match &calls[0] {
        ReducerCall::UpsertNote { note } => {
            assert_eq!(note.path, "A.md");
            assert_eq!(note.name, "A");
            assert_eq!(note.folder_path, "");
            assert_eq!(note.depth, 0);
            assert_eq!(note.id, U);
        }
        other => panic!("unexpected call {:?}", other),
    }
}

#[test]
fn echo_suppression_round_trip() {
    let mut client = SpacetimeClient::connect("h", "d");
    let mut tracker = ContentTracker::new();
    let raw = "x";
    let n = read_note_from_text("B.md", raw, 1, 1, 2);
    let written = match on_note_file_changed(&mut client, &mut tracker, n, raw, U) {
        FileAction::WriteBack { content } => content,
        FileAction::Nothing => panic!("expected a write back"),
    };
    assert_eq!(client.take_outbox().len(), 1);
    let before = ContentTracker::hash("x");
    let echo = read_note_from_text("B.md", &written, 40, 1, 3);
    assert_eq!(echo.id, U);
    assert_eq!(echo.content, "x");
    assert!(matches!(on_note_file_changed(&mut client, &mut tracker, echo, &written, "other-id"), FileAction::Nothing));
    assert!(client.take_outbox().is_empty());
    let remote = note(U, "B.md", "x", 5);
    assert!(matches!(client.on_note_inserted(&mut tracker, remote), LocalEffect::Nothing));
    assert!(client.take_outbox().is_empty());
    assert!(!tracker.has_changed(U, "x"));
    assert_eq!(ContentTracker::hash("x"), before);
}

#[test]
fn startup_last_write_wins() {
    let mut client = SpacetimeClient::connect("h", "d");
    let mut tracker = ContentTracker::new();
    client.on_note_inserted(&mut tracker, note("X", "n.md", "old", 100));
    let mut tracker = ContentTracker::new();
    let local = vec![note("X", "n.md", "new", 200)];
    let downloads = reconcile_on_startup(&mut client, &local, &mut tracker);
    assert!(downloads.is_empty());
    let calls = client.take_outbox();
    assert_eq!(calls.len(), 1);
    match &calls[0] {
        ReducerCall::UpsertNote { note } => {
            assert_eq!(note.id, "X");
            assert_eq!(note.content, "new");
        }
        other => panic!("unexpected call {:?}", other),
    }
    assert!(!tracker.has_changed("X", "new"));
    assert!(tracker.has_changed("X", "old"));
}

#[test]
fn startup_downloads_newer_and_remote_only() {
    let mut client = SpacetimeClient::connect("h", "d");
    let mut t0 = ContentTracker::new();
    client.on_note_inserted(&mut t0, note("X", "x.md", "server", 300));
    client.on_note_inserted(&mut t0, note("Y", "y.md", "only remote", 1));
    client.on_note_inserted(&mut t0, note("Z", "z.md", "same", 7));
    let mut tracker = ContentTracker::new();
    let local = vec![note("X", "x.md", "local", 200), note("Z", "z.md", "same", 7), note("L", "l.md", "mine", 3)];
    let downloads = reconcile_on_startup(&mut client, &local, &mut tracker);
    let ids: Vec<&str> = downloads.iter().map(|n| n.id.as_str()).collect();
    assert_eq!(ids, vec!["X", "Y"]);
    assert_eq!(downloads[0].content, "server");
    let calls = client.take_outbox();
    assert_eq!(calls.len(), 1);
    assert!(matches!(&calls[0], ReducerCall::UpsertNote { note } if note.id == "L"));
    assert!(!tracker.has_changed("X", "server"));
    assert!(!tracker.has_changed("Y", "only remote"));
    assert!(!tracker.has_changed("Z", "same"));
    assert!(!tracker.has_changed("L", "mine"));
}

#[test]
fn split_brain_prevention() {
    let mut client = SpacetimeClient::connect("h", "d");
    let mut tracker = ContentTracker::new();
    client.on_note_inserted(&mut tracker, note(U, "c.md", "remote", 1));
    let raw = "no header here";
    let n = read_note_from_text("c.md", raw, 14, 1, 2);
    assert!(matches!(on_note_file_changed(&mut client, &mut tracker, n, raw, "fresh"), FileAction::Nothing));
    assert!(client.take_outbox().is_empty());
    assert_eq!(client.get_all_notes()[0].content, "remote");
}

#[test]
fn damaged_header_is_not_reinjected() {
    let mut client = SpacetimeClient::connect("h", "d");
    let mut tracker = ContentTracker::new();
    let raw = "---\n\tspacetime_id: zz\n---\nbody";
    let mut n = read_note_from_text("d.md", raw, 14, 1, 2);
    n.id = String::new();
    assert!(matches!(on_note_file_changed(&mut client, &mut tracker, n, raw, "fresh"), FileAction::Nothing));
    assert!(client.take_outbox().is_empty());
}

#[test]
fn edited_note_is_uploaded_once() {
    let mut client = SpacetimeClient::connect("h", "d");
    let mut tracker = ContentTracker::new();
    tracker.update(U, "v1");
    let raw = format!("---\nspacetime_id: {}\n---\n\nv2", U);
    let n = read_note_from_text("e.md", &raw, 3, 1, 2);
    assert!(matches!(on_note_file_changed(&mut client, &mut tracker, n.clone(), &raw, "fresh"), FileAction::Nothing));
    assert_eq!(client.take_outbox().len(), 1);
    assert!(matches!(on_note_file_changed(&mut client, &mut tracker, n, &raw, "fresh"), FileAction::Nothing));
    assert!(client.take_outbox().is_empty());
}

#[test]
fn removed_file_deletes_cached_note() {
    let mut client = SpacetimeClient::connect("h", "d");
    let mut tracker = ContentTracker::new();
    client.on_note_inserted(&mut tracker, note("K", "dir/k.md", "k", 1));
    on_note_file_removed(&mut client, &mut tracker, "dir/k.md");
    let calls = client.take_outbox();
    assert!(matches!(&calls[..], [ReducerCall::DeleteNote { id }] if id == "K"));
    assert!(tracker.has_changed("K", "k"));
    on_note_file_removed(&mut client, &mut tracker, "dir/none.md");
    assert!(client.take_outbox().is_empty());
}

#[test]
fn directory_events() {
    let mut client = SpacetimeClient::connect("h", "d");
    let mut tracker = ContentTracker::new();
    on_directory_present(&mut client, "a/b\u{2014}c");
    let calls = client.take_outbox();
    assert!(matches!(&calls[..], [ReducerCall::UpsertFolder { folder }] if folder.path == "a/b-c" && folder.name == "b-c" && folder.depth == 1));
    client.on_note_inserted(&mut tracker, note("M", "gone/m.md", "m", 1));
    client.on_note_inserted(&mut tracker, note("N", "gone/n.md", "n", 1));
    client.on_note_inserted(&mut tracker, note("O", "gone2/o.md", "o", 1));
    let under = notes_under(&client, "gone");
    assert_eq!(under.len(), 2);
    on_note_missing(&mut client, &under[0], Some(note("M", "moved/m.md", "m", 1)));
    on_note_missing(&mut client, &under[1], None);
    on_directory_removed(&mut client, "gone");
    let calls = client.take_outbox();
    assert_eq!(calls.len(), 3);
    assert!(matches!(&calls[0], ReducerCall::UpsertNote { note } if note.path == "moved/m.md"));
    assert!(matches!(&calls[1], ReducerCall::DeleteNote { id } if id == "N"));
    assert!(matches!(&calls[2], ReducerCall::DeleteFolder { path } if path == "gone"));
}

#[test]
fn remote_updates_and_deletes() {
    let mut client = SpacetimeClient::connect("h", "d");
    let mut tracker = ContentTracker::new();
    let a = note("A", "a.md", "one", 1);
    assert!(matches!(client.on_note_inserted(&mut tracker, a.clone()), LocalEffect::WriteNote { stale: None, .. }));
    assert!(matches!(client.on_note_updated(&mut tracker, a.clone(), a.clone()), LocalEffect::Nothing));
    let moved = note("A", "b/a.md", "one", 2);
    match client.on_note_updated(&mut tracker, a.clone(), moved.clone()) {
        LocalEffect::WriteNote { note, stale } => {
            assert_eq!(note.path, "b/a.md");
            assert_eq!(stale, Some("a.md".to_string()));
        }
        other => panic!("unexpected {:?}", other),
    }
    let edited = note("A", "b/a.md", "two", 3);
    assert!(matches!(client.on_note_updated(&mut tracker, moved.clone(), edited.clone()), LocalEffect::WriteNote { stale: None, .. }));
    assert_eq!(client.get_all_notes().len(), 1);
    assert!(matches!(client.on_note_deleted(&mut tracker, edited), LocalEffect::DeleteFile { path } if path == "b/a.md"));
    assert!(client.get_all_notes().is_empty());
    assert!(tracker.has_changed("A", "two"));
}

#[test]
fn remote_folder_events() {
    let mut client = SpacetimeClient::connect("h", "d");
    let f = Folder::new("x/@eaDir".to_string());
    assert!(matches!(client.on_folder_inserted(f), LocalEffect::Nothing));
    let g = Folder::new("docs".to_string());
    assert!(matches!(client.on_folder_inserted(g.clone()), LocalEffect::CreateDir { path } if path == "docs"));
    let h = Folder::new("papers".to_string());
    assert!(matches!(client.on_folder_updated(g.clone(), h.clone()), LocalEffect::RenameDir { from, to } if from == "docs" && to == "papers"));
    assert!(matches!(client.on_folder_updated(h.clone(), h.clone()), LocalEffect::Nothing));
    assert!(matches!(client.on_folder_deleted(h), LocalEffect::RemoveDir { path } if path == "papers"));
    assert_eq!(client.get_all_folders().len(), 1);
}

#[test]
fn scan_skips_files_without_id() {
    assert!(scan_note_from_text("a.md", "no id", 5, 1, 2).is_none());
    let raw = format!("---\nspacetime_id: {}\ntitle: T\n---\n\nbody", U);
    let n = scan_note_from_text("sub/\u{201C}q\u{201D}.md", &raw, 9, 1, 2).unwrap();
    assert_eq!(n.id, U);
    assert_eq!(n.path, "sub/\"q\".md");
    assert_eq!(n.name, "\"q\"");
    assert_eq!(n.content, "body");
    assert_eq!(n.frontmatter, format!("{{\"spacetime_id\":\"{}\",\"title\":\"T\"}}", U));
    assert!(is_skipped_name(".git"));
    assert!(is_skipped_name("@eaDir"));
    assert!(!is_skipped_name("notes"));
}

#[test]
fn cache_queries() {
    let mut client = SpacetimeClient::connect("h", "d");
    let mut t = ContentTracker::new();
    client.on_note_inserted(&mut t, note("1", "Dev/Alpha.md", "Rust notes", 1));
    client.on_note_inserted(&mut t, note("2", "Dev/beta.md", "other", 1));
    client.on_note_inserted(&mut t, note("3", "Home/gamma.md", "RUSTY", 1));
    let hits = client.search_notes("rust");
    let ids: Vec<&str> = hits.iter().map(|h| h.id.as_str()).collect();
    assert_eq!(ids, vec!["1", "3"]);
    let dev = client.list_notes_in_folder("Dev/");
    assert_eq!(dev.len(), 2);
    assert_eq!(dev[1].name, "beta");
    assert_eq!(client.get_note_by_id("2").unwrap().path, "Dev/beta.md");
    assert!(client.get_note_by_id("9").is_none());
    assert_eq!(client.get_note_by_path("Home/gamma.md").unwrap().id, "3");
    client.sync_folders(&[Folder::new("Dev".into()), Folder::new("Home".into())]);
    assert_eq!(client.take_outbox().len(), 2);
}

#[test]
fn folder_reconciliation() {
    let mut client = SpacetimeClient::connect("h", "d");
    client.on_folder_inserted(Folder::new("docs".into()));
    client.on_folder_inserted(Folder::new("x/@eaDir".into()));
    client.on_folder_inserted(Folder::new("docs/sub".into()));
    let local = vec![Folder::new("mine".into())];
    let create = spacenotes::reconcile::reconcile_folders(&mut client, &local);
    let paths: Vec<&str> = create.iter().map(|f| f.path.as_str()).collect();
    assert_eq!(paths, vec!["docs", "docs/sub"]);
    let calls = client.take_outbox();
    assert!(matches!(&calls[..], [ReducerCall::UpsertFolder { folder }] if folder.path == "mine"));
}
