use spacenotes::folder::Folder;
use spacenotes::store::{
    append_to_note, clear_all, create_folder, create_note, delete_folder, delete_note, find_replace_in_note,
    move_folder, move_note, prepend_to_note, rename_note, update_note_content, upsert_folder, upsert_note,
    Database,
};

fn add(db: &mut Database, id: &str, path: &str, content: &str) {
    let n = spacenotes::note::Note::new(id.into(), path.into(), content.into(), "{}".into(), content.len() as u64, 10, 20);
    create_note(
        db, n.id, n.path, n.name, n.content, n.folder_path, n.depth, n.frontmatter, n.size, n.created_time,
        n.modified_time, 1,
    );
}

fn folder(db: &mut Database, path: &str) {
    let f = Folder::new(path.to_string());
    create_folder(db, path, f.name, f.depth);
}

fn note_paths(db: &Database) -> Vec<String> {
    db.notes.iter().map(|r| r.note.path.clone()).collect()
}

fn folder_paths(db: &Database) -> Vec<String> {
    db.folders.iter().map(|f| f.path.clone()).collect()
}

#[test]
fn folder_move_cascade() {
    let mut db = Database::new();
    add(&mut db, "A", "proj/a.md", "a");
    add(&mut db, "B", "proj/sub/b.md", "b");
    folder(&mut db, "proj");
    folder(&mut db, "proj/sub");
    move_folder(&mut db, "proj", "work", 50);
    let a = db.notes.iter().find(|r| r.note.id == "A").unwrap();
    let b = db.notes.iter().find(|r| r.note.id == "B").unwrap();
    assert_eq!(a.note.path, "work/a.md");
    assert_eq!(b.note.path, "work/sub/b.md");
    assert_eq!(a.note.folder_path, "work/");
    assert_eq!(b.note.folder_path, "work/sub/");
    assert_eq!(a.note.depth, 1);
    assert_eq!(b.note.depth, 2);
    assert_eq!(a.db_updated_at, 50);
    let mut fs = folder_paths(&db);
    fs.sort();
    assert_eq!(fs, vec!["work".to_string(), "work/sub".to_string()]);
    let sub = db.folders.iter().find(|f| f.path == "work/sub").unwrap();
    assert_eq!(sub.name, "sub");
    assert_eq!(sub.depth, 1);
    assert_eq!(db.notes.len(), 2);
}

#[test]
fn folder_move_keeps_counts_and_leaves_no_old_prefix() {
    let mut db = Database::new();
    add(&mut db, "A", "p/a.md", "a");
    add(&mut db, "B", "p/q/b.md", "b");
    add(&mut db, "C", "other/c.md", "c");
    folder(&mut db, "p");
    folder(&mut db, "p/q");
    folder(&mut db, "other");
    move_folder(&mut db, "p/", "z", 5);
    assert_eq!(db.notes.len(), 3);
    assert_eq!(db.folders.len(), 3);
    assert!(note_paths(&db).iter().all(|p| !p.starts_with("p")));
    assert!(folder_paths(&db).iter().all(|p| !p.starts_with("p")));
    assert!(note_paths(&db).contains(&"other/c.md".to_string()));
}

#[test]
fn folder_move_refused_when_destination_exists() {
    let mut db = Database::new();
    add(&mut db, "A", "p/a.md", "a");
    folder(&mut db, "p");
    folder(&mut db, "z");
    move_folder(&mut db, "p", "z", 5);
    assert_eq!(note_paths(&db), vec!["p/a.md".to_string()]);
    move_folder(&mut db, "missing", "y", 5);
    assert_eq!(folder_paths(&db), vec!["p".to_string(), "z".to_string()]);
}

#[test]
fn folder_delete_cascade() {
    let mut db = Database::new();
    add(&mut db, "A", "a/x.md", "x");
    add(&mut db, "B", "a/b/y.md", "y");
    add(&mut db, "C", "a2/z.md", "z");
    add(&mut db, "D", "top.md", "t");
    folder(&mut db, "a");
    folder(&mut db, "a/b");
    folder(&mut db, "c");
    delete_folder(&mut db, "a/");
    assert_eq!(note_paths(&db), vec!["a2/z.md".to_string(), "top.md".to_string()]);
    assert_eq!(folder_paths(&db), vec!["c".to_string()]);
}

#[test]
fn folder_delete_without_row_still_cascades() {
    let mut db = Database::new();
    add(&mut db, "A", "a/x.md", "x");
    add(&mut db, "B", "b/y.md", "y");
    folder(&mut db, "a/sub");
    delete_folder(&mut db, "a");
    assert_eq!(note_paths(&db), vec!["b/y.md".to_string()]);
    assert!(db.folders.is_empty());
}

#[test]
fn find_replace_noop_keeps_note() {
    let mut db = Database::new();
    add(&mut db, "D", "d.md", "abc");
    find_replace_in_note(&mut db, "d.md", "zzz", "qqq", true, 99);
    assert_eq!(db.notes[0].note.content, "abc");
    assert_eq!(db.notes[0].note.modified_time, 20);
    assert_eq!(db.notes[0].db_updated_at, 1);
}

#[test]
fn find_replace_first_and_all() {
    let mut db = Database::new();
    add(&mut db, "D", "d.md", "a-a-a");
    find_replace_in_note(&mut db, "d.md", "a", "bb", false, 7);
    assert_eq!(db.notes[0].note.content, "bb-a-a");
    assert_eq!(db.notes[0].note.size, 6);
    assert_eq!(db.notes[0].note.modified_time, 7);
    find_replace_in_note(&mut db, "d.md", "a", "c", true, 8);
    assert_eq!(db.notes[0].note.content, "bb-c-c");
}

#[test]
fn create_note_ignores_duplicates() {
    let mut db = Database::new();
    add(&mut db, "A", "a.md", "one");
    add(&mut db, "A", "b.md", "two");
    add(&mut db, "B", "a.md", "three");
    assert_eq!(db.notes.len(), 1);
    assert_eq!(db.notes[0].note.content, "one");
}

#[test]
fn rename_and_move_note() {
    let mut db = Database::new();
    add(&mut db, "A", "a.md", "one");
    add(&mut db, "B", "b.md", "two");
    rename_note(&mut db, "A", "x/y/new.md".to_string(), 3);
    let a = &db.notes[0].note;
    assert_eq!((a.path.as_str(), a.name.as_str(), a.folder_path.as_str(), a.depth), ("x/y/new.md", "new", "x/y/", 2));
    assert_eq!(a.content, "one");
    rename_note(&mut db, "A", "b.md".to_string(), 4);
    assert_eq!(db.notes[0].note.path, "x/y/new.md");
    move_note(&mut db, "b.md", "c.md".to_string(), 5);
    assert_eq!(db.notes[1].note.path, "c.md");
    assert_eq!(db.notes[1].note.id, "B");
}

#[test]
fn update_content_keeps_path_fields() {
    let mut db = Database::new();
    add(&mut db, "A", "f/a.md", "one");
    update_note_content(&mut db, "A", "two".to_string(), "{\"k\":1}".to_string(), 3, 77, 8);
    let r = &db.notes[0];
    assert_eq!(r.note.content, "two");
    assert_eq!(r.note.path, "f/a.md");
    assert_eq!(r.note.created_time, 10);
    assert_eq!(r.note.modified_time, 77);
    assert_eq!(r.db_updated_at, 8);
}

#[test]
fn upsert_replaces_by_id_and_respects_paths() {
    let mut db = Database::new();
    add(&mut db, "A", "a.md", "one");
    add(&mut db, "B", "b.md", "two");
    upsert_note(&mut db, "A".into(), "a2.md".into(), "a2".into(), "new".into(), "".into(), 0, "{}".into(), 3, 1, 2, 9);
    assert_eq!(db.notes.len(), 2);
    assert!(db.notes.iter().any(|r| r.note.id == "A" && r.note.path == "a2.md" && r.note.content == "new"));
    upsert_note(&mut db, "A".into(), "b.md".into(), "b".into(), "clash".into(), "".into(), 0, "{}".into(), 5, 1, 2, 9);
    assert!(db.notes.iter().any(|r| r.note.id == "A" && r.note.path == "a2.md"));
    upsert_note(&mut db, "C".into(), "c.md".into(), "c".into(), "c".into(), "".into(), 0, "{}".into(), 1, 1, 2, 9);
    assert_eq!(db.notes.len(), 3);
}

#[test]
fn append_prepend_and_delete() {
    let mut db = Database::new();
    add(&mut db, "A", "a.md", "mid");
    append_to_note(&mut db, "a.md", "-end\u{e9}", 30);
    prepend_to_note(&mut db, "a.md", "start-", 31);
    assert_eq!(db.notes[0].note.content, "start-mid-end\u{e9}");
    assert_eq!(db.notes[0].note.size, "start-mid-end\u{e9}".len() as u64);
    assert_eq!(db.notes[0].note.modified_time, 31);
    delete_note(&mut db, "A");
    assert!(db.notes.is_empty());
    delete_note(&mut db, "A");
}

#[test]
fn folder_create_and_upsert_normalize() {
    let mut db = Database::new();
    create_folder(&mut db, "a/b/", "b".into(), 1);
    create_folder(&mut db, "a/b", "other".into(), 9);
    assert_eq!(db.folders.len(), 1);
    assert_eq!(db.folders[0].path, "a/b");
    assert_eq!(db.folders[0].name, "b");
    upsert_folder(&mut db, "a/b/", "B".into(), 1);
    assert_eq!(db.folders.len(), 1);
    assert_eq!(db.folders[0].name, "B");
    create_folder(&mut db, "a/b//", "x".into(), 2);
    assert_eq!(folder_paths(&db), vec!["a/b".to_string(), "a/b/".to_string()]);
    clear_all(&mut db);
    assert!(db.folders.is_empty() && db.notes.is_empty());
}

#[test]
fn recent_notes_newest_first() {
    let mut db = Database::new();
    for (id, t) in [("a", 5u64), ("b", 9), ("c", 1), ("d", 7)] {
        let n = spacenotes::note::Note::new(id.into(), format!("{}.md", id), "x".into(), "{}".into(), 1, 1, 1);
        create_note(&mut db, n.id, n.path, n.name, n.content, n.folder_path, n.depth, n.frontmatter, n.size, 1, 1, t);
    }
    let top = spacenotes::store::get_recent_notes(&db, 2);
    let ids: Vec<&str> = top.iter().map(|r| r.note.id.as_str()).collect();
    assert_eq!(ids, vec!["b", "d"]);
    assert_eq!(spacenotes::store::get_recent_notes(&db, 10).len(), 4);
    assert!(spacenotes::store::get_recent_notes(&db, 0).is_empty());
}

#[test]
fn update_note_rewrites_path_and_content() {
    let mut db = Database::new();
    add(&mut db, "A", "a.md", "one");
    add(&mut db, "B", "b.md", "two");
    spacenotes::store::update_note(&mut db, "A", "n/new.md".into(), "uno".into(), "{}".into(), 3, 70, 9);
    let a = &db.notes[0];
    assert_eq!((a.note.path.as_str(), a.note.name.as_str(), a.note.folder_path.as_str(), a.note.depth), ("n/new.md", "new", "n/", 1));
    assert_eq!((a.note.content.as_str(), a.note.created_time, a.note.modified_time, a.db_updated_at), ("uno", 10, 70, 9));
    spacenotes::store::update_note(&mut db, "A", "b.md".into(), "clash".into(), "{}".into(), 5, 71, 10);
    assert_eq!(db.notes[0].note.content, "uno");
}

#[test]
fn find_replace_with_empty_search_text() {
    let mut db = Database::new();
    add(&mut db, "E", "e.md", "ab");
    find_replace_in_note(&mut db, "e.md", "", "-", true, 3);
    assert_eq!(db.notes[0].note.content, "-a-b-");
    find_replace_in_note(&mut db, "e.md", "", "+", false, 4);
    assert_eq!(db.notes[0].note.content, "+-a-b-");
}
