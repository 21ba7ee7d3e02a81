use spacenotes::folder::Folder;
use spacenotes::note::Note;

fn note(path: &str) -> Note {
    Note::new("id".to_string(), path.to_string(), "body".to_string(), "{}".to_string(), 4, 1, 2)
}

#[test]
fn note_at_root() {
    let n = note("A.md");
    assert_eq!(n.name, "A");
    assert_eq!(n.folder_path, "");
    assert_eq!(n.depth, 0);
}

#[test]
fn note_in_nested_folder() {
    let n = note("proj/sub/b.md");
    assert_eq!(n.name, "b");
    assert_eq!(n.folder_path, "proj/sub/");
    assert_eq!(n.depth, 2);
    assert_eq!(n.size, 4);
    assert_eq!(n.created_time, 1);
    assert_eq!(n.modified_time, 2);
}

#[test]
fn note_name_drops_repeated_extension() {
    assert_eq!(note("x/y.md.md").name, "y");
    assert_eq!(note("x/notes.txt").name, "notes.txt");
}

#[test]
fn folder_from_path() {
    let f = Folder::new("a/b/c".to_string());
    assert_eq!(f.name, "c");
    assert_eq!(f.depth, 2);
    let g = Folder::new("a/b/".to_string());
    assert_eq!(g.name, "b");
    assert_eq!(g.depth, 2);
    assert_eq!(Folder::new("top".to_string()).depth, 0);
}
