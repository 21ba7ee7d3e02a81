use spacenotes::tracker::ContentTracker;

#[test]
fn hash_is_hex_sha256() {
    assert_eq!(
        ContentTracker::hash("new"),
        "11507a0e2f5e69d5dfa40a62a1bd7b6ee57e6bcd85c67c9b8431b36fff21c437"
    );
    assert_eq!(
        ContentTracker::hash(""),
        "e3b0c44298fc1c149afbf4c8996fb92427ae41e4649b934ca495991b7852b855"
    );
}

#[test]
fn untracked_id_has_changed() {
    let t = ContentTracker::new();
    assert!(t.has_changed("a", "x"));
}

#[test]
fn update_then_unchanged() {
    let mut t = ContentTracker::new();
    t.update("a", "hello");
    assert!(!t.has_changed("a", "hello"));
    assert!(!t.is_modified("a", "hello"));
    assert!(t.has_changed("a", "hello!"));
    assert!(t.has_changed("b", "hello"));
}

#[test]
fn has_changed_does_not_record() {
    let mut t = ContentTracker::new();
    t.update("a", "one");
    assert!(t.has_changed("a", "two"));
    assert!(t.has_changed("a", "two"));
    assert!(!t.has_changed("a", "one"));
}

#[test]
fn is_modified_records_new_content() {
    let mut t = ContentTracker::new();
    assert!(t.is_modified("a", "one"));
    assert!(!t.is_modified("a", "one"));
    assert!(t.is_modified("a", "two"));
    assert!(!t.has_changed("a", "two"));
}

#[test]
fn remove_forgets_id() {
    let mut t = ContentTracker::new();
    t.update("a", "one");
    t.update("b", "two");
    t.remove("a");
    assert!(t.has_changed("a", "one"));
    assert!(!t.has_changed("b", "two"));
}
