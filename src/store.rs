//! The remote note and folder tables and the reducers that mutate them.
//! A reducer whose result would break a unique key leaves the tables as
//! they were, as a transaction that is rolled back does.
use vstd::prelude::*;
use crate::folder::Folder;
use crate::note::{note_folder_path, note_name, path_depth, path_parts, Note};
use crate::text::{
    byte_len, byte_len_exec, chars_of, count_of, last_index_of, last_segment,
    lemma_last_index_bounds, occurs_at, replace_all, replace_all_exec, replace_first,
    replace_first_exec, starts_with, starts_with_exec, str_eq, string_of_range,
};

verus! {

/// A stored note and the timestamp of the transaction that last wrote it.
#[derive(Debug, Clone)]
pub struct NoteRow {
    pub note: Note,
    pub db_updated_at: u64,
}

#[derive(Debug, Clone)]
pub struct Database {
    pub notes: Vec<NoteRow>,
    pub folders: Vec<Folder>,
}

/// Canonical folder key: one trailing slash removed.
pub open spec fn normalized(p: Seq<char>) -> Seq<char> {
    if p.len() > 0 && p.last() == '/' {
        p.drop_last()
    } else {
        p
    }
}

pub open spec fn notes_unique(notes: Seq<NoteRow>) -> bool {
    forall|i: int, j: int|
        0 <= i < j < notes.len() ==> notes[i].note.id@ != notes[j].note.id@
            && notes[i].note.path@ != notes[j].note.path@
}

pub open spec fn folders_unique(folders: Seq<Folder>) -> bool {
    forall|i: int, j: int| 0 <= i < j < folders.len() ==> folders[i].path@ != folders[j].path@
}

pub open spec fn has_note_id(notes: Seq<NoteRow>, id: Seq<char>) -> bool {
    exists|i: int| 0 <= i < notes.len() && notes[i].note.id@ == id
}

pub open spec fn has_note_path(notes: Seq<NoteRow>, path: Seq<char>) -> bool {
    exists|i: int| 0 <= i < notes.len() && notes[i].note.path@ == path
}

pub open spec fn has_folder(folders: Seq<Folder>, path: Seq<char>) -> bool {
    exists|i: int| 0 <= i < folders.len() && folders[i].path@ == path
}

/// `b` is `a` with its content fields replaced.
pub open spec fn content_rewritten(
    a: NoteRow,
    b: NoteRow,
    content: Seq<char>,
    frontmatter: Seq<char>,
    size: u64,
    modified_time: u64,
    now: u64,
) -> bool {
    &&& b.note.id == a.note.id
    &&& b.note.path == a.note.path
    &&& b.note.name == a.note.name
    &&& b.note.folder_path == a.note.folder_path
    &&& b.note.depth == a.note.depth
    &&& b.note.created_time == a.note.created_time
    &&& b.note.content@ == content
    &&& b.note.frontmatter@ == frontmatter
    &&& b.note.size == size
    &&& b.note.modified_time == modified_time
    &&& b.db_updated_at == now
}

/// `b` is `a` moved to `path`, its name, folder path and depth derived anew.
pub open spec fn path_rewritten(a: NoteRow, b: NoteRow, path: Seq<char>, now: u64) -> bool {
    &&& b.note.id == a.note.id
    &&& b.note.path@ == path
    &&& b.note.name@ == note_name(path)
    &&& b.note.folder_path@ == note_folder_path(path)
    &&& b.note.depth == path_depth(path)
    &&& b.note.content == a.note.content
    &&& b.note.frontmatter == a.note.frontmatter
    &&& b.note.size == a.note.size
    &&& b.note.created_time == a.note.created_time
    &&& b.note.modified_time == a.note.modified_time
    &&& b.db_updated_at == now
}

impl Database {
    pub open spec fn wf(&self) -> bool {
        notes_unique(self.notes@) && folders_unique(self.folders@)
    }

    /// Empty tables.
    pub fn new() -> (r: Database)
        ensures
            r.notes@.len() == 0,
            r.folders@.len() == 0,
            r.wf(),
    {
        Database { notes: Vec::new(), folders: Vec::new() }
    }

    /// Index of the note with this id.
    pub fn find_note_by_id(&self, id: &str) -> (r: Option<usize>)
        ensures
            r matches Some(k) ==> k < self.notes@.len() && self.notes@[k as int].note.id@ == id@,
            r is None ==> !has_note_id(self.notes@, id@),
    {
        let mut i: usize = 0;
        while i < self.notes.len()
            invariant
                i <= self.notes.len(),
                forall|j: int| 0 <= j < i ==> self.notes@[j].note.id@ != id@,
            decreases self.notes.len() - i,
        {
            if str_eq(self.notes[i].note.id.as_str(), id) {
                return Some(i);
            }
            i = i + 1;
        }
        None
    }

    /// Index of the note at this path.
    pub fn find_note_by_path(&self, path: &str) -> (r: Option<usize>)
        ensures
            r matches Some(k) ==> k < self.notes@.len() && self.notes@[k as int].note.path@ == path@,
            r is None ==> !has_note_path(self.notes@, path@),
    {
        let mut i: usize = 0;
        while i < self.notes.len()
            invariant
                i <= self.notes.len(),
                forall|j: int| 0 <= j < i ==> self.notes@[j].note.path@ != path@,
            decreases self.notes.len() - i,
        {
            if str_eq(self.notes[i].note.path.as_str(), path) {
                return Some(i);
            }
            i = i + 1;
        }
        None
    }

    /// Index of the folder with this key.
    pub fn find_folder(&self, path: &str) -> (r: Option<usize>)
        ensures
            r matches Some(k) ==> k < self.folders@.len() && self.folders@[k as int].path@ == path@,
            r is None ==> !has_folder(self.folders@, path@),
    {
        let mut i: usize = 0;
        while i < self.folders.len()
            invariant
                i <= self.folders.len(),
                forall|j: int| 0 <= j < i ==> self.folders@[j].path@ != path@,
            decreases self.folders.len() - i,
        {
            if str_eq(self.folders[i].path.as_str(), path) {
                return Some(i);
            }
            i = i + 1;
        }
        None
    }
}

/// Whether no two rows share an id or a path.
pub fn check_notes_unique(notes: &Vec<NoteRow>) -> (r: bool)
    ensures
        r == notes_unique(notes@),
{
    let mut i: usize = 0;
    while i < notes.len()
        invariant
            i <= notes.len(),
            forall|a: int, b: int|
                0 <= a < i && a < b < notes@.len() ==> notes@[a].note.id@ != notes@[b].note.id@
                    && notes@[a].note.path@ != notes@[b].note.path@,
        decreases notes.len() - i,
    {
        let mut j: usize = i + 1;
        while j < notes.len()
            invariant
                i < notes.len(),
                i + 1 <= j <= notes.len(),
                forall|a: int, b: int|
                    0 <= a < i && a < b < notes@.len() ==> notes@[a].note.id@ != notes@[b].note.id@
                        && notes@[a].note.path@ != notes@[b].note.path@,
                forall|b: int|
                    i < b < j ==> notes@[i as int].note.id@ != notes@[b].note.id@
                        && notes@[i as int].note.path@ != notes@[b].note.path@,
            decreases notes.len() - j,
        {
            if str_eq(notes[i].note.id.as_str(), notes[j].note.id.as_str()) || str_eq(
                notes[i].note.path.as_str(),
                notes[j].note.path.as_str(),
            ) {
                return false;
            }
            j = j + 1;
        }
        i = i + 1;
    }
    true
}

/// Whether no two folders share a path.
pub fn check_folders_unique(folders: &Vec<Folder>) -> (r: bool)
    ensures
        r == folders_unique(folders@),
{
    let mut i: usize = 0;
    while i < folders.len()
        invariant
            i <= folders.len(),
            forall|a: int, b: int|
                0 <= a < i && a < b < folders@.len() ==> folders@[a].path@ != folders@[b].path@,
        decreases folders.len() - i,
    {
        let mut j: usize = i + 1;
        while j < folders.len()
            invariant
                i < folders.len(),
                i + 1 <= j <= folders.len(),
                forall|a: int, b: int|
                    0 <= a < i && a < b < folders@.len() ==> folders@[a].path@ != folders@[b].path@,
                forall|b: int| i < b < j ==> folders@[i as int].path@ != folders@[b].path@,
            decreases folders.len() - j,
        {
            if str_eq(folders[i].path.as_str(), folders[j].path.as_str()) {
                return false;
            }
            j = j + 1;
        }
        i = i + 1;
    }
    true
}

/// Folder key for a path as given by a caller.
pub fn normalize(path: &str) -> (r: String)
    ensures
        r@ == normalized(path@),
{
    let cs = chars_of(path);
    if cs.len() > 0 && cs[cs.len() - 1] == '/' {
        let r = string_of_range(&cs, 0, cs.len() - 1);
        assert(cs@.subrange(0, cs.len() - 1) =~= cs@.drop_last());
        r
    } else {
        let r = string_of_range(&cs, 0, cs.len());
        assert(cs@.subrange(0, cs.len() as int) =~= cs@);
        r
    }
}

fn copy_note_with_path(a: &NoteRow, path: String, now: u64) -> (b: NoteRow)
    ensures
        path_rewritten(*a, b, path@, now),
{
    let (name, folder_path, depth) = path_parts(path.as_str());
    NoteRow {
        note: Note {
            id: a.note.id.clone(),
            path,
            name,
            content: a.note.content.clone(),
            folder_path,
            depth,
            frontmatter: a.note.frontmatter.clone(),
            size: a.note.size,
            created_time: a.note.created_time,
            modified_time: a.note.modified_time,
        },
        db_updated_at: now,
    }
}

fn copy_note_with_content(
    a: &NoteRow,
    content: String,
    frontmatter: String,
    size: u64,
    modified_time: u64,
    now: u64,
) -> (b: NoteRow)
    ensures
        content_rewritten(*a, b, content@, frontmatter@, size, modified_time, now),
{
    NoteRow {
        note: Note {
            id: a.note.id.clone(),
            path: a.note.path.clone(),
            name: a.note.name.clone(),
            content,
            folder_path: a.note.folder_path.clone(),
            depth: a.note.depth,
            frontmatter,
            size,
            created_time: a.note.created_time,
            modified_time,
        },
        db_updated_at: now,
    }
}

/// Inserts a note unless its id or its path is already taken.
pub fn create_note(
    db: &mut Database,
    id: String,
    path: String,
    name: String,
    content: String,
    folder_path: String,
    depth: u32,
    frontmatter: String,
    size: u64,
    created_time: u64,
    modified_time: u64,
    now: u64,
)
    requires
        old(db).wf(),
    ensures
        final(db).wf(),
        final(db).folders == old(db).folders,
        if has_note_id(old(db).notes@, id@) || has_note_path(old(db).notes@, path@) {
            final(db).notes@ == old(db).notes@
        } else {
            final(db).notes@ == old(db).notes@.push(
                (NoteRow {
                    note: Note {
                        id,
                        path,
                        name,
                        content,
                        folder_path,
                        depth,
                        frontmatter,
                        size,
                        created_time,
                        modified_time,
                    },
                    db_updated_at: now,
                }),
            )
        },
{
    if db.find_note_by_id(id.as_str()).is_some() {
        return;
    }
    if db.find_note_by_path(path.as_str()).is_some() {
        return;
    }
    let row = NoteRow {
        note: Note {
            id,
            path,
            name,
            content,
            folder_path,
            depth,
            frontmatter,
            size,
            created_time,
            modified_time,
        },
        db_updated_at: now,
    };
    db.notes.push(row);
}

/// Rewrites the content fields of the note with this id; path, name,
/// folder path, depth and creation time stay.
pub fn update_note_content(
    db: &mut Database,
    id: &str,
    content: String,
    frontmatter: String,
    size: u64,
    modified_time: u64,
    now: u64,
)
    requires
        old(db).wf(),
    ensures
        final(db).wf(),
        final(db).folders == old(db).folders,
        !has_note_id(old(db).notes@, id@) ==> final(db).notes@ == old(db).notes@,
        forall|k: int|
            0 <= k < old(db).notes@.len() && old(db).notes@[k].note.id@ == id@ ==> {
                &&& final(db).notes@.len() == old(db).notes@.len()
                &&& content_rewritten(old(db).notes@[k], final(db).notes@[k], content@, frontmatter@, size, modified_time, now)
                &&& forall|j: int| 0 <= j < old(db).notes@.len() && j != k ==> final(db).notes@[j] == old(db).notes@[j]
            },
{
    match db.find_note_by_id(id) {
        None => {},
        Some(k) => {
            let row = copy_note_with_content(&db.notes[k], content, frontmatter, size, modified_time, now);
            db.notes.set(k, row);
        },
    }
}

/// Moves the note at index `k` to `new_path`, unless another note holds
/// that path.
fn move_row(db: &mut Database, k: usize, new_path: String, now: u64)
    requires
        old(db).wf(),
        k < old(db).notes@.len(),
    ensures
        final(db).wf(),
        final(db).folders == old(db).folders,
        if exists|j: int| 0 <= j < old(db).notes@.len() && j != k && old(db).notes@[j].note.path@ == new_path@ {
            final(db).notes@ == old(db).notes@
        } else {
            &&& final(db).notes@.len() == old(db).notes@.len()
            &&& path_rewritten(old(db).notes@[k as int], final(db).notes@[k as int], new_path@, now)
            &&& forall|j: int| 0 <= j < old(db).notes@.len() && j != k ==> final(db).notes@[j] == old(db).notes@[j]
        },
{
    match db.find_note_by_path(new_path.as_str()) {
        Some(j) => {
            if j != k {
                return;
            }
        },
        None => {},
    }
    proof {
        assert forall|j: int| 0 <= j < old(db).notes@.len() && j != k implies old(db).notes@[j].note.path@ != new_path@ by {
            if old(db).notes@[j].note.path@ == new_path@ {
                if old(db).notes@[k as int].note.path@ == new_path@ {
                    assert(!notes_unique(old(db).notes@));
                }
            }
        }
    }
    let row = copy_note_with_path(&db.notes[k], new_path, now);
    db.notes.set(k, row);
}

/// Rewrites the note with this id: a new path (name, folder path and
/// depth derived from it) and new content fields, its creation time kept;
/// nothing changes when another note holds the path.
pub fn update_note(
    db: &mut Database,
    id: &str,
    path: String,
    content: String,
    frontmatter: String,
    size: u64,
    modified_time: u64,
    now: u64,
)
    requires
        old(db).wf(),
    ensures
        final(db).wf(),
        final(db).folders == old(db).folders,
        !has_note_id(old(db).notes@, id@) ==> final(db).notes@ == old(db).notes@,
        forall|k: int|
            0 <= k < old(db).notes@.len() && old(db).notes@[k].note.id@ == id@ ==> if exists|j: int|
                0 <= j < old(db).notes@.len() && j != k && old(db).notes@[j].note.path@ == path@ {
                final(db).notes@ == old(db).notes@
            } else {
                let a = old(db).notes@[k];
                let b = final(db).notes@[k];
                &&& final(db).notes@ == old(db).notes@.update(k, b)
                &&& b.note.id == a.note.id
                &&& b.note.path@ == path@
                &&& b.note.name@ == note_name(path@)
                &&& b.note.folder_path@ == note_folder_path(path@)
                &&& b.note.depth == path_depth(path@)
                &&& b.note.content@ == content@
                &&& b.note.frontmatter@ == frontmatter@
                &&& b.note.size == size
                &&& b.note.created_time == a.note.created_time
                &&& b.note.modified_time == modified_time
                &&& b.db_updated_at == now
            },
{
    match db.find_note_by_id(id) {
        None => {},
        Some(k) => {
            proof {
                assert forall|k2: int|
                    0 <= k2 < old(db).notes@.len() && old(db).notes@[k2].note.id@ == id@ implies k2 == k by {
                    if k2 != k {
                        assert(!notes_unique(old(db).notes@));
                    }
                }
            }
            match db.find_note_by_path(path.as_str()) {
                Some(j) => {
                    if j != k {
                        return;
                    }
                },
                None => {},
            }
            proof {
                assert forall|j: int| 0 <= j < old(db).notes@.len() && j != k implies old(db).notes@[j].note.path@ != path@ by {
                    if old(db).notes@[j].note.path@ == path@ && old(db).notes@[k as int].note.path@ == path@ {
                        assert(!notes_unique(old(db).notes@));
                    }
                }
            }
            move_row(db, k, path, now);
            let ghost moved = db.notes@;
            let row = copy_note_with_content(&db.notes[k], content, frontmatter, size, modified_time, now);
            db.notes.set(k, row);
            proof {
                assert(db.notes@ =~= old(db).notes@.update(k as int, db.notes@[k as int]));
                assert(notes_unique(db.notes@)) by {
                    assert forall|i: int, j: int| 0 <= i < j < db.notes@.len() implies db.notes@[i].note.id@
                        != db.notes@[j].note.id@ && db.notes@[i].note.path@ != db.notes@[j].note.path@ by {
                        assert(db.notes@[i].note.id == moved[i].note.id && db.notes@[i].note.path == moved[i].note.path);
                        assert(db.notes@[j].note.id == moved[j].note.id && db.notes@[j].note.path == moved[j].note.path);
                    }
                }
            }
        },
    }
}

/// Gives the note with this id a new path, unless another note holds it.
pub fn rename_note(db: &mut Database, id: &str, new_path: String, now: u64)
    requires
        old(db).wf(),
    ensures
        final(db).wf(),
        final(db).folders == old(db).folders,
        !has_note_id(old(db).notes@, id@) ==> final(db).notes@ == old(db).notes@,
        forall|k: int|
            0 <= k < old(db).notes@.len() && old(db).notes@[k].note.id@ == id@ ==> if exists|j: int|
                0 <= j < old(db).notes@.len() && j != k && old(db).notes@[j].note.path@ == new_path@ {
                final(db).notes@ == old(db).notes@
            } else {
                &&& final(db).notes@.len() == old(db).notes@.len()
                &&& path_rewritten(old(db).notes@[k], final(db).notes@[k], new_path@, now)
                &&& forall|j: int| 0 <= j < old(db).notes@.len() && j != k ==> final(db).notes@[j] == old(db).notes@[j]
            },
{
    match db.find_note_by_id(id) {
        None => {},
        Some(k) => {
            move_row(db, k, new_path, now);
        },
    }
}

/// Moves the note at `old_path` to `new_path`, unless another note holds it.
pub fn move_note(db: &mut Database, old_path: &str, new_path: String, now: u64)
    requires
        old(db).wf(),
    ensures
        final(db).wf(),
        final(db).folders == old(db).folders,
        !has_note_path(old(db).notes@, old_path@) ==> final(db).notes@ == old(db).notes@,
        forall|k: int|
            0 <= k < old(db).notes@.len() && old(db).notes@[k].note.path@ == old_path@ ==> if exists|j: int|
                0 <= j < old(db).notes@.len() && j != k && old(db).notes@[j].note.path@ == new_path@ {
                final(db).notes@ == old(db).notes@
            } else {
                &&& final(db).notes@.len() == old(db).notes@.len()
                &&& path_rewritten(old(db).notes@[k], final(db).notes@[k], new_path@, now)
                &&& forall|j: int| 0 <= j < old(db).notes@.len() && j != k ==> final(db).notes@[j] == old(db).notes@[j]
            },
{
    match db.find_note_by_path(old_path) {
        None => {},
        Some(k) => {
            move_row(db, k, new_path, now);
        },
    }
}

/// Removes the note with this id, if there is one.
pub fn delete_note(db: &mut Database, id: &str)
    requires
        old(db).wf(),
    ensures
        final(db).wf(),
        final(db).folders == old(db).folders,
        !has_note_id(old(db).notes@, id@) ==> final(db).notes@ == old(db).notes@,
        forall|k: int|
            0 <= k < old(db).notes@.len() && old(db).notes@[k].note.id@ == id@
                ==> final(db).notes@ == old(db).notes@.remove(k),
{
    match db.find_note_by_id(id) {
        None => {},
        Some(k) => {
            db.notes.remove(k);
            proof {
                assert forall|k2: int|
                    0 <= k2 < old(db).notes@.len() && old(db).notes@[k2].note.id@ == id@ implies k2 == k by {
                    if k2 != k {
                        assert(!notes_unique(old(db).notes@));
                    }
                }
                assert(notes_unique(db.notes@)) by {
                    assert forall|i: int, j: int| 0 <= i < j < db.notes@.len() implies db.notes@[i].note.id@
                        != db.notes@[j].note.id@ && db.notes@[i].note.path@ != db.notes@[j].note.path@ by {
                        let i0 = if i < k { i } else { i + 1 };
                        let j0 = if j < k { j } else { j + 1 };
                        assert(db.notes@[i] == old(db).notes@[i0]);
                        assert(db.notes@[j] == old(db).notes@[j0]);
                    }
                }
            }
        },
    }
}

/// Replaces the note with this id (or adds it), unless another note
/// holds the path.
pub fn upsert_note(
    db: &mut Database,
    id: String,
    path: String,
    name: String,
    content: String,
    folder_path: String,
    depth: u32,
    frontmatter: String,
    size: u64,
    created_time: u64,
    modified_time: u64,
    now: u64,
)
    requires
        old(db).wf(),
    ensures
        final(db).wf(),
        final(db).folders == old(db).folders,
        ({
            let row = NoteRow {
                note: Note {
                    id,
                    path,
                    name,
                    content,
                    folder_path,
                    depth,
                    frontmatter,
                    size,
                    created_time,
                    modified_time,
                },
                db_updated_at: now,
            };
            &&& !has_note_id(old(db).notes@, id@) ==> if has_note_path(old(db).notes@, path@) {
                final(db).notes@ == old(db).notes@
            } else {
                final(db).notes@ == old(db).notes@.push(row)
            }
            &&& forall|k: int|
                0 <= k < old(db).notes@.len() && old(db).notes@[k].note.id@ == id@ ==> if has_note_path(
                    old(db).notes@.remove(k),
                    path@,
                ) {
                    final(db).notes@ == old(db).notes@
                } else {
                    final(db).notes@ == old(db).notes@.remove(k).push(row)
                }
        }),
{
    let ghost k0: int = -1;
    let mut removed: Option<(usize, NoteRow)> = None;
    match db.find_note_by_id(id.as_str()) {
        None => {},
        Some(k) => {
            proof {
                k0 = k as int;
                assert forall|k2: int|
                    0 <= k2 < old(db).notes@.len() && old(db).notes@[k2].note.id@ == id@ implies k2 == k by {
                    if k2 != k {
                        assert(!notes_unique(old(db).notes@));
                    }
                }
            }
            let r = db.notes.remove(k);
            removed = Some((k, r));
        },
    }
    let ghost before = db.notes@;
    assert(k0 >= 0 ==> before == old(db).notes@.remove(k0));
    assert(k0 < 0 ==> before == old(db).notes@);
    assert(forall|i: int| 0 <= i < before.len() ==> before[i].note.id@ != id@) by {
        assert forall|i: int| 0 <= i < before.len() implies before[i].note.id@ != id@ by {
            if k0 >= 0 {
                let i0 = if i < k0 { i } else { i + 1 };
                assert(before[i] == old(db).notes@[i0]);
            }
        }
    }
    assert(notes_unique(before)) by {
        assert forall|i: int, j: int| 0 <= i < j < before.len() implies before[i].note.id@
            != before[j].note.id@ && before[i].note.path@ != before[j].note.path@ by {
            if k0 >= 0 {
                let i0 = if i < k0 { i } else { i + 1 };
                let j0 = if j < k0 { j } else { j + 1 };
                assert(before[i] == old(db).notes@[i0]);
                assert(before[j] == old(db).notes@[j0]);
            }
        }
    }
    if db.find_note_by_path(path.as_str()).is_some() {
        match removed {
            None => {},
            Some((k, r)) => {
                db.notes.insert(k, r);
                assert(db.notes@ =~= old(db).notes@);
            },
        }
        return;
    }
    let row = NoteRow {
        note: Note {
            id,
            path,
            name,
            content,
            folder_path,
            depth,
            frontmatter,
            size,
            created_time,
            modified_time,
        },
        db_updated_at: now,
    };
    db.notes.push(row);
    assert(notes_unique(db.notes@)) by {
        assert forall|i: int, j: int| 0 <= i < j < db.notes@.len() implies db.notes@[i].note.id@
            != db.notes@[j].note.id@ && db.notes@[i].note.path@ != db.notes@[j].note.path@ by {
            if j < before.len() {
                assert(db.notes@[i] == before[i] && db.notes@[j] == before[j]);
            } else {
                assert(db.notes@[i] == before[i]);
            }
        }
    }
}

/// `b` is `a` with new content, its size recomputed and both timestamps
/// set to `now`.
pub open spec fn content_edited(a: NoteRow, b: NoteRow, content: Seq<char>, now: u64) -> bool {
    content_rewritten(a, b, content, a.note.frontmatter@, byte_len(content), now, now)
}

/// Sets the content of the note at index `k`, with its size and both
/// timestamps.
fn edit_content(db: &mut Database, k: usize, content: String, now: u64)
    requires
        old(db).wf(),
        k < old(db).notes@.len(),
    ensures
        final(db).wf(),
        final(db).folders == old(db).folders,
        final(db).notes@ == old(db).notes@.update(k as int, final(db).notes@[k as int]),
        content_edited(old(db).notes@[k as int], final(db).notes@[k as int], content@, now),
{
    let size = byte_len_exec(content.as_str());
    let fm = db.notes[k].note.frontmatter.clone();
    let row = copy_note_with_content(&db.notes[k], content, fm, size, now, now);
    db.notes.set(k, row);
    assert(db.notes@ =~= old(db).notes@.update(k as int, db.notes@[k as int]));
}

/// Appends text to the note at `path`.
pub fn append_to_note(db: &mut Database, path: &str, content: &str, now: u64)
    requires
        old(db).wf(),
    ensures
        final(db).wf(),
        final(db).folders == old(db).folders,
        !has_note_path(old(db).notes@, path@) ==> final(db).notes@ == old(db).notes@,
        forall|k: int|
            0 <= k < old(db).notes@.len() && old(db).notes@[k].note.path@ == path@ ==> {
                &&& final(db).notes@ == old(db).notes@.update(k, final(db).notes@[k])
                &&& content_edited(old(db).notes@[k], final(db).notes@[k], old(db).notes@[k].note.content@ + content@, now)
            },
{
    match db.find_note_by_path(path) {
        None => {},
        Some(k) => {
            let mut text = db.notes[k].note.content.clone();
            text.append(content);
            edit_content(db, k, text, now);
            proof { lemma_path_index_unique(old(db).notes@, k as int, path@); }
        },
    }
}

/// Prepends text to the note at `path`.
pub fn prepend_to_note(db: &mut Database, path: &str, content: &str, now: u64)
    requires
        old(db).wf(),
    ensures
        final(db).wf(),
        final(db).folders == old(db).folders,
        !has_note_path(old(db).notes@, path@) ==> final(db).notes@ == old(db).notes@,
        forall|k: int|
            0 <= k < old(db).notes@.len() && old(db).notes@[k].note.path@ == path@ ==> {
                &&& final(db).notes@ == old(db).notes@.update(k, final(db).notes@[k])
                &&& content_edited(old(db).notes@[k], final(db).notes@[k], content@ + old(db).notes@[k].note.content@, now)
            },
{
    match db.find_note_by_path(path) {
        None => {},
        Some(k) => {
            let mut text = content.to_string();
            text.append(db.notes[k].note.content.as_str());
            edit_content(db, k, text, now);
            proof { lemma_path_index_unique(old(db).notes@, k as int, path@); }
        },
    }
}

proof fn lemma_path_index_unique(notes: Seq<NoteRow>, k: int, path: Seq<char>)
    requires
        notes_unique(notes),
        0 <= k < notes.len(),
        notes[k].note.path@ == path,
    ensures
        forall|j: int| 0 <= j < notes.len() && notes[j].note.path@ == path ==> j == k,
{
    assert forall|j: int| 0 <= j < notes.len() && notes[j].note.path@ == path implies j == k by {
        if j != k {
            assert(!notes_unique(notes));
        }
    }
}

/// The text that a find-and-replace makes of `s`: every occurrence, or
/// the first only.
pub open spec fn find_replaced(s: Seq<char>, old_text: Seq<char>, new_text: Seq<char>, all: bool) -> Seq<char> {
    if all {
        replace_all(s, old_text, new_text)
    } else {
        replace_first(s, old_text, new_text)
    }
}

/// Replaces `old_text` by `new_text` in the note at `path`; leaves the
/// note as it was, timestamps included, when the text does not change.
pub fn find_replace_in_note(
    db: &mut Database,
    path: &str,
    old_text: &str,
    new_text: &str,
    replace_all: bool,
    now: u64,
)
    requires
        old(db).wf(),
    ensures
        final(db).wf(),
        final(db).folders == old(db).folders,
        !has_note_path(old(db).notes@, path@) ==> final(db).notes@ == old(db).notes@,
        forall|k: int|
            0 <= k < old(db).notes@.len() && old(db).notes@[k].note.path@ == path@ ==> {
                let s = old(db).notes@[k].note.content@;
                let t = find_replaced(s, old_text@, new_text@, replace_all);
                if t == s {
                    final(db).notes@ == old(db).notes@
                } else {
                    &&& final(db).notes@ == old(db).notes@.update(k, final(db).notes@[k])
                    &&& content_edited(old(db).notes@[k], final(db).notes@[k], t, now)
                }
            },
{
    match db.find_note_by_path(path) {
        None => {},
        Some(k) => {
            proof { lemma_path_index_unique(old(db).notes@, k as int, path@); }
            let text = if replace_all {
                replace_all_exec(db.notes[k].note.content.as_str(), old_text, new_text)
            } else {
                replace_first_exec(db.notes[k].note.content.as_str(), old_text, new_text)
            };
            if str_eq(text.as_str(), db.notes[k].note.content.as_str()) {
                return;
            }
            edit_content(db, k, text, now);
        },
    }
}

/// Adds a folder unless its key (one trailing slash removed) exists.
pub fn create_folder(db: &mut Database, path: &str, name: String, depth: u32)
    requires
        old(db).wf(),
    ensures
        final(db).wf(),
        final(db).notes == old(db).notes,
        has_folder(old(db).folders@, normalized(path@)) ==> final(db).folders == old(db).folders,
        !has_folder(old(db).folders@, normalized(path@)) ==> {
            &&& final(db).folders@.len() == old(db).folders@.len() + 1
            &&& final(db).folders@.drop_last() == old(db).folders@
            &&& final(db).folders@.last().path@ == normalized(path@)
            &&& final(db).folders@.last().name == name
            &&& final(db).folders@.last().depth == depth
        },
{
    let key = normalize(path);
    if db.find_folder(key.as_str()).is_some() {
        return;
    }
    db.folders.push(Folder { path: key, name, depth });
    assert(db.folders@.drop_last() =~= old(db).folders@);
}

/// Replaces the folder with this key (one trailing slash removed), or adds it.
pub fn upsert_folder(db: &mut Database, path: &str, name: String, depth: u32)
    requires
        old(db).wf(),
    ensures
        final(db).wf(),
        final(db).notes == old(db).notes,
        !has_folder(old(db).folders@, normalized(path@)) ==> final(db).folders@.drop_last() == old(db).folders@,
        forall|k: int|
            0 <= k < old(db).folders@.len() && old(db).folders@[k].path@ == normalized(path@)
                ==> final(db).folders@.drop_last() == old(db).folders@.remove(k),
        final(db).folders@.len() > 0,
        final(db).folders@.last().path@ == normalized(path@),
        final(db).folders@.last().name == name,
        final(db).folders@.last().depth == depth,
{
    let key = normalize(path);
    match db.find_folder(key.as_str()) {
        None => {},
        Some(k) => {
            db.folders.remove(k);
            proof {
                assert forall|k2: int|
                    0 <= k2 < old(db).folders@.len() && old(db).folders@[k2].path@ == normalized(path@) implies k2 == k by {
                    if k2 != k {
                        assert(!folders_unique(old(db).folders@));
                    }
                }
                assert forall|i: int, j: int| 0 <= i < j < db.folders@.len() implies db.folders@[i].path@
                    != db.folders@[j].path@ by {
                    let i0 = if i < k { i } else { i + 1 };
                    let j0 = if j < k { j } else { j + 1 };
                    assert(db.folders@[i] == old(db).folders@[i0]);
                    assert(db.folders@[j] == old(db).folders@[j0]);
                }
            }
        },
    }
    let ghost before = db.folders@;
    db.folders.push(Folder { path: key, name, depth });
    assert(db.folders@.drop_last() =~= before);
}

/// Removes every note and every folder.
pub fn clear_all(db: &mut Database)
    ensures
        final(db).notes@.len() == 0,
        final(db).folders@.len() == 0,
        final(db).wf(),
{
    db.notes = Vec::new();
    db.folders = Vec::new();
}

/// The notes of `s` that do not lie under the folder path `os`.
pub open spec fn notes_outside(s: Seq<NoteRow>, os: Seq<char>) -> Seq<NoteRow>
    decreases s.len(),
{
    if s.len() == 0 {
        s
    } else if starts_with(s.last().note.folder_path@, os) {
        notes_outside(s.drop_last(), os)
    } else {
        notes_outside(s.drop_last(), os).push(s.last())
    }
}

/// The folders of `s` whose path does not start with `o`.
pub open spec fn folders_outside(s: Seq<Folder>, o: Seq<char>) -> Seq<Folder>
    decreases s.len(),
{
    if s.len() == 0 {
        s
    } else if starts_with(s.last().path@, o) {
        folders_outside(s.drop_last(), o)
    } else {
        folders_outside(s.drop_last(), o).push(s.last())
    }
}

pub proof fn lemma_notes_outside(s: Seq<NoteRow>, os: Seq<char>)
    ensures
        forall|x: NoteRow| #[trigger] notes_outside(s, os).contains(x) <==> s.contains(x) && !starts_with(x.note.folder_path@, os),
        notes_unique(s) ==> notes_unique(notes_outside(s, os)),
    decreases s.len(),
{
    if s.len() > 0 {
        let t = s.drop_last();
        lemma_notes_outside(t, os);
        assert forall|x: NoteRow| #[trigger] s.contains(x) <==> t.contains(x) || x == s.last() by {
            if s.contains(x) {
                let i = choose|i: int| 0 <= i < s.len() && s[i] == x;
                if i < s.len() - 1 {
                    assert(t[i] == x);
                }
            }
            if t.contains(x) {
                let i = choose|i: int| 0 <= i < t.len() && t[i] == x;
                assert(s[i] == x);
            }
            if x == s.last() {
                assert(s[s.len() - 1] == x);
            }
        }
        let r = notes_outside(t, os);
        if !starts_with(s.last().note.folder_path@, os) {
            assert forall|x: NoteRow| #[trigger] r.push(s.last()).contains(x) <==> r.contains(x) || x == s.last() by {
                if r.push(s.last()).contains(x) {
                    let i = choose|i: int| 0 <= i < r.len() + 1 && r.push(s.last())[i] == x;
                    if i < r.len() {
                        assert(r[i] == x);
                    }
                }
                if r.contains(x) {
                    let i = choose|i: int| 0 <= i < r.len() && r[i] == x;
                    assert(r.push(s.last())[i] == x);
                }
                if x == s.last() {
                    assert(r.push(s.last())[r.len() as int] == x);
                }
            }
        }
        if notes_unique(s) {
            assert(notes_unique(t));
            if !starts_with(s.last().note.folder_path@, os) {
                let q = r.push(s.last());
                assert forall|i: int, j: int| 0 <= i < j < q.len() implies q[i].note.id@ != q[j].note.id@
                    && q[i].note.path@ != q[j].note.path@ by {
                    if j == r.len() {
                        assert(r.contains(q[i]));
                        assert(t.contains(q[i]));
                        let i0 = choose|i0: int| 0 <= i0 < t.len() && t[i0] == q[i];
                        assert(s[i0] == q[i]);
                        assert(s[s.len() - 1] == q[j]);
                    } else {
                        assert(q[i] == r[i] && q[j] == r[j]);
                    }
                }
            }
        }
    }
}

pub proof fn lemma_folders_outside(s: Seq<Folder>, o: Seq<char>)
    ensures
        forall|x: Folder| #[trigger] folders_outside(s, o).contains(x) <==> s.contains(x) && !starts_with(x.path@, o),
        folders_unique(s) ==> folders_unique(folders_outside(s, o)),
    decreases s.len(),
{
    if s.len() > 0 {
        let t = s.drop_last();
        lemma_folders_outside(t, o);
        assert forall|x: Folder| #[trigger] s.contains(x) <==> t.contains(x) || x == s.last() by {
            if s.contains(x) {
                let i = choose|i: int| 0 <= i < s.len() && s[i] == x;
                if i < s.len() - 1 {
                    assert(t[i] == x);
                }
            }
            if t.contains(x) {
                let i = choose|i: int| 0 <= i < t.len() && t[i] == x;
                assert(s[i] == x);
            }
            if x == s.last() {
                assert(s[s.len() - 1] == x);
            }
        }
        let r = folders_outside(t, o);
        if !starts_with(s.last().path@, o) {
            assert forall|x: Folder| #[trigger] r.push(s.last()).contains(x) <==> r.contains(x) || x == s.last() by {
                if r.push(s.last()).contains(x) {
                    let i = choose|i: int| 0 <= i < r.len() + 1 && r.push(s.last())[i] == x;
                    if i < r.len() {
                        assert(r[i] == x);
                    }
                }
                if r.contains(x) {
                    let i = choose|i: int| 0 <= i < r.len() && r[i] == x;
                    assert(r.push(s.last())[i] == x);
                }
                if x == s.last() {
                    assert(r.push(s.last())[r.len() as int] == x);
                }
            }
        }
        if folders_unique(s) {
            assert(folders_unique(t));
            if !starts_with(s.last().path@, o) {
                let q = r.push(s.last());
                assert forall|i: int, j: int| 0 <= i < j < q.len() implies q[i].path@ != q[j].path@ by {
                    if j == r.len() {
                        assert(r.contains(q[i]));
                        assert(t.contains(q[i]));
                        let i0 = choose|i0: int| 0 <= i0 < t.len() && t[i0] == q[i];
                        assert(s[i0] == q[i]);
                        assert(s[s.len() - 1] == q[j]);
                    } else {
                        assert(q[i] == r[i] && q[j] == r[j]);
                    }
                }
            }
        }
    }
}

/// An exact copy of a row.
pub fn copy_row(a: &NoteRow) -> (b: NoteRow)
    ensures
        b == *a,
{
    NoteRow {
        note: Note {
            id: a.note.id.clone(),
            path: a.note.path.clone(),
            name: a.note.name.clone(),
            content: a.note.content.clone(),
            folder_path: a.note.folder_path.clone(),
            depth: a.note.depth,
            frontmatter: a.note.frontmatter.clone(),
            size: a.note.size,
            created_time: a.note.created_time,
            modified_time: a.note.modified_time,
        },
        db_updated_at: a.db_updated_at,
    }
}

/// An exact copy of a folder.
pub fn copy_folder(a: &Folder) -> (b: Folder)
    ensures
        b == *a,
{
    Folder { path: a.path.clone(), name: a.name.clone(), depth: a.depth }
}

/// `s` with a `/` appended.
fn with_slash(s: &String) -> (r: String)
    ensures
        r@ == s@.push('/'),
{
    let mut r = s.clone();
    r.append("/");
    proof {
        reveal_strlit("/");
    }
    assert(r@ =~= s@.push('/'));
    r
}

/// The tables after deleting folder `o` with everything under it.
pub open spec fn delete_folder_result(before: Database, after: Database, o: Seq<char>) -> bool {
    &&& after.notes@ == notes_outside(before.notes@, o.push('/'))
    &&& after.folders@ == folders_outside(before.folders@, o)
}

/// Deletes the folder with this key (one trailing slash removed), the
/// notes whose folder path starts with it followed by `/`, and the folders
/// whose path starts with it, whether or not the folder row exists.
pub fn delete_folder(db: &mut Database, path: &str)
    requires
        old(db).wf(),
    ensures
        final(db).wf(),
        delete_folder_result(*old(db), *final(db), normalized(path@)),
{
    let key = normalize(path);
    let prefix = with_slash(&key);
    let mut notes: Vec<NoteRow> = Vec::new();
    let mut i: usize = 0;
    while i < db.notes.len()
        invariant
            i <= db.notes.len(),
            *db == *old(db),
            prefix@ == key@.push('/'),
            notes@ == notes_outside(db.notes@.take(i as int), prefix@),
        decreases db.notes.len() - i,
    {
        assert(db.notes@.take(i + 1).drop_last() =~= db.notes@.take(i as int));
        if !starts_with_exec(db.notes[i].note.folder_path.as_str(), prefix.as_str()) {
            notes.push(copy_row(&db.notes[i]));
        }
        i = i + 1;
    }
    assert(db.notes@.take(db.notes.len() as int) =~= db.notes@);
    let mut folders: Vec<Folder> = Vec::new();
    let mut j: usize = 0;
    while j < db.folders.len()
        invariant
            j <= db.folders.len(),
            *db == *old(db),
            folders@ == folders_outside(db.folders@.take(j as int), key@),
        decreases db.folders.len() - j,
    {
        assert(db.folders@.take(j + 1).drop_last() =~= db.folders@.take(j as int));
        if !starts_with_exec(db.folders[j].path.as_str(), key.as_str()) {
            folders.push(copy_folder(&db.folders[j]));
        }
        j = j + 1;
    }
    assert(db.folders@.take(db.folders.len() as int) =~= db.folders@);
    proof {
        lemma_notes_outside(db.notes@, prefix@);
        lemma_folders_outside(db.folders@, key@);
    }
    db.notes = notes;
    db.folders = folders;
}

/// Path that a note takes when the folder path `os` moves to `ws`.
pub open spec fn moved_note_path(a: NoteRow, os: Seq<char>, ws: Seq<char>) -> Seq<char> {
    if starts_with(a.note.folder_path@, os) {
        replace_first(a.note.path@, os, ws)
    } else {
        a.note.path@
    }
}

/// Path that a folder takes when folder `o` moves to `w`.
pub open spec fn moved_folder_path(p: Seq<char>, o: Seq<char>, w: Seq<char>) -> Seq<char> {
    if p == o {
        w
    } else if starts_with(p, o) {
        replace_first(p, o, w)
    } else {
        p
    }
}

/// `b` is what the move of folder path `os` to `ws` makes of note row `a`.
pub open spec fn note_moved(a: NoteRow, b: NoteRow, os: Seq<char>, ws: Seq<char>, now: u64) -> bool {
    if starts_with(a.note.folder_path@, os) {
        &&& b.note.id == a.note.id
        &&& b.note.path@ == replace_first(a.note.path@, os, ws)
        &&& b.note.folder_path@ == replace_first(a.note.folder_path@, os, ws)
        &&& b.note.depth == path_depth(b.note.path@)
        &&& b.note.name == a.note.name
        &&& b.note.content == a.note.content
        &&& b.note.frontmatter == a.note.frontmatter
        &&& b.note.size == a.note.size
        &&& b.note.created_time == a.note.created_time
        &&& b.note.modified_time == a.note.modified_time
        &&& b.db_updated_at == now
    } else {
        b == a
    }
}

/// `b` is what the move of folder `o` to `w` makes of folder `a`.
pub open spec fn folder_moved(a: Folder, b: Folder, o: Seq<char>, w: Seq<char>) -> bool {
    if starts_with(a.path@, o) {
        &&& b.path@ == moved_folder_path(a.path@, o, w)
        &&& b.name@ == last_segment(b.path@)
        &&& b.depth == path_depth(b.path@)
    } else {
        b == a
    }
}

/// A move of folder `o` to `w` takes effect: the source exists, the
/// destination does not, and no two rows would share a path afterwards.
pub open spec fn move_folder_applies(db: Database, o: Seq<char>, w: Seq<char>) -> bool {
    &&& has_folder(db.folders@, o)
    &&& !has_folder(db.folders@, w)
    &&& forall|i: int, j: int|
        0 <= i < j < db.notes@.len() ==> moved_note_path(db.notes@[i], o.push('/'), w.push('/'))
            != moved_note_path(db.notes@[j], o.push('/'), w.push('/'))
    &&& forall|i: int, j: int|
        0 <= i < j < db.folders@.len() ==> moved_folder_path(db.folders@[i].path@, o, w)
            != moved_folder_path(db.folders@[j].path@, o, w)
}

/// The tables after moving folder `o` to `w` at time `now`.
pub open spec fn move_folder_result(before: Database, after: Database, o: Seq<char>, w: Seq<char>, now: u64) -> bool {
    if move_folder_applies(before, o, w) {
        &&& after.notes@.len() == before.notes@.len()
        &&& after.folders@.len() == before.folders@.len()
        &&& forall|i: int| 0 <= i < before.notes@.len() ==> note_moved(before.notes@[i], after.notes@[i], o.push('/'), w.push('/'), now)
        &&& forall|i: int| 0 <= i < before.folders@.len() ==> folder_moved(before.folders@[i], after.folders@[i], o, w)
    } else {
        after == before
    }
}

/// A folder row at `path`, named by the last segment of the path.
fn folder_at(path: String) -> (r: Folder)
    ensures
        r.path@ == path@,
        r.name@ == last_segment(path@),
        r.depth == path_depth(path@),
{
    let cs = chars_of(path.as_str());
    let name = match crate::text::rfind_char(&cs, '/') {
        Some(k) => {
            proof { lemma_last_index_bounds(cs@, '/'); }
            string_of_range(&cs, k + 1, cs.len())
        },
        None => string_of_range(&cs, 0, cs.len()),
    };
    let depth = count_of(&cs, '/') as u32;
    Folder { path, name, depth }
}

/// Moves folder `old_path` to `new_path` (one trailing slash removed), and
/// with it every note whose folder path starts with the old path and `/`
/// and every folder whose path starts with the old path.
pub fn move_folder(db: &mut Database, old_path: &str, new_path: &str, now: u64)
    requires
        old(db).wf(),
    ensures
        final(db).wf(),
        move_folder_result(*old(db), *final(db), normalized(old_path@), normalized(new_path@), now),
{
    let o = normalize(old_path);
    let w = normalize(new_path);
    if db.find_folder(o.as_str()).is_none() {
        return;
    }
    if db.find_folder(w.as_str()).is_some() {
        return;
    }
    let os = with_slash(&o);
    let ws = with_slash(&w);
    let mut notes: Vec<NoteRow> = Vec::new();
    let mut i: usize = 0;
    while i < db.notes.len()
        invariant
            i <= db.notes.len(),
            *db == *old(db),
            os@ == o@.push('/'),
            ws@ == w@.push('/'),
            notes@.len() == i,
            forall|k: int| 0 <= k < i ==> note_moved(db.notes@[k], #[trigger] notes@[k], os@, ws@, now),
            forall|k: int| 0 <= k < i ==> (#[trigger] notes@[k]).note.path@ == moved_note_path(db.notes@[k], os@, ws@),
            forall|k: int| 0 <= k < i ==> (#[trigger] notes@[k]).note.id == db.notes@[k].note.id,
        decreases db.notes.len() - i,
    {
        let a = &db.notes[i];
        if starts_with_exec(a.note.folder_path.as_str(), os.as_str()) {
            let path = replace_first_exec(a.note.path.as_str(), os.as_str(), ws.as_str());
            let folder_path = replace_first_exec(a.note.folder_path.as_str(), os.as_str(), ws.as_str());
            let pcs = chars_of(path.as_str());
            #[verifier::truncate]
            let depth = count_of(&pcs, '/') as u32;
            notes.push(
                NoteRow {
                    note: Note {
                        id: a.note.id.clone(),
                        path,
                        name: a.note.name.clone(),
                        content: a.note.content.clone(),
                        folder_path,
                        depth,
                        frontmatter: a.note.frontmatter.clone(),
                        size: a.note.size,
                        created_time: a.note.created_time,
                        modified_time: a.note.modified_time,
                    },
                    db_updated_at: now,
                },
            );
        } else {
            notes.push(copy_row(a));
        }
        i = i + 1;
    }
    let mut folders: Vec<Folder> = Vec::new();
    let mut j: usize = 0;
    while j < db.folders.len()
        invariant
            j <= db.folders.len(),
            *db == *old(db),
            folders@.len() == j,
            forall|k: int| 0 <= k < j ==> folder_moved(db.folders@[k], #[trigger] folders@[k], o@, w@),
            forall|k: int| 0 <= k < j ==> (#[trigger] folders@[k]).path@ == moved_folder_path(db.folders@[k].path@, o@, w@),
        decreases db.folders.len() - j,
    {
        let a = &db.folders[j];
        assert(o@.take(o@.len() as int) =~= o@);
        if starts_with_exec(a.path.as_str(), o.as_str()) {
            let path = if str_eq(a.path.as_str(), o.as_str()) {
                w.clone()
            } else {
                replace_first_exec(a.path.as_str(), o.as_str(), w.as_str())
            };
            let f = folder_at(path);
            folders.push(f);
        } else {
            folders.push(copy_folder(a));
        }
        j = j + 1;
    }
    if !check_notes_unique(&notes) {
        proof {
            let (a, b) = choose|a: int, b: int|
                0 <= a < b < notes@.len() && !(notes@[a].note.id@ != notes@[b].note.id@
                    && notes@[a].note.path@ != notes@[b].note.path@);
            assert(notes@[a].note.id == db.notes@[a].note.id);
            assert(notes@[b].note.id == db.notes@[b].note.id);
            assert(notes@[a].note.path@ == notes@[b].note.path@);
        }
        return;
    }
    if !check_folders_unique(&folders) {
        proof {
            let (a, b) = choose|a: int, b: int|
                0 <= a < b < folders@.len() && folders@[a].path@ == folders@[b].path@;
            assert(folders@[a].path@ == moved_folder_path(db.folders@[a].path@, o@, w@));
        }
        return;
    }
    proof {
        assert forall|a: int, b: int| 0 <= a < b < notes@.len() implies moved_note_path(
            old(db).notes@[a],
            o@.push('/'),
            w@.push('/'),
        ) != moved_note_path(old(db).notes@[b], o@.push('/'), w@.push('/')) by {
            assert(notes@[a].note.path@ == moved_note_path(db.notes@[a], os@, ws@));
            assert(notes@[b].note.path@ == moved_note_path(db.notes@[b], os@, ws@));
        }
        assert forall|a: int, b: int| 0 <= a < b < folders@.len() implies moved_folder_path(
            old(db).folders@[a].path@,
            o@,
            w@,
        ) != moved_folder_path(old(db).folders@[b].path@, o@, w@) by {
            assert(folders@[a].path@ == moved_folder_path(db.folders@[a].path@, o@, w@));
            assert(folders@[b].path@ == moved_folder_path(db.folders@[b].path@, o@, w@));
        }
    }
    db.notes = notes;
    db.folders = folders;
}

proof fn lemma_replace_leading(s: Seq<char>, p: Seq<char>, q: Seq<char>)
    requires
        starts_with(s, p),
    ensures
        replace_first(s, p, q) == q + s.skip(p.len() as int),
{
    assert(s.subrange(0, p.len() as int) =~= s.take(p.len() as int));
    assert(occurs_at(s, p, 0));
    assert(s.take(0) + q =~= q);
}

proof fn lemma_prefix_conflict(w: Seq<char>, rest: Seq<char>, o: Seq<char>)
    requires
        starts_with(w + rest, o),
    ensures
        starts_with(w, o) || starts_with(o, w),
{
    if o.len() <= w.len() {
        assert(w.take(o.len() as int) =~= (w + rest).take(o.len() as int));
    } else {
        assert(o.take(w.len() as int) =~= (w + rest).take(o.len() as int).take(w.len() as int));
        assert((w + rest).take(o.len() as int).take(w.len() as int) =~= w);
    }
}

/// A note path under a folder path ending in `/` has its folder path
/// under it too.
proof fn lemma_folder_path_prefix(path: Seq<char>, p: Seq<char>)
    requires
        starts_with(path, p),
        p.len() > 0,
        p.last() == '/',
    ensures
        starts_with(note_folder_path(path), p),
{
    lemma_last_index_bounds(path, '/');
    assert(path[p.len() - 1] == p[p.len() - 1]);
    let k = last_index_of(path, '/');
    assert(k >= p.len() - 1);
    assert(note_folder_path(path).take(p.len() as int) =~= path.take(p.len() as int));
}

/// A note's folder path is a prefix of its path.
proof fn lemma_folder_path_is_prefix(path: Seq<char>, p: Seq<char>)
    requires
        starts_with(note_folder_path(path), p),
    ensures
        starts_with(path, p),
{
    lemma_last_index_bounds(path, '/');
    assert(path.take(p.len() as int) =~= note_folder_path(path).take(p.len() as int));
}

proof fn lemma_slashed_conflict(w: Seq<char>, rest: Seq<char>, o: Seq<char>)
    requires
        starts_with(w.push('/') + rest, o.push('/')),
    ensures
        starts_with(w, o) || starts_with(o, w),
{
    let ws = w.push('/');
    let os = o.push('/');
    lemma_prefix_conflict(ws, rest, os);
    if starts_with(ws, os) {
        assert(w.take(o.len() as int) =~= ws.take(os.len() as int).take(o.len() as int));
        assert(os.take(o.len() as int) =~= o);
    } else {
        assert(o.take(w.len() as int) =~= os.take(ws.len() as int).take(w.len() as int));
        assert(ws.take(w.len() as int) =~= w);
    }
}

/// `p` is `o` followed by what remains after it.
proof fn lemma_prefix_split(p: Seq<char>, o: Seq<char>)
    requires
        starts_with(p, o),
    ensures
        p == o + p.skip(o.len() as int),
{
    assert(p =~= p.take(o.len() as int) + p.skip(o.len() as int));
}

/// Moving folder `o` to `w` never changes how many notes and folders there
/// are. When `o` exists, `w` does not, `w` does not start with `o`, and no
/// note or folder lies under `w` yet, the move takes effect, and afterwards
/// no note path or folder path of a note starts with `o/` and no folder
/// path starts with `o`.
pub proof fn lemma_move_folder_cascade(before: Database, after: Database, o: Seq<char>, w: Seq<char>, now: u64)
    requires
        before.wf(),
        move_folder_result(before, after, o, w, now),
        forall|i: int|
            0 <= i < before.notes@.len() ==> (#[trigger] before.notes@[i]).note.folder_path@ == note_folder_path(
                before.notes@[i].note.path@,
            ),
        has_folder(before.folders@, o),
        !starts_with(w, o),
        forall|i: int| 0 <= i < before.notes@.len() ==> !starts_with((#[trigger] before.notes@[i]).note.path@, w.push('/')),
        forall|i: int| 0 <= i < before.folders@.len() ==> !starts_with((#[trigger] before.folders@[i]).path@, w),
    ensures
        after.notes@.len() == before.notes@.len(),
        after.folders@.len() == before.folders@.len(),
        move_folder_applies(before, o, w),
        forall|i: int|
            0 <= i < after.notes@.len() ==> !starts_with((#[trigger] after.notes@[i]).note.path@, o.push('/'))
                && !starts_with(after.notes@[i].note.folder_path@, o.push('/')),
        forall|i: int| 0 <= i < after.folders@.len() ==> !starts_with((#[trigger] after.folders@[i]).path@, o),
{
    let os = o.push('/');
    let ws = w.push('/');
    let k0 = choose|k: int| 0 <= k < before.folders@.len() && before.folders@[k].path@ == o;
    assert(!starts_with(o, w)) by {
        assert(!starts_with(before.folders@[k0].path@, w));
    }
    assert(!has_folder(before.folders@, w)) by {
        if has_folder(before.folders@, w) {
            let k = choose|k: int| 0 <= k < before.folders@.len() && before.folders@[k].path@ == w;
            assert(w.take(w.len() as int) =~= w);
            assert(starts_with(before.folders@[k].path@, w));
        }
    }
    // A moved note's new path and folder path are `w/` followed by the rest.
    assert forall|i: int| 0 <= i < before.notes@.len() && starts_with(#[trigger] before.notes@[i].note.folder_path@, os) implies
        moved_note_path(before.notes@[i], os, ws) == ws + before.notes@[i].note.path@.skip(os.len() as int)
        && starts_with(before.notes@[i].note.path@, os) by {
        let a = before.notes@[i];
        assert(a.note.folder_path@ == note_folder_path(a.note.path@));
        lemma_folder_path_is_prefix(a.note.path@, os);
        lemma_replace_leading(a.note.path@, os, ws);
    }
    assert forall|i: int| 0 <= i < before.folders@.len() && starts_with(#[trigger] before.folders@[i].path@, o) implies
        moved_folder_path(before.folders@[i].path@, o, w) == w + before.folders@[i].path@.skip(o.len() as int) by {
        let p = before.folders@[i].path@;
        lemma_replace_leading(p, o, w);
        if p == o {
            assert(p.skip(o.len() as int) =~= Seq::<char>::empty());
            assert(w + p.skip(o.len() as int) =~= w);
        }
    }
    // No two rows meet at one path after the move.
    assert forall|i: int, j: int| 0 <= i < j < before.notes@.len() implies moved_note_path(before.notes@[i], os, ws)
        != moved_note_path(before.notes@[j], os, ws) by {
        let a = before.notes@[i];
        let b = before.notes@[j];
        let mi = starts_with(a.note.folder_path@, os);
        let mj = starts_with(b.note.folder_path@, os);
        assert(a.note.path@ != b.note.path@);
        if mi && mj {
            if moved_note_path(a, os, ws) == moved_note_path(b, os, ws) {
                let ra = a.note.path@.skip(os.len() as int);
                let rb = b.note.path@.skip(os.len() as int);
                assert(ra =~= (ws + ra).skip(ws.len() as int));
                assert(rb =~= (ws + rb).skip(ws.len() as int));
                lemma_prefix_split(a.note.path@, os);
                lemma_prefix_split(b.note.path@, os);
            }
        } else if mi {
            assert(moved_note_path(a, os, ws).take(ws.len() as int) =~= ws);
        } else if mj {
            assert(moved_note_path(b, os, ws).take(ws.len() as int) =~= ws);
        }
    }
    assert forall|i: int, j: int| 0 <= i < j < before.folders@.len() implies moved_folder_path(
        before.folders@[i].path@,
        o,
        w,
    ) != moved_folder_path(before.folders@[j].path@, o, w) by {
        let p = before.folders@[i].path@;
        let q = before.folders@[j].path@;
        assert(p != q);
        let mi = starts_with(p, o);
        let mj = starts_with(q, o);
        if mi && mj {
            if moved_folder_path(p, o, w) == moved_folder_path(q, o, w) {
                let rp = p.skip(o.len() as int);
                let rq = q.skip(o.len() as int);
                assert(rp =~= (w + rp).skip(w.len() as int));
                assert(rq =~= (w + rq).skip(w.len() as int));
                lemma_prefix_split(p, o);
                lemma_prefix_split(q, o);
            }
        } else if mi {
            assert(moved_folder_path(p, o, w).take(w.len() as int) =~= w);
            assert(q != o) by {
                if q == o {
                    assert(q.take(o.len() as int) =~= o);
                }
            }
            assert(moved_folder_path(q, o, w) == q);
        } else if mj {
            assert(moved_folder_path(q, o, w).take(w.len() as int) =~= w);
            assert(p != o) by {
                if p == o {
                    assert(p.take(o.len() as int) =~= o);
                }
            }
            assert(moved_folder_path(p, o, w) == p);
        }
    }
    assert(move_folder_applies(before, o, w));
    assert forall|i: int| 0 <= i < after.notes@.len() implies !starts_with(
        (#[trigger] after.notes@[i]).note.path@,
        os,
    ) && !starts_with(after.notes@[i].note.folder_path@, os) by {
        let a = before.notes@[i];
        assert(note_moved(a, after.notes@[i], os, ws, now));
        if starts_with(a.note.folder_path@, os) {
            if starts_with(after.notes@[i].note.path@, os) {
                lemma_slashed_conflict(w, a.note.path@.skip(os.len() as int), o);
            }
            lemma_replace_leading(a.note.folder_path@, os, ws);
            if starts_with(after.notes@[i].note.folder_path@, os) {
                lemma_slashed_conflict(w, a.note.folder_path@.skip(os.len() as int), o);
            }
        } else {
            assert(a.note.folder_path@ == note_folder_path(a.note.path@));
            if starts_with(a.note.path@, os) {
                lemma_folder_path_prefix(a.note.path@, os);
            }
        }
    }
    assert forall|i: int| 0 <= i < after.folders@.len() implies !starts_with(
        (#[trigger] after.folders@[i]).path@,
        o,
    ) by {
        let a = before.folders@[i];
        assert(folder_moved(a, after.folders@[i], o, w));
        if starts_with(a.path@, o) {
            if starts_with(after.folders@[i].path@, o) {
                lemma_prefix_conflict(w, a.path@.skip(o.len() as int), o);
            }
        }
    }
}

/// Deleting folder `f` leaves no note whose path starts with
/// `f/` and no folder whose path starts with `f`; every other row is kept
/// and no row appears.
pub proof fn lemma_delete_folder_cascade(before: Database, after: Database, f: Seq<char>)
    requires
        before.wf(),
        delete_folder_result(before, after, f),
        forall|i: int|
            0 <= i < before.notes@.len() ==> (#[trigger] before.notes@[i]).note.folder_path@ == note_folder_path(
                before.notes@[i].note.path@,
            ),
    ensures
        forall|i: int| 0 <= i < after.notes@.len() ==> !starts_with((#[trigger] after.notes@[i]).note.path@, f.push('/')),
        forall|i: int| 0 <= i < after.folders@.len() ==> !starts_with((#[trigger] after.folders@[i]).path@, f),
        forall|x: NoteRow|
            before.notes@.contains(x) && !starts_with(x.note.path@, f.push('/')) ==> #[trigger] after.notes@.contains(x),
        forall|x: Folder| before.folders@.contains(x) && !starts_with(x.path@, f) ==> #[trigger] after.folders@.contains(x),
        forall|x: NoteRow| #[trigger] after.notes@.contains(x) ==> before.notes@.contains(x),
        forall|x: Folder| #[trigger] after.folders@.contains(x) ==> before.folders@.contains(x),
{
    let fs = f.push('/');
    lemma_notes_outside(before.notes@, fs);
    lemma_folders_outside(before.folders@, f);
    assert forall|i: int| 0 <= i < after.notes@.len() implies !starts_with(
        (#[trigger] after.notes@[i]).note.path@,
        fs,
    ) by {
        let x = after.notes@[i];
        assert(after.notes@.contains(x));
        let j = choose|j: int| 0 <= j < before.notes@.len() && before.notes@[j] == x;
        assert(before.notes@[j].note.folder_path@ == note_folder_path(before.notes@[j].note.path@));
        if starts_with(x.note.path@, fs) {
            lemma_folder_path_prefix(x.note.path@, fs);
        }
    }
    assert forall|i: int| 0 <= i < after.folders@.len() implies !starts_with(
        (#[trigger] after.folders@[i]).path@,
        f,
    ) by {
        assert(after.folders@.contains(after.folders@[i]));
    }
    assert forall|x: NoteRow| before.notes@.contains(x) && !starts_with(x.note.path@, fs) implies #[trigger] after.notes@.contains(x) by {
        let j = choose|j: int| 0 <= j < before.notes@.len() && before.notes@[j] == x;
        assert(before.notes@[j].note.folder_path@ == note_folder_path(before.notes@[j].note.path@));
        if starts_with(x.note.folder_path@, fs) {
            lemma_folder_path_is_prefix(x.note.path@, fs);
        }
    }
}

/// `idx` picks the `limit` most recently written rows of `notes`, newest
/// first: distinct positions, non-increasing write times, and no row left
/// out is newer than the last one picked.
pub open spec fn recent_order(notes: Seq<NoteRow>, limit: nat, idx: Seq<usize>) -> bool {
    &&& idx.len() == if limit < notes.len() { limit } else { notes.len() }
    &&& forall|i: int| 0 <= i < idx.len() ==> idx[i] < notes.len()
    &&& forall|i: int, j: int| 0 <= i < j < idx.len() ==> idx[i] != idx[j]
    &&& forall|i: int, j: int|
        0 <= i < j < idx.len() ==> notes[idx[i] as int].db_updated_at >= notes[idx[j] as int].db_updated_at
    &&& forall|k: int|
        0 <= k < notes.len() && idx.len() > 0 && !idx.contains(k as usize) ==> (#[trigger] notes[k]).db_updated_at
            <= notes[idx.last() as int].db_updated_at
}

/// Positions of the `limit` most recently written notes, newest first.
pub fn recent_indices(db: &Database, limit: u32) -> (r: Vec<usize>)
    ensures
        recent_order(db.notes@, limit as nat, r@),
{
    let n = db.notes.len();
    let m: usize = if (limit as usize) < n { limit as usize } else { n };
    let mut taken: Vec<bool> = Vec::new();
    let mut t: usize = 0;
    while t < n
        invariant
            t <= n,
            taken@.len() == t,
            forall|k: int| 0 <= k < t ==> !taken@[k],
        decreases n - t,
    {
        taken.push(false);
        t = t + 1;
    }
    let mut r: Vec<usize> = Vec::new();
    while r.len() < m
        invariant
            n == db.notes@.len(),
            m <= n,
            m as nat == if (limit as nat) < n { limit as nat } else { n as nat },
            r@.len() <= m,
            taken@.len() == n,
            forall|i: int| 0 <= i < r@.len() ==> r@[i] < n,
            forall|k: int| 0 <= k < n ==> (taken@[k] <==> r@.contains(k as usize)),
            forall|i: int, j: int| 0 <= i < j < r@.len() ==> r@[i] != r@[j],
            forall|i: int, j: int|
                0 <= i < j < r@.len() ==> db.notes@[r@[i] as int].db_updated_at >= db.notes@[r@[j] as int].db_updated_at,
            forall|k: int|
                0 <= k < n && r@.len() > 0 && !taken@[k] ==> db.notes@[k].db_updated_at
                    <= db.notes@[r@.last() as int].db_updated_at,
        decreases m - r@.len(),
    {
        let mut best: usize = n;
        let mut k: usize = 0;
        while k < n
            invariant
                n == db.notes@.len(),
                taken@.len() == n,
                k <= n,
                best == n || (best < k && !taken@[best as int]),
                best == n ==> forall|j: int| 0 <= j < k ==> taken@[j],
                best < n ==> forall|j: int|
                    0 <= j < k && !taken@[j] ==> db.notes@[j].db_updated_at <= db.notes@[best as int].db_updated_at,
            decreases n - k,
        {
            if !taken[k] && (best == n || db.notes[k].db_updated_at > db.notes[best].db_updated_at) {
                best = k;
            }
            k = k + 1;
        }
        proof {
            if best == n {
                assert(r@.len() < n);
                assert forall|j: usize| j < n implies #[trigger] r@.contains(j) by {
                    assert(taken@[j as int]);
                }
                lemma_distinct_covering(r@, n);
            }
        }
        let ghost old_r = r@;
        let ghost old_taken = taken@;
        r.push(best);
        taken.set(best, true);
        proof {
            assert forall|k2: int| 0 <= k2 < n implies (taken@[k2] <==> r@.contains(k2 as usize)) by {
                if k2 == best {
                    assert(r@[r@.len() - 1] == best);
                } else {
                    if old_r.contains(k2 as usize) {
                        let w = choose|w: int| 0 <= w < old_r.len() && old_r[w] == k2 as usize;
                        assert(r@[w] == k2 as usize);
                    }
                    if r@.contains(k2 as usize) {
                        let w = choose|w: int| 0 <= w < r@.len() && r@[w] == k2 as usize;
                        assert(w < old_r.len());
                        assert(old_r[w] == k2 as usize);
                    }
                }
            }
            assert forall|i: int, j: int| 0 <= i < j < r@.len() implies r@[i] != r@[j] by {
                if j == r@.len() - 1 {
                    assert(old_taken[r@[i] as int]);
                    assert(old_r.contains(r@[i]));
                }
            }
            assert forall|i: int, j: int| 0 <= i < j < r@.len() implies db.notes@[r@[i] as int].db_updated_at
                >= db.notes@[r@[j] as int].db_updated_at by {
                if j == r@.len() - 1 && old_r.len() > 0 {
                    assert(db.notes@[best as int].db_updated_at <= db.notes@[old_r.last() as int].db_updated_at);
                    assert(db.notes@[r@[i] as int].db_updated_at >= db.notes@[old_r.last() as int].db_updated_at);
                }
            }
        }
    }
    proof {
        assert forall|k: int|
            0 <= k < n && r@.len() > 0 && !r@.contains(k as usize) implies (#[trigger] db.notes@[k]).db_updated_at
            <= db.notes@[r@.last() as int].db_updated_at by {
            assert(!taken@[k]);
        }
    }
    r
}

proof fn lemma_distinct_covering(r: Seq<usize>, n: usize)
    requires
        forall|i: int, j: int| 0 <= i < j < r.len() ==> r[i] != r[j],
        forall|j: usize| j < n ==> #[trigger] r.contains(j),
    ensures
        r.len() >= n,
{
    let ri = r.map_values(|x: usize| x as int);
    assert(ri.no_duplicates()) by {
        assert forall|i: int, j: int| 0 <= i < ri.len() && 0 <= j < ri.len() && i != j implies ri[i] != ri[j] by {
            if i < j {
                assert(r[i] != r[j]);
            } else {
                assert(r[j] != r[i]);
            }
        }
    }
    ri.unique_seq_to_set();
    vstd::seq_lib::seq_to_set_is_finite(ri);
    let range = vstd::set_lib::set_int_range(0, n as int);
    vstd::set_lib::lemma_int_range(0, n as int);
    assert(range.subset_of(ri.to_set())) by {
        assert forall|y: int| range.contains(y) implies ri.to_set().contains(y) by {
            assert(r.contains(y as usize));
            let w = choose|w: int| 0 <= w < r.len() && r[w] == y as usize;
            assert(ri[w] == y);
        }
    }
    vstd::set_lib::lemma_len_subset(range, ri.to_set());
}

/// The `limit` most recently written notes, newest first (read only).
pub fn get_recent_notes(db: &Database, limit: u32) -> (r: Vec<NoteRow>)
    ensures
        exists|idx: Seq<usize>|
            recent_order(db.notes@, limit as nat, idx) && r@.len() == idx.len() && forall|i: int|
                0 <= i < idx.len() ==> #[trigger] r@[i] == db.notes@[idx[i] as int],
{
    let idx = recent_indices(db, limit);
    let mut r: Vec<NoteRow> = Vec::new();
    let mut i: usize = 0;
    while i < idx.len()
        invariant
            recent_order(db.notes@, limit as nat, idx@),
            i <= idx.len(),
            r@.len() == i,
            forall|j: int| 0 <= j < i ==> #[trigger] r@[j] == db.notes@[idx@[j] as int],
        decreases idx.len() - i,
    {
        r.push(copy_row(&db.notes[idx[i]]));
        i = i + 1;
    }
    r
}

} // verus!
