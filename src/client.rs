//! The client side of the replicated tables: the local row cache, the
//! reducer calls queued for the server, and what each row change means
//! for the vault on disk.
use vstd::prelude::*;
use crate::digest::content_hash;
use crate::folder::Folder;
use crate::note::Note;
use crate::text::{byte_len, byte_len_exec, chars_of, count_of, find_exec, find_from, str_eq};
use crate::tracker::{changed, ContentTracker};

verus! {

/// A reducer invocation for the server, in the order it was issued.
#[derive(Debug, Clone)]
pub enum ReducerCall {
    CreateNote { note: Note },
    UpdateNoteContent { id: String, content: String, frontmatter: String, size: u64, modified_time: u64 },
    RenameNote { id: String, new_path: String },
    DeleteNote { id: String },
    MoveNote { old_path: String, new_path: String },
    UpsertNote { note: Note },
    AppendToNote { path: String, content: String },
    PrependToNote { path: String, content: String },
    FindReplaceInNote { path: String, old_text: String, new_text: String, replace_all: bool },
    CreateFolder { path: String, name: String, depth: u32 },
    DeleteFolder { path: String },
    MoveFolder { old_path: String, new_path: String },
    UpsertFolder { folder: Folder },
}

/// What a remote row change asks of the vault on disk.
#[derive(Debug, Clone)]
pub enum LocalEffect {
    /// An echo or a change already on disk.
    Nothing,
    /// Write the note; first delete `stale` when the note left that path.
    WriteNote { note: Note, stale: Option<String> },
    DeleteFile { path: String },
    CreateDir { path: String },
    RenameDir { from: String, to: String },
    RemoveDir { path: String },
}

/// Identity, path and name of a note.
#[derive(Debug, Clone)]
pub struct NoteInfo {
    pub id: String,
    pub path: String,
    pub name: String,
}

/// A note without its sizes and timestamps.
#[derive(Debug, Clone)]
pub struct FullNote {
    pub id: String,
    pub path: String,
    pub name: String,
    pub content: String,
    pub folder_path: String,
    pub frontmatter: String,
}

pub struct SpacetimeClient {
    pub host: String,
    pub db_name: String,
    /// Set once the initial subscription has been applied.
    pub synced: bool,
    pub notes: Vec<Note>,
    pub folders: Vec<Folder>,
    /// Reducer calls not yet handed to the runtime.
    pub outbox: Vec<ReducerCall>,
}

/// Lower-case form of a text, as `str::to_lowercase` gives it.
pub uninterp spec fn lower_of(s: Seq<char>) -> Seq<char>;

/// Relies on `str::to_lowercase`: the result depends on the text alone.
#[verifier::external_body]
fn lowercase(s: &str) -> (r: String)
    ensures
        r@ == lower_of(s@),
{
    s.to_lowercase()
}

pub open spec fn contains_text(s: Seq<char>, p: Seq<char>) -> bool {
    find_from(s, p, 0) >= 0
}

/// Whether a note matches a lower-cased query by name, path or content.
pub open spec fn note_matches(n: Note, q: Seq<char>) -> bool {
    ||| contains_text(lower_of(n.name@), q)
    ||| contains_text(lower_of(n.path@), q)
    ||| contains_text(lower_of(n.content@), q)
}

/// The notes of `s` whose folder path is `fp`, in order.
pub open spec fn in_folder(s: Seq<Note>, fp: Seq<char>) -> Seq<Note>
    decreases s.len(),
{
    if s.len() == 0 {
        s
    } else if s.last().folder_path@ == fp {
        in_folder(s.drop_last(), fp).push(s.last())
    } else {
        in_folder(s.drop_last(), fp)
    }
}

/// The notes of `s` that match the lower-cased query `q`, in order.
pub open spec fn search_hits(s: Seq<Note>, q: Seq<char>) -> Seq<Note>
    decreases s.len(),
{
    if s.len() == 0 {
        s
    } else if note_matches(s.last(), q) {
        search_hits(s.drop_last(), q).push(s.last())
    } else {
        search_hits(s.drop_last(), q)
    }
}

pub open spec fn info_of(i: NoteInfo, n: Note) -> bool {
    i.id == n.id && i.path == n.path && i.name == n.name
}

pub open spec fn infos_of(r: Seq<NoteInfo>, s: Seq<Note>) -> bool {
    r.len() == s.len() && forall|i: int| 0 <= i < s.len() ==> info_of(#[trigger] r[i], s[i])
}

/// Index of the first note of `s` with this id, or -1.
pub open spec fn first_with_id(s: Seq<Note>, id: Seq<char>) -> int
    decreases s.len(),
{
    if s.len() == 0 {
        -1
    } else if first_with_id(s.drop_last(), id) >= 0 {
        first_with_id(s.drop_last(), id)
    } else if s.last().id@ == id {
        s.len() - 1
    } else {
        -1
    }
}

/// The cache `s` after row `n` is stored: it replaces the row with its id,
/// or is added at the end.
pub open spec fn cache_put(s: Seq<Note>, n: Note) -> Seq<Note> {
    if first_with_id(s, n.id@) >= 0 {
        s.update(first_with_id(s, n.id@), n)
    } else {
        s.push(n)
    }
}

/// The cache `s` after the row with this id is dropped.
pub open spec fn cache_drop(s: Seq<Note>, id: Seq<char>) -> Seq<Note> {
    if first_with_id(s, id) >= 0 {
        s.remove(first_with_id(s, id))
    } else {
        s
    }
}

pub proof fn lemma_first_with_id(s: Seq<Note>, id: Seq<char>)
    ensures
        -1 <= first_with_id(s, id) < s.len(),
        first_with_id(s, id) >= 0 ==> s[first_with_id(s, id)].id@ == id,
        forall|j: int| 0 <= j < s.len() && (first_with_id(s, id) == -1 || j < first_with_id(s, id)) ==> s[j].id@ != id,
    decreases s.len(),
{
    if s.len() > 0 {
        let t = s.drop_last();
        lemma_first_with_id(t, id);
        assert forall|j: int| 0 <= j < s.len() && (first_with_id(s, id) == -1 || j < first_with_id(s, id)) implies s[j].id@ != id by {
            if j < s.len() - 1 {
                assert(s[j] == t[j]);
            }
        }
    }
}

/// Index of the first note of `s` at this path, or -1.
pub open spec fn first_with_path(s: Seq<Note>, path: Seq<char>) -> int
    decreases s.len(),
{
    if s.len() == 0 {
        -1
    } else if first_with_path(s.drop_last(), path) >= 0 {
        first_with_path(s.drop_last(), path)
    } else if s.last().path@ == path {
        s.len() - 1
    } else {
        -1
    }
}

pub proof fn lemma_first_with_path(s: Seq<Note>, path: Seq<char>)
    ensures
        -1 <= first_with_path(s, path) < s.len(),
        first_with_path(s, path) >= 0 ==> s[first_with_path(s, path)].path@ == path,
        forall|j: int| 0 <= j < s.len() && (first_with_path(s, path) == -1 || j < first_with_path(s, path)) ==> s[j].path@ != path,
    decreases s.len(),
{
    if s.len() > 0 {
        let t = s.drop_last();
        lemma_first_with_path(t, path);
        assert forall|j: int| 0 <= j < s.len() && (first_with_path(s, path) == -1 || j < first_with_path(s, path)) implies s[j].path@ != path by {
            if j < s.len() - 1 {
                assert(s[j] == t[j]);
            }
        }
    }
}

/// Position of the first note of `s` with this id.
pub fn index_with_id(s: &Vec<Note>, id: &str) -> (r: Option<usize>)
    ensures
        r matches Some(k) ==> k as int == first_with_id(s@, id@) && k < s.len() && s@[k as int].id@ == id@,
        r is None ==> first_with_id(s@, id@) == -1,
{
    proof { lemma_first_with_id(s@, id@); }
    let mut i: usize = 0;
    while i < s.len()
        invariant
            i <= s.len(),
            forall|j: int| 0 <= j < i ==> s@[j].id@ != id@,
        decreases s.len() - i,
    {
        if str_eq(s[i].id.as_str(), id) {
            proof { lemma_first_with_id(s@, id@); }
            return Some(i);
        }
        i = i + 1;
    }
    proof { lemma_first_with_id(s@, id@); }
    None
}

/// An exact copy of a note.
pub fn copy_note(n: &Note) -> (r: Note)
    ensures
        r == *n,
{
    Note {
        id: n.id.clone(),
        path: n.path.clone(),
        name: n.name.clone(),
        content: n.content.clone(),
        folder_path: n.folder_path.clone(),
        depth: n.depth,
        frontmatter: n.frontmatter.clone(),
        size: n.size,
        created_time: n.created_time,
        modified_time: n.modified_time,
    }
}

fn info(n: &Note) -> (r: NoteInfo)
    ensures
        info_of(r, *n),
{
    NoteInfo { id: n.id.clone(), path: n.path.clone(), name: n.name.clone() }
}

/// Whether `s` contains `p`.
fn contains_exec(s: &str, p: &str) -> (r: bool)
    ensures
        r == contains_text(s@, p@),
{
    let cs = chars_of(s);
    let ps = chars_of(p);
    find_exec(&cs, &ps, 0).is_some()
}

impl SpacetimeClient {
    /// A client for module `db_name` at `host`, with empty caches, nothing
    /// queued, and the initial subscription not applied yet.
    pub fn connect(host: &str, db_name: &str) -> (r: SpacetimeClient)
        ensures
            r.host@ == host@,
            r.db_name@ == db_name@,
            !r.synced,
            r.notes@.len() == 0,
            r.folders@.len() == 0,
            r.outbox@.len() == 0,
    {
        SpacetimeClient {
            host: host.to_string(),
            db_name: db_name.to_string(),
            synced: false,
            notes: Vec::new(),
            folders: Vec::new(),
            outbox: Vec::new(),
        }
    }

    /// Records that the initial subscription has been applied.
    pub fn on_subscription_applied(&mut self)
        ensures
            final(self).synced,
            final(self).notes == old(self).notes,
            final(self).folders == old(self).folders,
            final(self).outbox == old(self).outbox,
    {
        self.synced = true;
    }

    /// Every cached note, in cache order.
    pub fn get_all_notes(&self) -> (r: Vec<Note>)
        ensures
            r@ == self.notes@,
    {
        let mut r: Vec<Note> = Vec::new();
        let mut i: usize = 0;
        while i < self.notes.len()
            invariant
                i <= self.notes.len(),
                r@ == self.notes@.take(i as int),
            decreases self.notes.len() - i,
        {
            r.push(copy_note(&self.notes[i]));
            assert(r@ =~= self.notes@.take(i + 1));
            i = i + 1;
        }
        assert(self.notes@.take(self.notes.len() as int) =~= self.notes@);
        r
    }

    /// Every cached folder, in cache order.
    pub fn get_all_folders(&self) -> (r: Vec<Folder>)
        ensures
            r@ == self.folders@,
    {
        let mut r: Vec<Folder> = Vec::new();
        let mut i: usize = 0;
        while i < self.folders.len()
            invariant
                i <= self.folders.len(),
                r@ == self.folders@.take(i as int),
            decreases self.folders.len() - i,
        {
            let f = &self.folders[i];
            r.push(Folder { path: f.path.clone(), name: f.name.clone(), depth: f.depth });
            assert(r@ =~= self.folders@.take(i + 1));
            i = i + 1;
        }
        assert(self.folders@.take(self.folders.len() as int) =~= self.folders@);
        r
    }

    /// The first cached note at `path`.
    pub fn get_note_by_path(&self, path: &str) -> (r: Option<Note>)
        ensures
            first_with_path(self.notes@, path@) == -1 ==> r is None,
            first_with_path(self.notes@, path@) >= 0 ==> r == Some(self.notes@[first_with_path(self.notes@, path@)]),
    {
        proof { lemma_first_with_path(self.notes@, path@); }
        let mut i: usize = 0;
        while i < self.notes.len()
            invariant
                i <= self.notes.len(),
                forall|j: int| 0 <= j < i ==> self.notes@[j].path@ != path@,
            decreases self.notes.len() - i,
        {
            if str_eq(self.notes[i].path.as_str(), path) {
                proof {
                    lemma_first_with_path(self.notes@, path@);
                    if first_with_path(self.notes@, path@) != i {
                        assert(self.notes@[first_with_path(self.notes@, path@)].path@ == path@);
                    }
                }
                return Some(copy_note(&self.notes[i]));
            }
            i = i + 1;
        }
        proof { lemma_first_with_path(self.notes@, path@); }
        None
    }

    /// Position in the cache of the first note with this id.
    fn index_of_id(&self, id: &str) -> (r: Option<usize>)
        ensures
            r matches Some(k) ==> k as int == first_with_id(self.notes@, id@) && k < self.notes@.len(),
            r is None ==> first_with_id(self.notes@, id@) == -1,
    {
        index_with_id(&self.notes, id)
    }

    /// The first cached note with this id, without sizes and timestamps.
    pub fn get_note_by_id(&self, id: &str) -> (r: Option<FullNote>)
        ensures
            first_with_id(self.notes@, id@) == -1 ==> r is None,
            first_with_id(self.notes@, id@) >= 0 ==> (r matches Some(f) && ({
                let n = self.notes@[first_with_id(self.notes@, id@)];
                &&& f.id == n.id
                &&& f.path == n.path
                &&& f.name == n.name
                &&& f.content == n.content
                &&& f.folder_path == n.folder_path
                &&& f.frontmatter == n.frontmatter
            })),
    {
        proof { lemma_first_with_id(self.notes@, id@); }
        match self.index_of_id(id) {
            None => None,
            Some(k) => {
                let n = &self.notes[k];
                Some(
                    FullNote {
                        id: n.id.clone(),
                        path: n.path.clone(),
                        name: n.name.clone(),
                        content: n.content.clone(),
                        folder_path: n.folder_path.clone(),
                        frontmatter: n.frontmatter.clone(),
                    },
                )
            },
        }
    }

    /// The cached notes whose folder path is exactly `folder_path`.
    pub fn list_notes_in_folder(&self, folder_path: &str) -> (r: Vec<NoteInfo>)
        ensures
            infos_of(r@, in_folder(self.notes@, folder_path@)),
    {
        let mut r: Vec<NoteInfo> = Vec::new();
        let mut i: usize = 0;
        while i < self.notes.len()
            invariant
                i <= self.notes.len(),
                infos_of(r@, in_folder(self.notes@.take(i as int), folder_path@)),
            decreases self.notes.len() - i,
        {
            let ghost before = r@;
            assert(self.notes@.take(i + 1).drop_last() =~= self.notes@.take(i as int));
            assert(self.notes@.take(i + 1).last() == self.notes@[i as int]);
            if str_eq(self.notes[i].folder_path.as_str(), folder_path) {
                r.push(info(&self.notes[i]));
                proof {
                    let sel = in_folder(self.notes@.take(i as int), folder_path@);
                    assert forall|k: int| 0 <= k < sel.push(self.notes@[i as int]).len() implies info_of(
                        #[trigger] r@[k],
                        sel.push(self.notes@[i as int])[k],
                    ) by {
                        if k < sel.len() {
                            assert(r@[k] == before[k]);
                        }
                    }
                }
            }
            i = i + 1;
        }
        assert(self.notes@.take(self.notes.len() as int) =~= self.notes@);
        r
    }

    /// The cached notes whose name, path or content contains `query`,
    /// compared in lower case.
    pub fn search_notes(&self, query: &str) -> (r: Vec<NoteInfo>)
        ensures
            infos_of(r@, search_hits(self.notes@, lower_of(query@))),
    {
        let q = lowercase(query);
        let mut r: Vec<NoteInfo> = Vec::new();
        let mut i: usize = 0;
        while i < self.notes.len()
            invariant
                i <= self.notes.len(),
                q@ == lower_of(query@),
                infos_of(r@, search_hits(self.notes@.take(i as int), lower_of(query@))),
            decreases self.notes.len() - i,
        {
            let ghost before = r@;
            assert(self.notes@.take(i + 1).drop_last() =~= self.notes@.take(i as int));
            assert(self.notes@.take(i + 1).last() == self.notes@[i as int]);
            let n = &self.notes[i];
            let hit = contains_exec(lowercase(n.name.as_str()).as_str(), q.as_str())
                || contains_exec(lowercase(n.path.as_str()).as_str(), q.as_str())
                || contains_exec(lowercase(n.content.as_str()).as_str(), q.as_str());
            if hit {
                r.push(info(n));
                proof {
                    let sel = search_hits(self.notes@.take(i as int), lower_of(query@));
                    assert forall|k: int| 0 <= k < sel.push(self.notes@[i as int]).len() implies info_of(
                        #[trigger] r@[k],
                        sel.push(self.notes@[i as int])[k],
                    ) by {
                        if k < sel.len() {
                            assert(r@[k] == before[k]);
                        }
                    }
                }
            }
            i = i + 1;
        }
        assert(self.notes@.take(self.notes.len() as int) =~= self.notes@);
        r
    }

    /// The state apart from the outbox is that of `o`.
    pub open spec fn same_except_outbox(&self, o: &SpacetimeClient) -> bool {
        &&& self.host == o.host
        &&& self.db_name == o.db_name
        &&& self.synced == o.synced
        &&& self.notes == o.notes
        &&& self.folders == o.folders
    }

    /// The state apart from the note cache is that of `o`.
    pub open spec fn same_except_notes(&self, o: &SpacetimeClient) -> bool {
        &&& self.host == o.host
        &&& self.db_name == o.db_name
        &&& self.synced == o.synced
        &&& self.outbox == o.outbox
        &&& self.folders == o.folders
    }

    /// The state apart from the folder cache is that of `o`.
    pub open spec fn same_except_folders(&self, o: &SpacetimeClient) -> bool {
        &&& self.host == o.host
        &&& self.db_name == o.db_name
        &&& self.synced == o.synced
        &&& self.outbox == o.outbox
        &&& self.notes == o.notes
    }

    fn queue(&mut self, call: ReducerCall)
        ensures
            final(self).same_except_outbox(old(self)),
            final(self).outbox@ == old(self).outbox@.push(call),
    {
        self.outbox.push(call);
    }

    /// Hands over the queued reducer calls, oldest first.
    pub fn take_outbox(&mut self) -> (r: Vec<ReducerCall>)
        ensures
            r@ == old(self).outbox@,
            final(self).outbox@.len() == 0,
            final(self).same_except_outbox(old(self)),
    {
        let mut r: Vec<ReducerCall> = Vec::new();
        std::mem::swap(&mut r, &mut self.outbox);
        r
    }

    /// Queues `rename_note`.
    pub fn rename_note(&mut self, id: String, new_path: String)
        ensures
            final(self).same_except_outbox(old(self)),
            final(self).outbox@ == old(self).outbox@.push(ReducerCall::RenameNote { id, new_path }),
    {
        self.queue(ReducerCall::RenameNote { id, new_path });
    }

    /// Queues `delete_note`.
    pub fn delete_note(&mut self, id: &str)
        ensures
            final(self).same_except_outbox(old(self)),
            final(self).outbox@.drop_last() == old(self).outbox@,
            final(self).outbox@.len() == old(self).outbox@.len() + 1,
            final(self).outbox@.last() matches ReducerCall::DeleteNote { id: x } && x@ == id@,
    {
        self.queue(ReducerCall::DeleteNote { id: id.to_string() });
        assert(self.outbox@.drop_last() =~= old(self).outbox@);
    }

    /// Queues `create_folder`.
    pub fn create_folder(&mut self, path: String, name: String, depth: u32)
        ensures
            final(self).same_except_outbox(old(self)),
            final(self).outbox@ == old(self).outbox@.push(ReducerCall::CreateFolder { path, name, depth }),
    {
        self.queue(ReducerCall::CreateFolder { path, name, depth });
    }

    /// Queues `create_note` for a new note with no header fields, its depth
    /// and size computed, created and modified at `now`.
    pub fn create_note(
        &mut self,
        id: String,
        path: String,
        name: String,
        content: String,
        folder_path: String,
        now: u64,
    )
        ensures
            final(self).same_except_outbox(old(self)),
            final(self).outbox@.drop_last() == old(self).outbox@,
            final(self).outbox@.len() == old(self).outbox@.len() + 1,
            final(self).outbox@.last() matches ReducerCall::CreateNote { note: n } && ({
                &&& n.id == id
                &&& n.path == path
                &&& n.name == name
                &&& n.content == content
                &&& n.folder_path == folder_path
                &&& n.depth == crate::note::path_depth(path@)
                &&& n.frontmatter@.len() == 0
                &&& n.size == byte_len(content@)
                &&& n.created_time == now
                &&& n.modified_time == now
            }),
    {
        let pcs = chars_of(path.as_str());
        #[verifier::truncate]
        let depth = count_of(&pcs, '/') as u32;
        let size = byte_len_exec(content.as_str());
        let note = Note {
            id,
            path,
            name,
            content,
            folder_path,
            depth,
            frontmatter: String::new(),
            size,
            created_time: now,
            modified_time: now,
        };
        self.queue(ReducerCall::CreateNote { note });
        assert(self.outbox@.drop_last() =~= old(self).outbox@);
    }

    /// Queues `update_note_content` with no header fields, the size
    /// computed and the modification time `now`.
    pub fn update_note_content(&mut self, id: String, content: String, now: u64)
        ensures
            final(self).same_except_outbox(old(self)),
            final(self).outbox@.drop_last() == old(self).outbox@,
            final(self).outbox@.len() == old(self).outbox@.len() + 1,
            final(self).outbox@.last() matches ReducerCall::UpdateNoteContent { id: i, content: c, frontmatter: f, size: z, modified_time: m }
                && i == id && c == content && f@.len() == 0 && z == byte_len(content@) && m == now,
    {
        let size = byte_len_exec(content.as_str());
        self.queue(
            ReducerCall::UpdateNoteContent { id, content, frontmatter: String::new(), size, modified_time: now },
        );
        assert(self.outbox@.drop_last() =~= old(self).outbox@);
    }

    /// Queues `move_note`.
    pub fn move_note(&mut self, old_path: String, new_path: String)
        ensures
            final(self).same_except_outbox(old(self)),
            final(self).outbox@ == old(self).outbox@.push(ReducerCall::MoveNote { old_path, new_path }),
    {
        self.queue(ReducerCall::MoveNote { old_path, new_path });
    }

    /// Queues `move_folder`.
    pub fn move_folder(&mut self, old_path: String, new_path: String)
        ensures
            final(self).same_except_outbox(old(self)),
            final(self).outbox@ == old(self).outbox@.push(ReducerCall::MoveFolder { old_path, new_path }),
    {
        self.queue(ReducerCall::MoveFolder { old_path, new_path });
    }

    /// Queues `delete_folder`.
    pub fn delete_folder(&mut self, path: &str)
        ensures
            final(self).same_except_outbox(old(self)),
            final(self).outbox@.drop_last() == old(self).outbox@,
            final(self).outbox@.len() == old(self).outbox@.len() + 1,
            final(self).outbox@.last() matches ReducerCall::DeleteFolder { path: x } && x@ == path@,
    {
        self.queue(ReducerCall::DeleteFolder { path: path.to_string() });
        assert(self.outbox@.drop_last() =~= old(self).outbox@);
    }

    /// Queues `append_to_note`.
    pub fn append_to_note(&mut self, path: String, content: String)
        ensures
            final(self).same_except_outbox(old(self)),
            final(self).outbox@ == old(self).outbox@.push(ReducerCall::AppendToNote { path, content }),
    {
        self.queue(ReducerCall::AppendToNote { path, content });
    }

    /// Queues `prepend_to_note`.
    pub fn prepend_to_note(&mut self, path: String, content: String)
        ensures
            final(self).same_except_outbox(old(self)),
            final(self).outbox@ == old(self).outbox@.push(ReducerCall::PrependToNote { path, content }),
    {
        self.queue(ReducerCall::PrependToNote { path, content });
    }

    /// Queues `find_replace_in_note`.
    pub fn find_replace_in_note(&mut self, path: String, old_text: String, new_text: String, replace_all: bool)
        ensures
            final(self).same_except_outbox(old(self)),
            final(self).outbox@ == old(self).outbox@.push(
                ReducerCall::FindReplaceInNote { path, old_text, new_text, replace_all },
            ),
    {
        self.queue(ReducerCall::FindReplaceInNote { path, old_text, new_text, replace_all });
    }

    /// Queues `upsert_note` with all fields of `note`.
    pub fn upsert_note(&mut self, note: &Note)
        ensures
            final(self).same_except_outbox(old(self)),
            final(self).outbox@ == old(self).outbox@.push(ReducerCall::UpsertNote { note: *note }),
    {
        self.queue(ReducerCall::UpsertNote { note: copy_note(note) });
    }

    /// Queues `upsert_folder` with all fields of `folder`.
    pub fn upsert_folder(&mut self, folder: &Folder)
        ensures
            final(self).same_except_outbox(old(self)),
            final(self).outbox@ == old(self).outbox@.push(ReducerCall::UpsertFolder { folder: *folder }),
    {
        let f = Folder { path: folder.path.clone(), name: folder.name.clone(), depth: folder.depth };
        self.queue(ReducerCall::UpsertFolder { folder: f });
    }

    /// Queues `upsert_folder` for each folder, in order.
    pub fn sync_folders(&mut self, folders: &[Folder])
        ensures
            final(self).same_except_outbox(old(self)),
            final(self).outbox@.len() == old(self).outbox@.len() + folders@.len(),
            final(self).outbox@.take(old(self).outbox@.len() as int) == old(self).outbox@,
            forall|i: int|
                0 <= i < folders@.len() ==> final(self).outbox@[old(self).outbox@.len() + i]
                    == (ReducerCall::UpsertFolder { folder: folders@[i] }),
    {
        let mut i: usize = 0;
        while i < folders.len()
            invariant
                i <= folders@.len(),
                self.same_except_outbox(old(self)),
                self.outbox@.len() == old(self).outbox@.len() + i,
                self.outbox@.take(old(self).outbox@.len() as int) == old(self).outbox@,
                forall|k: int|
                    0 <= k < i ==> self.outbox@[old(self).outbox@.len() + k]
                        == (ReducerCall::UpsertFolder { folder: folders@[k] }),
            decreases folders@.len() - i,
        {
            let ghost before = self.outbox@;
            self.upsert_folder(&folders[i]);
            assert(self.outbox@.take(old(self).outbox@.len() as int) =~= before.take(old(self).outbox@.len() as int));
            i = i + 1;
        }
    }

    /// Stores a row in the note cache, replacing the one with its id.
    fn put_note(&mut self, n: Note)
        ensures
            final(self).same_except_notes(old(self)),
            final(self).notes@ == cache_put(old(self).notes@, n),
    {
        match self.index_of_id(n.id.as_str()) {
            Some(k) => {
                self.notes.set(k, n);
            },
            None => {
                self.notes.push(n);
            },
        }
    }

    /// A note row was inserted remotely. Content the tracker already holds
    /// is an echo and is ignored; other content is recorded in the tracker
    /// and written to disk.
    pub fn on_note_inserted(&mut self, tracker: &mut ContentTracker, new: Note) -> (r: LocalEffect)
        ensures
            final(self).same_except_notes(old(self)),
            final(self).notes@ == cache_put(old(self).notes@, new),
            changed(old(tracker)@, new.id@, new.content@) ==> {
                &&& final(tracker)@ == old(tracker)@.insert(new.id@, content_hash(new.content@))
                &&& r == (LocalEffect::WriteNote { note: new, stale: None })
            },
            !changed(old(tracker)@, new.id@, new.content@) ==> final(tracker)@ == old(tracker)@ && r
                is Nothing,
    {
        let fresh = tracker.is_modified(new.id.as_str(), new.content.as_str());
        let copy = copy_note(&new);
        self.put_note(copy);
        if !fresh {
            return LocalEffect::Nothing;
        }
        tracker.update(new.id.as_str(), new.content.as_str());
        LocalEffect::WriteNote { note: new, stale: None }
    }

    /// A note row was updated remotely. Nothing happens when neither its
    /// path nor its content changed; otherwise the content is recorded in
    /// the tracker and the note written, the file at the old path removed
    /// when the path changed.
    pub fn on_note_updated(&mut self, tracker: &mut ContentTracker, old_row: Note, new: Note) -> (r: LocalEffect)
        ensures
            final(self).same_except_notes(old(self)),
            final(self).notes@ == cache_put(old(self).notes@, new),
            ({
                let moved = old_row.path@ != new.path@;
                let edited = changed(old(tracker)@, new.id@, new.content@);
                &&& !moved && !edited ==> final(tracker)@ == old(tracker)@ && r is Nothing
                &&& (moved || edited) ==> final(tracker)@ == old(tracker)@.insert(new.id@, content_hash(new.content@))
                &&& moved ==> r == (LocalEffect::WriteNote { note: new, stale: Some(old_row.path) })
                &&& !moved && edited ==> r == (LocalEffect::WriteNote { note: new, stale: None })
            }),
    {
        let moved = !str_eq(old_row.path.as_str(), new.path.as_str());
        let edited = tracker.is_modified(new.id.as_str(), new.content.as_str());
        let copy = copy_note(&new);
        self.put_note(copy);
        if !moved && !edited {
            return LocalEffect::Nothing;
        }
        tracker.update(new.id.as_str(), new.content.as_str());
        let stale = if moved {
            Some(old_row.path)
        } else {
            None
        };
        LocalEffect::WriteNote { note: new, stale }
    }

    /// A note row was deleted remotely: its file goes and the tracker
    /// forgets it.
    pub fn on_note_deleted(&mut self, tracker: &mut ContentTracker, old_row: Note) -> (r: LocalEffect)
        ensures
            final(self).same_except_notes(old(self)),
            final(self).notes@ == cache_drop(old(self).notes@, old_row.id@),
            final(tracker)@ == old(tracker)@.remove(old_row.id@),
            r == (LocalEffect::DeleteFile { path: old_row.path }),
    {
        match self.index_of_id(old_row.id.as_str()) {
            Some(k) => {
                self.notes.remove(k);
            },
            None => {},
        }
        tracker.remove(old_row.id.as_str());
        LocalEffect::DeleteFile { path: old_row.path }
    }
}

/// Whether a folder path names a system metadata directory.
pub open spec fn is_system_path(p: Seq<char>) -> bool {
    contains_text(p, "@eaDir"@)
}

/// Index of the first folder of `s` at `path`, or -1.
pub open spec fn first_folder(s: Seq<Folder>, path: Seq<char>) -> int
    decreases s.len(),
{
    if s.len() == 0 {
        -1
    } else if first_folder(s.drop_last(), path) >= 0 {
        first_folder(s.drop_last(), path)
    } else if s.last().path@ == path {
        s.len() - 1
    } else {
        -1
    }
}

pub proof fn lemma_first_folder(s: Seq<Folder>, path: Seq<char>)
    ensures
        -1 <= first_folder(s, path) < s.len(),
        first_folder(s, path) >= 0 ==> s[first_folder(s, path)].path@ == path,
        forall|j: int| 0 <= j < s.len() && (first_folder(s, path) == -1 || j < first_folder(s, path)) ==> s[j].path@ != path,
    decreases s.len(),
{
    if s.len() > 0 {
        let t = s.drop_last();
        lemma_first_folder(t, path);
        assert forall|j: int| 0 <= j < s.len() && (first_folder(s, path) == -1 || j < first_folder(s, path)) implies s[j].path@ != path by {
            if j < s.len() - 1 {
                assert(s[j] == t[j]);
            }
        }
    }
}

/// The folder cache after the row at `path` is replaced by `f`, or `f` added.
pub open spec fn folder_put(s: Seq<Folder>, path: Seq<char>, f: Folder) -> Seq<Folder> {
    if first_folder(s, path) >= 0 {
        s.update(first_folder(s, path), f)
    } else {
        s.push(f)
    }
}

/// The folder cache after the row at `path` is dropped.
pub open spec fn folder_drop(s: Seq<Folder>, path: Seq<char>) -> Seq<Folder> {
    if first_folder(s, path) >= 0 {
        s.remove(first_folder(s, path))
    } else {
        s
    }
}

impl SpacetimeClient {
    fn index_of_folder(&self, path: &str) -> (r: Option<usize>)
        ensures
            r matches Some(k) ==> k as int == first_folder(self.folders@, path@) && k < self.folders@.len(),
            r is None ==> first_folder(self.folders@, path@) == -1,
    {
        proof { lemma_first_folder(self.folders@, path@); }
        let mut i: usize = 0;
        while i < self.folders.len()
            invariant
                i <= self.folders.len(),
                forall|j: int| 0 <= j < i ==> self.folders@[j].path@ != path@,
            decreases self.folders.len() - i,
        {
            if str_eq(self.folders[i].path.as_str(), path) {
                proof {
                    lemma_first_folder(self.folders@, path@);
                }
                return Some(i);
            }
            i = i + 1;
        }
        proof { lemma_first_folder(self.folders@, path@); }
        None
    }

    fn put_folder(&mut self, path: &str, f: Folder)
        ensures
            final(self).same_except_folders(old(self)),
            final(self).folders@ == folder_put(old(self).folders@, path@, f),
    {
        match self.index_of_folder(path) {
            Some(k) => {
                self.folders.set(k, f);
            },
            None => {
                self.folders.push(f);
            },
        }
    }

    /// A folder row was inserted remotely: its directory is created unless
    /// it is a system metadata directory.
    pub fn on_folder_inserted(&mut self, new: Folder) -> (r: LocalEffect)
        ensures
            final(self).same_except_folders(old(self)),
            final(self).folders@ == folder_put(old(self).folders@, new.path@, new),
            is_system_path(new.path@) ==> r is Nothing,
            !is_system_path(new.path@) ==> r == (LocalEffect::CreateDir { path: new.path }),
    {
        let path = new.path.clone();
        self.put_folder(path.as_str(), new);
        if contains_exec(path.as_str(), "@eaDir") {
            LocalEffect::Nothing
        } else {
            LocalEffect::CreateDir { path }
        }
    }

    /// A folder row was updated remotely: its directory is renamed when the
    /// path changed.
    pub fn on_folder_updated(&mut self, old_row: Folder, new: Folder) -> (r: LocalEffect)
        ensures
            final(self).same_except_folders(old(self)),
            final(self).folders@ == folder_put(old(self).folders@, old_row.path@, new),
            old_row.path@ == new.path@ ==> r is Nothing,
            old_row.path@ != new.path@ ==> r == (LocalEffect::RenameDir { from: old_row.path, to: new.path }),
    {
        let to = new.path.clone();
        self.put_folder(old_row.path.as_str(), new);
        if str_eq(old_row.path.as_str(), to.as_str()) {
            LocalEffect::Nothing
        } else {
            LocalEffect::RenameDir { from: old_row.path, to }
        }
    }

    /// A folder row was deleted remotely: its directory goes with all it holds.
    pub fn on_folder_deleted(&mut self, old_row: Folder) -> (r: LocalEffect)
        ensures
            final(self).same_except_folders(old(self)),
            final(self).folders@ == folder_drop(old(self).folders@, old_row.path@),
            r == (LocalEffect::RemoveDir { path: old_row.path }),
    {
        match self.index_of_folder(old_row.path.as_str()) {
            Some(k) => {
                self.folders.remove(k);
            },
            None => {},
        }
        LocalEffect::RemoveDir { path: old_row.path }
    }
}

} // verus!
