//! Decisions for filesystem events (local to remote). The caller reads the
//! files, hands over what it read, and carries out what comes back.
use vstd::prelude::*;
use crate::client::{
    contains_text, copy_note, first_with_path, ReducerCall, SpacetimeClient,
};
use crate::digest::content_hash;
use crate::folder::{folder_name, Folder};
use crate::frontmatter::{inject_spacetime_id, injected};
use crate::note::{path_depth, Note};
use crate::sanitize::{sanitize_path, sanitized};
use crate::text::{chars_of, find_exec, starts_with, starts_with_exec};
use crate::tracker::{changed, ContentTracker};

verus! {

/// What the caller does with the file that raised the event.
#[derive(Debug, Clone)]
pub enum FileAction {
    Nothing,
    /// Write this text back to the file: its new identity header.
    WriteBack { content: String },
}

/// A cached remote note sits at `path`.
pub open spec fn cached_at(c: SpacetimeClient, path: Seq<char>) -> bool {
    first_with_path(c.notes@, path) >= 0
}

/// How an event on a markdown file that exists ends.
pub enum Outcome {
    /// Same content as last agreed: an echo of our own write.
    Echo,
    /// No id, but the remote side knows a note at this path.
    SplitBrain,
    /// No id parsed, but the raw text names one.
    DamagedHeader,
    /// The note goes up, under this id.
    Upload,
    /// Nothing to send: the tracker already holds the content.
    Unchanged,
}

/// How an event on an existing markdown file ends, for note `n` read from
/// raw text `raw`, a fresh id at hand.
pub open spec fn outcome(c: SpacetimeClient, m: Map<Seq<char>, Seq<char>>, n: Note, raw: Seq<char>, fresh_id: Seq<char>) -> Outcome {
    if n.id@.len() > 0 && !changed(m, n.id@, n.content@) {
        Outcome::Echo
    } else if n.id@.len() == 0 && cached_at(c, n.path@) {
        Outcome::SplitBrain
    } else if n.id@.len() == 0 && contains_text(raw, "spacetime_id:"@) {
        Outcome::DamagedHeader
    } else {
        let id = if n.id@.len() == 0 { fresh_id } else { n.id@ };
        if changed(m, id, n.content@) {
            Outcome::Upload
        } else {
            Outcome::Unchanged
        }
    }
}

/// A markdown file was created or changed and reads as note `note` from
/// raw text `raw`. An echo is dropped. A note without an id gets
/// `fresh_id`, injected into its text, unless the remote side already has
/// a note at its path or the raw text names an id that did not parse.
/// Content the tracker does not hold yet is recorded and uploaded.
pub fn on_note_file_changed(
    client: &mut SpacetimeClient,
    tracker: &mut ContentTracker,
    note: Note,
    raw: &str,
    fresh_id: &str,
) -> (r: FileAction)
    requires
        fresh_id@.len() > 0,
    ensures
        final(client).same_except_outbox(old(client)),
        ({
            let o = outcome(*old(client), old(tracker)@, note, raw@, fresh_id@);
            let id = if note.id@.len() == 0 { fresh_id@ } else { note.id@ };
            &&& (o is Echo || o is SplitBrain || o is DamagedHeader) ==> {
                &&& r is Nothing
                &&& final(client).outbox == old(client).outbox
                &&& final(tracker)@ == old(tracker)@
            }
            &&& (o is Upload || o is Unchanged) ==> {
                &&& note.id@.len() == 0 ==> (r matches FileAction::WriteBack { content: t } && t@ == injected(raw@, fresh_id@))
                &&& note.id@.len() > 0 ==> r is Nothing
            }
            &&& o is Unchanged ==> final(client).outbox == old(client).outbox && final(tracker)@ == old(tracker)@
            &&& o is Upload ==> {
                &&& final(tracker)@ == old(tracker)@.insert(id, content_hash(note.content@))
                &&& final(client).outbox@.drop_last() == old(client).outbox@
                &&& final(client).outbox@.len() == old(client).outbox@.len() + 1
                &&& final(client).outbox@.last() matches ReducerCall::UpsertNote { note: u } && u.id@ == id && ({
                    &&& u.path == note.path
                    &&& u.name == note.name
                    &&& u.content == note.content
                    &&& u.folder_path == note.folder_path
                    &&& u.depth == note.depth
                    &&& u.frontmatter == note.frontmatter
                    &&& u.size == note.size
                    &&& u.created_time == note.created_time
                    &&& u.modified_time == note.modified_time
                })
            }
        }),
{
    let mut note = note;
    let mut action = FileAction::Nothing;
    let has_id = chars_of(note.id.as_str()).len() > 0;
    if has_id && !tracker.has_changed(note.id.as_str(), note.content.as_str()) {
        return FileAction::Nothing;
    }
    if !has_id {
        if client.get_note_by_path(note.path.as_str()).is_some() {
            return FileAction::Nothing;
        }
        let rs = chars_of(raw);
        let marker = chars_of("spacetime_id:");
        if find_exec(&rs, &marker, 0).is_some() {
            return FileAction::Nothing;
        }
        action = FileAction::WriteBack { content: inject_spacetime_id(raw, fresh_id) };
        note.id = fresh_id.to_string();
    }
    if tracker.is_modified(note.id.as_str(), note.content.as_str()) {
        let ghost before = client.outbox@;
        client.upsert_note(&note);
        tracker.update(note.id.as_str(), note.content.as_str());
        assert(client.outbox@.drop_last() =~= before);
    }
    action
}

/// A markdown file is gone: the cached note at its sanitized path, if
/// any, is deleted remotely and forgotten by the tracker.
pub fn on_note_file_removed(client: &mut SpacetimeClient, tracker: &mut ContentTracker, raw_rel_path: &str)
    ensures
        final(client).same_except_outbox(old(client)),
        !cached_at(*old(client), sanitized(raw_rel_path@)) ==> final(client).outbox == old(client).outbox
            && final(tracker)@ == old(tracker)@,
        cached_at(*old(client), sanitized(raw_rel_path@)) ==> ({
            let k = first_with_path(old(client).notes@, sanitized(raw_rel_path@));
            &&& final(tracker)@ == old(tracker)@.remove(old(client).notes@[k].id@)
            &&& final(client).outbox@.drop_last() == old(client).outbox@
            &&& final(client).outbox@.len() == old(client).outbox@.len() + 1
            &&& final(client).outbox@.last() matches ReducerCall::DeleteNote { id: x } && x@ == old(client).notes@[k].id@
        }),
{
    let rel = sanitize_path(raw_rel_path);
    match client.get_note_by_path(rel.as_str()) {
        None => {},
        Some(n) => {
            client.delete_note(n.id.as_str());
            tracker.remove(n.id.as_str());
        },
    }
}

/// A directory exists: its folder record is upserted.
pub fn on_directory_present(client: &mut SpacetimeClient, raw_rel_path: &str)
    ensures
        final(client).same_except_outbox(old(client)),
        final(client).outbox@.drop_last() == old(client).outbox@,
        final(client).outbox@.len() == old(client).outbox@.len() + 1,
        final(client).outbox@.last() matches ReducerCall::UpsertFolder { folder: f } && ({
            &&& f.path@ == sanitized(raw_rel_path@)
            &&& f.name@ == folder_name(sanitized(raw_rel_path@))
            &&& f.depth == path_depth(sanitized(raw_rel_path@))
        }),
{
    let rel = sanitize_path(raw_rel_path);
    let f = Folder::new(rel);
    let ghost before = client.outbox@;
    client.upsert_folder(&f);
    assert(client.outbox@.drop_last() =~= before);
}

/// The cached notes under a directory that disappeared: those whose path
/// starts with its sanitized path and `/`, in cache order.
pub fn notes_under(client: &SpacetimeClient, raw_rel_path: &str) -> (r: Vec<Note>)
    ensures
        r@ == under(client.notes@, sanitized(raw_rel_path@).push('/')),
{
    let rel = sanitize_path(raw_rel_path);
    let mut prefix = rel.clone();
    crate::text::push_char(&mut prefix, '/');
    let mut r: Vec<Note> = Vec::new();
    let mut i: usize = 0;
    while i < client.notes.len()
        invariant
            i <= client.notes.len(),
            prefix@ == sanitized(raw_rel_path@).push('/'),
            r@ == under(client.notes@.take(i as int), prefix@),
        decreases client.notes.len() - i,
    {
        assert(client.notes@.take(i + 1).drop_last() =~= client.notes@.take(i as int));
        assert(client.notes@.take(i + 1).last() == client.notes@[i as int]);
        if starts_with_exec(client.notes[i].path.as_str(), prefix.as_str()) {
            r.push(copy_note(&client.notes[i]));
        }
        i = i + 1;
    }
    assert(client.notes@.take(client.notes.len() as int) =~= client.notes@);
    r
}

/// The notes of `s` whose path starts with `p`, in order.
pub open spec fn under(s: Seq<Note>, p: Seq<char>) -> Seq<Note>
    decreases s.len(),
{
    if s.len() == 0 {
        s
    } else if starts_with(s.last().path@, p) {
        under(s.drop_last(), p).push(s.last())
    } else {
        under(s.drop_last(), p)
    }
}

/// A note under a vanished directory whose file is not at its old path:
/// when a search by id found it elsewhere (`found`), that note is upserted
/// (the folder was renamed on disk); otherwise the note is deleted.
pub fn on_note_missing(client: &mut SpacetimeClient, missing: &Note, found: Option<Note>)
    ensures
        final(client).same_except_outbox(old(client)),
        final(client).outbox@.drop_last() == old(client).outbox@,
        final(client).outbox@.len() == old(client).outbox@.len() + 1,
        found matches Some(n) ==> final(client).outbox@.last() == (ReducerCall::UpsertNote { note: n }),
        found is None ==> (final(client).outbox@.last() matches ReducerCall::DeleteNote { id: x } && x@ == missing.id@),
{
    let ghost before = client.outbox@;
    match found {
        Some(n) => client.upsert_note(&n),
        None => client.delete_note(missing.id.as_str()),
    }
    assert(client.outbox@.drop_last() =~= before);
}

/// After the notes under a vanished directory are settled, its folder
/// record is deleted.
pub fn on_directory_removed(client: &mut SpacetimeClient, raw_rel_path: &str)
    ensures
        final(client).same_except_outbox(old(client)),
        final(client).outbox@.drop_last() == old(client).outbox@,
        final(client).outbox@.len() == old(client).outbox@.len() + 1,
        final(client).outbox@.last() matches ReducerCall::DeleteFolder { path: x } && x@ == sanitized(raw_rel_path@),
{
    let rel = sanitize_path(raw_rel_path);
    client.delete_folder(rel.as_str());
}

} // verus!
