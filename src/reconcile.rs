//! Startup reconciliation: a two-way merge of the remote notes and the
//! notes on disk by stable id, the later modification time winning.
use vstd::prelude::*;
use crate::client::{
    copy_note, first_with_id, index_with_id, is_system_path, lemma_first_with_id, ReducerCall, SpacetimeClient,
};
use crate::folder::Folder;
use crate::digest::content_hash;
use crate::note::Note;
use crate::text::{chars_of, find_exec, str_eq};
use crate::tracker::ContentTracker;

verus! {

/// The last element of `s` is the first note of `s` with its id.
pub open spec fn last_is_first(s: Seq<Note>) -> bool {
    s.len() > 0 && first_with_id(s, s.last().id@) == s.len() - 1
}

/// The version of local note `l` that both sides agree on: the remote one
/// when it is strictly newer, else `l`.
pub open spec fn agreed_version(server: Seq<Note>, l: Note) -> Note {
    let j = first_with_id(server, l.id@);
    if j >= 0 && server[j].modified_time > l.modified_time {
        server[j]
    } else {
        l
    }
}

/// Local note `l` goes to the server: there is no remote note with its
/// id, or the local one is strictly newer.
pub open spec fn goes_up(server: Seq<Note>, l: Note) -> bool {
    let j = first_with_id(server, l.id@);
    j < 0 || l.modified_time > server[j].modified_time
}

/// Local notes, one per id, that go to the server.
pub open spec fn uploads(server: Seq<Note>, local: Seq<Note>) -> Seq<Note>
    decreases local.len(),
{
    if local.len() == 0 {
        local
    } else if last_is_first(local) && goes_up(server, local.last()) {
        uploads(server, local.drop_last()).push(local.last())
    } else {
        uploads(server, local.drop_last())
    }
}

/// Remote notes, one per id, that are newer than the local note with
/// their id and go to disk.
pub open spec fn newer_remote(server: Seq<Note>, local: Seq<Note>) -> Seq<Note>
    decreases local.len(),
{
    if local.len() == 0 {
        local
    } else if last_is_first(local) && agreed_version(server, local.last()) != local.last() {
        newer_remote(server, local.drop_last()).push(agreed_version(server, local.last()))
    } else {
        newer_remote(server, local.drop_last())
    }
}

/// Remote notes, one per id, that no local note has.
pub open spec fn remote_only(server: Seq<Note>, local: Seq<Note>) -> Seq<Note>
    decreases server.len(),
{
    if server.len() == 0 {
        server
    } else if last_is_first(server) && first_with_id(local, server.last().id@) < 0 {
        remote_only(server.drop_last(), local).push(server.last())
    } else {
        remote_only(server.drop_last(), local)
    }
}

/// Tracker map after recording the agreed version of each local id.
pub open spec fn track_local(m: Map<Seq<char>, Seq<char>>, server: Seq<Note>, local: Seq<Note>) -> Map<Seq<char>, Seq<char>>
    decreases local.len(),
{
    if local.len() == 0 {
        m
    } else if last_is_first(local) {
        track_local(m, server, local.drop_last()).insert(
            local.last().id@,
            content_hash(agreed_version(server, local.last()).content@),
        )
    } else {
        track_local(m, server, local.drop_last())
    }
}

/// Tracker map after recording each remote-only note.
pub open spec fn track_remote(m: Map<Seq<char>, Seq<char>>, server: Seq<Note>, local: Seq<Note>) -> Map<Seq<char>, Seq<char>>
    decreases server.len(),
{
    if server.len() == 0 {
        m
    } else if last_is_first(server) && first_with_id(local, server.last().id@) < 0 {
        track_remote(m, server.drop_last(), local).insert(server.last().id@, content_hash(server.last().content@))
    } else {
        track_remote(m, server.drop_last(), local)
    }
}

pub open spec fn upsert_calls(s: Seq<Note>) -> Seq<ReducerCall> {
    s.map_values(|n: Note| ReducerCall::UpsertNote { note: n })
}

/// Whether `s[i]` is the first note of `s` with its id.
fn first_of_its_id(s: &Vec<Note>, i: usize) -> (r: bool)
    requires
        i < s.len(),
    ensures
        r == last_is_first(s@.take(i + 1)),
{
    proof { lemma_first_with_id(s@.take(i + 1), s@[i as int].id@); }
    let mut j: usize = 0;
    while j < i
        invariant
            i < s.len(),
            j <= i,
            forall|k: int| 0 <= k < j ==> s@[k].id@ != s@[i as int].id@,
        decreases i - j,
    {
        if str_eq(s[j].id.as_str(), s[i].id.as_str()) {
            proof {
                let t = s@.take(i + 1);
                assert(t[j as int].id@ == s@[i as int].id@);
                assert(t.last() == s@[i as int]);
                lemma_first_with_id(t, t.last().id@);
            }
            return false;
        }
        j = j + 1;
    }
    proof {
        let t = s@.take(i + 1);
        assert(t.last() == s@[i as int]);
        assert forall|k: int| 0 <= k < i implies t[k].id@ != t.last().id@ by {
            assert(t[k] == s@[k]);
        }
    }
    true
}

/// Merges the cached remote notes with `local_notes` by id. For an id on
/// both sides the later modification time wins (the local note on a tie);
/// an id on one side only is taken from that side. Local winners are
/// queued for upload, remote winners are returned for writing to disk,
/// and the tracker records the content that wins for every id.
pub fn reconcile_on_startup(
    client: &mut SpacetimeClient,
    local_notes: &Vec<Note>,
    tracker: &mut ContentTracker,
) -> (downloads: Vec<Note>)
    ensures
        final(client).same_except_outbox(old(client)),
        final(client).outbox@ == old(client).outbox@ + upsert_calls(uploads(old(client).notes@, local_notes@)),
        downloads@ == newer_remote(old(client).notes@, local_notes@) + remote_only(old(client).notes@, local_notes@),
        final(tracker)@ == track_remote(
            track_local(old(tracker)@, old(client).notes@, local_notes@),
            old(client).notes@,
            local_notes@,
        ),
{
    let server = client.get_all_notes();
    let ghost s = server@;
    let mut downloads: Vec<Note> = Vec::new();
    let mut i: usize = 0;
    while i < local_notes.len()
        invariant
            i <= local_notes.len(),
            s == old(client).notes@,
            server@ == s,
            client.same_except_outbox(old(client)),
            client.outbox@ == old(client).outbox@ + upsert_calls(uploads(s, local_notes@.take(i as int))),
            downloads@ == newer_remote(s, local_notes@.take(i as int)),
            tracker@ == track_local(old(tracker)@, s, local_notes@.take(i as int)),
        decreases local_notes.len() - i,
    {
        let ghost t = local_notes@.take(i + 1);
        assert(t.drop_last() =~= local_notes@.take(i as int));
        assert(t.last() == local_notes@[i as int]);
        let l = &local_notes[i];
        let ghost before = client.outbox@;
        if first_of_its_id(local_notes, i) {
            match index_with_id(&server, l.id.as_str()) {
                Some(j) => {
                    if server[j].modified_time > l.modified_time {
                        tracker.update(server[j].id.as_str(), server[j].content.as_str());
                        downloads.push(copy_note(&server[j]));
                    } else if l.modified_time > server[j].modified_time {
                        tracker.update(l.id.as_str(), l.content.as_str());
                        client.upsert_note(l);
                    } else {
                        tracker.update(l.id.as_str(), l.content.as_str());
                    }
                },
                None => {
                    tracker.update(l.id.as_str(), l.content.as_str());
                    client.upsert_note(l);
                },
            }
        }
        proof {
            let u = uploads(s, local_notes@.take(i as int));
            if client.outbox@ != before {
                assert(upsert_calls(u.push(local_notes@[i as int])) =~= upsert_calls(u).push(
                    ReducerCall::UpsertNote { note: local_notes@[i as int] },
                ));
                assert(client.outbox@ =~= old(client).outbox@ + upsert_calls(u.push(local_notes@[i as int])));
            }
        }
        i = i + 1;
    }
    assert(local_notes@.take(local_notes.len() as int) =~= local_notes@);
    let ghost mid = downloads@;
    let mut k: usize = 0;
    while k < server.len()
        invariant
            k <= server.len(),
            server@ == s,
            s == old(client).notes@,
            mid == newer_remote(s, local_notes@),
            downloads@ == mid + remote_only(s.take(k as int), local_notes@),
            tracker@ == track_remote(track_local(old(tracker)@, s, local_notes@), s.take(k as int), local_notes@),
        decreases server.len() - k,
    {
        let ghost t = s.take(k + 1);
        assert(t.drop_last() =~= s.take(k as int));
        assert(t.last() == s[k as int]);
        let n = &server[k];
        if first_of_its_id(&server, k) {
            if index_with_id(local_notes, n.id.as_str()).is_none() {
                tracker.update(n.id.as_str(), n.content.as_str());
                downloads.push(copy_note(n));
                assert(downloads@ =~= mid + remote_only(t, local_notes@));
            }
        }
        k = k + 1;
    }
    assert(s.take(server.len() as int) =~= s);
    downloads
}

/// The remote folders that are not system metadata directories, in order.
pub open spec fn folders_to_mirror(s: Seq<Folder>) -> Seq<Folder>
    decreases s.len(),
{
    if s.len() == 0 {
        s
    } else if is_system_path(s.last().path@) {
        folders_to_mirror(s.drop_last())
    } else {
        folders_to_mirror(s.drop_last()).push(s.last())
    }
}

/// Startup reconciliation of folders: returns the cached remote folders to
/// create on disk (system metadata directories skipped), and queues an
/// upsert of every local folder. Folders are never deleted here.
pub fn reconcile_folders(client: &mut SpacetimeClient, local_folders: &[Folder]) -> (r: Vec<Folder>)
    ensures
        r@ == folders_to_mirror(old(client).folders@),
        final(client).same_except_outbox(old(client)),
        final(client).outbox@.len() == old(client).outbox@.len() + local_folders@.len(),
        final(client).outbox@.take(old(client).outbox@.len() as int) == old(client).outbox@,
        forall|i: int|
            0 <= i < local_folders@.len() ==> final(client).outbox@[old(client).outbox@.len() + i]
                == (ReducerCall::UpsertFolder { folder: local_folders@[i] }),
{
    let server = client.get_all_folders();
    let mut r: Vec<Folder> = Vec::new();
    let mut i: usize = 0;
    while i < server.len()
        invariant
            i <= server.len(),
            server@ == client.folders@,
            r@ == folders_to_mirror(server@.take(i as int)),
        decreases server.len() - i,
    {
        assert(server@.take(i + 1).drop_last() =~= server@.take(i as int));
        assert(server@.take(i + 1).last() == server@[i as int]);
        let f = &server[i];
        let cs = chars_of(f.path.as_str());
        let marker = chars_of("@eaDir");
        if find_exec(&cs, &marker, 0).is_none() {
            r.push(Folder { path: f.path.clone(), name: f.name.clone(), depth: f.depth });
        }
        i = i + 1;
    }
    assert(server@.take(server.len() as int) =~= server@);
    client.sync_folders(local_folders);
    r
}

} // verus!
