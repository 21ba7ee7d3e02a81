//! Echo suppression: the content hash last agreed on for each note id.
use vstd::prelude::*;
use crate::digest::{content_hash, hash_content};
use crate::text::str_eq;

verus! {

#[derive(Debug, Clone)]
pub struct TrackEntry {
    pub id: String,
    pub hash: String,
}

/// Hash recorded for `id` (the latest entry with that id wins).
pub open spec fn lookup(es: Seq<TrackEntry>, id: Seq<char>) -> Option<Seq<char>>
    decreases es.len(),
{
    if es.len() == 0 {
        None
    } else if es.last().id@ == id {
        Some(es.last().hash@)
    } else {
        lookup(es.drop_last(), id)
    }
}

/// `es` without the entries for `id`.
pub open spec fn drop_id(es: Seq<TrackEntry>, id: Seq<char>) -> Seq<TrackEntry>
    decreases es.len(),
{
    if es.len() == 0 {
        es
    } else if es.last().id@ == id {
        drop_id(es.drop_last(), id)
    } else {
        drop_id(es.drop_last(), id).push(es.last())
    }
}

proof fn lemma_lookup_drop_id(es: Seq<TrackEntry>, id: Seq<char>, k: Seq<char>)
    ensures
        lookup(drop_id(es, id), k) == if k == id {
            None
        } else {
            lookup(es, k)
        },
    decreases es.len(),
{
    if es.len() > 0 {
        lemma_lookup_drop_id(es.drop_last(), id, k);
        if es.last().id@ != id {
            assert(drop_id(es, id).drop_last() == drop_id(es.drop_last(), id));
        }
    }
}

#[derive(Debug, Clone)]
pub struct ContentTracker {
    hashes: Vec<TrackEntry>,
}

impl View for ContentTracker {
    type V = Map<Seq<char>, Seq<char>>;

    closed spec fn view(&self) -> Map<Seq<char>, Seq<char>> {
        Map::new(|k: Seq<char>| lookup(self.hashes@, k) is Some, |k: Seq<char>| lookup(self.hashes@, k)->0)
    }
}

/// Whether `content` differs from what the tracker map `m` holds for `id`.
pub open spec fn changed(m: Map<Seq<char>, Seq<char>>, id: Seq<char>, content: Seq<char>) -> bool {
    !(m.contains_key(id) && m[id] == content_hash(content))
}

impl ContentTracker {
    /// An empty tracker.
    pub fn new() -> (r: ContentTracker)
        ensures
            r@ == Map::<Seq<char>, Seq<char>>::empty(),
    {
        let r = ContentTracker { hashes: Vec::new() };
        assert(r@ =~= Map::<Seq<char>, Seq<char>>::empty());
        r
    }

    /// Hexadecimal SHA-256 of `content`.
    pub fn hash(content: &str) -> (r: String)
        ensures
            r@ == content_hash(content@),
    {
        hash_content(content)
    }

    fn without(&self, id: &str) -> (r: Vec<TrackEntry>)
        ensures
            r@ == drop_id(self.hashes@, id@),
    {
        let mut r: Vec<TrackEntry> = Vec::new();
        let mut i: usize = 0;
        while i < self.hashes.len()
            invariant
                i <= self.hashes.len(),
                r@ == drop_id(self.hashes@.take(i as int), id@),
            decreases self.hashes.len() - i,
        {
            let e = &self.hashes[i];
            assert(self.hashes@.take(i + 1).drop_last() =~= self.hashes@.take(i as int));
            if !str_eq(e.id.as_str(), id) {
                r.push(TrackEntry { id: e.id.clone(), hash: e.hash.clone() });
            }
            i = i + 1;
        }
        assert(self.hashes@.take(self.hashes.len() as int) =~= self.hashes@);
        r
    }

    /// Records the hash of `content` as the agreed state of `id`.
    pub fn update(&mut self, id: &str, content: &str)
        ensures
            final(self)@ == old(self)@.insert(id@, content_hash(content@)),
    {
        let h = Self::hash(content);
        let mut es = self.without(id);
        let ghost dropped = es@;
        es.push(TrackEntry { id: id.to_string(), hash: h });
        self.hashes = es;
        proof {
            assert forall|k: Seq<char>| k != id@ implies lookup(self.hashes@, k) == lookup(
                old(self).hashes@,
                k,
            ) by {
                assert(self.hashes@.drop_last() == dropped);
                lemma_lookup_drop_id(old(self).hashes@, id@, k);
            }
            assert(self@ =~= old(self)@.insert(id@, content_hash(content@)));
        }
    }

    fn get(&self, id: &str) -> (r: Option<&String>)
        ensures
            r matches Some(h) ==> self@.contains_key(id@) && self@[id@] == h@,
            r is None ==> !self@.contains_key(id@),
    {
        let mut i: usize = self.hashes.len();
        assert(self.hashes@.take(i as int) =~= self.hashes@);
        while i > 0
            invariant
                i <= self.hashes.len(),
                lookup(self.hashes@, id@) == lookup(self.hashes@.take(i as int), id@),
            decreases i,
        {
            assert(self.hashes@.take(i as int).drop_last() =~= self.hashes@.take(i - 1));
            if str_eq(self.hashes[i - 1].id.as_str(), id) {
                return Some(&self.hashes[i - 1].hash);
            }
            i = i - 1;
        }
        None
    }

    /// Whether `current_content` differs from the agreed state of `id`
    /// (true when `id` is not tracked). Does not change the tracker.
    pub fn has_changed(&self, id: &str, current_content: &str) -> (r: bool)
        ensures
            r == changed(self@, id@, current_content@),
    {
        let new_hash = Self::hash(current_content);
        match self.get(id) {
            Some(old_hash) => !str_eq(old_hash.as_str(), new_hash.as_str()),
            None => true,
        }
    }

    /// As `has_changed`; when the content differs its hash is recorded.
    pub fn is_modified(&mut self, id: &str, current_content: &str) -> (r: bool)
        ensures
            r == changed(old(self)@, id@, current_content@),
            final(self)@ == if r {
                old(self)@.insert(id@, content_hash(current_content@))
            } else {
                old(self)@
            },
    {
        let r = self.has_changed(id, current_content);
        if r {
            self.update(id, current_content);
        }
        r
    }

    /// Forgets `id`.
    pub fn remove(&mut self, id: &str)
        ensures
            final(self)@ == old(self)@.remove(id@),
    {
        let es = self.without(id);
        self.hashes = es;
        proof {
            assert forall|k: Seq<char>| #[trigger] lookup(self.hashes@, k) == (if k == id@ {
                None
            } else {
                lookup(old(self).hashes@, k)
            }) by {
                lemma_lookup_drop_id(old(self).hashes@, id@, k);
            }
            assert(self@ =~= old(self)@.remove(id@));
        }
    }
}

/// After `update(id, c)`, content `c` is reported unchanged for `id` by
/// both `has_changed` and `is_modified`.
pub proof fn lemma_update_then_unchanged(m: Map<Seq<char>, Seq<char>>, id: Seq<char>, c: Seq<char>)
    ensures
        !changed(m.insert(id, content_hash(c)), id, c),
{
}

} // verus!
