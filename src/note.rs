//! The note record shared by the scanner, the writer and the remote tables.
use vstd::prelude::*;
use crate::text::{
    chars_of, count_char, count_of, last_index_of, last_segment, lemma_last_index_bounds,
    rfind_char, string_of_range,
};

verus! {

/// `s` with every trailing `.md` removed.
pub open spec fn trim_md(s: Seq<char>) -> Seq<char>
    decreases s.len(),
{
    if s.len() >= 3 && s.subrange(s.len() - 3, s.len() as int) == seq!['.', 'm', 'd'] {
        trim_md(s.take(s.len() - 3))
    } else {
        s
    }
}

/// Basename of a note path without its `.md` extension.
pub open spec fn note_name(path: Seq<char>) -> Seq<char> {
    last_segment(trim_md(path))
}

/// Everything up to and including the last `/`; empty at the vault root.
pub open spec fn note_folder_path(path: Seq<char>) -> Seq<char> {
    path.take(last_index_of(path, '/') + 1)
}

/// Number of `/` in a path.
pub open spec fn path_depth(path: Seq<char>) -> u32 {
    count_char(path, '/') as u32
}

#[derive(Debug, Clone)]
pub struct Note {
    pub id: String,
    pub path: String,
    pub name: String,
    pub content: String,
    pub folder_path: String,
    pub depth: u32,
    pub frontmatter: String,
    pub size: u64,
    pub created_time: u64,
    pub modified_time: u64,
}

impl Note {
    /// `name`, `folder_path` and `depth` are those that `path` determines.
    pub open spec fn derived_from_path(&self) -> bool {
        &&& self.name@ == note_name(self.path@)
        &&& self.folder_path@ == note_folder_path(self.path@)
        &&& self.depth == path_depth(self.path@)
    }

    /// Builds a note, deriving `name`, `folder_path` and `depth` from `path`.
    pub fn new(
        id: String,
        path: String,
        content: String,
        frontmatter: String,
        size: u64,
        created_time: u64,
        modified_time: u64,
    ) -> (r: Note)
        ensures
            r.derived_from_path(),
            r.id@ == id@,
            r.path@ == path@,
            r.content@ == content@,
            r.frontmatter@ == frontmatter@,
            r.size == size,
            r.created_time == created_time,
            r.modified_time == modified_time,
    {
        let (name, folder_path, depth) = path_parts(&path);
        Note {
            id,
            path,
            name,
            content,
            folder_path,
            depth,
            frontmatter,
            size,
            created_time,
            modified_time,
        }
    }
}

/// Length of `trim_md(cs[..n])`.
fn trimmed_md_len(cs: &Vec<char>) -> (r: usize)
    ensures
        r <= cs.len(),
        cs@.take(r as int) == trim_md(cs@),
{
    let mut n: usize = cs.len();
    assert(cs@.take(n as int) =~= cs@);
    while n >= 3 && cs[n - 3] == '.' && cs[n - 2] == 'm' && cs[n - 1] == 'd'
        invariant
            n <= cs.len(),
            trim_md(cs@) == trim_md(cs@.take(n as int)),
        decreases n,
    {
        let ghost t = cs@.take(n as int);
        assert(t.subrange(t.len() - 3, t.len() as int) =~= seq!['.', 'm', 'd']);
        assert(t.take(t.len() - 3) =~= cs@.take(n - 3));
        n = n - 3;
    }
    proof {
        let t = cs@.take(n as int);
        if t.len() >= 3 && t.subrange(t.len() - 3, t.len() as int) == seq!['.', 'm', 'd'] {
            assert(t.subrange(t.len() - 3, t.len() as int)[0] == cs@[n - 3]);
            assert(t.subrange(t.len() - 3, t.len() as int)[1] == cs@[n - 2]);
            assert(t.subrange(t.len() - 3, t.len() as int)[2] == cs@[n - 1]);
        }
    }
    n
}

/// Name, folder path and depth of a note path.
pub fn path_parts(path: &str) -> (r: (String, String, u32))
    ensures
        r.0@ == note_name(path@),
        r.1@ == note_folder_path(path@),
        r.2 == path_depth(path@),
{
    let cs = chars_of(path);
    let n = trimmed_md_len(&cs);
    let ghost t = cs@.take(n as int);
    let mut tcs: Vec<char> = Vec::new();
    let mut i: usize = 0;
    while i < n
        invariant
            i <= n <= cs.len(),
            tcs@ == cs@.take(i as int),
        decreases n - i,
    {
        tcs.push(cs[i]);
        assert(tcs@ =~= cs@.take(i + 1));
        i = i + 1;
    }
    let name = match rfind_char(&tcs, '/') {
        Some(k) => {
            proof { lemma_last_index_bounds(tcs@, '/'); }
            string_of_range(&tcs, k + 1, n)
        },
        None => string_of_range(&tcs, 0, n),
    };
    let folder_path = match rfind_char(&cs, '/') {
        Some(k) => {
            proof { lemma_last_index_bounds(cs@, '/'); }
            string_of_range(&cs, 0, k + 1)
        },
        None => String::new(),
    };
    proof {
        assert(folder_path@ =~= note_folder_path(path@));
        assert(name@ =~= note_name(path@));
    }
    let depth = count_of(&cs, '/') as u32;
    (name, folder_path, depth)
}

} // verus!
