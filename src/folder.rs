//! Folder records: keyed by their path, stored without a trailing slash.
use vstd::prelude::*;
use crate::note::path_depth;
use crate::text::{
    chars_of, count_of, last_segment, lemma_last_index_bounds, rfind_char, string_of_range,
    trim_end_char,
};

verus! {

/// Last segment of a folder path, trailing slashes ignored.
pub open spec fn folder_name(path: Seq<char>) -> Seq<char> {
    last_segment(trim_end_char(path, '/'))
}

#[derive(Debug, Clone)]
pub struct Folder {
    pub path: String,
    pub name: String,
    pub depth: u32,
}

impl Folder {
    /// Builds a folder record, deriving `name` and `depth` from `path`.
    pub fn new(path: String) -> (r: Folder)
        ensures
            r.path@ == path@,
            r.name@ == folder_name(path@),
            r.depth == path_depth(path@),
    {
        let cs = chars_of(path.as_str());
        let n = trimmed_len(&cs, '/');
        let name = match rfind_char(&n.1, '/') {
            Some(k) => {
                proof { lemma_last_index_bounds(n.1@, '/'); }
                string_of_range(&n.1, k + 1, n.0)
            },
            None => string_of_range(&n.1, 0, n.0),
        };
        assert(name@ =~= folder_name(path@));
        let depth = count_of(&cs, '/') as u32;
        Folder { path, name, depth }
    }
}

/// `cs` with trailing copies of `c` removed: its length and characters.
pub fn trimmed_len(cs: &Vec<char>, c: char) -> (r: (usize, Vec<char>))
    ensures
        r.0 == r.1.len(),
        r.1@ == trim_end_char(cs@, c),
{
    let mut n: usize = cs.len();
    assert(cs@.take(n as int) =~= cs@);
    while n > 0 && cs[n - 1] == c
        invariant
            n <= cs.len(),
            trim_end_char(cs@, c) == trim_end_char(cs@.take(n as int), c),
        decreases n,
    {
        assert(cs@.take(n as int).drop_last() =~= cs@.take(n - 1));
        n = n - 1;
    }
    let mut out: Vec<char> = Vec::new();
    let mut i: usize = 0;
    while i < n
        invariant
            i <= n <= cs.len(),
            out@ == cs@.take(i as int),
        decreases n - i,
    {
        out.push(cs[i]);
        assert(out@ =~= cs@.take(i + 1));
        i = i + 1;
    }
    (n, out)
}

} // verus!
