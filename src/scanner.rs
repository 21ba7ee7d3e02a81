//! What a file in the vault becomes: path filtering and the note record
//! built from a file's relative path, text and metadata.
use vstd::prelude::*;
use crate::frontmatter::{
    extract_spacetime_id, extracted_id, parse_frontmatter, parsed_body, parsed_front_matter,
};
use crate::note::Note;
use crate::sanitize::{sanitize_path, sanitized};
use crate::text::{chars_of, str_eq};

verus! {

/// Entries that are never scanned, synced or watched: hidden ones and
/// system metadata directories.
pub open spec fn is_hidden_name(name: Seq<char>) -> bool {
    (name.len() > 0 && name[0] == '.') || name == "@eaDir"@
}

/// Whether a directory entry name is skipped.
pub fn is_skipped_name(name: &str) -> (r: bool)
    ensures
        r == is_hidden_name(name@),
{
    let cs = chars_of(name);
    (cs.len() > 0 && cs[0] == '.') || str_eq(name, "@eaDir")
}

/// The note that a markdown file makes, with an empty id when the file
/// carries none.
pub fn read_note_from_text(
    raw_rel_path: &str,
    content: &str,
    size: u64,
    created_time: u64,
    modified_time: u64,
) -> (r: Note)
    ensures
        r.derived_from_path(),
        r.path@ == sanitized(raw_rel_path@),
        extracted_id(content@) matches Some(id) ==> r.id@ == id,
        extracted_id(content@) is None ==> r.id@.len() == 0,
        r.content@ == parsed_body(content@),
        r.frontmatter@ == parsed_front_matter(content@),
        r.size == size,
        r.created_time == created_time,
        r.modified_time == modified_time,
{
    let rel = sanitize_path(raw_rel_path);
    let id = match extract_spacetime_id(content) {
        Some(id) => id,
        None => String::new(),
    };
    let (body, frontmatter) = parse_frontmatter(content);
    Note::new(id, rel, body, frontmatter, size, created_time, modified_time)
}

/// The note that a markdown file makes during the initial scan, which
/// skips files without an id (they are given one when first watched).
pub fn scan_note_from_text(
    raw_rel_path: &str,
    content: &str,
    size: u64,
    created_time: u64,
    modified_time: u64,
) -> (r: Option<Note>)
    ensures
        extracted_id(content@) is None <==> r is None,
        r matches Some(n) ==> {
            &&& n.derived_from_path()
            &&& n.path@ == sanitized(raw_rel_path@)
            &&& Some(n.id@) == extracted_id(content@)
            &&& n.content@ == parsed_body(content@)
            &&& n.frontmatter@ == parsed_front_matter(content@)
            &&& n.size == size
            &&& n.created_time == created_time
            &&& n.modified_time == modified_time
        },
{
    match extract_spacetime_id(content) {
        None => None,
        Some(id) => {
            let rel = sanitize_path(raw_rel_path);
            let (body, frontmatter) = parse_frontmatter(content);
            Some(Note::new(id, rel, body, frontmatter, size, created_time, modified_time))
        },
    }
}

} // verus!
