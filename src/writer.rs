//! The canonical on-disk form of a note: a header carrying its id, a blank
//! line, and the body.
use vstd::prelude::*;
use crate::client::contains_text;
use crate::frontmatter::{
    yaml_as_json,
    after_fence, closing_fence, has_front_matter, is_ws, lemma_find_first_at, opening_fence,
    parsed_body, trim_start_ws, trim_ws, yaml_region, ID_KEY,
};
use crate::note::Note;
use crate::sanitize::{all_allowed, lemma_sanitize_idempotent, sanitized};
use crate::text::{chars_of, occurs_at, starts_with, string_of_range};

verus! {

#[derive(Debug, Clone, Copy, PartialEq, Eq, Structural)]
pub enum WriteError {
    /// The note's path would place it outside the vault.
    OutsideVault,
    /// The header could not be serialised.
    Serialize,
}

/// The YAML text of the JSON object `json` with `key` set to the string
/// `value`; none when `json` does not parse as an object.
pub uninterp spec fn json_header_yaml(json: Seq<char>, key: Seq<char>, value: Seq<char>) -> Option<Seq<char>>;

/// Relies on `serde_json::from_str`, `Map::insert` and
/// `serde_yaml::to_string`: the stored header, as YAML, with one entry set
/// (none unless the text reads as a JSON object).
#[verifier::external_body]
fn header_yaml(json: &str, key: &str, value: &str) -> (r: Option<String>)
    ensures
        r matches Some(s) ==> json_header_yaml(json@, key@, value@) == Some(s@),
        r is None ==> json_header_yaml(json@, key@, value@) is None,
{
    let mut map = match serde_json::from_str::<serde_json::Value>(json) {
        Ok(serde_json::Value::Object(m)) => m,
        _ => return None,
    };
    map.insert(key.to_string(), serde_json::Value::String(value.to_string()));
    serde_yaml::to_string(&serde_json::Value::Object(map)).ok()
}

/// `s` with every leading `---\n` removed.
pub open spec fn strip_doc_markers(s: Seq<char>) -> Seq<char>
    decreases s.len(),
{
    if starts_with(s, "---\n"@) && s.len() >= 4 {
        strip_doc_markers(s.skip(4))
    } else {
        s
    }
}

/// `p` has a `..` component at position `i`.
pub open spec fn parent_component_at(p: Seq<char>, i: int) -> bool {
    &&& 0 <= i && i + 2 <= p.len()
    &&& p[i] == '.' && p[i + 1] == '.'
    &&& (i == 0 || p[i - 1] == '/')
    &&& (i + 2 == p.len() || p[i + 2] == '/')
}

/// A note path that may leave the vault when joined to its root: an
/// absolute path, or one with a `..` component.
pub open spec fn escapes_vault(path: Seq<char>) -> bool {
    (path.len() > 0 && path[0] == '/') || exists|i: int| parent_component_at(path, i)
}

/// The header YAML written for `note`: its stored header with the id set,
/// or a header holding only the id when the stored one is not a JSON object.
pub open spec fn header_for(note: Note) -> Option<Seq<char>> {
    if json_header_yaml(note.frontmatter@, ID_KEY@, note.id@) is Some {
        json_header_yaml(note.frontmatter@, ID_KEY@, note.id@)
    } else {
        json_header_yaml("{}"@, ID_KEY@, note.id@)
    }
}

/// The file text for `note`, or why there is none.
pub open spec fn note_file(note: Note) -> Result<Seq<char>, WriteError> {
    if escapes_vault(note.path@) {
        Err(WriteError::OutsideVault)
    } else {
        match header_for(note) {
            None => Err(WriteError::Serialize),
            Some(y) => Ok("---\n"@ + trim_ws(strip_doc_markers(y)) + "\n---\n\n"@ + note.content@),
        }
    }
}

/// Whether `path` stays inside the vault: neither absolute nor with a `..`
/// component.
pub fn inside_vault(path: &str) -> (r: bool)
    ensures
        r == !escapes_vault(path@),
{
    let cs = chars_of(path);
    if cs.len() > 0 && cs[0] == '/' {
        return false;
    }
    let mut i: usize = 0;
    while i < cs.len() && cs.len() - i >= 2
        invariant
            cs@ == path@,
            i <= cs.len(),
            forall|j: int| 0 <= j < i ==> !parent_component_at(cs@, j),
        decreases cs.len() - i,
    {
        if cs[i] == '.' && cs[i + 1] == '.' && (i == 0 || cs[i - 1] == '/') && (i + 2 == cs.len() || cs[i + 2]
            == '/') {
            assert(parent_component_at(path@, i as int));
            return false;
        }
        i = i + 1;
    }
    assert forall|j: int| !parent_component_at(cs@, j) by {
        if 0 <= j < i {
        }
    }
    true
}

/// The text written for `note`: its header (an empty object when the
/// stored one is missing or not a JSON object) with `spacetime_id` set to
/// its id, overriding a stale one, then `\n---\n\n` and its body.
pub fn note_file_text(note: &Note) -> (r: Result<String, WriteError>)
    ensures
        r matches Ok(s) ==> note_file(*note) == Ok::<Seq<char>, WriteError>(s@),
        r matches Err(e) ==> note_file(*note) == Err::<Seq<char>, WriteError>(e),
{
    if !inside_vault(note.path.as_str()) {
        return Err(WriteError::OutsideVault);
    }
    let y = match header_yaml(note.frontmatter.as_str(), ID_KEY, note.id.as_str()) {
        Some(y) => y,
        None => match header_yaml("{}", ID_KEY, note.id.as_str()) {
            Some(y) => y,
            None => {
                return Err(WriteError::Serialize);
            },
        },
    };
    let cs = chars_of(y.as_str());
    let mut lo: usize = 0;
    assert(cs@.skip(0) =~= cs@);
    while cs.len() - lo >= 4 && cs[lo] == '-' && cs[lo + 1] == '-' && cs[lo + 2] == '-' && cs[lo + 3] == '\n'
        invariant
            lo <= cs.len(),
            strip_doc_markers(cs@) == strip_doc_markers(cs@.skip(lo as int)),
        decreases cs.len() - lo,
    {
        proof {
            reveal_strlit("---\n");
            assert(cs@.skip(lo as int).take(4) =~= "---\n"@);
            assert(cs@.skip(lo as int).skip(4) =~= cs@.skip(lo + 4));
        }
        lo = lo + 4;
    }
    proof {
        reveal_strlit("---\n");
        let t = cs@.skip(lo as int);
        if starts_with(t, "---\n"@) && t.len() >= 4 {
            assert(t.take(4)[0] == cs@[lo as int]);
            assert(t.take(4)[1] == cs@[lo + 1]);
            assert(t.take(4)[2] == cs@[lo + 2]);
            assert(t.take(4)[3] == cs@[lo + 3]);
        }
    }
    let rest = string_of_range(&cs, lo, cs.len());
    assert(cs@.subrange(lo as int, cs.len() as int) =~= cs@.skip(lo as int));
    let trimmed = crate::frontmatter::trim_text(rest.as_str());
    let mut out = "---\n".to_string();
    out.append(trimmed.as_str());
    out.append("\n---\n\n");
    out.append(note.content.as_str());
    Ok(out)
}

/// Seconds and nanoseconds of a time in milliseconds.
pub fn mtime_parts(ms: u64) -> (r: (u64, u32))
    ensures
        r.0 == ms / 1000,
        r.1 == (ms % 1000) * 1_000_000,
{
    (ms / 1000, ((ms % 1000) * 1_000_000) as u32)
}

/// The header text that `note_file` writes for `note`.
pub open spec fn written_header(note: Note) -> Seq<char> {
    trim_ws(strip_doc_markers(header_for(note)->0))
}

/// A note written to disk reads back with the same path and body, when its
/// path is already in sanitized form, its body does not start with
/// whitespace (reading trims it), and its written header parses and has no
/// line opening with `---`.
pub proof fn lemma_written_body_reads_back(note: Note, text: Seq<char>)
    requires
        note_file(note) == Ok::<Seq<char>, WriteError>(text),
        all_allowed(note.path@),
        note.content@.len() > 0 ==> !is_ws(note.content@[0]),
        !contains_text("\n"@ + written_header(note), closing_fence()),
        yaml_as_json(trim_ws("\n"@ + written_header(note))) is Some,
    ensures
        sanitized(note.path@) == note.path@,
        has_front_matter(text),
        yaml_region(text) == "\n"@ + written_header(note),
        parsed_body(text) == note.content@,
{
    reveal_strlit("---\n");
    reveal_strlit("\n---\n\n");
    reveal_strlit("\n");
    reveal_strlit("\n\n");
    lemma_sanitize_idempotent(note.path@);
    crate::sanitize::lemma_all_allowed_fixed(note.path@);
    let y = written_header(note);
    let lead = "\n"@ + y;
    assert(text =~= "---\n"@ + y + "\n---\n\n"@ + note.content@);
    let rest = text.skip(3);
    assert(rest =~= lead + "\n---\n\n"@ + note.content@);
    let k: int = lead.len() as int;
    assert(text.take(3) =~= opening_fence());
    assert(rest.subrange(k, k + 4) =~= closing_fence());
    crate::text::lemma_find_from_bounds(lead, closing_fence(), 0);
    assert forall|j: int| 0 <= j < k implies !occurs_at(rest, closing_fence(), j) by {
        if occurs_at(rest, closing_fence(), j) {
            if j + 4 <= k {
                assert(lead.subrange(j, j + 4) =~= rest.subrange(j, j + 4));
                assert(occurs_at(lead, closing_fence(), j));
            } else {
                let d = k - j;
                assert(rest.subrange(j, j + 4)[d] == rest[k]);
                assert(rest[k] == '\n');
            }
        }
    }
    lemma_find_first_at(rest, closing_fence(), 0, k);
    assert(yaml_region(text) =~= lead);
    assert(crate::frontmatter::fence_end(text) == k);
    let after = after_fence(text);
    assert(after == text.skip(3 + k + 4));
    assert(after =~= "\n\n"@ + note.content@);
    assert(is_ws(after[0]));
    assert(after.drop_first() =~= "\n"@ + note.content@);
    assert(is_ws(after.drop_first()[0]));
    assert(after.drop_first().drop_first() =~= note.content@);
    assert(trim_start_ws(note.content@) == note.content@);
    assert(trim_start_ws(after.drop_first()) == trim_start_ws(after.drop_first().drop_first()));
    assert(trim_start_ws(after) == trim_start_ws(after.drop_first()));
}

} // verus!
