//! The composite operations of the request façade, over the client's
//! cache and outbox, with the replies they give.
use vstd::prelude::*;
use crate::client::{contains_text, first_with_path, lemma_first_with_path, ReducerCall, SpacetimeClient};
use crate::folder::{folder_name, Folder};
use crate::note::{note_folder_path, note_name, path_depth, path_parts, Note};
use crate::store::find_replaced;
use crate::text::{
    byte_len, chars_of, find_exec, last_segment, lemma_last_index_bounds, push_char,
    replace_all_exec, replace_first_exec, rfind_char, str_eq, string_of_range,
};

verus! {

/// A failed request as the façade reports it.
#[derive(Debug, Clone)]
pub struct ErrorObject {
    pub code: i32,
    pub message: String,
}

/// Code for a method the façade does not know.
pub const METHOD_NOT_FOUND: i32 = -32601;

/// Code for a tool that failed.
pub const TOOL_FAILURE: i32 = -32603;

impl ErrorObject {
    /// The error for a tool that failed with `message`.
    pub fn tool_failure(message: String) -> (r: ErrorObject)
        ensures
            r.code == TOOL_FAILURE,
            r.message == message,
    {
        ErrorObject { code: TOOL_FAILURE, message }
    }

    /// The error for an unknown method.
    pub fn method_not_found() -> (r: ErrorObject)
        ensures
            r.code == METHOD_NOT_FOUND,
            r.message@ == "Method not found"@,
    {
        ErrorObject { code: METHOD_NOT_FOUND, message: "Method not found".to_string() }
    }
}

pub open spec fn digit_char(d: nat) -> char {
    seq!['0', '1', '2', '3', '4', '5', '6', '7', '8', '9'][d as int]
}

/// Decimal digits of `n`.
pub open spec fn decimal(n: nat) -> Seq<char>
    decreases n,
{
    if n < 10 {
        seq![digit_char(n)]
    } else {
        decimal(n / 10).push(digit_char(n % 10))
    }
}

fn push_decimal(out: &mut String, n: usize)
    ensures
        final(out)@ == old(out)@ + decimal(n as nat),
    decreases n,
{
    if n >= 10 {
        push_decimal(out, n / 10);
    }
    let ds = vec!['0', '1', '2', '3', '4', '5', '6', '7', '8', '9'];
    assert(ds@ =~= seq!['0', '1', '2', '3', '4', '5', '6', '7', '8', '9']);
    let ghost mid = out@;
    push_char(out, ds[n % 10]);
    proof {
        if n >= 10 {
            assert(out@ =~= old(out)@ + decimal(n as nat));
        } else {
            assert(out@ =~= old(out)@ + decimal(n as nat));
        }
    }
}

fn text(s: &str) -> (r: String)
    ensures
        r@ == s@,
{
    s.to_string()
}

fn cat2(a: &str, b: &str) -> (r: String)
    ensures
        r@ == a@ + b@,
{
    let mut r = a.to_string();
    r.append(b);
    r
}

/// Creates a note at `path` with `content` under the id `id`, at `now`:
/// its name and folder path come from the path.
pub fn create_note_tool(client: &mut SpacetimeClient, path: String, content: String, id: String, now: u64) -> (r: String)
    ensures
        final(client).same_except_outbox(old(client)),
        final(client).outbox@.drop_last() == old(client).outbox@,
        final(client).outbox@.len() == old(client).outbox@.len() + 1,
        final(client).outbox@.last() matches ReducerCall::CreateNote { note: n } && ({
            &&& n.id@ == id@
            &&& n.path@ == path@
            &&& n.name@ == note_name(path@)
            &&& n.folder_path@ == note_folder_path(path@)
            &&& n.content@ == content@
            &&& n.depth == path_depth(path@)
            &&& n.size == byte_len(content@)
            &&& n.created_time == now
            &&& n.modified_time == now
        }),
        r@ == "Created note: "@ + path@ + " (id: "@ + id@ + ")"@,
{
    let (name, folder_path, _depth) = path_parts(path.as_str());
    let mut r = cat2("Created note: ", path.as_str());
    r.append(" (id: ");
    r.append(id.as_str());
    r.append(")");
    client.create_note(id, path, name, content, folder_path, now);
    r
}

/// Creates the folder `path`, named by its last segment, its depth the
/// number of `/` in it.
pub fn create_folder_tool(client: &mut SpacetimeClient, path: String) -> (r: String)
    ensures
        final(client).same_except_outbox(old(client)),
        final(client).outbox@.drop_last() == old(client).outbox@,
        final(client).outbox@.len() == old(client).outbox@.len() + 1,
        final(client).outbox@.last() matches ReducerCall::CreateFolder { path: p, name: n, depth: d } && p@ == path@
            && n@ == folder_name(path@) && d == path_depth(path@),
        r@ == "Created folder: "@ + path@,
{
    let r = cat2("Created folder: ", path.as_str());
    let f = Folder::new(path);
    let ghost before = client.outbox@;
    client.create_folder(f.path, f.name, f.depth);
    assert(client.outbox@.drop_last() =~= before);
    r
}

/// The quoted search text in a "not found" reply: at most its first 50
/// characters, followed by `...` when it was longer.
pub open spec fn quoted(s: Seq<char>) -> Seq<char> {
    if s.len() > 50 {
        s.take(50) + "..."@
    } else {
        s
    }
}

/// The reply of `edit_note` on cache `s`.
pub open spec fn edit_reply(s: Seq<Note>, path: Seq<char>, old_text: Seq<char>, new_text: Seq<char>, all: bool) -> Result<Seq<char>, Seq<char>> {
    let k = first_with_path(s, path);
    if k < 0 {
        Err("Note not found: "@ + path)
    } else if !contains_text(s[k].content@, old_text) {
        Err("Text not found in note: '"@ + quoted(old_text) + "'"@)
    } else {
        Ok("Edited note: "@ + path + "\n\n---\n\n"@ + find_replaced(s[k].content@, old_text, new_text, all))
    }
}

/// Replaces `old_string` by `new_string` (every occurrence, or the first)
/// in the note at `path`, after checking that the note exists and holds
/// the text; the reply shows the edited content.
pub fn edit_note(
    client: &mut SpacetimeClient,
    path: String,
    old_string: String,
    new_string: String,
    replace_all: bool,
) -> (r: Result<String, String>)
    ensures
        final(client).same_except_outbox(old(client)),
        r matches Ok(t) ==> edit_reply(old(client).notes@, path@, old_string@, new_string@, replace_all) == Ok::<Seq<char>, Seq<char>>(t@),
        r matches Err(t) ==> edit_reply(old(client).notes@, path@, old_string@, new_string@, replace_all) == Err::<Seq<char>, Seq<char>>(t@),
        r is Err ==> final(client).outbox == old(client).outbox,
        r is Ok ==> final(client).outbox@ == old(client).outbox@.push(
            ReducerCall::FindReplaceInNote { path, old_text: old_string, new_text: new_string, replace_all },
        ),
{
    let current = match client.get_note_by_path(path.as_str()) {
        None => {
            return Err(cat2("Note not found: ", path.as_str()));
        },
        Some(n) => n,
    };
    let cs = chars_of(current.content.as_str());
    let os = chars_of(old_string.as_str());
    if find_exec(&cs, &os, 0).is_none() {
        let mut m = text("Text not found in note: '");
        if os.len() > 50 {
            let head = string_of_range(&os, 0, 50);
            assert(os@.subrange(0, 50) =~= os@.take(50));
            m.append(head.as_str());
            m.append("...");
        } else {
            m.append(old_string.as_str());
        }
        m.append("'");
        assert(m@ =~= "Text not found in note: '"@ + quoted(old_string@) + "'"@);
        return Err(m);
    }
    let new_content = if replace_all {
        replace_all_exec(current.content.as_str(), old_string.as_str(), new_string.as_str())
    } else {
        replace_first_exec(current.content.as_str(), old_string.as_str(), new_string.as_str())
    };
    let mut m = cat2("Edited note: ", path.as_str());
    m.append("\n\n---\n\n");
    m.append(new_content.as_str());
    client.find_replace_in_note(path, old_string, new_string, replace_all);
    Ok(m)
}

/// `d` with a `/` at its end, added when missing.
pub open spec fn with_trailing_slash(d: Seq<char>) -> Seq<char> {
    if d.len() > 0 && d.last() == '/' {
        d
    } else {
        d.push('/')
    }
}

/// Moves each note of `paths` into folder `destination_folder`, keeping
/// its file name: the part after its last `/`.
pub fn move_notes_to_folder(client: &mut SpacetimeClient, paths: &Vec<String>, destination_folder: &str) -> (r: String)
    ensures
        final(client).same_except_outbox(old(client)),
        final(client).outbox@.len() == old(client).outbox@.len() + paths@.len(),
        final(client).outbox@.take(old(client).outbox@.len() as int) == old(client).outbox@,
        forall|i: int|
            0 <= i < paths@.len() ==> (#[trigger] final(client).outbox@[old(client).outbox@.len() + i] matches ReducerCall::MoveNote { old_path: a, new_path: b }
                && a@ == paths@[i]@ && b@ == with_trailing_slash(destination_folder@) + last_segment(paths@[i]@)),
        r@ == "Moved "@ + decimal(paths@.len() as nat) + " notes to "@ + with_trailing_slash(destination_folder@),
{
    let ds = chars_of(destination_folder);
    let mut dest = destination_folder.to_string();
    if !(ds.len() > 0 && ds[ds.len() - 1] == '/') {
        push_char(&mut dest, '/');
    }
    let mut i: usize = 0;
    while i < paths.len()
        invariant
            i <= paths@.len(),
            dest@ == with_trailing_slash(destination_folder@),
            client.same_except_outbox(old(client)),
            client.outbox@.len() == old(client).outbox@.len() + i,
            client.outbox@.take(old(client).outbox@.len() as int) == old(client).outbox@,
            forall|k: int|
                0 <= k < i ==> (#[trigger] client.outbox@[old(client).outbox@.len() + k] matches ReducerCall::MoveNote { old_path: a, new_path: b }
                    && a@ == paths@[k]@ && b@ == with_trailing_slash(destination_folder@) + last_segment(paths@[k]@)),
        decreases paths@.len() - i,
    {
        let old_path = &paths[i];
        let pcs = chars_of(old_path.as_str());
        let file = match rfind_char(&pcs, '/') {
            Some(k) => {
                proof { lemma_last_index_bounds(pcs@, '/'); }
                string_of_range(&pcs, k + 1, pcs.len())
            },
            None => string_of_range(&pcs, 0, pcs.len()),
        };
        let mut new_path = dest.clone();
        new_path.append(file.as_str());
        let ghost before = client.outbox@;
        client.move_note(old_path.clone(), new_path);
        assert(client.outbox@.take(old(client).outbox@.len() as int) =~= before.take(old(client).outbox@.len() as int));
        assert(client.outbox@[old(client).outbox@.len() + i] == client.outbox@.last());
        assert forall|k: int| 0 <= k < i implies #[trigger] client.outbox@[old(client).outbox@.len() + k] == before[old(client).outbox@.len() + k] by {}
        i = i + 1;
    }
    let mut r = text("Moved ");
    push_decimal(&mut r, paths.len());
    r.append(" notes to ");
    r.append(dest.as_str());
    r
}

/// The text and the number of matches of replacing every match of
/// `pattern` (with the given flags) in `text` by `replacement`, or the
/// error message of a pattern that does not compile.
pub uninterp spec fn regex_substitution(
    pattern: Seq<char>,
    replacement: Seq<char>,
    case_insensitive: bool,
    multi_line: bool,
    text: Seq<char>,
) -> Result<(Seq<char>, nat), Seq<char>>;

/// Relies on `regex::RegexBuilder` (`case_insensitive`, `multi_line`,
/// `build`), `Regex::replace_all` and `Regex::find_iter`: the substituted
/// text and the number of matches.
#[verifier::external_body]
fn regex_substitute(
    pattern: &str,
    replacement: &str,
    case_insensitive: bool,
    multi_line: bool,
    text: &str,
) -> (r: Result<(String, usize), String>)
    ensures
        r is Ok <==> regex_substitution(pattern@, replacement@, case_insensitive, multi_line, text@) is Ok,
        r matches Ok(p) ==> regex_substitution(pattern@, replacement@, case_insensitive, multi_line, text@)->Ok_0 == (p.0@, p.1 as nat),
        r matches Err(e) ==> regex_substitution(pattern@, replacement@, case_insensitive, multi_line, text@)->Err_0 == e@,
{
    match regex::RegexBuilder::new(pattern).case_insensitive(case_insensitive).multi_line(multi_line).build() {
        Ok(re) => Ok((re.replace_all(text, replacement).to_string(), re.find_iter(text).count())),
        Err(e) => Err(e.to_string()),
    }
}

/// The reply of `regex_replace` on cache `s`.
pub open spec fn regex_reply(s: Seq<Note>, path: Seq<char>, pattern: Seq<char>, replacement: Seq<char>, ci: bool, ml: bool) -> Result<Seq<char>, Seq<char>> {
    let k = first_with_path(s, path);
    if k < 0 {
        Err("Note not found: "@ + path)
    } else {
        match regex_substitution(pattern, replacement, ci, ml, s[k].content@) {
            Err(e) => Err("Invalid regex pattern: "@ + e),
            Ok((t, n)) => if t == s[k].content@ {
                Ok("No matches found - note unchanged"@)
            } else {
                Ok("Replaced "@ + decimal(n) + " matches in "@ + path + "\n\n---\n\n"@ + t)
            },
        }
    }
}

/// Replaces every match of a regular expression in the note at `path`;
/// when the text changes, the new content is sent with modification time
/// `now`.
pub fn regex_replace(
    client: &mut SpacetimeClient,
    path: &str,
    pattern: &str,
    replacement: &str,
    case_insensitive: bool,
    multiline: bool,
    now: u64,
) -> (r: Result<String, String>)
    ensures
        final(client).same_except_outbox(old(client)),
        r matches Ok(t) ==> regex_reply(old(client).notes@, path@, pattern@, replacement@, case_insensitive, multiline) == Ok::<Seq<char>, Seq<char>>(t@),
        r matches Err(t) ==> regex_reply(old(client).notes@, path@, pattern@, replacement@, case_insensitive, multiline) == Err::<Seq<char>, Seq<char>>(t@),
        ({
            let k = first_with_path(old(client).notes@, path@);
            let sub = regex_substitution(pattern@, replacement@, case_insensitive, multiline, old(client).notes@[k].content@);
            if k >= 0 && sub is Ok && sub->Ok_0.0 != old(client).notes@[k].content@ {
                &&& final(client).outbox@.drop_last() == old(client).outbox@
                &&& final(client).outbox@.len() == old(client).outbox@.len() + 1
                &&& final(client).outbox@.last() matches ReducerCall::UpdateNoteContent { id: i, content: c, modified_time: m, .. }
                    && i == old(client).notes@[k].id && c@ == sub->Ok_0.0 && m == now
            } else {
                final(client).outbox == old(client).outbox
            }
        }),
{
    proof { lemma_first_with_path(old(client).notes@, path@); }
    let current = match client.get_note_by_path(path) {
        None => {
            return Err(cat2("Note not found: ", path));
        },
        Some(n) => n,
    };
    match regex_substitute(pattern, replacement, case_insensitive, multiline, current.content.as_str()) {
        Err(e) => Err(cat2("Invalid regex pattern: ", e.as_str())),
        Ok((new_content, count)) => {
            if str_eq(new_content.as_str(), current.content.as_str()) {
                return Ok(text("No matches found - note unchanged"));
            }
            let mut m = text("Replaced ");
            push_decimal(&mut m, count);
            m.append(" matches in ");
            m.append(path);
            m.append("\n\n---\n\n");
            m.append(new_content.as_str());
            client.update_note_content(current.id, new_content, now);
            Ok(m)
        },
    }
}

} // verus!
