//! The front-matter block at the top of a note: `---`, a YAML header,
//! and a closing `\n---`. Parsing, identity extraction and injection.
use vstd::prelude::*;
use crate::text::{
    chars_of, find_exec, find_from, lemma_find_from_bounds, occurs_at, starts_with,
    string_of_range,
};

verus! {

/// YAML key that holds a note's stable identity.
pub const ID_KEY: &'static str = "spacetime_id";

/// Fallback pattern for an identity line in a header that does not parse.
pub const ID_PATTERN: &'static str = "(?m)^spacetime_id:\\s*([a-f0-9\\-]+)";

/// How much of a file, in bytes, the fallback pattern looks at.
pub const HEAD_BYTES: usize = 1024;

/// The JSON text of the value that a YAML document reads as, if it parses.
pub uninterp spec fn yaml_as_json(yaml: Seq<char>) -> Option<Seq<char>>;

/// The string stored under `key` in the YAML mapping `yaml`, if it parses
/// and that entry is a string.
pub uninterp spec fn yaml_str_field(yaml: Seq<char>, key: Seq<char>) -> Option<Seq<char>>;

/// The YAML text of mapping `yaml` with `key` set to the string `value`;
/// none when `yaml` does not parse as a mapping.
pub uninterp spec fn yaml_with_field(yaml: Seq<char>, key: Seq<char>, value: Seq<char>) -> Option<Seq<char>>;

/// The first capture group of the first match of `pattern` in `text`.
pub uninterp spec fn regex_group1(pattern: Seq<char>, text: Seq<char>) -> Option<Seq<char>>;

/// Relies on `serde_yaml::from_str` into a `serde_json::Value` and on
/// `serde_json::to_string` of it: the header as JSON text.
#[verifier::external_body]
fn yaml_to_json(yaml: &str) -> (r: Option<String>)
    ensures
        r matches Some(s) ==> yaml_as_json(yaml@) == Some(s@),
        r is None ==> yaml_as_json(yaml@) is None,
{
    match serde_yaml::from_str::<serde_json::Value>(yaml) {
        Ok(v) => serde_json::to_string(&v).ok(),
        Err(_) => None,
    }
}

/// Relies on `serde_yaml::from_str` into a `serde_json::Value`, then
/// `Value::get` and `Value::as_str`: a string entry of the header.
#[verifier::external_body]
fn yaml_string_field(yaml: &str, key: &str) -> (r: Option<String>)
    ensures
        r matches Some(s) ==> yaml_str_field(yaml@, key@) == Some(s@),
        r is None ==> yaml_str_field(yaml@, key@) is None,
{
    match serde_yaml::from_str::<serde_json::Value>(yaml) {
        Ok(v) => v.get(key).and_then(|x| x.as_str()).map(|s| s.to_string()),
        Err(_) => None,
    }
}

/// Relies on `serde_yaml::from_str` into a `serde_yaml::Value`,
/// `Mapping::insert` and `serde_yaml::to_string`: the header with one
/// string entry set, other entries kept in their order (none unless the
/// text reads as a mapping).
#[verifier::external_body]
fn yaml_set_field(yaml: &str, key: &str, value: &str) -> (r: Option<String>)
    ensures
        r matches Some(s) ==> yaml_with_field(yaml@, key@, value@) == Some(s@),
        r is None ==> yaml_with_field(yaml@, key@, value@) is None,
{
    let mut m = match serde_yaml::from_str::<serde_yaml::Value>(yaml) {
        Ok(serde_yaml::Value::Mapping(m)) => m,
        _ => return None,
    };
    m.insert(serde_yaml::Value::String(key.to_string()), serde_yaml::Value::String(value.to_string()));
    serde_yaml::to_string(&m).ok()
}

/// Relies on `regex::Regex::new` and `Regex::captures`: the first capture
/// group of the leftmost match (none if the pattern does not compile).
#[verifier::external_body]
fn regex_capture(pattern: &str, text: &str) -> (r: Option<String>)
    ensures
        r matches Some(s) ==> regex_group1(pattern@, text@) == Some(s@),
        r is None ==> regex_group1(pattern@, text@) is None,
{
    match regex::Regex::new(pattern) {
        Ok(re) => re.captures(text).and_then(|c| c.get(1)).map(|m| m.as_str().to_string()),
        Err(_) => None,
    }
}

/// Characters with the Unicode `White_Space` property, which `str::trim`
/// removes.
pub open spec fn is_ws(c: char) -> bool {
    let n = c as u32;
    ||| (0x9 <= n && n <= 0xD)
    ||| n == 0x20 || n == 0x85 || n == 0xA0 || n == 0x1680
    ||| (0x2000 <= n && n <= 0x200A)
    ||| n == 0x2028 || n == 0x2029 || n == 0x202F || n == 0x205F || n == 0x3000
}

pub open spec fn trim_start_ws(s: Seq<char>) -> Seq<char>
    decreases s.len(),
{
    if s.len() > 0 && is_ws(s[0]) {
        trim_start_ws(s.drop_first())
    } else {
        s
    }
}

pub open spec fn trim_end_ws(s: Seq<char>) -> Seq<char>
    decreases s.len(),
{
    if s.len() > 0 && is_ws(s.last()) {
        trim_end_ws(s.drop_last())
    } else {
        s
    }
}

pub open spec fn trim_ws(s: Seq<char>) -> Seq<char> {
    trim_end_ws(trim_start_ws(s))
}

pub open spec fn opening_fence() -> Seq<char> {
    seq!['-', '-', '-']
}

pub open spec fn closing_fence() -> Seq<char> {
    seq!['\n', '-', '-', '-']
}

/// Position of the closing fence in the text after the opening one.
pub open spec fn fence_end(c: Seq<char>) -> int {
    find_from(c.skip(3), closing_fence(), 0)
}

/// The content opens with `---` and a `\n---` closes the header later.
pub open spec fn has_front_matter(c: Seq<char>) -> bool {
    starts_with(c, opening_fence()) && fence_end(c) >= 0
}

/// The header text between the fences.
pub open spec fn yaml_region(c: Seq<char>) -> Seq<char> {
    c.skip(3).take(fence_end(c))
}

/// Everything after the closing fence.
pub open spec fn after_fence(c: Seq<char>) -> Seq<char> {
    c.skip(3 + fence_end(c) + 4)
}

/// Bytes that the UTF-8 encoding of `c` takes.
pub open spec fn utf8_width(c: char) -> nat {
    if (c as u32) < 0x80 {
        1
    } else if (c as u32) < 0x800 {
        2
    } else if (c as u32) < 0x10000 {
        3
    } else {
        4
    }
}

/// Number of leading characters of `c` that fit in `budget` bytes.
pub open spec fn head_len(c: Seq<char>, budget: nat) -> nat
    decreases c.len(),
{
    if c.len() > 0 && utf8_width(c[0]) <= budget {
        1 + head_len(c.drop_first(), (budget - utf8_width(c[0])) as nat)
    } else {
        0
    }
}

/// The leading characters of `c` that fit in the first `HEAD_BYTES` bytes.
pub open spec fn head(c: Seq<char>) -> Seq<char> {
    c.take(head_len(c, HEAD_BYTES as nat) as int)
}

/// The identity that `extract_spacetime_id` finds in `c`.
pub open spec fn extracted_id(c: Seq<char>) -> Option<Seq<char>> {
    if has_front_matter(c) && yaml_str_field(yaml_region(c), ID_KEY@) is Some {
        yaml_str_field(yaml_region(c), ID_KEY@)
    } else {
        match regex_group1(ID_PATTERN@, head(c)) {
            Some(g) => Some(trim_ws(g)),
            None => None,
        }
    }
}

/// A fresh header holding only the identity.
pub open spec fn fresh_header(id: Seq<char>) -> Seq<char> {
    "---\nspacetime_id: "@ + id + "\n---\n\n"@
}

/// What `inject_spacetime_id` makes of `c`: the entry set in a header
/// that reads as a mapping; a header holding only the entry in place of
/// one that parses but is not a mapping; a fresh header in front of content
/// without a header or whose header does not parse.
pub open spec fn injected(c: Seq<char>, id: Seq<char>) -> Seq<char> {
    let y = trim_ws(yaml_region(c));
    if has_front_matter(c) && yaml_with_field(y, ID_KEY@, id) is Some {
        "---\n"@ + yaml_with_field(y, ID_KEY@, id)->0 + "\n---"@ + after_fence(c)
    } else if has_front_matter(c) && yaml_as_json(y) is Some && yaml_with_field("{}"@, ID_KEY@, id) is Some {
        "---\n"@ + yaml_with_field("{}"@, ID_KEY@, id)->0 + "\n---"@ + after_fence(c)
    } else {
        fresh_header(id) + c
    }
}

/// The header of `c` as JSON text, `{}` when there is none or it does not parse.
pub open spec fn parsed_front_matter(c: Seq<char>) -> Seq<char> {
    if has_front_matter(c) {
        match yaml_as_json(trim_ws(yaml_region(c))) {
            Some(j) => j,
            None => "{}"@,
        }
    } else {
        "{}"@
    }
}

/// The body of `c`: after a header that parses, with leading whitespace
/// removed; all of `c` when there is no header or it does not parse.
pub open spec fn parsed_body(c: Seq<char>) -> Seq<char> {
    if has_front_matter(c) && yaml_as_json(trim_ws(yaml_region(c))) is Some {
        trim_start_ws(after_fence(c))
    } else {
        c
    }
}

fn is_ws_exec(c: char) -> (r: bool)
    ensures
        r == is_ws(c),
{
    let n = c as u32;
    (0x9 <= n && n <= 0xD) || n == 0x20 || n == 0x85 || n == 0xA0 || n == 0x1680 || (0x2000 <= n
        && n <= 0x200A) || n == 0x2028 || n == 0x2029 || n == 0x202F || n == 0x205F || n == 0x3000
}

/// Bounds `lo..hi` of `cs[lo0..hi0]` with surrounding whitespace removed;
/// only the start when `end` is false.
fn trim_bounds(cs: &Vec<char>, lo0: usize, hi0: usize, end: bool) -> (r: (usize, usize))
    requires
        lo0 <= hi0 <= cs.len(),
    ensures
        r.0 <= r.1 <= cs.len(),
        end ==> cs@.subrange(r.0 as int, r.1 as int) == trim_ws(cs@.subrange(lo0 as int, hi0 as int)),
        !end ==> cs@.subrange(r.0 as int, r.1 as int) == trim_start_ws(cs@.subrange(lo0 as int, hi0 as int)),
{
    let mut lo = lo0;
    while lo < hi0 && is_ws_exec(cs[lo])
        invariant
            lo0 <= lo <= hi0 <= cs.len(),
            trim_start_ws(cs@.subrange(lo0 as int, hi0 as int)) == trim_start_ws(cs@.subrange(lo as int, hi0 as int)),
        decreases hi0 - lo,
    {
        assert(cs@.subrange(lo as int, hi0 as int).drop_first() =~= cs@.subrange(lo + 1, hi0 as int));
        lo = lo + 1;
    }
    assert(trim_start_ws(cs@.subrange(lo as int, hi0 as int)) == cs@.subrange(lo as int, hi0 as int));
    if !end {
        return (lo, hi0);
    }
    let mut hi = hi0;
    while hi > lo && is_ws_exec(cs[hi - 1])
        invariant
            lo <= hi <= hi0 <= cs.len(),
            trim_end_ws(cs@.subrange(lo as int, hi0 as int)) == trim_end_ws(cs@.subrange(lo as int, hi as int)),
        decreases hi,
    {
        assert(cs@.subrange(lo as int, hi as int).drop_last() =~= cs@.subrange(lo as int, hi - 1));
        hi = hi - 1;
    }
    (lo, hi)
}

/// `s` without leading and trailing whitespace.
pub fn trim_text(s: &str) -> (r: String)
    ensures
        r@ == trim_ws(s@),
{
    let cs = chars_of(s);
    let b = trim_bounds(&cs, 0, cs.len(), true);
    assert(cs@.subrange(0, cs.len() as int) =~= cs@);
    string_of_range(&cs, b.0, b.1)
}

/// Where the header of `cs` closes, relative to the text after `---`.
fn find_fence(cs: &Vec<char>) -> (r: Option<usize>)
    ensures
        r is Some <==> has_front_matter(cs@),
        r matches Some(k) ==> k == fence_end(cs@) && 3 + k + 4 <= cs.len(),
{
    if cs.len() < 3 || cs[0] != '-' || cs[1] != '-' || cs[2] != '-' {
        proof {
            if cs.len() >= 3 {
                assert(cs@.take(3)[0] == cs@[0] && cs@.take(3)[1] == cs@[1] && cs@.take(3)[2] == cs@[2]);
            }
        }
        return None;
    }
    assert(cs@.take(3) =~= opening_fence());
    let mut rest: Vec<char> = Vec::new();
    let mut i: usize = 3;
    while i < cs.len()
        invariant
            3 <= i <= cs.len(),
            rest@ == cs@.subrange(3, i as int),
        decreases cs.len() - i,
    {
        rest.push(cs[i]);
        assert(rest@ =~= cs@.subrange(3, i + 1));
        i = i + 1;
    }
    assert(rest@ =~= cs@.skip(3));
    let fence = vec!['\n', '-', '-', '-'];
    assert(fence@ =~= closing_fence());
    let r = find_exec(&rest, &fence, 0);
    proof {
        lemma_find_from_bounds(rest@, fence@, 0);
    }
    r
}

/// Splits `content` into its body and its header as JSON text: the body
/// is all of `content` and the header `{}` when there is no header or the
/// header does not parse.
pub fn parse_frontmatter(content: &str) -> (r: (String, String))
    ensures
        r.0@ == parsed_body(content@),
        r.1@ == parsed_front_matter(content@),
{
    let cs = chars_of(content);
    match find_fence(&cs) {
        None => (content.to_string(), "{}".to_string()),
        Some(k) => {
            let y = trim_bounds(&cs, 3, 3 + k, true);
            let b = trim_bounds(&cs, 3 + k + 4, cs.len(), false);
            proof {
                assert(cs@.subrange(3, 3 + k) =~= yaml_region(cs@));
                assert(cs@.subrange(3 + k + 4, cs.len() as int) =~= after_fence(cs@));
            }
            let yaml = string_of_range(&cs, y.0, y.1);
            match yaml_to_json(yaml.as_str()) {
                Some(j) => (string_of_range(&cs, b.0, b.1), j),
                None => (content.to_string(), "{}".to_string()),
            }
        },
    }
}

/// Number of leading characters of `cs[from..]` that fit in `budget` bytes.
fn head_chars(cs: &Vec<char>, budget: usize) -> (r: usize)
    ensures
        r as nat == head_len(cs@, budget as nat),
        r <= cs.len(),
{
    let mut i: usize = 0;
    let mut left: usize = budget;
    assert(cs@.skip(0) =~= cs@);
    while i < cs.len()
        invariant
            i <= cs.len(),
            left <= budget,
            head_len(cs@, budget as nat) == i + head_len(cs@.skip(i as int), left as nat),
        decreases cs.len() - i,
    {
        let c = cs[i];
        let w: usize = if (c as u32) < 0x80 {
            1
        } else if (c as u32) < 0x800 {
            2
        } else if (c as u32) < 0x10000 {
            3
        } else {
            4
        };
        assert(cs@.skip(i as int)[0] == c);
        if w > left {
            return i;
        }
        assert(cs@.skip(i as int).drop_first() =~= cs@.skip(i + 1));
        left = left - w;
        i = i + 1;
    }
    assert(cs@.skip(i as int).len() == 0);
    i
}

/// The note identity in `content`: the `spacetime_id` string of a header
/// that parses, or else a `spacetime_id:` line found by pattern in the
/// first bytes, so that an identity in a damaged header is not lost.
pub fn extract_spacetime_id(content: &str) -> (r: Option<String>)
    ensures
        r matches Some(s) ==> extracted_id(content@) == Some(s@),
        r is None ==> extracted_id(content@) is None,
{
    let cs = chars_of(content);
    match find_fence(&cs) {
        Some(k) => {
            assert(cs@.subrange(3, 3 + k) =~= yaml_region(cs@));
            let yaml = string_of_range(&cs, 3, 3 + k);
            match yaml_string_field(yaml.as_str(), ID_KEY) {
                Some(id) => {
                    return Some(id);
                },
                None => {},
            }
        },
        None => {},
    }
    let n = head_chars(&cs, HEAD_BYTES);
    let head_text = string_of_range(&cs, 0, n);
    assert(cs@.subrange(0, n as int) =~= head(cs@));
    match regex_capture(ID_PATTERN, head_text.as_str()) {
        Some(g) => {
            let gs = chars_of(g.as_str());
            let t = trim_bounds(&gs, 0, gs.len(), true);
            assert(gs@.subrange(0, gs.len() as int) =~= gs@);
            Some(string_of_range(&gs, t.0, t.1))
        },
        None => None,
    }
}

/// `content` with its header carrying `spacetime_id: id`: the entry is set
/// in a header that reads as a mapping, a header that parses as something
/// else gives way to one holding only the entry, and a fresh header is put
/// in front of content that has none or whose header does not parse.
pub fn inject_spacetime_id(content: &str, id: &str) -> (r: String)
    ensures
        r@ == injected(content@, id@),
{
    let cs = chars_of(content);
    match find_fence(&cs) {
        Some(k) => {
            let y = trim_bounds(&cs, 3, 3 + k, true);
            assert(cs@.subrange(3, 3 + k) =~= yaml_region(cs@));
            let yaml = string_of_range(&cs, y.0, y.1);
            let edited = match yaml_set_field(yaml.as_str(), ID_KEY, id) {
                Some(y2) => Some(y2),
                None => match yaml_to_json(yaml.as_str()) {
                    Some(_) => yaml_set_field("{}", ID_KEY, id),
                    None => None,
                },
            };
            match edited {
                Some(y2) => {
                    let mut out = "---\n".to_string();
                    out.append(y2.as_str());
                    out.append("\n---");
                    let rest = string_of_range(&cs, 3 + k + 4, cs.len());
                    assert(cs@.subrange(3 + k + 4, cs.len() as int) =~= after_fence(cs@));
                    out.append(rest.as_str());
                    return out;
                },
                None => {},
            }
        },
        None => {},
    }
    let mut out = "---\nspacetime_id: ".to_string();
    out.append(id);
    out.append("\n---\n\n");
    out.append(content);
    out
}

pub proof fn lemma_find_first_at(s: Seq<char>, p: Seq<char>, i: int, k: int)
    requires
        0 <= i <= k,
        occurs_at(s, p, k),
        forall|j: int| i <= j < k ==> !occurs_at(s, p, j),
    ensures
        find_from(s, p, i) == k,
    decreases k - i,
{
    if i < k {
        lemma_find_first_at(s, p, i + 1, k);
    }
}

/// The header that a fresh injection writes is found by the fence
/// framing and holds exactly the line `spacetime_id: <id>`, for an id
/// without a line break; the content given follows it unchanged.
pub proof fn lemma_fresh_header_framed(id: Seq<char>, c: Seq<char>)
    requires
        forall|i: int| 0 <= i < id.len() ==> id[i] != '\n',
    ensures
        has_front_matter(fresh_header(id) + c),
        yaml_region(fresh_header(id) + c) == "\nspacetime_id: "@ + id,
        after_fence(fresh_header(id) + c) == "\n\n"@ + c,
        injected(c, id) == fresh_header(id) + c || has_front_matter(c),
{
    reveal_strlit("---\nspacetime_id: ");
    reveal_strlit("\n---\n\n");
    reveal_strlit("\nspacetime_id: ");
    reveal_strlit("\n\n");
    let s = fresh_header(id) + c;
    let head = "\nspacetime_id: "@;
    let rest = s.skip(3);
    assert(rest =~= head + id + "\n---\n\n"@ + c);
    let k: int = (head.len() + id.len()) as int;
    assert(s.take(3) =~= opening_fence());
    assert(rest.subrange(k, k + 4) =~= closing_fence());
    assert forall|j: int| 0 <= j < k implies !occurs_at(rest, closing_fence(), j) by {
        if occurs_at(rest, closing_fence(), j) {
            assert(rest.subrange(j, j + 4)[0] == '\n');
            assert(rest.subrange(j, j + 4)[1] == '-');
            if j == 0 {
                assert(rest[1] == 's');
            } else if j < head.len() {
                assert(rest[j] == head[j]);
            } else {
                assert(rest[j] == id[j - head.len()]);
            }
        }
    }
    lemma_find_first_at(rest, closing_fence(), 0, k);
    assert(yaml_region(s) =~= head + id);
    assert(after_fence(s) =~= "\n\n"@ + c);
}

} // verus!
