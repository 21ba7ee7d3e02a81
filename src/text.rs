//! Character-level helpers over `String` and `&str`, stated on views.
use vstd::prelude::*;

verus! {

/// Relies on `String::push`: the character is appended at the end.
#[verifier::external_body]
pub(crate) fn push_char(s: &mut String, c: char)
    ensures
        final(s)@ == old(s)@.push(c),
{
    s.push(c)
}

/// Relies on `str`'s `==`: two strings are equal exactly when their
/// characters are.
#[verifier::external_body]
pub fn str_eq(a: &str, b: &str) -> (r: bool)
    ensures
        r == (a@ == b@),
{
    a == b
}

/// The characters of `s`, in order.
pub fn chars_of(s: &str) -> (r: Vec<char>)
    ensures
        r@ == s@,
{
    let mut r: Vec<char> = Vec::new();
    for c in it: s.chars()
        invariant
            r@ == it.seq().take(it.index() as int),
    {
        r.push(c);
    }
    r
}

} // verus!

verus! {

/// Index of the last occurrence of `c` in `s`, or -1.
pub open spec fn last_index_of(s: Seq<char>, c: char) -> int
    decreases s.len(),
{
    if s.len() == 0 {
        -1
    } else if s.last() == c {
        s.len() - 1
    } else {
        last_index_of(s.drop_last(), c)
    }
}

/// Number of occurrences of `c` in `s`.
pub open spec fn count_char(s: Seq<char>, c: char) -> nat
    decreases s.len(),
{
    if s.len() == 0 {
        0
    } else {
        count_char(s.drop_last(), c) + if s.last() == c {
            1nat
        } else {
            0nat
        }
    }
}

/// `s` with every trailing copy of `c` removed.
pub open spec fn trim_end_char(s: Seq<char>, c: char) -> Seq<char>
    decreases s.len(),
{
    if s.len() > 0 && s.last() == c {
        trim_end_char(s.drop_last(), c)
    } else {
        s
    }
}

/// What follows the last `/` of `s` (all of `s` when it has none).
pub open spec fn last_segment(s: Seq<char>) -> Seq<char> {
    s.subrange(last_index_of(s, '/') + 1, s.len() as int)
}

pub proof fn lemma_last_index_bounds(s: Seq<char>, c: char)
    ensures
        -1 <= last_index_of(s, c) < s.len(),
        last_index_of(s, c) >= 0 ==> s[last_index_of(s, c)] == c,
        forall|j: int| last_index_of(s, c) < j < s.len() ==> s[j] != c,
    decreases s.len(),
{
    if s.len() > 0 && s.last() != c {
        lemma_last_index_bounds(s.drop_last(), c);
        assert forall|j: int| last_index_of(s, c) < j < s.len() implies s[j] != c by {
            if j < s.len() - 1 {
                assert(s[j] == s.drop_last()[j]);
            }
        }
    }
}

pub proof fn lemma_count_bound(s: Seq<char>, c: char)
    ensures
        count_char(s, c) <= s.len(),
    decreases s.len(),
{
    if s.len() > 0 {
        lemma_count_bound(s.drop_last(), c);
    }
}

/// The characters `cs[lo..hi]` as a `String`.
pub fn string_of_range(cs: &Vec<char>, lo: usize, hi: usize) -> (r: String)
    requires
        lo <= hi <= cs.len(),
    ensures
        r@ == cs@.subrange(lo as int, hi as int),
{
    let mut r = String::new();
    let mut i: usize = lo;
    while i < hi
        invariant
            lo <= i <= hi <= cs.len(),
            r@ == cs@.subrange(lo as int, i as int),
        decreases hi - i,
    {
        push_char(&mut r, cs[i]);
        assert(r@ =~= cs@.subrange(lo as int, i + 1));
        i = i + 1;
    }
    r
}

/// Position of the last `c` in `cs`, if any.
pub fn rfind_char(cs: &Vec<char>, c: char) -> (r: Option<usize>)
    ensures
        r matches Some(k) ==> k as int == last_index_of(cs@, c),
        r is None <==> last_index_of(cs@, c) == -1,
{
    let mut i: usize = cs.len();
    assert(cs@.take(i as int) =~= cs@);
    while i > 0
        invariant
            i <= cs.len(),
            last_index_of(cs@, c) == last_index_of(cs@.take(i as int), c),
        decreases i,
    {
        assert(cs@.take(i as int).drop_last() =~= cs@.take(i - 1));
        if cs[i - 1] == c {
            return Some(i - 1);
        }
        i = i - 1;
    }
    None
}

/// Number of `c` in `cs`.
pub fn count_of(cs: &Vec<char>, c: char) -> (r: usize)
    ensures
        r == count_char(cs@, c),
{
    let mut n: usize = 0;
    let mut i: usize = 0;
    while i < cs.len()
        invariant
            i <= cs.len(),
            n == count_char(cs@.take(i as int), c),
        decreases cs.len() - i,
    {
        assert(cs@.take(i + 1).drop_last() =~= cs@.take(i as int));
        proof {
            lemma_count_bound(cs@.take(i as int), c);
        }
        if cs[i] == c {
            n = n + 1;
        }
        i = i + 1;
    }
    assert(cs@.take(cs.len() as int) =~= cs@);
    n
}

} // verus!

verus! {

pub open spec fn starts_with(s: Seq<char>, p: Seq<char>) -> bool {
    p.len() <= s.len() && s.take(p.len() as int) == p
}

/// Whether `p` occurs in `s` at position `i`.
pub open spec fn occurs_at(s: Seq<char>, p: Seq<char>, i: int) -> bool {
    0 <= i && i + p.len() <= s.len() && s.subrange(i, i + p.len()) == p
}

/// First position at or after `i` where `p` occurs in `s`, or -1.
pub open spec fn find_from(s: Seq<char>, p: Seq<char>, i: int) -> int
    decreases s.len() + 1 - i,
{
    if i < 0 || i + p.len() > s.len() {
        -1
    } else if occurs_at(s, p, i) {
        i
    } else {
        find_from(s, p, i + 1)
    }
}

/// `s` with its first occurrence of `p` replaced by `q` (an empty `p`
/// occurs at the start).
pub open spec fn replace_first(s: Seq<char>, p: Seq<char>, q: Seq<char>) -> Seq<char> {
    let i = find_from(s, p, 0);
    if i < 0 {
        s
    } else {
        s.take(i) + q + s.skip(i + p.len())
    }
}

/// `s[i..]` with every non-overlapping occurrence of `p`, scanning left to
/// right, replaced by `q`. An empty `p` occurs before every character and
/// at the end.
pub open spec fn replace_all_from(s: Seq<char>, p: Seq<char>, q: Seq<char>, i: int) -> Seq<char>
    decreases s.len() + 1 - i,
{
    if i < 0 || i > s.len() {
        Seq::empty()
    } else if p.len() == 0 && i == s.len() {
        q
    } else if p.len() == 0 {
        q + seq![s[i]] + replace_all_from(s, p, q, i + 1)
    } else if i == s.len() {
        Seq::empty()
    } else if occurs_at(s, p, i) {
        q + replace_all_from(s, p, q, i + p.len())
    } else {
        seq![s[i]] + replace_all_from(s, p, q, i + 1)
    }
}

pub open spec fn replace_all(s: Seq<char>, p: Seq<char>, q: Seq<char>) -> Seq<char> {
    replace_all_from(s, p, q, 0)
}

/// Length in bytes of the UTF-8 encoding of `s`.
pub open spec fn byte_len(s: Seq<char>) -> u64 {
    (vstd::utf8::encode_utf8(s).len() as usize) as u64
}

pub proof fn lemma_find_from_bounds(s: Seq<char>, p: Seq<char>, i: int)
    requires
        i >= 0,
    ensures
        find_from(s, p, i) == -1 || (i <= find_from(s, p, i) && occurs_at(s, p, find_from(s, p, i))),
        forall|j: int| i <= j && (find_from(s, p, i) == -1 || j < find_from(s, p, i)) ==> !occurs_at(s, p, j),
    decreases s.len() + 1 - i,
{
    if !(i < 0 || i + p.len() > s.len()) && !occurs_at(s, p, i) {
        lemma_find_from_bounds(s, p, i + 1);
        assert forall|j: int| i <= j && (find_from(s, p, i) == -1 || j < find_from(s, p, i)) implies !occurs_at(s, p, j) by {
            if j > i {
            }
        }
    }
}

/// Whether `p` occurs in `cs` at `i`.
pub fn occurs_at_exec(cs: &Vec<char>, p: &Vec<char>, i: usize) -> (r: bool)
    ensures
        r == occurs_at(cs@, p@, i as int),
{
    if i > cs.len() || p.len() > cs.len() - i {
        return false;
    }
    let mut k: usize = 0;
    while k < p.len()
        invariant
            i + p.len() <= cs.len(),
            k <= p.len(),
            cs@.subrange(i as int, i + k) == p@.take(k as int),
        decreases p.len() - k,
    {
        if cs[i + k] != p[k] {
            assert(cs@.subrange(i as int, i + p.len())[k as int] == cs@[i + k]);
            return false;
        }
        assert(cs@.subrange(i as int, i + k + 1) =~= p@.take(k + 1));
        k = k + 1;
    }
    assert(p@.take(p.len() as int) =~= p@);
    true
}

/// First position at or after `from` where `p` occurs in `cs`.
pub fn find_exec(cs: &Vec<char>, p: &Vec<char>, from: usize) -> (r: Option<usize>)
    ensures
        r matches Some(k) ==> k as int == find_from(cs@, p@, from as int),
        r is None ==> find_from(cs@, p@, from as int) == -1,
{
    if from > cs.len() {
        return None;
    }
    if p.len() == 0 {
        assert(cs@.subrange(from as int, from as int) =~= p@);
        return Some(from);
    }
    let mut i: usize = from;
    while i < cs.len() && p.len() <= cs.len() - i
        invariant
            p.len() > 0,
            find_from(cs@, p@, from as int) == find_from(cs@, p@, i as int),
        decreases cs.len() + 1 - i,
    {
        if occurs_at_exec(cs, p, i) {
            return Some(i);
        }
        i = i + 1;
    }
    None
}

/// Whether `s` starts with `p`.
pub fn starts_with_exec(s: &str, p: &str) -> (r: bool)
    ensures
        r == starts_with(s@, p@),
{
    let cs = chars_of(s);
    let ps = chars_of(p);
    let r = occurs_at_exec(&cs, &ps, 0);
    assert(cs@.subrange(0, ps@.len() as int) =~= cs@.take(ps@.len() as int));
    r
}

/// Appends the characters of `cs` to `out`.
pub fn push_all(out: &mut String, cs: &Vec<char>)
    ensures
        final(out)@ == old(out)@ + cs@,
{
    let mut i: usize = 0;
    while i < cs.len()
        invariant
            i <= cs.len(),
            out@ == old(out)@ + cs@.take(i as int),
        decreases cs.len() - i,
    {
        push_char(out, cs[i]);
        assert(out@ =~= old(out)@ + cs@.take(i + 1));
        i = i + 1;
    }
    assert(cs@.take(cs.len() as int) =~= cs@);
}

/// `s` with its first occurrence of `p` replaced by `q` (`s` itself when
/// `p` is absent; `q` in front when `p` is empty).
pub fn replace_first_exec(s: &str, p: &str, q: &str) -> (r: String)
    ensures
        r@ == replace_first(s@, p@, q@),
{
    let cs = chars_of(s);
    let ps = chars_of(p);
    let qs = chars_of(q);
    match find_exec(&cs, &ps, 0) {
        None => string_of_range(&cs, 0, cs.len()),
        Some(i) => {
            proof { lemma_find_from_bounds(cs@, ps@, 0); }
            let mut out = string_of_range(&cs, 0, i);
            push_all(&mut out, &qs);
            let rest = string_of_range(&cs, i + ps.len(), cs.len());
            let rs = chars_of(rest.as_str());
            push_all(&mut out, &rs);
            assert(cs@.subrange(0, i as int) =~= cs@.take(i as int));
            assert(cs@.subrange(i + ps.len(), cs.len() as int) =~= cs@.skip(i + ps.len()));
            out
        },
    }
}

/// `s` with every non-overlapping occurrence of `p` replaced by `q` (an
/// empty `p` puts `q` before every character and at the end).
pub fn replace_all_exec(s: &str, p: &str, q: &str) -> (r: String)
    ensures
        r@ == replace_all(s@, p@, q@),
{
    let cs = chars_of(s);
    let ps = chars_of(p);
    let qs = chars_of(q);
    let mut out = String::new();
    let mut i: usize = 0;
    while i < cs.len()
        invariant
            cs@ == s@,
            ps@ == p@,
            qs@ == q@,
            i <= cs.len(),
            out@ + replace_all_from(cs@, ps@, qs@, i as int) == replace_all(s@, p@, q@),
        decreases cs.len() - i,
    {
        if ps.len() == 0 {
            proof {
                assert(out@ + (qs@ + seq![cs@[i as int]] + replace_all_from(cs@, ps@, qs@, i + 1)) =~= (out@
                    + qs@).push(cs@[i as int]) + replace_all_from(cs@, ps@, qs@, i + 1));
            }
            push_all(&mut out, &qs);
            push_char(&mut out, cs[i]);
            i = i + 1;
        } else if occurs_at_exec(&cs, &ps, i) {
            proof {
                assert(out@ + (qs@ + replace_all_from(cs@, ps@, qs@, i + ps.len())) =~= (out@ + qs@)
                    + replace_all_from(cs@, ps@, qs@, i + ps.len()));
            }
            push_all(&mut out, &qs);
            i = i + ps.len();
        } else {
            proof {
                assert(out@ + (seq![cs@[i as int]] + replace_all_from(cs@, ps@, qs@, i + 1)) =~= out@.push(
                    cs@[i as int],
                ) + replace_all_from(cs@, ps@, qs@, i + 1));
            }
            push_char(&mut out, cs[i]);
            i = i + 1;
        }
    }
    if ps.len() == 0 {
        push_all(&mut out, &qs);
    } else {
        assert(out@ + replace_all_from(cs@, ps@, qs@, i as int) =~= out@);
    }
    out
}

/// Length in bytes of the UTF-8 encoding of `s`.
pub fn byte_len_exec(s: &str) -> (r: u64)
    ensures
        r == byte_len(s@),
{
    s.len() as u64
}

} // verus!
