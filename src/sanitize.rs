//! Maps vault-relative paths to a URI-safe canonical form.
use vstd::prelude::*;
use crate::text::{chars_of, push_char};

verus! {

/// Characters kept as they are: ASCII letters and digits, the path
/// separator and a small set of punctuation.
pub open spec fn is_allowed_char(c: char) -> bool {
    ||| ('a' <= c && c <= 'z')
    ||| ('A' <= c && c <= 'Z')
    ||| ('0' <= c && c <= '9')
    ||| c == '/' || c == '.' || c == ' ' || c == '-' || c == '_' || c == ','
    ||| c == '(' || c == ')' || c == '[' || c == ']' || c == '"' || c == '\''
}

/// What one input character becomes.
pub open spec fn sanitize_char(c: char) -> Seq<char> {
    if c == '\u{2026}' {
        seq!['.', '.', '.']
    } else if c == '\u{201C}' || c == '\u{201D}' {
        seq!['"']
    } else if c == '\u{2018}' || c == '\u{2019}' {
        seq!['\'']
    } else if c == '\u{2014}' || c == '\u{2013}' {
        seq!['-']
    } else if is_allowed_char(c) {
        seq![c]
    } else {
        seq!['_']
    }
}

/// The sanitized form of a path: each character mapped in turn.
pub open spec fn sanitized(s: Seq<char>) -> Seq<char>
    decreases s.len(),
{
    if s.len() == 0 {
        Seq::empty()
    } else {
        sanitized(s.drop_last()) + sanitize_char(s.last())
    }
}

pub open spec fn all_allowed(s: Seq<char>) -> bool {
    forall|i: int| 0 <= i < s.len() ==> is_allowed_char(#[trigger] s[i])
}

proof fn lemma_sanitize_char_allowed(c: char)
    ensures
        all_allowed(sanitize_char(c)),
        is_allowed_char(c) ==> sanitize_char(c) == seq![c],
{
}

proof fn lemma_sanitized_allowed(s: Seq<char>)
    ensures
        all_allowed(sanitized(s)),
    decreases s.len(),
{
    if s.len() > 0 {
        lemma_sanitized_allowed(s.drop_last());
        lemma_sanitize_char_allowed(s.last());
        let a = sanitized(s.drop_last());
        let b = sanitize_char(s.last());
        assert forall|i: int| 0 <= i < (a + b).len() implies is_allowed_char(#[trigger] (a + b)[i]) by {
            if i < a.len() {
                assert((a + b)[i] == a[i]);
            } else {
                assert((a + b)[i] == b[i - a.len()]);
            }
        }
    }
}

proof fn lemma_sanitized_concat(a: Seq<char>, b: Seq<char>)
    ensures
        sanitized(a + b) == sanitized(a) + sanitized(b),
    decreases b.len(),
{
    if b.len() == 0 {
        assert(a + b =~= a);
        assert(sanitized(a) + sanitized(b) =~= sanitized(a));
    } else {
        lemma_sanitized_concat(a, b.drop_last());
        assert((a + b).drop_last() =~= a + b.drop_last());
        assert((a + b).last() == b.last());
        assert(sanitized(a) + sanitized(b.drop_last()) + sanitize_char(b.last()) =~= sanitized(a)
            + (sanitized(b.drop_last()) + sanitize_char(b.last())));
    }
}

proof fn lemma_sanitized_fixed(s: Seq<char>)
    requires
        all_allowed(s),
    ensures
        sanitized(s) == s,
    decreases s.len(),
{
    if s.len() > 0 {
        assert(is_allowed_char(s[s.len() - 1]));
        lemma_sanitized_fixed(s.drop_last());
        assert(s.drop_last().push(s.last()) =~= s);
        assert(sanitized(s.drop_last()) + seq![s.last()] =~= s.drop_last().push(s.last()));
    }
}

/// A path made of allowed characters only is its own sanitized form.
pub proof fn lemma_all_allowed_fixed(s: Seq<char>)
    requires
        all_allowed(s),
    ensures
        sanitized(s) == s,
{
    lemma_sanitized_fixed(s);
}

/// Sanitizing is idempotent, and its result holds only allowed characters.
pub proof fn lemma_sanitize_idempotent(p: Seq<char>)
    ensures
        sanitized(sanitized(p)) == sanitized(p),
        all_allowed(sanitized(p)),
{
    lemma_sanitized_allowed(p);
    lemma_sanitized_fixed(sanitized(p));
}

/// Replaces ellipsis, typographic quotes and dashes by their ASCII forms
/// and every other character outside the allowed set by `_`.
pub fn sanitize_path(path: &str) -> (r: String)
    ensures
        r@ == sanitized(path@),
{
    let cs = chars_of(path);
    let mut out = String::new();
    let mut i: usize = 0;
    while i < cs.len()
        invariant
            i <= cs.len(),
            cs@ == path@,
            out@ == sanitized(cs@.take(i as int)),
        decreases cs.len() - i,
    {
        let c = cs[i];
        proof {
            assert(cs@.take(i + 1).drop_last() =~= cs@.take(i as int));
            assert(cs@.take(i + 1).last() == c);
        }
        if c == '\u{2026}' {
            push_char(&mut out, '.');
            push_char(&mut out, '.');
            push_char(&mut out, '.');
        } else if c == '\u{201C}' || c == '\u{201D}' {
            push_char(&mut out, '"');
        } else if c == '\u{2018}' || c == '\u{2019}' {
            push_char(&mut out, '\'');
        } else if c == '\u{2014}' || c == '\u{2013}' {
            push_char(&mut out, '-');
        } else if ('a' <= c && c <= 'z') || ('A' <= c && c <= 'Z') || ('0' <= c && c <= '9') || c
            == '/' || c == '.' || c == ' ' || c == '-' || c == '_' || c == ',' || c == '(' || c
            == ')' || c == '[' || c == ']' || c == '"' || c == '\'' {
            push_char(&mut out, c);
        } else {
            push_char(&mut out, '_');
        }
        proof {
            assert(out@ =~= sanitized(cs@.take(i + 1)));
        }
        i = i + 1;
    }
    assert(cs@.take(cs.len() as int) =~= cs@);
    out
}

} // verus!
