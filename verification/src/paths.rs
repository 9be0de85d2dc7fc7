//! The key under which a folder is stored: the path that the file system
//! resolves it to, or, where it resolves to nothing, a normal form of the
//! text of the path.

use crate::text::{chars_of, string_of};
use vstd::prelude::*;

verus! {

/// `s` with every backslash replaced by a slash.
pub open spec fn slashed(s: Seq<char>) -> Seq<char> {
    Seq::new(
        s.len(),
        |i: int|
            if s[i] == '\\' {
                '/'
            } else {
                s[i]
            },
    )
}

/// `s` without the slashes at its end; a path of one character is kept.
pub open spec fn strip_trailing(s: Seq<char>) -> Seq<char>
    decreases s.len(),
{
    if s.len() > 1 && s.last() == '/' {
        strip_trailing(s.drop_last())
    } else {
        s
    }
}

/// The normal form of the text of a path that resolves to nothing.
pub open spec fn fallback_form(p: Seq<char>) -> Seq<char> {
    strip_trailing(slashed(p))
}

/// The key of a path: what the file system resolved it to, or the normal form
/// of its text.
pub open spec fn path_key(p: Seq<char>, resolved: Option<Seq<char>>) -> Seq<char> {
    match resolved {
        Some(r) => r,
        None => fallback_form(p),
    }
}

/// Stripping keeps a prefix of the path, and what it keeps has one character
/// at most or does not end in a slash.
pub proof fn lemma_strip_trailing(s: Seq<char>)
    ensures
        strip_trailing(s).len() <= s.len(),
        strip_trailing(s) == s.take(strip_trailing(s).len() as int),
        strip_trailing(s).len() <= 1 || strip_trailing(s).last() != '/',
        s.len() > 0 ==> strip_trailing(s).len() > 0,
    decreases s.len(),
{
    if s.len() > 1 && s.last() == '/' {
        let t = s.drop_last();
        lemma_strip_trailing(t);
        assert(t.take(strip_trailing(t).len() as int) =~= s.take(strip_trailing(t).len() as int));
    } else {
        assert(s.take(s.len() as int) =~= s);
    }
}

/// The normal form of a path's text is a fixed point: a path that resolves
/// to nothing before and after has the same key when it is normalised
/// again.
pub proof fn lemma_fallback_fixed_point(p: Seq<char>)
    ensures
        fallback_form(fallback_form(p)) == fallback_form(p),
        path_key(path_key(p, None), None) == path_key(p, None),
{
    let f = fallback_form(p);
    lemma_strip_trailing(slashed(p));
    assert(slashed(f) =~= f);
}

/// The normal form of the text of a path: slashes for backslashes, and no
/// slash at the end.
pub fn normalize_path_fallback(p: &str) -> (out: String)
    ensures
        out@ == fallback_form(p@),
{
    let v = chars_of(p);
    let mut s: Vec<char> = Vec::new();
    let mut i: usize = 0;
    while i < v.len()
        invariant
            0 <= i <= v.len(),
            s@.len() == i,
            forall|k: int| 0 <= k < i ==> s@[k] == slashed(v@)[k],
        decreases v.len() - i,
    {
        if v[i] == '\\' {
            s.push('/');
        } else {
            s.push(v[i]);
        }
        i += 1;
    }
    assert(s@ =~= slashed(v@));
    while s.len() > 1 && s[s.len() - 1] == '/'
        invariant
            strip_trailing(s@) == strip_trailing(slashed(v@)),
        decreases s.len(),
    {
        let ghost before = s@;
        s.pop();
        assert(s@ =~= before.drop_last());
    }
    string_of(&s)
}

/// The key of a path. `resolved` is what the file system resolved the path
/// to, and `None` where it resolved to nothing.
pub fn normalize_path_string(p: &str, resolved: Option<String>) -> (out: String)
    ensures
        out@ == path_key(p@, match resolved {
            Some(r) => Some(r@),
            None => None,
        }),
{
    match resolved {
        Some(r) => r,
        None => normalize_path_fallback(p),
    }
}

} // verus!
