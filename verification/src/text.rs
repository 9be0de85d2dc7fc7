//! Text normalisation shared by the classifier, the resolver and the scraper.
//!
//! A name is first transliterated to ASCII, then lowercased; what is left is
//! either stripped to its letters and digits or split into words at every
//! other character.

use vstd::prelude::*;
use vstd::std_specs::iter::IteratorSpec;

verus! {

/// Every character of `s` is an ASCII character.
pub open spec fn is_ascii_seq(s: Seq<char>) -> bool {
    forall|i: int| 0 <= i < s.len() ==> (#[trigger] s[i]) <= '\u{7f}'
}

/// Every character of `s` is an ASCII character below DEL, the last of them.
pub open spec fn is_plain_ascii(s: Seq<char>) -> bool {
    forall|i: int| 0 <= i < s.len() ==> (#[trigger] s[i]) < '\u{7f}'
}

/// The ASCII transliteration that `deunicode::deunicode` gives for a string.
pub uninterp spec fn transliterated(s: Seq<char>) -> Seq<char>;

/// An ASCII letter or digit.
pub open spec fn is_alnum(c: char) -> bool {
    ('0' <= c && c <= '9') || ('a' <= c && c <= 'z') || ('A' <= c && c <= 'Z')
}

/// `c` with an ASCII capital replaced by its small letter.
pub open spec fn lower_char(c: char) -> char {
    if 'A' <= c && c <= 'Z' {
        ((c as u8 + 32) as u8) as char
    } else {
        c
    }
}

/// `s` with every ASCII capital replaced by its small letter.
pub open spec fn lowered(s: Seq<char>) -> Seq<char> {
    Seq::new(s.len(), |i: int| lower_char(s[i]))
}

/// The normal form of a name: transliterated, then lowercased.
pub open spec fn folded(s: Seq<char>) -> Seq<char> {
    lowered(transliterated(s))
}

/// The letters and digits of `s`, in order.
pub open spec fn only_alnum(s: Seq<char>) -> Seq<char>
    decreases s.len(),
{
    if s.len() == 0 {
        s
    } else if is_alnum(s.last()) {
        only_alnum(s.drop_last()).push(s.last())
    } else {
        only_alnum(s.drop_last())
    }
}

/// The normal form of a name stripped to its letters and digits.
pub open spec fn sanitized(s: Seq<char>) -> Seq<char> {
    only_alnum(folded(s))
}

/// The length of the longest prefix of `s` made of letters and digits.
pub open spec fn run_len(s: Seq<char>) -> nat
    decreases s.len(),
{
    if s.len() > 0 && is_alnum(s[0]) {
        1 + run_len(s.drop_first())
    } else {
        0
    }
}

/// The maximal runs of letters and digits in `s`, in order.
pub open spec fn words(s: Seq<char>) -> Seq<Seq<char>>
    decreases s.len(),
{
    if s.len() == 0 {
        Seq::empty()
    } else if !is_alnum(s[0]) {
        words(s.drop_first())
    } else if run_len(s) <= s.len() {
        seq![s.take(run_len(s) as int)] + words(s.skip(run_len(s) as int))
    } else {
        Seq::empty()
    }
}

/// The words of `parts` written one after another with `sep` between them.
pub open spec fn joined(parts: Seq<Seq<char>>, sep: char) -> Seq<char>
    decreases parts.len(),
{
    if parts.len() == 0 {
        Seq::empty()
    } else if parts.len() == 1 {
        parts[0]
    } else {
        joined(parts.drop_last(), sep).push(sep) + parts.last()
    }
}

/// The words of the normal form of a name.
pub open spec fn tokens(s: Seq<char>) -> Seq<Seq<char>> {
    words(folded(s))
}

/// The key of a display name: its words joined by hyphens.
pub open spec fn slug_of(s: Seq<char>) -> Seq<char> {
    joined(tokens(s), '-')
}

/// The query of a folder name: its words joined by single spaces.
pub open spec fn query_of(s: Seq<char>) -> Seq<char> {
    joined(tokens(s), ' ')
}

/// A character with the Unicode property White_Space.
pub open spec fn is_space(c: char) -> bool {
    c == ' ' || ('\u{9}' <= c && c <= '\u{d}') || c == '\u{85}' || c == '\u{a0}' || c
        == '\u{1680}' || ('\u{2000}' <= c && c <= '\u{200a}') || c == '\u{2028}' || c
        == '\u{2029}' || c == '\u{202f}' || c == '\u{205f}' || c == '\u{3000}'
}

/// The number of white-space characters at the start of `s`.
pub open spec fn lead(s: Seq<char>) -> nat
    decreases s.len(),
{
    if s.len() > 0 && is_space(s[0]) {
        1 + lead(s.drop_first())
    } else {
        0
    }
}

/// The number of white-space characters at the end of `s`.
pub open spec fn trail(s: Seq<char>) -> nat
    decreases s.len(),
{
    if s.len() > 0 && is_space(s.last()) {
        1 + trail(s.drop_last())
    } else {
        0
    }
}

/// `s` without the white space at its start and at its end.
pub open spec fn trimmed(s: Seq<char>) -> Seq<char> {
    let rest = s.skip(lead(s) as int);
    rest.take(rest.len() - trail(rest))
}

/// `s` holds nothing but white space.
pub open spec fn is_blank(s: Seq<char>) -> bool {
    trimmed(s).len() == 0
}

/// `needle` stands in `hay` at position `i`.
pub open spec fn occurs_at(hay: Seq<char>, needle: Seq<char>, i: int) -> bool {
    0 <= i && i + needle.len() <= hay.len() && hay.subrange(i, i + needle.len()) == needle
}

/// `needle` stands somewhere in `hay`.
pub open spec fn has_substring(hay: Seq<char>, needle: Seq<char>) -> bool {
    exists|i: int| occurs_at(hay, needle, i)
}

/// The views of the strings of `v`.
pub open spec fn views(v: Seq<String>) -> Seq<Seq<char>> {
    Seq::new(v.len(), |i: int| v[i]@)
}

/// `String::push` adds the character at the end of the string and leaves the
/// characters before it as they were.
pub assume_specification[ String::push ](s: &mut String, ch: char)
    ensures
        final(s)@ == old(s)@.push(ch),
;

/// Calls `deunicode::deunicode`. The result is a function of the string
/// alone; the crate's documentation promises that it holds ASCII
/// characters only, and its source hands a string back as it is where
/// every character of it is an ASCII character below DEL. Nothing else is
/// claimed of it.
#[verifier::external_body]
pub(crate) fn transliterate(s: &str) -> (out: String)
    ensures
        out@ == transliterated(s@),
        is_ascii_seq(out@),
        is_plain_ascii(s@) ==> out@ == s@,
{
    deunicode::deunicode(s)
}

/// The characters of `s`, in order.
pub fn chars_of(s: &str) -> (out: Vec<char>)
    ensures
        out@ == s@,
{
    let mut out: Vec<char> = Vec::new();
    let mut it = s.chars();
    for c in iter: it
        invariant
            iter.seq() == s@,
            out@ == iter.seq().take(iter.index() as int),
    {
        out.push(c);
    }
    out
}

/// The string made of the characters of `v`, in order.
pub fn string_of(v: &Vec<char>) -> (out: String)
    ensures
        out@ == v@,
{
    let mut out = String::new();
    let mut i: usize = 0;
    while i < v.len()
        invariant
            0 <= i <= v.len(),
            out@ == v@.take(i as int),
        decreases v.len() - i,
    {
        out.push(v[i]);
        i += 1;
    }
    out
}

/// Whether `c` is an ASCII letter or digit.
pub fn alnum(c: char) -> (b: bool)
    ensures
        b == is_alnum(c),
{
    ('0' <= c && c <= '9') || ('a' <= c && c <= 'z') || ('A' <= c && c <= 'Z')
}

/// Whether `c` is white space.
pub fn space(c: char) -> (b: bool)
    ensures
        b == is_space(c),
{
    c == ' ' || ('\u{9}' <= c && c <= '\u{d}') || c == '\u{85}' || c == '\u{a0}' || c
        == '\u{1680}' || ('\u{2000}' <= c && c <= '\u{200a}') || c == '\u{2028}' || c
        == '\u{2029}' || c == '\u{202f}' || c == '\u{205f}' || c == '\u{3000}'
}

/// The small letter of an ASCII capital; any other character unchanged.
pub fn to_lower(c: char) -> (out: char)
    ensures
        out == lower_char(c),
{
    if 'A' <= c && c <= 'Z' {
        let b: u8 = c as u8;
        (b + 32) as char
    } else {
        c
    }
}

/// The normal form of a name, as characters.
pub fn fold(s: &str) -> (out: Vec<char>)
    ensures
        out@ == folded(s@),
        is_ascii_seq(out@),
        is_plain_ascii(s@) ==> out@ == lowered(s@),
{
    let ascii = transliterate(s);
    let raw = chars_of(ascii.as_str());
    let mut out: Vec<char> = Vec::new();
    let mut i: usize = 0;
    while i < raw.len()
        invariant
            0 <= i <= raw.len(),
            out@.len() == i,
            forall|k: int| 0 <= k < i ==> out@[k] == lower_char(raw@[k]),
        decreases raw.len() - i,
    {
        out.push(to_lower(raw[i]));
        i += 1;
    }
    assert(out@ =~= lowered(raw@));
    assert forall|k: int| 0 <= k < out@.len() implies (#[trigger] out@[k]) <= '\u{7f}' by {
        let c = raw@[k];
        assert(c <= '\u{7f}');
        assert(out@[k] == lower_char(c));
    }
    out
}

/// The letters and digits of `v`, in order.
pub fn keep_alnum(v: &Vec<char>) -> (out: Vec<char>)
    ensures
        out@ == only_alnum(v@),
{
    let mut out: Vec<char> = Vec::new();
    let mut i: usize = 0;
    while i < v.len()
        invariant
            0 <= i <= v.len(),
            out@ == only_alnum(v@.take(i as int)),
        decreases v.len() - i,
    {
        proof {
            assert(v@.take(i + 1).drop_last() =~= v@.take(i as int));
        }
        if alnum(v[i]) {
            out.push(v[i]);
        }
        i += 1;
    }
    assert(v@.take(v.len() as int) =~= v@);
    out
}

/// The normal form of a name stripped to its letters and digits.
pub fn sanitize(s: &str) -> (out: Vec<char>)
    ensures
        out@ == sanitized(s@),
        is_plain_ascii(s@) ==> out@ == only_alnum(lowered(s@)),
{
    let f = fold(s);
    keep_alnum(&f)
}

/// A small ASCII letter or a digit.
pub open spec fn is_lower_alnum(c: char) -> bool {
    ('0' <= c && c <= '9') || ('a' <= c && c <= 'z')
}

/// A character that a slug may hold: a small ASCII letter, a digit or a
/// hyphen.
pub open spec fn is_slug_char(c: char) -> bool {
    is_lower_alnum(c) || c == '-'
}

/// The first run is no longer than the text, and it holds letters and digits
/// only.
pub proof fn lemma_run_len(s: Seq<char>)
    ensures
        run_len(s) <= s.len(),
        forall|k: int| 0 <= k < run_len(s) ==> is_alnum(#[trigger] s[k]),
    decreases s.len(),
{
    if s.len() > 0 && is_alnum(s[0]) {
        let t = s.drop_first();
        lemma_run_len(t);
        assert forall|k: int| 0 <= k < run_len(s) implies is_alnum(#[trigger] s[k]) by {
            if k > 0 {
                assert(s[k] == t[k - 1]);
            }
        }
    }
}

/// The words of a text without capitals are not empty and hold small letters
/// and digits only.
pub proof fn lemma_words_of_lowered(s: Seq<char>)
    requires
        forall|i: int| 0 <= i < s.len() ==> !('A' <= #[trigger] s[i] && s[i] <= 'Z'),
    ensures
        forall|w: int| 0 <= w < words(s).len() ==> (#[trigger] words(s)[w]).len() > 0,
        forall|w: int, k: int|
            0 <= w < words(s).len() && 0 <= k < words(s)[w].len() ==> is_lower_alnum(
                #[trigger] words(s)[w][k],
            ),
    decreases s.len(),
{
    if s.len() == 0 {
        assert(words(s).len() == 0);
    } else if !is_alnum(s[0]) {
        let t = s.drop_first();
        assert forall|i: int| 0 <= i < t.len() implies !('A' <= #[trigger] t[i] && t[i] <= 'Z') by {
            assert(t[i] == s[i + 1]);
        }
        lemma_words_of_lowered(t);
        assert(words(s) == words(t));
    } else {
        lemma_run_len(s);
        let n = run_len(s) as int;
        let t = s.skip(n);
        let head = s.take(n);
        assert forall|i: int| 0 <= i < t.len() implies !('A' <= #[trigger] t[i] && t[i] <= 'Z') by {
            assert(t[i] == s[i + n]);
        }
        lemma_words_of_lowered(t);
        let all = words(s);
        assert(all == seq![head] + words(t));
        assert forall|w: int| 0 <= w < all.len() implies (#[trigger] all[w]).len() > 0 by {
            if w > 0 {
                assert(all[w] == words(t)[w - 1]);
            }
        }
        assert forall|w: int, k: int|
            0 <= w < all.len() && 0 <= k < all[w].len() implies is_lower_alnum(
            #[trigger] all[w][k],
        ) by {
            if w == 0 {
                assert(all[0] == head);
                assert(head[k] == s[k]);
                assert(is_alnum(s[k]));
            } else {
                assert(all[w] == words(t)[w - 1]);
            }
        }
    }
}

/// Words of small letters and digits, joined by hyphens, make a text of slug
/// characters.
pub proof fn lemma_joined_slug_chars(parts: Seq<Seq<char>>)
    requires
        forall|w: int, k: int|
            0 <= w < parts.len() && 0 <= k < parts[w].len() ==> is_lower_alnum(
                #[trigger] parts[w][k],
            ),
    ensures
        forall|i: int|
            0 <= i < joined(parts, '-').len() ==> is_slug_char(#[trigger] joined(parts, '-')[i]),
    decreases parts.len(),
{
    if parts.len() == 0 {
    } else if parts.len() == 1 {
    } else {
        let front = parts.drop_last();
        assert forall|w: int, k: int|
            0 <= w < front.len() && 0 <= k < front[w].len() implies is_lower_alnum(
            #[trigger] front[w][k],
        ) by {
            assert(front[w] == parts[w]);
        }
        lemma_joined_slug_chars(front);
        let a = joined(front, '-').push('-');
        let all = joined(parts, '-');
        assert(all == a + parts.last());
        assert forall|i: int| 0 <= i < all.len() implies is_slug_char(#[trigger] all[i]) by {
            if i < a.len() - 1 {
                assert(all[i] == joined(front, '-')[i]);
            } else if i == a.len() - 1 {
                assert(all[i] == '-');
            } else {
                assert(all[i] == parts.last()[i - a.len()]);
                assert(parts.last() == parts[parts.len() - 1]);
            }
        }
    }
}

/// A slug holds small ASCII letters, digits and hyphens only, whatever the
/// name it was made from.
pub proof fn lemma_slug_shape(s: Seq<char>)
    ensures
        forall|i: int| 0 <= i < slug_of(s).len() ==> is_slug_char(#[trigger] slug_of(s)[i]),
{
    let f = folded(s);
    assert forall|i: int| 0 <= i < f.len() implies !('A' <= #[trigger] f[i] && f[i] <= 'Z') by {
        let c = transliterated(s)[i];
        assert(f[i] == lower_char(c));
        if 'A' <= c && c <= 'Z' {
            assert((c as u8 + 32) as u8 >= 97);
        }
    }
    lemma_words_of_lowered(f);
    lemma_joined_slug_chars(words(f));
}

/// The views of the character vectors of `v`.
pub open spec fn vec_views(v: Seq<Vec<char>>) -> Seq<Seq<char>> {
    Seq::new(v.len(), |i: int| v[i]@)
}

/// A prefix of letters and digits counts in full towards the first run.
pub proof fn lemma_run_prefix(s: Seq<char>, k: int)
    requires
        0 <= k <= s.len(),
        forall|m: int| 0 <= m < k ==> is_alnum(#[trigger] s[m]),
    ensures
        run_len(s) == k + run_len(s.skip(k)),
    decreases k,
{
    if k == 0 {
        assert(s.skip(0) =~= s);
    } else {
        let t = s.drop_first();
        assert forall|m: int| 0 <= m < k - 1 implies is_alnum(#[trigger] t[m]) by {
            assert(t[m] == s[m + 1]);
        }
        lemma_run_prefix(t, k - 1);
        assert(t.skip(k - 1) =~= s.skip(k));
    }
}

/// Splits `v` into its maximal runs of letters and digits.
pub fn split_words(v: &Vec<char>) -> (out: Vec<Vec<char>>)
    ensures
        vec_views(out@) == words(v@),
{
    let n = v.len();
    let mut out: Vec<Vec<char>> = Vec::new();
    let mut i: usize = 0;
    assert(v@.skip(0) =~= v@);
    assert(vec_views(out@) + words(v@) =~= words(v@));
    while i < n
        invariant
            n == v.len(),
            0 <= i <= n,
            words(v@) == vec_views(out@) + words(v@.skip(i as int)),
        decreases n - i,
    {
        let ghost rest = v@.skip(i as int);
        assert(rest[0] == v@[i as int]);
        if !alnum(v[i]) {
            assert(rest.drop_first() =~= v@.skip(i + 1));
            i += 1;
        } else {
            let mut word: Vec<char> = Vec::new();
            let mut j: usize = i;
            while j < n && alnum(v[j])
                invariant
                    n == v.len(),
                    i <= j <= n,
                    word@ == v@.subrange(i as int, j as int),
                    forall|m: int| i <= m < j ==> is_alnum(#[trigger] v@[m]),
                decreases n - j,
            {
                word.push(v[j]);
                assert(word@ =~= v@.subrange(i as int, j + 1));
                j += 1;
            }
            proof {
                let k = j - i;
                assert forall|m: int| 0 <= m < k implies is_alnum(#[trigger] rest[m]) by {
                    assert(rest[m] == v@[i + m]);
                }
                lemma_run_prefix(rest, k);
                assert(rest.skip(k) =~= v@.skip(j as int));
                if j < n {
                    assert(v@.skip(j as int)[0] == v@[j as int]);
                }
                assert(run_len(v@.skip(j as int)) == 0);
                assert(run_len(rest) == k);
                assert(rest.take(k) =~= word@);
                assert(words(rest) == seq![word@] + words(v@.skip(j as int)));
                assert(vec_views(out@.push(word)) =~= vec_views(out@) + seq![word@]);
            }
            out.push(word);
            i = j;
        }
    }
    assert(words(v@.skip(n as int)) =~= Seq::<Seq<char>>::empty());
    assert(vec_views(out@) + Seq::<Seq<char>>::empty() =~= vec_views(out@));
    out
}

/// Writes the words of `parts` one after another with `sep` between them.
pub fn join_words(parts: &Vec<Vec<char>>, sep: char) -> (out: Vec<char>)
    ensures
        out@ == joined(vec_views(parts@), sep),
{
    let mut out: Vec<char> = Vec::new();
    let mut k: usize = 0;
    while k < parts.len()
        invariant
            0 <= k <= parts.len(),
            out@ == joined(vec_views(parts@).take(k as int), sep),
        decreases parts.len() - k,
    {
        let ghost before = out@;
        if k > 0 {
            out.push(sep);
        }
        let ghost base = out@;
        let part = &parts[k];
        let mut m: usize = 0;
        while m < part.len()
            invariant
                0 <= m <= part.len(),
                out@ == base + part@.take(m as int),
            decreases part.len() - m,
        {
            out.push(part[m]);
            assert(part@.take(m + 1) =~= part@.take(m as int).push(part@[m as int]));
            m += 1;
        }
        proof {
            assert(part@.take(part.len() as int) =~= part@);
            let all = vec_views(parts@);
            let next = all.take(k + 1);
            assert(next.drop_last() =~= all.take(k as int));
            assert(next.last() == part@);
            if k == 0 {
                assert(base + part@ =~= part@);
            }
        }
        k += 1;
    }
    assert(vec_views(parts@).take(parts.len() as int) =~= vec_views(parts@));
    out
}

/// Leading white space counts in full towards `lead`.
pub proof fn lemma_lead_prefix(s: Seq<char>, k: int)
    requires
        0 <= k <= s.len(),
        forall|m: int| 0 <= m < k ==> is_space(#[trigger] s[m]),
    ensures
        lead(s) == k + lead(s.skip(k)),
    decreases k,
{
    if k == 0 {
        assert(s.skip(0) =~= s);
    } else {
        let t = s.drop_first();
        assert forall|m: int| 0 <= m < k - 1 implies is_space(#[trigger] t[m]) by {
            assert(t[m] == s[m + 1]);
        }
        lemma_lead_prefix(t, k - 1);
        assert(t.skip(k - 1) =~= s.skip(k));
    }
}

/// Trailing white space counts in full towards `trail`.
pub proof fn lemma_trail_suffix(s: Seq<char>, k: int)
    requires
        0 <= k <= s.len(),
        forall|m: int| s.len() - k <= m < s.len() ==> is_space(#[trigger] s[m]),
    ensures
        trail(s) == k + trail(s.take(s.len() - k)),
    decreases k,
{
    if k == 0 {
        assert(s.take(s.len() as int) =~= s);
    } else {
        let t = s.drop_last();
        assert forall|m: int| t.len() - (k - 1) <= m < t.len() implies is_space(
            #[trigger] t[m],
        ) by {
            assert(t[m] == s[m]);
        }
        lemma_trail_suffix(t, k - 1);
        assert(t.take(t.len() - (k - 1)) =~= s.take(s.len() - k));
    }
}

/// `v` without the white space at its start and at its end.
pub fn trim_chars(v: &Vec<char>) -> (out: Vec<char>)
    ensures
        out@ == trimmed(v@),
{
    let n = v.len();
    let mut a: usize = 0;
    while a < n && space(v[a])
        invariant
            n == v.len(),
            0 <= a <= n,
            forall|m: int| 0 <= m < a ==> is_space(#[trigger] v@[m]),
        decreases n - a,
    {
        a += 1;
    }
    let mut b: usize = n;
    while b > a && space(v[b - 1])
        invariant
            n == v.len(),
            a <= b <= n,
            forall|m: int| b <= m < n ==> is_space(#[trigger] v@[m]),
        decreases b,
    {
        b -= 1;
    }
    let ghost rest = v@.skip(a as int);
    proof {
        lemma_lead_prefix(v@, a as int);
        if a < n {
            assert(rest[0] == v@[a as int]);
        }
        assert(lead(rest) == 0);
        assert forall|m: int| rest.len() - (n - b) <= m < rest.len() implies is_space(
            #[trigger] rest[m],
        ) by {
            assert(rest[m] == v@[a + m]);
        }
        lemma_trail_suffix(rest, n - b);
        let core = rest.take(rest.len() - (n - b));
        if b > a {
            assert(core.last() == v@[b - 1]);
        }
        assert(trail(core) == 0);
        assert(core =~= v@.subrange(a as int, b as int));
    }
    let mut out: Vec<char> = Vec::new();
    let mut i: usize = a;
    while i < b
        invariant
            a <= i <= b <= v.len(),
            out@ == v@.subrange(a as int, i as int),
        decreases b - i,
    {
        out.push(v[i]);
        assert(out@ =~= v@.subrange(a as int, i + 1));
        i += 1;
    }
    out
}

/// Whether `needle` stands somewhere in `hay`.
pub fn contains(hay: &Vec<char>, needle: &Vec<char>) -> (b: bool)
    ensures
        b == has_substring(hay@, needle@),
{
    let n = hay.len();
    let m = needle.len();
    if m > n {
        assert(forall|i: int| !occurs_at(hay@, needle@, i));
        return false;
    }
    let mut i: usize = 0;
    while i <= n - m
        invariant
            n == hay.len(),
            m == needle.len(),
            m <= n,
            0 <= i <= n - m + 1,
            forall|k: int| 0 <= k < i ==> !occurs_at(hay@, needle@, k),
        decreases n - m + 1 - i,
    {
        let mut j: usize = 0;
        while j < m && hay[i + j] == needle[j]
            invariant
                n == hay.len(),
                m == needle.len(),
                i + m <= n,
                0 <= j <= m,
                forall|k: int| 0 <= k < j ==> hay@[i + k] == needle@[k],
            decreases m - j,
        {
            j += 1;
        }
        if j == m {
            assert(hay@.subrange(i as int, i + m) =~= needle@);
            assert(occurs_at(hay@, needle@, i as int));
            return true;
        }
        assert(!occurs_at(hay@, needle@, i as int)) by {
            if occurs_at(hay@, needle@, i as int) {
                assert(hay@.subrange(i as int, i + m)[j as int] == needle@[j as int]);
            }
        }
        i += 1;
    }
    assert(forall|k: int| !occurs_at(hay@, needle@, k));
    false
}

/// Whether `a` and `b` hold the same characters.
pub fn same_chars(a: &Vec<char>, b: &Vec<char>) -> (r: bool)
    ensures
        r == (a@ == b@),
{
    if a.len() != b.len() {
        return false;
    }
    let mut i: usize = 0;
    while i < a.len()
        invariant
            a.len() == b.len(),
            0 <= i <= a.len(),
            forall|k: int| 0 <= k < i ==> a@[k] == b@[k],
        decreases a.len() - i,
    {
        if a[i] != b[i] {
            return false;
        }
        i += 1;
    }
    assert(a@ =~= b@);
    true
}

/// The words of the normal form of a name.
pub fn norm_tokens(s: &str) -> (out: Vec<String>)
    ensures
        views(out@) == tokens(s@),
        is_plain_ascii(s@) ==> views(out@) == words(lowered(s@)),
{
    let f = fold(s);
    let parts = split_words(&f);
    let mut out: Vec<String> = Vec::new();
    let mut i: usize = 0;
    while i < parts.len()
        invariant
            0 <= i <= parts.len(),
            out@.len() == i,
            forall|k: int| 0 <= k < i ==> out@[k]@ == parts@[k]@,
        decreases parts.len() - i,
    {
        out.push(string_of(&parts[i]));
        i += 1;
    }
    assert(views(out@) =~= vec_views(parts@));
    out
}

/// The words of the normal form of a name, joined by `sep`.
pub fn join_tokens(s: &str, sep: char) -> (out: String)
    ensures
        out@ == joined(tokens(s@), sep),
        is_plain_ascii(s@) ==> out@ == joined(words(lowered(s@)), sep),
{
    let f = fold(s);
    let parts = split_words(&f);
    let j = join_words(&parts, sep);
    string_of(&j)
}

/// The key of a display name: the words of its normal form joined by
/// hyphens.
pub fn slugify(s: &str) -> (out: String)
    ensures
        out@ == slug_of(s@),
        is_plain_ascii(s@) ==> out@ == joined(words(lowered(s@)), '-'),
        forall|i: int| 0 <= i < out@.len() ==> is_slug_char(#[trigger] out@[i]),
{
    let out = join_tokens(s, '-');
    proof {
        lemma_slug_shape(s@);
        assert(out@ == slug_of(s@));
    }
    out
}

/// `s` without the white space at its start and at its end.
pub fn trim(s: &str) -> (out: String)
    ensures
        out@ == trimmed(s@),
{
    let v = chars_of(s);
    let t = trim_chars(&v);
    string_of(&t)
}

/// Whether `s` holds nothing but white space.
pub fn blank(s: &str) -> (b: bool)
    ensures
        b == is_blank(s@),
{
    let v = chars_of(s);
    let t = trim_chars(&v);
    t.len() == 0
}

} // verus!
