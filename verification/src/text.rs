//! Character-level text helpers: whitespace trimming, searching, comparison
//! and case folding, all specified over `Seq<char>` views.

use vstd::prelude::*;

verus! {

/// The whitespace characters this library recognises inside a line: the
/// Unicode white-space set, as the usual regex character class and string
/// trimming understand it.
pub open spec fn is_space(c: char) -> bool {
    c == ' ' || c == '\t' || c == '\n' || c == '\u{B}' || c == '\u{C}' || c == '\r' || c
        == '\u{85}' || c == '\u{A0}' || c == '\u{1680}' || ('\u{2000}' <= c && c <= '\u{200A}')
        || c == '\u{2028}' || c == '\u{2029}' || c == '\u{202F}' || c == '\u{205F}' || c
        == '\u{3000}'
}

/// Executable form of `is_space`.
pub fn is_space_exec(c: char) -> (r: bool)
    ensures
        r == is_space(c),
{
    c == ' ' || c == '\t' || c == '\n' || c == '\u{B}' || c == '\u{C}' || c == '\r' || c
        == '\u{85}' || c == '\u{A0}' || c == '\u{1680}' || ('\u{2000}' <= c && c <= '\u{200A}')
        || c == '\u{2028}' || c == '\u{2029}' || c == '\u{202F}' || c == '\u{205F}' || c
        == '\u{3000}'
}

/// Index of the first character that is not whitespace (the length if all are).
pub open spec fn first_nonspace(l: Seq<char>) -> int
    decreases l.len(),
{
    if l.len() == 0 {
        0
    } else if !is_space(l[0]) {
        0
    } else {
        1 + first_nonspace(l.drop_first())
    }
}

pub proof fn lemma_first_nonspace_bounds(l: Seq<char>)
    ensures
        0 <= first_nonspace(l) <= l.len(),
        forall|j: int| 0 <= j < first_nonspace(l) ==> is_space(l[j]),
        first_nonspace(l) < l.len() ==> !is_space(l[first_nonspace(l)]),
    decreases l.len(),
{
    if l.len() > 0 && is_space(l[0]) {
        lemma_first_nonspace_bounds(l.drop_first());
        assert forall|j: int| 0 <= j < first_nonspace(l) implies is_space(l[j]) by {
            if j > 0 {
                assert(l.drop_first()[j - 1] == l[j]);
            }
        }
    }
}

/// Any index with only whitespace before it and a non-whitespace character
/// (or the end) at it is the first non-whitespace index.
pub proof fn lemma_first_nonspace_unique(l: Seq<char>, i: int)
    requires
        0 <= i <= l.len(),
        forall|j: int| 0 <= j < i ==> is_space(l[j]),
        i < l.len() ==> !is_space(l[i]),
    ensures
        first_nonspace(l) == i,
    decreases l.len(),
{
    if l.len() > 0 && is_space(l[0]) {
        assert(i > 0);
        lemma_first_nonspace_unique(l.drop_first(), i - 1);
    }
}

/// Number of trailing whitespace characters.
pub open spec fn trailing_spaces(l: Seq<char>) -> int
    decreases l.len(),
{
    if l.len() == 0 {
        0
    } else if !is_space(l.last()) {
        0
    } else {
        1 + trailing_spaces(l.drop_last())
    }
}

/// Any cut with only whitespace after it and a non-whitespace character
/// (or the start) just before it marks the trailing-whitespace run.
pub proof fn lemma_trailing_spaces_unique(l: Seq<char>, i: int)
    requires
        0 <= i <= l.len(),
        forall|j: int| i <= j < l.len() ==> is_space(l[j]),
        i > 0 ==> !is_space(l[i - 1]),
    ensures
        trailing_spaces(l) == l.len() - i,
    decreases l.len(),
{
    if l.len() > 0 && is_space(l.last()) {
        assert(i < l.len());
        lemma_trailing_spaces_unique(l.drop_last(), i);
    }
}

/// A copy of `l` with leading and trailing whitespace removed.
pub open spec fn trim_spec(l: Seq<char>) -> Seq<char> {
    if first_nonspace(l) == l.len() {
        Seq::<char>::empty()
    } else {
        l.subrange(first_nonspace(l), l.len() - trailing_spaces(l))
    }
}

/// First index at which `c` occurs (the length if it does not).
pub open spec fn find_char(l: Seq<char>, c: char) -> int
    decreases l.len(),
{
    if l.len() == 0 {
        0
    } else if l[0] == c {
        0
    } else {
        1 + find_char(l.drop_first(), c)
    }
}

pub proof fn lemma_find_char_bounds(l: Seq<char>, c: char)
    ensures
        0 <= find_char(l, c) <= l.len(),
        forall|j: int| 0 <= j < find_char(l, c) ==> l[j] != c,
        find_char(l, c) < l.len() ==> l[find_char(l, c)] == c,
    decreases l.len(),
{
    if l.len() > 0 && l[0] != c {
        lemma_find_char_bounds(l.drop_first(), c);
        assert forall|j: int| 0 <= j < find_char(l, c) implies l[j] != c by {
            if j > 0 {
                assert(l.drop_first()[j - 1] == l[j]);
            }
        }
    }
}

pub proof fn lemma_find_char_unique(l: Seq<char>, c: char, i: int)
    requires
        0 <= i <= l.len(),
        forall|j: int| 0 <= j < i ==> l[j] != c,
        i < l.len() ==> l[i] == c,
    ensures
        find_char(l, c) == i,
    decreases l.len(),
{
    if l.len() > 0 && l[0] != c {
        assert(i > 0);
        lemma_find_char_unique(l.drop_first(), c, i - 1);
    }
}

/// Whether `needle` occurs as a contiguous subsequence of `hay`.
pub open spec fn contains_seq(hay: Seq<char>, needle: Seq<char>) -> bool {
    exists|i: int|
        0 <= i && i + needle.len() <= hay.len() && #[trigger] hay.subrange(i, i + needle.len())
            == needle
}

/// ASCII lower-casing of one character; other characters are untouched.
pub open spec fn lower_char(c: char) -> char {
    if 'A' <= c && c <= 'Z' {
        (((c as u8) + 0x20) as char)
    } else {
        c
    }
}

/// ASCII lower-casing, character by character.
pub open spec fn lower_seq(s: Seq<char>) -> Seq<char> {
    s.map_values(|c: char| lower_char(c))
}

/// Lexicographic order on character sequences, by code point.
pub open spec fn lex_le(a: Seq<char>, b: Seq<char>) -> bool
    decreases a.len(),
{
    if a.len() == 0 {
        true
    } else if b.len() == 0 {
        false
    } else if a[0] != b[0] {
        a[0] < b[0]
    } else {
        lex_le(a.drop_first(), b.drop_first())
    }
}

/// The order is total: two sequences always compare one way or the other.
pub proof fn lemma_lex_le_total(a: Seq<char>, b: Seq<char>)
    ensures
        lex_le(a, b) || lex_le(b, a),
    decreases a.len(),
{
    if a.len() > 0 && b.len() > 0 && a[0] == b[0] {
        lemma_lex_le_total(a.drop_first(), b.drop_first());
    }
}

/// Character-by-character equality test for string slices.
pub fn str_eq(a: &str, b: &str) -> (r: bool)
    ensures
        r == (a@ == b@),
{
    let alen = a.unicode_len();
    let blen = b.unicode_len();
    if alen != blen {
        return false;
    }
    let mut i: usize = 0;
    while i < alen
        invariant
            0 <= i <= alen,
            alen == a@.len(),
            alen == b@.len(),
            forall|j: int| 0 <= j < i ==> a@[j] == b@[j],
        decreases alen - i,
    {
        if a.get_char(i) != b.get_char(i) {
            return false;
        }
        i += 1;
    }
    proof {
        assert(a@ =~= b@);
    }
    true
}

/// Equality after ASCII lower-casing both sides.
pub fn str_eq_lower(a: &str, b: &str) -> (r: bool)
    ensures
        r == (lower_seq(a@) == lower_seq(b@)),
{
    let alen = a.unicode_len();
    let blen = b.unicode_len();
    if alen != blen {
        proof {
            assert(lower_seq(a@).len() != lower_seq(b@).len());
        }
        return false;
    }
    let mut i: usize = 0;
    while i < alen
        invariant
            0 <= i <= alen,
            alen == a@.len(),
            alen == b@.len(),
            forall|j: int| 0 <= j < i ==> lower_char(a@[j]) == lower_char(b@[j]),
        decreases alen - i,
    {
        if lower_exec(a.get_char(i)) != lower_exec(b.get_char(i)) {
            proof {
                assert(lower_seq(a@)[i as int] == lower_char(a@[i as int]));
                assert(lower_seq(b@)[i as int] == lower_char(b@[i as int]));
            }
            return false;
        }
        i += 1;
    }
    proof {
        assert(lower_seq(a@) =~= lower_seq(b@));
    }
    true
}

/// ASCII lower-casing of one character.
pub fn lower_exec(c: char) -> (r: char)
    ensures
        r == lower_char(c),
{
    if 'A' <= c && c <= 'Z' {
        (((c as u8) + 0x20) as char)
    } else {
        c
    }
}

/// Lexicographic comparison of string slices, by code point.
pub fn str_lex_le(a: &str, b: &str) -> (r: bool)
    ensures
        r == lex_le(a@, b@),
{
    let alen = a.unicode_len();
    let blen = b.unicode_len();
    let mut i: usize = 0;
    proof {
        assert(a@.skip(0) =~= a@);
        assert(b@.skip(0) =~= b@);
    }
    loop
        invariant
            0 <= i <= alen,
            i <= blen,
            alen == a@.len(),
            blen == b@.len(),
            forall|j: int| 0 <= j < i ==> a@[j] == b@[j],
            lex_le(a@, b@) == lex_le(a@.skip(i as int), b@.skip(i as int)),
        decreases alen - i,
    {
        if i == alen {
            return true;
        }
        if i == blen {
            return false;
        }
        let ca = a.get_char(i);
        let cb = b.get_char(i);
        if ca != cb {
            return ca < cb;
        }
        proof {
            assert(a@.skip(i as int).drop_first() =~= a@.skip(i + 1));
            assert(b@.skip(i as int).drop_first() =~= b@.skip(i + 1));
        }
        i += 1;
    }
}

/// Whether `needle` occurs inside `hay`.
pub fn str_contains(hay: &str, needle: &str) -> (r: bool)
    ensures
        r == contains_seq(hay@, needle@),
{
    let hlen = hay.unicode_len();
    let nlen = needle.unicode_len();
    if nlen > hlen {
        return false;
    }
    if nlen == 0 {
        proof {
            assert(hay@.subrange(0, 0 + needle@.len() as int) =~= needle@);
        }
        return true;
    }
    let mut i: usize = 0;
    while i <= hlen - nlen
        invariant
            0 <= i <= hlen - nlen + 1,
            0 < nlen <= hlen,
            hlen == hay@.len(),
            nlen == needle@.len(),
            forall|k: int| 0 <= k < i ==> #[trigger] hay@.subrange(k, k + nlen) != needle@,
        decreases hlen + 1 - nlen - i,
    {
        let mut j: usize = 0;
        let mut matched: bool = true;
        while j < nlen && matched
            invariant
                0 <= j <= nlen,
                i + nlen <= hlen,
                hlen == hay@.len(),
                nlen == needle@.len(),
                matched ==> forall|m: int| 0 <= m < j ==> hay@[i + m] == needle@[m],
                !matched ==> hay@.subrange(i as int, i + nlen) != needle@,
            decreases nlen - j + (if matched {
                1int
            } else {
                0int
            }),
        {
            if hay.get_char(i + j) != needle.get_char(j) {
                proof {
                    assert(hay@.subrange(i as int, i + nlen)[j as int] == hay@[i + j]);
                }
                matched = false;
            } else {
                j += 1;
            }
        }
        if matched {
            proof {
                assert(hay@.subrange(i as int, i + nlen) =~= needle@);
            }
            return true;
        }
        i += 1;
    }
    false
}

/// First index of `c` in `s` (its length if absent), executable form.
pub fn find_char_exec(s: &str, c: char) -> (r: usize)
    ensures
        r == find_char(s@, c),
{
    let len = s.unicode_len();
    let mut i: usize = 0;
    while i < len
        invariant
            0 <= i <= len,
            len == s@.len(),
            forall|j: int| 0 <= j < i ==> s@[j] != c,
        decreases len - i,
    {
        if s.get_char(i) == c {
            proof {
                lemma_find_char_unique(s@, c, i as int);
            }
            return i;
        }
        i += 1;
    }
    proof {
        lemma_find_char_unique(s@, c, len as int);
    }
    len
}

/// First non-whitespace index in `s` (its length if none), executable form.
pub fn first_nonspace_exec(s: &str) -> (r: usize)
    ensures
        r == first_nonspace(s@),
{
    let len = s.unicode_len();
    let mut i: usize = 0;
    while i < len
        invariant
            0 <= i <= len,
            len == s@.len(),
            forall|j: int| 0 <= j < i ==> is_space(s@[j]),
        decreases len - i,
    {
        if !is_space_exec(s.get_char(i)) {
            proof {
                lemma_first_nonspace_unique(s@, i as int);
            }
            return i;
        }
        i += 1;
    }
    proof {
        lemma_first_nonspace_unique(s@, len as int);
    }
    len
}

/// A trimmed copy of `s`: leading and trailing whitespace removed.
pub fn trim_str(s: &str) -> (r: String)
    ensures
        r@ == trim_spec(s@),
{
    let len = s.unicode_len();
    let start = first_nonspace_exec(s);
    if start == len {
        proof {
            lemma_first_nonspace_bounds(s@);
        }
        return String::new();
    }
    proof {
        lemma_first_nonspace_bounds(s@);
    }
    let mut end: usize = len;
    loop
        invariant
            start < end <= len,
            len == s@.len(),
            start == first_nonspace(s@),
            start < len,
            !is_space(s@[start as int]),
            forall|j: int| end <= j < len ==> is_space(s@[j]),
        ensures
            start < end <= len,
            forall|j: int| end <= j < len ==> is_space(s@[j]),
            !is_space(s@[end - 1]),
        decreases end,
    {
        if !is_space_exec(s.get_char(end - 1)) {
            break;
        }
        end = end - 1;
    }
    proof {
        lemma_trailing_spaces_unique(s@, end as int);
    }
    let sub = s.substring_char(start, end);
    String::from_str(sub)
}

/// Index of the first character that is neither a space nor a semicolon
/// (the length if all are): where a comment's text starts.
pub open spec fn first_noncomment(l: Seq<char>) -> int
    decreases l.len(),
{
    if l.len() == 0 {
        0
    } else if !(l[0] == ' ' || l[0] == ';') {
        0
    } else {
        1 + first_noncomment(l.drop_first())
    }
}

pub proof fn lemma_first_noncomment_unique(l: Seq<char>, i: int)
    requires
        0 <= i <= l.len(),
        forall|j: int| 0 <= j < i ==> l[j] == ' ' || l[j] == ';',
        i < l.len() ==> !(l[i] == ' ' || l[i] == ';'),
    ensures
        first_noncomment(l) == i,
    decreases l.len(),
{
    if l.len() > 0 && (l[0] == ' ' || l[0] == ';') {
        assert(i > 0);
        lemma_first_noncomment_unique(l.drop_first(), i - 1);
    }
}

/// The text a comment line contributes as help: leading spaces and
/// semicolons removed, then trailing whitespace removed.
pub open spec fn comment_text(l: Seq<char>) -> Seq<char> {
    let r = l.skip(first_noncomment(l));
    r.take(r.len() - trailing_spaces(r))
}

/// Executable form of `comment_text`.
pub fn comment_text_exec(l: &str) -> (r: String)
    ensures
        r@ == comment_text(l@),
{
    let len = l.unicode_len();
    let mut f: usize = 0;
    loop
        invariant
            0 <= f <= len,
            len == l@.len(),
            forall|j: int| 0 <= j < f ==> l@[j] == ' ' || l@[j] == ';',
        ensures
            0 <= f <= len,
            forall|j: int| 0 <= j < f ==> l@[j] == ' ' || l@[j] == ';',
            f < len ==> !(l@[f as int] == ' ' || l@[f as int] == ';'),
        decreases len - f,
    {
        if f == len {
            break;
        }
        let c = l.get_char(f);
        if !(c == ' ' || c == ';') {
            break;
        }
        f += 1;
    }
    proof {
        lemma_first_noncomment_unique(l@, f as int);
    }
    let ghost rv = l@.skip(f as int);
    let mut end: usize = len;
    loop
        invariant
            f <= end <= len,
            len == l@.len(),
            forall|j: int| end <= j < len ==> is_space(l@[j]),
        ensures
            f <= end <= len,
            forall|j: int| end <= j < len ==> is_space(l@[j]),
            end > f ==> !is_space(l@[end - 1]),
        decreases end,
    {
        if end == f {
            break;
        }
        if !is_space_exec(l.get_char(end - 1)) {
            break;
        }
        end = end - 1;
    }
    proof {
        assert(forall|j: int| 0 <= j < rv.len() ==> rv[j] == l@[f + j]);
        lemma_trailing_spaces_unique(rv, end - f);
        assert(rv.take(end - f) =~= l@.subrange(f as int, end as int));
    }
    let sub = l.substring_char(f, end);
    String::from_str(sub)
}

} // verus!
