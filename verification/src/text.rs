//! Character-level text helpers with their specifications: trimming,
//! white-space collapsing, splitting, searching and replacing.
use vstd::prelude::*;
use vstd::utf8::{decode_utf8, valid_utf8};

verus! {

// ---------------------------------------------------------------------------
// Character classes
// ---------------------------------------------------------------------------

/// The Unicode `White_Space` property, which `char::is_whitespace` (and so
/// `str::trim` and `str::split_whitespace`) uses.
pub open spec fn is_ws(c: char) -> bool {
    let u = c as u32;
    ||| (0x9 <= u && u <= 0xd)
    ||| u == 0x20
    ||| u == 0x85
    ||| u == 0xa0
    ||| u == 0x1680
    ||| (0x2000 <= u && u <= 0x200a)
    ||| u == 0x2028
    ||| u == 0x2029
    ||| u == 0x202f
    ||| u == 0x205f
    ||| u == 0x3000
}

/// Whether `c` is Unicode white space.
pub fn is_whitespace(c: char) -> (b: bool)
    ensures
        b == is_ws(c),
{
    let u = c as u32;
    (0x9 <= u && u <= 0xd) || u == 0x20 || u == 0x85 || u == 0xa0 || u == 0x1680 || (0x2000
        <= u && u <= 0x200a) || u == 0x2028 || u == 0x2029 || u == 0x202f || u == 0x205f || u
        == 0x3000
}

pub open spec fn is_ascii_alnum(c: char) -> bool {
    ||| ('0' <= c && c <= '9')
    ||| ('a' <= c && c <= 'z')
    ||| ('A' <= c && c <= 'Z')
}

/// Whether `c` is an ASCII letter or digit.
pub fn is_ascii_alphanumeric(c: char) -> (b: bool)
    ensures
        b == is_ascii_alnum(c),
{
    ('0' <= c && c <= '9') || ('a' <= c && c <= 'z') || ('A' <= c && c <= 'Z')
}

pub open spec fn ascii_lower_char(c: char) -> char {
    if 'A' <= c && c <= 'Z' {
        ((c as u32) + 32) as char
    } else {
        c
    }
}

pub open spec fn ascii_lower(s: Seq<char>) -> Seq<char> {
    s.map_values(|c: char| ascii_lower_char(c))
}

pub open spec fn is_ascii_seq(s: Seq<char>) -> bool {
    forall|i: int| 0 <= i < s.len() ==> (s[i] as u32) < 128
}

// ---------------------------------------------------------------------------
// Outside behaviour: Unicode lower-casing
// ---------------------------------------------------------------------------

/// No ASCII capital letter occurs in `s`.
pub open spec fn no_ascii_upper(s: Seq<char>) -> bool {
    forall|i: int| 0 <= i < s.len() ==> !('A' <= #[trigger] s[i] && s[i] <= 'Z')
}

/// What `str::to_lowercase` gives for a string (full Unicode case mapping).
pub uninterp spec fn unicode_lowercase(s: Seq<char>) -> Seq<char>;

/// `str::to_lowercase`: the Unicode lower-case mapping of `s`.  On ASCII
/// input it is the ASCII lower-case mapping (std documents that ASCII letters
/// map to their ASCII lower-case forms), and no ASCII capital is left in the
/// result, since every character is replaced by its lower-case mapping;
/// beyond that the result is named, not stated.
#[verifier::external_body]
pub fn to_lowercase(s: &str) -> (r: String)
    ensures
        r@ == unicode_lowercase(s@),
        is_ascii_seq(s@) ==> r@ == ascii_lower(s@),
        no_ascii_upper(r@),
{
    s.to_lowercase()
}

/// Appends one character to a string (`String::push`).
#[verifier::external_body]
pub fn push_char(s: &mut String, c: char)
    ensures
        final(s)@ == old(s)@.push(c),
{
    s.push(c);
}

/// `std::str::from_utf8` copied into a `String`: `Some` exactly when the
/// bytes are valid UTF-8, holding the characters they encode.
#[verifier::external_body]
pub(crate) fn utf8_string(bytes: &[u8]) -> (r: Option<String>)
    ensures
        r is Some <==> valid_utf8(bytes@),
        r matches Some(s) ==> s@ == decode_utf8(bytes@),
{
    std::str::from_utf8(bytes).ok().map(|s| s.to_string())
}

// ---------------------------------------------------------------------------
// Conversions between strings and character vectors
// ---------------------------------------------------------------------------

/// Collects the characters of a string slice.
pub fn chars_of(s: &str) -> (v: Vec<char>)
    ensures
        v@ == s@,
{
    let mut v: Vec<char> = Vec::new();
    for c in it: s.chars()
        invariant
            v@ == it.seq().take(it.index() as int),
            it.seq() == s@,
    {
        v.push(c);
    }
    v
}

/// Builds a string from a sequence of characters.
pub fn string_of(v: &[char]) -> (s: String)
    ensures
        s@ == v@,
{
    let mut s = String::new();
    let mut i: usize = 0;
    while i < v.len()
        invariant
            i <= v.len(),
            s@ == v@.take(i as int),
        decreases v.len() - i,
    {
        push_char(&mut s, v[i]);
        i = i + 1;
        assert(v@.take(i as int) == v@.take((i - 1) as int).push(v@[i - 1]));
    }
    assert(v@.take(v.len() as int) == v@);
    s
}

/// Appends a slice of characters to a vector.
pub fn extend_chars(out: &mut Vec<char>, v: &[char])
    ensures
        final(out)@ == old(out)@ + v@,
{
    let mut i: usize = 0;
    while i < v.len()
        invariant
            i <= v.len(),
            out@ == old(out)@ + v@.take(i as int),
        decreases v.len() - i,
    {
        out.push(v[i]);
        i = i + 1;
        assert(v@.take(i as int) == v@.take((i - 1) as int).push(v@[i - 1]));
    }
    assert(v@.take(v.len() as int) == v@);
}

/// Copies `v[a..b]` into a new vector.
pub fn slice_chars(v: &[char], a: usize, b: usize) -> (r: Vec<char>)
    requires
        a <= b <= v.len(),
    ensures
        r@ == v@.subrange(a as int, b as int),
{
    let mut r: Vec<char> = Vec::new();
    let mut i: usize = a;
    while i < b
        invariant
            a <= i <= b <= v.len(),
            r@ == v@.subrange(a as int, i as int),
        decreases b - i,
    {
        r.push(v[i]);
        i = i + 1;
        assert(v@.subrange(a as int, i as int) == v@.subrange(a as int, (i - 1) as int).push(
            v@[i - 1],
        ));
    }
    r
}

// ---------------------------------------------------------------------------
// Trimming
// ---------------------------------------------------------------------------

/// `str::trim_start`: drops leading white space.
pub open spec fn trim_start(s: Seq<char>) -> Seq<char>
    decreases s.len(),
{
    if s.len() > 0 && is_ws(s[0]) {
        trim_start(s.drop_first())
    } else {
        s
    }
}

/// `str::trim_end`: drops trailing white space.
pub open spec fn trim_end(s: Seq<char>) -> Seq<char>
    decreases s.len(),
{
    if s.len() > 0 && is_ws(s.last()) {
        trim_end(s.drop_last())
    } else {
        s
    }
}

/// `str::trim`: drops white space at both ends.
pub open spec fn trim(s: Seq<char>) -> Seq<char> {
    trim_end(trim_start(s))
}

/// Drops every leading and trailing occurrence of `c` (`str::trim_matches`
/// with a single character).
pub open spec fn trim_char_start(s: Seq<char>, c: char) -> Seq<char>
    decreases s.len(),
{
    if s.len() > 0 && s[0] == c {
        trim_char_start(s.drop_first(), c)
    } else {
        s
    }
}

pub open spec fn trim_char_end<A>(s: Seq<A>, c: A) -> Seq<A>
    decreases s.len(),
{
    if s.len() > 0 && s.last() == c {
        trim_char_end(s.drop_last(), c)
    } else {
        s
    }
}

pub open spec fn trim_char(s: Seq<char>, c: char) -> Seq<char> {
    trim_char_end(trim_char_start(s, c), c)
}

/// Index of the first character of `v` that is not white space.
pub fn leading_ws(v: &[char]) -> (k: usize)
    ensures
        k <= v.len(),
        trim_start(v@) == v@.skip(k as int),
{
    let mut i: usize = 0;
    assert(v@.skip(0) == v@);
    while i < v.len() && is_whitespace(v[i])
        invariant
            i <= v.len(),
            trim_start(v@) == trim_start(v@.skip(i as int)),
        decreases v.len() - i,
    {
        assert(v@.skip(i as int).drop_first() == v@.skip(i + 1));
        i = i + 1;
    }
    i
}

/// Length of `v` without its trailing white space.
pub fn trailing_ws_end(v: &[char]) -> (k: usize)
    ensures
        k <= v.len(),
        trim_end(v@) == v@.take(k as int),
{
    let mut j: usize = v.len();
    assert(v@.take(j as int) == v@);
    while j > 0 && is_whitespace(v[j - 1])
        invariant
            j <= v.len(),
            trim_end(v@) == trim_end(v@.take(j as int)),
        decreases j,
    {
        assert(v@.take(j as int).drop_last() == v@.take(j - 1));
        j = j - 1;
    }
    j
}

/// The bounds of `v` with white space trimmed at both ends.
pub fn trim_bounds(v: &[char]) -> (r: (usize, usize))
    ensures
        r.0 <= r.1 <= v.len(),
        trim(v@) == v@.subrange(r.0 as int, r.1 as int),
{
    let a = leading_ws(v);
    let mut j: usize = v.len();
    assert(v@.skip(a as int) == v@.subrange(a as int, j as int));
    while j > a && is_whitespace(v[j - 1])
        invariant
            a <= j <= v.len(),
            trim(v@) == trim_end(v@.subrange(a as int, j as int)),
        decreases j,
    {
        assert(v@.subrange(a as int, j as int).drop_last() == v@.subrange(a as int, j - 1));
        j = j - 1;
    }
    (a, j)
}

/// `s.trim()` as a character vector.
pub fn trim_chars(v: &[char]) -> (r: Vec<char>)
    ensures
        r@ == trim(v@),
{
    let (a, b) = trim_bounds(v);
    slice_chars(v, a, b)
}

/// `s.trim()`.
pub fn trim_str(s: &str) -> (r: String)
    ensures
        r@ == trim(s@),
{
    let v = chars_of(s);
    let t = trim_chars(&v);
    string_of(&t)
}

/// `s.trim_end()` as a character vector.
pub fn trim_end_chars(v: &[char]) -> (r: Vec<char>)
    ensures
        r@ == trim_end(v@),
{
    let k = trailing_ws_end(v);
    slice_chars(v, 0, k)
}

/// Bounds of `v` with every leading and trailing `c` removed.
pub fn trim_char_bounds(v: &[char], c: char) -> (r: (usize, usize))
    ensures
        r.0 <= r.1 <= v.len(),
        trim_char(v@, c) == v@.subrange(r.0 as int, r.1 as int),
{
    let mut a: usize = 0;
    assert(v@.skip(0) == v@);
    while a < v.len() && v[a] == c
        invariant
            a <= v.len(),
            trim_char_start(v@, c) == trim_char_start(v@.skip(a as int), c),
        decreases v.len() - a,
    {
        assert(v@.skip(a as int).drop_first() == v@.skip(a + 1));
        a = a + 1;
    }
    let mut j: usize = v.len();
    assert(v@.skip(a as int) == v@.subrange(a as int, j as int));
    while j > a && v[j - 1] == c
        invariant
            a <= j <= v.len(),
            trim_char(v@, c) == trim_char_end(v@.subrange(a as int, j as int), c),
        decreases j,
    {
        assert(v@.subrange(a as int, j as int).drop_last() == v@.subrange(a as int, j - 1));
        j = j - 1;
    }
    (a, j)
}

/// Drops trailing occurrences of `c` (`str::trim_end_matches` with one
/// character).
pub fn trim_end_char_chars(v: &[char], c: char) -> (r: Vec<char>)
    ensures
        r@ == trim_char_end(v@, c),
{
    let mut j: usize = v.len();
    assert(v@.take(j as int) == v@);
    while j > 0 && v[j - 1] == c
        invariant
            j <= v.len(),
            trim_char_end(v@, c) == trim_char_end(v@.take(j as int), c),
        decreases j,
    {
        assert(v@.take(j as int).drop_last() == v@.take(j - 1));
        j = j - 1;
    }
    slice_chars(v, 0, j)
}

/// `s.trim_end_matches(c)` for one character `c`.
pub fn trim_end_char_str(s: &str, c: char) -> (r: String)
    ensures
        r@ == trim_char_end(s@, c),
{
    let v = chars_of(s);
    let t = trim_end_char_chars(&v, c);
    string_of(&t)
}

/// Drops leading occurrences of `c` (`str::trim_start_matches` with one
/// character).
pub fn trim_start_char_chars(v: &[char], c: char) -> (r: Vec<char>)
    ensures
        r@ == trim_char_start(v@, c),
{
    let mut a: usize = 0;
    assert(v@.skip(0) == v@);
    while a < v.len() && v[a] == c
        invariant
            a <= v.len(),
            trim_char_start(v@, c) == trim_char_start(v@.skip(a as int), c),
        decreases v.len() - a,
    {
        assert(v@.skip(a as int).drop_first() == v@.skip(a + 1));
        a = a + 1;
    }
    assert(v@.skip(a as int) == v@.subrange(a as int, v.len() as int));
    slice_chars(v, a, v.len())
}


// ---------------------------------------------------------------------------
// Words and joining
// ---------------------------------------------------------------------------

/// The maximal runs of non-white-space characters of `s`, in order
/// (`str::split_whitespace`).
pub open spec fn words(s: Seq<char>) -> Seq<Seq<char>>
    decreases s.len(),
{
    if s.len() == 0 {
        seq![]
    } else {
        let w = words(s.drop_last());
        let c = s.last();
        if is_ws(c) {
            w
        } else if s.len() >= 2 && !is_ws(s[s.len() - 2]) {
            w.update(w.len() - 1, w.last().push(c))
        } else {
            w.push(seq![c])
        }
    }
}

/// The pieces of `ws` joined by `sep` (`[T]::join`).
pub open spec fn join(ws: Seq<Seq<char>>, sep: Seq<char>) -> Seq<char>
    decreases ws.len(),
{
    if ws.len() == 0 {
        seq![]
    } else if ws.len() == 1 {
        ws[0]
    } else {
        join(ws.drop_last(), sep) + sep + ws.last()
    }
}

/// The words of `s` joined by single spaces.
pub open spec fn collapse_ws(s: Seq<char>) -> Seq<char> {
    join(words(s), seq![' '])
}

pub proof fn lemma_words_nonempty(s: Seq<char>)
    requires
        s.len() > 0,
        !is_ws(s.last()),
    ensures
        words(s).len() > 0,
    decreases s.len(),
{
    if s.len() >= 2 && !is_ws(s[s.len() - 2]) {
        assert(s.drop_last().last() == s[s.len() - 2]);
        lemma_words_nonempty(s.drop_last());
    }
}

pub proof fn lemma_join_push(ws: Seq<Seq<char>>, sep: Seq<char>, w: Seq<char>)
    ensures
        join(ws.push(w), sep) == if ws.len() == 0 {
            w
        } else {
            join(ws, sep) + sep + w
        },
{
    assert(ws.push(w).drop_last() == ws);
}

pub proof fn lemma_join_extend_last(ws: Seq<Seq<char>>, sep: Seq<char>, c: char)
    requires
        ws.len() > 0,
    ensures
        join(ws.update(ws.len() - 1, ws.last().push(c)), sep) == join(ws, sep).push(c),
{
    let u = ws.update(ws.len() - 1, ws.last().push(c));
    if ws.len() == 1 {
        assert(u[0] == ws[0].push(c));
    } else {
        assert(u.drop_last() == ws.drop_last());
        assert(u.last() == ws.last().push(c));
        assert(join(ws.drop_last(), sep) + sep + ws.last().push(c) == (join(ws.drop_last(), sep)
            + sep + ws.last()).push(c));
    }
}

/// The words of `v` joined by single spaces
/// (`s.split_whitespace().collect::<Vec<_>>().join(" ")`).
pub fn collapse_ws_chars(v: &[char]) -> (r: Vec<char>)
    ensures
        r@ == collapse_ws(v@),
{
    let mut out: Vec<char> = Vec::new();
    let mut i: usize = 0;
    assert(v@.take(0) == Seq::<char>::empty());
    while i < v.len()
        invariant
            i <= v.len(),
            out@ == collapse_ws(v@.take(i as int)),
            out@.len() == 0 <==> words(v@.take(i as int)).len() == 0,
        decreases v.len() - i,
    {
        let c = v[i];
        let ghost pre = v@.take(i as int);
        let ghost cur = v@.take(i + 1);
        assert(cur.drop_last() == pre);
        assert(cur.last() == c);
        if is_whitespace(c) {
        } else if i > 0 && !is_whitespace(v[i - 1]) {
            proof {
                assert(pre.last() == v@[i - 1]);
                assert(cur[cur.len() - 2] == v@[i - 1]);
                lemma_words_nonempty(pre);
                lemma_join_extend_last(words(pre), seq![' '], c);
            }
            out.push(c);
        } else {
            proof {
                if i > 0 {
                    assert(cur[cur.len() - 2] == v@[i - 1]);
                }
                lemma_join_push(words(pre), seq![' '], seq![c]);
            }
            if out.len() > 0 {
                out.push(' ');
            }
            out.push(c);
            assert(out@ == collapse_ws(cur));
        }
        i = i + 1;
    }
    assert(v@.take(v.len() as int) == v@);
    out
}

/// The number of white-space separated words of `v`
/// (`split_whitespace().count()`).
pub fn word_count(v: &[char]) -> (n: usize)
    ensures
        n == words(v@).len(),
{
    let mut n: usize = 0;
    let mut i: usize = 0;
    assert(v@.take(0) == Seq::<char>::empty());
    while i < v.len()
        invariant
            i <= v.len(),
            n == words(v@.take(i as int)).len(),
            n <= i,
        decreases v.len() - i,
    {
        let c = v[i];
        let ghost pre = v@.take(i as int);
        let ghost cur = v@.take(i + 1);
        assert(cur.drop_last() == pre);
        assert(cur.last() == c);
        if is_whitespace(c) {
        } else if i > 0 && !is_whitespace(v[i - 1]) {
            proof {
                assert(cur[cur.len() - 2] == v@[i - 1]);
                assert(pre.last() == v@[i - 1]);
                lemma_words_nonempty(pre);
                assert(words(cur) == words(pre).update(
                    words(pre).len() - 1,
                    words(pre).last().push(c),
                ));
            }
        } else {
            proof {
                if i > 0 {
                    assert(cur[cur.len() - 2] == v@[i - 1]);
                }
                assert(words(cur) == words(pre).push(seq![c]));
            }
            n = n + 1;
        }
        i = i + 1;
    }
    assert(v@.take(v.len() as int) == v@);
    n
}

// ---------------------------------------------------------------------------
// Substrings and replacement
// ---------------------------------------------------------------------------

/// `needle` occurs in `s` at position `i`.
pub open spec fn occurs_at(s: Seq<char>, needle: Seq<char>, i: int) -> bool {
    0 <= i && i + needle.len() <= s.len() && s.subrange(i, i + needle.len()) == needle
}

/// `str::contains` with a string pattern.
pub open spec fn contains_seq(s: Seq<char>, needle: Seq<char>) -> bool {
    exists|i: int| occurs_at(s, needle, i)
}

/// Whether `pat` occurs in `v` at position `i`.
pub fn matches_at(v: &[char], i: usize, pat: &[char]) -> (b: bool)
    ensures
        b == occurs_at(v@, pat@, i as int),
{
    if i > v.len() || pat.len() > v.len() - i {
        return false;
    }
    let mut k: usize = 0;
    while k < pat.len()
        invariant
            i + pat.len() <= v.len(),
            k <= pat.len(),
            forall|m: int| 0 <= m < k ==> v@[i + m] == pat@[m],
        decreases pat.len() - k,
    {
        if v[i + k] != pat[k] {
            assert(v@.subrange(i as int, i + pat.len())[k as int] != pat@[k as int]);
            return false;
        }
        k = k + 1;
    }
    assert(v@.subrange(i as int, i + pat.len()) == pat@);
    true
}

/// `str::starts_with` with a string pattern.
pub fn has_prefix(s: &str, prefix: &str) -> (b: bool)
    ensures
        b == prefix@.is_prefix_of(s@),
{
    let v = chars_of(s);
    let p = chars_of(prefix);
    let b = matches_at(&v, 0, &p);
    assert(b == prefix@.is_prefix_of(s@)) by {
        if prefix@.len() <= s@.len() {
            assert(s@.subrange(0, prefix@.len() as int) == s@.subrange(0, (0 + prefix@.len()) as int));
        }
    }
    b
}

/// Whether `needle` occurs anywhere in `v`.
pub fn contains_chars(v: &[char], needle: &[char]) -> (b: bool)
    ensures
        b == contains_seq(v@, needle@),
{
    if needle.len() > v.len() {
        assert(!contains_seq(v@, needle@));
        return false;
    }
    if needle.len() == 0 {
        assert(v@.subrange(0, 0) == needle@);
        assert(occurs_at(v@, needle@, 0));
        return true;
    }
    let mut i: usize = 0;
    while i <= v.len() - needle.len()
        invariant
            0 < needle.len() <= v.len(),
            i <= v.len() - needle.len() + 1,
            forall|j: int| 0 <= j < i ==> !occurs_at(v@, needle@, j),
        decreases v.len() - needle.len() + 1 - i,
    {
        if matches_at(v, i, needle) {
            return true;
        }
        i = i + 1;
    }
    assert forall|j: int| !occurs_at(v@, needle@, j) by {
        if 0 <= j && j + needle@.len() <= v@.len() {
            assert(j < i);
        }
    }
    false
}

/// `str::replace`: every non-overlapping occurrence of `pat`, scanning from
/// the left, replaced by `rep`.
pub open spec fn replace_all(s: Seq<char>, pat: Seq<char>, rep: Seq<char>) -> Seq<char>
    decreases s.len(),
{
    if pat.len() == 0 || s.len() < pat.len() {
        s
    } else if s.take(pat.len() as int) == pat {
        rep + replace_all(s.skip(pat.len() as int), pat, rep)
    } else {
        seq![s[0]] + replace_all(s.drop_first(), pat, rep)
    }
}

/// Replaces every non-overlapping occurrence of `pat` by `rep`.
pub fn replace_chars(v: &[char], pat: &[char], rep: &[char]) -> (r: Vec<char>)
    requires
        pat.len() > 0,
    ensures
        r@ == replace_all(v@, pat@, rep@),
{
    let mut out: Vec<char> = Vec::new();
    let mut i: usize = 0;
    assert(v@.skip(0) == v@);
    while i < v.len() && pat.len() <= v.len() - i
        invariant
            pat.len() > 0,
            i <= v.len(),
            replace_all(v@, pat@, rep@) == out@ + replace_all(v@.skip(i as int), pat@, rep@),
        decreases v.len() - i,
    {
        let ghost rest = v@.skip(i as int);
        if matches_at(v, i, pat) {
            assert(rest.take(pat.len() as int) == v@.subrange(i as int, i + pat.len()));
            assert(rest.skip(pat.len() as int) == v@.skip(i + pat.len()));
            extend_chars(&mut out, rep);
            i = i + pat.len();
        } else {
            assert(rest.take(pat.len() as int) == v@.subrange(i as int, i + pat.len()));
            assert(rest.drop_first() == v@.skip(i + 1));
            assert(rest[0] == v@[i as int]);
            out.push(v[i]);
            i = i + 1;
        }
    }
    let tail = slice_chars(v, i, v.len());
    assert(tail@ == v@.skip(i as int));
    extend_chars(&mut out, &tail);
    out
}


// ---------------------------------------------------------------------------
// Splitting into lines
// ---------------------------------------------------------------------------

/// The pieces of `s` between occurrences of `sep` (`str::split` with one
/// character); there is always at least one piece.
pub open spec fn split_on<A>(s: Seq<A>, sep: A) -> Seq<Seq<A>>
    decreases s.len(),
{
    if s.len() == 0 {
        seq![seq![]]
    } else {
        let p = split_on(s.drop_last(), sep);
        if s.last() == sep {
            p.push(seq![])
        } else {
            p.update(p.len() - 1, p.last().push(s.last()))
        }
    }
}

pub proof fn lemma_split_on_nonempty<A>(s: Seq<A>, sep: A)
    ensures
        split_on(s, sep).len() >= 1,
    decreases s.len(),
{
    if s.len() > 0 {
        lemma_split_on_nonempty(s.drop_last(), sep);
    }
}

/// Splitting `s + [c]`: a separator opens a new piece, anything else
/// extends the last piece.
pub proof fn lemma_split_on_step<A>(s: Seq<A>, c: A, sep: A)
    ensures
        split_on(s.push(c), sep) == if c == sep {
            split_on(s, sep).push(seq![])
        } else {
            let p = split_on(s, sep);
            p.update(p.len() - 1, p.last().push(c))
        },
{
    assert(s.push(c).drop_last() == s);
}

/// `s.split(sep)` with one separator character, each piece collected.
pub fn split_chars(v: &[char], sep: char) -> (r: Vec<Vec<char>>)
    ensures
        r@.len() == split_on(v@, sep).len(),
        forall|k: int| 0 <= k < r@.len() ==> #[trigger] r@[k]@ == split_on(v@, sep)[k],
{
    let mut pieces: Vec<Vec<char>> = Vec::new();
    let mut cur: Vec<char> = Vec::new();
    let mut i: usize = 0;
    assert(v@.take(0) == Seq::<char>::empty());
    while i < v.len()
        invariant
            i <= v@.len(),
            pieces@.len() + 1 == split_on(v@.take(i as int), sep).len(),
            forall|k: int|
                0 <= k < pieces@.len() ==> #[trigger] pieces@[k]@ == split_on(v@.take(i as int), sep)[k],
            cur@ == split_on(v@.take(i as int), sep).last(),
        decreases v.len() - i,
    {
        proof {
            assert(v@.take(i + 1) == v@.take(i as int).push(v@[i as int]));
            lemma_split_on_step(v@.take(i as int), v@[i as int], sep);
            lemma_split_on_nonempty(v@.take(i as int), sep);
        }
        if v[i] == sep {
            pieces.push(cur);
            cur = Vec::new();
        } else {
            cur.push(v[i]);
        }
        i = i + 1;
    }
    assert(v@.take(v@.len() as int) == v@);
    proof {
        lemma_split_on_nonempty(v@, sep);
    }
    pieces.push(cur);
    pieces
}


// ---------------------------------------------------------------------------
// Equality
// ---------------------------------------------------------------------------

/// Replaces every occurrence of the literal `pat` by `rep`.
pub fn replace_lit(v: &[char], pat: &str, rep: &str) -> (r: Vec<char>)
    requires
        pat@.len() > 0,
    ensures
        r@ == replace_all(v@, pat@, rep@),
{
    let p = chars_of(pat);
    let q = chars_of(rep);
    replace_chars(v, &p, &q)
}

/// Whether two character slices are equal.
pub fn same_chars(a: &[char], b: &[char]) -> (r: bool)
    ensures
        r == (a@ == b@),
{
    if a.len() != b.len() {
        return false;
    }
    let mut i: usize = 0;
    while i < a.len()
        invariant
            a.len() == b.len(),
            i <= a.len(),
            forall|k: int| 0 <= k < i ==> a@[k] == b@[k],
        decreases a.len() - i,
    {
        if a[i] != b[i] {
            return false;
        }
        i = i + 1;
    }
    assert(a@ == b@);
    true
}

/// Whether two strings hold the same characters.
pub fn str_eq(a: &str, b: &str) -> (r: bool)
    ensures
        r == (a@ == b@),
{
    let x = chars_of(a);
    let y = chars_of(b);
    same_chars(&x, &y)
}


/// Replacing with text free of ASCII capitals keeps a text free of them.
pub proof fn lemma_replace_no_upper(s: Seq<char>, pat: Seq<char>, rep: Seq<char>)
    requires
        no_ascii_upper(s),
        no_ascii_upper(rep),
    ensures
        no_ascii_upper(replace_all(s, pat, rep)),
    decreases s.len(),
{
    if pat.len() == 0 || s.len() < pat.len() {
    } else if s.take(pat.len() as int) == pat {
        let t = s.skip(pat.len() as int);
        assert(no_ascii_upper(t)) by {
            assert forall|i: int| 0 <= i < t.len() implies !('A' <= #[trigger] t[i] && t[i] <= 'Z') by {
                assert(t[i] == s[i + pat.len()]);
            }
        }
        lemma_replace_no_upper(t, pat, rep);
        let r = replace_all(t, pat, rep);
        assert forall|i: int| 0 <= i < (rep + r).len() implies !('A' <= #[trigger] (rep + r)[i] && (rep
            + r)[i] <= 'Z') by {
            if i < rep.len() {
                assert((rep + r)[i] == rep[i]);
            } else {
                assert((rep + r)[i] == r[i - rep.len()]);
            }
        }
    } else {
        let t = s.drop_first();
        assert(no_ascii_upper(t)) by {
            assert forall|i: int| 0 <= i < t.len() implies !('A' <= #[trigger] t[i] && t[i] <= 'Z') by {
                assert(t[i] == s[i + 1]);
            }
        }
        lemma_replace_no_upper(t, pat, rep);
        let r = replace_all(t, pat, rep);
        assert forall|i: int| 0 <= i < (seq![s[0]] + r).len() implies !('A' <= #[trigger] (seq![s[0]]
            + r)[i] && (seq![s[0]] + r)[i] <= 'Z') by {
            if i > 0 {
                assert((seq![s[0]] + r)[i] == r[i - 1]);
            }
        }
    }
}

/// The words of a text free of ASCII capitals are free of them.
pub proof fn lemma_words_no_upper(s: Seq<char>)
    requires
        no_ascii_upper(s),
    ensures
        forall|k: int| 0 <= k < words(s).len() ==> no_ascii_upper(#[trigger] words(s)[k]),
    decreases s.len(),
{
    if s.len() > 0 {
        let d = s.drop_last();
        assert(no_ascii_upper(d)) by {
            assert forall|i: int| 0 <= i < d.len() implies !('A' <= #[trigger] d[i] && d[i] <= 'Z') by {
                assert(d[i] == s[i]);
            }
        }
        lemma_words_no_upper(d);
        let w = words(d);
        let c = s.last();
        assert(!('A' <= c && c <= 'Z')) by {
            assert(c == s[s.len() - 1]);
        }
        if !is_ws(c) && s.len() >= 2 && !is_ws(s[s.len() - 2]) {
            assert(d.last() == s[s.len() - 2]);
            lemma_words_nonempty(d);
            let u = w.update(w.len() - 1, w.last().push(c));
            assert forall|k: int| 0 <= k < u.len() implies no_ascii_upper(#[trigger] u[k]) by {
                if k == w.len() - 1 {
                    assert(no_ascii_upper(w[k]));
                    assert forall|i: int| 0 <= i < u[k].len() implies !('A' <= #[trigger] u[k][i] && u[k][i]
                        <= 'Z') by {
                        if i < w[k].len() {
                            assert(u[k][i] == w[k][i]);
                        }
                    }
                } else {
                    assert(u[k] == w[k]);
                }
            }
        } else if !is_ws(c) {
            let u = w.push(seq![c]);
            assert forall|k: int| 0 <= k < u.len() implies no_ascii_upper(#[trigger] u[k]) by {
                if k < w.len() {
                    assert(u[k] == w[k]);
                }
            }
        }
    }
}

/// Pieces and a separator free of ASCII capitals join to a text free of
/// them.
pub proof fn lemma_join_no_upper(ws: Seq<Seq<char>>, sep: Seq<char>)
    requires
        forall|k: int| 0 <= k < ws.len() ==> no_ascii_upper(#[trigger] ws[k]),
        no_ascii_upper(sep),
    ensures
        no_ascii_upper(join(ws, sep)),
    decreases ws.len(),
{
    if ws.len() == 1 {
        assert(no_ascii_upper(ws[0]));
    } else if ws.len() > 1 {
        let d = ws.drop_last();
        assert forall|k: int| 0 <= k < d.len() implies no_ascii_upper(#[trigger] d[k]) by {
            assert(d[k] == ws[k]);
        }
        lemma_join_no_upper(d, sep);
        let a = join(d, sep);
        let l = ws.last();
        assert(no_ascii_upper(l)) by {
            assert(l == ws[ws.len() - 1]);
        }
        let r = a + sep + l;
        assert forall|i: int| 0 <= i < r.len() implies !('A' <= #[trigger] r[i] && r[i] <= 'Z') by {
            if i < a.len() {
                assert(r[i] == a[i]);
            } else if i < a.len() + sep.len() {
                assert(r[i] == sep[i - a.len()]);
            } else {
                assert(r[i] == l[i - a.len() - sep.len()]);
            }
        }
    }
}
} // verus!
