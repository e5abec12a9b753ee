//! Lyrics lookups: normalisation of artist, title and album for matching,
//! cleaning of plain lyrics, cache keys and Genius URL candidates.
use vstd::prelude::*;

use crate::genius::{
    candidates_from_slugs, slug_chars, slug_of, string_views, url_candidates, is_slug, law_slug_shape,
};
use crate::numfmt::{decimal_signed, push_decimal_signed};
use crate::text::{
    chars_of, extend_chars, join, lemma_split_on_nonempty, lemma_split_on_step, split_on,
    occurs_at, trim_end, trim_end_chars, collapse_ws, collapse_ws_chars, contains_chars, contains_seq, replace_all,
    replace_lit, slice_chars, string_of, to_lowercase, trim, trim_chars, unicode_lowercase,
    no_ascii_upper, lemma_replace_no_upper, lemma_words_no_upper, lemma_join_no_upper, words,
};

verus! {

/// A lyrics lookup result as returned to the front end and stored in the
/// lyrics cache.
pub struct LyricsResult {
    pub plain_lyrics: Option<String>,
    pub synced_lyrics: Option<String>,
    pub instrumental: bool,
    pub provider: Option<String>,
    pub cached: bool,
}

// ---------------------------------------------------------------------------
// Specifications
// ---------------------------------------------------------------------------

/// Separators that end the primary artist in a credit such as
/// "A, B & C".
pub open spec fn is_artist_sep(c: char) -> bool {
    c == ',' || c == ';' || c == '&'
}

/// The part of `s` before its first artist separator (all of `s` when it
/// has none).
pub open spec fn primary_part(s: Seq<char>) -> Seq<char>
    decreases s.len(),
{
    if s.len() == 0 {
        s
    } else if is_artist_sep(s[0]) {
        seq![]
    } else {
        seq![s[0]] + primary_part(s.drop_first())
    }
}

/// Index of the first `c` in `s` at or after `start`, or `s.len()`.
pub open spec fn find_char_from(s: Seq<char>, c: char, start: int) -> int
    decreases s.len() - start,
{
    if start >= s.len() {
        s.len() as int
    } else if s[start] == c {
        start
    } else {
        find_char_from(s, c, start + 1)
    }
}

pub proof fn lemma_find_char_from_bounds(s: Seq<char>, c: char, start: int)
    requires
        0 <= start,
    ensures
        start <= find_char_from(s, c, start) || find_char_from(s, c, start) == s.len(),
        find_char_from(s, c, start) <= s.len() || start > s.len(),
        find_char_from(s, c, start) < s.len() ==> s[find_char_from(s, c, start)] == c,
    decreases s.len() - start,
{
    if start < s.len() && s[start] != c {
        lemma_find_char_from_bounds(s, c, start + 1);
    }
}

/// A bracketed suffix that only names a release variant, such as
/// "(Remastered 2011)" or "[Live]".
pub open spec fn is_edition_tag(t: Seq<char>) -> bool {
    ||| contains_seq(t, "remaster"@)
    ||| contains_seq(t, "deluxe"@)
    ||| contains_seq(t, "edition"@)
    ||| contains_seq(t, "version"@)
    ||| contains_seq(t, "live"@)
    ||| contains_seq(t, "mono"@)
    ||| contains_seq(t, "stereo"@)
    ||| contains_seq(t, "bonus"@)
}

pub open spec fn closing_of(c: char) -> char {
    if c == '(' {
        ')'
    } else {
        ']'
    }
}

/// `s[i..]` with every "(…)" or "[…]" group whose trimmed contents name a
/// release variant removed, together with its brackets; a group that is
/// never closed runs to the end of the text.
pub open spec fn strip_edition_tags(s: Seq<char>, i: int) -> Seq<char>
    decreases s.len() - i,
{
    if i < 0 || i >= s.len() {
        seq![]
    } else {
        let ch = s[i];
        let j = find_char_from(s, closing_of(ch), i + 1);
        if (ch == '(' || ch == '[') && is_edition_tag(trim(s.subrange(i + 1, j))) {
            if i < j && j < s.len() {
                strip_edition_tags(s, j + 1)
            } else {
                seq![]
            }
        } else {
            seq![ch] + strip_edition_tags(s, i + 1)
        }
    }
}

/// The featuring markers and variant suffixes that title normalisation
/// removes, in the order they are removed.
pub open spec fn title_noise_removed(s: Seq<char>) -> Seq<char> {
    let s1 = replace_all(s, " feat. "@, " "@);
    let s2 = replace_all(s1, " featuring "@, " "@);
    let s3 = replace_all(s2, " ft. "@, " "@);
    let s4 = replace_all(s3, " - remastered"@, " "@);
    let s5 = replace_all(s4, " - live"@, " "@);
    let s6 = replace_all(s5, " - mono"@, " "@);
    replace_all(s6, " - stereo"@, " "@)
}

/// The normalised form of an artist credit: lower case, only the primary
/// artist, white space collapsed.
pub open spec fn artist_key(s: Seq<char>) -> Seq<char> {
    collapse_ws(primary_part(unicode_lowercase(s)))
}

/// The normalised form of a track or album title: lower case, variant
/// tags and featuring markers removed, white space collapsed.
pub open spec fn title_key(s: Seq<char>) -> Seq<char> {
    let lower = unicode_lowercase(s);
    collapse_ws(title_noise_removed(strip_edition_tags(lower, 0)))
}

// ---------------------------------------------------------------------------
// Implementations
// ---------------------------------------------------------------------------

/// Collapses every run of white space to one space and trims both ends.
pub fn normalize_whitespace(value: &str) -> (r: String)
    ensures
        r@ == collapse_ws(value@),
{
    let v = chars_of(value);
    let out = collapse_ws_chars(&v);
    string_of(&out)
}

fn primary_part_chars(v: &[char]) -> (r: Vec<char>)
    ensures
        r@ == primary_part(v@),
{
    let mut i: usize = 0;
    assert(v@.skip(0) == v@);
    while i < v.len() && !(v[i] == ',' || v[i] == ';' || v[i] == '&')
        invariant
            i <= v.len(),
            primary_part(v@) == v@.take(i as int) + primary_part(v@.skip(i as int)),
        decreases v.len() - i,
    {
        let ghost rest = v@.skip(i as int);
        assert(rest[0] == v@[i as int]);
        assert(rest.drop_first() == v@.skip(i + 1));
        assert(v@.take(i + 1) == v@.take(i as int) + seq![v@[i as int]]);
        i = i + 1;
    }
    if i < v.len() {
        assert(v@.skip(i as int)[0] == v@[i as int]);
    }
    slice_chars(v, 0, i)
}

/// Normalises an artist credit for matching: lower case, the primary artist
/// only (the text before the first ',', ';' or '&'), white space collapsed.
pub fn normalize_artist(value: &str) -> (r: String)
    ensures
        r@ == artist_key(value@),
{
    let lower = to_lowercase(value);
    let v = chars_of(lower.as_str());
    let primary = primary_part_chars(&v);
    let out = collapse_ws_chars(&primary);
    string_of(&out)
}

/// Index of the first `c` in `v` at or after `start`, or `v.len()`.
pub fn find_char(v: &[char], c: char, start: usize) -> (j: usize)
    requires
        start <= v.len(),
    ensures
        j as int == find_char_from(v@, c, start as int),
{
    let mut j = start;
    while j < v.len() && v[j] != c
        invariant
            start <= j <= v.len(),
            find_char_from(v@, c, start as int) == find_char_from(v@, c, j as int),
        decreases v.len() - j,
    {
        j = j + 1;
    }
    j
}

fn is_edition_tag_chars(t: &[char]) -> (b: bool)
    ensures
        b == is_edition_tag(t@),
{
    let k1 = chars_of("remaster");
    let k2 = chars_of("deluxe");
    let k3 = chars_of("edition");
    let k4 = chars_of("version");
    let k5 = chars_of("live");
    let k6 = chars_of("mono");
    let k7 = chars_of("stereo");
    let k8 = chars_of("bonus");
    contains_chars(t, &k1) || contains_chars(t, &k2) || contains_chars(t, &k3)
        || contains_chars(t, &k4) || contains_chars(t, &k5) || contains_chars(t, &k6)
        || contains_chars(t, &k7) || contains_chars(t, &k8)
}

fn strip_edition_tags_chars(v: &[char]) -> (r: Vec<char>)
    ensures
        r@ == strip_edition_tags(v@, 0),
{
    let mut out: Vec<char> = Vec::new();
    let mut i: usize = 0;
    while i < v.len()
        invariant
            i <= v.len(),
            strip_edition_tags(v@, 0) == out@ + strip_edition_tags(v@, i as int),
        decreases v.len() - i,
    {
        let ch = v[i];
        let closing = if ch == '(' {
            ')'
        } else {
            ']'
        };
        let j = find_char(v, closing, i + 1);
        proof {
            lemma_find_char_from_bounds(v@, closing, i + 1);
        }
        if ch == '(' || ch == '[' {
            let inner = slice_chars(v, i + 1, j);
            let trimmed = trim_chars(&inner);
            if is_edition_tag_chars(&trimmed) {
                if j < v.len() {
                    i = j + 1;
                } else {
                    i = v.len();
                }
                continue ;
            }
        }
        out.push(ch);
        i = i + 1;
    }
    assert(out@ + strip_edition_tags(v@, i as int) == out@);
    out
}

/// Normalises a track title for matching: lower case; "(…)"/"[…]" groups
/// that name a remaster, deluxe edition, version, live, mono, stereo or bonus
/// release dropped; featuring markers and " - remastered"/" - live"/
/// " - mono"/" - stereo" suffixes removed; white space collapsed.
proof fn lemma_strip_no_upper(s: Seq<char>, i: int)
    requires
        no_ascii_upper(s),
    ensures
        no_ascii_upper(strip_edition_tags(s, i)),
    decreases s.len() - i,
{
    if 0 <= i < s.len() {
        let ch = s[i];
        let j = find_char_from(s, closing_of(ch), i + 1);
        if (ch == '(' || ch == '[') && is_edition_tag(trim(s.subrange(i + 1, j))) {
            if i < j && j < s.len() {
                lemma_strip_no_upper(s, j + 1);
            }
        } else {
            lemma_strip_no_upper(s, i + 1);
            let r = strip_edition_tags(s, i + 1);
            assert forall|k: int| 0 <= k < (seq![ch] + r).len() implies !('A' <= #[trigger] (seq![ch]
                + r)[k] && (seq![ch] + r)[k] <= 'Z') by {
                if k > 0 {
                    assert((seq![ch] + r)[k] == r[k - 1]);
                }
            }
        }
    }
}

/// Title keys hold no ASCII capital letter.
pub proof fn lemma_title_key_no_upper(s: Seq<char>)
    requires
        no_ascii_upper(unicode_lowercase(s)),
    ensures
        no_ascii_upper(title_key(s)),
{
    let lower = unicode_lowercase(s);
    lemma_strip_no_upper(lower, 0);
    reveal_strlit(" ");
    assert(no_ascii_upper(" "@));
    let s0 = strip_edition_tags(lower, 0);
    let s1 = replace_all(s0, " feat. "@, " "@);
    let s2 = replace_all(s1, " featuring "@, " "@);
    let s3 = replace_all(s2, " ft. "@, " "@);
    let s4 = replace_all(s3, " - remastered"@, " "@);
    let s5 = replace_all(s4, " - live"@, " "@);
    let s6 = replace_all(s5, " - mono"@, " "@);
    lemma_replace_no_upper(s0, " feat. "@, " "@);
    lemma_replace_no_upper(s1, " featuring "@, " "@);
    lemma_replace_no_upper(s2, " ft. "@, " "@);
    lemma_replace_no_upper(s3, " - remastered"@, " "@);
    lemma_replace_no_upper(s4, " - live"@, " "@);
    lemma_replace_no_upper(s5, " - mono"@, " "@);
    lemma_replace_no_upper(s6, " - stereo"@, " "@);
    let s7 = title_noise_removed(s0);
    lemma_words_no_upper(s7);
    assert(no_ascii_upper(seq![' ']));
    lemma_join_no_upper(words(s7), seq![' ']);
}

pub fn normalize_title(value: &str) -> (r: String)
    ensures
        r@ == title_key(value@),
        no_ascii_upper(r@),
{
    let lower = to_lowercase(value);
    let v = chars_of(lower.as_str());
    let stripped = strip_edition_tags_chars(&v);
    proof {
        reveal_strlit(" feat. ");
        reveal_strlit(" featuring ");
        reveal_strlit(" ft. ");
        reveal_strlit(" - remastered");
        reveal_strlit(" - live");
        reveal_strlit(" - mono");
        reveal_strlit(" - stereo");
    }
    let s1 = replace_lit(&stripped, " feat. ", " ");
    let s2 = replace_lit(&s1, " featuring ", " ");
    let s3 = replace_lit(&s2, " ft. ", " ");
    let s4 = replace_lit(&s3, " - remastered", " ");
    let s5 = replace_lit(&s4, " - live", " ");
    let s6 = replace_lit(&s5, " - mono", " ");
    let s7 = replace_lit(&s6, " - stereo", " ");
    let out = collapse_ws_chars(&s7);
    proof {
        lemma_title_key_no_upper(value@);
    }
    string_of(&out)
}

/// Album titles are normalised exactly like track titles.
pub fn normalize_album(value: &str) -> (r: String)
    ensures
        r@ == title_key(value@),
{
    normalize_title(value)
}


// ---------------------------------------------------------------------------
// Plain lyrics clean-up and cache keys
// ---------------------------------------------------------------------------

pub open spec fn trim_end_fn() -> spec_fn(Seq<char>) -> Seq<char> {
    |l: Seq<char>| trim_end(l)
}

/// The lines of `s` (split at '\n') with trailing white space removed,
/// joined again by '\n'.
pub open spec fn lines_trimmed_end(s: Seq<char>) -> Seq<char> {
    join(split_on(s, '\n').map_values(trim_end_fn()), seq!['\n'])
}

/// Plain lyrics after clean-up: every line right-trimmed, the whole text
/// trimmed; `None` when nothing is left.
pub open spec fn cleaned_lyrics(s: Seq<char>) -> Option<Seq<char>> {
    let t = trim(lines_trimmed_end(s));
    if t.len() == 0 {
        None
    } else {
        Some(t)
    }
}

proof fn lemma_join_trimmed(ls: Seq<Seq<char>>, acc: Seq<char>, last: Seq<char>)
    requires
        ls.len() >= 1,
        acc == join(ls.drop_last().map_values(trim_end_fn()), seq!['\n']),
        last == ls.last(),
    ensures
        join(ls.map_values(trim_end_fn()), seq!['\n']) == if ls.len() == 1 {
            trim_end(last)
        } else {
            acc + seq!['\n'] + trim_end(last)
        },
{
    let m = ls.map_values(trim_end_fn());
    if ls.len() > 1 {
        assert(m.drop_last() == ls.drop_last().map_values(trim_end_fn()));
    }
}

/// Cleans up plain lyrics: strips trailing white space from every line and
/// white space around the whole text; `None` when the text is blank.
pub fn clean_plain_lyrics(value: &str) -> (r: Option<String>)
    ensures
        match r {
            Some(t) => cleaned_lyrics(value@) == Some(t@),
            None => cleaned_lyrics(value@) is None,
        },
{
    let v = chars_of(value);
    let mut acc: Vec<char> = Vec::new();
    let mut cur: Vec<char> = Vec::new();
    let mut first = true;
    let mut i: usize = 0;
    assert(v@.take(0) == Seq::<char>::empty());
    while i < v.len()
        invariant
            i <= v.len(),
            split_on(v@.take(i as int), '\n').len() >= 1,
            first == (split_on(v@.take(i as int), '\n').len() == 1),
            cur@ == split_on(v@.take(i as int), '\n').last(),
            acc@ == join(
                split_on(v@.take(i as int), '\n').drop_last().map_values(trim_end_fn()),
                seq!['\n'],
            ),
        decreases v.len() - i,
    {
        let c = v[i];
        let ghost ls = split_on(v@.take(i as int), '\n');
        proof {
            assert(v@.take(i + 1) == v@.take(i as int).push(c));
            lemma_split_on_step(v@.take(i as int), c, '\n');
        }
        if c == '\n' {
            let t = trim_end_chars(&cur);
            proof {
                lemma_join_trimmed(ls, acc@, cur@);
            }
            if !first {
                acc.push('\n');
            }
            extend_chars(&mut acc, &t);
            cur = Vec::new();
            first = false;
            proof {
                let ls2 = ls.push(seq![]);
                assert(ls2.drop_last() == ls);
            }
        } else {
            cur.push(c);
            proof {
                let ls2 = ls.update(ls.len() - 1, ls.last().push(c));
                assert(ls2.drop_last() == ls.drop_last());
            }
        }
        i = i + 1;
    }
    assert(v@.take(v.len() as int) == v@);
    let t = trim_end_chars(&cur);
    proof {
        lemma_join_trimmed(split_on(v@, '\n'), acc@, cur@);
    }
    let mut joined = acc;
    if !first {
        joined.push('\n');
    }
    extend_chars(&mut joined, &t);
    assert(joined@ == lines_trimmed_end(v@));
    let trimmed = trim_chars(&joined);
    if trimmed.len() == 0 {
        None
    } else {
        Some(string_of(&trimmed))
    }
}

/// The lyrics cache key: normalised artist, title and album and the rounded
/// duration in seconds, separated by '|'.
pub open spec fn lyrics_cache_key(
    artist: Seq<char>,
    title: Seq<char>,
    album: Seq<char>,
    duration: int,
) -> Seq<char> {
    artist_key(artist) + seq!['|'] + title_key(title) + seq!['|'] + title_key(album) + seq!['|']
        + decimal_signed(duration)
}

/// Builds the lyrics cache key from the track's artist, title, album and
/// its duration rounded to whole seconds.
pub fn cache_key(artist: &str, title: &str, album: &str, rounded_duration: i64) -> (r: String)
    ensures
        r@ == lyrics_cache_key(artist@, title@, album@, rounded_duration as int),
{
    let a = normalize_artist(artist);
    let t = normalize_title(title);
    let al = normalize_album(album);
    let mut out = chars_of(a.as_str());
    out.push('|');
    let tv = chars_of(t.as_str());
    extend_chars(&mut out, &tv);
    out.push('|');
    let av = chars_of(al.as_str());
    extend_chars(&mut out, &av);
    out.push('|');
    push_decimal_signed(&mut out, rounded_duration);
    string_of(&out)
}


// ---------------------------------------------------------------------------
// Genius URL candidates built from normalised titles
// ---------------------------------------------------------------------------

/// The Genius slug of a text after title normalisation.
pub open spec fn title_slug(s: Seq<char>) -> Seq<char> {
    slug_of(title_key(s))
}

/// Turns an artist or title into a Genius URL slug, normalising it as a
/// title first (so variant tags and featuring markers are dropped).
pub fn slugify_genius_part(value: &str) -> (r: String)
    ensures
        r@ == title_slug(value@),
        is_slug(r@),
{
    let n = normalize_title(value);
    let v = chars_of(n.as_str());
    let s = slug_chars(&v);
    proof {
        law_slug_shape(n@);
    }
    string_of(&s)
}

/// The Genius lyrics page URLs to try for a track: the normalised title,
/// then the normalised title with " and " dropped (when it differs), none
/// when a slug comes out empty.
pub fn build_genius_url_candidates(artist: &str, title: &str) -> (r: Vec<String>)
    ensures
        string_views(r@) == url_candidates(
            title_slug(artist@),
            title_slug(title@),
            title_slug(replace_all(title_key(title@), " and "@, " "@)),
        ),
{
    let a = slugify_genius_part(artist);
    let t1 = slugify_genius_part(title);
    let nt = normalize_title(title);
    let ntv = chars_of(nt.as_str());
    proof {
        reveal_strlit(" and ");
    }
    let without_and = replace_lit(&ntv, " and ", " ");
    let wa = string_of(&without_and);
    let t2 = slugify_genius_part(wa.as_str());
    let av = chars_of(a.as_str());
    let t1v = chars_of(t1.as_str());
    let t2v = chars_of(t2.as_str());
    candidates_from_slugs(&av, &t1v, &t2v)
}

// ---------------------------------------------------------------------------
// Edition tags
// ---------------------------------------------------------------------------

/// No opening bracket in `s`.
pub open spec fn bracket_free(s: Seq<char>) -> bool {
    forall|i: int| 0 <= i < s.len() ==> s[i] != '(' && s[i] != '['
}

proof fn lemma_find_char_at(s: Seq<char>, c: char, k: int, m: int)
    requires
        0 <= k <= m < s.len(),
        s[m] == c,
        forall|t: int| k <= t < m ==> s[t] != c,
    ensures
        find_char_from(s, c, k) == m,
    decreases m - k,
{
    if k < m {
        lemma_find_char_at(s, c, k + 1, m);
    }
}

proof fn lemma_strip_plain_prefix(x: Seq<char>, n: int, i: int)
    requires
        0 <= i <= n <= x.len(),
        bracket_free(x.take(n)),
    ensures
        strip_edition_tags(x, i) == x.subrange(i, n) + strip_edition_tags(x, n),
    decreases n - i,
{
    if i < n {
        assert(x.take(n)[i] == x[i]);
        lemma_strip_plain_prefix(x, n, i + 1);
        assert(x.subrange(i, n) == seq![x[i]] + x.subrange(i + 1, n));
    } else {
        assert(x.subrange(i, n) == Seq::<char>::empty());
    }
}

/// Law: a bracketed group naming a release variant (its text contains
/// "remaster", "deluxe", "edition", "version", "live", "mono", "stereo" or
/// "bonus") at the end of a title is dropped by title normalisation: for
/// any bracket-free `base`, a title whose lower-case form is `base (tag)`
/// normalises exactly as one whose lower-case form is `base ` (the space
/// before the group stays, and is trimmed with the rest).
pub proof fn law_edition_tag_dropped(with_tag: Seq<char>, without: Seq<char>, base: Seq<char>, tag: Seq<char>)
    requires
        unicode_lowercase(with_tag) == base + seq![' ', '('] + tag + seq![')'],
        unicode_lowercase(without) == base + seq![' '],
        bracket_free(base),
        trim(tag) == tag,
        forall|i: int| 0 <= i < tag.len() ==> tag[i] != ')',
        contains_seq(tag, "bonus"@) || contains_seq(tag, "remaster"@) || contains_seq(tag, "deluxe"@)
            || contains_seq(tag, "edition"@) || contains_seq(tag, "version"@) || contains_seq(tag, "live"@)
            || contains_seq(tag, "mono"@) || contains_seq(tag, "stereo"@),
    ensures
        title_key(with_tag) == title_key(without),
{
    let n = base.len() as int;
    let x = base + seq![' ', '('] + tag + seq![')'];
    let y = base + seq![' '];
    assert(x.take(n) == base);
    assert(y.take(n) == base);
    lemma_strip_plain_prefix(x, n, 0);
    lemma_strip_plain_prefix(y, n, 0);
    assert(x.subrange(0, n) == base);
    assert(y.subrange(0, n) == base);
    // after the base: a space, then the group
    assert(x[n] == ' ');
    assert(strip_edition_tags(x, n) == seq![' '] + strip_edition_tags(x, n + 1));
    let close = n + 2 + tag.len();
    assert(x[n + 1] == '(');
    assert(x[close] == ')');
    assert forall|t: int| n + 2 <= t < close implies x[t] != ')' by {
        assert(x[t] == tag[t - n - 2]);
    }
    lemma_find_char_at(x, ')', n + 2, close);
    assert(x.subrange(n + 2, close) == tag);
    assert(is_edition_tag(trim(tag)));
    assert(strip_edition_tags(x, close + 1) == Seq::<char>::empty());
    assert(strip_edition_tags(x, n + 1) == Seq::<char>::empty());
    assert(y[n] == ' ');
    assert(strip_edition_tags(y, n + 1) == Seq::<char>::empty());
    assert(strip_edition_tags(y, n) == seq![' ']);
    assert(strip_edition_tags(x, 0) == strip_edition_tags(y, 0));
}

// ---------------------------------------------------------------------------
// Featuring markers
// ---------------------------------------------------------------------------

/// The spaces of `s` are at most at positions `p` and `q`.
pub open spec fn spaces_within(s: Seq<char>, p: int, q: int) -> bool {
    forall|k: int| 0 <= k < s.len() && s[k] == ' ' ==> k == p || k == q
}

/// No space and no opening bracket in `s`.
pub open spec fn plain_word(s: Seq<char>) -> bool {
    forall|k: int| 0 <= k < s.len() ==> s[k] != ' ' && s[k] != '(' && s[k] != '['
}

proof fn lemma_replace_absent(s: Seq<char>, pat: Seq<char>, rep: Seq<char>)
    requires
        pat.len() > 0,
        forall|i: int| !occurs_at(s, pat, i),
    ensures
        replace_all(s, pat, rep) == s,
    decreases s.len(),
{
    if s.len() >= pat.len() {
        assert(!occurs_at(s, pat, 0));
        assert(s.take(pat.len() as int) == s.subrange(0, pat.len() as int));
        let t = s.drop_first();
        assert forall|i: int| !occurs_at(t, pat, i) by {
            if occurs_at(t, pat, i) {
                assert(s.subrange(i + 1, i + 1 + pat.len()) == t.subrange(i, i + pat.len()));
                assert(occurs_at(s, pat, i + 1));
            }
        }
        lemma_replace_absent(t, pat, rep);
        assert(seq![s[0]] + t == s);
    }
}

proof fn lemma_absent_two_spaces(s: Seq<char>, pat: Seq<char>, e: int, p: int, q: int)
    requires
        pat.len() > e > 0,
        pat[0] == ' ',
        pat[e] == ' ',
        p <= q,
        q - p != e,
        spaces_within(s, p, q),
    ensures
        forall|i: int| !occurs_at(s, pat, i),
{
    assert forall|i: int| !occurs_at(s, pat, i) by {
        if occurs_at(s, pat, i) {
            assert(s[i] == s.subrange(i, i + pat.len())[0]);
            assert(s[i + e] == s.subrange(i, i + pat.len())[e]);
        }
    }
}

proof fn lemma_replace_after_prefix(pre: Seq<char>, pat: Seq<char>, rep: Seq<char>, post: Seq<char>)
    requires
        pat.len() > 0,
        pat[0] == ' ',
        forall|k: int| 0 <= k < pre.len() ==> pre[k] != ' ',
    ensures
        replace_all(pre + pat + post, pat, rep) == pre + rep + replace_all(post, pat, rep),
    decreases pre.len(),
{
    let s = pre + pat + post;
    if pre.len() == 0 {
        assert(s.take(pat.len() as int) == pat);
        assert(s.skip(pat.len() as int) == post);
        assert(pre + rep + replace_all(post, pat, rep) == rep + replace_all(post, pat, rep));
    } else {
        assert(s.take(pat.len() as int)[0] == pre[0]);
        lemma_replace_after_prefix(pre.drop_first(), pat, rep, post);
        assert(s.drop_first() == pre.drop_first() + pat + post);
        assert(pre + rep + replace_all(post, pat, rep) == seq![pre[0]] + (pre.drop_first() + rep + replace_all(
            post,
            pat,
            rep,
        )));
    }
}

/// The text `a + m + b` with words `a` and `b` has its spaces where the
/// marker `m` has them.
proof fn lemma_marker_spaces(a: Seq<char>, m: Seq<char>, b: Seq<char>, d: int)
    requires
        plain_word(a),
        plain_word(b),
        spaces_within(m, 0, d),
    ensures
        spaces_within(a + m + b, a.len() as int, a.len() + d),
        forall|k: int| 0 <= k < (a + m + b).len() && k < a.len() ==> (a + m + b)[k] == a[k],
{
    let x = a + m + b;
    assert forall|k: int| 0 <= k < x.len() && x[k] == ' ' implies k == a.len() || k == a.len() + d by {
        if k < a.len() {
            assert(x[k] == a[k]);
        } else if k < a.len() + m.len() {
            assert(x[k] == m[k - a.len()]);
        } else {
            assert(x[k] == b[k - a.len() - m.len()]);
        }
    }
}

proof fn lemma_strip_plain(x: Seq<char>)
    requires
        bracket_free(x),
    ensures
        strip_edition_tags(x, 0) == x,
{
    assert(x.take(x.len() as int) == x);
    lemma_strip_plain_prefix(x, x.len() as int, 0);
    assert(x.subrange(0, x.len() as int) == x);
}

/// The noise removal leaves a text with at most one space as it is.
proof fn lemma_noise_keeps_one_space(s: Seq<char>, p: int)
    requires
        spaces_within(s, p, p),
    ensures
        replace_all(s, " feat. "@, " "@) == s,
        replace_all(s, " featuring "@, " "@) == s,
        replace_all(s, " ft. "@, " "@) == s,
        title_noise_removed(s) == s,
{
    reveal_strlit(" feat. ");
    reveal_strlit(" featuring ");
    reveal_strlit(" ft. ");
    reveal_strlit(" - remastered");
    reveal_strlit(" - live");
    reveal_strlit(" - mono");
    reveal_strlit(" - stereo");
    reveal_strlit(" ");
    lemma_absent_two_spaces(s, " feat. "@, 6, p, p);
    lemma_replace_absent(s, " feat. "@, " "@);
    lemma_absent_two_spaces(s, " featuring "@, 10, p, p);
    lemma_replace_absent(s, " featuring "@, " "@);
    lemma_absent_two_spaces(s, " ft. "@, 4, p, p);
    lemma_replace_absent(s, " ft. "@, " "@);
    lemma_absent_two_spaces(s, " - remastered"@, 2, p, p);
    lemma_replace_absent(s, " - remastered"@, " "@);
    lemma_absent_two_spaces(s, " - live"@, 2, p, p);
    lemma_replace_absent(s, " - live"@, " "@);
    lemma_absent_two_spaces(s, " - mono"@, 2, p, p);
    lemma_replace_absent(s, " - mono"@, " "@);
    lemma_absent_two_spaces(s, " - stereo"@, 2, p, p);
    lemma_replace_absent(s, " - stereo"@, " "@);
}

/// Law: a featuring marker (" feat. ", " featuring " or " ft. ") between
/// two words of a title is dropped by title normalisation: a title whose
/// lower-case form is `a feat. b` normalises exactly as one whose
/// lower-case form is `a b`, for any words `a` and `b` (no spaces, no
/// brackets).
pub proof fn law_featuring_marker_dropped(
    with_marker: Seq<char>,
    without: Seq<char>,
    a: Seq<char>,
    marker: Seq<char>,
    b: Seq<char>,
)
    requires
        marker == " feat. "@ || marker == " featuring "@ || marker == " ft. "@,
        unicode_lowercase(with_marker) == a + marker + b,
        unicode_lowercase(without) == a + seq![' '] + b,
        plain_word(a),
        plain_word(b),
    ensures
        title_key(with_marker) == title_key(without),
{
    reveal_strlit(" feat. ");
    reveal_strlit(" featuring ");
    reveal_strlit(" ft. ");
    reveal_strlit(" ");
    let n = a.len() as int;
    let x = a + marker + b;
    let y = a + seq![' '] + b;
    // neither text has brackets
    assert(bracket_free(x)) by {
        assert forall|k: int| 0 <= k < x.len() implies x[k] != '(' && x[k] != '[' by {
            if k < n {
                assert(x[k] == a[k]);
            } else if k < n + marker.len() {
                assert(x[k] == marker[k - n]);
            } else {
                assert(x[k] == b[k - n - marker.len()]);
            }
        }
    }
    assert(bracket_free(y)) by {
        assert forall|k: int| 0 <= k < y.len() implies y[k] != '(' && y[k] != '[' by {
            if k < n {
                assert(y[k] == a[k]);
            } else if k > n {
                assert(y[k] == b[k - n - 1]);
            }
        }
    }
    lemma_strip_plain(x);
    lemma_strip_plain(y);
    assert(spaces_within(y, n, n)) by {
        assert forall|k: int| 0 <= k < y.len() && y[k] == ' ' implies k == n || k == n by {
            if k < n {
                assert(y[k] == a[k]);
            } else if k > n {
                assert(y[k] == b[k - n - 1]);
            }
        }
    }
    assert(spaces_within(b, 0, 0)) by {
        assert forall|k: int| 0 <= k < b.len() && b[k] == ' ' implies k == 0 || k == 0 by {}
    }
    assert forall|k: int| 0 <= k < a.len() implies a[k] != ' ' by {}
    lemma_noise_keeps_one_space(y, n);
    if marker == " feat. "@ {
        lemma_marker_spaces(a, marker, b, 6);
        lemma_absent_two_spaces(b, marker, 6, 0, 0);
        lemma_replace_absent(b, marker, " "@);
        lemma_replace_after_prefix(a, marker, " "@, b);
        assert(replace_all(x, " feat. "@, " "@) == y);
    } else if marker == " featuring "@ {
        lemma_marker_spaces(a, marker, b, 10);
        lemma_absent_two_spaces(x, " feat. "@, 6, n, n + 10);
        lemma_replace_absent(x, " feat. "@, " "@);
        lemma_absent_two_spaces(b, marker, 10, 0, 0);
        lemma_replace_absent(b, marker, " "@);
        lemma_replace_after_prefix(a, marker, " "@, b);
        assert(replace_all(x, " featuring "@, " "@) == y);
    } else {
        lemma_marker_spaces(a, marker, b, 4);
        lemma_absent_two_spaces(x, " feat. "@, 6, n, n + 4);
        lemma_replace_absent(x, " feat. "@, " "@);
        lemma_absent_two_spaces(x, " featuring "@, 10, n, n + 4);
        lemma_replace_absent(x, " featuring "@, " "@);
        lemma_absent_two_spaces(b, marker, 4, 0, 0);
        lemma_replace_absent(b, marker, " "@);
        lemma_replace_after_prefix(a, marker, " "@, b);
        assert(replace_all(x, " ft. "@, " "@) == y);
    }
    assert(title_noise_removed(x) == title_noise_removed(y));
}

} // verus!
