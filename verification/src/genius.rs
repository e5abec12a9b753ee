//! Genius lyrics pages: URL slugs for an artist and a title, the candidate
//! page URLs, and the reading of time-stamped lines out of fetched lyrics.
use vstd::prelude::*;

use crate::text::{
    trim, words, split_on,
    chars_of, extend_chars, is_ascii_alnum, is_ascii_alphanumeric, replace_all, replace_lit, same_chars,
    slice_chars, string_of, to_lowercase, trim_char, trim_char_bounds, unicode_lowercase,
    no_ascii_upper, lemma_replace_no_upper, trim_char_start, trim_char_end,
};

verus! {

/// Every ASCII letter or digit kept, every other run of characters turned
/// into a single '-'.
pub open spec fn dashify(s: Seq<char>) -> Seq<char>
    decreases s.len(),
{
    if s.len() == 0 {
        seq![]
    } else {
        let p = dashify(s.drop_last());
        let c = s.last();
        if is_ascii_alnum(c) {
            p.push(c)
        } else if p.len() > 0 && p.last() == '-' {
            p
        } else {
            p.push('-')
        }
    }
}

/// The punctuation rewriting applied before dashing: apostrophes and dots
/// dropped, '/' and ':' turned into spaces, '&' spelled out as " and ".
pub open spec fn slug_punctuation(s: Seq<char>) -> Seq<char> {
    let s1 = replace_all(s, "'"@, ""@);
    let s2 = replace_all(s1, "."@, ""@);
    let s3 = replace_all(s2, "/"@, " "@);
    let s4 = replace_all(s3, ":"@, " "@);
    replace_all(s4, "&"@, " and "@)
}

/// The URL slug of an already normalised text.
pub open spec fn slug_of(s: Seq<char>) -> Seq<char> {
    trim_char(dashify(slug_punctuation(s)), '-')
}

/// The slug Genius uses for an artist or title part: lower case, then
/// `slug_of`.
pub open spec fn genius_slug(s: Seq<char>) -> Seq<char> {
    slug_of(unicode_lowercase(s))
}

/// The lyrics page URL for an artist slug and a title slug.
pub open spec fn genius_url(artist_slug: Seq<char>, title_slug: Seq<char>) -> Seq<char> {
    "https://genius.com/"@ + artist_slug + seq!['-'] + title_slug + "-lyrics"@
}

/// The candidate URLs for an artist slug and two title slugs: one per title
/// slug, skipped when either slug is empty, without repeats.
pub open spec fn url_candidates(a: Seq<char>, t1: Seq<char>, t2: Seq<char>) -> Seq<Seq<char>> {
    let c1: Seq<Seq<char>> = if a.len() > 0 && t1.len() > 0 {
        seq![genius_url(a, t1)]
    } else {
        seq![]
    };
    if a.len() > 0 && t2.len() > 0 && !c1.contains(genius_url(a, t2)) {
        c1.push(genius_url(a, t2))
    } else {
        c1
    }
}

/// A URL slug: lower-case ASCII letters, digits and single dashes between
/// them, never a dash at either end.
pub open spec fn is_slug(t: Seq<char>) -> bool {
    &&& forall|i: int|
        0 <= i < t.len() ==> ('a' <= #[trigger] t[i] && t[i] <= 'z') || ('0' <= t[i] && t[i] <= '9')
            || t[i] == '-'
    &&& t.len() > 0 ==> t[0] != '-' && t.last() != '-'
    &&& forall|i: int| 0 <= i < t.len() - 1 ==> !(#[trigger] t[i] == '-' && t[i + 1] == '-')
}

proof fn lemma_dashify(s: Seq<char>)
    ensures
        forall|i: int| 0 <= i < dashify(s).len() ==> is_ascii_alnum(#[trigger] dashify(s)[i]) || dashify(s)[i] == '-',
        forall|i: int| 0 <= i < dashify(s).len() - 1 ==> !(#[trigger] dashify(s)[i] == '-' && dashify(s)[i + 1] == '-'),
        no_ascii_upper(s) ==> no_ascii_upper(dashify(s)),
    decreases s.len(),
{
    if s.len() > 0 {
        let d = s.drop_last();
        lemma_dashify(d);
        if no_ascii_upper(s) {
            assert(no_ascii_upper(d)) by {
                assert forall|i: int| 0 <= i < d.len() implies !('A' <= #[trigger] d[i] && d[i] <= 'Z') by {
                    assert(d[i] == s[i]);
                }
            }
            assert(!('A' <= s.last() && s.last() <= 'Z')) by {
                assert(s.last() == s[s.len() - 1]);
            }
        }
        let p = dashify(d);
        let r = dashify(s);
        assert forall|i: int| 0 <= i < r.len() - 1 implies !(#[trigger] r[i] == '-' && r[i + 1] == '-') by {
            if i + 1 < p.len() {
                assert(r[i] == p[i] && r[i + 1] == p[i + 1]);
            } else if r.len() > p.len() {
                assert(r[i] == p[i]);
                assert(p[i] == p.last());
            } else {
                assert(r[i] == p[i] && r[i + 1] == p[i + 1]);
            }
        }
        assert forall|i: int| 0 <= i < r.len() implies is_ascii_alnum(#[trigger] r[i]) || r[i] == '-' by {
            if i < p.len() {
                assert(r[i] == p[i]);
            }
        }
        if no_ascii_upper(s) {
            assert forall|i: int| 0 <= i < r.len() implies !('A' <= #[trigger] r[i] && r[i] <= 'Z') by {
                if i < p.len() {
                    assert(r[i] == p[i]);
                }
            }
        }
    }
}

proof fn lemma_trim_char_start(s: Seq<char>, c: char) -> (k: int)
    ensures
        0 <= k <= s.len(),
        trim_char_start(s, c) == s.skip(k),
        k < s.len() ==> s[k] != c,
    decreases s.len(),
{
    if s.len() > 0 && s[0] == c {
        let k = lemma_trim_char_start(s.drop_first(), c);
        assert(s.drop_first().skip(k) =~= s.skip(k + 1));
        k + 1
    } else {
        assert(s.skip(0) =~= s);
        0
    }
}

proof fn lemma_trim_char_end(s: Seq<char>, c: char) -> (k: int)
    ensures
        0 <= k <= s.len(),
        trim_char_end(s, c) == s.take(k),
        k > 0 ==> s[k - 1] != c,
    decreases s.len(),
{
    if s.len() > 0 && s.last() == c {
        let k = lemma_trim_char_end(s.drop_last(), c);
        assert(s.drop_last().take(k) =~= s.take(k));
        k
    } else {
        assert(s.take(s.len() as int) =~= s);
        if s.len() > 0 {
            assert(s[s.len() - 1] == s.last());
        }
        s.len() as int
    }
}

/// Law: the slug of a text free of ASCII capitals is a slug: lower-case
/// ASCII letters, digits and single dashes, no dash at either end.
pub proof fn law_slug_shape(x: Seq<char>)
    requires
        no_ascii_upper(x),
    ensures
        is_slug(slug_of(x)),
{
    reveal_strlit("'");
    reveal_strlit("");
    reveal_strlit(".");
    reveal_strlit("/");
    reveal_strlit(" ");
    reveal_strlit(":");
    reveal_strlit("&");
    reveal_strlit(" and ");
    let s1 = replace_all(x, "'"@, ""@);
    let s2 = replace_all(s1, "."@, ""@);
    let s3 = replace_all(s2, "/"@, " "@);
    let s4 = replace_all(s3, ":"@, " "@);
    assert(no_ascii_upper(""@));
    assert(no_ascii_upper(" "@));
    assert(no_ascii_upper(" and "@));
    lemma_replace_no_upper(x, "'"@, ""@);
    lemma_replace_no_upper(s1, "."@, ""@);
    lemma_replace_no_upper(s2, "/"@, " "@);
    lemma_replace_no_upper(s3, ":"@, " "@);
    lemma_replace_no_upper(s4, "&"@, " and "@);
    let p = slug_punctuation(x);
    let d = dashify(p);
    lemma_dashify(p);
    let a = lemma_trim_char_start(d, '-');
    let u = d.skip(a);
    let b = lemma_trim_char_end(u, '-');
    let t = u.take(b);
    assert(slug_of(x) == t);
    assert forall|i: int| 0 <= i < t.len() implies ('a' <= #[trigger] t[i] && t[i] <= 'z') || ('0' <= t[i]
        && t[i] <= '9') || t[i] == '-' by {
        assert(t[i] == d[a + i]);
        assert(is_ascii_alnum(d[a + i]) || d[a + i] == '-');
        assert(!('A' <= d[a + i] && d[a + i] <= 'Z'));
    }
    assert forall|i: int| 0 <= i < t.len() - 1 implies !(#[trigger] t[i] == '-' && t[i + 1] == '-') by {
        assert(t[i] == d[a + i] && t[i + 1] == d[a + i + 1]);
    }
    if t.len() > 0 {
        assert(t[0] == u[0]);
        assert(t.last() == u[b - 1]);
    }
}

pub open spec fn string_views(v: Seq<String>) -> Seq<Seq<char>> {
    v.map_values(|s: String| s@)
}

fn dashify_chars(v: &[char]) -> (r: Vec<char>)
    ensures
        r@ == dashify(v@),
{
    let mut out: Vec<char> = Vec::new();
    let mut last_dash = false;
    let mut i: usize = 0;
    assert(v@.take(0) == Seq::<char>::empty());
    while i < v.len()
        invariant
            i <= v.len(),
            out@ == dashify(v@.take(i as int)),
            last_dash == (out@.len() > 0 && out@.last() == '-'),
        decreases v.len() - i,
    {
        let ch = v[i];
        assert(v@.take(i + 1).drop_last() == v@.take(i as int));
        if is_ascii_alphanumeric(ch) {
            out.push(ch);
            last_dash = false;
        } else if !last_dash {
            out.push('-');
            last_dash = true;
        }
        i = i + 1;
    }
    assert(v@.take(v.len() as int) == v@);
    out
}

/// The slug of an already normalised text.
pub fn slug_chars(v: &[char]) -> (r: Vec<char>)
    ensures
        r@ == slug_of(v@),
{
    proof {
        reveal_strlit("'");
        reveal_strlit(".");
        reveal_strlit("/");
        reveal_strlit(":");
        reveal_strlit("&");
    }
    let s1 = replace_lit(v, "'", "");
    let s2 = replace_lit(&s1, ".", "");
    let s3 = replace_lit(&s2, "/", " ");
    let s4 = replace_lit(&s3, ":", " ");
    let s5 = replace_lit(&s4, "&", " and ");
    let d = dashify_chars(&s5);
    let (a, b) = trim_char_bounds(&d, '-');
    slice_chars(&d, a, b)
}

/// Turns an artist or title into the slug Genius uses in its URLs.
pub fn slugify_genius_part(value: &str) -> (r: String)
    ensures
        r@ == genius_slug(value@),
        is_slug(r@),
{
    let lower = to_lowercase(value);
    let v = chars_of(lower.as_str());
    let s = slug_chars(&v);
    proof {
        law_slug_shape(lower@);
    }
    string_of(&s)
}

/// The Genius lyrics page URL for two slugs.
pub fn genius_url_of(artist_slug: &[char], title_slug: &[char]) -> (r: String)
    ensures
        r@ == genius_url(artist_slug@, title_slug@),
{
    let mut out = chars_of("https://genius.com/");
    extend_chars(&mut out, artist_slug);
    out.push('-');
    extend_chars(&mut out, title_slug);
    let tail = chars_of("-lyrics");
    extend_chars(&mut out, &tail);
    string_of(&out)
}

/// Assembles the candidate URLs from an artist slug and two title slugs.
pub fn candidates_from_slugs(a: &[char], t1: &[char], t2: &[char]) -> (r: Vec<String>)
    ensures
        string_views(r@) == url_candidates(a@, t1@, t2@),
{
    let mut out: Vec<String> = Vec::new();
    if a.len() > 0 && t1.len() > 0 {
        let u = genius_url_of(a, t1);
        out.push(u);
    }
    assert(string_views(out@) == if a@.len() > 0 && t1@.len() > 0 {
        seq![genius_url(a@, t1@)]
    } else {
        Seq::<Seq<char>>::empty()
    });
    if a.len() > 0 && t2.len() > 0 {
        let u2 = genius_url_of(a, t2);
        let dup = if out.len() > 0 {
            let c0 = chars_of(out[0].as_str());
            let c1 = chars_of(u2.as_str());
            same_chars(&c0, &c1)
        } else {
            false
        };
        proof {
            let c1s = string_views(out@);
            if out.len() > 0 {
                assert(c1s.contains(genius_url(a@, t2@)) == (c1s[0] == genius_url(a@, t2@)));
            } else {
                assert(!c1s.contains(genius_url(a@, t2@)));
            }
        }
        if !dup {
            let ghost before = out@;
            out.push(u2);
            assert(string_views(out@) == string_views(before).push(genius_url(a@, t2@)));
        }
    }
    out
}

/// The Genius lyrics page URLs to try for a track, in order: the plain
/// title, then the title with " and " dropped (when it gives a different
/// URL); none when a slug comes out empty.
pub fn build_genius_url_candidates(artist: &str, title: &str) -> (r: Vec<String>)
    ensures
        string_views(r@) == url_candidates(
            genius_slug(artist@),
            genius_slug(title@),
            genius_slug(replace_all(title@, " and "@, " "@)),
        ),
{
    let a = slugify_genius_part(artist);
    let t1 = slugify_genius_part(title);
    let tv = chars_of(title);
    proof {
        reveal_strlit(" and ");
    }
    let without_and = replace_lit(&tv, " and ", " ");
    let wa = string_of(&without_and);
    let t2 = slugify_genius_part(wa.as_str());
    let av = chars_of(a.as_str());
    let t1v = chars_of(t1.as_str());
    let t2v = chars_of(t2.as_str());
    candidates_from_slugs(&av, &t1v, &t2v)
}


// ---------------------------------------------------------------------------
// Lines of synthesised synchronised lyrics
// ---------------------------------------------------------------------------

/// Section headers such as "Verse 1" or "Chorus", in any case.
pub const SECTION_PATTERN: &'static str = "(?i)^(intro|verse|chorus|bridge|outro|pre-chorus|interlude|hook|refrain)\\b";

/// A whole line in square brackets.
pub const BRACKET_PATTERN: &'static str = "^\\[.*\\]$";

/// Whether the regular expression `pattern` matches somewhere in `text`;
/// `None` when the pattern does not compile.
pub uninterp spec fn regex_match_of(pattern: Seq<char>, text: Seq<char>) -> Option<bool>;

/// A line in brackets: at least two characters, the first `[` and the last
/// `]`, and no line feed.
pub open spec fn bracketed(t: Seq<char>) -> bool {
    &&& t.len() >= 2
    &&& t[0] == '['
    &&& t.last() == ']'
    &&& !t.contains('\n')
}

/// `regex::Regex::new(pattern)` and `Regex::is_match(text)`.  For the
/// bracket pattern the answer is stated: `.` matches anything but a line
/// feed and `^`, `$` anchor at the ends of the text.
#[verifier::external_body]
fn regex_is_match(pattern: &str, text: &str) -> (r: Option<bool>)
    ensures
        r == regex_match_of(pattern@, text@),
        pattern@ == BRACKET_PATTERN@ ==> r == Some(bracketed(text@)),
{
    regex::Regex::new(pattern).ok().map(|re| re.is_match(text))
}

/// The lines of plain lyrics that get a timestamp: each line trimmed, blank
/// lines, section headers and bracketed lines left out.  `None` when a
/// pattern does not compile.
pub open spec fn timed_lines(ls: Seq<Seq<char>>) -> Option<Seq<Seq<char>>>
    decreases ls.len(),
{
    if ls.len() == 0 {
        Some(Seq::empty())
    } else {
        match timed_lines(ls.drop_last()) {
            None => None,
            Some(prev) => {
                let t = trim(ls.last());
                if t.len() == 0 {
                    Some(prev)
                } else {
                    match (regex_match_of(SECTION_PATTERN@, t), regex_match_of(BRACKET_PATTERN@, t)) {
                        (Some(a), Some(b)) => if a || b {
                            Some(prev)
                        } else {
                            Some(prev.push(t))
                        },
                        _ => None,
                    }
                }
            },
        }
    }
}

/// The lines of plain lyrics to time (see `timed_lines`) with the number of
/// words of each.
pub fn lyric_lines(plain: &str) -> (r: Option<(Vec<String>, Vec<usize>)>)
    ensures
        match r {
            Some((lines, counts)) => timed_lines(split_on(plain@, '\n')) == Some(
                string_views(lines@),
            ) && counts@.len() == lines@.len() && forall|i: int|
                0 <= i < counts@.len() ==> #[trigger] counts@[i] == words(lines@[i]@).len(),
            None => timed_lines(split_on(plain@, '\n')) is None,
        },
{
    let v = chars_of(plain);
    let parts = crate::text::split_chars(&v, '\n');
    let ghost ps = split_on(v@, '\n');
    let mut lines: Vec<String> = Vec::new();
    let mut counts: Vec<usize> = Vec::new();
    let mut i: usize = 0;
    while i < parts.len()
        invariant
            i <= parts@.len(),
            ps == split_on(plain@, '\n'),
            parts@.len() == ps.len(),
            forall|k: int| 0 <= k < parts@.len() ==> #[trigger] parts@[k]@ == ps[k],
            timed_lines(ps.take(i as int)) == Some(string_views(lines@)),
            counts@.len() == lines@.len(),
            forall|k: int| 0 <= k < counts@.len() ==> #[trigger] counts@[k] == words(lines@[k]@).len(),
        decreases parts.len() - i,
    {
        proof {
            assert(ps.take(i + 1).drop_last() == ps.take(i as int));
            assert(ps.take(i + 1).last() == ps[i as int]);
            assert(parts@[i as int]@ == ps[i as int]);
        }
        let t = crate::text::trim_chars(parts[i].as_slice());
        if t.len() > 0 {
            let ts = string_of(&t);
            let section = regex_is_match(SECTION_PATTERN, ts.as_str());
            let bracket = regex_is_match(BRACKET_PATTERN, ts.as_str());
            match (section, bracket) {
                (Some(a), Some(b)) => {
                    if !a && !b {
                        let n = crate::text::word_count(&t);
                        let ghost prev = string_views(lines@);
                        lines.push(ts);
                        counts.push(n);
                        proof {
                            assert(string_views(lines@) =~= prev.push(t@));
                        }
                    }
                },
                _ => {
                    proof {
                        assert(t@ == trim(ps.take(i + 1).last()));
                        assert(timed_lines(ps.take(i + 1)) is None);
                        lemma_timed_lines_none(ps, i as int + 1);
                    }
                    return None;
                },
            }
        }
        i = i + 1;
    }
    assert(ps.take(parts@.len() as int) == ps);
    Some((lines, counts))
}

proof fn lemma_timed_lines_none(ls: Seq<Seq<char>>, n: int)
    requires
        0 < n <= ls.len(),
        timed_lines(ls.take(n)) is None,
    ensures
        timed_lines(ls) is None,
    decreases ls.len() - n,
{
    if n < ls.len() {
        assert(ls.take(n + 1).drop_last() == ls.take(n));
        lemma_timed_lines_none(ls, n + 1);
    } else {
        assert(ls.take(n) == ls);
    }
}

} // verus!
