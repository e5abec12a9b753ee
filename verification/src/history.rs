//! Play history: which play events and genre notes are worth recording, and
//! which aggregated rows an affinity request asks for.
use vstd::prelude::*;
use crate::library::string_seq_view;
use crate::text::{chars_of, str_eq, string_of, trim, trim_chars, trim_str, to_lowercase, unicode_lowercase};

verus! {

/// The text fields of a play event as they are stored.
pub struct PlayRecord {
    pub artist: String,
    pub title: String,
    pub cover_art_url: Option<String>,
}

/// A play event is kept only with a non-blank artist and title (both
/// stored trimmed); an empty cover URL is stored as none.
pub fn play_record(artist: &str, title: &str, cover_art_url: Option<String>) -> (r: Option<PlayRecord>)
    ensures
        r is Some <==> (trim(artist@).len() > 0 && trim(title@).len() > 0),
        r matches Some(p) ==> {
            &&& p.artist@ == trim(artist@)
            &&& p.title@ == trim(title@)
            &&& p.cover_art_url == (match cover_art_url {
                Some(c) => if c@.len() > 0 { Some(c) } else { None },
                None => None,
            })
        },
{
    let a = trim_chars(&chars_of(artist));
    let t = trim_chars(&chars_of(title));
    if a.len() == 0 || t.len() == 0 {
        return None;
    }
    let cover = match cover_art_url {
        Some(c) => {
            if c.as_str().unicode_len() > 0 {
                Some(c)
            } else {
                None
            }
        },
        None => None,
    };
    Some(PlayRecord { artist: string_of(&a), title: string_of(&t), cover_art_url: cover })
}

/// The genre note of a song: the trimmed genre and artist, none when the
/// genre is blank.
pub fn genre_record(genre: &str, artist: &str) -> (r: Option<(String, String)>)
    ensures
        r is Some <==> trim(genre@).len() > 0,
        r matches Some(p) ==> p.0@ == trim(genre@) && p.1@ == trim(artist@),
{
    let g = trim_chars(&chars_of(genre));
    if g.len() == 0 {
        return None;
    }
    Some((string_of(&g), trim_str(artist)))
}

/// The key under which an artist or genre is aggregated: trimmed, lower case.
pub open spec fn affinity_key_spec(s: Seq<char>) -> Seq<char> {
    unicode_lowercase(trim(s))
}

/// The key of an artist or genre in an affinity request.
pub fn affinity_key(name: &str) -> (r: String)
    ensures
        r@ == affinity_key_spec(name@),
{
    let t = trim_str(name);
    to_lowercase(t.as_str())
}

/// Whether `key` is among `keys`.
pub fn contains_key(keys: &Vec<String>, key: &str) -> (b: bool)
    ensures
        b == string_seq_view(keys@).contains(key@),
{
    let mut i: usize = 0;
    while i < keys.len()
        invariant
            i <= keys.len(),
            forall|j: int| 0 <= j < i ==> keys@[j]@ != key@,
        decreases keys.len() - i,
    {
        if str_eq(keys[i].as_str(), key) {
            assert(string_seq_view(keys@)[i as int] == key@);
            return true;
        }
        i = i + 1;
    }
    assert forall|j: int| 0 <= j < string_seq_view(keys@).len() implies string_seq_view(keys@)[j]
        != key@ by {
        assert(keys@[j]@ != key@);
    }
    false
}

/// The positions, in order, of the aggregated rows whose key an affinity
/// request names; the requested names are compared by their affinity keys
/// (for songs the caller passes ids, and `lower` is false: ids are only
/// trimmed).
pub fn requested_rows(requested: &Vec<String>, row_keys: &Vec<String>, lower: bool) -> (r: Vec<usize>)
    ensures
        ({
            let keys = requested@.map_values(
                |s: String| if lower { affinity_key_spec(s@) } else { trim(s@) },
            );
            &&& forall|k: int| 0 <= k < r.len() ==> r@[k] < row_keys.len()
            &&& forall|k: int, l: int| 0 <= k < l < r.len() ==> r@[k] < r@[l]
            &&& forall|i: int| 0 <= i < row_keys.len() ==> (keys.contains(#[trigger] row_keys@[i]@)
                <==> r@.contains(i as usize))
        }),
{
    let ghost keys = requested@.map_values(
        |s: String| if lower { affinity_key_spec(s@) } else { trim(s@) },
    );
    let mut wanted: Vec<String> = Vec::new();
    let mut j: usize = 0;
    while j < requested.len()
        invariant
            j <= requested.len(),
            keys == requested@.map_values(
                |s: String| if lower { affinity_key_spec(s@) } else { trim(s@) },
            ),
            string_seq_view(wanted@) == keys.take(j as int),
        decreases requested.len() - j,
    {
        let k = if lower {
            affinity_key(requested[j].as_str())
        } else {
            trim_str(requested[j].as_str())
        };
        wanted.push(k);
        proof {
            assert(keys.take(j + 1) == keys.take(j as int).push(keys[j as int]));
            assert(string_seq_view(wanted@) == string_seq_view(wanted@.drop_last()).push(k@));
        }
        j = j + 1;
    }
    assert(keys.take(requested.len() as int) == keys);
    let mut out: Vec<usize> = Vec::new();
    let mut i: usize = 0;
    while i < row_keys.len()
        invariant
            i <= row_keys.len(),
            string_seq_view(wanted@) == keys,
            forall|k: int| 0 <= k < out.len() ==> out@[k] < i,
            forall|k: int, l: int| 0 <= k < l < out.len() ==> out@[k] < out@[l],
            forall|m: int| 0 <= m < i ==> (keys.contains(#[trigger] row_keys@[m]@) <==> out@.contains(
                m as usize,
            )),
        decreases row_keys.len() - i,
    {
        let hit = contains_key(&wanted, row_keys[i].as_str());
        let ghost before = out@;
        if hit {
            out.push(i);
        }
        proof {
            assert forall|m: int| 0 <= m < i + 1 implies (keys.contains(#[trigger] row_keys@[m]@)
                <==> out@.contains(m as usize)) by {
                if m < i {
                    if before.contains(m as usize) {
                        let w = choose|w: int| 0 <= w < before.len() && before[w] == m as usize;
                        assert(out@[w] == m as usize);
                    }
                    if out@.contains(m as usize) {
                        let w = choose|w: int| 0 <= w < out@.len() && out@[w] == m as usize;
                        assert(w < before.len());
                        assert(before[w] == m as usize);
                    }
                } else {
                    if hit {
                        assert(out@[out@.len() - 1] == m as usize);
                    } else {
                        if out@.contains(m as usize) {
                            let w = choose|w: int| 0 <= w < out@.len() && out@[w] == m as usize;
                            assert(out@[w] < i);
                        }
                    }
                }
            }
        }
        i = i + 1;
    }
    out
}

} // verus!
