//! Loading tracks for playback: which tracks count as cached, which loads
//! are already running, and which downloads are not audio.
use vstd::prelude::*;
use crate::text::{chars_of, string_of, extend_chars, contains_chars, contains_seq, has_prefix};

verus! {

/// A stream that is a local file or inline data needs no download.
pub open spec fn is_inline_stream(url: Seq<char>) -> bool {
    "file:"@.is_prefix_of(url) || "data:"@.is_prefix_of(url)
}

/// Whether a song plays without downloading: decoded in the engine, a
/// local or inline stream, or already in the disk cache.
pub fn song_is_cached(in_engine: bool, stream_url: &str, on_disk: bool) -> (r: bool)
    ensures
        r == (in_engine || is_inline_stream(stream_url@) || on_disk),
{
    in_engine || has_prefix(stream_url, "file:") || has_prefix(stream_url, "data:") || on_disk
}

/// The ids of the songs that play without downloading, in order.
pub fn cached_song_ids(ids: &Vec<String>, cached: &Vec<bool>) -> (r: Vec<String>)
    requires
        ids@.len() == cached@.len(),
    ensures
        crate::library::string_seq_view(r@) == kept_ids(
            crate::library::string_seq_view(ids@),
            cached@,
            ids@.len() as int,
        ),
{
    let mut out: Vec<String> = Vec::new();
    let mut i: usize = 0;
    while i < ids.len()
        invariant
            i <= ids@.len(),
            ids@.len() == cached@.len(),
            crate::library::string_seq_view(out@) == kept_ids(
                crate::library::string_seq_view(ids@),
                cached@,
                i as int,
            ),
        decreases ids.len() - i,
    {
        if cached[i] {
            let ghost prev = crate::library::string_seq_view(out@);
            out.push(ids[i].clone());
            proof {
                assert(crate::library::string_seq_view(out@) =~= prev.push(ids@[i as int]@));
            }
        }
        i = i + 1;
    }
    out
}

pub open spec fn kept_ids(ids: Seq<Seq<char>>, cached: Seq<bool>, n: int) -> Seq<Seq<char>>
    decreases n,
{
    if n <= 0 {
        Seq::empty()
    } else if cached[n - 1] {
        kept_ids(ids, cached, n - 1).push(ids[n - 1])
    } else {
        kept_ids(ids, cached, n - 1)
    }
}

/// A stream read from a remote server is kept in the disk cache; a local
/// stream is not.
pub fn is_cacheable(stream_is_local: bool) -> (r: bool)
    ensures
        r == !stream_is_local,
{
    !stream_is_local
}

/// The song ids whose loads are running.
pub struct InflightLoads {
    ids: Vec<String>,
}

impl InflightLoads {
    pub closed spec fn running(&self) -> Seq<Seq<char>> {
        crate::library::string_seq_view(self.ids@)
    }

    pub fn new() -> (r: InflightLoads)
        ensures
            r.running().len() == 0,
    {
        InflightLoads { ids: Vec::new() }
    }

    /// Starts a load unless one for the same song is running; returns
    /// whether one was (the caller then waits for it and looks again).
    pub fn begin(&mut self, song_id: &str) -> (waiting: bool)
        ensures
            waiting == old(self).running().contains(song_id@),
            waiting ==> final(self).running() == old(self).running(),
            !waiting ==> final(self).running() == old(self).running().push(song_id@),
    {
        let ghost v = self.running();
        let mut i: usize = 0;
        while i < self.ids.len()
            invariant
                i <= self.ids@.len(),
                v == crate::library::string_seq_view(self.ids@),
                forall|k: int| 0 <= k < i ==> v[k] != song_id@,
            decreases self.ids.len() - i,
        {
            proof {
                assert(v[i as int] == self.ids@[i as int]@);
            }
            if crate::text::str_eq(self.ids[i].as_str(), song_id) {
                proof {
                    assert(v.contains(song_id@));
                }
                return true;
            }
            i = i + 1;
        }
        self.ids.push(song_id.to_string());
        proof {
            assert(self.running() =~= v.push(song_id@));
        }
        false
    }

    /// Marks the load of a song finished (waiters then look again).
    pub fn finish(&mut self, song_id: &str)
        ensures
            !final(self).running().contains(song_id@),
            forall|x: Seq<char>| x != song_id@ ==> (final(self).running().contains(x) <==> old(
                self,
            ).running().contains(x)),
    {
        let ghost v = self.running();
        let mut kept: Vec<String> = Vec::new();
        let mut i: usize = 0;
        while i < self.ids.len()
            invariant
                i <= self.ids@.len(),
                v == crate::library::string_seq_view(self.ids@),
                forall|k: int|
                    0 <= k < kept@.len() ==> #[trigger] kept@[k]@ != song_id@,
                forall|x: Seq<char>|
                    #![trigger crate::library::string_seq_view(kept@).contains(x)]
                    #![trigger v.take(i as int).contains(x)]
                    x != song_id@ ==> (crate::library::string_seq_view(kept@).contains(x) <==> v.take(
                        i as int,
                    ).contains(x)),
                !crate::library::string_seq_view(kept@).contains(song_id@),
            decreases self.ids.len() - i,
        {
            let ghost prev = crate::library::string_seq_view(kept@);
            let ghost t0 = v.take(i as int);
            let ghost t1 = v.take(i + 1);
            proof {
                assert(t1 == t0.push(v[i as int]));
                assert(v[i as int] == self.ids@[i as int]@);
            }
            if !crate::text::str_eq(self.ids[i].as_str(), song_id) {
                kept.push(self.ids[i].clone());
                proof {
                    let cur = crate::library::string_seq_view(kept@);
                    assert(cur =~= prev.push(v[i as int]));
                    assert forall|x: Seq<char>| x != song_id@ implies (cur.contains(x)
                        <==> t1.contains(x)) by {
                        assert(prev.contains(x) <==> t0.contains(x));
                        if t1.contains(x) {
                            let k = choose|k: int| 0 <= k < t1.len() && #[trigger] t1[k] == x;
                            if k < i {
                                assert(t0[k] == x);
                                assert(t0.contains(x));
                                let k2 = choose|k2: int| 0 <= k2 < prev.len() && #[trigger] prev[k2] == x;
                                assert(cur[k2] == x);
                            } else {
                                assert(cur[prev.len() as int] == x);
                            }
                        }
                        if cur.contains(x) {
                            let k = choose|k: int| 0 <= k < cur.len() && #[trigger] cur[k] == x;
                            if k < prev.len() {
                                assert(prev[k] == x);
                                assert(prev.contains(x));
                                let k2 = choose|k2: int| 0 <= k2 < t0.len() && #[trigger] t0[k2] == x;
                                assert(t1[k2] == x);
                            } else {
                                assert(t1[i as int] == x);
                            }
                        }
                    }
                }
            } else {
                proof {
                    assert forall|x: Seq<char>| x != song_id@ implies (prev.contains(x)
                        <==> t1.contains(x)) by {
                        assert(prev.contains(x) <==> t0.contains(x));
                        if t1.contains(x) {
                            let k = choose|k: int| 0 <= k < t1.len() && #[trigger] t1[k] == x;
                            assert(k < i);
                            assert(t0[k] == x);
                        }
                        if t0.contains(x) {
                            let k = choose|k: int| 0 <= k < t0.len() && #[trigger] t0[k] == x;
                            assert(t1[k] == x);
                        }
                    }
                }
            }
            i = i + 1;
        }
        proof {
            assert(v.take(self.ids@.len() as int) == v);
        }
        self.ids = kept;
    }
}

/// A download that turned out to be JSON (an error page of the server)
/// rather than audio is refused with the start of its text.
pub fn json_response_error(content_type: &str, snippet: &str) -> (r: Option<String>)
    ensures
        contains_seq(content_type@, "application/json"@) ==> (r matches Some(e) && e@
            == "Expected audio stream for playback, got JSON response: "@ + snippet@),
        !contains_seq(content_type@, "application/json"@) ==> r is None,
{
    let ct = chars_of(content_type);
    if contains_chars(&ct, &chars_of("application/json")) {
        let mut v = chars_of("Expected audio stream for playback, got JSON response: ");
        extend_chars(&mut v, &chars_of(snippet));
        Some(string_of(&v))
    } else {
        None
    }
}

/// How many bytes of a JSON response are quoted in the error.
pub fn snippet_len(len: usize) -> (r: usize)
    ensures
        r == (if len < 160 {
            len
        } else {
            160
        }),
{
    if len < 160 {
        len
    } else {
        160
    }
}

} // verus!
