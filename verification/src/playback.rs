//! The playback engine's state: the loaded track and its frame position,
//! playing, paused and ended, crossfades, the preloaded next track for
//! gapless play, and the bounded cache of decoded tracks.
use vstd::prelude::*;

use crate::text::str_eq;

verus! {

/// How many decoded tracks the engine keeps besides the current and the
/// preloaded one.
pub const CACHE_LIMIT: usize = 3;

/// A decoded track: the song id, its length in output frames and the
/// decoded audio it carries.
pub struct LoadedTrack<P> {
    pub id: String,
    pub frames: usize,
    pub payload: P,
}

/// An outgoing track that is being faded out while the next one plays.
pub struct Crossfade<P> {
    pub outgoing: LoadedTrack<P>,
    pub outgoing_frame: usize,
    pub duration_frames: usize,
    pub elapsed_frames: usize,
}

/// The transport state of the playback engine: what is loaded, preloaded
/// and cached, where playback stands, and any crossfade in progress.
pub struct PlaybackState<P> {
    track: Option<LoadedTrack<P>>,
    preloaded: Option<LoadedTrack<P>>,
    cache: Vec<LoadedTrack<P>>,
    frame_index: usize,
    playing: bool,
    ended: bool,
    gapless_next_id: Option<String>,
    crossfade: Option<Crossfade<P>>,
    output_channels: u16,
    output_sample_rate: u32,
}

// ---------------------------------------------------------------------------
// The model of the track cache
// ---------------------------------------------------------------------------

/// No song id occurs twice in the cache.
pub open spec fn distinct_ids<P>(c: Seq<LoadedTrack<P>>) -> bool {
    forall|i: int, j: int| 0 <= i < c.len() && 0 <= j < c.len() && i != j ==> c[i].id@ != c[j].id@
}

/// Position of the entry for `id`, or -1.
pub open spec fn id_index_from<P>(c: Seq<LoadedTrack<P>>, id: Seq<char>, j: int) -> int
    decreases c.len() - j,
{
    if j < 0 || j >= c.len() {
        -1
    } else if c[j].id@ == id {
        j
    } else {
        id_index_from(c, id, j + 1)
    }
}

pub open spec fn id_index<P>(c: Seq<LoadedTrack<P>>, id: Seq<char>) -> int {
    id_index_from(c, id, 0)
}

/// The cached entry for `id`, if any.
pub open spec fn cache_lookup<P>(c: Seq<LoadedTrack<P>>, id: Seq<char>) -> Option<LoadedTrack<P>> {
    let j = id_index(c, id);
    if j >= 0 {
        Some(c[j])
    } else {
        None
    }
}

/// The cache after storing `t`: an older entry with the same id is dropped,
/// `t` becomes the newest entry, and the oldest entry is evicted when the
/// cache would exceed its limit.
pub open spec fn cache_insert<P>(c: Seq<LoadedTrack<P>>, t: LoadedTrack<P>) -> Seq<LoadedTrack<P>> {
    let j = id_index(c, t.id@);
    let c1 = if j >= 0 {
        c.remove(j)
    } else {
        c
    };
    let c2 = c1.push(t);
    if c2.len() > CACHE_LIMIT {
        c2.drop_first()
    } else {
        c2
    }
}

pub proof fn lemma_id_index_from<P>(c: Seq<LoadedTrack<P>>, id: Seq<char>, j: int)
    requires
        0 <= j,
    ensures
        id_index_from(c, id, j) == -1 || (j <= id_index_from(c, id, j) < c.len() && c[id_index_from(
            c,
            id,
            j,
        )].id@ == id),
        id_index_from(c, id, j) == -1 ==> forall|m: int| j <= m < c.len() ==> c[m].id@ != id,
    decreases c.len() - j,
{
    if j < c.len() && c[j].id@ != id {
        lemma_id_index_from(c, id, j + 1);
    }
}

/// Entries that survive an insertion keep their ids distinct, and the
/// cache stays within its limit.
pub proof fn lemma_cache_insert_wf<P>(c: Seq<LoadedTrack<P>>, t: LoadedTrack<P>)
    requires
        distinct_ids(c),
        c.len() <= CACHE_LIMIT,
    ensures
        distinct_ids(cache_insert(c, t)),
        cache_insert(c, t).len() <= CACHE_LIMIT,
        cache_insert(c, t).len() > 0,
        cache_insert(c, t).last() == t,
{
    lemma_id_index_from(c, t.id@, 0);
    let j = id_index(c, t.id@);
    let c1 = if j >= 0 {
        c.remove(j)
    } else {
        c
    };
    assert forall|m: int| 0 <= m < c1.len() implies c1[m].id@ != t.id@ by {
        if j >= 0 {
            if m < j {
                assert(c1[m] == c[m]);
            } else {
                assert(c1[m] == c[m + 1]);
            }
        }
    }
    let c2 = c1.push(t);
    assert(distinct_ids(c1)) by {
        assert forall|a: int, b: int|
            0 <= a < c1.len() && 0 <= b < c1.len() && a != b implies c1[a].id@ != c1[b].id@ by {
            if j >= 0 {
                let a2 = if a < j {
                    a
                } else {
                    a + 1
                };
                let b2 = if b < j {
                    b
                } else {
                    b + 1
                };
                assert(c1[a] == c[a2]);
                assert(c1[b] == c[b2]);
            }
        }
    }
    assert(distinct_ids(c2)) by {
        assert forall|a: int, b: int|
            0 <= a < c2.len() && 0 <= b < c2.len() && a != b implies c2[a].id@ != c2[b].id@ by {
            if a < c1.len() && b < c1.len() {
                assert(c2[a] == c1[a]);
                assert(c2[b] == c1[b]);
            } else if a < c1.len() {
                assert(c2[a] == c1[a]);
            } else if b < c1.len() {
                assert(c2[b] == c1[b]);
            }
        }
    }
    if c2.len() > CACHE_LIMIT {
        let c3 = c2.drop_first();
        assert forall|a: int, b: int|
            0 <= a < c3.len() && 0 <= b < c3.len() && a != b implies c3[a].id@ != c3[b].id@ by {
            assert(c3[a] == c2[a + 1]);
            assert(c3[b] == c2[b + 1]);
        }
    }
}

// ---------------------------------------------------------------------------
// The state
// ---------------------------------------------------------------------------

impl<P> PlaybackState<P> {
    #[verifier::type_invariant]
    spec fn well_formed(self) -> bool {
        &&& self.cache@.len() <= CACHE_LIMIT
        &&& distinct_ids(self.cache@)
        &&& self.crossfade matches Some(cf) ==> cf.elapsed_frames < cf.duration_frames
    }

    pub closed spec fn track_spec(self) -> Option<LoadedTrack<P>> {
        self.track
    }

    pub closed spec fn preloaded_spec(self) -> Option<LoadedTrack<P>> {
        self.preloaded
    }

    pub closed spec fn cache_spec(self) -> Seq<LoadedTrack<P>> {
        self.cache@
    }

    pub closed spec fn frame_spec(self) -> nat {
        self.frame_index as nat
    }

    pub closed spec fn playing_spec(self) -> bool {
        self.playing
    }

    pub closed spec fn ended_spec(self) -> bool {
        self.ended
    }

    pub closed spec fn gapless_spec(self) -> Option<Seq<char>> {
        match self.gapless_next_id {
            Some(s) => Some(s@),
            None => None,
        }
    }

    /// The crossfade in progress: outgoing track, the frame it was left at,
    /// the fade length and the frames faded so far.
    pub closed spec fn crossfade_spec(self) -> Option<(LoadedTrack<P>, nat, nat, nat)> {
        match self.crossfade {
            Some(cf) => Some(
                (
                    cf.outgoing,
                    cf.outgoing_frame as nat,
                    cf.duration_frames as nat,
                    cf.elapsed_frames as nat,
                ),
            ),
            None => None,
        }
    }

    pub closed spec fn output_spec(self) -> (u16, u32) {
        (self.output_channels, self.output_sample_rate)
    }

    /// A stopped engine with nothing loaded, for the given output format.
    pub fn new(output_channels: u16, output_sample_rate: u32) -> (s: Self)
        ensures
            s.track_spec() is None,
            s.preloaded_spec() is None,
            s.cache_spec().len() == 0,
            s.frame_spec() == 0,
            !s.playing_spec(),
            !s.ended_spec(),
            s.gapless_spec() is None,
            s.crossfade_spec() is None,
            s.output_spec() == (output_channels, output_sample_rate),
    {
        PlaybackState {
            track: None,
            preloaded: None,
            cache: Vec::new(),
            frame_index: 0,
            playing: false,
            ended: false,
            gapless_next_id: None,
            crossfade: None,
            output_channels,
            output_sample_rate,
        }
    }

    /// The output channel count and sample rate.
    pub fn output_config(&self) -> (r: (u16, u32))
        ensures
            r == self.output_spec(),
    {
        (self.output_channels, self.output_sample_rate)
    }

    pub fn output_sample_rate(&self) -> (r: u32)
        ensures
            r == self.output_spec().1,
    {
        self.output_sample_rate
    }

    pub fn output_channels(&self) -> (r: usize)
        ensures
            r == self.output_spec().0,
    {
        self.output_channels as usize
    }

    pub fn is_playing(&self) -> (r: bool)
        ensures
            r == self.playing_spec(),
    {
        self.playing
    }

    pub fn is_ended(&self) -> (r: bool)
        ensures
            r == self.ended_spec(),
    {
        self.ended
    }

    pub fn current_frame_index(&self) -> (r: usize)
        ensures
            r == self.frame_spec(),
    {
        self.frame_index
    }

    /// The current track.
    pub fn current_track(&self) -> (r: Option<&LoadedTrack<P>>)
        ensures
            r == match self.track_spec() {
                Some(t) => Some(&t),
                None => None,
            },
    {
        match &self.track {
            Some(t) => Some(t),
            None => None,
        }
    }

    /// The preloaded track's id, if any.
    pub fn preloaded_id(&self) -> (r: Option<&String>)
        ensures
            r matches Some(s) ==> self.preloaded_spec() matches Some(t) && s@ == t.id@,
            r is None ==> self.preloaded_spec() is None,
    {
        match &self.preloaded {
            Some(t) => Some(&t.id),
            None => None,
        }
    }

    /// The id the engine advanced to on its own, if it did.
    pub fn gapless_advanced_to(&self) -> (r: Option<&String>)
        ensures
            r matches Some(s) ==> self.gapless_spec() == Some(s@),
            r is None ==> self.gapless_spec() is None,
    {
        match &self.gapless_next_id {
            Some(s) => Some(s),
            None => None,
        }
    }

    /// Moves the playback position one frame forward; a crossfade in
    /// progress advances too and ends once its frames are used up.
    pub fn advance_frame(&mut self)
        requires
            old(self).frame_spec() < usize::MAX,
        ensures
            final(self).frame_spec() == old(self).frame_spec() + 1,
            final(self).track_spec() == old(self).track_spec(),
            final(self).preloaded_spec() == old(self).preloaded_spec(),
            final(self).cache_spec() == old(self).cache_spec(),
            final(self).playing_spec() == old(self).playing_spec(),
            final(self).ended_spec() == old(self).ended_spec(),
            final(self).gapless_spec() == old(self).gapless_spec(),
            final(self).output_spec() == old(self).output_spec(),
            final(self).crossfade_spec() == crossfade_step(old(self).crossfade_spec()),
    {
        proof {
            use_type_invariant(&*self);
        }
        self.frame_index = self.frame_index + 1;
        let mut cf: Option<Crossfade<P>> = None;
        std::mem::swap(&mut cf, &mut self.crossfade);
        match cf {
            Some(mut c) => {
                c.elapsed_frames = c.elapsed_frames + 1;
                if c.elapsed_frames < c.duration_frames {
                    self.crossfade = Some(c);
                }
            },
            None => {},
        }
    }

    /// The crossfade's outgoing track, the frame of it where the fade began,
    /// the frames faded so far and the fade length.
    pub fn crossfade_position(&self) -> (r: Option<(&LoadedTrack<P>, usize, usize, usize)>)
        ensures
            match self.crossfade_spec() {
                None => r is None,
                Some(cf) => r matches Some(x) && *x.0 == cf.0 && x.1 == cf.1 && x.2 == cf.3 && x.3
                    == cf.2,
            },
    {
        match &self.crossfade {
            Some(cf) => Some((&cf.outgoing, cf.outgoing_frame, cf.elapsed_frames, cf.duration_frames)),
            None => None,
        }
    }

    /// Stops at the end of the current track.
    pub fn mark_ended(&mut self)
        ensures
            !final(self).playing_spec(),
            final(self).ended_spec(),
            final(self).track_spec() == old(self).track_spec(),
            final(self).preloaded_spec() == old(self).preloaded_spec(),
            final(self).cache_spec() == old(self).cache_spec(),
            final(self).frame_spec() == old(self).frame_spec(),
            final(self).gapless_spec() == old(self).gapless_spec(),
            final(self).crossfade_spec() == old(self).crossfade_spec(),
            final(self).output_spec() == old(self).output_spec(),
    {
        proof {
            use_type_invariant(&*self);
        }
        self.playing = false;
        self.ended = true;
    }

    /// At the end of a track, switches to the preloaded track without a gap:
    /// it becomes current from its first frame, is reported as the track the
    /// engine advanced to, and playback keeps running.  Returns whether there
    /// was a preloaded track.
    pub fn advance_to_preloaded_if_ready(&mut self) -> (switched: bool)
        ensures
            switched == old(self).preloaded_spec() is Some,
            switched ==> {
                &&& final(self).track_spec() == old(self).preloaded_spec()
                &&& final(self).preloaded_spec() is None
                &&& final(self).gapless_spec() == Some(old(self).preloaded_spec()->0.id@)
                &&& final(self).frame_spec() == 0
                &&& !final(self).ended_spec()
                &&& final(self).crossfade_spec() is None
                &&& final(self).playing_spec() == old(self).playing_spec()
                &&& final(self).cache_spec() == old(self).cache_spec()
                &&& final(self).output_spec() == old(self).output_spec()
            },
            !switched ==> *final(self) == *old(self),
    {
        proof {
            use_type_invariant(&*self);
        }
        let mut pre: Option<LoadedTrack<P>> = None;
        std::mem::swap(&mut pre, &mut self.preloaded);
        match pre {
            None => false,
            Some(next) => {
                self.gapless_next_id = Some(next.id.clone());
                self.track = Some(next);
                self.frame_index = 0;
                self.ended = false;
                self.crossfade = None;
                true
            },
        }
    }

    pub fn clear_playing(&mut self)
        ensures
            !final(self).playing_spec(),
            final(self).track_spec() == old(self).track_spec(),
            final(self).preloaded_spec() == old(self).preloaded_spec(),
            final(self).cache_spec() == old(self).cache_spec(),
            final(self).frame_spec() == old(self).frame_spec(),
            final(self).ended_spec() == old(self).ended_spec(),
            final(self).gapless_spec() == old(self).gapless_spec(),
            final(self).crossfade_spec() == old(self).crossfade_spec(),
            final(self).output_spec() == old(self).output_spec(),
    {
        proof {
            use_type_invariant(&*self);
        }
        self.playing = false;
    }

    /// Loads `track` from its first frame, dropping any preloaded track and
    /// any crossfade; plays at once when `autoplay`.
    pub fn load(&mut self, track: LoadedTrack<P>, autoplay: bool)
        ensures
            final(self).track_spec() == Some(track),
            final(self).preloaded_spec() is None,
            final(self).frame_spec() == 0,
            final(self).playing_spec() == autoplay,
            !final(self).ended_spec(),
            final(self).gapless_spec() is None,
            final(self).crossfade_spec() is None,
            final(self).cache_spec() == old(self).cache_spec(),
            final(self).output_spec() == old(self).output_spec(),
    {
        proof {
            use_type_invariant(&*self);
        }
        self.track = Some(track);
        self.preloaded = None;
        self.frame_index = 0;
        self.playing = autoplay;
        self.ended = false;
        self.gapless_next_id = None;
        self.crossfade = None;
    }

    /// Starts `incoming` at once while the current track fades out over
    /// `duration_frames` frames from where it stands; with no current track,
    /// or no fade length, it is a plain load (an earlier fade is left as it
    /// is).
    pub fn load_with_crossfade(
        &mut self,
        incoming: LoadedTrack<P>,
        autoplay: bool,
        duration_frames: usize,
    )
        ensures
            final(self).track_spec() == Some(incoming),
            final(self).preloaded_spec() is None,
            final(self).frame_spec() == 0,
            final(self).playing_spec() == autoplay,
            !final(self).ended_spec(),
            final(self).gapless_spec() is None,
            final(self).cache_spec() == old(self).cache_spec(),
            final(self).output_spec() == old(self).output_spec(),
            (duration_frames > 0 && old(self).track_spec() is Some) ==> final(self).crossfade_spec()
                == Some((old(self).track_spec()->0, old(self).frame_spec(), duration_frames as nat, 0nat)),
            !(duration_frames > 0 && old(self).track_spec() is Some) ==> final(self).crossfade_spec()
                == old(self).crossfade_spec(),
    {
        proof {
            use_type_invariant(&*self);
        }
        let mut old_track: Option<LoadedTrack<P>> = None;
        std::mem::swap(&mut old_track, &mut self.track);
        match old_track {
            Some(current) => {
                if duration_frames > 0 {
                    self.crossfade = Some(
                        Crossfade {
                            outgoing: current,
                            outgoing_frame: self.frame_index,
                            duration_frames,
                            elapsed_frames: 0,
                        },
                    );
                }
            },
            None => {},
        }
        self.track = Some(incoming);
        self.preloaded = None;
        self.frame_index = 0;
        self.playing = autoplay;
        self.ended = false;
        self.gapless_next_id = None;
    }

    /// Keeps `track` ready to be played next.
    pub fn store_preloaded(&mut self, track: LoadedTrack<P>)
        ensures
            final(self).preloaded_spec() == Some(track),
            final(self).track_spec() == old(self).track_spec(),
            final(self).cache_spec() == old(self).cache_spec(),
            final(self).frame_spec() == old(self).frame_spec(),
            final(self).playing_spec() == old(self).playing_spec(),
            final(self).ended_spec() == old(self).ended_spec(),
            final(self).gapless_spec() == old(self).gapless_spec(),
            final(self).crossfade_spec() == old(self).crossfade_spec(),
            final(self).output_spec() == old(self).output_spec(),
    {
        proof {
            use_type_invariant(&*self);
        }
        self.preloaded = Some(track);
    }

    /// Hands out the preloaded track when it is the song `song_id`; the
    /// engine then no longer holds it.
    pub fn take_preloaded(&mut self, song_id: &str) -> (r: Option<LoadedTrack<P>>)
        ensures
            (old(self).preloaded_spec() matches Some(t) && t.id@ == song_id@) ==> {
                &&& r == old(self).preloaded_spec()
                &&& final(self).preloaded_spec() is None
            },
            !(old(self).preloaded_spec() matches Some(t) && t.id@ == song_id@) ==> {
                &&& r is None
                &&& final(self).preloaded_spec() == old(self).preloaded_spec()
            },
            final(self).track_spec() == old(self).track_spec(),
            final(self).cache_spec() == old(self).cache_spec(),
            final(self).frame_spec() == old(self).frame_spec(),
            final(self).playing_spec() == old(self).playing_spec(),
            final(self).ended_spec() == old(self).ended_spec(),
            final(self).gapless_spec() == old(self).gapless_spec(),
            final(self).crossfade_spec() == old(self).crossfade_spec(),
            final(self).output_spec() == old(self).output_spec(),
    {
        proof {
            use_type_invariant(&*self);
        }
        let matches = match &self.preloaded {
            Some(t) => str_eq(t.id.as_str(), song_id),
            None => false,
        };
        if matches {
            let mut pre: Option<LoadedTrack<P>> = None;
            std::mem::swap(&mut pre, &mut self.preloaded);
            pre
        } else {
            None
        }
    }

    /// Adds a decoded track to the cache as its newest entry, replacing an
    /// older entry for the same song and evicting the oldest entry when the
    /// cache is full.
    pub fn cache_track(&mut self, track: LoadedTrack<P>)
        ensures
            final(self).cache_spec() == cache_insert(old(self).cache_spec(), track),
            final(self).cache_spec().len() <= CACHE_LIMIT,
            distinct_ids(final(self).cache_spec()),
            final(self).track_spec() == old(self).track_spec(),
            final(self).preloaded_spec() == old(self).preloaded_spec(),
            final(self).frame_spec() == old(self).frame_spec(),
            final(self).playing_spec() == old(self).playing_spec(),
            final(self).ended_spec() == old(self).ended_spec(),
            final(self).gapless_spec() == old(self).gapless_spec(),
            final(self).crossfade_spec() == old(self).crossfade_spec(),
            final(self).output_spec() == old(self).output_spec(),
    {
        proof {
            use_type_invariant(&*self);
            lemma_cache_insert_wf(self.cache@, track);
        }
        let ghost c0 = self.cache@;
        let mut cache: Vec<LoadedTrack<P>> = Vec::new();
        std::mem::swap(&mut cache, &mut self.cache);
        let mut j: usize = 0;
        let mut found = false;
        while j < cache.len() && !found
            invariant
                cache@ == c0,
                j <= cache.len(),
                found ==> j < cache.len() && id_index(c0, track.id@) == j,
                !found ==> id_index(c0, track.id@) == id_index_from(c0, track.id@, j as int),
            decreases cache.len() - j, (if found { 0int } else { 1int }),
        {
            if str_eq(cache[j].id.as_str(), track.id.as_str()) {
                found = true;
            } else {
                j = j + 1;
            }
        }
        proof {
            lemma_id_index_from(c0, track.id@, 0);
        }
        if found {
            cache.remove(j);
        }
        cache.push(track);
        if cache.len() > CACHE_LIMIT {
            cache.remove(0);
            assert(cache@ == cache_insert(c0, track));
        }
        self.cache = cache;
    }

    /// A decoded track for `song_id`: the current track, else the preloaded
    /// one, else a cached one.
    pub fn get_cached(&self, song_id: &str) -> (r: Option<&LoadedTrack<P>>)
        ensures
            (self.track_spec() matches Some(t) && t.id@ == song_id@) ==> r == Some(
                &self.track_spec()->0,
            ),
            !(self.track_spec() matches Some(t) && t.id@ == song_id@) && (self.preloaded_spec() matches Some(
                p,
            ) && p.id@ == song_id@) ==> r == Some(&self.preloaded_spec()->0),
            !(self.track_spec() matches Some(t) && t.id@ == song_id@) && !(self.preloaded_spec() matches Some(
                p,
            ) && p.id@ == song_id@) ==> r == match cache_lookup(self.cache_spec(), song_id@) {
                Some(c) => Some(&c),
                None => None,
            },
    {
        match &self.track {
            Some(t) => {
                if str_eq(t.id.as_str(), song_id) {
                    return Some(t);
                }
            },
            None => {},
        }
        match &self.preloaded {
            Some(p) => {
                if str_eq(p.id.as_str(), song_id) {
                    return Some(p);
                }
            },
            None => {},
        }
        let ghost c = self.cache@;
        let mut j: usize = 0;
        while j < self.cache.len()
            invariant
                c == self.cache@,
                j <= self.cache.len(),
                id_index(c, song_id@) == id_index_from(c, song_id@, j as int),
                !(self.track_spec() matches Some(t) && t.id@ == song_id@),
                !(self.preloaded_spec() matches Some(p) && p.id@ == song_id@),
            decreases self.cache.len() - j,
        {
            if str_eq(self.cache[j].id.as_str(), song_id) {
                return Some(&self.cache[j]);
            }
            j = j + 1;
        }
        None
    }

    /// Drops the preloaded track and every cached track.
    pub fn clear_cached_tracks(&mut self)
        ensures
            final(self).preloaded_spec() is None,
            final(self).cache_spec().len() == 0,
            final(self).track_spec() == old(self).track_spec(),
            final(self).frame_spec() == old(self).frame_spec(),
            final(self).playing_spec() == old(self).playing_spec(),
            final(self).ended_spec() == old(self).ended_spec(),
            final(self).gapless_spec() == old(self).gapless_spec(),
            final(self).crossfade_spec() == old(self).crossfade_spec(),
            final(self).output_spec() == old(self).output_spec(),
    {
        proof {
            use_type_invariant(&*self);
        }
        self.preloaded = None;
        self.cache = Vec::new();
    }

    /// Resumes playback when a track is loaded; otherwise nothing changes.
    pub fn play(&mut self)
        ensures
            old(self).track_spec() is Some ==> final(self).playing_spec() && !final(self).ended_spec(),
            old(self).track_spec() is None ==> *final(self) == *old(self),
            final(self).track_spec() == old(self).track_spec(),
            final(self).preloaded_spec() == old(self).preloaded_spec(),
            final(self).cache_spec() == old(self).cache_spec(),
            final(self).frame_spec() == old(self).frame_spec(),
            final(self).gapless_spec() == old(self).gapless_spec(),
            final(self).crossfade_spec() == old(self).crossfade_spec(),
            final(self).output_spec() == old(self).output_spec(),
    {
        proof {
            use_type_invariant(&*self);
        }
        if self.track.is_some() {
            self.playing = true;
            self.ended = false;
        }
    }

    pub fn pause(&mut self)
        ensures
            !final(self).playing_spec(),
            final(self).track_spec() == old(self).track_spec(),
            final(self).preloaded_spec() == old(self).preloaded_spec(),
            final(self).cache_spec() == old(self).cache_spec(),
            final(self).frame_spec() == old(self).frame_spec(),
            final(self).ended_spec() == old(self).ended_spec(),
            final(self).gapless_spec() == old(self).gapless_spec(),
            final(self).crossfade_spec() == old(self).crossfade_spec(),
            final(self).output_spec() == old(self).output_spec(),
    {
        proof {
            use_type_invariant(&*self);
        }
        self.playing = false;
    }

    /// Unloads the current track and ends any crossfade; the preloaded and
    /// cached tracks stay.
    pub fn stop(&mut self)
        ensures
            final(self).track_spec() is None,
            final(self).frame_spec() == 0,
            !final(self).playing_spec(),
            !final(self).ended_spec(),
            final(self).gapless_spec() is None,
            final(self).crossfade_spec() is None,
            final(self).preloaded_spec() == old(self).preloaded_spec(),
            final(self).cache_spec() == old(self).cache_spec(),
            final(self).output_spec() == old(self).output_spec(),
    {
        proof {
            use_type_invariant(&*self);
        }
        self.track = None;
        self.frame_index = 0;
        self.playing = false;
        self.ended = false;
        self.gapless_next_id = None;
        self.crossfade = None;
    }

    /// Moves to frame `target` of the current track, clamped to its length.
    /// Returns whether a track is loaded (without one nothing changes).
    pub fn seek(&mut self, target: usize) -> (moved: bool)
        ensures
            moved == old(self).track_spec() is Some,
            moved ==> {
                &&& final(self).frame_spec() == if target <= old(self).track_spec()->0.frames {
                    target as nat
                } else {
                    old(self).track_spec()->0.frames as nat
                }
                &&& !final(self).ended_spec()
                &&& final(self).playing_spec() == old(self).playing_spec()
                &&& final(self).track_spec() == old(self).track_spec()
                &&& final(self).preloaded_spec() == old(self).preloaded_spec()
                &&& final(self).cache_spec() == old(self).cache_spec()
                &&& final(self).gapless_spec() == old(self).gapless_spec()
                &&& final(self).crossfade_spec() == old(self).crossfade_spec()
                &&& final(self).output_spec() == old(self).output_spec()
            },
            !moved ==> *final(self) == *old(self),
    {
        proof {
            use_type_invariant(&*self);
        }
        let total = match &self.track {
            Some(t) => t.frames,
            None => {
                return false;
            },
        };
        self.frame_index = if target <= total {
            target
        } else {
            total
        };
        self.ended = false;
        true
    }
}

/// The positions of the samples of frame `frame_index` in an interleaved
/// buffer of `len` samples with `channels` channels, when the frame lies
/// wholly inside the buffer (and its positions fit in `usize`).
pub fn frame_range(frame_index: usize, channels: usize, len: usize) -> (r: Option<(usize, usize)>)
    ensures
        r is Some <==> frame_index * channels + channels <= len,
        r matches Some((a, b)) ==> a == frame_index * channels && b == a + channels,
{
    let start = match frame_index.checked_mul(channels) {
        Some(s) => s,
        None => {
            proof {
                assert(frame_index * channels > usize::MAX);
                assert(frame_index * channels + channels > len);
            }
            return None;
        },
    };
    let end = match start.checked_add(channels) {
        Some(e) => e,
        None => return None,
    };
    if end <= len {
        Some((start, end))
    } else {
        None
    }
}

// ---------------------------------------------------------------------------
// Laws of the track cache
// ---------------------------------------------------------------------------

/// The cache without any entry for `id`, the other entries in order.
pub open spec fn cache_without<P>(c: Seq<LoadedTrack<P>>, id: Seq<char>) -> Seq<LoadedTrack<P>> {
    c.filter(|e: LoadedTrack<P>| e.id@ != id)
}

proof fn lemma_remove_is_filter<P>(c: Seq<LoadedTrack<P>>, id: Seq<char>)
    requires
        distinct_ids(c),
    ensures
        (if id_index(c, id) >= 0 {
            c.remove(id_index(c, id))
        } else {
            c
        }) == cache_without(c, id),
    decreases c.len(),
{
    reveal(Seq::filter);
    lemma_id_index_from(c, id, 0);
    if c.len() > 0 {
        let d = c.drop_last();
        assert(distinct_ids(d)) by {
            assert forall|a: int, b: int| 0 <= a < d.len() && 0 <= b < d.len() && a != b implies d[a].id@
                != d[b].id@ by {
                assert(d[a] == c[a] && d[b] == c[b]);
            }
        }
        lemma_remove_is_filter(d, id);
        lemma_id_index_from(d, id, 0);
        let j = id_index(c, id);
        let jd = id_index(d, id);
        let f = |e: LoadedTrack<P>| e.id@ != id;
        assert(cache_without(c, id) == if f(c.last()) {
            cache_without(d, id).push(c.last())
        } else {
            cache_without(d, id)
        });
        if j == c.len() - 1 {
            // the entry is the last one; none before it has the id
            assert(jd < 0) by {
                if jd >= 0 {
                    assert(d[jd] == c[jd]);
                    assert(c[jd].id@ == id);
                }
            }
            assert(c.remove(j) =~= d);
        } else if j >= 0 {
            assert(c[j].id@ == id);
            assert(jd == j) by {
                assert(d[j] == c[j]);
                if jd >= 0 && jd != j {
                    assert(d[jd] == c[jd]);
                }
                if jd < 0 {
                    assert(d[j].id@ == id);
                }
                if jd >= 0 && jd < j {
                    assert(c[jd].id@ == id);
                }
            }
            assert(c.last().id@ != id) by {
                assert(c[c.len() - 1] == c.last());
            }
            assert(c.remove(j) =~= d.remove(j).push(c.last()));
        } else {
            assert(jd < 0) by {
                if jd >= 0 {
                    assert(d[jd] == c[jd]);
                }
            }
            assert(c.last().id@ != id) by {
                assert(c[c.len() - 1] == c.last());
            }
            assert(c =~= d.push(c.last()));
        }
    }
}

/// One frame of a crossfade: the fade advances by a frame and is over once
/// all its frames are used.
pub open spec fn crossfade_step<P>(cf: Option<(LoadedTrack<P>, nat, nat, nat)>) -> Option<
    (LoadedTrack<P>, nat, nat, nat),
> {
    match cf {
        None => None,
        Some(c) => if c.3 + 1 >= c.2 {
            None
        } else {
            Some((c.0, c.1, c.2, c.3 + 1))
        },
    }
}

/// The crossfade after `m` frames.
pub open spec fn crossfade_steps<P>(cf: Option<(LoadedTrack<P>, nat, nat, nat)>, m: nat) -> Option<
    (LoadedTrack<P>, nat, nat, nat),
>
    decreases m,
{
    if m == 0 {
        cf
    } else {
        crossfade_step(crossfade_steps(cf, (m - 1) as nat))
    }
}

/// Law: a crossfade of `d` frames, as `load_with_crossfade` starts it,
/// stands at frame `m` after `m` frame steps while `m < d`, and is over
/// from the `d`-th step on (the fade's gain at each step is `m / d`).
pub proof fn law_crossfade_progress<P>(outgoing: LoadedTrack<P>, left_at: nat, d: nat, m: nat)
    requires
        d > 0,
    ensures
        crossfade_steps(Some((outgoing, left_at, d, 0nat)), m) == (if m < d {
            Some((outgoing, left_at, d, m))
        } else {
            None::<(LoadedTrack<P>, nat, nat, nat)>
        }),
    decreases m,
{
    if m > 0 {
        law_crossfade_progress(outgoing, left_at, d, (m - 1) as nat);
    }
}

/// Law: caching `t` makes it the most recent entry; the other entries keep
/// their order, a previous entry for the same id is replaced, and when the
/// cache overflows only the least recently cached entry (the first) goes.
pub proof fn law_cache_recency<P>(c: Seq<LoadedTrack<P>>, t: LoadedTrack<P>)
    requires
        distinct_ids(c),
        c.len() <= CACHE_LIMIT,
    ensures
        cache_insert(c, t) == (if cache_without(c, t.id@).len() + 1 > CACHE_LIMIT {
            cache_without(c, t.id@).drop_first()
        } else {
            cache_without(c, t.id@)
        }).push(t),
{
    lemma_remove_is_filter(c, t.id@);
    let w = cache_without(c, t.id@);
    if w.len() + 1 > CACHE_LIMIT {
        assert(w.push(t).drop_first() =~= w.drop_first().push(t));
    }
}

/// Law: a track just cached is found again under its id.
pub proof fn law_cache_read_after_write<P>(c: Seq<LoadedTrack<P>>, t: LoadedTrack<P>)
    requires
        distinct_ids(c),
        c.len() <= CACHE_LIMIT,
    ensures
        cache_lookup(cache_insert(c, t), t.id@) == Some(t),
{
    lemma_cache_insert_wf(c, t);
    let c2 = cache_insert(c, t);
    let last = c2.len() - 1;
    lemma_id_index_from(c2, t.id@, 0);
    assert(c2[last].id@ == t.id@);
    let j = id_index(c2, t.id@);
    assert(j == last) by {
        if j != last {
            assert(j >= 0 ==> c2[j].id@ == t.id@);
        }
    }
}

/// Law: the cache never holds more than its limit, whatever is stored.
pub proof fn law_cache_bounded<P>(c: Seq<LoadedTrack<P>>, t: LoadedTrack<P>)
    requires
        distinct_ids(c),
        c.len() <= CACHE_LIMIT,
    ensures
        cache_insert(c, t).len() <= CACHE_LIMIT,
        distinct_ids(cache_insert(c, t)),
{
    lemma_cache_insert_wf(c, t);
}

/// Law: caching a track keeps every other cached track, except that the oldest
/// one is evicted when the cache was full and `t` is new.
pub proof fn law_cache_keeps_others<P>(c: Seq<LoadedTrack<P>>, t: LoadedTrack<P>, id: Seq<char>)
    requires
        distinct_ids(c),
        c.len() <= CACHE_LIMIT,
        id != t.id@,
        cache_lookup(c, id) is Some,
        !(c.len() == CACHE_LIMIT && cache_lookup(c, t.id@) is None && c[0].id@ == id),
    ensures
        cache_lookup(cache_insert(c, t), id) == cache_lookup(c, id),
{
    lemma_cache_insert_wf(c, t);
    lemma_id_index_from(c, id, 0);
    lemma_id_index_from(c, t.id@, 0);
    let k = id_index(c, id);
    let e = c[k];
    let j = id_index(c, t.id@);
    let c1 = if j >= 0 {
        c.remove(j)
    } else {
        c
    };
    let k1 = if j >= 0 && j < k {
        k - 1
    } else {
        k
    };
    assert(c1[k1] == e);
    let c2 = c1.push(t);
    assert(c2[k1] == e);
    let c3 = cache_insert(c, t);
    let k3 = if c2.len() > CACHE_LIMIT {
        k1 - 1
    } else {
        k1
    };
    assert(0 <= k3 < c3.len());
    assert(c3[k3] == e);
    lemma_id_index_from(c3, id, 0);
    let m = id_index(c3, id);
    assert(m == k3) by {
        if m != k3 {
            assert(m >= 0 ==> c3[m].id@ == id);
        }
    }
}

} // verus!
