//! Lyrics providers: which provider is asked, how their answers become a
//! lookup result, how Musixmatch replies are read and how a search result
//! is accepted as the track being played.
use vstd::prelude::*;
use crate::json::{
    json_error_of, json_str_at, json_u64_at, json_bool_at, json_null_at, json_len_at, json_flag_at,
    json_member, str_or_empty, json_syntax, json_str, json_u64, json_bool, json_null, json_len, json_flag,
    member, element, string_or_empty,
};
use vstd::string::StringSliceAdditionalSpecFns;
use vstd::utf8::encode_utf8;
use hmac::Mac;
use rand::Rng;
use crate::digest::{base64_of, base64_standard};
use crate::numfmt::{hex_padded, push_hex_padded};
use crate::subsonic::{url_with_query_pairs, parse_url_with_pairs};
use crate::lyrics::{
    LyricsResult, artist_key, title_key, cleaned_lyrics, normalize_artist, normalize_title,
    normalize_album, clean_plain_lyrics,
};
use crate::numfmt::{decimal, zero_padded, push_decimal, push_zero_padded};
use crate::subsonic::pair_views;
use crate::text::{
    chars_of, string_of, extend_chars, trim, trim_str, str_eq, words, join, split_on, trim_start,
    trim_end, is_ws, lemma_split_on_nonempty, lemma_join_push,
};
use crate::genius::{lyric_lines, timed_lines, string_views};

verus! {

// ---------------------------------------------------------------------------
// Choosing providers
// ---------------------------------------------------------------------------

/// Which providers a lookup asks, in order.
#[derive(Clone, Copy, Debug, PartialEq, Eq, Structural)]
pub enum LyricsSources {
    /// Only Musixmatch; its errors are reported.
    MusixmatchOnly,
    /// Only LRCLIB.
    LrclibOnly,
    /// Musixmatch, then LRCLIB when Musixmatch found nothing or failed.
    MusixmatchThenLrclib,
}

pub fn lyrics_sources(provider: Option<&str>) -> (r: LyricsSources)
    ensures
        r == (match provider {
            Some(p) => if p@ == "musixmatch"@ {
                LyricsSources::MusixmatchOnly
            } else if p@ == "lrclib"@ {
                LyricsSources::LrclibOnly
            } else {
                LyricsSources::MusixmatchThenLrclib
            },
            None => LyricsSources::MusixmatchThenLrclib,
        }),
{
    match provider {
        Some(p) => if str_eq(p, "musixmatch") {
            LyricsSources::MusixmatchOnly
        } else if str_eq(p, "lrclib") {
            LyricsSources::LrclibOnly
        } else {
            LyricsSources::MusixmatchThenLrclib
        },
        None => LyricsSources::MusixmatchThenLrclib,
    }
}

/// A result read back from the lyrics cache is marked as cached.
pub fn mark_cached(r: LyricsResult) -> (c: LyricsResult)
    ensures
        c.plain_lyrics == r.plain_lyrics,
        c.synced_lyrics == r.synced_lyrics,
        c.instrumental == r.instrumental,
        c.provider == r.provider,
        c.cached,
{
    LyricsResult { cached: true, ..r }
}

pub open spec fn opt_view(o: Option<String>) -> Option<Seq<char>> {
    match o {
        Some(s) => Some(s@),
        None => None,
    }
}

// ---------------------------------------------------------------------------
// LRCLIB
// ---------------------------------------------------------------------------

/// The query of an LRCLIB lookup: artist and track, the album when there is
/// The query pairs of an LRCLIB lookup.
pub open spec fn lrclib_pairs(artist: Seq<char>, title: Seq<char>, album: Seq<char>, rounded_duration: Option<
    u64,
>) -> Seq<(Seq<char>, Seq<char>)> {
    seq![("artist_name"@, artist), ("track_name"@, title)] + (if album.len() > 0 {
        seq![("album_name"@, album)]
    } else {
        Seq::empty()
    }) + (match rounded_duration {
        Some(d) => seq![("duration"@, decimal(d as nat))],
        None => Seq::empty(),
    })
}

/// one, and the duration (rounded to whole seconds) when it is known.
pub fn lrclib_query(artist: &str, title: &str, album: &str, rounded_duration: Option<u64>) -> (r: Vec<
    (String, String),
>)
    ensures
        pair_views(r@) == lrclib_pairs(artist@, title@, album@, rounded_duration),
{
    let mut ps: Vec<(String, String)> = Vec::new();
    ps.push(("artist_name".to_string(), artist.to_string()));
    ps.push(("track_name".to_string(), title.to_string()));
    let ghost base = pair_views(ps@);
    if !album.is_empty() {
        ps.push(("album_name".to_string(), album.to_string()));
    }
    let ghost mid = pair_views(ps@);
    match rounded_duration {
        Some(d) => {
            let mut v: Vec<char> = Vec::new();
            push_decimal(&mut v, d);
            ps.push(("duration".to_string(), string_of(&v)));
        },
        None => {},
    }
    proof {
        let a = if album@.len() > 0 {
            seq![("album_name"@, album@)]
        } else {
            Seq::empty()
        };
        let d = match rounded_duration {
            Some(d) => seq![("duration"@, decimal(d as nat))],
            None => Seq::empty(),
        };
        assert(base =~= seq![("artist_name"@, artist@), ("track_name"@, title@)]);
        assert(mid =~= base + a);
        assert(pair_views(ps@) =~= mid + d);
    }
    ps
}

/// An LRCLIB answer as a lookup result: instrumental tracks are reported
/// as such; otherwise the cleaned plain lyrics and the non-blank synced
/// lyrics, and nothing when both are missing.
pub open spec fn lrclib_result_spec(plain: Option<Seq<char>>, synced: Option<Seq<char>>, instrumental: bool) -> Option<
    (Option<Seq<char>>, Option<Seq<char>>, bool),
> {
    if instrumental {
        Some((None, None, true))
    } else {
        let p = match plain {
            Some(t) => cleaned_lyrics(t),
            None => None,
        };
        let s = match synced {
            Some(t) => if trim(t).len() > 0 {
                Some(t)
            } else {
                None
            },
            None => None,
        };
        if p is None && s is None {
            None
        } else {
            Some((p, s, false))
        }
    }
}

pub const LRCLIB_GET_URL: &'static str = "https://lrclib.net/api/get";

/// The address of an LRCLIB lookup: the `get` endpoint with the lookup's
/// query pairs.
pub fn lrclib_url(artist: &str, title: &str, album: &str, rounded_duration: Option<u64>) -> (r: Option<
    String,
>)
    ensures
        opt_view(r) == url_with_query_pairs(LRCLIB_GET_URL@, lrclib_pairs(artist@, title@, album@, rounded_duration)),
{
    let pairs = lrclib_query(artist, title, album, rounded_duration);
    parse_url_with_pairs(LRCLIB_GET_URL, &pairs)
}

pub open spec fn result_view(r: LyricsResult) -> (Option<Seq<char>>, Option<Seq<char>>, bool) {
    (opt_view(r.plain_lyrics), opt_view(r.synced_lyrics), r.instrumental)
}

pub fn lrclib_result(plain: Option<String>, synced: Option<String>, instrumental: bool) -> (r: Option<
    LyricsResult,
>)
    ensures
        match r {
            Some(l) => lrclib_result_spec(opt_view(plain), opt_view(synced), instrumental) == Some(result_view(l))
                && opt_view(l.provider) == Some("LRCLIB"@) && !l.cached,
            None => lrclib_result_spec(opt_view(plain), opt_view(synced), instrumental) is None,
        },
{
    if instrumental {
        return Some(
            LyricsResult {
                plain_lyrics: None,
                synced_lyrics: None,
                instrumental: true,
                provider: Some("LRCLIB".to_string()),
                cached: false,
            },
        );
    }
    let p = match &plain {
        Some(t) => clean_plain_lyrics(t.as_str()),
        None => None,
    };
    let s = match synced {
        Some(t) => if trim_str(t.as_str()).as_str().is_empty() {
            None
        } else {
            Some(t)
        },
        None => None,
    };
    if p.is_none() && s.is_none() {
        return None;
    }
    Some(
        LyricsResult {
            plain_lyrics: p,
            synced_lyrics: s,
            instrumental: false,
            provider: Some("LRCLIB".to_string()),
            cached: false,
        },
    )
}

// ---------------------------------------------------------------------------
// Musixmatch
// ---------------------------------------------------------------------------

/// What a Musixmatch reply means, judged by its status code and hint.
pub enum MxmOutcome {
    /// A success status: the body (if any) is the answer.
    Body,
    /// Not found or a bad request: no answer.
    Nothing,
    /// The user token must be renewed and the request repeated.
    TokenExpired,
    /// Any other status, with its message.
    Failed(String),
}

pub fn mxm_outcome(status_code: u16, hint: &str) -> (r: MxmOutcome)
    ensures
        200 <= status_code <= 299 ==> r is Body,
        (status_code == 404 || status_code == 400) ==> r is Nothing,
        (status_code == 401 && hint@ == "renew"@) ==> r is TokenExpired,
        !(200 <= status_code <= 299 || status_code == 404 || status_code == 400 || (status_code
            == 401 && hint@ == "renew"@)) ==> (r matches MxmOutcome::Failed(m) && m@ == "musixmatch "@
            + decimal(status_code as nat) + ": "@ + hint@),
{
    if 200 <= status_code && status_code <= 299 {
        MxmOutcome::Body
    } else if status_code == 404 || status_code == 400 {
        MxmOutcome::Nothing
    } else if status_code == 401 && str_eq(hint, "renew") {
        MxmOutcome::TokenExpired
    } else {
        let mut v = chars_of("musixmatch ");
        push_decimal(&mut v, status_code as u64);
        extend_chars(&mut v, &chars_of(": "));
        extend_chars(&mut v, &chars_of(hint));
        MxmOutcome::Failed(string_of(&v))
    }
}

/// The parameters of a matcher request: title and artist, and the album
/// when there is one.
pub fn matcher_query(title: &str, artist: &str, album: &str) -> (r: Vec<(String, String)>)
    ensures
        pair_views(r@) == seq![("q_track"@, title@), ("q_artist"@, artist@)] + (if album@.len() > 0 {
            seq![("q_album"@, album@)]
        } else {
            Seq::empty()
        }),
{
    let mut ps: Vec<(String, String)> = Vec::new();
    ps.push(("q_track".to_string(), title.to_string()));
    ps.push(("q_artist".to_string(), artist.to_string()));
    let ghost base = pair_views(ps@);
    if !album.is_empty() {
        ps.push(("q_album".to_string(), album.to_string()));
    }
    proof {
        assert(base =~= seq![("q_track"@, title@), ("q_artist"@, artist@)]);
        if album@.len() > 0 {
            assert(pair_views(ps@) =~= base + seq![("q_album"@, album@)]);
        } else {
            assert(pair_views(ps@) =~= base + Seq::<(Seq<char>, Seq<char>)>::empty());
        }
    }
    ps
}

/// How close a search result's length is to the played track's duration.
#[derive(Clone, Copy, Debug, PartialEq, Eq, Structural)]
pub enum DurationFit {
    /// The played duration is not known.
    Unknown,
    /// Within three seconds.
    Close,
    /// Within eight seconds.
    Near,
    /// Further apart.
    Far,
}

/// A search result from Musixmatch: its names as given.
pub struct MxmTrack {
    pub track_name: String,
    pub artist_name: String,
    pub album_name: String,
}

/// A search result is the played track when artist and title agree once
/// normalised, the album too when one is given, and the length fits: close,
/// or near with the title agreeing, or any length when the duration is not
/// known.
pub open spec fn track_fits(t: MxmTrack, artist: Seq<char>, title: Seq<char>, album: Seq<char>, fit: DurationFit) -> bool {
    let title_ok = title_key(t.track_name@) == title_key(title);
    &&& artist_key(t.artist_name@) == artist_key(artist)
    &&& title_ok
    &&& (album.len() == 0 || title_key(t.album_name@) == title_key(album))
    &&& (fit == DurationFit::Unknown || fit == DurationFit::Close || (fit == DurationFit::Near
        && title_ok))
}

/// The first search result accepted as the played track.
pub fn pick_search_result(
    tracks: &Vec<MxmTrack>,
    fits: &Vec<DurationFit>,
    artist: &str,
    title: &str,
    album: &str,
) -> (r: Option<usize>)
    requires
        fits@.len() == tracks@.len(),
    ensures
        match r {
            Some(i) => i < tracks@.len() && track_fits(tracks@[i as int], artist@, title@, album@, fits@[i as int])
                && forall|j: int|
                0 <= j < i ==> !track_fits(tracks@[j], artist@, title@, album@, fits@[j]),
            None => forall|j: int|
                0 <= j < tracks@.len() ==> !track_fits(tracks@[j], artist@, title@, album@, fits@[j]),
        },
{
    let a = normalize_artist(artist);
    let t = normalize_title(title);
    let al = normalize_album(album);
    let mut i: usize = 0;
    while i < tracks.len()
        invariant
            i <= tracks@.len(),
            fits@.len() == tracks@.len(),
            a@ == artist_key(artist@),
            t@ == title_key(title@),
            al@ == title_key(album@),
            forall|j: int| 0 <= j < i ==> !track_fits(tracks@[j], artist@, title@, album@, fits@[j]),
        decreases tracks.len() - i,
    {
        let c = &tracks[i];
        let artist_ok = str_eq(normalize_artist(c.artist_name.as_str()).as_str(), a.as_str());
        let title_ok = str_eq(normalize_title(c.track_name.as_str()).as_str(), t.as_str());
        let album_ok = album.is_empty() || str_eq(
            normalize_album(c.album_name.as_str()).as_str(),
            al.as_str(),
        );
        let f = fits[i];
        let dur_ok = f == DurationFit::Unknown || f == DurationFit::Close || (f == DurationFit::Near
            && title_ok);
        if artist_ok && title_ok && album_ok && dur_ok {
            return Some(i);
        }
        i = i + 1;
    }
    None
}

/// The plain lyrics of a lyrics reply: none when restricted, else the
/// cleaned body.
pub fn mxm_plain_lyrics(body: &str, restricted: bool) -> (r: Option<String>)
    ensures
        opt_view(r) == (if restricted {
            None
        } else {
            cleaned_lyrics(body@)
        }),
{
    if restricted {
        None
    } else {
        clean_plain_lyrics(body)
    }
}

/// A Musixmatch lookup result: nothing when there are no lyrics of either
/// kind and the track is not instrumental.
pub fn musixmatch_result(plain: Option<String>, synced: Option<String>, instrumental: bool) -> (r: Option<
    LyricsResult,
>)
    ensures
        r is None <==> (plain is None && synced is None && !instrumental),
        r matches Some(l) ==> l.plain_lyrics == plain && l.synced_lyrics == synced && l.instrumental
            == instrumental && opt_view(l.provider) == Some("Musixmatch"@) && !l.cached,
{
    if plain.is_none() && synced.is_none() && !instrumental {
        return None;
    }
    Some(
        LyricsResult {
            plain_lyrics: plain,
            synced_lyrics: synced,
            instrumental,
            provider: Some("Musixmatch".to_string()),
            cached: false,
        },
    )
}

/// What a Musixmatch call comes to once its reply is judged: the body is
/// used, there is no answer, the token must be renewed and the call made
/// again, or the call failed.
pub enum MxmReplyAction {
    Use,
    Empty,
    RenewAndRetry,
    /// The token was renewed already and the server still asks for it.
    StillExpired,
    Fail(String),
}

/// The action for a reply: an expired token is renewed once, for the first
/// attempt only.
pub fn mxm_reply_action(outcome: MxmOutcome, retried: bool) -> (r: MxmReplyAction)
    ensures
        outcome is Body ==> r is Use,
        outcome is Nothing ==> r is Empty,
        outcome is TokenExpired && !retried ==> r is RenewAndRetry,
        outcome is TokenExpired && retried ==> r is StillExpired,
        outcome matches MxmOutcome::Failed(m) ==> (r matches MxmReplyAction::Fail(x) && x == m),
{
    match outcome {
        MxmOutcome::Body => MxmReplyAction::Use,
        MxmOutcome::Nothing => MxmReplyAction::Empty,
        MxmOutcome::TokenExpired => if retried {
            MxmReplyAction::StillExpired
        } else {
            MxmReplyAction::RenewAndRetry
        },
        MxmOutcome::Failed(m) => MxmReplyAction::Fail(m),
    }
}

/// A track that a lookup settled on: its id, and whether it is
/// instrumental.
#[derive(Clone, Copy, Debug, PartialEq, Eq, Structural)]
pub struct MxmFound {
    pub track_id: u64,
    pub instrumental: bool,
}

/// A search result with the fit of its length and what it identifies.
pub struct MxmCandidate {
    pub track: MxmTrack,
    pub fit: DurationFit,
    pub found: MxmFound,
}

/// Where a Musixmatch lookup stands.
pub enum MxmLookup {
    /// The matcher was asked.
    Matching,
    /// The search was asked.
    Searching,
    /// The plain lyrics of the track were asked.
    FetchingLyrics(MxmFound),
    /// The time-synced lyrics were asked; the plain ones are known.
    FetchingSubtitle(MxmFound, Option<String>),
    /// The lookup is over.
    Done,
}

/// What came back from the request a lookup made (a failed request reads as
/// no answer).
pub enum MxmEvent {
    /// The matcher's track, if any.
    Matched(Option<MxmFound>),
    /// The search results, in order.
    Searched(Vec<MxmCandidate>),
    /// The lyrics body and whether it is restricted, if any.
    Lyrics(Option<(String, bool)>),
    /// The subtitle body, if any.
    Subtitle(Option<String>),
}

/// What the caller does next: make a request, or report the result.
pub enum MxmAction {
    Request(String, Vec<(String, String)>),
    Finish(Option<LyricsResult>),
}

pub open spec fn search_params(title: Seq<char>, artist: Seq<char>) -> Seq<(Seq<char>, Seq<char>)> {
    seq![
        ("q_track"@, title),
        ("q_artist"@, artist),
        ("f_has_lyrics"@, "1"@),
        ("s_track_rating"@, "desc"@),
        ("page_size"@, "5"@),
        ("page"@, "1"@),
    ]
}

pub open spec fn lyrics_params(id: u64) -> Seq<(Seq<char>, Seq<char>)> {
    seq![("track_id"@, decimal(id as nat))]
}

pub open spec fn subtitle_params(id: u64, secs: u32) -> Seq<(Seq<char>, Seq<char>)> {
    seq![
        ("track_id"@, decimal(id as nat)),
        ("subtitle_format"@, "lrc"@),
        ("f_subtitle_length"@, decimal(secs as nat)),
        ("f_subtitle_length_max_deviation"@, "2"@),
    ]
}

pub open spec fn is_request(a: MxmAction, endpoint: Seq<char>, params: Seq<(Seq<char>, Seq<char>)>) -> bool {
    a matches MxmAction::Request(e, ps) && e@ == endpoint && pair_views(ps@) == params
}

pub open spec fn is_finish(a: MxmAction, plain: Option<Seq<char>>, synced: Option<Seq<char>>, instrumental: bool) -> bool {
    a matches MxmAction::Finish(r) && if plain is None && synced is None && !instrumental {
        r is None
    } else {
        r matches Some(l) && opt_view(l.plain_lyrics) == plain && opt_view(l.synced_lyrics) == synced
            && l.instrumental == instrumental && opt_view(l.provider) == Some("Musixmatch"@) && !l.cached
    }
}

/// How many requests a lookup may still make from a state.
pub open spec fn mxm_rank(s: MxmLookup) -> nat {
    match s {
        MxmLookup::Matching => 4,
        MxmLookup::Searching => 3,
        MxmLookup::FetchingLyrics(_) => 2,
        MxmLookup::FetchingSubtitle(_, _) => 1,
        MxmLookup::Done => 0,
    }
}

/// The first step of a lookup: ask the matcher.
pub fn mxm_start(title: &str, artist: &str, album: &str) -> (r: (MxmLookup, MxmAction))
    ensures
        r.0 is Matching,
        is_request(r.1, "matcher.track.get"@, seq![("q_track"@, title@), ("q_artist"@, artist@)] + (
        if album@.len() > 0 {
            seq![("q_album"@, album@)]
        } else {
            Seq::empty()
        })),
{
    (MxmLookup::Matching, MxmAction::Request("matcher.track.get".to_string(), matcher_query(title, artist, album)))
}

fn lyrics_request(f: MxmFound) -> (r: MxmAction)
    ensures
        is_request(r, "track.lyrics.get"@, lyrics_params(f.track_id)),
{
    let mut id: Vec<char> = Vec::new();
    push_decimal(&mut id, f.track_id);
    let mut ps: Vec<(String, String)> = Vec::new();
    ps.push(("track_id".to_string(), string_of(&id)));
    assert(pair_views(ps@) =~= lyrics_params(f.track_id));
    MxmAction::Request("track.lyrics.get".to_string(), ps)
}

pub open spec fn same_track(a: MxmTrack, b: MxmTrack) -> bool {
    a.track_name@ == b.track_name@ && a.artist_name@ == b.artist_name@ && a.album_name@ == b.album_name@
}

fn candidate_lists(cands: &Vec<MxmCandidate>) -> (r: (Vec<MxmTrack>, Vec<DurationFit>))
    ensures
        r.0@.len() == cands@.len(),
        r.1@.len() == cands@.len(),
        forall|i: int| 0 <= i < cands@.len() ==> same_track(#[trigger] r.0@[i], cands@[i].track),
        forall|i: int| 0 <= i < cands@.len() ==> #[trigger] r.1@[i] == cands@[i].fit,
{
    let mut ts: Vec<MxmTrack> = Vec::new();
    let mut fs: Vec<DurationFit> = Vec::new();
    let mut i: usize = 0;
    while i < cands.len()
        invariant
            i <= cands@.len(),
            ts@.len() == i,
            fs@.len() == i,
            forall|j: int| 0 <= j < i ==> same_track(#[trigger] ts@[j], cands@[j].track),
            forall|j: int| 0 <= j < i ==> #[trigger] fs@[j] == cands@[j].fit,
        decreases cands.len() - i,
    {
        let c = &cands[i];
        let t = MxmTrack {
            track_name: c.track.track_name.clone(),
            artist_name: c.track.artist_name.clone(),
            album_name: c.track.album_name.clone(),
        };
        ts.push(t);
        fs.push(c.fit);
        i = i + 1;
    }
    (ts, fs)
}

/// The search result a lookup settles on: the first that fits.
pub open spec fn first_fitting(cands: Seq<MxmCandidate>, artist: Seq<char>, title: Seq<char>, album: Seq<char>, i: int) -> bool {
    &&& 0 <= i < cands.len()
    &&& track_fits(cands[i].track, artist, title, album, cands[i].fit)
    &&& forall|j: int| 0 <= j < i ==> !track_fits(cands[j].track, artist, title, album, cands[j].fit)
}

/// One step of a lookup: the matcher's track, else the first fitting search
/// result, is read for plain lyrics and then, when the played duration (in
/// whole seconds) is known, for time-synced lyrics; the lookup then reports
/// what it found (nothing when there are no lyrics and the track is not
/// instrumental).  A reply that does not answer the pending request ends the
/// lookup with nothing.
pub fn mxm_step(
    state: MxmLookup,
    event: MxmEvent,
    title: &str,
    artist: &str,
    album: &str,
    duration_secs: Option<u32>,
) -> (r: (MxmLookup, MxmAction))
    ensures
        r.0 is Done <==> r.1 is Finish,
        r.0 is Done || mxm_rank(r.0) < mxm_rank(state),
        match (state, event) {
            (MxmLookup::Matching, MxmEvent::Matched(Some(f))) => r.0 == MxmLookup::FetchingLyrics(f)
                && is_request(r.1, "track.lyrics.get"@, lyrics_params(f.track_id)),
            (MxmLookup::Matching, MxmEvent::Matched(None)) => r.0 is Searching && is_request(
                r.1,
                "track.search"@,
                search_params(title@, artist@),
            ),
            (MxmLookup::Searching, MxmEvent::Searched(cands)) => if exists|i: int|
                first_fitting(cands@, artist@, title@, album@, i) {
                exists|i: int|
                    first_fitting(cands@, artist@, title@, album@, i) && r.0 == MxmLookup::FetchingLyrics(
                        cands@[i].found,
                    ) && is_request(r.1, "track.lyrics.get"@, lyrics_params(cands@[i].found.track_id))
            } else {
                r.0 is Done && r.1 matches MxmAction::Finish(None)
            },
            (MxmLookup::FetchingLyrics(f), MxmEvent::Lyrics(reply)) => {
                let plain = match reply {
                    Some((body, restricted)) => if restricted {
                        None
                    } else {
                        cleaned_lyrics(body@)
                    },
                    None => None,
                };
                match duration_secs {
                    Some(d) => (r.0 matches MxmLookup::FetchingSubtitle(g, p) && g == f && opt_view(p)
                        == plain) && is_request(
                        r.1,
                        "track.subtitle.get"@,
                        subtitle_params(f.track_id, d),
                    ),
                    None => r.0 is Done && is_finish(r.1, plain, None, f.instrumental),
                }
            },
            (MxmLookup::FetchingSubtitle(f, plain), MxmEvent::Subtitle(body)) => r.0 is Done && is_finish(
                r.1,
                opt_view(plain),
                match body {
                    Some(b) => cleaned_lyrics(b@),
                    None => None,
                },
                f.instrumental,
            ),
            _ => r.0 is Done && r.1 matches MxmAction::Finish(None),
        },
{
    match (state, event) {
        (MxmLookup::Matching, MxmEvent::Matched(Some(f))) => (MxmLookup::FetchingLyrics(f), lyrics_request(f)),
        (MxmLookup::Matching, MxmEvent::Matched(None)) => {
            let mut ps: Vec<(String, String)> = Vec::new();
            ps.push(("q_track".to_string(), title.to_string()));
            ps.push(("q_artist".to_string(), artist.to_string()));
            ps.push(("f_has_lyrics".to_string(), "1".to_string()));
            ps.push(("s_track_rating".to_string(), "desc".to_string()));
            ps.push(("page_size".to_string(), "5".to_string()));
            ps.push(("page".to_string(), "1".to_string()));
            assert(pair_views(ps@) =~= search_params(title@, artist@));
            (MxmLookup::Searching, MxmAction::Request("track.search".to_string(), ps))
        },
        (MxmLookup::Searching, MxmEvent::Searched(cands)) => {
            let (ts, fs) = candidate_lists(&cands);
            match pick_search_result(&ts, &fs, artist, title, album) {
                Some(i) => {
                    let f = cands[i].found;
                    proof {
                        assert(same_track(ts@[i as int], cands@[i as int].track));
                        assert(fs@[i as int] == cands@[i as int].fit);
                        assert forall|j: int| 0 <= j < i implies !track_fits(
                            cands@[j].track,
                            artist@,
                            title@,
                            album@,
                            cands@[j].fit,
                        ) by {
                            assert(same_track(ts@[j], cands@[j].track));
                            assert(fs@[j] == cands@[j].fit);
                        }
                        assert(first_fitting(cands@, artist@, title@, album@, i as int));
                    }
                    (MxmLookup::FetchingLyrics(f), lyrics_request(f))
                },
                None => {
                    proof {
                        assert forall|i: int| !first_fitting(cands@, artist@, title@, album@, i) by {
                            if 0 <= i < cands@.len() {
                                assert(same_track(ts@[i], cands@[i].track));
                                assert(fs@[i] == cands@[i].fit);
                            }
                        }
                    }
                    (MxmLookup::Done, MxmAction::Finish(None))
                },
            }
        },
        (MxmLookup::FetchingLyrics(f), MxmEvent::Lyrics(reply)) => {
            let plain = match reply {
                Some((body, restricted)) => mxm_plain_lyrics(body.as_str(), restricted),
                None => None,
            };
            match duration_secs {
                Some(d) => {
                    let mut id: Vec<char> = Vec::new();
                    push_decimal(&mut id, f.track_id);
                    let mut secs: Vec<char> = Vec::new();
                    push_decimal(&mut secs, d as u64);
                    let mut ps: Vec<(String, String)> = Vec::new();
                    ps.push(("track_id".to_string(), string_of(&id)));
                    ps.push(("subtitle_format".to_string(), "lrc".to_string()));
                    ps.push(("f_subtitle_length".to_string(), string_of(&secs)));
                    ps.push(("f_subtitle_length_max_deviation".to_string(), "2".to_string()));
                    assert(pair_views(ps@) =~= subtitle_params(f.track_id, d));
                    (
                        MxmLookup::FetchingSubtitle(f, plain),
                        MxmAction::Request("track.subtitle.get".to_string(), ps),
                    )
                },
                None => (MxmLookup::Done, MxmAction::Finish(musixmatch_result(plain, None, f.instrumental))),
            }
        },
        (MxmLookup::FetchingSubtitle(f, plain), MxmEvent::Subtitle(body)) => {
            let synced = match body {
                Some(b) => clean_plain_lyrics(b.as_str()),
                None => None,
            };
            (MxmLookup::Done, MxmAction::Finish(musixmatch_result(plain, synced, f.instrumental)))
        },
        _ => (MxmLookup::Done, MxmAction::Finish(None)),
    }
}

// ---------------------------------------------------------------------------
// Dates
// ---------------------------------------------------------------------------

/// The proleptic Gregorian date of a day counted from 1970-01-01 (Howard
/// Hinnant's `civil_from_days`): year, month and day.
pub open spec fn civil_from_days(days: int) -> (int, int, int) {
    let z = days + 719468;
    let era = (if z >= 0 {
        z
    } else {
        z - 146096
    }) / 146097;
    let doe = z - era * 146097;
    let yoe = (doe - doe / 1460 + doe / 36524 - doe / 146096) / 365;
    let doy = doe - (365 * yoe + yoe / 4 - yoe / 100);
    let mp = (5 * doy + 2) / 153;
    let d = doy - (153 * mp + 2) / 5 + 1;
    let m = if mp < 10 {
        mp + 3
    } else {
        mp - 9
    };
    let y = yoe + era * 400 + if m <= 2 {
        1int
    } else {
        0int
    };
    (y, m, d)
}

/// The date as eight digits `YYYYMMDD`.
pub open spec fn yyyymmdd(date: (int, int, int)) -> Seq<char> {
    zero_padded(date.0 as nat, 4) + zero_padded(date.1 as nat, 2) + zero_padded(date.2 as nat, 2)
}

/// The day count since 1970-01-01 of a Unix time in seconds.
pub open spec fn day_of(unix_secs: int) -> int {
    unix_secs / 86400
}

/// The UTC date of a Unix time in seconds as `YYYYMMDD`.
pub fn date_yyyymmdd(unix_secs: u64) -> (r: String)
    ensures
        r@ == yyyymmdd(civil_from_days(day_of(unix_secs as int))),
{
    let days: u64 = unix_secs / 86400;
    let z: u64 = days + 719468;
    let era: u64 = z / 146097;
    let doe: u64 = z - era * 146097;
    let yoe: u64 = (doe - doe / 1460 + doe / 36524 - doe / 146096) / 365;
    let doy: u64 = doe - (365 * yoe + yoe / 4 - yoe / 100);
    let mp: u64 = (5 * doy + 2) / 153;
    let d: u64 = doy - (153 * mp + 2) / 5 + 1;
    let m: u64 = if mp < 10 {
        mp + 3
    } else {
        mp - 9
    };
    let y: u64 = yoe + era * 400 + if m <= 2 {
        1
    } else {
        0
    };
    let mut v: Vec<char> = Vec::new();
    push_zero_padded(&mut v, y, 4);
    push_zero_padded(&mut v, m, 2);
    push_zero_padded(&mut v, d, 2);
    string_of(&v)
}

/// `SystemTime::now().duration_since(UNIX_EPOCH)` in whole seconds, zero
/// when the clock reads before the epoch.  Which time it reads is not
/// stated.
#[verifier::external_body]
fn unix_now_secs() -> u64 {
    std::time::SystemTime::now().duration_since(std::time::UNIX_EPOCH).unwrap_or_default().as_secs()
}

/// Today's UTC date as `YYYYMMDD`, by the system clock.
pub fn today_yyyymmdd() -> (r: String)
    ensures
        exists|t: u64| r@ == yyyymmdd(civil_from_days(day_of(t as int))),
{
    let t = unix_now_secs();
    date_yyyymmdd(t)
}


// ---------------------------------------------------------------------------
// Musixmatch requests
// ---------------------------------------------------------------------------

pub const MXM_API_URL: &'static str = "https://apic.musixmatch.com/ws/1.1/";

pub const MXM_APP_ID: &'static str = "android-player-v1.0";

pub const MXM_SIG_SECRET: &'static str = "mNdca@6W7TeEcFn6*3.s97sJ*yPMd";

/// The HMAC-SHA1 of `data` under `key`.
pub uninterp spec fn hmac_sha1_of(key: Seq<u8>, data: Seq<u8>) -> Seq<u8>;

/// `Hmac::<Sha1>::new_from_slice(key)`, `update(data)`, `finalize()`: the
/// 20-byte HMAC-SHA1 tag.  HMAC accepts keys of any length, so creating the
/// MAC never fails.
#[verifier::external_body]
fn hmac_sha1(key: &[u8], data: &[u8]) -> (r: Vec<u8>)
    ensures
        r@ == hmac_sha1_of(key@, data@),
        r@.len() == 20,
{
    let mut mac = hmac::Hmac::<sha1::Sha1>::new_from_slice(key).expect("HMAC accepts any key length");
    mac.update(data);
    mac.finalize().into_bytes().to_vec()
}

/// The request signature: the base64 HMAC-SHA1 of the URL followed by the
/// date, under the app secret, with a trailing newline.
pub open spec fn mxm_signature(url: Seq<char>, date: Seq<char>) -> Seq<char> {
    base64_of(hmac_sha1_of(encode_utf8(MXM_SIG_SECRET@), encode_utf8(url + date))) + seq!['\n']
}

/// A URL with its signature and the signature protocol appended.
pub open spec fn signed_url_spec(url: Seq<char>, date: Seq<char>) -> Option<Seq<char>> {
    url_with_query_pairs(
        url,
        seq![("signature"@, mxm_signature(url, date)), ("signature_protocol"@, "sha1"@)],
    )
}

/// Signs a request URL for the day `date` (`YYYYMMDD`).
pub fn mxm_sign(url: &str, date: &str) -> (r: Option<String>)
    ensures
        opt_view(r) == signed_url_spec(url@, date@),
{
    let mut data = chars_of(url);
    extend_chars(&mut data, &chars_of(date));
    let d = string_of(&data);
    let mac = hmac_sha1(MXM_SIG_SECRET.as_bytes(), d.as_str().as_bytes());
    let b64 = base64_standard(mac.as_slice());
    let mut sig = chars_of(b64.as_str());
    sig.push('\n');
    assert(d@ == url@ + date@);
    assert(mac@ == hmac_sha1_of(encode_utf8(MXM_SIG_SECRET@), encode_utf8(url@ + date@)));
    assert(sig@ =~= mxm_signature(url@, date@));
    let mut ps: Vec<(String, String)> = Vec::new();
    ps.push(("signature".to_string(), string_of(&sig)));
    ps.push(("signature_protocol".to_string(), "sha1".to_string()));
    assert(pair_views(ps@) =~= seq![
        ("signature"@, mxm_signature(url@, date@)),
        ("signature_protocol"@, "sha1"@),
    ]);
    match parse_url_with_pairs(url, &ps) {
        Some(u) => Some(u),
        None => None,
    }
}

/// Parses `base` with `pairs` appended, then signs it.
pub open spec fn signed_request_spec(base: Seq<char>, pairs: Seq<(Seq<char>, Seq<char>)>, date: Seq<char>) -> Option<Seq<char>> {
    match url_with_query_pairs(base, pairs) {
        Some(u) => signed_url_spec(u, date),
        None => None,
    }
}

fn signed_request(base: &str, pairs: &Vec<(String, String)>, date: &str) -> (r: Option<String>)
    ensures
        opt_view(r) == signed_request_spec(base@, pair_views(pairs@), date@),
{
    match parse_url_with_pairs(base, pairs) {
        Some(u) => mxm_sign(u.as_str(), date),
        None => None,
    }
}

fn endpoint_url(endpoint: &str) -> (r: String)
    ensures
        r@ == MXM_API_URL@ + endpoint@,
{
    let mut v = chars_of(MXM_API_URL);
    extend_chars(&mut v, &chars_of(endpoint));
    string_of(&v)
}

/// The signed URL of an API call: the app id, the user token and the JSON
/// format, then the call's own parameters.
pub fn api_url(endpoint: &str, token: &str, extra: &Vec<(String, String)>, date: &str) -> (r: Option<String>)
    ensures
        opt_view(r) == signed_request_spec(
            MXM_API_URL@ + endpoint@,
            seq![("app_id"@, MXM_APP_ID@), ("usertoken"@, token@), ("format"@, "json"@)] + pair_views(
                extra@,
            ),
            date@,
        ),
{
    let mut ps: Vec<(String, String)> = Vec::new();
    ps.push(("app_id".to_string(), MXM_APP_ID.to_string()));
    ps.push(("usertoken".to_string(), token.to_string()));
    ps.push(("format".to_string(), "json".to_string()));
    let ghost head = pair_views(ps@);
    let mut i: usize = 0;
    while i < extra.len()
        invariant
            i <= extra@.len(),
            pair_views(ps@) == head + pair_views(extra@).take(i as int),
        decreases extra.len() - i,
    {
        let ghost prev = pair_views(ps@);
        let k = extra[i].0.clone();
        let v = extra[i].1.clone();
        ps.push((k, v));
        proof {
            assert(pair_views(ps@) =~= prev.push(pair_views(extra@)[i as int]));
            assert(pair_views(extra@).take(i + 1) =~= pair_views(extra@).take(i as int).push(
                pair_views(extra@)[i as int],
            ));
        }
        i = i + 1;
    }
    proof {
        assert(pair_views(extra@).take(extra@.len() as int) == pair_views(extra@));
        assert(head =~= seq![("app_id"@, MXM_APP_ID@), ("usertoken"@, token@), ("format"@, "json"@)]);
    }
    signed_request(endpoint_url(endpoint).as_str(), &ps, date)
}

/// The parameters of a token request for a device.
pub open spec fn token_params(adv_id: Seq<char>, guid: Seq<char>) -> Seq<(Seq<char>, Seq<char>)> {
    seq![
        ("app_id"@, MXM_APP_ID@),
        ("format"@, "json"@),
        ("adv_id"@, adv_id),
        ("guid"@, guid),
        ("root"@, "0"@),
        ("sideloaded"@, "0"@),
        ("build_number"@, "2022090901"@),
        ("lang"@, "en_US"@),
    ]
}

/// The signed URL that asks for a new user token.
pub fn token_request_url(adv_id: &str, guid: &str, date: &str) -> (r: Option<String>)
    ensures
        opt_view(r) == signed_request_spec(
            MXM_API_URL@ + "token.get"@,
            token_params(adv_id@, guid@),
            date@,
        ),
{
    let mut ps: Vec<(String, String)> = Vec::new();
    ps.push(("app_id".to_string(), MXM_APP_ID.to_string()));
    ps.push(("format".to_string(), "json".to_string()));
    ps.push(("adv_id".to_string(), adv_id.to_string()));
    ps.push(("guid".to_string(), guid.to_string()));
    ps.push(("root".to_string(), "0".to_string()));
    ps.push(("sideloaded".to_string(), "0".to_string()));
    ps.push(("build_number".to_string(), "2022090901".to_string()));
    ps.push(("lang".to_string(), "en_US".to_string()));
    assert(pair_views(ps@) =~= token_params(adv_id@, guid@));
    signed_request(endpoint_url("token.get").as_str(), &ps, date)
}

/// The token of a token reply.
pub fn token_from_reply(token: Option<String>) -> (r: Result<String, String>)
    ensures
        r is Ok <==> token is Some,
        r matches Ok(t) ==> t == token->0,
        r matches Err(e) ==> e@ == "no token in response"@,
{
    match token {
        Some(t) => Ok(t),
        None => Err("no token in response".to_string()),
    }
}

/// An advertising id in UUID layout from five random numbers (the last
/// one cut to 48 bits).
pub open spec fn adv_id_spec(a: u32, b: u16, c: u16, d: u16, e: u64) -> Seq<char> {
    hex_padded(a as nat, 8) + seq!['-'] + hex_padded(b as nat, 4) + seq!['-'] + hex_padded(
        c as nat,
        4,
    ) + seq!['-'] + hex_padded(d as nat, 4) + seq!['-'] + hex_padded(
        (e % 0x1000000000000) as nat,
        12,
    )
}

pub fn adv_id_of(a: u32, b: u16, c: u16, d: u16, e: u64) -> (r: String)
    ensures
        r@ == adv_id_spec(a, b, c, d, e),
{
    let mut v: Vec<char> = Vec::new();
    push_hex_padded(&mut v, a as u64, 8);
    v.push('-');
    push_hex_padded(&mut v, b as u64, 4);
    v.push('-');
    push_hex_padded(&mut v, c as u64, 4);
    v.push('-');
    push_hex_padded(&mut v, d as u64, 4);
    v.push('-');
    let low: u64 = e & 0xffffffffffff;
    assert(low == e % 0x1000000000000) by (bit_vector)
        requires
            low == e & 0xffffffffffff,
    ;
    push_hex_padded(&mut v, low, 12);
    string_of(&v)
}

/// A device guid: sixteen hexadecimal digits.
pub fn guid_of(g: u64) -> (r: String)
    ensures
        r@ == hex_padded(g as nat, 16),
{
    let mut v: Vec<char> = Vec::new();
    push_hex_padded(&mut v, g, 16);
    string_of(&v)
}

/// `rand::rng().random::<u32>()`: a random number.
#[verifier::external_body]
fn random_u32() -> u32 {
    rand::rng().random::<u32>()
}

/// `rand::rng().random::<u16>()`: a random number.
#[verifier::external_body]
fn random_u16() -> u16 {
    rand::rng().random::<u16>()
}

/// `rand::rng().random::<u64>()`: a random number.
#[verifier::external_body]
fn random_u64() -> u64 {
    rand::rng().random::<u64>()
}

/// A fresh advertising id and device guid for a token request.
pub fn new_device_ids() -> (r: (String, String))
    ensures
        exists|a: u32, b: u16, c: u16, d: u16, e: u64, g: u64|
            r.0@ == adv_id_spec(a, b, c, d, e) && r.1@ == hex_padded(g as nat, 16),
{
    let a = random_u32();
    let b = random_u16();
    let c = random_u16();
    let d = random_u16();
    let e = random_u64();
    let g = random_u64();
    (adv_id_of(a, b, c, d, e), guid_of(g))
}

/// Genius pages give plain lyrics; a lookup result from them.
pub fn genius_result(plain: String, synced: Option<String>) -> (r: LyricsResult)
    ensures
        r.plain_lyrics == Some(plain),
        r.synced_lyrics == synced,
        !r.instrumental,
        opt_view(r.provider) == Some("Genius"@),
        !r.cached,
{
    LyricsResult {
        plain_lyrics: Some(plain),
        synced_lyrics: synced,
        instrumental: false,
        provider: Some("Genius".to_string()),
        cached: false,
    }
}

/// The timestamp of a synchronised lyrics line, `[mm:ss.mmm]`, for a time
/// in milliseconds.
pub open spec fn lrc_timestamp_spec(total_ms: nat) -> Seq<char> {
    seq!['['] + zero_padded(total_ms / 60000, 2) + seq![':'] + zero_padded((total_ms % 60000) / 1000, 2)
        + seq!['.'] + zero_padded(total_ms % 1000, 3) + seq![']']
}

pub fn lrc_timestamp(total_ms: u64) -> (r: String)
    ensures
        r@ == lrc_timestamp_spec(total_ms as nat),
{
    let mut v: Vec<char> = Vec::new();
    v.push('[');
    push_zero_padded(&mut v, total_ms / 60000, 2);
    v.push(':');
    push_zero_padded(&mut v, (total_ms % 60000) / 1000, 2);
    v.push('.');
    push_zero_padded(&mut v, total_ms % 1000, 3);
    v.push(']');
    string_of(&v)
}

// ---------------------------------------------------------------------------
// Genius lookups
// ---------------------------------------------------------------------------

/// The number of words of the lines, in total.
pub open spec fn total_words(ls: Seq<Seq<char>>) -> nat
    decreases ls.len(),
{
    if ls.len() == 0 {
        0
    } else {
        total_words(ls.drop_last()) + words(ls.last()).len()
    }
}

/// The total length of the pieces.
pub open spec fn total_len(ls: Seq<Seq<char>>) -> nat
    decreases ls.len(),
{
    if ls.len() == 0 {
        0
    } else {
        total_len(ls.drop_last()) + ls.last().len()
    }
}

proof fn lemma_words_len_le(s: Seq<char>)
    ensures
        words(s).len() <= s.len(),
    decreases s.len(),
{
    if s.len() > 0 {
        lemma_words_len_le(s.drop_last());
        if !is_ws(s.last()) && s.len() >= 2 && !is_ws(s[s.len() - 2]) {
            assert(s.drop_last().last() == s[s.len() - 2]);
            crate::text::lemma_words_nonempty(s.drop_last());
        }
    }
}

proof fn lemma_trim_len_le(s: Seq<char>)
    ensures
        trim(s).len() <= s.len(),
{
    lemma_trim_start_len_le(s);
    lemma_trim_end_len_le(trim_start(s));
}

proof fn lemma_trim_start_len_le(s: Seq<char>)
    ensures
        trim_start(s).len() <= s.len(),
    decreases s.len(),
{
    if s.len() > 0 && is_ws(s[0]) {
        lemma_trim_start_len_le(s.drop_first());
    }
}

proof fn lemma_trim_end_len_le(s: Seq<char>)
    ensures
        trim_end(s).len() <= s.len(),
    decreases s.len(),
{
    if s.len() > 0 && is_ws(s.last()) {
        lemma_trim_end_len_le(s.drop_last());
    }
}

proof fn lemma_split_total_len(s: Seq<char>, c: char)
    ensures
        total_len(split_on(s, c)) <= s.len(),
    decreases s.len(),
{
    if s.len() > 0 {
        lemma_split_total_len(s.drop_last(), c);
        lemma_split_on_nonempty(s.drop_last(), c);
        let p = split_on(s.drop_last(), c);
        assert(s == s.drop_last().push(s.last()));
        crate::text::lemma_split_on_step(s.drop_last(), s.last(), c);
        if s.last() == c {
            assert(p.push(seq![]).drop_last() == p);
            assert(total_len(p.push(seq![])) == total_len(p) + 0);
        } else {
            let q = p.update(p.len() - 1, p.last().push(s.last()));
            assert(p.len() > 0);
            assert(q.drop_last() == p.drop_last());
            assert(q.last() == p.last().push(s.last()));
            assert(total_len(q) == total_len(q.drop_last()) + q.last().len());
            assert(total_len(p) == total_len(p.drop_last()) + p.last().len());
        }
    } else {
        let e: Seq<Seq<char>> = seq![seq![]];
        assert(e.drop_last() =~= Seq::<Seq<char>>::empty());
        assert(total_len(e) == total_len(e.drop_last()) + e.last().len());
    }
}

proof fn lemma_timed_total(ls: Seq<Seq<char>>)
    ensures
        timed_lines(ls) matches Some(out) ==> total_words(out) <= total_len(ls),
    decreases ls.len(),
{
    if ls.len() > 0 {
        lemma_timed_total(ls.drop_last());
        let t = trim(ls.last());
        lemma_trim_len_le(ls.last());
        lemma_words_len_le(t);
        match timed_lines(ls.drop_last()) {
            Some(prev) => {
                assert(prev.push(t).drop_last() == prev);
            },
            None => {},
        }
    }
}

proof fn lemma_total_words_prefix(ls: Seq<Seq<char>>, i: int)
    requires
        0 <= i <= ls.len(),
    ensures
        total_words(ls.take(i)) <= total_words(ls),
    decreases ls.len() - i,
{
    if i < ls.len() {
        lemma_total_words_prefix(ls, i + 1);
        assert(ls.take(i + 1).drop_last() == ls.take(i));
    } else {
        assert(ls.take(i) == ls);
    }
}

/// `x / t` rounded to the nearest whole number, halves upward.
pub open spec fn round_div(x: nat, t: nat) -> nat {
    ((2 * x + t) / (2 * t)) as nat
}

/// The time of line `i` of the timed lines, in milliseconds of a track of
/// `duration_ms`: the share of the words before it, of all the words (or,
/// with no words at all, of the lines before it), rounded.  The duration is
/// taken in whole milliseconds and the share computed exactly, so a stamp
/// can differ by a millisecond from one accumulated in floating point from
/// the duration in seconds.
pub open spec fn line_stamp_ms(ls: Seq<Seq<char>>, i: int, duration_ms: nat) -> nat {
    let t = total_words(ls);
    if t > 0 {
        round_div(duration_ms * total_words(ls.take(i)), t)
    } else {
        round_div(duration_ms * (i as nat), ls.len())
    }
}

/// Each timed line behind its `[mm:ss.mmm]` stamp.
pub open spec fn stamped_lines(ls: Seq<Seq<char>>, duration_ms: nat) -> Seq<Seq<char>> {
    Seq::new(ls.len(), |i: int| lrc_timestamp_spec(line_stamp_ms(ls, i, duration_ms)) + ls[i])
}

/// Synchronised lyrics made up from plain ones: the timed lines (see
/// `timed_lines`), each stamped, one per line; none when no line is left.
pub open spec fn genius_synced_spec(plain: Seq<char>, duration_ms: nat) -> Option<Seq<char>> {
    match timed_lines(split_on(plain, '\n')) {
        Some(ls) => if ls.len() == 0 {
            None
        } else {
            Some(join(stamped_lines(ls, duration_ms), seq!['\n']))
        },
        None => None,
    }
}

proof fn lemma_round_div(x: nat, t: nat)
    requires
        t > 0,
    ensures
        x / t + (if 2 * (x % t) >= t { 1int } else { 0int }) == round_div(x, t),
{
    let q = x / t;
    let r = x % t;
    assert(x == q * t + r && 0 <= r < t) by (nonlinear_arith)
        requires
            t > 0,
            q == x / t,
            r == x % t,
    ;
    if 2 * r >= t {
        assert((2 * x + t) / (2 * t) == q + 1) by (nonlinear_arith)
            requires
                x == q * t + r,
                0 <= r < t,
                2 * r >= t,
                t > 0,
        ;
    } else {
        assert((2 * x + t) / (2 * t) == q) by (nonlinear_arith)
            requires
                x == q * t + r,
                0 <= r < t,
                2 * r < t,
                t > 0,
        ;
    }
}

proof fn lemma_round_div_le(d: nat, p: nat, t: nat)
    requires
        t > 0,
        p <= t,
    ensures
        round_div(d * p, t) <= d,
{
    assert((2 * (d * p) + t) / (2 * t) <= d) by (nonlinear_arith)
        requires
            t > 0,
            p <= t,
    ;
}

/// `round_div(d * p, t)` for a share `p <= t` of a duration.
fn stamp_of(d: u64, p: u64, t: u64) -> (r: u64)
    requires
        t > 0,
        p <= t,
    ensures
        r == round_div(d as nat * p as nat, t as nat),
{
    assert((d as u128) * (p as u128) <= u128::MAX) by (nonlinear_arith)
        requires
            d <= u64::MAX,
            p <= u64::MAX,
    ;
    let x: u128 = (d as u128) * (p as u128);
    let q: u128 = x / (t as u128);
    let rem: u128 = x % (t as u128);
    proof {
        lemma_round_div(x as nat, t as nat);
        lemma_round_div_le(d as nat, p as nat, t as nat);
    }
    let up: u128 = if 2 * rem >= t as u128 { 1 } else { 0 };
    (q + up) as u64
}

/// Synchronised lyrics made up from plain lyrics for a track of
/// `duration_ms` milliseconds (see `genius_synced_spec`).
pub fn genius_synced(plain: &str, duration_ms: u64) -> (r: Option<String>)
    ensures
        opt_view(r) == genius_synced_spec(plain@, duration_ms as nat),
{
    let pv = chars_of(plain);
    let (lines, counts) = match lyric_lines(plain) {
        Some(x) => x,
        None => return None,
    };
    let n = lines.len();
    if n == 0 {
        return None;
    }
    let ghost ls = string_views(lines@);
    proof {
        lemma_timed_total(split_on(plain@, '\n'));
        lemma_split_total_len(plain@, '\n');
        assert(total_words(ls) <= pv@.len());
        assert(pv@.len() == pv.len());
    }
    let mut t: usize = 0;
    let mut i: usize = 0;
    while i < n
        invariant
            i <= n == lines@.len() == counts@.len() == ls.len(),
            ls == string_views(lines@),
            forall|k: int| 0 <= k < counts@.len() ==> #[trigger] counts@[k] == words(lines@[k]@).len(),
            total_words(ls) <= pv@.len() <= usize::MAX,
            t == total_words(ls.take(i as int)),
        decreases n - i,
    {
        proof {
            assert(ls.take(i + 1).drop_last() == ls.take(i as int));
            assert(ls.take(i + 1).last() == lines@[i as int]@);
            lemma_total_words_prefix(ls, i + 1);
        }
        t = t + counts[i];
        i = i + 1;
    }
    assert(ls.take(n as int) == ls);
    let ghost st = stamped_lines(ls, duration_ms as nat);
    let mut out: Vec<char> = Vec::new();
    let mut p: usize = 0;
    let mut j: usize = 0;
    while j < n
        invariant
            j <= n == lines@.len() == counts@.len() == ls.len(),
            n > 0,
            ls == string_views(lines@),
            st == stamped_lines(ls, duration_ms as nat),
            forall|k: int| 0 <= k < counts@.len() ==> #[trigger] counts@[k] == words(lines@[k]@).len(),
            t == total_words(ls),
            total_words(ls) <= usize::MAX,
            p == total_words(ls.take(j as int)),
            out@ == join(st.take(j as int), seq!['\n']),
        decreases n - j,
    {
        proof {
            lemma_total_words_prefix(ls, j as int);
            assert(ls.take(j + 1).drop_last() == ls.take(j as int));
            assert(ls.take(j + 1).last() == lines@[j as int]@);
            lemma_total_words_prefix(ls, j + 1);
        }
        let stamp: u64 = if t > 0 {
            stamp_of(duration_ms, p as u64, t as u64)
        } else {
            stamp_of(duration_ms, j as u64, n as u64)
        };
        let mut item = chars_of(lrc_timestamp(stamp).as_str());
        extend_chars(&mut item, &chars_of(lines[j].as_str()));
        proof {
            assert(item@ == st[j as int]);
            lemma_join_push(st.take(j as int), seq!['\n'], st[j as int]);
            assert(st.take(j + 1) == st.take(j as int).push(st[j as int]));
        }
        if j > 0 {
            out.push('\n');
        }
        extend_chars(&mut out, &item);
        p = p + counts[j];
        j = j + 1;
    }
    assert(st.take(n as int) == st);
    Some(string_of(&out))
}

/// Whether a fetched page gives lyrics once cleaned.
pub open spec fn page_cleans(page: Option<String>) -> bool {
    page matches Some(t) && cleaned_lyrics(t@) is Some
}

/// Page `i` is the first that gives lyrics.
pub open spec fn first_clean_page(pages: Seq<Option<String>>, i: int) -> bool {
    &&& 0 <= i < pages.len()
    &&& page_cleans(pages[i])
    &&& forall|j: int| 0 <= j < i ==> !page_cleans(#[trigger] pages[j])
}

/// A Genius lookup over the pages fetched for the candidate URLs, in order
/// (`None` for a page that could not be fetched): the first page whose
/// cleaned text gives lyrics is used, with synchronised lyrics made up
/// from it when the track's duration (in milliseconds) is known; nothing
/// when no page gives lyrics.
pub fn genius_lookup(pages: &Vec<Option<String>>, duration_ms: Option<u64>) -> (r: Option<LyricsResult>)
    ensures
        r is None <==> forall|j: int| 0 <= j < pages@.len() ==> !page_cleans(#[trigger] pages@[j]),
        r matches Some(l) ==> exists|i: int|
            #![trigger pages@[i]]
            first_clean_page(pages@, i) && {
                let plain = cleaned_lyrics(pages@[i]->0@)->0;
                &&& opt_view(l.plain_lyrics) == Some(plain)
                &&& opt_view(l.synced_lyrics) == match duration_ms {
                    Some(d) => genius_synced_spec(plain, d as nat),
                    None => None,
                }
                &&& !l.instrumental
                &&& opt_view(l.provider) == Some("Genius"@)
                &&& !l.cached
            },
{
    let mut i: usize = 0;
    while i < pages.len()
        invariant
            i <= pages@.len(),
            forall|j: int| 0 <= j < i ==> !page_cleans(#[trigger] pages@[j]),
        decreases pages.len() - i,
    {
        match &pages[i] {
            Some(text) => {
                match clean_plain_lyrics(text.as_str()) {
                    Some(plain) => {
                        let synced = match duration_ms {
                            Some(d) => genius_synced(plain.as_str(), d),
                            None => None,
                        };
                        let r = genius_result(plain, synced);
                        proof {
                            assert(first_clean_page(pages@, i as int));
                        }
                        return Some(r);
                    },
                    None => {},
                }
            },
            None => {},
        }
        i = i + 1;
    }
    None
}

// ---------------------------------------------------------------------------
// Reply texts
// ---------------------------------------------------------------------------

/// An LRCLIB record text: nothing when it is not JSON, else the record read
/// by `lrclib_result` (a missing `instrumental` reads as false).
pub fn lrclib_record(text: &str) -> (r: Option<LyricsResult>)
    ensures
        json_error_of(text@) is Some ==> r is None,
        json_error_of(text@) is None ==> match r {
            Some(l) => lrclib_result_spec(
                json_str_at(text@, "/plainLyrics"@),
                json_str_at(text@, "/syncedLyrics"@),
                json_bool_at(text@, "/instrumental"@) == Some(true),
            ) == Some(result_view(l)) && opt_view(l.provider) == Some("LRCLIB"@) && !l.cached,
            None => lrclib_result_spec(
                json_str_at(text@, "/plainLyrics"@),
                json_str_at(text@, "/syncedLyrics"@),
                json_bool_at(text@, "/instrumental"@) == Some(true),
            ) is None,
        },
{
    if json_syntax(text).is_err() {
        return None;
    }
    let instrumental = match json_bool(text, "/instrumental") {
        Some(b) => b,
        None => false,
    };
    lrclib_result(json_str(text, "/plainLyrics"), json_str(text, "/syncedLyrics"), instrumental)
}

/// The user token of a Musixmatch `token.get` reply text: the parse error,
/// the token, or an error when there is none.
pub fn musixmatch_token(text: &str) -> (r: Result<String, String>)
    ensures
        match json_error_of(text@) {
            Some(m) => r matches Err(e) && e@ == m,
            None => match json_str_at(text@, "/message/body/user_token"@) {
                Some(t) => r matches Ok(u) && u@ == t,
                None => r matches Err(e) && e@ == "no token in response"@,
            },
        },
{
    json_syntax(text)?;
    token_from_reply(json_str(text, "/message/body/user_token"))
}

/// What a Musixmatch reply's header says: its status code (0 when missing
/// or out of range), its hint (empty when missing), and whether a non-null
/// body came with it; or the parse error.
pub fn mxm_reply(text: &str) -> (r: Result<(u16, String, bool), String>)
    ensures
        match json_error_of(text@) {
            Some(m) => r matches Err(e) && e@ == m,
            None => r matches Ok(x) && x.0 == (match json_u64_at(text@, "/message/header/status_code"@) {
                Some(c) => if c <= 0xffff {
                    c as u16
                } else {
                    0u16
                },
                None => 0u16,
            }) && x.1@ == str_or_empty(json_str_at(text@, "/message/header/hint"@)) && x.2 == (json_null_at(
                text@,
                "/message/body"@,
            ) == Some(false)),
        },
{
    json_syntax(text)?;
    let code: u16 = match json_u64(text, "/message/header/status_code") {
        Some(c) => if c <= 0xffff {
            c as u16
        } else {
            0
        },
        None => 0,
    };
    let hint = string_or_empty(json_str(text, "/message/header/hint"));
    let body = match json_null(text, "/message/body") {
        Some(n) => !n,
        None => false,
    };
    Ok((code, hint, body))
}

/// The track a reply identifies at `track`: its id, and whether it is
/// instrumental; nothing without an integer `track_id`.
pub open spec fn mxm_found_spec(text: Seq<char>, track: Seq<char>) -> Option<(u64, bool)> {
    match json_u64_at(text, json_member(track, "track_id"@)) {
        Some(id) => Some((id, json_flag_at(text, json_member(track, "instrumental"@)))),
        None => None,
    }
}

/// Reads the track at `track` of a reply text.
pub fn mxm_found_at(text: &str, track: &str) -> (r: Option<MxmFound>)
    ensures
        match mxm_found_spec(text@, track@) {
            Some(f) => r matches Some(x) && x.track_id == f.0 && x.instrumental == f.1,
            None => r is None,
        },
{
    match json_u64(text, member(track, "track_id").as_str()) {
        Some(id) => Some(MxmFound { track_id: id, instrumental: json_flag(text, member(track, "instrumental").as_str()) }),
        None => None,
    }
}

pub const MXM_TRACK_LIST: &'static str = "/message/body/track_list";

pub open spec fn candidate_view(c: MxmCandidate) -> (Seq<char>, Seq<char>, Seq<char>, DurationFit, u64, bool) {
    (c.track.track_name@, c.track.artist_name@, c.track.album_name@, c.fit, c.found.track_id, c.found.instrumental)
}

/// The search result at `item`, with the fit of its length given.
pub open spec fn mxm_candidate_spec(text: Seq<char>, item: Seq<char>, fit: DurationFit) -> Option<
    (Seq<char>, Seq<char>, Seq<char>, DurationFit, u64, bool),
> {
    let t = json_member(item, "track"@);
    match mxm_found_spec(text, t) {
        Some(f) => Some(
            (
                str_or_empty(json_str_at(text, json_member(t, "track_name"@))),
                str_or_empty(json_str_at(text, json_member(t, "artist_name"@))),
                str_or_empty(json_str_at(text, json_member(t, "album_name"@))),
                fit,
                f.0,
                f.1,
            ),
        ),
        None => None,
    }
}

pub open spec fn fit_at(fits: Seq<DurationFit>, i: int) -> DurationFit {
    if 0 <= i < fits.len() {
        fits[i]
    } else {
        DurationFit::Unknown
    }
}

/// The search results among the first `k` entries of the track list.
pub open spec fn mxm_candidates_upto(text: Seq<char>, fits: Seq<DurationFit>, k: int) -> Seq<
    (Seq<char>, Seq<char>, Seq<char>, DurationFit, u64, bool),
>
    decreases k,
{
    if k <= 0 {
        Seq::empty()
    } else {
        let prev = mxm_candidates_upto(text, fits, k - 1);
        match mxm_candidate_spec(text, json_member(MXM_TRACK_LIST@, decimal((k - 1) as nat)), fit_at(fits, k - 1)) {
            Some(c) => prev.push(c),
            None => prev,
        }
    }
}

/// The search results of a `track.search` reply text, in order: each entry
/// of the track list with an integer `track_id`, the fit of its length taken
/// from `fits` at its position (unknown past its end).
pub fn mxm_candidates(text: &str, fits: &Vec<DurationFit>) -> (r: Vec<MxmCandidate>)
    ensures
        r@.map_values(|c: MxmCandidate| candidate_view(c)) == mxm_candidates_upto(
            text@,
            fits@,
            match json_len_at(text@, MXM_TRACK_LIST@) {
                Some(n) => n as int,
                None => 0,
            },
        ),
{
    let n = match json_len(text, MXM_TRACK_LIST) {
        Some(n) => n,
        None => 0,
    };
    let mut out: Vec<MxmCandidate> = Vec::new();
    let mut i: usize = 0;
    while i < n
        invariant
            i <= n,
            out@.map_values(|c: MxmCandidate| candidate_view(c)) == mxm_candidates_upto(text@, fits@, i as int),
        decreases n - i,
    {
        let item = element(MXM_TRACK_LIST, i);
        let t = member(item.as_str(), "track");
        let fit = if i < fits.len() {
            fits[i]
        } else {
            DurationFit::Unknown
        };
        match mxm_found_at(text, t.as_str()) {
            Some(found) => {
                let c = MxmCandidate {
                    track: MxmTrack {
                        track_name: string_or_empty(json_str(text, member(t.as_str(), "track_name").as_str())),
                        artist_name: string_or_empty(json_str(text, member(t.as_str(), "artist_name").as_str())),
                        album_name: string_or_empty(json_str(text, member(t.as_str(), "album_name").as_str())),
                    },
                    fit,
                    found,
                };
                let ghost before = out@;
                out.push(c);
                proof {
                    assert(out@.map_values(|c: MxmCandidate| candidate_view(c)) == before.map_values(
                        |c: MxmCandidate| candidate_view(c),
                    ).push(candidate_view(c)));
                }
            },
            None => {},
        }
        i = i + 1;
    }
    out
}

/// The lyrics of a `track.lyrics.get` reply text, when it has a `lyrics`
/// member: its body (empty when missing) and whether it is restricted.
pub fn mxm_lyrics_at(text: &str) -> (r: Option<(String, bool)>)
    ensures
        match json_null_at(text@, "/message/body/lyrics"@) {
            Some(_) => r matches Some(x) && x.0@ == str_or_empty(
                json_str_at(text@, "/message/body/lyrics/lyrics_body"@),
            ) && x.1 == json_flag_at(text@, "/message/body/lyrics/restricted"@),
            None => r is None,
        },
{
    match json_null(text, "/message/body/lyrics") {
        Some(_) => Some(
            (
                string_or_empty(json_str(text, "/message/body/lyrics/lyrics_body")),
                json_flag(text, "/message/body/lyrics/restricted"),
            ),
        ),
        None => None,
    }
}

/// The subtitle body of a `track.subtitle.get` reply text.
pub fn mxm_subtitle_at(text: &str) -> (r: Option<String>)
    ensures
        opt_view(r) == json_str_at(text@, "/message/body/subtitle/subtitle_body"@),
{
    json_str(text, "/message/body/subtitle/subtitle_body")
}

/// Law: an LRCLIB record gives a result when it is instrumental, or when it
/// has usable plain lyrics (ones that survive cleaning) or non-blank synced
/// lyrics; the result keeps the cleaned plain lyrics and the synced lyrics
/// as sent (each absent when unusable), so synced lyrics alone are enough.
pub proof fn law_lrclib_keeps_usable_lyrics(plain: Option<Seq<char>>, synced: Option<Seq<char>>, instrumental: bool)
    ensures
        ({
            let p = match plain {
                Some(t) => cleaned_lyrics(t),
                None => None,
            };
            let s_ok = synced matches Some(t) && trim(t).len() > 0;
            let r = lrclib_result_spec(plain, synced, instrumental);
            &&& instrumental ==> r == Some((None::<Seq<char>>, None::<Seq<char>>, true))
            &&& !instrumental ==> (r is Some <==> (p is Some || s_ok))
            &&& !instrumental && s_ok ==> (r matches Some(x) && x.1 == synced && x.0 == p && !x.2)
            &&& !instrumental && !s_ok && p is Some ==> (r matches Some(x) && x.1 is None && x.0 == p && !x.2)
        }),
{
}

} // verus!
