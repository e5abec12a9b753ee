//! Metadata and recommendation providers: TheAudioDB, the Last.fm
//! metadata calls and ListenBrainz.
use vstd::prelude::*;
use crate::numfmt::{decimal, push_decimal};
use crate::subsonic::pair_views;
use crate::text::{chars_of, string_of, extend_chars, trim, trim_str};

verus! {

pub const AUDIODB_API: &'static str = "https://www.theaudiodb.com/api/v1/json/2";

pub const LBZ_API: &'static str = "https://api.listenbrainz.org/1";

/// An artist as described by TheAudioDB; absent fields are empty.
pub struct AudioDbArtist {
    pub name: String,
    pub thumb: String,
    pub fanart: String,
    pub banner: String,
    pub biography: String,
    pub genre: String,
    pub country: String,
    pub formed_year: String,
}

/// The name searched on TheAudioDB: trimmed; a blank name is not searched.
pub fn audiodb_search_term(name: &str) -> (r: Option<String>)
    ensures
        match r {
            Some(t) => t@ == trim(name@) && t@.len() > 0,
            None => trim(name@).len() == 0,
        },
{
    let t = trim_str(name);
    if t.as_str().is_empty() {
        None
    } else {
        Some(t)
    }
}

// ---------------------------------------------------------------------------
// Last.fm metadata calls
// ---------------------------------------------------------------------------

/// The Last.fm metadata calls the front end makes.
pub enum LfmRequest {
    ChartTopArtists { limit: u32 },
    ArtistSearch { artist: String, limit: u32 },
    ChartTopTracks { limit: u32 },
    TrackSearch { track: String, limit: u32 },
    ArtistTopTracks { artist: String, limit: u32 },
    TagTopTags { limit: u32 },
    TrackTopTags { artist: String, track: String },
    ArtistInfo { artist: String },
    SimilarTracks { artist: String, track: String, limit: u32 },
    TagTopTracks { tag: String, limit: u32 },
}

/// The parameters of each call, in order.
pub open spec fn lfm_request_spec(r: LfmRequest) -> Seq<(Seq<char>, Seq<char>)> {
    match r {
        LfmRequest::ChartTopArtists { limit } => seq![
            ("method"@, "chart.gettopartists"@),
            ("limit"@, decimal(limit as nat)),
        ],
        LfmRequest::ArtistSearch { artist, limit } => seq![
            ("method"@, "artist.search"@),
            ("artist"@, artist@),
            ("limit"@, decimal(limit as nat)),
        ],
        LfmRequest::ChartTopTracks { limit } => seq![
            ("method"@, "chart.gettoptracks"@),
            ("limit"@, decimal(limit as nat)),
        ],
        LfmRequest::TrackSearch { track, limit } => seq![
            ("method"@, "track.search"@),
            ("track"@, track@),
            ("limit"@, decimal(limit as nat)),
        ],
        LfmRequest::ArtistTopTracks { artist, limit } => seq![
            ("method"@, "artist.getTopTracks"@),
            ("artist"@, artist@),
            ("autocorrect"@, "1"@),
            ("limit"@, decimal(limit as nat)),
        ],
        LfmRequest::TagTopTags { limit } => seq![
            ("method"@, "tag.getTopTags"@),
            ("limit"@, decimal(limit as nat)),
        ],
        LfmRequest::TrackTopTags { artist, track } => seq![
            ("method"@, "track.getTopTags"@),
            ("artist"@, artist@),
            ("track"@, track@),
            ("autocorrect"@, "1"@),
        ],
        LfmRequest::ArtistInfo { artist } => seq![
            ("method"@, "artist.getinfo"@),
            ("artist"@, artist@),
            ("autocorrect"@, "1"@),
        ],
        LfmRequest::SimilarTracks { artist, track, limit } => seq![
            ("method"@, "track.getSimilar"@),
            ("artist"@, artist@),
            ("track"@, track@),
            ("autocorrect"@, "1"@),
            ("limit"@, decimal(limit as nat)),
        ],
        LfmRequest::TagTopTracks { tag, limit } => seq![
            ("method"@, "tag.gettoptracks"@),
            ("tag"@, tag@),
            ("limit"@, decimal(limit as nat)),
        ],
    }
}

fn number(n: u32) -> (r: String)
    ensures
        r@ == decimal(n as nat),
{
    let mut v: Vec<char> = Vec::new();
    push_decimal(&mut v, n as u64);
    string_of(&v)
}

fn pair(k: &str, v: String) -> (r: (String, String))
    ensures
        r.0@ == k@,
        r.1@ == v@,
{
    (k.to_string(), v)
}

pub fn lfm_request_params(req: &LfmRequest) -> (r: Vec<(String, String)>)
    ensures
        pair_views(r@) == lfm_request_spec(*req),
{
    let mut ps: Vec<(String, String)> = Vec::new();
    match req {
        LfmRequest::ChartTopArtists { limit } => {
            ps.push(pair("method", "chart.gettopartists".to_string()));
            ps.push(pair("limit", number(*limit)));
        },
        LfmRequest::ArtistSearch { artist, limit } => {
            ps.push(pair("method", "artist.search".to_string()));
            ps.push(pair("artist", artist.clone()));
            ps.push(pair("limit", number(*limit)));
        },
        LfmRequest::ChartTopTracks { limit } => {
            ps.push(pair("method", "chart.gettoptracks".to_string()));
            ps.push(pair("limit", number(*limit)));
        },
        LfmRequest::TrackSearch { track, limit } => {
            ps.push(pair("method", "track.search".to_string()));
            ps.push(pair("track", track.clone()));
            ps.push(pair("limit", number(*limit)));
        },
        LfmRequest::ArtistTopTracks { artist, limit } => {
            ps.push(pair("method", "artist.getTopTracks".to_string()));
            ps.push(pair("artist", artist.clone()));
            ps.push(pair("autocorrect", "1".to_string()));
            ps.push(pair("limit", number(*limit)));
        },
        LfmRequest::TagTopTags { limit } => {
            ps.push(pair("method", "tag.getTopTags".to_string()));
            ps.push(pair("limit", number(*limit)));
        },
        LfmRequest::TrackTopTags { artist, track } => {
            ps.push(pair("method", "track.getTopTags".to_string()));
            ps.push(pair("artist", artist.clone()));
            ps.push(pair("track", track.clone()));
            ps.push(pair("autocorrect", "1".to_string()));
        },
        LfmRequest::ArtistInfo { artist } => {
            ps.push(pair("method", "artist.getinfo".to_string()));
            ps.push(pair("artist", artist.clone()));
            ps.push(pair("autocorrect", "1".to_string()));
        },
        LfmRequest::SimilarTracks { artist, track, limit } => {
            ps.push(pair("method", "track.getSimilar".to_string()));
            ps.push(pair("artist", artist.clone()));
            ps.push(pair("track", track.clone()));
            ps.push(pair("autocorrect", "1".to_string()));
            ps.push(pair("limit", number(*limit)));
        },
        LfmRequest::TagTopTracks { tag, limit } => {
            ps.push(pair("method", "tag.gettoptracks".to_string()));
            ps.push(pair("tag", tag.clone()));
            ps.push(pair("limit", number(*limit)));
        },
    }
    assert(pair_views(ps@) =~= lfm_request_spec(*req));
    ps
}

/// The metadata calls need an API key.
pub fn require_lfm_key(api_key: &str) -> (r: Result<(), String>)
    ensures
        r is Ok <==> api_key@.len() > 0,
        r matches Err(e) ==> e@ == "No Last.fm API key configured"@,
{
    if api_key.is_empty() {
        Err("No Last.fm API key configured".to_string())
    } else {
        Ok(())
    }
}

/// The query of a metadata call: its parameters with the API key set and
/// the JSON format requested.
pub fn lfm_query(params: &Vec<(String, String)>, api_key: &str) -> (r: Vec<(String, String)>)
    ensures
        pair_views(r@) == crate::lastfm::set_param(
            crate::lastfm::set_param(pair_views(params@), "api_key"@, api_key@),
            "format"@,
            "json"@,
        ),
{
    let mut ps: Vec<(String, String)> = Vec::new();
    let mut i: usize = 0;
    while i < params.len()
        invariant
            i <= params@.len(),
            pair_views(ps@) == pair_views(params@).take(i as int),
        decreases params.len() - i,
    {
        let ghost prev = pair_views(ps@);
        let k = params[i].0.clone();
        let v = params[i].1.clone();
        ps.push((k, v));
        proof {
            assert(pair_views(ps@) =~= prev.push(pair_views(params@)[i as int]));
            assert(pair_views(params@).take(i + 1) =~= pair_views(params@).take(i as int).push(
                pair_views(params@)[i as int],
            ));
        }
        i = i + 1;
    }
    assert(pair_views(params@).take(params@.len() as int) == pair_views(params@));
    crate::lastfm::set_param_in(&mut ps, "api_key", api_key.to_string());
    crate::lastfm::set_param_in(&mut ps, "format", "json".to_string());
    ps
}

// ---------------------------------------------------------------------------
// ListenBrainz
// ---------------------------------------------------------------------------

/// The recommendations URL of a user; the user name must be non-blank and
/// is used trimmed.
pub fn lbz_recommendations_url(username: &str, count: u32) -> (r: Result<String, String>)
    ensures
        trim(username@).len() == 0 ==> (r matches Err(e) && e@
            == "ListenBrainz username is not configured"@),
        trim(username@).len() > 0 ==> (r matches Ok(u) && u@ == LBZ_API@
            + "/cf/recommendation/user/"@ + trim(username@) + "/recording?count="@ + decimal(
            count as nat,
        )),
{
    let u = trim_str(username);
    if u.as_str().is_empty() {
        return Err("ListenBrainz username is not configured".to_string());
    }
    let mut v = chars_of(LBZ_API);
    extend_chars(&mut v, &chars_of("/cf/recommendation/user/"));
    extend_chars(&mut v, &chars_of(u.as_str()));
    extend_chars(&mut v, &chars_of("/recording?count="));
    push_decimal(&mut v, count as u64);
    Ok(string_of(&v))
}

/// The error of a failed recommendations request: an unknown user for
/// 404, the status otherwise.
pub fn lbz_request_error(status_code: u16, status: &str, username: &str) -> (r: String)
    ensures
        status_code == 404 ==> r@ == "ListenBrainz user \""@ + trim(username@) + "\" not found"@,
        status_code != 404 ==> r@ == "ListenBrainz request failed with status "@ + status@,
{
    if status_code == 404 {
        let mut v = chars_of("ListenBrainz user \"");
        extend_chars(&mut v, &chars_of(trim_str(username).as_str()));
        extend_chars(&mut v, &chars_of("\" not found"));
        string_of(&v)
    } else {
        let mut v = chars_of("ListenBrainz request failed with status ");
        extend_chars(&mut v, &chars_of(status));
        string_of(&v)
    }
}

/// The `Authorization` header of a listen submission; without a token
/// nothing is submitted.
pub fn lbz_authorization(token: &str) -> (r: Option<String>)
    ensures
        trim(token@).len() == 0 ==> r is None,
        trim(token@).len() > 0 ==> (r matches Some(h) && h@ == "Token "@ + trim(token@)),
{
    let t = trim_str(token);
    if t.as_str().is_empty() {
        return None;
    }
    let mut v = chars_of("Token ");
    extend_chars(&mut v, &chars_of(t.as_str()));
    Some(string_of(&v))
}

/// The track metadata of a listen.
pub struct LbzTrackMeta {
    pub artist_name: String,
    pub track_name: String,
    /// Set only for a non-empty album.
    pub release_name: Option<String>,
    pub duration_ms: Option<u64>,
}

pub fn build_lbz_track_meta(artist: &str, title: &str, album: Option<&str>, duration_ms: Option<u64>) -> (r:
    LbzTrackMeta)
    ensures
        r.artist_name@ == artist@,
        r.track_name@ == title@,
        match album {
            Some(a) => if a@.len() > 0 {
                r.release_name matches Some(n) && n@ == a@
            } else {
                r.release_name is None
            },
            None => r.release_name is None,
        },
        r.duration_ms == duration_ms,
{
    let release_name = match album {
        Some(a) => if a.is_empty() {
            None
        } else {
            Some(a.to_string())
        },
        None => None,
    };
    LbzTrackMeta {
        artist_name: artist.to_string(),
        track_name: title.to_string(),
        release_name,
        duration_ms,
    }
}

} // verus!
