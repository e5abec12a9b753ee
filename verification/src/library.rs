//! Provider-agnostic library rules: which backend serves a profile, which
//! operations each backend supports, how requests are defaulted, how an
//! external track is matched against search results and how recommendations
//! are de-duplicated.
use vstd::prelude::*;
use crate::profiles::ActiveProfile;
use crate::json::{
    json_error_of, json_null_at, json_str_at, json_member, json_syntax, json_null, json_str, member,
    as_opt_str,
};
use crate::subsonic::{
    pair_views, token_of, url_with_query_pairs, parse_url_with_pairs, API_VERSION, CLIENT_NAME,
    random_alphanumeric, is_alnum_of_len,
};
use crate::text::{
    trim, contains_seq, unicode_lowercase, chars_of, contains_chars, trim_str, to_lowercase, str_eq,
    has_prefix, slice_chars, trim_chars, string_of,
};

verus! {

/// The kind of server a profile talks to.
#[derive(Clone, Copy, Debug, PartialEq, Eq, Structural)]
pub enum Backend {
    Local,
    Jellyfin,
    Plex,
    Subsonic,
}

/// The backend of a server type: Jellyfin and Emby share one API, anything
/// unknown is treated as Subsonic.
pub open spec fn backend_spec(t: Seq<char>) -> Backend {
    if t == "local"@ {
        Backend::Local
    } else if t == "jellyfin"@ || t == "emby"@ {
        Backend::Jellyfin
    } else if t == "plex"@ {
        Backend::Plex
    } else {
        Backend::Subsonic
    }
}

/// The four server-type names are distinct, so each backend has exactly the
/// names listed for it.
pub proof fn lemma_backend_names(t: Seq<char>)
    ensures
        backend_spec(t) == Backend::Local <==> t == "local"@,
        backend_spec(t) == Backend::Jellyfin <==> (t == "jellyfin"@ || t == "emby"@),
        backend_spec(t) == Backend::Plex <==> t == "plex"@,
{
    reveal_strlit("local");
    reveal_strlit("jellyfin");
    reveal_strlit("emby");
    reveal_strlit("plex");
    assert("local"@ != "jellyfin"@ && "local"@ != "emby"@ && "local"@ != "plex"@) by {
        assert("local"@.len() == 5 && "jellyfin"@.len() == 8 && "emby"@.len() == 4);
        assert("plex"@.len() == 4);
    }
    assert("plex"@ != "jellyfin"@ && "plex"@ != "emby"@) by {
        assert("plex"@[0] == 'p' && "emby"@[0] == 'e' && "jellyfin"@.len() == 8);
    }
}

pub fn backend_of(server_type: &str) -> (b: Backend)
    ensures
        b == backend_spec(server_type@),
{
    if str_eq(server_type, "local") {
        Backend::Local
    } else if str_eq(server_type, "jellyfin") || str_eq(server_type, "emby") {
        Backend::Jellyfin
    } else if str_eq(server_type, "plex") {
        Backend::Plex
    } else {
        Backend::Subsonic
    }
}

/// Jellyfin or Emby.
pub fn is_jf(p: &ActiveProfile) -> (b: bool)
    ensures
        b == (p.server_type@ == "jellyfin"@ || p.server_type@ == "emby"@),
{
    str_eq(p.server_type.as_str(), "jellyfin") || str_eq(p.server_type.as_str(), "emby")
}

pub fn is_plex(p: &ActiveProfile) -> (b: bool)
    ensures
        b == (p.server_type@ == "plex"@),
{
    str_eq(p.server_type.as_str(), "plex")
}

pub fn is_local(p: &ActiveProfile) -> (b: bool)
    ensures
        b == (p.server_type@ == "local"@),
{
    str_eq(p.server_type.as_str(), "local")
}

/// Jellyfin and Emby leave authentication out of image URLs, so their
/// artwork is fetched by the backend; Subsonic and Plex URLs carry it.
pub fn needs_artwork_proxy(p: &ActiveProfile) -> (b: bool)
    ensures
        b == (p.server_type@ == "jellyfin"@ || p.server_type@ == "emby"@),
{
    is_jf(p)
}

// ---------------------------------------------------------------------------
// Which operations each backend supports
// ---------------------------------------------------------------------------

pub open spec fn blank(s: Seq<char>) -> bool {
    trim(s).len() == 0
}

fn is_blank(s: &str) -> (b: bool)
    ensures
        b == blank(s@),
{
    trim_str(s).as_str().is_empty()
}

/// Starring is refused for local and Plex libraries; it is checked before
/// the song id is resolved.
pub open spec fn favorites_error(b: Backend) -> Option<Seq<char>> {
    match b {
        Backend::Local => Some("Favorites are not supported for local libraries yet."@),
        Backend::Plex => Some("Favorites are not supported for Plex libraries yet."@),
        _ => None,
    }
}

pub fn check_favorites_supported(p: &ActiveProfile) -> (r: Result<(), String>)
    ensures
        r is Err <==> favorites_error(backend_spec(p.server_type@)) is Some,
        r matches Err(e) ==> Some(e@) == favorites_error(backend_spec(p.server_type@)),
{
    match backend_of(p.server_type.as_str()) {
        Backend::Local => Err("Favorites are not supported for local libraries yet.".to_string()),
        Backend::Plex => Err("Favorites are not supported for Plex libraries yet.".to_string()),
        _ => Ok(()),
    }
}

/// The backend that stars a resolved song: Jellyfin takes any id, the
/// Subsonic API needs a non-empty one.
pub fn star_backend(p: &ActiveProfile, resolved_id: &str) -> (r: Result<Backend, String>)
    requires
        favorites_error(backend_spec(p.server_type@)) is None,
    ensures
        backend_spec(p.server_type@) == Backend::Jellyfin ==> r == Ok::<Backend, String>(
            Backend::Jellyfin,
        ),
        backend_spec(p.server_type@) == Backend::Subsonic ==> (if resolved_id@.len() == 0 {
            r matches Err(e) && e@ == "Song id is required."@
        } else {
            r == Ok::<Backend, String>(Backend::Subsonic)
        }),
{
    let b = backend_of(p.server_type.as_str());
    if b == Backend::Jellyfin {
        return Ok(Backend::Jellyfin);
    }
    if resolved_id.is_empty() {
        return Err("Song id is required.".to_string());
    }
    Ok(Backend::Subsonic)
}

/// Adding to a playlist is refused for local and Plex libraries; checked
/// before the song id is resolved.
pub open spec fn playlist_edit_error(b: Backend) -> Option<Seq<char>> {
    match b {
        Backend::Local => Some("Playlists are not supported for local libraries yet."@),
        Backend::Plex => Some("Editing Plex playlists is not supported yet."@),
        _ => None,
    }
}

pub fn check_playlist_edit_supported(p: &ActiveProfile) -> (r: Result<(), String>)
    ensures
        r is Err <==> playlist_edit_error(backend_spec(p.server_type@)) is Some,
        r matches Err(e) ==> Some(e@) == playlist_edit_error(backend_spec(p.server_type@)),
{
    match backend_of(p.server_type.as_str()) {
        Backend::Local => Err("Playlists are not supported for local libraries yet.".to_string()),
        Backend::Plex => Err("Editing Plex playlists is not supported yet.".to_string()),
        _ => Ok(()),
    }
}

/// The backend that adds a resolved song to a playlist: the Subsonic API
/// needs both ids non-empty.
pub fn add_to_playlist_backend(p: &ActiveProfile, playlist_id: &str, resolved_id: &str) -> (r:
    Result<Backend, String>)
    requires
        playlist_edit_error(backend_spec(p.server_type@)) is None,
    ensures
        backend_spec(p.server_type@) == Backend::Jellyfin ==> r == Ok::<Backend, String>(
            Backend::Jellyfin,
        ),
        backend_spec(p.server_type@) == Backend::Subsonic ==> (if playlist_id@.len() == 0
            || resolved_id@.len() == 0 {
            r matches Err(e) && e@ == "playlistId and songId are required."@
        } else {
            r == Ok::<Backend, String>(Backend::Subsonic)
        }),
{
    let b = backend_of(p.server_type.as_str());
    if b == Backend::Jellyfin {
        return Ok(Backend::Jellyfin);
    }
    if playlist_id.is_empty() || resolved_id.is_empty() {
        return Err("playlistId and songId are required.".to_string());
    }
    Ok(Backend::Subsonic)
}

/// Starring a song on a profile: refused for libraries without favorites,
/// else the backend that stars the resolved song (see `star_backend`).
pub fn library_star_plan(p: &ActiveProfile, resolved_id: &str) -> (r: Result<Backend, String>)
    ensures
        ({
            let b = backend_spec(p.server_type@);
            match favorites_error(b) {
                Some(m) => r matches Err(e) && e@ == m,
                None => if b == Backend::Jellyfin {
                    r == Ok::<Backend, String>(Backend::Jellyfin)
                } else if resolved_id@.len() == 0 {
                    r matches Err(e) && e@ == "Song id is required."@
                } else {
                    r == Ok::<Backend, String>(Backend::Subsonic)
                },
            }
        }),
{
    check_favorites_supported(p)?;
    star_backend(p, resolved_id)
}

/// Adding a song to a playlist on a profile: refused for libraries whose
/// playlists cannot be edited, else the backend that adds the resolved song
/// (see `add_to_playlist_backend`).
pub fn add_to_playlist_plan(p: &ActiveProfile, playlist_id: &str, resolved_id: &str) -> (r: Result<
    Backend,
    String,
>)
    ensures
        ({
            let b = backend_spec(p.server_type@);
            match playlist_edit_error(b) {
                Some(m) => r matches Err(e) && e@ == m,
                None => if b == Backend::Jellyfin {
                    r == Ok::<Backend, String>(Backend::Jellyfin)
                } else if playlist_id@.len() == 0 || resolved_id@.len() == 0 {
                    r matches Err(e) && e@ == "playlistId and songId are required."@
                } else {
                    r == Ok::<Backend, String>(Backend::Subsonic)
                },
            }
        }),
{
    check_playlist_edit_supported(p)?;
    add_to_playlist_backend(p, playlist_id, resolved_id)
}

pub open spec fn local_playlists_error() -> Seq<char> {
    "Playlists are not supported for local libraries yet."@
}

/// Creating a playlist: the trimmed name must be non-empty; Jellyfin and
/// Subsonic can create one, local and Plex libraries cannot.
pub open spec fn create_playlist_route(b: Backend, name: Seq<char>) -> Result<Backend, Seq<char>> {
    if blank(name) {
        Err("Playlist name is required."@)
    } else {
        match b {
            Backend::Jellyfin => Ok(Backend::Jellyfin),
            Backend::Local => Err(local_playlists_error()),
            Backend::Plex => Err("Creating Plex playlists is not supported yet."@),
            Backend::Subsonic => Ok(Backend::Subsonic),
        }
    }
}

/// Renaming a playlist: the trimmed id and then the trimmed name must be
/// non-empty; local and Plex libraries cannot rename.
pub open spec fn rename_playlist_route(b: Backend, id: Seq<char>, name: Seq<char>) -> Result<
    Backend,
    Seq<char>,
> {
    if blank(id) {
        Err("Playlist id is required."@)
    } else if blank(name) {
        Err("Playlist name is required."@)
    } else {
        match b {
            Backend::Local => Err(local_playlists_error()),
            Backend::Jellyfin => Ok(Backend::Jellyfin),
            Backend::Plex => Err("Renaming Plex playlists is not supported yet."@),
            Backend::Subsonic => Ok(Backend::Subsonic),
        }
    }
}

/// Deleting a playlist: the trimmed id must be non-empty; local and Plex
/// libraries cannot delete.
pub open spec fn delete_playlist_route(b: Backend, id: Seq<char>) -> Result<Backend, Seq<char>> {
    if blank(id) {
        Err("Playlist id is required."@)
    } else {
        match b {
            Backend::Local => Err(local_playlists_error()),
            Backend::Jellyfin => Ok(Backend::Jellyfin),
            Backend::Plex => Err("Deleting Plex playlists is not supported yet."@),
            Backend::Subsonic => Ok(Backend::Subsonic),
        }
    }
}

/// Materialising an external track: only Subsonic-compatible servers can,
/// and the trimmed id must be non-empty.
pub open spec fn materialize_route(b: Backend, id: Seq<char>) -> Result<Backend, Seq<char>> {
    match b {
        Backend::Jellyfin | Backend::Plex => Err(
            "Materializing external tracks is only supported for Subsonic-compatible servers."@,
        ),
        Backend::Local => Err("Local library tracks do not need materialization."@),
        Backend::Subsonic => if blank(id) {
            Err("Song id is required."@)
        } else {
            Ok(Backend::Subsonic)
        },
    }
}

pub open spec fn route_view(r: Result<Backend, String>) -> Result<Backend, Seq<char>> {
    match r {
        Ok(b) => Ok(b),
        Err(e) => Err(e@),
    }
}

pub fn create_playlist_backend(p: &ActiveProfile, name: &str) -> (r: Result<Backend, String>)
    ensures
        route_view(r) == create_playlist_route(backend_spec(p.server_type@), name@),
{
    if is_blank(name) {
        return Err("Playlist name is required.".to_string());
    }
    match backend_of(p.server_type.as_str()) {
        Backend::Jellyfin => Ok(Backend::Jellyfin),
        Backend::Local => Err("Playlists are not supported for local libraries yet.".to_string()),
        Backend::Plex => Err("Creating Plex playlists is not supported yet.".to_string()),
        Backend::Subsonic => Ok(Backend::Subsonic),
    }
}

pub fn rename_playlist_backend(p: &ActiveProfile, playlist_id: &str, name: &str) -> (r: Result<
    Backend,
    String,
>)
    ensures
        route_view(r) == rename_playlist_route(backend_spec(p.server_type@), playlist_id@, name@),
{
    if is_blank(playlist_id) {
        return Err("Playlist id is required.".to_string());
    }
    if is_blank(name) {
        return Err("Playlist name is required.".to_string());
    }
    match backend_of(p.server_type.as_str()) {
        Backend::Local => Err("Playlists are not supported for local libraries yet.".to_string()),
        Backend::Jellyfin => Ok(Backend::Jellyfin),
        Backend::Plex => Err("Renaming Plex playlists is not supported yet.".to_string()),
        Backend::Subsonic => Ok(Backend::Subsonic),
    }
}

pub fn delete_playlist_backend(p: &ActiveProfile, playlist_id: &str) -> (r: Result<Backend, String>)
    ensures
        route_view(r) == delete_playlist_route(backend_spec(p.server_type@), playlist_id@),
{
    if is_blank(playlist_id) {
        return Err("Playlist id is required.".to_string());
    }
    match backend_of(p.server_type.as_str()) {
        Backend::Local => Err("Playlists are not supported for local libraries yet.".to_string()),
        Backend::Jellyfin => Ok(Backend::Jellyfin),
        Backend::Plex => Err("Deleting Plex playlists is not supported yet.".to_string()),
        Backend::Subsonic => Ok(Backend::Subsonic),
    }
}

pub fn materialize_backend(p: &ActiveProfile, song_id: &str) -> (r: Result<Backend, String>)
    ensures
        route_view(r) == materialize_route(backend_spec(p.server_type@), song_id@),
{
    match backend_of(p.server_type.as_str()) {
        Backend::Jellyfin | Backend::Plex => Err(
            "Materializing external tracks is only supported for Subsonic-compatible servers.".to_string(),
        ),
        Backend::Local => Err("Local library tracks do not need materialization.".to_string()),
        Backend::Subsonic => if is_blank(song_id) {
            Err("Song id is required.".to_string())
        } else {
            Ok(Backend::Subsonic)
        },
    }
}


// ---------------------------------------------------------------------------
// Request defaults
// ---------------------------------------------------------------------------

/// The result limits of a combined search: songs, albums and
/// recommendations, defaulting to 24, 12 and 16.
pub fn search_bundle_limits(song_count: Option<u32>, album_count: Option<u32>, recommendation_count:
    Option<u32>) -> (r: (u32, u32, u32))
    ensures
        r.0 == (match song_count {
            Some(n) => n,
            None => 24u32,
        }),
        r.1 == (match album_count {
            Some(n) => n,
            None => 12u32,
        }),
        r.2 == (match recommendation_count {
            Some(n) => n,
            None => 16u32,
        }),
{
    let a = match song_count {
        Some(n) => n,
        None => 24,
    };
    let b = match album_count {
        Some(n) => n,
        None => 12,
    };
    let c = match recommendation_count {
        Some(n) => n,
        None => 16,
    };
    (a, b, c)
}

/// An album-list request: the list kind defaults to `"newest"`, the count
/// to 20, and the count is capped at 100.
pub fn album_list_request(kind: Option<String>, count: Option<u32>) -> (r: (String, u32))
    ensures
        r.0@ == (match kind {
            Some(k) => k@,
            None => "newest"@,
        }),
        r.1 == (match count {
            Some(n) => if n < 100 { n } else { 100u32 },
            None => 20u32,
        }),
{
    let k = match kind {
        Some(k) => k,
        None => "newest".to_string(),
    };
    let n = match count {
        Some(n) => if n < 100 { n } else { 100 },
        None => 20,
    };
    (k, n)
}

// ---------------------------------------------------------------------------
// Recommendations
// ---------------------------------------------------------------------------

/// The seed of a search bundle's recommendations: the first song found;
/// none when the search found no song.
pub fn recommendation_seed(song_ids: &Vec<String>) -> (r: Option<String>)
    ensures
        r is None <==> song_ids@.len() == 0,
        r matches Some(s) ==> s@ == song_ids@[0]@,
{
    if song_ids.len() == 0 {
        None
    } else {
        Some(song_ids[0].clone())
    }
}

/// The recommendations of a search bundle, given the ids of the songs
/// found and of the songs similar to the seed: none when no song was
/// found; otherwise the positions of the similar songs kept by
/// `dedupe_recommendations` against the first song found.
pub fn bundle_recommendations(song_ids: &Vec<String>, similar_ids: &Vec<String>) -> (r: Vec<usize>)
    ensures
        song_ids@.len() == 0 ==> r@.len() == 0,
        song_ids@.len() > 0 ==> r@.map_values(|i: usize| i as int) == kept_positions(
            string_seq_view(similar_ids@),
            song_ids@[0]@,
            similar_ids@.len() as int,
        ),
{
    match recommendation_seed(song_ids) {
        Some(seed) => dedupe_recommendations(&seed, similar_ids),
        None => Vec::new(),
    }
}

/// A recommendation at `i` is kept when it is not the seed song and its id
/// did not occur earlier.
pub open spec fn kept_recommendation(ids: Seq<Seq<char>>, seed: Seq<char>, i: int) -> bool {
    &&& ids[i] != seed
    &&& forall|j: int| 0 <= j < i ==> ids[j] != ids[i]
}

/// The positions among the first `n` recommendations that are kept, in order.
pub open spec fn kept_positions(ids: Seq<Seq<char>>, seed: Seq<char>, n: int) -> Seq<int>
    decreases n,
{
    if n <= 0 {
        Seq::empty()
    } else if kept_recommendation(ids, seed, n - 1) {
        kept_positions(ids, seed, n - 1).push(n - 1)
    } else {
        kept_positions(ids, seed, n - 1)
    }
}

pub open spec fn string_seq_view(v: Seq<String>) -> Seq<Seq<char>> {
    v.map_values(|s: String| s@)
}

/// Drops the seed song and repeated ids from the recommendations, keeping
/// the first occurrence of each id; the result holds the kept positions.
pub fn dedupe_recommendations(seed_id: &String, ids: &Vec<String>) -> (r: Vec<usize>)
    ensures
        r@.map_values(|i: usize| i as int) == kept_positions(
            string_seq_view(ids@),
            seed_id@,
            ids@.len() as int,
        ),
{
    let ghost v = string_seq_view(ids@);
    let mut kept: Vec<usize> = Vec::new();
    let mut i: usize = 0;
    while i < ids.len()
        invariant
            i <= ids.len(),
            v == string_seq_view(ids@),
            kept@.map_values(|k: usize| k as int) == kept_positions(v, seed_id@, i as int),
        decreases ids.len() - i,
    {
        let mut seen = false;
        let mut j: usize = 0;
        while j < i
            invariant
                j <= i < ids.len(),
                v == string_seq_view(ids@),
                seen <==> exists|k: int| 0 <= k < j && v[k] == v[i as int],
            decreases i - j,
        {
            proof {
                assert(v[j as int] == ids@[j as int]@);
                assert(v[i as int] == ids@[i as int]@);
            }
            if ids[j] == ids[i] {
                seen = true;
            }
            j = j + 1;
        }
        let is_seed = ids[i] == *seed_id;
        proof {
            assert(v[i as int] == ids@[i as int]@);
            assert(kept_recommendation(v, seed_id@, i as int) <==> (!is_seed && !seen));
        }
        if !is_seed && !seen {
            kept.push(i);
        }
        i = i + 1;
    }
    kept
}

/// Law: the recommendations left after de-duplication never include the
/// seed song, never repeat an id, keep the input order, and every other id
/// of the input still appears among them.
pub proof fn law_dedupe_recommendations(ids: Seq<Seq<char>>, seed: Seq<char>)
    ensures
        ({
            let r = kept_positions(ids, seed, ids.len() as int);
            &&& forall|a: int| 0 <= a < r.len() ==> 0 <= r[a] < ids.len() && ids[r[a]] != seed
            &&& forall|a: int, b: int| 0 <= a < b < r.len() ==> r[a] < r[b] && ids[r[a]] != ids[r[b]]
            &&& forall|i: int|
                0 <= i < ids.len() && ids[i] != seed ==> exists|a: int|
                    0 <= a < r.len() && ids[r[a]] == ids[i]
        }),
{
    lemma_kept_positions(ids, seed, ids.len() as int);
}

proof fn lemma_kept_positions(ids: Seq<Seq<char>>, seed: Seq<char>, n: int)
    requires
        0 <= n <= ids.len(),
    ensures
        ({
            let r = kept_positions(ids, seed, n);
            &&& forall|a: int| 0 <= a < r.len() ==> 0 <= r[a] < n && ids[r[a]] != seed
            &&& forall|a: int| 0 <= a < r.len() ==> kept_recommendation(ids, seed, r[a])
            &&& forall|a: int, b: int| 0 <= a < b < r.len() ==> r[a] < r[b]
            &&& forall|i: int|
                0 <= i < n && ids[i] != seed ==> exists|a: int| 0 <= a < r.len() && ids[r[a]] == ids[i]
        }),
    decreases n,
{
    if n > 0 {
        lemma_kept_positions(ids, seed, n - 1);
        let p = kept_positions(ids, seed, n - 1);
        let r = kept_positions(ids, seed, n);
        assert forall|i: int| 0 <= i < n && ids[i] != seed implies exists|a: int|
            0 <= a < r.len() && ids[r[a]] == ids[i] by {
            if i < n - 1 {
                let a = choose|a: int| 0 <= a < p.len() && ids[p[a]] == ids[i];
                assert(r[a] == p[a]);
            } else if kept_recommendation(ids, seed, n - 1) {
                assert(r[p.len() as int] == n - 1);
            } else {
                let j = choose|j: int| 0 <= j < n - 1 && #[trigger] ids[j] == ids[n - 1];
                let a = choose|a: int| 0 <= a < p.len() && ids[p[a]] == ids[j];
                assert(r[a] == p[a]);
            }
        }
    }
}

/// Law: two kept recommendations never share an id.
pub proof fn law_dedupe_distinct(ids: Seq<Seq<char>>, seed: Seq<char>, a: int, b: int)
    requires
        0 <= a < b < kept_positions(ids, seed, ids.len() as int).len(),
    ensures
        ids[kept_positions(ids, seed, ids.len() as int)[a]] != ids[kept_positions(
            ids,
            seed,
            ids.len() as int,
        )[b]],
{
    lemma_kept_positions(ids, seed, ids.len() as int);
    let r = kept_positions(ids, seed, ids.len() as int);
    assert(kept_recommendation(ids, seed, r[b]));
}


// ---------------------------------------------------------------------------
// Materialising external tracks
// ---------------------------------------------------------------------------

/// The fields of a song that matching reads.
pub struct TrackRef {
    pub id: String,
    pub title: String,
    pub artist: String,
}

/// How many searches are made for a track being imported before giving up.
pub const MATERIALIZE_ATTEMPTS: u32 = 8;

/// The pause between two such searches, in milliseconds.
pub const MATERIALIZE_RETRY_MS: u64 = 1200;

/// Track ids of this shape name a track outside the library.
pub open spec fn is_external_id(id: Seq<char>) -> bool {
    "ext-"@.is_prefix_of(id)
}

pub fn is_external_track(id: &str) -> (b: bool)
    ensures
        b == is_external_id(id@),
{
    has_prefix(id, "ext-")
}

/// Titles and artists are compared trimmed and lower-cased.
pub open spec fn match_key(s: Seq<char>) -> Seq<char> {
    unicode_lowercase(trim(s))
}

pub fn normalize_match(value: &str) -> (r: String)
    ensures
        r@ == match_key(value@),
{
    let t = trim_str(value);
    to_lowercase(t.as_str())
}

/// A library track with the same title and artist.
pub open spec fn exact_match(c: TrackRef, title: Seq<char>, artist: Seq<char>) -> bool {
    &&& !is_external_id(c.id@)
    &&& match_key(c.title@) == title
    &&& match_key(c.artist@) == artist
}

/// A library track whose title contains the title, and whose artist equals
/// or contains the artist (any artist when none is given).
pub open spec fn loose_match(c: TrackRef, title: Seq<char>, artist: Seq<char>) -> bool {
    &&& !is_external_id(c.id@)
    &&& contains_seq(match_key(c.title@), title)
    &&& (artist.len() == 0 || match_key(c.artist@) == artist || contains_seq(
        match_key(c.artist@),
        artist,
    ))
}

fn first_match(candidates: &Vec<TrackRef>, title: &Vec<char>, artist: &Vec<char>, loose: bool) -> (r:
    Option<usize>)
    ensures
        match r {
            Some(i) => i < candidates@.len() && (if loose {
                loose_match(candidates@[i as int], title@, artist@)
            } else {
                exact_match(candidates@[i as int], title@, artist@)
            }) && forall|j: int|
                0 <= j < i ==> !(if loose {
                    loose_match(candidates@[j], title@, artist@)
                } else {
                    exact_match(candidates@[j], title@, artist@)
                }),
            None => forall|j: int|
                0 <= j < candidates@.len() ==> !(if loose {
                    loose_match(candidates@[j], title@, artist@)
                } else {
                    exact_match(candidates@[j], title@, artist@)
                }),
        },
{
    let mut i: usize = 0;
    while i < candidates.len()
        invariant
            i <= candidates@.len(),
            forall|j: int|
                0 <= j < i ==> !(if loose {
                    loose_match(candidates@[j], title@, artist@)
                } else {
                    exact_match(candidates@[j], title@, artist@)
                }),
        decreases candidates.len() - i,
    {
        let c = &candidates[i];
        let ext = is_external_track(c.id.as_str());
        let t = chars_of(normalize_match(c.title.as_str()).as_str());
        let a = chars_of(normalize_match(c.artist.as_str()).as_str());
        let ok = if loose {
            !ext && contains_chars(&t, title) && (artist.len() == 0 || crate::text::same_chars(
                &a,
                artist,
            ) || contains_chars(&a, artist))
        } else {
            !ext && crate::text::same_chars(&t, title) && crate::text::same_chars(&a, artist)
        };
        if ok {
            return Some(i);
        }
        i = i + 1;
    }
    None
}

/// The library track an external track became after importing: the first
/// candidate matching title and artist exactly, otherwise the first matching
/// loosely; external candidates never count.
pub fn best_materialized_match(candidates: &Vec<TrackRef>, song: &TrackRef) -> (r: Option<usize>)
    ensures
        ({
            let title = match_key(song.title@);
            let artist = match_key(song.artist@);
            let c = candidates@;
            match r {
                Some(i) => i < c.len() && ((exact_match(c[i as int], title, artist) && forall|j: int|
                    0 <= j < i ==> !exact_match(c[j], title, artist)) || ((forall|j: int|
                    0 <= j < c.len() ==> !exact_match(c[j], title, artist)) && loose_match(
                    c[i as int],
                    title,
                    artist,
                ) && forall|j: int| 0 <= j < i ==> !loose_match(c[j], title, artist))),
                None => forall|j: int|
                    0 <= j < c.len() ==> !exact_match(c[j], title, artist) && !loose_match(
                        c[j],
                        title,
                        artist,
                    ),
            }
        }),
{
    let title = chars_of(normalize_match(song.title.as_str()).as_str());
    let artist = chars_of(normalize_match(song.artist.as_str()).as_str());
    match first_match(candidates, &title, &artist, false) {
        Some(i) => Some(i),
        None => first_match(candidates, &title, &artist, true),
    }
}

/// The search query used to find an imported track: artist and title,
/// space-separated and trimmed.
pub open spec fn materialize_query_spec(artist: Seq<char>, title: Seq<char>) -> Seq<char> {
    trim(artist + " "@ + title)
}

pub fn materialize_query(artist: &str, title: &str) -> (r: String)
    ensures
        r@ == materialize_query_spec(artist@, title@),
{
    let mut v = chars_of(artist);
    v.push(' ');
    let t = chars_of(title);
    crate::text::extend_chars(&mut v, &t);
    proof {
        reveal_strlit(" ");
        assert(v@ == artist@ + " "@ + title@);
    }
    let s = crate::text::string_of(&v);
    trim_str(s.as_str())
}

/// Playback of an external track needs a Subsonic-compatible server.
pub fn check_external_playback(p: &ActiveProfile) -> (r: Result<(), String>)
    ensures
        r is Err <==> (backend_spec(p.server_type@) == Backend::Jellyfin || backend_spec(
            p.server_type@,
        ) == Backend::Plex),
        r matches Err(e) ==> e@
            == "External playback materialization is only supported for Subsonic-compatible servers."@,
{
    proof {
        lemma_backend_names(p.server_type@);
    }
    if is_jf(p) || is_plex(p) {
        Err(
            "External playback materialization is only supported for Subsonic-compatible servers.".to_string(),
        )
    } else {
        Ok(())
    }
}

/// The error given when every search for an imported track came back empty.
pub open spec fn materialize_failure_spec(title: Seq<char>, artist: Seq<char>) -> Seq<char> {
    "Could not materialize \""@ + title + "\" by "@ + artist + " for playback"@
}

pub fn materialize_failure(title: &str, artist: &str) -> (r: String)
    ensures
        r@ == materialize_failure_spec(title@, artist@),
{
    let mut v = chars_of("Could not materialize \"");
    crate::text::extend_chars(&mut v, &chars_of(title));
    crate::text::extend_chars(&mut v, &chars_of("\" by "));
    crate::text::extend_chars(&mut v, &chars_of(artist));
    crate::text::extend_chars(&mut v, &chars_of(" for playback"));
    crate::text::string_of(&v)
}

// ---------------------------------------------------------------------------
// Favourites mirrored to Last.fm
// ---------------------------------------------------------------------------

pub open spec fn present(o: Option<String>) -> bool {
    o matches Some(s) && s@.len() > 0
}

/// The Last.fm call that mirrors a (un)star: only when artist and title are
/// given and non-empty and the API key, shared secret and session key are
/// all set.  `track.love` or `track.unlove` with the session, artist and
/// track.
pub fn love_mirror_params(
    unstar: bool,
    artist: &Option<String>,
    title: &Option<String>,
    api_key: &str,
    secret: &str,
    session_key: &str,
) -> (r: Option<Vec<(String, String)>>)
    ensures
        r is Some <==> (present(*artist) && present(*title) && session_key@.len() > 0
            && api_key@.len() > 0 && secret@.len() > 0),
        r matches Some(ps) ==> {
            &&& ps@.len() == 4
            &&& ps@[0].0@ == "method"@ && ps@[0].1@ == (if unstar {
                "track.unlove"@
            } else {
                "track.love"@
            })
            &&& ps@[1].0@ == "sk"@ && ps@[1].1@ == session_key@
            &&& ps@[2].0@ == "artist"@ && ps@[2].1@ == artist->0@
            &&& ps@[3].0@ == "track"@ && ps@[3].1@ == title->0@
        },
{
    match (artist, title) {
        (Some(a), Some(t)) => {
            if a.as_str().is_empty() || t.as_str().is_empty() || session_key.is_empty()
                || api_key.is_empty() || secret.is_empty() {
                return None;
            }
            let method = if unstar {
                "track.unlove".to_string()
            } else {
                "track.love".to_string()
            };
            let mut ps: Vec<(String, String)> = Vec::new();
            ps.push(("method".to_string(), method));
            ps.push(("sk".to_string(), session_key.to_string()));
            ps.push(("artist".to_string(), a.clone()));
            ps.push(("track".to_string(), t.clone()));
            Some(ps)
        },
        _ => None,
    }
}

// ---------------------------------------------------------------------------
// Artwork cache keys
// ---------------------------------------------------------------------------

/// The artwork cache key of an item: its kind, its cover-art id (its own id
/// when it has none) and the requested size, joined by dashes.
pub open spec fn cover_key_spec(kind: Seq<char>, id: Seq<char>, cover_art: Seq<char>, size: nat) -> Seq<
    char,
> {
    kind + "-cover-"@ + (if cover_art.len() == 0 {
        id
    } else {
        cover_art
    }) + "-"@ + crate::numfmt::decimal(size)
}

pub fn cover_cache_key(kind: &str, id: &str, cover_art: &str, size: u32) -> (r: String)
    ensures
        r@ == cover_key_spec(kind@, id@, cover_art@, size as nat),
{
    let mut v = chars_of(kind);
    crate::text::extend_chars(&mut v, &chars_of("-cover-"));
    if cover_art.is_empty() {
        crate::text::extend_chars(&mut v, &chars_of(id));
    } else {
        crate::text::extend_chars(&mut v, &chars_of(cover_art));
    }
    v.push('-');
    crate::numfmt::push_decimal(&mut v, size as u64);
    proof {
        reveal_strlit("-");
        let c = if cover_art@.len() == 0 {
            id@
        } else {
            cover_art@
        };
        assert(v@ == kind@ + "-cover-"@ + c + "-"@ + crate::numfmt::decimal(size as nat));
    }
    crate::text::string_of(&v)
}


// ---------------------------------------------------------------------------
// Subsonic requests made for the active profile
// ---------------------------------------------------------------------------

/// The length of the salt drawn for each request.
pub const REQUEST_SALT_LEN: usize = 12;

/// The authentication parameters of a request with the given salt: user,
/// version, client and format, then the stored password as it is for
/// legacy servers or legacy-stored passwords, else the salted token.
pub open spec fn request_auth_spec(p: ActiveProfile, salt: Seq<char>) -> Seq<(Seq<char>, Seq<char>)> {
    let common = seq![
        ("u"@, p.username@),
        ("v"@, API_VERSION@),
        ("c"@, CLIENT_NAME@),
        ("f"@, "json"@),
    ];
    if p.server_type@ == "subsonic_legacy"@ || "enc:"@.is_prefix_of(p.password@) {
        common.push(("p"@, p.password@))
    } else {
        common.push(("t"@, token_of(p.password@, salt))).push(("s"@, salt))
    }
}

pub fn auth_params_with_salt(p: &ActiveProfile, salt: &str) -> (r: Vec<(String, String)>)
    ensures
        pair_views(r@) == request_auth_spec(*p, salt@),
{
    let mut ps: Vec<(String, String)> = Vec::new();
    ps.push(("u".to_string(), p.username.clone()));
    ps.push(("v".to_string(), API_VERSION.to_string()));
    ps.push(("c".to_string(), CLIENT_NAME.to_string()));
    ps.push(("f".to_string(), "json".to_string()));
    let ghost common = pair_views(ps@);
    if str_eq(p.server_type.as_str(), "subsonic_legacy") || has_prefix(p.password.as_str(), "enc:") {
        ps.push(("p".to_string(), p.password.clone()));
        proof {
            assert(pair_views(ps@) =~= common.push(("p"@, p.password@)));
        }
    } else {
        let mut v = chars_of(p.password.as_str());
        crate::text::extend_chars(&mut v, &chars_of(salt));
        let joined = crate::text::string_of(&v);
        let token = crate::text::string_of(&crate::digest::md5_hex_of_str(joined.as_str()));
        ps.push(("t".to_string(), token));
        ps.push(("s".to_string(), salt.to_string()));
        proof {
            assert(pair_views(ps@) =~= common.push(("t"@, token_of(p.password@, salt@))).push(
                ("s"@, salt@),
            ));
        }
    }
    proof {
        assert(common =~= seq![
            ("u"@, p.username@),
            ("v"@, API_VERSION@),
            ("c"@, CLIENT_NAME@),
            ("f"@, "json"@),
        ]);
    }
    ps
}

/// The authentication parameters with a freshly drawn salt of 12 ASCII
/// letters and digits.
pub fn auth_params(p: &ActiveProfile) -> (r: Vec<(String, String)>)
    ensures
        exists|salt: Seq<char>|
            is_alnum_of_len(salt, REQUEST_SALT_LEN as nat) && pair_views(r@) == request_auth_spec(
                *p,
                salt,
            ),
{
    let salt = random_alphanumeric(REQUEST_SALT_LEN);
    let r = auth_params_with_salt(p, salt.as_str());
    assert(is_alnum_of_len(salt@, REQUEST_SALT_LEN as nat));
    r
}

/// The request URL of an endpoint: the profile URL, `/rest/` and the
/// endpoint, with the authentication pairs and then `extra` as its query;
/// an error when the profile URL does not parse.
pub open spec fn request_url_spec(
    p: ActiveProfile,
    path: Seq<char>,
    auth: Seq<(Seq<char>, Seq<char>)>,
    extra: Seq<(Seq<char>, Seq<char>)>,
) -> Result<Seq<char>, Seq<char>> {
    match url_with_query_pairs(p.url@ + "/rest/"@ + path, auth + extra) {
        Some(u) => Ok(u),
        None => Err("invalid profile url"@),
    }
}

/// The request URL for a given salt.
pub fn build_url_with_salt(p: &ActiveProfile, path: &str, extra: &Vec<(String, String)>, salt: &str) -> (r:
    Result<String, String>)
    ensures
        route_text(r) == request_url_spec(*p, path@, request_auth_spec(*p, salt@), pair_views(extra@)),
{
    let mut base = chars_of(p.url.as_str());
    crate::text::extend_chars(&mut base, &chars_of("/rest/"));
    crate::text::extend_chars(&mut base, &chars_of(path));
    let base = crate::text::string_of(&base);
    let mut pairs = auth_params_with_salt(p, salt);
    let ghost head = pair_views(pairs@);
    let mut i: usize = 0;
    while i < extra.len()
        invariant
            i <= extra@.len(),
            pair_views(pairs@) == head + pair_views(extra@).take(i as int),
        decreases extra.len() - i,
    {
        let ghost prev = pair_views(pairs@);
        let k = extra[i].0.clone();
        let v = extra[i].1.clone();
        pairs.push((k, v));
        proof {
            assert(pair_views(pairs@) =~= prev.push(pair_views(extra@)[i as int]));
            assert(pair_views(extra@).take(i + 1) =~= pair_views(extra@).take(i as int).push(
                pair_views(extra@)[i as int],
            ));
        }
        i = i + 1;
    }
    assert(pair_views(extra@).take(extra@.len() as int) == pair_views(extra@));
    match parse_url_with_pairs(base.as_str(), &pairs) {
        Some(u) => Ok(u),
        None => Err("invalid profile url".to_string()),
    }
}

pub open spec fn route_text(r: Result<String, String>) -> Result<Seq<char>, Seq<char>> {
    match r {
        Ok(u) => Ok(u@),
        Err(e) => Err(e@),
    }
}

/// The request URL with a freshly drawn salt.
pub fn build_url(p: &ActiveProfile, path: &str, extra: &Vec<(String, String)>) -> (r: Result<
    String,
    String,
>)
    ensures
        exists|salt: Seq<char>|
            is_alnum_of_len(salt, REQUEST_SALT_LEN as nat) && route_text(r) == request_url_spec(
                *p,
                path@,
                request_auth_spec(*p, salt),
                pair_views(extra@),
            ),
{
    let salt = random_alphanumeric(REQUEST_SALT_LEN);
    assert(is_alnum_of_len(salt@, REQUEST_SALT_LEN as nat));
    build_url_with_salt(p, path, extra, salt.as_str())
}

/// The cover-art URL of an id at a size; empty for an empty id.
pub fn cover_url(p: &ActiveProfile, id: &str, size: u32) -> (r: Result<String, String>)
    ensures
        id@.len() == 0 ==> (r matches Ok(u) && u@.len() == 0),
        id@.len() > 0 ==> exists|salt: Seq<char>|
            is_alnum_of_len(salt, REQUEST_SALT_LEN as nat) && route_text(r) == request_url_spec(
                *p,
                "getCoverArt"@,
                request_auth_spec(*p, salt),
                seq![("id"@, id@), ("size"@, crate::numfmt::decimal(size as nat))],
            ),
{
    if id.is_empty() {
        return Ok(String::new());
    }
    let mut size_chars: Vec<char> = Vec::new();
    crate::numfmt::push_decimal(&mut size_chars, size as u64);
    let mut extra: Vec<(String, String)> = Vec::new();
    extra.push(("id".to_string(), id.to_string()));
    extra.push(("size".to_string(), crate::text::string_of(&size_chars)));
    assert(pair_views(extra@) =~= seq![("id"@, id@), ("size"@, crate::numfmt::decimal(size as nat))]);
    build_url(p, "getCoverArt", &extra)
}

/// The download URL of an id; empty for an empty id.
pub fn stream_url(p: &ActiveProfile, id: &str) -> (r: Result<String, String>)
    ensures
        id@.len() == 0 ==> (r matches Ok(u) && u@.len() == 0),
        id@.len() > 0 ==> exists|salt: Seq<char>|
            is_alnum_of_len(salt, REQUEST_SALT_LEN as nat) && route_text(r) == request_url_spec(
                *p,
                "download"@,
                request_auth_spec(*p, salt),
                seq![("id"@, id@)],
            ),
{
    if id.is_empty() {
        return Ok(String::new());
    }
    let mut extra: Vec<(String, String)> = Vec::new();
    extra.push(("id".to_string(), id.to_string()));
    assert(pair_views(extra@) =~= seq![("id"@, id@)]);
    build_url(p, "download", &extra)
}

/// The verdict on a Subsonic reply: it must hold a `subsonic-response`
/// whose status is `ok`; otherwise its error message (or a generic one) is
/// the error.
pub fn check_subsonic_reply(has_body: bool, status: &Option<String>, message: &Option<String>) -> (r:
    Result<(), String>)
    ensures
        !has_body ==> (r matches Err(e) && e@ == "Invalid Subsonic response"@),
        has_body && (status matches Some(s) && s@ == "ok"@) ==> r is Ok,
        has_body && !(status matches Some(s) && s@ == "ok"@) ==> (r matches Err(e) && e@ == (
        match message {
            Some(m) => m@,
            None => "Subsonic request failed"@,
        })),
{
    if !has_body {
        return Err("Invalid Subsonic response".to_string());
    }
    let ok = match status {
        Some(s) => str_eq(s.as_str(), "ok"),
        None => false,
    };
    if ok {
        return Ok(());
    }
    match message {
        Some(m) => Err(m.clone()),
        None => Err("Subsonic request failed".to_string()),
    }
}


/// A string field of a song record: trimmed, and absent when nothing is left.
pub fn optional_string(v: Option<&str>) -> (r: Option<String>)
    ensures
        r is Some <==> (v matches Some(x) && trim(x@).len() > 0),
        r matches Some(x) ==> (v matches Some(y) && x@ == trim(y@)),
{
    match v {
        Some(x) => {
            let t = trim_chars(&chars_of(x));
            if t.len() == 0 {
                None
            } else {
                Some(string_of(&t))
            }
        },
        None => None,
    }
}

/// The text after the last occurrence of `c` in `s` (all of `s` when `c`
/// does not occur): what `rsplit(c).next()` yields.
pub open spec fn after_last(s: Seq<char>, c: char) -> Seq<char>
    decreases s.len(),
{
    if s.len() == 0 {
        s
    } else if s.last() == c {
        Seq::empty()
    } else {
        after_last(s.drop_last(), c).push(s.last())
    }
}

proof fn lemma_after_last_suffix(s: Seq<char>, c: char, k: int)
    requires
        0 <= k <= s.len(),
        forall|j: int| k <= j < s.len() ==> s[j] != c,
        k == 0 || s[k - 1] == c,
    ensures
        after_last(s, c) == s.subrange(k, s.len() as int),
    decreases s.len(),
{
    if s.len() == k {
        if k > 0 {
            assert(s.last() == c);
        }
    } else {
        lemma_after_last_suffix(s.drop_last(), c, k);
        assert(s.subrange(k, s.len() as int) == s.drop_last().subrange(k, s.len() - 1).push(s.last()));
    }
}

/// The audio format named by a MIME content type: the part after the last
/// `/`, trimmed, absent when empty (`audio/flac` gives `flac`).
pub fn format_from_content_type(content_type: &str) -> (r: Option<String>)
    ensures
        r is Some <==> trim(after_last(content_type@, '/')).len() > 0,
        r matches Some(x) ==> x@ == trim(after_last(content_type@, '/')),
{
    let v = chars_of(content_type);
    let mut k: usize = v.len();
    while k > 0 && v[k - 1] != '/'
        invariant
            k <= v.len(),
            forall|j: int| k <= j < v.len() ==> v@[j] != '/',
        decreases k,
    {
        k = k - 1;
    }
    proof {
        lemma_after_last_suffix(v@, '/', k as int);
    }
    let tail = slice_chars(&v, k, v.len());
    let t = trim_chars(&tail);
    if t.len() == 0 {
        None
    } else {
        Some(string_of(&t))
    }
}

/// The audio format of a song record: the transcoded suffix, else the file
/// suffix, else the format named by the content type.
pub fn song_audio_format(transcoded_suffix: Option<&str>, suffix: Option<&str>, content_type: Option<
    &str>) -> (r: Option<String>)
    ensures
        ({
            let t = if transcoded_suffix is Some { trim(transcoded_suffix->0@) } else { Seq::empty() };
            let s = if suffix is Some { trim(suffix->0@) } else { Seq::empty() };
            let c = if content_type is Some { trim(content_type->0@) } else { Seq::empty() };
            let f = trim(after_last(c, '/'));
            if t.len() > 0 {
                r matches Some(x) && x@ == t
            } else if s.len() > 0 {
                r matches Some(x) && x@ == s
            } else if c.len() > 0 && f.len() > 0 {
                r matches Some(x) && x@ == f
            } else {
                r is None
            }
        }),
{
    if let Some(t) = optional_string(transcoded_suffix) {
        return Some(t);
    }
    if let Some(s) = optional_string(suffix) {
        return Some(s);
    }
    match optional_string(content_type) {
        Some(c) => format_from_content_type(c.as_str()),
        None => None,
    }
}

/// A positive count that fits in 32 bits; zero and larger values are absent.
pub fn optional_u32(v: Option<u64>) -> (r: Option<u32>)
    ensures
        r is Some <==> (v matches Some(x) && 0 < x <= u32::MAX),
        r matches Some(x) ==> v == Some(x as u64),
{
    match v {
        Some(x) => {
            if x > 0 && x <= 0xffff_ffffu64 {
                Some(x as u32)
            } else {
                None
            }
        },
        None => None,
    }
}

/// The album fields of a track listed on an album's page.
pub struct AlbumFields {
    pub album: String,
    pub album_id: String,
    pub cover_art: String,
}

/// A track on an album's page takes the album's name, id and artwork for
/// whichever of its own is empty; `cover_inherited` says whether the artwork
/// was taken (its URL is then that of the album's artwork).
pub fn fill_album_fields(own: AlbumFields, album_name: &str, album_id: &str, album_cover: &str) -> (r: (
    AlbumFields,
    bool,
))
    ensures
        r.0.album@ == if own.album@.len() == 0 { album_name@ } else { own.album@ },
        r.0.album_id@ == if own.album_id@.len() == 0 { album_id@ } else { own.album_id@ },
        r.0.cover_art@ == if own.cover_art@.len() == 0 { album_cover@ } else { own.cover_art@ },
        r.1 == (own.cover_art@.len() == 0),
{
    let album = if own.album.as_str().unicode_len() == 0 { album_name.to_string() } else { own.album };
    let id = if own.album_id.as_str().unicode_len() == 0 { album_id.to_string() } else { own.album_id };
    let inherit = own.cover_art.as_str().unicode_len() == 0;
    let cover = if inherit { album_cover.to_string() } else { own.cover_art };
    (AlbumFields { album, album_id: id, cover_art: cover }, inherit)
}

/// The artwork id of an album or playlist: its own `coverArt`, else its id.
pub fn cover_art_or_id(cover_art: Option<String>, id: &str) -> (r: String)
    ensures
        r@ == match cover_art {
            Some(c) => c@,
            None => id@,
        },
{
    match cover_art {
        Some(c) => c,
        None => id.to_string(),
    }
}

// ---------------------------------------------------------------------------
// Subsonic replies
// ---------------------------------------------------------------------------

/// The text of an optional string, trimmed; empty when there is none.
pub open spec fn trimmed_or_empty(o: Option<Seq<char>>) -> Seq<char> {
    match o {
        Some(x) => trim(x),
        None => Seq::empty(),
    }
}

/// The verdict on a Subsonic reply text: it must be JSON and hold a
/// `subsonic-response` whose status is `ok`; otherwise the parse error,
/// the server's error message, or a generic one is the error.
pub fn subsonic_reply(text: &str) -> (r: Result<(), String>)
    ensures
        match json_error_of(text@) {
            Some(m) => r matches Err(e) && e@ == m,
            None => {
                let has_body = json_null_at(text@, "/subsonic-response"@) is Some;
                let status = json_str_at(text@, "/subsonic-response/status"@);
                let message = json_str_at(text@, "/subsonic-response/error/message"@);
                &&& !has_body ==> (r matches Err(e) && e@ == "Invalid Subsonic response"@)
                &&& has_body && status == Some("ok"@) ==> r is Ok
                &&& has_body && status != Some("ok"@) ==> (r matches Err(e) && e@ == (match message {
                    Some(m) => m,
                    None => "Subsonic request failed"@,
                }))
            },
        },
{
    json_syntax(text)?;
    let has_body = json_null(text, "/subsonic-response").is_some();
    let status = json_str(text, "/subsonic-response/status");
    let message = json_str(text, "/subsonic-response/error/message");
    check_subsonic_reply(has_body, &status, &message)
}

/// The audio format of the song record at `item` of a reply (see
/// `song_audio_format`).
pub fn song_audio_format_at(text: &str, item: &str) -> (r: Option<String>)
    ensures
        ({
            let t = trimmed_or_empty(json_str_at(text@, json_member(item@, "transcodedSuffix"@)));
            let s = trimmed_or_empty(json_str_at(text@, json_member(item@, "suffix"@)));
            let c = trimmed_or_empty(json_str_at(text@, json_member(item@, "contentType"@)));
            let f = trim(after_last(c, '/'));
            if t.len() > 0 {
                r matches Some(x) && x@ == t
            } else if s.len() > 0 {
                r matches Some(x) && x@ == s
            } else if c.len() > 0 && f.len() > 0 {
                r matches Some(x) && x@ == f
            } else {
                r is None
            }
        }),
{
    let t = json_str(text, member(item, "transcodedSuffix").as_str());
    let s = json_str(text, member(item, "suffix").as_str());
    let c = json_str(text, member(item, "contentType").as_str());
    song_audio_format(as_opt_str(&t), as_opt_str(&s), as_opt_str(&c))
}

/// Law: a legacy server, or a password stored in the legacy `enc:` form,
/// is sent the stored password as `p` after the user, version, client and
/// format, and no token or salt; any other profile is sent the MD5 token
/// of the password and salt as `t` and the salt as `s`, and no password.
pub proof fn law_legacy_auth_sends_password(p: ActiveProfile, salt: Seq<char>)
    ensures
        ({
            let ps = request_auth_spec(p, salt);
            let legacy = p.server_type@ == "subsonic_legacy"@ || "enc:"@.is_prefix_of(p.password@);
            &&& ps.take(4) == seq![("u"@, p.username@), ("v"@, API_VERSION@), ("c"@, CLIENT_NAME@), ("f"@, "json"@)]
            &&& legacy ==> ps.len() == 5 && ps[4] == ("p"@, p.password@)
            &&& !legacy ==> ps.len() == 6 && ps[4] == ("t"@, token_of(p.password@, salt)) && ps[5] == ("s"@, salt)
            &&& legacy ==> forall|k: int| 0 <= k < ps.len() ==> #[trigger] ps[k].0 != "t"@ && ps[k].0 != "s"@
            &&& !legacy ==> forall|k: int| 0 <= k < ps.len() ==> #[trigger] ps[k].0 != "p"@
        }),
{
    reveal_strlit("u");
    reveal_strlit("v");
    reveal_strlit("c");
    reveal_strlit("f");
    reveal_strlit("p");
    reveal_strlit("t");
    reveal_strlit("s");
    let ps = request_auth_spec(p, salt);
    let keys = seq!["u"@, "v"@, "c"@, "f"@];
    assert(ps.take(4) =~= seq![("u"@, p.username@), ("v"@, API_VERSION@), ("c"@, CLIENT_NAME@), ("f"@, "json"@)]);
    assert forall|k: int| 0 <= k < 4 implies #[trigger] ps[k].0 == keys[k] by {
        assert(ps[k] == ps.take(4)[k]);
    }
    assert("u"@ != "t"@ && "v"@ != "t"@ && "c"@ != "t"@ && "f"@ != "t"@ && "p"@ != "t"@) by {
        assert("u"@[0] != "t"@[0] && "v"@[0] != "t"@[0] && "c"@[0] != "t"@[0] && "f"@[0] != "t"@[0]
            && "p"@[0] != "t"@[0]);
    }
    assert("u"@ != "s"@ && "v"@ != "s"@ && "c"@ != "s"@ && "f"@ != "s"@ && "p"@ != "s"@) by {
        assert("u"@[0] != "s"@[0] && "v"@[0] != "s"@[0] && "c"@[0] != "s"@[0] && "f"@[0] != "s"@[0]
            && "p"@[0] != "s"@[0]);
    }
    assert("u"@ != "p"@ && "v"@ != "p"@ && "c"@ != "p"@ && "f"@ != "p"@ && "t"@ != "p"@ && "s"@ != "p"@) by {
        assert("u"@[0] != "p"@[0] && "v"@[0] != "p"@[0] && "c"@[0] != "p"@[0] && "f"@[0] != "p"@[0]
            && "t"@[0] != "p"@[0] && "s"@[0] != "p"@[0]);
    }
}

} // verus!
