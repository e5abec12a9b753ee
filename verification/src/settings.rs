//! Stored settings, liked artists and the library statistics screen.
use vstd::prelude::*;
use crate::library::{Backend, backend_spec, backend_of};
use crate::profiles::ActiveProfile;
use crate::subsonic::pair_views;
use crate::text::{trim, trim_str, str_eq};

verus! {

/// The setting keys the front end may write.
pub open spec fn allowed_keys() -> Seq<Seq<char>> {
    seq![
        "LASTFM_API_KEY"@,
        "LASTFM_SHARED_SECRET"@,
        "RECOMMENDATION_PROVIDER"@,
        "METADATA_PROVIDER"@,
        "SUBSONIC_BASE_URL"@,
        "SUBSONIC_USERNAME"@,
        "SUBSONIC_USE_PASSWORD_AUTH"@,
        "SUBSONIC_PASSWORD"@,
        "LASTFM_SESSION_KEY"@,
        "LASTFM_USERNAME"@,
    ]
}

pub fn is_allowed_key(key: &str) -> (r: bool)
    ensures
        r == allowed_keys().contains(key@),
{
    let r = str_eq(key, "LASTFM_API_KEY") || str_eq(key, "LASTFM_SHARED_SECRET") || str_eq(
        key,
        "RECOMMENDATION_PROVIDER",
    ) || str_eq(key, "METADATA_PROVIDER") || str_eq(key, "SUBSONIC_BASE_URL") || str_eq(
        key,
        "SUBSONIC_USERNAME",
    ) || str_eq(key, "SUBSONIC_USE_PASSWORD_AUTH") || str_eq(key, "SUBSONIC_PASSWORD") || str_eq(
        key,
        "LASTFM_SESSION_KEY",
    ) || str_eq(key, "LASTFM_USERNAME");
    proof {
        let ks = allowed_keys();
        if r {
            if key@ == "LASTFM_API_KEY"@ {
                assert(ks[0] == key@);
            } else if key@ == "LASTFM_SHARED_SECRET"@ {
                assert(ks[1] == key@);
            } else if key@ == "RECOMMENDATION_PROVIDER"@ {
                assert(ks[2] == key@);
            } else if key@ == "METADATA_PROVIDER"@ {
                assert(ks[3] == key@);
            } else if key@ == "SUBSONIC_BASE_URL"@ {
                assert(ks[4] == key@);
            } else if key@ == "SUBSONIC_USERNAME"@ {
                assert(ks[5] == key@);
            } else if key@ == "SUBSONIC_USE_PASSWORD_AUTH"@ {
                assert(ks[6] == key@);
            } else if key@ == "SUBSONIC_PASSWORD"@ {
                assert(ks[7] == key@);
            } else if key@ == "LASTFM_SESSION_KEY"@ {
                assert(ks[8] == key@);
            } else {
                assert(ks[9] == key@);
            }
        }
    }
    r
}

/// The updates that are written: those with an allowed key, in order.
pub open spec fn allowed_updates(us: Seq<(Seq<char>, Seq<char>)>) -> Seq<(Seq<char>, Seq<char>)>
    decreases us.len(),
{
    if us.len() == 0 {
        Seq::empty()
    } else if allowed_keys().contains(us.last().0) {
        allowed_updates(us.drop_last()).push(us.last())
    } else {
        allowed_updates(us.drop_last())
    }
}

/// Keeps the updates with an allowed key; an update without any is refused.
pub fn filter_setting_updates(updates: &Vec<(String, String)>) -> (r: Result<Vec<(String, String)>, String>)
    ensures
        allowed_updates(pair_views(updates@)).len() == 0 ==> (r matches Err(e) && e@
            == "No valid setting keys provided"@),
        allowed_updates(pair_views(updates@)).len() > 0 ==> (r matches Ok(v) && pair_views(v@)
            == allowed_updates(pair_views(updates@))),
{
    let ghost us = pair_views(updates@);
    let mut kept: Vec<(String, String)> = Vec::new();
    let mut i: usize = 0;
    while i < updates.len()
        invariant
            i <= updates@.len(),
            us == pair_views(updates@),
            pair_views(kept@) == allowed_updates(us.take(i as int)),
        decreases updates.len() - i,
    {
        proof {
            assert(us.take(i + 1).drop_last() == us.take(i as int));
            assert(us.take(i + 1).last() == us[i as int]);
        }
        if is_allowed_key(updates[i].0.as_str()) {
            let ghost prev = pair_views(kept@);
            let k = updates[i].0.clone();
            let v = updates[i].1.clone();
            kept.push((k, v));
            proof {
                assert(pair_views(kept@) =~= prev.push(us[i as int]));
            }
        }
        i = i + 1;
    }
    assert(us.take(updates@.len() as int) == us);
    if kept.len() == 0 {
        return Err("No valid setting keys provided".to_string());
    }
    Ok(kept)
}

/// Law: only allowed keys are ever written, and every allowed update is.
pub proof fn law_only_allowed_settings_written(us: Seq<(Seq<char>, Seq<char>)>)
    ensures
        forall|i: int|
            0 <= i < allowed_updates(us).len() ==> allowed_keys().contains(
                #[trigger] allowed_updates(us)[i].0,
            ),
        forall|i: int|
            0 <= i < us.len() && allowed_keys().contains(#[trigger] us[i].0) ==> allowed_updates(
                us,
            ).contains(us[i]),
    decreases us.len(),
{
    if us.len() > 0 {
        law_only_allowed_settings_written(us.drop_last());
        let p = allowed_updates(us.drop_last());
        assert forall|i: int|
            0 <= i < us.len() && allowed_keys().contains(#[trigger] us[i].0) implies allowed_updates(
            us,
        ).contains(us[i]) by {
            if i < us.len() - 1 {
                assert(us.drop_last()[i] == us[i]);
                assert(p.contains(us[i]));
                let k = choose|k: int| 0 <= k < p.len() && p[k] == us[i];
                assert(allowed_updates(us)[k] == us[i]);
            } else {
                assert(allowed_updates(us)[p.len() as int] == us[i]);
            }
        }
    }
}

// ---------------------------------------------------------------------------
// Liked artists
// ---------------------------------------------------------------------------

/// An artist the user liked.
pub struct LikedArtist {
    pub id: i64,
    pub name: String,
    pub source: Option<String>,
    pub external_id: Option<String>,
    pub created_at: String,
    pub updated_at: String,
}

/// The stored name of a liked artist: trimmed and non-empty.
pub fn liked_artist_name(name: &str) -> (r: Result<String, String>)
    ensures
        trim(name@).len() == 0 ==> (r matches Err(e) && e@ == "Artist name is required."@),
        trim(name@).len() > 0 ==> (r matches Ok(n) && n@ == trim(name@)),
{
    let n = trim_str(name);
    if n.as_str().is_empty() {
        Err("Artist name is required.".to_string())
    } else {
        Ok(n)
    }
}

// ---------------------------------------------------------------------------
// Library statistics
// ---------------------------------------------------------------------------

/// The counts shown on the statistics screen; the server counts are absent
/// when they could not be fetched.
pub struct LibraryStats {
    pub liked_artists: i64,
    pub playlist_count: Option<i64>,
    pub total_playlist_songs: Option<i64>,
    pub starred_songs: Option<i64>,
    pub last_fm_configured: bool,
}

/// Which server is asked for its counts: none without a profile or for a
/// local library.
pub fn counts_backend(profile: &Option<ActiveProfile>) -> (r: Option<Backend>)
    ensures
        match profile {
            None => r is None,
            Some(p) => if backend_spec(p.server_type@) == Backend::Local {
                r is None
            } else {
                r == Some(backend_spec(p.server_type@))
            },
        },
{
    match profile {
        None => None,
        Some(p) => {
            let b = backend_of(p.server_type.as_str());
            if b == Backend::Local {
                None
            } else {
                Some(b)
            }
        },
    }
}

pub fn library_stats(liked_artists: i64, last_fm_configured: bool, counts: Option<(i64, i64, i64)>) -> (r:
    LibraryStats)
    ensures
        r.liked_artists == liked_artists,
        r.last_fm_configured == last_fm_configured,
        match counts {
            Some((a, b, c)) => r.playlist_count == Some(a) && r.total_playlist_songs == Some(b)
                && r.starred_songs == Some(c),
            None => r.playlist_count is None && r.total_playlist_songs is None
                && r.starred_songs is None,
        },
{
    match counts {
        Some((a, b, c)) => LibraryStats {
            liked_artists,
            playlist_count: Some(a),
            total_playlist_songs: Some(b),
            starred_songs: Some(c),
            last_fm_configured,
        },
        None => LibraryStats {
            liked_artists,
            playlist_count: None,
            total_playlist_songs: None,
            starred_songs: None,
            last_fm_configured,
        },
    }
}

// ---------------------------------------------------------------------------
// Loudness normalisation
// ---------------------------------------------------------------------------

/// The loudness target of track normalisation: -14 dBFS (the LUFS target
/// of streaming services) or the legacy -18 dBFS RMS target.
#[derive(Clone, Copy, Debug, PartialEq, Eq, Structural)]
pub enum NormalizationMode {
    Lufs,
    Rms,
}

} // verus!
