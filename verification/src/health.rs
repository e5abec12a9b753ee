//! The status lights of the settings screen.
use vstd::prelude::*;

verus! {

/// The status of the media server and of Last.fm: `"online"`, `"offline"`
/// or `"missing"`.
pub struct ServiceHealth {
    pub subsonic: String,
    pub lastfm: String,
}

/// A stored setting counts only when it is non-empty.
pub open spec fn setting_present(v: Option<String>) -> bool {
    v matches Some(s) && s@.len() > 0
}

/// Last.fm is online with a session key, offline with only an API key, and
/// missing without either.
pub open spec fn lastfm_status_spec(session: Option<String>, api_key: Option<String>) -> Seq<char> {
    if setting_present(session) {
        "online"@
    } else if setting_present(api_key) {
        "offline"@
    } else {
        "missing"@
    }
}

pub fn lastfm_health(session: &Option<String>, api_key: &Option<String>) -> (r: String)
    ensures
        r@ == lastfm_status_spec(*session, *api_key),
{
    let has_session = match session {
        Some(s) => !s.as_str().is_empty(),
        None => false,
    };
    let has_key = match api_key {
        Some(s) => !s.as_str().is_empty(),
        None => false,
    };
    if has_session {
        "online".to_string()
    } else if has_key {
        "offline".to_string()
    } else {
        "missing".to_string()
    }
}

/// The media server is missing without an active profile, online when its
/// ping succeeded, and offline otherwise.  `ping` is `None` without a
/// profile and else whether the ping reported success.
pub fn server_health(ping: Option<bool>) -> (r: String)
    ensures
        r@ == (match ping {
            None => "missing"@,
            Some(true) => "online"@,
            Some(false) => "offline"@,
        }),
{
    match ping {
        None => "missing".to_string(),
        Some(true) => "online".to_string(),
        Some(false) => "offline".to_string(),
    }
}

/// Both statuses together.
pub fn service_health(ping: Option<bool>, session: &Option<String>, api_key: &Option<String>) -> (r:
    ServiceHealth)
    ensures
        r.subsonic@ == (match ping {
            None => "missing"@,
            Some(true) => "online"@,
            Some(false) => "offline"@,
        }),
        r.lastfm@ == lastfm_status_spec(*session, *api_key),
{
    ServiceHealth { subsonic: server_health(ping), lastfm: lastfm_health(session, api_key) }
}

} // verus!
