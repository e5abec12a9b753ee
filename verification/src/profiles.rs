//! Server profiles: the validation and normalisation rules applied when a
//! profile is created, updated, deleted, tested or read back from storage.
use vstd::prelude::*;
use crate::text::{trim, trim_char_end, trim_str, trim_end_char_str, str_eq};

verus! {

/// A stored server profile as shown to the user.
pub struct Profile {
    pub id: i64,
    pub name: String,
    pub url: String,
    pub username: String,
    pub server_type: String,
    pub is_active: bool,
    pub created_at: String,
    pub updated_at: String,
}

/// What the user submits when creating or editing a profile.
pub struct ProfileDraft {
    pub name: String,
    pub url: String,
    pub username: String,
    pub password: Option<String>,
    pub server_type: String,
}

/// The connection details of the profile in use.
pub struct ActiveProfile {
    pub url: String,
    pub username: String,
    pub password: String,
    pub server_type: String,
}

/// What the user submits to test a connection before saving it.
pub struct TestProfilePayload {
    pub url: String,
    pub username: String,
    pub password: String,
    pub server_type: String,
}

/// The cleaned fields of a profile about to be inserted.
pub struct NewProfile {
    pub name: String,
    pub url: String,
    pub username: String,
    pub password: String,
    pub server_type: String,
}

/// The fields an update writes; `None` leaves the stored value alone.
pub struct ProfileUpdate {
    pub name: Option<String>,
    pub url: Option<String>,
    pub username: Option<String>,
    pub password: Option<String>,
    pub server_type: String,
}

/// A server URL as stored: trimmed, without trailing slashes.
pub open spec fn server_url(s: Seq<char>) -> Seq<char> {
    trim_char_end(trim(s), '/')
}

/// The server types a profile may be saved with.
pub open spec fn is_known_server_type(t: Seq<char>) -> bool {
    ||| t == "subsonic"@
    ||| t == "subsonic_legacy"@
    ||| t == "jellyfin"@
    ||| t == "emby"@
}

/// Unknown server types are stored as Subsonic.
pub open spec fn normalized_server_type(t: Seq<char>) -> Seq<char> {
    if is_known_server_type(t) {
        t
    } else {
        "subsonic"@
    }
}

/// The password of a draft, absent counting as empty.
pub open spec fn draft_password(p: Option<String>) -> Seq<char> {
    match p {
        Some(s) => s@,
        None => Seq::empty(),
    }
}

/// The first rule a new profile breaks, if any.
pub open spec fn new_profile_error(d: ProfileDraft) -> Option<Seq<char>> {
    if trim(d.name@).len() == 0 {
        Some("name is required"@)
    } else if server_url(d.url@).len() == 0 {
        Some("url is required"@)
    } else if trim(d.username@).len() == 0 {
        Some("username is required"@)
    } else if trim(draft_password(d.password)).len() == 0 {
        Some("password is required"@)
    } else {
        None
    }
}

/// `s.trim_end_matches('/')` after `s.trim()`.
pub fn normalize_server_url(s: &str) -> (r: String)
    ensures
        r@ == server_url(s@),
{
    let t = trim_str(s);
    trim_end_char_str(t.as_str(), '/')
}

/// Keeps a known server type and maps any other to `"subsonic"`.
pub fn normalize_server_type(server_type: &str) -> (r: String)
    ensures
        r@ == normalized_server_type(server_type@),
{
    if str_eq(server_type, "subsonic") || str_eq(server_type, "subsonic_legacy") || str_eq(
        server_type,
        "jellyfin",
    ) || str_eq(server_type, "emby") {
        server_type.to_string()
    } else {
        "subsonic".to_string()
    }
}

/// Checks and cleans a draft for insertion: every field is trimmed, the URL
/// loses its trailing slashes, and each of name, URL, username and password
/// must be non-empty, checked in that order.
pub fn validate_new_profile(data: &ProfileDraft) -> (r: Result<NewProfile, String>)
    ensures
        r is Err <==> new_profile_error(*data) is Some,
        r matches Err(e) ==> Some(e@) == new_profile_error(*data),
        r matches Ok(p) ==> {
            &&& p.name@ == trim(data.name@)
            &&& p.url@ == server_url(data.url@)
            &&& p.username@ == trim(data.username@)
            &&& p.password@ == trim(draft_password(data.password))
            &&& p.server_type@ == normalized_server_type(data.server_type@)
        },
{
    let name = trim_str(data.name.as_str());
    let url = normalize_server_url(data.url.as_str());
    let username = trim_str(data.username.as_str());
    let password = match &data.password {
        Some(p) => trim_str(p.as_str()),
        None => String::new(),
    };
    if name.as_str().is_empty() {
        return Err("name is required".to_string());
    }
    if url.as_str().is_empty() {
        return Err("url is required".to_string());
    }
    if username.as_str().is_empty() {
        return Err("username is required".to_string());
    }
    if password.as_str().is_empty() {
        return Err("password is required".to_string());
    }
    let server_type = normalize_server_type(data.server_type.as_str());
    Ok(NewProfile { name, url, username, password, server_type })
}

/// A trimmed value, or `None` when nothing is left of it.
pub open spec fn kept_if_nonempty(s: Seq<char>) -> Option<Seq<char>> {
    if s.len() == 0 {
        None
    } else {
        Some(s)
    }
}

pub open spec fn opt_view(o: Option<String>) -> Option<Seq<char>> {
    match o {
        Some(s) => Some(s@),
        None => None,
    }
}

fn nonempty_or_none(s: String) -> (r: Option<String>)
    ensures
        opt_view(r) == kept_if_nonempty(s@),
{
    if s.as_str().is_empty() {
        None
    } else {
        Some(s)
    }
}

/// What an update of an existing profile writes: each of name, URL, username
/// and password only when it is non-empty after trimming (the URL also loses
/// its trailing slashes), and always the normalised server type.
pub fn plan_profile_update(data: &ProfileDraft) -> (r: ProfileUpdate)
    ensures
        opt_view(r.name) == kept_if_nonempty(trim(data.name@)),
        opt_view(r.url) == kept_if_nonempty(server_url(data.url@)),
        opt_view(r.username) == kept_if_nonempty(trim(data.username@)),
        opt_view(r.password) == (match data.password {
            Some(p) => kept_if_nonempty(trim(p@)),
            None => None,
        }),
        r.server_type@ == normalized_server_type(data.server_type@),
{
    let name = nonempty_or_none(trim_str(data.name.as_str()));
    let url = nonempty_or_none(normalize_server_url(data.url.as_str()));
    let username = nonempty_or_none(trim_str(data.username.as_str()));
    let password = match &data.password {
        Some(p) => nonempty_or_none(trim_str(p.as_str())),
        None => None,
    };
    let server_type = normalize_server_type(data.server_type.as_str());
    ProfileUpdate { name, url, username, password, server_type }
}

/// A new profile is made active exactly when no profile was stored before
/// (`count` is the number of stored profiles).
pub fn new_profile_active(count: i64) -> (r: bool)
    ensures
        r == (count == 0),
{
    count == 0
}

/// An update may go ahead only when a profile with the id is stored
/// (`stored` is the number of stored profiles with that id).
pub fn check_profile_exists(stored: i64) -> (r: Result<(), String>)
    ensures
        stored > 0 ==> r is Ok,
        stored <= 0 ==> (r matches Err(e) && e@ == "Profile not found"@),
{
    if stored > 0 {
        Ok(())
    } else {
        Err("Profile not found".to_string())
    }
}

/// The deletion rule.  `found` is the stored profile's active flag and the
/// number of stored profiles, or `None` when no profile has the id.  The only
/// profile cannot be deleted while it is active; otherwise the result says
/// whether the first remaining profile must become active.
pub fn decide_profile_deletion(found: Option<(bool, i64)>) -> (r: Result<bool, String>)
    ensures
        found is None ==> (r matches Err(e) && e@ == "Profile not found"@),
        found matches Some((active, count)) ==> {
            if active && count == 1 {
                (r matches Err(e) && e@ == "Cannot delete the only server profile"@)
            } else {
                r == Ok::<bool, String>(active)
            }
        },
{
    match found {
        None => Err("Profile not found".to_string()),
        Some((active, count)) => {
            if active && count == 1 {
                Err("Cannot delete the only server profile".to_string())
            } else {
                Ok(active)
            }
        },
    }
}

/// Builds a profile from a stored row: a missing server type reads as
/// `"subsonic"` and any non-zero active flag as active.
pub fn profile_from_row(
    id: i64,
    name: String,
    url: String,
    username: String,
    server_type: Option<String>,
    is_active: i64,
    created_at: String,
    updated_at: String,
) -> (r: Profile)
    ensures
        r.id == id,
        r.name@ == name@,
        r.url@ == url@,
        r.username@ == username@,
        r.server_type@ == (match server_type {
            Some(t) => t@,
            None => "subsonic"@,
        }),
        r.is_active == (is_active != 0),
        r.created_at@ == created_at@,
        r.updated_at@ == updated_at@,
{
    let server_type = match server_type {
        Some(t) => t,
        None => "subsonic".to_string(),
    };
    Profile {
        id,
        name,
        url,
        username,
        server_type,
        is_active: is_active != 0,
        created_at,
        updated_at,
    }
}

/// The active profile read from storage, its URL without trailing slashes.
pub fn active_profile_from_row(url: &str, username: String, password: String, server_type: String) -> (r:
    ActiveProfile)
    ensures
        r.url@ == trim_char_end(url@, '/'),
        r.username@ == username@,
        r.password@ == password@,
        r.server_type@ == server_type@,
{
    ActiveProfile { url: trim_end_char_str(url, '/'), username, password, server_type }
}

/// The profile a connection test uses: fields trimmed, and the URL of any
/// server but a local library also without trailing slashes.
pub fn test_profile(data: &TestProfilePayload) -> (r: ActiveProfile)
    ensures
        r.url@ == (if data.server_type@ == "local"@ {
            trim(data.url@)
        } else {
            server_url(data.url@)
        }),
        r.username@ == trim(data.username@),
        r.password@ == trim(data.password@),
        r.server_type@ == data.server_type@,
{
    let url = if str_eq(data.server_type.as_str(), "local") {
        trim_str(data.url.as_str())
    } else {
        normalize_server_url(data.url.as_str())
    };
    ActiveProfile {
        url,
        username: trim_str(data.username.as_str()),
        password: trim_str(data.password.as_str()),
        server_type: data.server_type.clone(),
    }
}

/// The answer to a connection test, given whether the server accepted the
/// credentials.
pub fn connection_test_outcome(ok: bool) -> (r: Result<(), String>)
    ensures
        r is Ok <==> ok,
        r matches Err(e) ==> e@ == "Server responded but reported an error \u{2014} check your credentials."@,
{
    if ok {
        Ok(())
    } else {
        Err("Server responded but reported an error \u{2014} check your credentials.".to_string())
    }
}

} // verus!
