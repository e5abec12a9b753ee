//! Jellyfin and Emby: the authorisation header and the URLs of endpoints,
//! artwork and downloads.  The API key is kept in the profile's password.
use vstd::prelude::*;
use crate::json::{
    json_error_of, json_str_at, json_u64_at, json_len_at, json_null_at, json_member, json_syntax, json_str,
    json_u64, json_len, json_null, member, element, as_opt_str, str_or_empty, string_or_empty,
};
use crate::profiles::opt_view;
use crate::numfmt::decimal;
use crate::profiles::ActiveProfile;
use crate::text::{chars_of, string_of, extend_chars, trim_char_end, trim_char_start, trim};
use crate::library::{optional_string, optional_u32};

verus! {

/// The `X-Emby-Authorization` header of a client: its name (also the
/// device id's prefix), its version, and the API key as token.
pub open spec fn client_auth_header_spec(client: Seq<char>, version: Seq<char>, token: Seq<char>) -> Seq<char> {
    "MediaBrowser Client=\""@ + client + "\", Device=\"Desktop\", DeviceId=\""@ + client
        + "-desktop\", Version=\""@ + version + "\", Token=\""@ + token + "\""@
}

pub open spec fn auth_header_spec(token: Seq<char>) -> Seq<char> {
    client_auth_header_spec("naviarr"@, "1.0.0"@, token)
}

/// The authorisation header for a named client and version.
pub fn client_auth_header(client: &str, version: &str, token: &str) -> (r: String)
    ensures
        r@ == client_auth_header_spec(client@, version@, token@),
{
    let mut v = chars_of("MediaBrowser Client=\"");
    extend_chars(&mut v, &chars_of(client));
    extend_chars(&mut v, &chars_of("\", Device=\"Desktop\", DeviceId=\""));
    extend_chars(&mut v, &chars_of(client));
    extend_chars(&mut v, &chars_of("-desktop\", Version=\""));
    extend_chars(&mut v, &chars_of(version));
    extend_chars(&mut v, &chars_of("\", Token=\""));
    extend_chars(&mut v, &chars_of(token));
    extend_chars(&mut v, &chars_of("\""));
    string_of(&v)
}

/// The `X-Emby-Authorization` header carrying the API key.
pub fn auth_header(p: &ActiveProfile) -> (r: String)
    ensures
        r@ == auth_header_spec(p.password@),
{
    client_auth_header("naviarr", "1.0.0", p.password.as_str())
}

/// The server URL without trailing slashes.
fn server_root(p: &ActiveProfile) -> (r: Vec<char>)
    ensures
        r@ == trim_char_end(p.url@, '/'),
{
    let v = chars_of(p.url.as_str());
    crate::text::trim_end_char_chars(&v, '/')
}

/// An API path on the server: exactly one slash between the server URL and
/// the path.
pub open spec fn endpoint_spec(server: Seq<char>, path: Seq<char>) -> Seq<char> {
    trim_char_end(server, '/') + seq!['/'] + trim_char_start(path, '/')
}

pub fn endpoint(p: &ActiveProfile, path: &str) -> (r: String)
    ensures
        r@ == endpoint_spec(p.url@, path@),
{
    let mut v = server_root(p);
    v.push('/');
    let pv = chars_of(path);
    extend_chars(&mut v, &crate::text::trim_start_char_chars(&pv, '/'));
    string_of(&v)
}

pub open spec fn cover_url_spec(server: Seq<char>, item_id: Seq<char>, size: nat) -> Seq<char> {
    if item_id.len() == 0 {
        Seq::empty()
    } else {
        trim_char_end(server, '/') + "/Items/"@ + item_id + "/Images/Primary?fillHeight="@ + decimal(
            size,
        ) + "&fillWidth="@ + decimal(size) + "&quality=96"@
    }
}

/// The primary image of an item scaled to a square of `size`; empty for an
/// empty id.
pub fn cover_url(p: &ActiveProfile, item_id: &str, size: u32) -> (r: String)
    ensures
        r@ == cover_url_spec(p.url@, item_id@, size as nat),
{
    if item_id.is_empty() {
        return String::new();
    }
    let mut v = server_root(p);
    extend_chars(&mut v, &chars_of("/Items/"));
    extend_chars(&mut v, &chars_of(item_id));
    extend_chars(&mut v, &chars_of("/Images/Primary?fillHeight="));
    crate::numfmt::push_decimal(&mut v, size as u64);
    extend_chars(&mut v, &chars_of("&fillWidth="));
    crate::numfmt::push_decimal(&mut v, size as u64);
    extend_chars(&mut v, &chars_of("&quality=96"));
    string_of(&v)
}

pub open spec fn stream_url_spec(server: Seq<char>, id: Seq<char>, api_key: Seq<char>) -> Seq<char> {
    if id.len() == 0 {
        Seq::empty()
    } else {
        trim_char_end(server, '/') + "/Items/"@ + id + "/Download?api_key="@ + api_key
    }
}

/// The download URL of an item with the API key in the query, so that an
/// audio element can load it; empty for an empty id.
pub fn stream_url(p: &ActiveProfile, id: &str) -> (r: String)
    ensures
        r@ == stream_url_spec(p.url@, id@, p.password@),
{
    if id.is_empty() {
        return String::new();
    }
    let mut v = server_root(p);
    extend_chars(&mut v, &chars_of("/Items/"));
    extend_chars(&mut v, &chars_of(id));
    extend_chars(&mut v, &chars_of("/Download?api_key="));
    extend_chars(&mut v, &chars_of(p.password.as_str()));
    string_of(&v)
}

/// The error of a failed request: the HTTP status and the response body.
pub fn request_error(status: &str, body: &str) -> (r: String)
    ensures
        r@ == "Jellyfin error "@ + status@ + ": "@ + body@,
{
    let mut v = chars_of("Jellyfin error ");
    extend_chars(&mut v, &chars_of(status));
    extend_chars(&mut v, &chars_of(": "));
    extend_chars(&mut v, &chars_of(body));
    string_of(&v)
}

/// The user id read from `/Users/Me`.
pub fn user_id_result(id: Option<String>) -> (r: Result<String, String>)
    ensures
        r is Ok <==> id is Some,
        r matches Ok(u) ==> u == id->0,
        r matches Err(e) ==> e@ == "Failed to get user ID from Jellyfin/Emby"@,
{
    match id {
        Some(u) => Ok(u),
        None => Err("Failed to get user ID from Jellyfin/Emby".to_string()),
    }
}


/// The container of an item: its own `Container` field, else that of its
/// first media source; trimmed, and absent when blank.
pub fn j_audio_format(container: Option<&str>, source_container: Option<&str>) -> (r: Option<String>)
    ensures
        ({
            let c = if container is Some { container } else { source_container };
            &&& r is Some <==> (c matches Some(x) && trim(x@).len() > 0)
            &&& r matches Some(x) ==> (c matches Some(y) && x@ == trim(y@))
        }),
{
    let c = if container.is_some() { container } else { source_container };
    optional_string(c)
}

/// The bitrate of an item in kbit/s: its own `Bitrate` (in bit/s), else that
/// of its first media source, divided by 1000; absent when zero or too large
/// for 32 bits.
pub fn j_bitrate_kbps(bitrate: Option<u64>, source_bitrate: Option<u64>) -> (r: Option<u32>)
    ensures
        ({
            let b = if bitrate is Some { bitrate } else { source_bitrate };
            &&& r is Some <==> (b matches Some(x) && 0 < x / 1000 <= u32::MAX)
            &&& r matches Some(k) ==> (b matches Some(x) && k == x / 1000)
        }),
{
    let b = if bitrate.is_some() { bitrate } else { source_bitrate };
    match b {
        Some(x) => optional_u32(Some(x / 1000)),
        None => None,
    }
}

/// The user id of a `/Users/Me` reply text: the parse error, the `Id`
/// string, or an error when there is none.
pub fn jellyfin_user_id(text: &str) -> (r: Result<String, String>)
    ensures
        match json_error_of(text@) {
            Some(m) => r matches Err(e) && e@ == m,
            None => match json_str_at(text@, "/Id"@) {
                Some(id) => r matches Ok(u) && u@ == id,
                None => r matches Err(e) && e@ == "Failed to get user ID from Jellyfin/Emby"@,
            },
        },
{
    json_syntax(text)?;
    user_id_result(json_str(text, "/Id"))
}

/// The container and bitrate `jellyfin_format_at` reads for the item at
/// `item`.
pub open spec fn jellyfin_format_spec(r: (Option<String>, Option<u32>), text: Seq<char>, item: Seq<char>) -> bool {
    let sources = json_member(item, "MediaSources"@);
    let has_source = json_len_at(text, sources) matches Some(n) && n > 0;
    let source = json_member(sources, "0"@);
    let own = json_str_at(text, json_member(item, "Container"@));
    let c = if own is Some {
        own
    } else if has_source {
        json_str_at(text, json_member(source, "Container"@))
    } else {
        None
    };
    let own_rate = json_u64_at(text, json_member(item, "Bitrate"@));
    let b = if own_rate is Some {
        own_rate
    } else if has_source {
        json_u64_at(text, json_member(source, "Bitrate"@))
    } else {
        None
    };
    &&& r.0 is Some <==> (c matches Some(x) && trim(x).len() > 0)
    &&& r.0 matches Some(x) ==> (c matches Some(y) && x@ == trim(y))
    &&& r.1 is Some <==> (b matches Some(x) && 0 < x / 1000 <= u32::MAX)
    &&& r.1 matches Some(k) ==> (b matches Some(x) && k == x / 1000)
}

/// The container and bitrate of the item at `item` of a reply: its own
/// fields, else those of its first media source (see `j_audio_format` and
/// `j_bitrate_kbps`).
pub fn jellyfin_format_at(text: &str, item: &str) -> (r: (Option<String>, Option<u32>))
    ensures
        jellyfin_format_spec(r, text@, item@),
{
    let sources = member(item, "MediaSources");
    let has_source = match json_len(text, sources.as_str()) {
        Some(n) => n > 0,
        None => false,
    };
    let source = member(sources.as_str(), "0");
    let own = json_str(text, member(item, "Container").as_str());
    let source_container = if has_source {
        json_str(text, member(source.as_str(), "Container").as_str())
    } else {
        None
    };
    let format = j_audio_format(as_opt_str(&own), as_opt_str(&source_container));
    let own_rate = json_u64(text, member(item, "Bitrate").as_str());
    let source_rate = if has_source {
        json_u64(text, member(source.as_str(), "Bitrate").as_str())
    } else {
        None
    };
    (format, j_bitrate_kbps(own_rate, source_rate))
}

/// The string at element 0 of the array at member `key` of `item` (nothing
/// when that member is not a non-empty array).
pub open spec fn first_str_at(text: Seq<char>, item: Seq<char>, key: Seq<char>) -> Option<Seq<char>> {
    let arr = json_member(item, key);
    if json_len_at(text, arr) matches Some(n) && n > 0 {
        json_str_at(text, json_member(arr, "0"@))
    } else {
        None
    }
}

fn first_str(text: &str, item: &str, key: &str) -> (r: Option<String>)
    ensures
        opt_view(r) == first_str_at(text@, item@, key@),
{
    let arr = member(item, key);
    let non_empty = match json_len(text, arr.as_str()) {
        Some(n) => n > 0,
        None => false,
    };
    if non_empty {
        json_str(text, member(arr.as_str(), "0").as_str())
    } else {
        None
    }
}

/// The fields of an audio item of a reply that are not durations.
pub struct JellyfinSong {
    pub id: String,
    pub title: String,
    pub artist: String,
    pub album: String,
    pub album_id: String,
    pub cover_id: String,
    pub audio_format: Option<String>,
    pub bitrate_kbps: Option<u32>,
    pub genre: Option<String>,
}

/// What `jellyfin_song_at` reads of the item at `item`: its id, name,
/// album and album id; its first artist; the item whose image is its cover
/// (its own when it has a primary image tag, else its album); its first
/// genre; and its format and bitrate (see `jellyfin_format_at`).
pub open spec fn jellyfin_song_spec(r: JellyfinSong, text: Seq<char>, item: Seq<char>) -> bool {
    let id = str_or_empty(json_str_at(text, json_member(item, "Id"@)));
    let album_id = str_or_empty(json_str_at(text, json_member(item, "AlbumId"@)));
    &&& r.id@ == id
    &&& r.title@ == str_or_empty(json_str_at(text, json_member(item, "Name"@)))
    &&& r.album@ == str_or_empty(json_str_at(text, json_member(item, "Album"@)))
    &&& r.album_id@ == album_id
    &&& r.artist@ == str_or_empty(first_str_at(text, item, "Artists"@))
    &&& r.cover_id@ == (if json_null_at(text, json_member(json_member(item, "ImageTags"@), "Primary"@)) is Some {
        id
    } else {
        album_id
    })
    &&& opt_view(r.genre) == first_str_at(text, item, "Genres"@)
    &&& jellyfin_format_spec((r.audio_format, r.bitrate_kbps), text, item)
}

/// The audio item at `item` of a reply text.
pub fn jellyfin_song_at(text: &str, item: &str) -> (r: JellyfinSong)
    ensures
        jellyfin_song_spec(r, text@, item@),
        jellyfin_format_spec((r.audio_format, r.bitrate_kbps), text@, item@),
{
    let id = string_or_empty(json_str(text, member(item, "Id").as_str()));
    let album_id = string_or_empty(json_str(text, member(item, "AlbumId").as_str()));
    let tags = member(item, "ImageTags");
    let has_primary = json_null(text, member(tags.as_str(), "Primary").as_str()).is_some();
    let cover_id = if has_primary {
        id.clone()
    } else {
        album_id.clone()
    };
    let (audio_format, bitrate_kbps) = jellyfin_format_at(text, item);
    JellyfinSong {
        id,
        title: string_or_empty(json_str(text, member(item, "Name").as_str())),
        artist: string_or_empty(first_str(text, item, "Artists")),
        album: string_or_empty(json_str(text, member(item, "Album").as_str())),
        album_id,
        cover_id,
        audio_format,
        bitrate_kbps,
        genre: first_str(text, item, "Genres"),
    }
}

/// The audio items of the `Items` array of a reply text, in order.
pub fn jellyfin_songs(text: &str) -> (r: Vec<JellyfinSong>)
    ensures
        r@.len() == (match json_len_at(text@, "/Items"@) {
            Some(n) => n as int,
            None => 0,
        }),
        forall|i: int|
            0 <= i < r@.len() ==> jellyfin_song_spec(#[trigger] r@[i], text@, json_member("/Items"@, decimal(i as nat))),
{
    let n = match json_len(text, "/Items") {
        Some(n) => n,
        None => 0,
    };
    let mut out: Vec<JellyfinSong> = Vec::new();
    let mut i: usize = 0;
    while i < n
        invariant
            i <= n,
            out@.len() == i,
            n == (match json_len_at(text@, "/Items"@) {
                Some(n) => n as int,
                None => 0,
            }),
            forall|k: int|
                0 <= k < i ==> jellyfin_song_spec(#[trigger] out@[k], text@, json_member("/Items"@, decimal(k as nat))),
        decreases n - i,
    {
        let item = element("/Items", i);
        out.push(jellyfin_song_at(text, item.as_str()));
        i = i + 1;
    }
    out
}

} // verus!
