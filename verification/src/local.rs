//! Local music folders: the library root, supported files, the names a
//! track takes from its path and tags, stable ids, and the ordering and
//! filtering of what a scan found.
use vstd::prelude::*;
use vstd::string::StringSliceAdditionalSpecFns;
use vstd::utf8::encode_utf8;
use crate::digest::md5_hex;
use crate::library::{string_seq_view, match_key, normalize_match};
use crate::sorting::{insert_by, sort_by, lemma_insert_by_at};
use crate::text::{
    chars_of, string_of, extend_chars, trim, trim_str, trim_char_end, contains_seq, contains_chars,
    str_eq, trim_end_char_str,
};
use crate::lastfm::{key_lt, key_less};
use rand::seq::SliceRandom;

verus! {

/// The audio file extensions a scan picks up.
pub open spec fn is_audio_extension(e: Seq<char>) -> bool {
    ||| e == "mp3"@
    ||| e == "flac"@
    ||| e == "m4a"@
    ||| e == "aac"@
    ||| e == "ogg"@
    ||| e == "oga"@
    ||| e == "opus"@
    ||| e == "wav"@
}

/// Library text is compared trimmed and lower-cased.
pub fn normalize(value: &str) -> (r: String)
    ensures
        r@ == match_key(value@),
{
    normalize_match(value)
}

/// The library root as configured: trimmed, without trailing slashes, `/`
/// itself kept.
pub open spec fn local_root_spec(raw: Seq<char>) -> Seq<char> {
    if trim(raw).len() == 0 {
        Seq::empty()
    } else if trim(raw) == "/"@ {
        "/"@
    } else {
        trim_char_end(trim(raw), '/')
    }
}

pub fn normalize_local_root(raw: &str) -> (r: String)
    ensures
        r@ == local_root_spec(raw@),
{
    let trimmed = trim_str(raw);
    if trimmed.as_str().is_empty() {
        return String::new();
    }
    if str_eq(trimmed.as_str(), "/") {
        return "/".to_string();
    }
    trim_end_char_str(trimmed.as_str(), '/')
}

// ---------------------------------------------------------------------------
// Paths
// ---------------------------------------------------------------------------

/// The components of a path as `std::path::Path::components` yields them,
/// each as text.  Path syntax is that of the platform the library is built
/// for, fixed when it is compiled.
pub uninterp spec fn path_components_of(p: Seq<char>) -> Seq<Seq<char>>;

/// The path left after removing `base` from the front of `p`
/// (`Path::strip_prefix`), or `None` when `base` is not a prefix of it
/// (path syntax of the platform the library is built for).
pub uninterp spec fn path_strip_prefix(p: Seq<char>, base: Seq<char>) -> Option<Seq<char>>;

/// `Path::file_stem`: the file name without its extension, if the path
/// has a file name (path syntax of the platform the library is built for).
pub uninterp spec fn path_file_stem(p: Seq<char>) -> Option<Seq<char>>;

/// `Path::extension`: the text after the last dot of the file name, if
/// there is one (path syntax of the platform the library is built for).
pub uninterp spec fn path_extension(p: Seq<char>) -> Option<Seq<char>>;

/// `Path::new(p).components()`, each component's text collected.  Paths
/// given as strings are valid UTF-8, so no component is dropped.
#[verifier::external_body]
fn path_components(p: &str) -> (r: Vec<String>)
    ensures
        string_seq_view(r@) == path_components_of(p@),
{
    std::path::Path::new(p).components().filter_map(
        |c| c.as_os_str().to_str().map(|s| s.to_string()),
    ).collect()
}

/// `Path::new(p).strip_prefix(base)`, the rest as a string.
#[verifier::external_body]
fn strip_path_prefix(p: &str, base: &str) -> (r: Option<String>)
    ensures
        match r {
            Some(s) => path_strip_prefix(p@, base@) == Some(s@),
            None => path_strip_prefix(p@, base@) is None,
        },
{
    std::path::Path::new(p).strip_prefix(base).ok().and_then(|rest| rest.to_str()).map(
        |s| s.to_string(),
    )
}

/// `Path::new(p).file_stem()` as a string.
#[verifier::external_body]
fn file_stem(p: &str) -> (r: Option<String>)
    ensures
        match r {
            Some(s) => path_file_stem(p@) == Some(s@),
            None => path_file_stem(p@) is None,
        },
{
    std::path::Path::new(p).file_stem().and_then(|s| s.to_str()).map(|s| s.to_string())
}

/// `Path::new(p).extension()` as a string.
#[verifier::external_body]
fn extension(p: &str) -> (r: Option<String>)
    ensures
        match r {
            Some(s) => path_extension(p@) == Some(s@),
            None => path_extension(p@) is None,
        },
{
    std::path::Path::new(p).extension().and_then(|s| s.to_str()).map(|s| s.to_string())
}

/// Whether a file is picked up by a scan: its extension, lower-cased, is a
/// known audio extension.
pub fn supported_extension(path: &str) -> (r: bool)
    ensures
        r == (path_extension(path@) matches Some(e) && is_audio_extension(
            crate::text::unicode_lowercase(e),
        )),
{
    match extension(path) {
        Some(e) => {
            let l = crate::text::to_lowercase(e.as_str());
            let s = l.as_str();
            str_eq(s, "mp3") || str_eq(s, "flac") || str_eq(s, "m4a") || str_eq(s, "aac") || str_eq(
                s,
                "ogg",
            ) || str_eq(s, "oga") || str_eq(s, "opus") || str_eq(s, "wav")
        },
        None => false,
    }
}

/// Whether the first `n` components of `a` and `b` agree once normalised.
pub open spec fn same_prefix(a: Seq<Seq<char>>, b: Seq<Seq<char>>, n: int) -> bool {
    forall|i: int| 0 <= i < n ==> #[trigger] match_key(a[i]) == match_key(b[i])
}

/// The components of a file below the library root: those after the root
/// when the root is a prefix of the path, else after a root that matches
/// when compared case-insensitively, else all of them.
pub open spec fn relative_parts_spec(root: Seq<char>, file: Seq<char>) -> Seq<Seq<char>> {
    match path_strip_prefix(file, root) {
        Some(rest) => path_components_of(rest),
        None => {
            let rc = path_components_of(root);
            let fc = path_components_of(file);
            if fc.len() >= rc.len() && same_prefix(fc, rc, rc.len() as int) {
                fc.skip(rc.len() as int)
            } else {
                fc
            }
        },
    }
}

pub fn relative_parts(root: &str, file: &str) -> (r: Vec<String>)
    ensures
        string_seq_view(r@) == relative_parts_spec(root@, file@),
{
    match strip_path_prefix(file, root) {
        Some(rest) => path_components(rest.as_str()),
        None => {
            let rc = path_components(root);
            let fc = path_components(file);
            let ghost rv = string_seq_view(rc@);
            let ghost fv = string_seq_view(fc@);
            if fc.len() < rc.len() {
                return fc;
            }
            let mut i: usize = 0;
            let mut same = true;
            while i < rc.len()
                invariant
                    i <= rc@.len() <= fc@.len(),
                    rv == string_seq_view(rc@),
                    fv == string_seq_view(fc@),
                    same <==> same_prefix(fv, rv, i as int),
                decreases rc.len() - i,
            {
                let a = normalize(fc[i].as_str());
                let b = normalize(rc[i].as_str());
                proof {
                    assert(fv[i as int] == fc@[i as int]@);
                    assert(rv[i as int] == rc@[i as int]@);
                }
                if !str_eq(a.as_str(), b.as_str()) {
                    same = false;
                }
                i = i + 1;
            }
            if !same {
                return fc;
            }
            let mut out: Vec<String> = Vec::new();
            let mut j: usize = rc.len();
            while j < fc.len()
                invariant
                    rc@.len() <= j <= fc@.len(),
                    fv == string_seq_view(fc@),
                    string_seq_view(out@) == fv.subrange(rc@.len() as int, j as int),
                decreases fc.len() - j,
            {
                let ghost prev = string_seq_view(out@);
                out.push(fc[j].clone());
                proof {
                    assert(string_seq_view(out@) =~= prev.push(fv[j as int]));
                    assert(fv.subrange(rc@.len() as int, j + 1) =~= fv.subrange(
                        rc@.len() as int,
                        j as int,
                    ).push(fv[j as int]));
                }
                j = j + 1;
            }
            assert(fv.subrange(rc@.len() as int, fc@.len() as int) =~= fv.skip(rc@.len() as int));
            out
        },
    }
}

/// Artist, album and title of a file taken from its folders: for
/// `artist/album/…/file` the first two folders, for `artist/file` the
/// artist with the album "Singles", for a lone file "Unknown Artist" and
/// "Singles", and otherwise "Unknown Artist" and "Unknown Album"; the title
/// is the file stem (or "Unknown Track"), all trimmed.
pub open spec fn path_fallback_spec(root: Seq<char>, file: Seq<char>) -> (Seq<char>, Seq<char>, Seq<char>) {
    let parts = relative_parts_spec(root, file);
    let title = trim(
        match path_file_stem(file) {
            Some(s) => s,
            None => "Unknown Track"@,
        },
    );
    if parts.len() >= 3 {
        (trim(parts[0]), trim(parts[1]), title)
    } else if parts.len() == 2 {
        (trim(parts[0]), "Singles"@, title)
    } else if parts.len() == 1 {
        ("Unknown Artist"@, "Singles"@, title)
    } else {
        ("Unknown Artist"@, "Unknown Album"@, title)
    }
}

pub fn path_fallback(root: &str, file: &str) -> (r: (String, String, String))
    ensures
        (r.0@, r.1@, r.2@) == path_fallback_spec(root@, file@),
{
    let parts = relative_parts(root, file);
    let ghost pv = string_seq_view(parts@);
    let stem = match file_stem(file) {
        Some(s) => s,
        None => "Unknown Track".to_string(),
    };
    let title = trim_str(stem.as_str());
    if parts.len() >= 3 {
        proof {
            assert(pv[0] == parts@[0]@ && pv[1] == parts@[1]@);
        }
        (trim_str(parts[0].as_str()), trim_str(parts[1].as_str()), title)
    } else if parts.len() == 2 {
        proof {
            assert(pv[0] == parts@[0]@);
        }
        (trim_str(parts[0].as_str()), "Singles".to_string(), title)
    } else if parts.len() == 1 {
        ("Unknown Artist".to_string(), "Singles".to_string(), title)
    } else {
        ("Unknown Artist".to_string(), "Unknown Album".to_string(), title)
    }
}

/// A tag value overrides the name taken from the path when it is non-blank;
/// it is used trimmed.
pub open spec fn tag_or(tag: Option<String>, fallback: Seq<char>) -> Seq<char> {
    match tag {
        Some(t) => if trim(t@).len() > 0 {
            trim(t@)
        } else {
            fallback
        },
        None => fallback,
    }
}

fn tag_or_exec(tag: &Option<String>, fallback: String) -> (r: String)
    ensures
        r@ == tag_or(*tag, fallback@),
{
    match tag {
        Some(t) => {
            let tt = trim_str(t.as_str());
            if tt.as_str().is_empty() {
                fallback
            } else {
                tt
            }
        },
        None => fallback,
    }
}

/// The artist, album and title of a track: its tags over the names from
/// its path, an empty artist or album read as "Unknown Artist" or
/// "Unknown Album".
pub open spec fn track_names_spec(
    fallback: (Seq<char>, Seq<char>, Seq<char>),
    tag_artist: Option<String>,
    tag_album: Option<String>,
    tag_title: Option<String>,
) -> (Seq<char>, Seq<char>, Seq<char>) {
    let artist = tag_or(tag_artist, fallback.0);
    let album = tag_or(tag_album, fallback.1);
    (
        if artist.len() == 0 {
            "Unknown Artist"@
        } else {
            artist
        },
        if album.len() == 0 {
            "Unknown Album"@
        } else {
            album
        },
        tag_or(tag_title, fallback.2),
    )
}

pub fn track_names(
    fallback: (String, String, String),
    tag_artist: &Option<String>,
    tag_album: &Option<String>,
    tag_title: &Option<String>,
) -> (r: (String, String, String))
    ensures
        (r.0@, r.1@, r.2@) == track_names_spec(
            (fallback.0@, fallback.1@, fallback.2@),
            *tag_artist,
            *tag_album,
            *tag_title,
        ),
{
    let (fa, fb, ft) = fallback;
    let artist = tag_or_exec(tag_artist, fa);
    let album = tag_or_exec(tag_album, fb);
    let title = tag_or_exec(tag_title, ft);
    let artist = if artist.as_str().is_empty() {
        "Unknown Artist".to_string()
    } else {
        artist
    };
    let album = if album.as_str().is_empty() {
        "Unknown Album".to_string()
    } else {
        album
    };
    (artist, album, title)
}

/// The audio format of a file: its extension, trimmed, when non-empty.
pub fn audio_format(path: &str) -> (r: Option<String>)
    ensures
        match r {
            Some(f) => path_extension(path@) matches Some(e) && f@ == trim(e) && f@.len() > 0,
            None => !(path_extension(path@) matches Some(e) && trim(e).len() > 0),
        },
{
    match extension(path) {
        Some(e) => {
            let t = trim_str(e.as_str());
            if t.as_str().is_empty() {
                None
            } else {
                Some(t)
            }
        },
        None => None,
    }
}

/// The candidate artwork files next to a track, in order of preference.
pub open spec fn sidecar_names() -> Seq<Seq<char>> {
    seq![
        "cover.jpg"@,
        "cover.jpeg"@,
        "cover.png"@,
        "folder.jpg"@,
        "folder.jpeg"@,
        "folder.png"@,
        "front.jpg"@,
        "front.jpeg"@,
        "front.png"@,
        "album.jpg"@,
        "album.jpeg"@,
        "album.png"@,
    ]
}

/// The artwork files to look for in a track's folder, in order; the first
/// one that exists is used.
pub fn sidecar_cover_candidates(folder: &str) -> (r: Vec<String>)
    ensures
        r@.len() == sidecar_names().len(),
        forall|i: int|
            0 <= i < r@.len() ==> #[trigger] r@[i]@ == crate::disk_cache::join_path(
                folder@,
                sidecar_names()[i],
            ),
{
    let names: [&str; 12] = [
        "cover.jpg",
        "cover.jpeg",
        "cover.png",
        "folder.jpg",
        "folder.jpeg",
        "folder.png",
        "front.jpg",
        "front.jpeg",
        "front.png",
        "album.jpg",
        "album.jpeg",
        "album.png",
    ];
    let f = chars_of(folder);
    let mut out: Vec<String> = Vec::new();
    let mut i: usize = 0;
    while i < 12
        invariant
            i <= 12,
            f@ == folder@,
            names@ == seq![
                "cover.jpg",
                "cover.jpeg",
                "cover.png",
                "folder.jpg",
                "folder.jpeg",
                "folder.png",
                "front.jpg",
                "front.jpeg",
                "front.png",
                "album.jpg",
                "album.jpeg",
                "album.png",
            ],
            out@.len() == i,
            forall|k: int|
                0 <= k < i ==> #[trigger] out@[k]@ == crate::disk_cache::join_path(
                    folder@,
                    sidecar_names()[k],
                ),
        decreases 12 - i,
    {
        out.push(crate::disk_cache::join_path_str(folder, names[i]));
        i = i + 1;
    }
    out
}

// ---------------------------------------------------------------------------
// Ids
// ---------------------------------------------------------------------------

pub open spec fn album_id_spec(artist: Seq<char>, album: Seq<char>) -> Seq<char> {
    "local-album-"@ + md5_hex(encode_utf8(match_key(artist) + "::"@ + match_key(album)))
}

pub open spec fn artist_id_spec(artist: Seq<char>) -> Seq<char> {
    "local-artist-"@ + md5_hex(encode_utf8(match_key(artist)))
}

pub open spec fn song_id_spec(path: Seq<char>) -> Seq<char> {
    "local-song-"@ + md5_hex(encode_utf8(path))
}

/// The id of an album: the MD5 digest of its normalised artist and name.
pub fn album_id(artist: &str, album: &str) -> (r: String)
    ensures
        r@ == album_id_spec(artist@, album@),
{
    let mut key = chars_of(normalize(artist).as_str());
    extend_chars(&mut key, &chars_of("::"));
    extend_chars(&mut key, &chars_of(normalize(album).as_str()));
    let k = string_of(&key);
    let mut v = chars_of("local-album-");
    extend_chars(&mut v, &crate::digest::md5_hex_of_str(k.as_str()));
    string_of(&v)
}

/// The id of an artist: the MD5 digest of the normalised name.
pub fn artist_id(artist: &str) -> (r: String)
    ensures
        r@ == artist_id_spec(artist@),
{
    let k = normalize(artist);
    let mut v = chars_of("local-artist-");
    extend_chars(&mut v, &crate::digest::md5_hex_of_str(k.as_str()));
    string_of(&v)
}

/// The id of a track: the MD5 digest of its path.
pub fn song_id(path: &str) -> (r: String)
    ensures
        r@ == song_id_spec(path@),
{
    let mut v = chars_of("local-song-");
    extend_chars(&mut v, &crate::digest::md5_hex_of_str(path));
    string_of(&v)
}

/// Law: albums whose artist and name agree once trimmed and lower-cased
/// share one id, so a scan files their tracks together.
pub proof fn law_album_id_case_insensitive(a1: Seq<char>, n1: Seq<char>, a2: Seq<char>, n2: Seq<char>)
    requires
        match_key(a1) == match_key(a2),
        match_key(n1) == match_key(n2),
    ensures
        album_id_spec(a1, n1) == album_id_spec(a2, n2),
{
}

// ---------------------------------------------------------------------------
// Ordering and filtering scan results
// ---------------------------------------------------------------------------

/// A track's normalised artist, album and title, with its position.
pub type TrackKey = (Seq<char>, Seq<char>, Seq<char>, int);

/// Tracks are listed by artist, then album, then title.
pub open spec fn track_before(a: TrackKey, b: TrackKey) -> bool {
    ||| key_lt(a.0, b.0)
    ||| (a.0 == b.0 && key_lt(a.1, b.1))
    ||| (a.0 == b.0 && a.1 == b.1 && key_lt(a.2, b.2))
}

pub open spec fn track_order() -> spec_fn(TrackKey, TrackKey) -> bool {
    |a: TrackKey, b: TrackKey| track_before(a, b)
}

/// The normalised keys of the tracks, each with its position.
pub open spec fn track_keys(ts: Seq<(String, String, String)>) -> Seq<TrackKey> {
    Seq::new(
        ts.len(),
        |i: int| (match_key(ts[i].0@), match_key(ts[i].1@), match_key(ts[i].2@), i),
    )
}

pub open spec fn positions_of(ks: Seq<TrackKey>) -> Seq<int> {
    ks.map_values(|k: TrackKey| k.3)
}

struct KeyedTrack {
    artist: Vec<char>,
    album: Vec<char>,
    title: Vec<char>,
    pos: usize,
}

spec fn keyed_view(k: KeyedTrack) -> TrackKey {
    (k.artist@, k.album@, k.title@, k.pos as int)
}

spec fn keyed_views(v: Seq<KeyedTrack>) -> Seq<TrackKey> {
    v.map_values(|k: KeyedTrack| keyed_view(k))
}

fn keyed_before(a: &KeyedTrack, b: &KeyedTrack) -> (r: bool)
    ensures
        r == track_before(keyed_view(*a), keyed_view(*b)),
{
    if key_less(&a.artist, &b.artist) {
        return true;
    }
    if !crate::text::same_chars(&a.artist, &b.artist) {
        return false;
    }
    if key_less(&a.album, &b.album) {
        return true;
    }
    if !crate::text::same_chars(&a.album, &b.album) {
        return false;
    }
    key_less(&a.title, &b.title)
}

fn insert_keyed(out: &mut Vec<KeyedTrack>, k: KeyedTrack)
    ensures
        keyed_views(final(out)@) == insert_by(keyed_views(old(out)@), keyed_view(k), track_order()),
{
    let ghost v = keyed_views(out@);
    let mut j: usize = 0;
    let mut found = false;
    while j < out.len() && !found
        invariant
            j <= out@.len(),
            v == keyed_views(out@),
            forall|i: int| 0 <= i < j ==> !(track_order())(keyed_view(k), #[trigger] v[i]),
            found ==> j < out@.len() && (track_order())(keyed_view(k), v[j as int]),
        decreases out.len() - j + (if found {
            0int
        } else {
            1int
        }),
    {
        if keyed_before(&k, &out[j]) {
            found = true;
        } else {
            j = j + 1;
        }
    }
    proof {
        lemma_insert_by_at(v, keyed_view(k), track_order(), j as int);
    }
    let ghost kv = keyed_view(k);
    out.insert(j, k);
    proof {
        assert(keyed_views(out@) =~= v.take(j as int).push(kv) + v.skip(j as int));
    }
}

/// The order in which scanned tracks are listed, given each track's
/// artist, album and title: positions sorted stably by the normalised
/// artist, then album, then title.
pub fn track_listing_order(tracks: &Vec<(String, String, String)>) -> (r: Vec<usize>)
    ensures
        r@.map_values(|i: usize| i as int) == positions_of(
            sort_by(track_keys(tracks@), track_order()),
        ),
{
    let ghost keys = track_keys(tracks@);
    let mut out: Vec<KeyedTrack> = Vec::new();
    let mut i: usize = 0;
    while i < tracks.len()
        invariant
            i <= tracks@.len(),
            keys == track_keys(tracks@),
            keyed_views(out@) == sort_by(keys.take(i as int), track_order()),
        decreases tracks.len() - i,
    {
        let k = KeyedTrack {
            artist: chars_of(normalize(tracks[i].0.as_str()).as_str()),
            album: chars_of(normalize(tracks[i].1.as_str()).as_str()),
            title: chars_of(normalize(tracks[i].2.as_str()).as_str()),
            pos: i,
        };
        proof {
            assert(keyed_view(k) == keys[i as int]);
            assert(keys.take(i + 1).drop_last() == keys.take(i as int));
            assert(keys.take(i + 1).last() == keys[i as int]);
        }
        insert_keyed(&mut out, k);
        i = i + 1;
    }
    assert(keys.take(tracks@.len() as int) == keys);
    let mut r: Vec<usize> = Vec::new();
    let ghost sorted = keyed_views(out@);
    let mut j: usize = 0;
    while j < out.len()
        invariant
            j <= out@.len(),
            sorted == keyed_views(out@),
            r@.map_values(|x: usize| x as int) == positions_of(sorted.take(j as int)),
        decreases out.len() - j,
    {
        r.push(out[j].pos);
        proof {
            assert(positions_of(sorted.take(j + 1)) =~= positions_of(sorted.take(j as int)).push(
                sorted[j as int].3,
            ));
            assert(r@.map_values(|x: usize| x as int) =~= positions_of(sorted.take(j as int)).push(
                sorted[j as int].3,
            ));
        }
        j = j + 1;
    }
    assert(sorted.take(out@.len() as int) == sorted);
    r
}

/// Law: listing order is a rearrangement of the tracks — every track is
/// listed once.
pub proof fn law_track_listing_keeps_tracks(ts: Seq<(String, String, String)>)
    ensures
        sort_by(track_keys(ts), track_order()).len() == ts.len(),
        forall|k: TrackKey|
            #[trigger] sort_by(track_keys(ts), track_order()).contains(k) <==> track_keys(ts).contains(
                k,
            ),
{
    crate::sorting::lemma_sort_by_elements(track_keys(ts), track_order());
}

/// Whether a track matches a search: an empty needle matches everything,
/// otherwise the normalised title, artist or album must contain it.
pub open spec fn track_matches(t: (String, String, String), needle: Seq<char>) -> bool {
    ||| needle.len() == 0
    ||| contains_seq(match_key(t.2@), needle)
    ||| contains_seq(match_key(t.0@), needle)
    ||| contains_seq(match_key(t.1@), needle)
}

pub open spec fn matching_positions(ts: Seq<(String, String, String)>, needle: Seq<char>, n: int) -> Seq<
    int,
>
    decreases n,
{
    if n <= 0 {
        Seq::empty()
    } else if track_matches(ts[n - 1], needle) {
        matching_positions(ts, needle, n - 1).push(n - 1)
    } else {
        matching_positions(ts, needle, n - 1)
    }
}

/// The tracks a search of the local library returns, given each listed
/// track's artist, album and title: the positions of the first `count`
/// that match the normalised query.
pub fn search_positions(tracks: &Vec<(String, String, String)>, query: &str, count: u32) -> (r: Vec<usize>)
    ensures
        ({
            let all = matching_positions(tracks@, match_key(query@), tracks@.len() as int);
            r@.map_values(|i: usize| i as int) == all.take(
                if all.len() < count {
                    all.len() as int
                } else {
                    count as int
                },
            )
        }),
{
    let needle = chars_of(normalize(query).as_str());
    let mut kept: Vec<usize> = Vec::new();
    let mut i: usize = 0;
    while i < tracks.len()
        invariant
            i <= tracks@.len(),
            needle@ == match_key(query@),
            kept@.map_values(|k: usize| k as int) == matching_positions(tracks@, needle@, i as int),
        decreases tracks.len() - i,
    {
        let t = &tracks[i];
        let ok = needle.len() == 0 || contains_chars(
            &chars_of(normalize(t.2.as_str()).as_str()),
            &needle,
        ) || contains_chars(&chars_of(normalize(t.0.as_str()).as_str()), &needle) || contains_chars(
            &chars_of(normalize(t.1.as_str()).as_str()),
            &needle,
        );
        if ok {
            kept.push(i);
        }
        i = i + 1;
    }
    let ghost all = kept@.map_values(|k: usize| k as int);
    if kept.len() > count as usize {
        kept.truncate(count as usize);
    }
    proof {
        assert(kept@.map_values(|k: usize| k as int) =~= all.take(
            if all.len() < count {
                all.len() as int
            } else {
                count as int
            },
        ));
    }
    kept
}


// ---------------------------------------------------------------------------
// Albums
// ---------------------------------------------------------------------------

/// Whether a library root can be scanned: it must exist and be a folder.
pub fn check_library_root(exists: bool, is_dir: bool) -> (r: Result<(), String>)
    ensures
        !exists ==> (r matches Err(e) && e@ == "Local library folder does not exist."@),
        exists && !is_dir ==> (r matches Err(e) && e@ == "Local library path must be a folder."@),
        exists && is_dir ==> r is Ok,
{
    if !exists {
        return Err("Local library folder does not exist.".to_string());
    }
    if !is_dir {
        return Err("Local library path must be a folder.".to_string());
    }
    Ok(())
}

/// What grouping reads of a scanned track.
pub struct ScannedTrack {
    pub album_id: String,
    pub album: String,
    pub artist: String,
    pub cover_art_url: String,
    /// Modification time of the file, in milliseconds since the epoch.
    pub modified: u128,
}

/// An album assembled from the tracks of a scan.
pub struct AlbumGroup {
    pub id: String,
    pub name: String,
    pub artist: String,
    pub artist_id: String,
    pub cover_art_url: String,
    /// Positions of the album's tracks, in scan order.
    pub tracks: Vec<usize>,
    /// The latest modification time of its tracks.
    pub modified: u128,
}

pub type GroupView = (Seq<char>, Seq<char>, Seq<char>, Seq<char>, Seq<char>, Seq<int>, int);

pub open spec fn group_view(g: AlbumGroup) -> GroupView {
    (
        g.id@,
        g.name@,
        g.artist@,
        g.artist_id@,
        g.cover_art_url@,
        g.tracks@.map_values(|i: usize| i as int),
        g.modified as int,
    )
}

pub open spec fn group_views(gs: Seq<AlbumGroup>) -> Seq<GroupView> {
    gs.map_values(|g: AlbumGroup| group_view(g))
}

/// The position of the album with id `id`.
pub open spec fn group_position(gs: Seq<GroupView>, id: Seq<char>) -> Option<int>
    decreases gs.len(),
{
    if gs.len() == 0 {
        None
    } else {
        match group_position(gs.drop_last(), id) {
            Some(k) => Some(k),
            None => if gs.last().0 == id {
                Some(gs.len() - 1)
            } else {
                None
            },
        }
    }
}

/// Filing track `i` into the albums: a new album takes its name, artist,
/// artist id and cover from the track; a known album gains the track, takes
/// the track's cover when it has none yet, and keeps the latest
/// modification time.
pub open spec fn file_track(gs: Seq<GroupView>, t: ScannedTrack, i: int) -> Seq<GroupView> {
    match group_position(gs, t.album_id@) {
        Some(k) => {
            let g = gs[k];
            gs.update(
                k,
                (
                    g.0,
                    g.1,
                    g.2,
                    g.3,
                    if g.4.len() == 0 && t.cover_art_url@.len() > 0 {
                        t.cover_art_url@
                    } else {
                        g.4
                    },
                    g.5.push(i),
                    if (t.modified as int) > g.6 {
                        t.modified as int
                    } else {
                        g.6
                    },
                ),
            )
        },
        None => gs.push(
            (
                t.album_id@,
                t.album@,
                t.artist@,
                artist_id_spec(t.artist@),
                t.cover_art_url@,
                seq![i],
                t.modified as int,
            ),
        ),
    }
}

/// The albums after filing the first `n` tracks, in order of first
/// appearance.
pub open spec fn albums_after(ts: Seq<ScannedTrack>, n: int) -> Seq<GroupView>
    decreases n,
{
    if n <= 0 {
        Seq::empty()
    } else {
        file_track(albums_after(ts, n - 1), ts[n - 1], n - 1)
    }
}

proof fn lemma_group_position(gs: Seq<GroupView>, id: Seq<char>)
    ensures
        match group_position(gs, id) {
            Some(k) => 0 <= k < gs.len() && gs[k].0 == id && forall|j: int|
                0 <= j < k ==> #[trigger] gs[j].0 != id,
            None => forall|j: int| 0 <= j < gs.len() ==> #[trigger] gs[j].0 != id,
        },
    decreases gs.len(),
{
    if gs.len() > 0 {
        lemma_group_position(gs.drop_last(), id);
        match group_position(gs.drop_last(), id) {
            Some(k) => {
                assert forall|j: int| 0 <= j < k implies #[trigger] gs[j].0 != id by {
                    assert(gs.drop_last()[j] == gs[j]);
                }
                assert(gs.drop_last()[k] == gs[k]);
            },
            None => {
                assert forall|j: int| 0 <= j < gs.len() - 1 implies #[trigger] gs[j].0 != id by {
                    assert(gs.drop_last()[j] == gs[j]);
                }
            },
        }
    }
}

fn find_group(gs: &Vec<AlbumGroup>, id: &String) -> (r: Option<usize>)
    ensures
        match r {
            Some(k) => group_position(group_views(gs@), id@) == Some(k as int) && k < gs@.len(),
            None => group_position(group_views(gs@), id@) is None,
        },
{
    let ghost v = group_views(gs@);
    proof {
        lemma_group_position(v, id@);
    }
    let mut k: usize = 0;
    while k < gs.len()
        invariant
            k <= gs@.len(),
            v == group_views(gs@),
            forall|j: int| 0 <= j < k ==> #[trigger] v[j].0 != id@,
            match group_position(v, id@) {
                Some(p) => 0 <= p < v.len() && v[p].0 == id@ && forall|j: int|
                    0 <= j < p ==> #[trigger] v[j].0 != id@,
                None => forall|j: int| 0 <= j < v.len() ==> #[trigger] v[j].0 != id@,
            },
        decreases gs.len() - k,
    {
        proof {
            assert(v[k as int].0 == gs@[k as int].id@);
        }
        if gs[k].id == *id {
            return Some(k);
        }
        k = k + 1;
    }
    None
}

/// The albums of a scan: each track filed under its album id, albums in
/// order of first appearance (see `file_track`).
pub fn group_albums(tracks: &Vec<ScannedTrack>) -> (r: Vec<AlbumGroup>)
    ensures
        group_views(r@) == albums_after(tracks@, tracks@.len() as int),
{
    let mut gs: Vec<AlbumGroup> = Vec::new();
    let mut i: usize = 0;
    while i < tracks.len()
        invariant
            i <= tracks@.len(),
            group_views(gs@) == albums_after(tracks@, i as int),
        decreases tracks.len() - i,
    {
        let t = &tracks[i];
        let ghost before = group_views(gs@);
        match find_group(&gs, &t.album_id) {
            Some(k) => {
                let mut g = AlbumGroup {
                    id: String::new(),
                    name: String::new(),
                    artist: String::new(),
                    artist_id: String::new(),
                    cover_art_url: String::new(),
                    tracks: Vec::new(),
                    modified: 0,
                };
                let ghost old_view = before[k as int];
                std::mem::swap(&mut g, &mut gs[k]);
                proof {
                    assert(group_view(g) == old_view);
                }
                if g.cover_art_url.as_str().is_empty() && !t.cover_art_url.as_str().is_empty() {
                    g.cover_art_url = t.cover_art_url.clone();
                }
                let ghost old_tracks = g.tracks@.map_values(|x: usize| x as int);
                g.tracks.push(i);
                proof {
                    assert(g.tracks@.map_values(|x: usize| x as int) =~= old_tracks.push(i as int));
                }
                if t.modified > g.modified {
                    g.modified = t.modified;
                }
                let ghost gv = group_view(g);
                gs.set(k, g);
                proof {
                    assert(group_views(gs@) =~= before.update(k as int, gv));
                }
            },
            None => {
                let mut ts: Vec<usize> = Vec::new();
                ts.push(i);
                let g = AlbumGroup {
                    id: t.album_id.clone(),
                    name: t.album.clone(),
                    artist: t.artist.clone(),
                    artist_id: artist_id(t.artist.as_str()),
                    cover_art_url: t.cover_art_url.clone(),
                    tracks: ts,
                    modified: t.modified,
                };
                let ghost gv = group_view(g);
                proof {
                    assert(g.tracks@.map_values(|x: usize| x as int) =~= seq![i as int]);
                }
                gs.push(g);
                proof {
                    assert(group_views(gs@) =~= before.push(gv));
                }
            },
        }
        i = i + 1;
    }
    gs
}

/// Law: every track of a scan is filed under exactly the album of its id —
/// albums never share an id.
pub proof fn law_album_ids_distinct(ts: Seq<ScannedTrack>, n: int)
    requires
        0 <= n <= ts.len(),
    ensures
        forall|a: int, b: int|
            0 <= a < b < albums_after(ts, n).len() ==> albums_after(ts, n)[a].0 != albums_after(
                ts,
                n,
            )[b].0,
    decreases n,
{
    if n > 0 {
        law_album_ids_distinct(ts, n - 1);
        let gs = albums_after(ts, n - 1);
        lemma_group_position(gs, ts[n - 1].album_id@);
    }
}

/// Albums are listed by artist, then name, compared normalised.
pub open spec fn album_keys(albums: Seq<(String, String)>) -> Seq<TrackKey> {
    Seq::new(
        albums.len(),
        |i: int| (match_key(albums[i].0@), match_key(albums[i].1@), match_key(Seq::<char>::empty()), i),
    )
}

/// The order in which albums (artist, name) are listed.
pub fn album_listing_order(albums: &Vec<(String, String)>) -> (r: Vec<usize>)
    ensures
        r@.map_values(|i: usize| i as int) == positions_of(sort_by(album_keys(albums@), track_order())),
{
    let mut ts: Vec<(String, String, String)> = Vec::new();
    let mut i: usize = 0;
    while i < albums.len()
        invariant
            i <= albums@.len(),
            ts@.len() == i,
            forall|k: int|
                0 <= k < i ==> #[trigger] ts@[k].0@ == albums@[k].0@ && ts@[k].1@ == albums@[k].1@
                    && ts@[k].2@.len() == 0,
        decreases albums.len() - i,
    {
        ts.push((albums[i].0.clone(), albums[i].1.clone(), String::new()));
        i = i + 1;
    }
    proof {
        assert(track_keys(ts@) =~= album_keys(albums@)) by {
            assert forall|k: int| 0 <= k < ts@.len() implies track_keys(ts@)[k] == album_keys(
                albums@,
            )[k] by {
                assert(ts@[k].0@ == albums@[k].0@);
                assert(ts@[k].2@ =~= Seq::<char>::empty());
            }
        }
    }
    track_listing_order(&ts)
}

/// Tracks of an album are listed by title, compared normalised.
pub open spec fn title_keys(titles: Seq<String>) -> Seq<TrackKey> {
    Seq::new(
        titles.len(),
        |i: int| (
            match_key(Seq::<char>::empty()),
            match_key(Seq::<char>::empty()),
            match_key(titles[i]@),
            i,
        ),
    )
}

pub fn title_listing_order(titles: &Vec<String>) -> (r: Vec<usize>)
    ensures
        r@.map_values(|i: usize| i as int) == positions_of(sort_by(title_keys(titles@), track_order())),
{
    let mut ts: Vec<(String, String, String)> = Vec::new();
    let mut i: usize = 0;
    while i < titles.len()
        invariant
            i <= titles@.len(),
            ts@.len() == i,
            forall|k: int|
                0 <= k < i ==> #[trigger] ts@[k].2@ == titles@[k]@ && ts@[k].0@.len() == 0
                    && ts@[k].1@.len() == 0,
        decreases titles.len() - i,
    {
        ts.push((String::new(), String::new(), titles[i].clone()));
        i = i + 1;
    }
    proof {
        assert(track_keys(ts@) =~= title_keys(titles@)) by {
            assert forall|k: int| 0 <= k < ts@.len() implies track_keys(ts@)[k] == title_keys(
                titles@,
            )[k] by {
                assert(ts@[k].2@ == titles@[k]@);
                assert(ts@[k].0@ =~= Seq::<char>::empty());
                assert(ts@[k].1@ =~= Seq::<char>::empty());
            }
        }
    }
    track_listing_order(&ts)
}

/// Whether an album matches a search: an empty needle matches every album,
/// otherwise the normalised name or artist must contain it.
pub open spec fn album_matches(a: (String, String), needle: Seq<char>) -> bool {
    needle.len() == 0 || contains_seq(match_key(a.1@), needle) || contains_seq(match_key(a.0@), needle)
}

pub open spec fn album_match_positions(albums: Seq<(String, String)>, needle: Seq<char>, n: int) -> Seq<int>
    decreases n,
{
    if n <= 0 {
        Seq::empty()
    } else if album_matches(albums[n - 1], needle) {
        album_match_positions(albums, needle, n - 1).push(n - 1)
    } else {
        album_match_positions(albums, needle, n - 1)
    }
}

/// The albums (artist, name) that match a search, by position.
pub fn album_search_positions(albums: &Vec<(String, String)>, query: &str) -> (r: Vec<usize>)
    ensures
        r@.map_values(|i: usize| i as int) == album_match_positions(
            albums@,
            match_key(query@),
            albums@.len() as int,
        ),
{
    let needle = chars_of(normalize(query).as_str());
    let mut kept: Vec<usize> = Vec::new();
    let mut i: usize = 0;
    while i < albums.len()
        invariant
            i <= albums@.len(),
            needle@ == match_key(query@),
            kept@.map_values(|k: usize| k as int) == album_match_positions(albums@, needle@, i as int),
        decreases albums.len() - i,
    {
        let a = &albums[i];
        let ok = needle.len() == 0 || contains_chars(&chars_of(normalize(a.1.as_str()).as_str()), &needle)
            || contains_chars(&chars_of(normalize(a.0.as_str()).as_str()), &needle);
        if ok {
            kept.push(i);
        }
        i = i + 1;
    }
    kept
}

/// Albums by modification time, newest first (stably).
pub open spec fn newer_first() -> spec_fn((int, int), (int, int)) -> bool {
    |a: (int, int), b: (int, int)| a.0 > b.0
}

pub open spec fn modified_keys(ms: Seq<u128>) -> Seq<(int, int)> {
    Seq::new(ms.len(), |i: int| (ms[i] as int, i))
}

fn insert_modified(out: &mut Vec<(u128, usize)>, m: u128, pos: usize)
    ensures
        final(out)@.map_values(|x: (u128, usize)| (x.0 as int, x.1 as int)) == insert_by(
            old(out)@.map_values(|x: (u128, usize)| (x.0 as int, x.1 as int)),
            (m as int, pos as int),
            newer_first(),
        ),
{
    let ghost v = out@.map_values(|x: (u128, usize)| (x.0 as int, x.1 as int));
    let mut j: usize = 0;
    let mut found = false;
    while j < out.len() && !found
        invariant
            j <= out@.len(),
            v == out@.map_values(|x: (u128, usize)| (x.0 as int, x.1 as int)),
            forall|i: int| 0 <= i < j ==> !(newer_first())((m as int, pos as int), #[trigger] v[i]),
            found ==> j < out@.len() && (newer_first())((m as int, pos as int), v[j as int]),
        decreases out.len() - j + (if found {
            0int
        } else {
            1int
        }),
    {
        if m > out[j].0 {
            found = true;
        } else {
            j = j + 1;
        }
    }
    proof {
        lemma_insert_by_at(v, (m as int, pos as int), newer_first(), j as int);
    }
    out.insert(j, (m, pos));
    proof {
        assert(out@.map_values(|x: (u128, usize)| (x.0 as int, x.1 as int)) =~= v.take(j as int).push(
            (m as int, pos as int),
        ) + v.skip(j as int));
    }
}

/// The order of the "newest" album list: by modification time, newest
/// first, ties in scan order.
pub fn newest_first_order(modified: &Vec<u128>) -> (r: Vec<usize>)
    ensures
        r@.map_values(|i: usize| i as int) == sort_by(modified_keys(modified@), newer_first()).map_values(
            |k: (int, int)| k.1,
        ),
{
    let ghost keys = modified_keys(modified@);
    let mut out: Vec<(u128, usize)> = Vec::new();
    let mut i: usize = 0;
    while i < modified.len()
        invariant
            i <= modified@.len(),
            keys == modified_keys(modified@),
            out@.map_values(|x: (u128, usize)| (x.0 as int, x.1 as int)) == sort_by(
                keys.take(i as int),
                newer_first(),
            ),
        decreases modified.len() - i,
    {
        proof {
            assert(keys.take(i + 1).drop_last() == keys.take(i as int));
            assert(keys.take(i + 1).last() == (modified@[i as int] as int, i as int));
        }
        insert_modified(&mut out, modified[i], i);
        i = i + 1;
    }
    assert(keys.take(modified@.len() as int) == keys);
    let ghost sorted = out@.map_values(|x: (u128, usize)| (x.0 as int, x.1 as int));
    let mut r: Vec<usize> = Vec::new();
    let mut j: usize = 0;
    while j < out.len()
        invariant
            j <= out@.len(),
            sorted == out@.map_values(|x: (u128, usize)| (x.0 as int, x.1 as int)),
            r@.map_values(|x: usize| x as int) == sorted.take(j as int).map_values(|k: (int, int)| k.1),
        decreases out.len() - j,
    {
        let ghost prev = r@.map_values(|x: usize| x as int);
        r.push(out[j].1);
        proof {
            assert(sorted[j as int] == (out@[j as int].0 as int, out@[j as int].1 as int));
            assert(r@.map_values(|x: usize| x as int) =~= prev.push(out@[j as int].1 as int));
            assert(sorted.take(j + 1).map_values(|k: (int, int)| k.1) =~= sorted.take(
                j as int,
            ).map_values(|k: (int, int)| k.1).push(sorted[j as int].1));
        }
        j = j + 1;
    }
    assert(sorted.take(out@.len() as int) == sorted);
    r
}

/// `SliceRandom::shuffle` with the thread's generator: the same elements in
/// a random order.
#[verifier::external_body]
fn shuffle(v: &mut Vec<usize>)
    ensures
        final(v)@.to_multiset() == old(v)@.to_multiset(),
{
    v.shuffle(&mut rand::rng());
}

/// The order of the "random" album list: every position once, shuffled.
pub fn random_order(n: usize) -> (r: Vec<usize>)
    ensures
        r@.to_multiset() == Seq::new(n as nat, |i: int| i as usize).to_multiset(),
{
    let mut v: Vec<usize> = Vec::new();
    let mut i: usize = 0;
    while i < n
        invariant
            i <= n,
            v@ == Seq::new(i as nat, |k: int| k as usize),
        decreases n - i,
    {
        v.push(i);
        i = i + 1;
        assert(v@ =~= Seq::new(i as nat, |k: int| k as usize));
    }
    shuffle(&mut v);
    v
}

/// The order of an album list of the given kind: random for `"random"`,
/// newest first for anything else.
pub fn album_list_order(kind: &str, modified: &Vec<u128>) -> (r: Vec<usize>)
    ensures
        kind@ == "random"@ ==> r@.to_multiset() == Seq::new(modified@.len(), |i: int| i as usize).to_multiset(),
        kind@ != "random"@ ==> r@.map_values(|i: usize| i as int) == sort_by(
            modified_keys(modified@),
            newer_first(),
        ).map_values(|k: (int, int)| k.1),
{
    if str_eq(kind, "random") {
        random_order(modified.len())
    } else {
        newest_first_order(modified)
    }
}


/// The folder of the local library configured in a profile: the root as
/// normalised (and trimmed), a `file:` URL turned into its path.
pub fn root_path(profile: &crate::profiles::ActiveProfile) -> (r: String)
    ensures
        r@ == crate::urls::root_path_spec(trim(local_root_spec(profile.url@))),
{
    let root = normalize_local_root(profile.url.as_str());
    let raw = trim_str(root.as_str());
    crate::urls::root_path_of(raw.as_str())
}

/// The URL a track is streamed from: its `file://` URL, or the path itself
/// when it has none.
pub fn file_url(path: &str) -> (r: String)
    ensures
        r@ == (match crate::disk_cache::file_url_of(path@) {
            Some(u) => u,
            None => path@,
        }),
{
    match crate::disk_cache::url_from_file_path(path) {
        Some(u) => u,
        None => path.to_string(),
    }
}

proof fn lemma_matching_positions(ts: Seq<(String, String, String)>, needle: Seq<char>, n: int)
    requires
        0 <= n <= ts.len(),
    ensures
        forall|i: int|
            0 <= i < n ==> (matching_positions(ts, needle, n).contains(i) <==> track_matches(#[trigger] ts[i], needle)),
        forall|k: int|
            0 <= k < matching_positions(ts, needle, n).len() ==> 0 <= #[trigger] matching_positions(ts, needle, n)[k] < n,
        forall|a: int, b: int|
            0 <= a < b < matching_positions(ts, needle, n).len() ==> #[trigger] matching_positions(ts, needle, n)[a]
                < #[trigger] matching_positions(ts, needle, n)[b],
    decreases n,
{
    if n > 0 {
        lemma_matching_positions(ts, needle, n - 1);
        let prev = matching_positions(ts, needle, n - 1);
        if track_matches(ts[n - 1], needle) {
            let cur = prev.push(n - 1);
            assert forall|i: int| 0 <= i < n implies (cur.contains(i) <==> track_matches(#[trigger] ts[i], needle)) by {
                if i < n - 1 {
                    if cur.contains(i) {
                        let k = choose|k: int| 0 <= k < cur.len() && cur[k] == i;
                        if k < prev.len() {
                            assert(prev[k] == i);
                        }
                    }
                    if prev.contains(i) {
                        let k = choose|k: int| 0 <= k < prev.len() && prev[k] == i;
                        assert(cur[k] == i);
                    }
                } else {
                    assert(cur[prev.len() as int] == i);
                }
            }
        } else {
            assert forall|i: int| 0 <= i < n implies (prev.contains(i) <==> track_matches(#[trigger] ts[i], needle)) by {
                if i == n - 1 && prev.contains(i) {
                    let k = choose|k: int| 0 <= k < prev.len() && prev[k] == i;
                    assert(prev[k] < n - 1);
                }
            }
        }
    }
}

/// Law: a local search (as `search_positions` lists it before the count
/// is applied) finds exactly the tracks whose normalised artist, album or
/// title contains the normalised query (every track, for a blank query),
/// in library order.
pub proof fn law_search_matches_any_field(ts: Seq<(String, String, String)>, query: Seq<char>, i: int)
    requires
        0 <= i < ts.len(),
    ensures
        matching_positions(ts, match_key(query), ts.len() as int).contains(i) <==> (
        match_key(query).len() == 0
            || contains_seq(match_key(ts[i].0@), match_key(query))
            || contains_seq(match_key(ts[i].1@), match_key(query))
            || contains_seq(match_key(ts[i].2@), match_key(query))),
        forall|a: int, b: int|
            0 <= a < b < matching_positions(ts, match_key(query), ts.len() as int).len() ==> 0
                <= #[trigger] matching_positions(ts, match_key(query), ts.len() as int)[a]
                < #[trigger] matching_positions(ts, match_key(query), ts.len() as int)[b] < ts.len(),
{
    lemma_matching_positions(ts, match_key(query), ts.len() as int);
    assert(track_matches(ts[i], match_key(query)) == (match_key(query).len() == 0
        || contains_seq(match_key(ts[i].0@), match_key(query))
        || contains_seq(match_key(ts[i].1@), match_key(query))
        || contains_seq(match_key(ts[i].2@), match_key(query))));
}

proof fn lemma_album_match_positions(albums: Seq<(String, String)>, needle: Seq<char>, n: int)
    requires
        0 <= n <= albums.len(),
    ensures
        forall|i: int|
            0 <= i < n ==> (album_match_positions(albums, needle, n).contains(i) <==> album_matches(
                #[trigger] albums[i],
                needle,
            )),
        forall|k: int|
            0 <= k < album_match_positions(albums, needle, n).len() ==> 0 <= #[trigger] album_match_positions(
                albums,
                needle,
                n,
            )[k] < n,
        forall|a: int, b: int|
            0 <= a < b < album_match_positions(albums, needle, n).len() ==> #[trigger] album_match_positions(
                albums,
                needle,
                n,
            )[a] < #[trigger] album_match_positions(albums, needle, n)[b],
    decreases n,
{
    if n > 0 {
        lemma_album_match_positions(albums, needle, n - 1);
        let prev = album_match_positions(albums, needle, n - 1);
        if album_matches(albums[n - 1], needle) {
            let cur = prev.push(n - 1);
            assert forall|i: int| 0 <= i < n implies (cur.contains(i) <==> album_matches(#[trigger] albums[i], needle)) by {
                if i < n - 1 {
                    if cur.contains(i) {
                        let k = choose|k: int| 0 <= k < cur.len() && cur[k] == i;
                        if k < prev.len() {
                            assert(prev[k] == i);
                        }
                    }
                    if prev.contains(i) {
                        let k = choose|k: int| 0 <= k < prev.len() && prev[k] == i;
                        assert(cur[k] == i);
                    }
                } else {
                    assert(cur[prev.len() as int] == i);
                }
            }
        } else {
            assert forall|i: int| 0 <= i < n implies (prev.contains(i) <==> album_matches(#[trigger] albums[i], needle)) by {
                if i == n - 1 && prev.contains(i) {
                    let k = choose|k: int| 0 <= k < prev.len() && prev[k] == i;
                    assert(prev[k] < n - 1);
                }
            }
        }
    }
}

/// Law: an album search finds exactly the albums whose normalised name or
/// artist contains the normalised query (every album, for a blank query),
/// in library order.
pub proof fn law_album_search_matches_name_or_artist(albums: Seq<(String, String)>, query: Seq<char>, i: int)
    requires
        0 <= i < albums.len(),
    ensures
        album_match_positions(albums, match_key(query), albums.len() as int).contains(i) <==> (match_key(
            query,
        ).len() == 0 || contains_seq(match_key(albums[i].0@), match_key(query)) || contains_seq(
            match_key(albums[i].1@),
            match_key(query),
        )),
        forall|a: int, b: int|
            0 <= a < b < album_match_positions(albums, match_key(query), albums.len() as int).len() ==> 0
                <= #[trigger] album_match_positions(albums, match_key(query), albums.len() as int)[a]
                < #[trigger] album_match_positions(albums, match_key(query), albums.len() as int)[b]
                < albums.len(),
{
    lemma_album_match_positions(albums, match_key(query), albums.len() as int);
    assert(album_matches(albums[i], match_key(query)) == (match_key(query).len() == 0 || contains_seq(
        match_key(albums[i].0@),
        match_key(query),
    ) || contains_seq(match_key(albums[i].1@), match_key(query))));
}

} // verus!
