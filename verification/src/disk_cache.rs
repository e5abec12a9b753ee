//! The on-disk audio and artwork cache: which key lives at which path, the
//! metadata written beside each entry, and which entries eviction removes to
//! get back under the size limit.
use vstd::prelude::*;
use vstd::utf8::encode_utf8;
use vstd::string::StringSliceAdditionalSpecFns;

use crate::digest::{base64_of, base64_standard, md5_hex, md5_hex_of_str};
use crate::lyrics::{find_char, find_char_from, lemma_find_char_from_bounds};
use crate::text::{
    ascii_lower, ascii_lower_char, chars_of, extend_chars, slice_chars, string_of, trim,
    trim_chars, is_ws, trim_start,
};

verus! {

/// The default size limit of a cache directory: 2 GiB.
pub const DEFAULT_CACHE_LIMIT_BYTES: u64 = 2147483648;

/// A cache of downloaded files in one directory, with a size limit.
pub struct DiskCache {
    pub root: String,
    pub limit_bytes: u64,
}

// ---------------------------------------------------------------------------
// File names
// ---------------------------------------------------------------------------

/// `Path::join` of the platform the library is built for, written as text:
/// `name` added to `root` with the platform's separator (an absolute `name`
/// replaces `root`).
pub uninterp spec fn join_path(root: Seq<char>, name: Seq<char>) -> Seq<char>;

/// `std::path::Path::join`, the joined path written back as a string (both
/// parts are strings, so nothing is lost in `to_string_lossy`).
#[verifier::external_body]
pub(crate) fn join_path_str(root: &str, name: &str) -> (r: String)
    ensures
        r@ == join_path(root@, name@),
{
    std::path::Path::new(root).join(name).to_string_lossy().into_owned()
}

/// The lower-cased media type of a `Content-Type` value, without its
/// parameters.
pub open spec fn media_type_of(content_type: Seq<char>) -> Seq<char> {
    ascii_lower(trim(content_type.take(find_char_from(content_type, ';', 0))))
}

/// The file extension used for a media type.
pub open spec fn extension_for(media: Seq<char>) -> Seq<char> {
    if media == "image/jpeg"@ || media == "image/jpg"@ {
        "jpg"@
    } else if media == "image/png"@ {
        "png"@
    } else if media == "image/webp"@ {
        "webp"@
    } else if media == "image/gif"@ {
        "gif"@
    } else if media == "image/bmp"@ {
        "bmp"@
    } else if media == "image/svg+xml"@ {
        "svg"@
    } else if media == "audio/mpeg"@ || media == "audio/mp3"@ {
        "mp3"@
    } else if media == "audio/flac"@ {
        "flac"@
    } else if media == "audio/aac"@ {
        "aac"@
    } else if media == "audio/ogg"@ || media == "application/ogg"@ {
        "ogg"@
    } else if media == "audio/wav"@ || media == "audio/x-wav"@ {
        "wav"@
    } else if media == "audio/mp4"@ || media == "audio/aacp"@ {
        "m4a"@
    } else {
        "bin"@
    }
}

/// Where the data of an entry lives: "<key>.<extension>" with the recorded
/// extension trimmed, when it names one and that file exists; else
/// "<key>.bin".
pub open spec fn resolved_data_path(root: Seq<char>, key: Seq<char>, extension: Seq<char>, preferred_is_file: bool) -> Seq<char> {
    if trim(extension).len() > 0 && preferred_is_file {
        join_path(root, key + seq!['.'] + trim(extension))
    } else {
        join_path(root, key + seq!['.'] + "bin"@)
    }
}

/// `str::to_ascii_lowercase` on a character vector.
pub fn ascii_lowercase_chars(v: &[char]) -> (r: Vec<char>)
    ensures
        r@ == ascii_lower(v@),
{
    let mut out: Vec<char> = Vec::new();
    let mut i: usize = 0;
    while i < v.len()
        invariant
            i <= v.len(),
            out@ == ascii_lower(v@.take(i as int)),
        decreases v.len() - i,
    {
        let c = v[i];
        let l = if 'A' <= c && c <= 'Z' {
            ((c as u8) + 32) as char
        } else {
            c
        };
        assert(l == ascii_lower_char(c));
        out.push(l);
        assert(ascii_lower(v@.take(i + 1)) == ascii_lower(v@.take(i as int)).push(
            ascii_lower_char(c),
        ));
        i = i + 1;
    }
    assert(v@.take(v.len() as int) == v@);
    out
}

fn is_lit(v: &[char], lit: &str) -> (b: bool)
    ensures
        b == (v@ == lit@),
{
    let l = chars_of(lit);
    crate::text::same_chars(v, &l)
}

/// The file extension under which a download of the given
/// `Content-Type` is stored ("bin" for anything unknown).
pub fn extension_for_content_type(content_type: &str) -> (r: String)
    ensures
        r@ == extension_for(media_type_of(content_type@)),
{
    let v = chars_of(content_type);
    let semi = find_char(&v, ';', 0);
    proof {
        lemma_find_char_from_bounds(v@, ';', 0);
    }
    let head = slice_chars(&v, 0, semi);
    let t = trim_chars(&head);
    let m = ascii_lowercase_chars(&t);
    let ext = if is_lit(&m, "image/jpeg") || is_lit(&m, "image/jpg") {
        "jpg"
    } else if is_lit(&m, "image/png") {
        "png"
    } else if is_lit(&m, "image/webp") {
        "webp"
    } else if is_lit(&m, "image/gif") {
        "gif"
    } else if is_lit(&m, "image/bmp") {
        "bmp"
    } else if is_lit(&m, "image/svg+xml") {
        "svg"
    } else if is_lit(&m, "audio/mpeg") || is_lit(&m, "audio/mp3") {
        "mp3"
    } else if is_lit(&m, "audio/flac") {
        "flac"
    } else if is_lit(&m, "audio/aac") {
        "aac"
    } else if is_lit(&m, "audio/ogg") || is_lit(&m, "application/ogg") {
        "ogg"
    } else if is_lit(&m, "audio/wav") || is_lit(&m, "audio/x-wav") {
        "wav"
    } else if is_lit(&m, "audio/mp4") || is_lit(&m, "audio/aacp") {
        "m4a"
    } else {
        "bin"
    };
    let e = chars_of(ext);
    string_of(&e)
}

/// The cache key of an id: its MD5 digest in hexadecimal.
pub open spec fn cache_file_key(id: Seq<u8>) -> Seq<char> {
    md5_hex(id)
}

impl DiskCache {
    /// A cache rooted at `root` with the default 2 GiB limit.
    pub fn new(root: String) -> (c: DiskCache)
        ensures
            c.root@ == root@,
            c.limit_bytes == DEFAULT_CACHE_LIMIT_BYTES,
    {
        DiskCache { root, limit_bytes: DEFAULT_CACHE_LIMIT_BYTES }
    }

    /// The hashed key of `song_id` and the path of its metadata file
    /// ("<key>.json" in the cache directory).
    pub fn paths_for(&self, song_id: &str) -> (r: (String, String))
        ensures
            r.0@ == cache_file_key(song_id.spec_bytes()),
            r.1@ == join_path(self.root@, cache_file_key(song_id.spec_bytes()) + ".json"@),
            r.1@ == meta_path(self.root@, song_id@),
    {
        let key = md5_hex_of_str(song_id);
        let mut name = slice_chars(&key, 0, key.len());
        let json = chars_of(".json");
        extend_chars(&mut name, &json);
        let name = string_of(&name);
        assert(name@ == cache_file_key(song_id.spec_bytes()) + ".json"@);
        (string_of(&key), join_path_str(self.root.as_str(), name.as_str()))
    }

    /// The path of the data file "<key>.<extension>".
    pub fn data_path_for(&self, cache_key: &str, extension: &str) -> (r: String)
        ensures
            r@ == join_path(self.root@, cache_key@ + seq!['.'] + extension@),
    {
        let mut name = chars_of(cache_key);
        name.push('.');
        let ext = chars_of(extension);
        extend_chars(&mut name, &ext);
        let name = string_of(&name);
        assert(name@ == cache_key@ + seq!['.'] + extension@);
        join_path_str(self.root.as_str(), name.as_str())
    }

    /// The data file recorded in the metadata, when it names an extension:
    /// the path to try first.
    pub fn preferred_data_path(&self, cache_key: &str, file_extension: &str) -> (r: Option<String>)
        ensures
            trim(file_extension@).len() == 0 ==> r is None,
            trim(file_extension@).len() > 0 ==> (r matches Some(p) && p@ == join_path(
                self.root@,
                cache_key@ + seq!['.'] + trim(file_extension@),
            )),
    {
        let e = chars_of(file_extension);
        let t = trim_chars(&e);
        if t.len() == 0 {
            None
        } else {
            let ts = string_of(&t);
            Some(self.data_path_for(cache_key, ts.as_str()))
        }
    }

    /// Where the data of `cache_key` lives: the recorded extension when that
    /// file exists, else "<key>.bin".
    pub fn resolve_data_path(
        &self,
        cache_key: &str,
        file_extension: &str,
        preferred_is_file: bool,
    ) -> (r: String)
        ensures
            r@ == resolved_data_path(self.root@, cache_key@, file_extension@, preferred_is_file),
    {
        match self.preferred_data_path(cache_key, file_extension) {
            Some(p) => {
                if preferred_is_file {
                    return p;
                }
            },
            None => {},
        }
        self.data_path_for(cache_key, "bin")
    }
}

// ---------------------------------------------------------------------------
// Data URLs
// ---------------------------------------------------------------------------

/// A `data:` URL holding `bytes` in base64 under the trimmed content type
/// (or "application/octet-stream" when there is none).
pub open spec fn data_url(content_type: Seq<char>, bytes: Seq<u8>) -> Seq<char> {
    let ct = if trim(content_type).len() == 0 {
        "application/octet-stream"@
    } else {
        trim(content_type)
    };
    "data:"@ + ct + ";base64,"@ + base64_of(bytes)
}

/// Builds a `data:` URL for cached artwork.
pub fn bytes_to_data_url(content_type: &str, bytes: &[u8]) -> (r: String)
    requires
        bytes@.len() <= usize::MAX / 2,
    ensures
        r@ == data_url(content_type@, bytes@),
{
    let cv = chars_of(content_type);
    let t = trim_chars(&cv);
    let mut out = chars_of("data:");
    if t.len() == 0 {
        let d = chars_of("application/octet-stream");
        extend_chars(&mut out, &d);
    } else {
        extend_chars(&mut out, &t);
    }
    let mid = chars_of(";base64,");
    extend_chars(&mut out, &mid);
    let enc = base64_standard(bytes);
    let ev = chars_of(enc.as_str());
    extend_chars(&mut out, &ev);
    string_of(&out)
}

// ---------------------------------------------------------------------------
// Eviction
// ---------------------------------------------------------------------------

/// The sum of the sizes of all entries.
pub open spec fn total_size(es: Seq<(u64, u128)>) -> int
    decreases es.len(),
{
    if es.len() == 0 {
        0
    } else {
        total_size(es.drop_last()) + es.last().0
    }
}

/// Entry `a` was used before entry `b` (earlier listing breaks ties).
pub open spec fn used_before(es: Seq<(u64, u128)>, a: int, b: int) -> bool {
    es[a].1 < es[b].1 || (es[a].1 == es[b].1 && a < b)
}

/// The least recently used entry among those not in `gone`, scanning from
/// `j` with `best` the best found so far (-1 for none).
pub open spec fn lru_from(es: Seq<(u64, u128)>, gone: Seq<int>, j: int, best: int) -> int
    decreases es.len() - j,
{
    if j < 0 || j >= es.len() {
        best
    } else if gone.contains(j) || (best >= 0 && used_before(es, best, j)) {
        lru_from(es, gone, j + 1, best)
    } else {
        lru_from(es, gone, j + 1, j)
    }
}

/// The entries to delete, in order: while the remaining size exceeds the
/// limit, the least recently used remaining entry goes (the order a stable
/// sort by last access gives), its size taken off the remaining size
/// (not below zero).
pub open spec fn eviction_from(es: Seq<(u64, u128)>, gone: Seq<int>, size: int, limit: int) -> Seq<int>
    decreases es.len() - gone.len(),
{
    if size <= limit || gone.len() >= es.len() {
        seq![]
    } else {
        let m = lru_from(es, gone, 0, -1);
        if m < 0 || m >= es.len() {
            seq![]
        } else {
            let rest = if es[m].0 <= size {
                size - es[m].0
            } else {
                0
            };
            seq![m] + eviction_from(es, gone.push(m), rest, limit)
        }
    }
}

pub open spec fn eviction_plan(es: Seq<(u64, u128)>, limit: u64) -> Seq<int> {
    eviction_from(es, seq![], total_size(es), limit as int)
}

pub proof fn lemma_total_size_prefix(es: Seq<(u64, u128)>)
    ensures
        forall|k: int| 0 <= k <= es.len() ==> total_size(#[trigger] es.take(k)) <= total_size(es),
    decreases es.len(),
{
    if es.len() > 0 {
        lemma_total_size_prefix(es.drop_last());
        assert forall|k: int| 0 <= k <= es.len() implies total_size(#[trigger] es.take(k))
            <= total_size(es) by {
            if k < es.len() {
                assert(es.take(k) == es.drop_last().take(k));
            } else {
                assert(es.take(k) == es);
            }
        }
    } else {
        assert forall|k: int| 0 <= k <= es.len() implies total_size(#[trigger] es.take(k))
            <= total_size(es) by {
            assert(es.take(k) == es);
        }
    }
}

pub proof fn lemma_lru_from(es: Seq<(u64, u128)>, gone: Seq<int>, j: int, best: int)
    requires
        0 <= j,
        best == -1 || (0 <= best < es.len() && !gone.contains(best)),
    ensures
        lru_from(es, gone, j, best) == -1 || (0 <= lru_from(es, gone, j, best) < es.len()
            && !gone.contains(lru_from(es, gone, j, best))),
    decreases es.len() - j,
{
    if j < es.len() {
        if gone.contains(j) || (best >= 0 && used_before(es, best, j)) {
            lemma_lru_from(es, gone, j + 1, best);
        } else {
            lemma_lru_from(es, gone, j + 1, j);
        }
    }
}

fn lru_remaining(es: &Vec<(u64, u128)>, gone: &Vec<bool>, Ghost(g): Ghost<Seq<int>>) -> (m: Option<usize>)
    requires
        gone.len() == es.len(),
        forall|k: int| 0 <= k < es.len() ==> (gone@[k] <==> g.contains(k)),
    ensures
        match m {
            Some(i) => lru_from(es@, g, 0, -1) == i as int,
            None => lru_from(es@, g, 0, -1) == -1,
        },
{
    let mut best: Option<usize> = None;
    let mut j: usize = 0;
    while j < es.len()
        invariant
            gone.len() == es.len(),
            forall|k: int| 0 <= k < es.len() ==> (gone@[k] <==> g.contains(k)),
            j <= es.len(),
            lru_from(es@, g, 0, -1) == lru_from(
                es@,
                g,
                j as int,
                match best {
                    Some(b) => b as int,
                    None => -1,
                },
            ),
            best matches Some(b) ==> b < es.len(),
        decreases es.len() - j,
    {
        if !gone[j] {
            match best {
                Some(b) => {
                    if !(es[b].1 < es[j].1 || (es[b].1 == es[j].1 && b < j)) {
                        best = Some(j);
                    }
                },
                None => {
                    best = Some(j);
                },
            }
        }
        j = j + 1;
    }
    best
}

/// Which cache entries to delete so that the total size gets within
/// `limit`: given each entry's size and last access time, the least
/// recently used entries, oldest first, until the rest fits.
pub fn evict_if_needed(entries: &Vec<(u64, u128)>, limit: u64) -> (r: Vec<usize>)
    requires
        total_size(entries@) <= u64::MAX,
    ensures
        r@.map_values(|i: usize| i as int) == eviction_plan(entries@, limit),
{
    let mut total: u64 = 0;
    let mut i: usize = 0;
    assert(entries@.take(0) == Seq::<(u64, u128)>::empty());
    proof {
        lemma_total_size_prefix(entries@);
    }
    while i < entries.len()
        invariant
            i <= entries.len(),
            total as int == total_size(entries@.take(i as int)),
            total_size(entries@) <= u64::MAX,
            forall|k: int| 0 <= k <= entries@.len() ==> total_size(#[trigger] entries@.take(k))
                <= total_size(entries@),
        decreases entries.len() - i,
    {
        assert(entries@.take(i + 1).drop_last() == entries@.take(i as int));
        total = total + entries[i].0;
        i = i + 1;
    }
    assert(entries@.take(entries.len() as int) == entries@);

    let mut out: Vec<usize> = Vec::new();
    let mut gone: Vec<bool> = Vec::new();
    let mut k: usize = 0;
    while k < entries.len()
        invariant
            k <= entries.len(),
            gone.len() == k,
            forall|m: int| 0 <= m < k ==> !gone@[m],
        decreases entries.len() - k,
    {
        gone.push(false);
        k = k + 1;
    }
    let ghost mut g: Seq<int> = seq![];
    let ghost plan = eviction_plan(entries@, limit);
    let mut size: u64 = total;
    let mut done = false;
    assert(plan == seq![] + eviction_from(entries@, g, size as int, limit as int));
    while !done
        invariant
            gone.len() == entries.len(),
            forall|m: int| 0 <= m < entries.len() ==> (gone@[m] <==> g.contains(m)),
            forall|m: int| 0 <= m < g.len() ==> 0 <= #[trigger] g[m] < entries.len(),
            g.no_duplicates(),
            g.len() <= entries.len(),
            out@.map_values(|i: usize| i as int) == g,
            !done ==> plan == g + eviction_from(entries@, g, size as int, limit as int),
            done ==> plan == g,
            size as int >= 0,
        decreases entries.len() - g.len(), (if done { 0int } else { 1int }),
    {
        if size <= limit || out.len() >= entries.len() {
            proof {
                if out.len() >= entries.len() {
                    assert(g.len() >= entries.len());
                }
                assert(g + Seq::<int>::empty() == g);
            }
            done = true;
        } else {
            match lru_remaining(entries, &gone, Ghost(g)) {
                None => {
                    proof {
                        assert(g + Seq::<int>::empty() == g);
                    }
                    done = true;
                },
                Some(m) => {
                    proof {
                        lemma_lru_from(entries@, g, 0, -1);
                    }
                    let ghost old_g = g;
                    let s = entries[m].0;
                    let rest: u64 = if s <= size {
                        size - s
                    } else {
                        0
                    };
                    proof {
                        g = g.push(m as int);
                        assert(old_g + (seq![m as int] + eviction_from(
                            entries@,
                            g,
                            rest as int,
                            limit as int,
                        )) == g + eviction_from(entries@, g, rest as int, limit as int));
                        assert forall|a: int, b: int|
                            0 <= a < g.len() && 0 <= b < g.len() && a != b implies g[a] != g[b] by {
                            if a < old_g.len() && b < old_g.len() {
                            } else if a < old_g.len() {
                                assert(old_g.contains(g[a]));
                            } else {
                                assert(old_g.contains(g[b]));
                            }
                        }
                    }
                    let ghost before = out@;
                    out.push(m);
                    assert(out@.map_values(|i: usize| i as int) == before.map_values(
                        |i: usize| i as int,
                    ).push(m as int));
                    gone.set(m, true);
                    size = rest;
                    proof {
                        assert forall|q: int| 0 <= q < entries.len() implies (gone@[q] <==> g.contains(
                            q,
                        )) by {
                            if q == m as int {
                                assert(g[g.len() - 1] == q);
                            } else {
                                if old_g.contains(q) {
                                    let w = choose|w: int| 0 <= w < old_g.len() && old_g[w] == q;
                                    assert(g[w] == q);
                                }
                                if g.contains(q) {
                                    let w = choose|w: int| 0 <= w < g.len() && g[w] == q;
                                    assert(w < old_g.len());
                                    assert(old_g[w] == q);
                                }
                            }
                        }
                    }
                },
            }
        }
    }
    out
}


// ---------------------------------------------------------------------------
// Metadata records
// ---------------------------------------------------------------------------

/// The metadata file kept beside each cached file.
pub struct CacheMetadata {
    pub cache_key: String,
    pub media_kind: String,
    pub source_url: String,
    pub content_type: String,
    pub file_extension: String,
    pub size_bytes: u64,
    pub cached_at_unix_ms: u128,
    pub last_accessed_unix_ms: u128,
}

impl CacheMetadata {
    /// The record of a file just written at time `now`: its extension
    /// follows its content type, and it counts as accessed now.
    pub fn written(
        cache_key: &str,
        media_kind: &str,
        source_url: &str,
        content_type: &str,
        size_bytes: u64,
        now: u128,
    ) -> (m: CacheMetadata)
        ensures
            m.cache_key@ == cache_key@,
            m.media_kind@ == media_kind@,
            m.source_url@ == source_url@,
            m.content_type@ == content_type@,
            m.file_extension@ == extension_for(media_type_of(content_type@)),
            m.size_bytes == size_bytes,
            m.cached_at_unix_ms == now,
            m.last_accessed_unix_ms == now,
            meta_view(m) == written_view(cache_key@, media_kind@, source_url@, content_type@, size_bytes, now),
    {
        CacheMetadata {
            cache_key: cache_key.to_string(),
            media_kind: media_kind.to_string(),
            source_url: source_url.to_string(),
            content_type: content_type.to_string(),
            file_extension: extension_for_content_type(content_type),
            size_bytes,
            cached_at_unix_ms: now,
            last_accessed_unix_ms: now,
        }
    }

    /// The record after a read at time `now` that found `size_bytes` bytes.
    pub fn touched(self, size_bytes: u64, now: u128) -> (m: CacheMetadata)
        ensures
            m.size_bytes == size_bytes,
            m.last_accessed_unix_ms == now,
            m.cache_key == self.cache_key,
            m.media_kind == self.media_kind,
            m.source_url == self.source_url,
            m.content_type == self.content_type,
            m.file_extension == self.file_extension,
            m.cached_at_unix_ms == self.cached_at_unix_ms,
            meta_view(m) == touched_view(meta_view(self), size_bytes, now),
    {
        CacheMetadata { size_bytes, last_accessed_unix_ms: now, ..self }
    }

    /// Artwork is served as a `data:` URL, anything else as a file URL.
    pub fn is_artwork(&self) -> (r: bool)
        ensures
            r == (self.media_kind@ == "artwork"@),
    {
        crate::text::str_eq(self.media_kind.as_str(), "artwork")
    }

    /// What eviction reads of a record: its size and last access time.
    pub fn eviction_entry(&self) -> (r: (u64, u128))
        ensures
            r == (self.size_bytes, self.last_accessed_unix_ms),
    {
        (self.size_bytes, self.last_accessed_unix_ms)
    }
}

/// The `file://` URL of an absolute path (`Url::from_file_path`), or `None`
/// when the path is not absolute (path syntax of the platform the library
/// is built for).
pub uninterp spec fn file_url_of(path: Seq<char>) -> Option<Seq<char>>;

/// `url::Url::from_file_path(path)` serialised.
#[verifier::external_body]
pub(crate) fn url_from_file_path(path: &str) -> (r: Option<String>)
    ensures
        match r {
            Some(u) => file_url_of(path@) == Some(u@),
            None => file_url_of(path@) is None,
        },
{
    url::Url::from_file_path(path).ok().map(|u| u.to_string())
}

/// The URL of a cached file that is not artwork.
pub fn cached_file_url(path: &str) -> (r: Result<String, String>)
    ensures
        match file_url_of(path@) {
            Some(u) => r matches Ok(x) && x@ == u,
            None => r matches Err(e) && e@ == "Failed to convert cached file path into URL"@,
        },
{
    match url_from_file_path(path) {
        Some(u) => Ok(u),
        None => Err("Failed to convert cached file path into URL".to_string()),
    }
}

/// Law: eviction never deletes an entry twice, deletes only listed
/// entries, and unless it deleted every entry it stops with the remaining
/// size within the limit.
pub proof fn law_eviction_fits_limit(es: Seq<(u64, u128)>, limit: u64)
    ensures
        forall|a: int, b: int|
            0 <= a < b < eviction_plan(es, limit).len() ==> eviction_plan(es, limit)[a]
                != eviction_plan(es, limit)[b],
        forall|a: int|
            0 <= a < eviction_plan(es, limit).len() ==> 0 <= #[trigger] eviction_plan(es, limit)[a]
                < es.len(),
        eviction_plan(es, limit).len() < es.len() ==> eviction_left(
            es,
            seq![],
            total_size(es),
            limit as int,
        ) <= limit,
{
    lemma_eviction_from(es, seq![], total_size(es), limit as int);
}


proof fn lemma_trim_plain(s: Seq<char>)
    requires
        s.len() > 0,
        !is_ws(s[0]),
        !is_ws(s.last()),
    ensures
        trim(s) == s,
{
    assert(trim_start(s) == s);
}

/// Law: an entry just written is read back from the file it was written
/// to: the extension recorded for its content type is never blank, so
/// with that file present the data path resolved on reading is the one
/// writing used.
pub proof fn law_written_entry_read_back(root: Seq<char>, key: Seq<char>, content_type: Seq<char>)
    ensures
        resolved_data_path(root, key, extension_for(media_type_of(content_type)), true) == join_path(
            root,
            key + seq!['.'] + extension_for(media_type_of(content_type)),
        ),
{
    lemma_extension_plain(content_type);
}

proof fn lemma_extension_plain(content_type: Seq<char>)
    ensures
        trim(extension_for(media_type_of(content_type))) == extension_for(media_type_of(content_type)),
        extension_for(media_type_of(content_type)).len() > 0,
{
    let e = extension_for(media_type_of(content_type));
    reveal_strlit("jpg");
    reveal_strlit("png");
    reveal_strlit("webp");
    reveal_strlit("gif");
    reveal_strlit("bmp");
    reveal_strlit("svg");
    reveal_strlit("mp3");
    reveal_strlit("flac");
    reveal_strlit("aac");
    reveal_strlit("ogg");
    reveal_strlit("wav");
    reveal_strlit("m4a");
    reveal_strlit("bin");
    assert(e.len() >= 3);
    assert(!is_ws(e[0]) && !is_ws(e.last()));
    lemma_trim_plain(e);
}


/// The size eviction believes is left when it stops.
pub open spec fn eviction_left(es: Seq<(u64, u128)>, gone: Seq<int>, size: int, limit: int) -> int
    decreases es.len() - gone.len(),
{
    if size <= limit || gone.len() >= es.len() {
        size
    } else {
        let m = lru_from(es, gone, 0, -1);
        if m < 0 || m >= es.len() {
            size
        } else {
            let rest = if es[m].0 <= size {
                size - es[m].0
            } else {
                0
            };
            eviction_left(es, gone.push(m), rest, limit)
        }
    }
}

proof fn lemma_lru_found(es: Seq<(u64, u128)>, gone: Seq<int>, j: int, best: int, w: int)
    requires
        0 <= j,
        best == -1 || (0 <= best < es.len()),
        (best >= 0) || (j <= w < es.len() && !gone.contains(w)),
    ensures
        lru_from(es, gone, j, best) >= 0,
    decreases es.len() - j,
{
    if j < es.len() {
        if gone.contains(j) || (best >= 0 && used_before(es, best, j)) {
            lemma_lru_found(es, gone, j + 1, best, w);
        } else {
            lemma_lru_found(es, gone, j + 1, j, w);
        }
    }
}

proof fn lemma_free_index(gone: Seq<int>, n: int)
    requires
        gone.no_duplicates(),
        forall|a: int| 0 <= a < gone.len() ==> 0 <= #[trigger] gone[a] < n,
        gone.len() < n,
    ensures
        exists|w: int| 0 <= w < n && !gone.contains(w),
{
    broadcast use vstd::seq_lib::seq_to_set_is_finite;

    if forall|w: int| 0 <= w < n ==> gone.contains(w) {
        vstd::set_lib::lemma_int_range(0, n);
        gone.unique_seq_to_set();
        assert(vstd::set_lib::set_int_range(0, n).subset_of(gone.to_set()));
        vstd::set_lib::lemma_len_subset(vstd::set_lib::set_int_range(0, n), gone.to_set());
    }
}

proof fn lemma_eviction_from(es: Seq<(u64, u128)>, gone: Seq<int>, size: int, limit: int)
    requires
        gone.no_duplicates(),
        forall|a: int| 0 <= a < gone.len() ==> 0 <= #[trigger] gone[a] < es.len(),
    ensures
        ({
            let plan = eviction_from(es, gone, size, limit);
            &&& forall|a: int|
                0 <= a < plan.len() ==> 0 <= #[trigger] plan[a] < es.len() && !gone.contains(plan[a])
            &&& forall|a: int, b: int| 0 <= a < b < plan.len() ==> plan[a] != plan[b]
            &&& gone.len() + plan.len() < es.len() ==> eviction_left(es, gone, size, limit) <= limit
        }),
    decreases es.len() - gone.len(),
{
    if size <= limit || gone.len() >= es.len() {
    } else {
        lemma_free_index(gone, es.len() as int);
        let w = choose|w: int| 0 <= w < es.len() && !gone.contains(w);
        lemma_lru_found(es, gone, 0, -1, w);
        lemma_lru_from(es, gone, 0, -1);
        let m = lru_from(es, gone, 0, -1);
        let rest = if es[m].0 <= size {
            size - es[m].0
        } else {
            0
        };
        let g2 = gone.push(m);
        assert(g2.no_duplicates()) by {
            assert forall|a: int, b: int|
                0 <= a < g2.len() && 0 <= b < g2.len() && a != b implies g2[a] != g2[b] by {
                if a == gone.len() as int {
                    assert(gone[b] == g2[b]);
                } else if b == gone.len() as int {
                    assert(gone[a] == g2[a]);
                }
            }
        }
        assert forall|a: int| 0 <= a < g2.len() implies 0 <= #[trigger] g2[a] < es.len() by {
            if a < gone.len() {
                assert(g2[a] == gone[a]);
            }
        }
        lemma_eviction_from(es, g2, rest, limit);
        let p2 = eviction_from(es, g2, rest, limit);
        let plan = eviction_from(es, gone, size, limit);
        assert(plan == seq![m] + p2);
        assert forall|a: int| 0 <= a < plan.len() implies 0 <= #[trigger] plan[a] < es.len()
            && !gone.contains(plan[a]) by {
            if a > 0 {
                assert(plan[a] == p2[a - 1]);
                if gone.contains(plan[a]) {
                    let k = choose|k: int| 0 <= k < gone.len() && gone[k] == plan[a];
                    assert(g2[k] == plan[a]);
                }
            }
        }
        assert forall|a: int, b: int| 0 <= a < b < plan.len() implies plan[a] != plan[b] by {
            if a == 0 {
                assert(plan[b] == p2[b - 1]);
                assert(g2[gone.len() as int] == m);
                assert(g2.contains(m));
            } else {
                assert(plan[a] == p2[a - 1] && plan[b] == p2[b - 1]);
            }
        }
    }
}


// ---------------------------------------------------------------------------
// Reading back what was written
// ---------------------------------------------------------------------------

/// A metadata record as plain values: key, kind, source URL, content type,
/// extension, size, time written and time last read.
pub open spec fn meta_view(m: CacheMetadata) -> (Seq<char>, Seq<char>, Seq<char>, Seq<char>, Seq<char>, u64, u128, u128) {
    (
        m.cache_key@,
        m.media_kind@,
        m.source_url@,
        m.content_type@,
        m.file_extension@,
        m.size_bytes,
        m.cached_at_unix_ms,
        m.last_accessed_unix_ms,
    )
}

/// The record `CacheMetadata::written` makes.
pub open spec fn written_view(
    key: Seq<char>,
    kind: Seq<char>,
    url: Seq<char>,
    content_type: Seq<char>,
    size: u64,
    now: u128,
) -> (Seq<char>, Seq<char>, Seq<char>, Seq<char>, Seq<char>, u64, u128, u128) {
    (key, kind, url, content_type, extension_for(media_type_of(content_type)), size, now, now)
}

/// The record `CacheMetadata::touched` makes of `m`.
pub open spec fn touched_view(
    m: (Seq<char>, Seq<char>, Seq<char>, Seq<char>, Seq<char>, u64, u128, u128),
    size: u64,
    now: u128,
) -> (Seq<char>, Seq<char>, Seq<char>, Seq<char>, Seq<char>, u64, u128, u128) {
    (m.0, m.1, m.2, m.3, m.4, size, m.6, now)
}

/// The metadata file of `key` (see `DiskCache::paths_for`).
pub open spec fn meta_path(root: Seq<char>, key: Seq<char>) -> Seq<char> {
    join_path(root, cache_file_key(encode_utf8(key)) + ".json"@)
}

/// The cache directory after a write of `bytes` under `key` at time `now`,
/// as a map of data files and a map of metadata records by path: the data
/// file named by the content type's extension, and the record beside it
/// (see `write` in the application, built from `DiskCache::paths_for`,
/// `CacheMetadata::written` and `DiskCache::data_path_for`).
pub open spec fn cache_after_write(
    data: Map<Seq<char>, Seq<u8>>,
    metas: Map<Seq<char>, (Seq<char>, Seq<char>, Seq<char>, Seq<char>, Seq<char>, u64, u128, u128)>,
    root: Seq<char>,
    key: Seq<char>,
    kind: Seq<char>,
    url: Seq<char>,
    content_type: Seq<char>,
    bytes: Seq<u8>,
    now: u128,
) -> (Map<Seq<char>, Seq<u8>>, Map<Seq<char>, (Seq<char>, Seq<char>, Seq<char>, Seq<char>, Seq<char>, u64, u128, u128)>) {
    let m = written_view(key, kind, url, content_type, bytes.len() as u64, now);
    (data.insert(join_path(root, key + seq!['.'] + m.4), bytes), metas.insert(meta_path(root, key), m))
}

/// What a read of `key` at time `now` finds in the cache directory: nothing
/// without a record or without its data file; else the data, the recorded
/// content type, and the record touched with the size read (see `read` in
/// the application, built from `DiskCache::paths_for`,
/// `DiskCache::preferred_data_path`, `DiskCache::resolve_data_path` and
/// `CacheMetadata::touched`).
pub open spec fn cache_read(
    data: Map<Seq<char>, Seq<u8>>,
    metas: Map<Seq<char>, (Seq<char>, Seq<char>, Seq<char>, Seq<char>, Seq<char>, u64, u128, u128)>,
    root: Seq<char>,
    key: Seq<char>,
    now: u128,
) -> Option<(Seq<u8>, Seq<char>, (Seq<char>, Seq<char>, Seq<char>, Seq<char>, Seq<char>, u64, u128, u128))> {
    let mp = meta_path(root, key);
    if !metas.dom().contains(mp) {
        None
    } else {
        let m = metas[mp];
        let preferred_is_file = trim(m.4).len() > 0 && data.dom().contains(
            join_path(root, key + seq!['.'] + trim(m.4)),
        );
        let dp = resolved_data_path(root, key, m.4, preferred_is_file);
        if !data.dom().contains(dp) {
            None
        } else {
            Some((data[dp], m.3, touched_view(m, data[dp].len() as u64, now)))
        }
    }
}

/// Law: a read after a write of the same key (with nothing evicted in
/// between) gives back the written bytes and content type, and records the
/// size read and the time of the read, whatever the directory held before.
pub proof fn law_cache_read_after_write(
    data: Map<Seq<char>, Seq<u8>>,
    metas: Map<Seq<char>, (Seq<char>, Seq<char>, Seq<char>, Seq<char>, Seq<char>, u64, u128, u128)>,
    root: Seq<char>,
    key: Seq<char>,
    kind: Seq<char>,
    url: Seq<char>,
    content_type: Seq<char>,
    bytes: Seq<u8>,
    now_written: u128,
    now_read: u128,
)
    requires
        bytes.len() <= u64::MAX,
    ensures
        ({
            let (d, ms) = cache_after_write(data, metas, root, key, kind, url, content_type, bytes, now_written);
            cache_read(d, ms, root, key, now_read) == Some(
                (
                    bytes,
                    content_type,
                    touched_view(
                        written_view(key, kind, url, content_type, bytes.len() as u64, now_written),
                        bytes.len() as u64,
                        now_read,
                    ),
                ),
            )
        }),
{
    lemma_extension_plain(content_type);
    law_written_entry_read_back(root, key, content_type);
}

} // verus!
