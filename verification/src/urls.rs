//! URL classification: remote artwork, local streams and local library
//! roots given as `file:` URLs.
use vstd::prelude::*;
use crate::text::str_eq;

verus! {

/// The scheme of `s` parsed as a URL, or `None` when it does not parse.
pub uninterp spec fn url_scheme_of(s: Seq<char>) -> Option<Seq<char>>;

/// The local path of `s` parsed as a `file:` URL, or `None` when it does
/// not parse, is not a `file:` URL, or names no local path (in the path
/// syntax of the platform the library is built for).
pub uninterp spec fn url_file_path_of(s: Seq<char>) -> Option<Seq<char>>;

/// `url::Url::parse(s)` and `Url::scheme`.
#[verifier::external_body]
fn url_scheme(s: &str) -> (r: Option<String>)
    ensures
        match r {
            Some(x) => url_scheme_of(s@) == Some(x@),
            None => url_scheme_of(s@) is None,
        },
{
    url::Url::parse(s).ok().map(|u| u.scheme().to_string())
}

/// `url::Url::parse(s)`, `Url::to_file_path` and `Path::to_str`.
#[verifier::external_body]
fn url_to_file_path(s: &str) -> (r: Option<String>)
    ensures
        match r {
            Some(x) => url_file_path_of(s@) == Some(x@),
            None => url_file_path_of(s@) is None,
        },
{
    url::Url::parse(s).ok().and_then(|u| u.to_file_path().ok()).and_then(
        |p| p.to_str().map(|x| x.to_string()),
    )
}

pub open spec fn scheme_is(s: Seq<char>, scheme: Seq<char>) -> bool {
    url_scheme_of(s) == Some(scheme)
}

fn has_scheme(s: &str, scheme: &str) -> (r: bool)
    ensures
        r == scheme_is(s@, scheme@),
{
    match url_scheme(s) {
        Some(x) => str_eq(x.as_str(), scheme),
        None => false,
    }
}

/// Artwork at an `http` or `https` URL is remote.
pub fn is_remote_cover_url(url: &str) -> (r: bool)
    ensures
        r == (scheme_is(url@, "http"@) || scheme_is(url@, "https"@)),
{
    has_scheme(url, "http") || has_scheme(url, "https")
}

/// Whether a cover is fetched into the artwork cache: only when proxying
/// is wanted and the URL is a non-empty remote one.
pub fn should_cache_cover(proxy: bool, cover_art_url: &str) -> (r: bool)
    ensures
        r == (proxy && cover_art_url@.len() > 0 && (scheme_is(cover_art_url@, "http"@) || scheme_is(
            cover_art_url@,
            "https"@,
        ))),
{
    proxy && !cover_art_url.is_empty() && is_remote_cover_url(cover_art_url)
}

/// A stream is local when it is a `file:` URL or names an existing path
/// (`path_exists`, which the caller looks up).
pub fn is_local_stream(stream_url: &str, path_exists: bool) -> (r: bool)
    ensures
        r == (scheme_is(stream_url@, "file"@) || path_exists),
{
    has_scheme(stream_url, "file") || path_exists
}

/// The folder of a local library: a `file:` URL converted to its path,
/// anything else taken as a path.
pub open spec fn root_path_spec(raw: Seq<char>) -> Seq<char> {
    if scheme_is(raw, "file"@) {
        match url_file_path_of(raw) {
            Some(p) => p,
            None => raw,
        }
    } else {
        raw
    }
}

pub fn root_path_of(raw: &str) -> (r: String)
    ensures
        r@ == root_path_spec(raw@),
{
    if has_scheme(raw, "file") {
        match url_to_file_path(raw) {
            Some(p) => return p,
            None => {},
        }
    }
    raw.to_string()
}

} // verus!
