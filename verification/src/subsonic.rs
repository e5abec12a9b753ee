//! The Subsonic API client: authentication parameters and request URLs.
use vstd::prelude::*;
use crate::json::{
    json_error_of, json_null_at, json_str_at, json_u64_at, json_len_at, json_member, str_or_empty,
    json_syntax, json_null, json_str, json_u64, json_len, member, element, string_or_empty,
};
use crate::numfmt::decimal;
use crate::library::optional_u32;
use crate::profiles::opt_view;
use vstd::string::StringSliceAdditionalSpecFns;
use vstd::utf8::{decode_utf8, valid_utf8, encode_utf8};
use rand::Rng;
use crate::digest::md5_hex;
use crate::numfmt::decimal_signed;
use crate::profiles::ActiveProfile;
use crate::text::{
    chars_of, string_of, extend_chars, is_ascii_alnum, trim_char_end, trim_end_char_str, has_prefix,
    str_eq, utf8_string, trim,
};
use crate::library::{after_last, format_from_content_type};

verus! {

pub const CLIENT_NAME: &'static str = "madrify";

pub const API_VERSION: &'static str = "1.16.1";

/// The number of characters of the random salt of a token.
pub const SALT_LEN: usize = 16;

// ---------------------------------------------------------------------------
// Legacy passwords
// ---------------------------------------------------------------------------

/// The value of a hexadecimal digit of either case.
pub open spec fn hex_value(c: char) -> Option<u8> {
    if '0' <= c && c <= '9' {
        Some((c as u32 - '0' as u32) as u8)
    } else if 'a' <= c && c <= 'f' {
        Some((c as u32 - 'a' as u32 + 10) as u8)
    } else if 'A' <= c && c <= 'F' {
        Some((c as u32 - 'A' as u32 + 10) as u8)
    } else {
        None
    }
}

/// `u8::from_str_radix` on two characters in base 16, which also takes a
/// leading `+` before a single digit.
pub open spec fn hex_pair(c0: char, c1: char) -> Option<u8> {
    if c0 == '+' {
        hex_value(c1)
    } else {
        match (hex_value(c0), hex_value(c1)) {
            (Some(a), Some(b)) => Some((a * 16 + b) as u8),
            _ => None,
        }
    }
}

/// The bytes written as consecutive hexadecimal pairs, if every pair parses.
pub open spec fn hex_pairs(h: Seq<char>) -> Option<Seq<u8>>
    decreases h.len(),
{
    if h.len() < 2 {
        Some(Seq::empty())
    } else {
        match (hex_pair(h[0], h[1]), hex_pairs(h.skip(2))) {
            (Some(b), Some(rest)) => Some(seq![b] + rest),
            _ => None,
        }
    }
}

pub open spec fn all_ascii(s: Seq<char>) -> bool {
    forall|i: int| 0 <= i < s.len() ==> (s[i] as u32) < 128
}

/// A password stored as `enc:` followed by the hexadecimal UTF-8 bytes of
/// the clear text; any other password is kept as it is.  When the hex text
/// is not an even number of bytes, or does not decode to UTF-8, the text
/// after the prefix is used.
pub open spec fn legacy_password(p: Seq<char>) -> Seq<char> {
    if !"enc:"@.is_prefix_of(p) {
        p
    } else {
        let h = p.skip(4);
        if !all_ascii(h) || h.len() % 2 != 0 {
            h
        } else {
            match hex_pairs(h) {
                Some(bs) => if valid_utf8(bs) {
                    decode_utf8(bs)
                } else {
                    h
                },
                None => h,
            }
        }
    }
}

/// A hexadecimal digit for `n < 16`, lower or upper case.
pub open spec fn hex_digit_char(n: u8, upper: bool) -> char {
    if n < 10 {
        (n + 48) as char
    } else if upper {
        (n + 55) as char
    } else {
        (n + 87) as char
    }
}

/// Bytes written as two hexadecimal digits each, most significant first,
/// each digit in the case `upper` picks for it.
pub open spec fn hex_encode(bs: Seq<u8>, upper: spec_fn(int) -> bool) -> Seq<char>
    decreases bs.len(),
{
    if bs.len() == 0 {
        Seq::empty()
    } else {
        hex_encode(bs.drop_last(), upper) + seq![
            hex_digit_char(bs.last() / 16, upper(2 * (bs.len() - 1))),
            hex_digit_char(bs.last() % 16, upper(2 * (bs.len() - 1) + 1)),
        ]
    }
}

proof fn lemma_hex_digit(n: u8, upper: bool)
    requires
        n < 16,
    ensures
        hex_value(hex_digit_char(n, upper)) == Some(n),
        (hex_digit_char(n, upper) as u32) < 128,
        hex_digit_char(n, upper) != '+',
{
}

proof fn lemma_hex_encode(bs: Seq<u8>, upper: spec_fn(int) -> bool)
    ensures
        hex_encode(bs, upper).len() == 2 * bs.len(),
        all_ascii(hex_encode(bs, upper)),
        forall|k: int|
            0 <= k < bs.len() ==> hex_pair(#[trigger] hex_encode(bs, upper)[2 * k], hex_encode(bs, upper)[2
                * k + 1]) == Some(bs[k]),
    decreases bs.len(),
{
    if bs.len() > 0 {
        let d = bs.drop_last();
        lemma_hex_encode(d, upper);
        let b = bs.last();
        lemma_hex_digit(b / 16, upper(2 * (bs.len() - 1)));
        lemma_hex_digit(b % 16, upper(2 * (bs.len() - 1) + 1));
        let h = hex_encode(bs, upper);
        let hd = hex_encode(d, upper);
        assert forall|k: int| 0 <= k < bs.len() implies hex_pair(#[trigger] h[2 * k], h[2 * k + 1])
            == Some(bs[k]) by {
            if k < d.len() {
                assert(h[2 * k] == hd[2 * k] && h[2 * k + 1] == hd[2 * k + 1]);
                assert(bs[k] == d[k]);
            } else {
                assert(((b / 16) * 16 + b % 16) as u8 == b);
            }
        }
    }
}

proof fn lemma_hex_pairs_of(h: Seq<char>, bs: Seq<u8>)
    requires
        h.len() == 2 * bs.len(),
        forall|k: int| 0 <= k < bs.len() ==> hex_pair(#[trigger] h[2 * k], h[2 * k + 1]) == Some(bs[k]),
    ensures
        hex_pairs(h) == Some(bs),
    decreases bs.len(),
{
    if bs.len() == 0 {
    } else {
        let t = h.skip(2);
        let r = bs.drop_first();
        assert forall|k: int| 0 <= k < r.len() implies hex_pair(#[trigger] t[2 * k], t[2 * k + 1])
            == Some(r[k]) by {
            assert(t[2 * k] == h[2 * (k + 1)] && t[2 * k + 1] == h[2 * (k + 1) + 1]);
            assert(r[k] == bs[k + 1]);
        }
        lemma_hex_pairs_of(t, r);
        assert(hex_pair(h[0], h[1]) == Some(bs[0])) by {
            assert(h[2 * 0int] == h[0]);
        }
        assert(seq![bs[0]] + r == bs);
    }
}

/// Law: a password saved as `enc:` and the hexadecimal UTF-8 bytes of its
/// text (digits of either case) decodes to that text, and any password
/// without the prefix is used as it is.
pub proof fn law_legacy_password_round_trip(s: Seq<char>, upper: spec_fn(int) -> bool, p: Seq<char>)
    ensures
        legacy_password("enc:"@ + hex_encode(encode_utf8(s), upper)) == s,
        !"enc:"@.is_prefix_of(p) ==> legacy_password(p) == p,
{
    reveal_strlit("enc:");
    let bs = encode_utf8(s);
    let h = hex_encode(bs, upper);
    lemma_hex_encode(bs, upper);
    lemma_hex_pairs_of(h, bs);
    let q = "enc:"@ + h;
    assert("enc:"@.is_prefix_of(q)) by {
        assert(q.subrange(0, 4) =~= "enc:"@);
    }
    assert(q.skip(4) =~= h);
    vstd::utf8::encode_utf8_valid_utf8(s);
    vstd::utf8::encode_utf8_decode_utf8(s);
}

fn hex_digit_value(c: char) -> (r: Option<u8>)
    ensures
        r == hex_value(c),
{
    if '0' <= c && c <= '9' {
        Some((c as u32 - '0' as u32) as u8)
    } else if 'a' <= c && c <= 'f' {
        Some((c as u32 - 'a' as u32 + 10) as u8)
    } else if 'A' <= c && c <= 'F' {
        Some((c as u32 - 'A' as u32 + 10) as u8)
    } else {
        None
    }
}

fn parse_hex_pair(c0: char, c1: char) -> (r: Option<u8>)
    ensures
        r == hex_pair(c0, c1),
{
    if c0 == '+' {
        return hex_digit_value(c1);
    }
    match (hex_digit_value(c0), hex_digit_value(c1)) {
        (Some(a), Some(b)) => Some(a * 16 + b),
        _ => None,
    }
}

proof fn lemma_hex_pairs_step(h: Seq<char>, i: int)
    requires
        0 <= i,
        i + 2 <= h.len(),
        h.len() % 2 == 0,
        i % 2 == 0,
    ensures
        hex_pairs(h.skip(i)) == (match (hex_pair(h[i], h[i + 1]), hex_pairs(h.skip(i + 2))) {
            (Some(b), Some(rest)) => Some(seq![b] + rest),
            _ => None,
        }),
{
    let t = h.skip(i);
    assert(t[0] == h[i] && t[1] == h[i + 1]);
    assert(t.skip(2) == h.skip(i + 2));
}

fn decode_hex_chars(h: &Vec<char>) -> (r: Option<Vec<u8>>)
    requires
        h@.len() % 2 == 0,
    ensures
        match r {
            Some(bs) => hex_pairs(h@) == Some(bs@),
            None => hex_pairs(h@) is None,
        },
{
    let mut out: Vec<u8> = Vec::new();
    let mut i: usize = 0;
    let mut ok = true;
    assert(h@.skip(0) == h@);
    while i + 1 < h.len() && ok
        invariant
            i <= h@.len(),
            i % 2 == 0,
            h@.len() % 2 == 0,
            ok ==> (hex_pairs(h@) == match hex_pairs(h@.skip(i as int)) {
                Some(rest) => Some(out@ + rest),
                None => None::<Seq<u8>>,
            }),
            !ok ==> hex_pairs(h@) is None,
        decreases h.len() - i,
    {
        proof {
            lemma_hex_pairs_step(h@, i as int);
        }
        match parse_hex_pair(h[i], h[i + 1]) {
            Some(b) => {
                proof {
                    let rest = hex_pairs(h@.skip(i + 2));
                    if rest is Some {
                        assert(out@.push(b) + rest->0 == out@ + (seq![b] + rest->0));
                    }
                }
                out.push(b);
                i = i + 2;
            },
            None => {
                ok = false;
                i = i + 2;
            },
        }
    }
    if !ok {
        return None;
    }
    proof {
        assert(h@.skip(i as int).len() == 0);
        assert(out@ + Seq::<u8>::empty() == out@);
    }
    Some(out)
}

/// Decodes a legacy `enc:` password (see `legacy_password`).
pub fn decode_legacy_password(password: &str) -> (r: String)
    ensures
        r@ == legacy_password(password@),
{
    if !has_prefix(password, "enc:") {
        return password.to_string();
    }
    proof {
        reveal_strlit("enc:");
    }
    let v = chars_of(password);
    let hv = crate::text::slice_chars(&v, 4, v.len());
    assert(hv@ == password@.skip(4));
    let hex = string_of(&hv);
    let mut ascii = true;
    let mut i: usize = 0;
    while i < hv.len()
        invariant
            i <= hv@.len(),
            ascii <==> forall|k: int| 0 <= k < i ==> (hv@[k] as u32) < 128,
        decreases hv.len() - i,
    {
        if (hv[i] as u32) >= 128 {
            ascii = false;
        }
        i = i + 1;
    }
    if !ascii || hv.len() % 2 != 0 {
        return hex;
    }
    match decode_hex_chars(&hv) {
        Some(bytes) => match utf8_string(bytes.as_slice()) {
            Some(s) => s,
            None => hex,
        },
        None => hex,
    }
}

// ---------------------------------------------------------------------------
// The client
// ---------------------------------------------------------------------------

/// How a request proves who sends it: the clear password, or a salted MD5
/// token derived from it.
pub enum SubsonicAuth {
    Plain(String),
    Token(String),
}

pub struct SubsonicClient {
    pub base_url: String,
    pub username: String,
    pub auth: SubsonicAuth,
}

/// A list of string pairs as character sequences.
pub open spec fn pair_views(ps: Seq<(String, String)>) -> Seq<(Seq<char>, Seq<char>)> {
    ps.map_values(|p: (String, String)| (p.0@, p.1@))
}

/// Legacy servers, and passwords stored in the legacy form, send the clear
/// password; every other server gets a token.
pub open spec fn uses_plain_auth(p: ActiveProfile) -> bool {
    p.server_type@ == "subsonic_legacy"@ || "enc:"@.is_prefix_of(p.password@)
}

/// The token sent with a salt: the MD5 digest of the password followed by
/// the salt, in lower-case hexadecimal.
pub open spec fn token_of(password: Seq<char>, salt: Seq<char>) -> Seq<char> {
    md5_hex(encode_utf8(password + salt))
}

/// The authentication parameters given the salt that was drawn.
pub open spec fn auth_pairs_spec(username: Seq<char>, auth: SubsonicAuth, salt: Seq<char>) -> Seq<
    (Seq<char>, Seq<char>),
> {
    let common = seq![
        ("v"@, API_VERSION@),
        ("c"@, CLIENT_NAME@),
        ("f"@, "json"@),
        ("u"@, username),
    ];
    match auth {
        SubsonicAuth::Plain(pw) => common.push(("p"@, pw@)),
        SubsonicAuth::Token(pw) => common.push(("t"@, token_of(pw@, salt))).push(("s"@, salt)),
    }
}

/// `n` ASCII letters and digits.
pub open spec fn is_alnum_of_len(s: Seq<char>, n: nat) -> bool {
    s.len() == n && forall|i: int| 0 <= i < s.len() ==> is_ascii_alnum(s[i])
}

pub open spec fn is_salt(s: Seq<char>) -> bool {
    is_alnum_of_len(s, SALT_LEN as nat)
}

/// `rand::rng().sample_iter(Alphanumeric).take(n)` collected into a string:
/// `n` characters, each an ASCII letter or digit, drawn at random.
#[verifier::external_body]
pub(crate) fn random_alphanumeric(n: usize) -> (r: String)
    ensures
        r@.len() == n,
        forall|i: int| 0 <= i < n ==> is_ascii_alnum(#[trigger] r@[i]),
{
    rand::rng().sample_iter(rand::distr::Alphanumeric).take(n).map(char::from).collect()
}

fn push_pair(ps: &mut Vec<(String, String)>, k: &str, v: String)
    ensures
        pair_views(final(ps)@) == pair_views(old(ps)@).push((k@, v@)),
{
    ps.push((k.to_string(), v));
    proof {
        assert(pair_views(ps@) == pair_views(old(ps)@).push((k@, v@)));
    }
}

/// The serialisation of `base` parsed as a URL with `pairs` appended to its
/// query in `application/x-www-form-urlencoded` form, or `None` when `base`
/// does not parse.
pub uninterp spec fn url_with_query_pairs(base: Seq<char>, pairs: Seq<(Seq<char>, Seq<char>)>) -> Option<
    Seq<char>,
>;

/// `url::Url::parse(base)`, then `query_pairs_mut().extend_pairs(pairs)`,
/// then `Url::to_string`.  Nothing of the result is stated but that it is a
/// function of the base and the pairs.
#[verifier::external_body]
pub(crate) fn parse_url_with_pairs(base: &str, pairs: &Vec<(String, String)>) -> (r: Option<String>)
    ensures
        match r {
            Some(u) => url_with_query_pairs(base@, pair_views(pairs@)) == Some(u@),
            None => url_with_query_pairs(base@, pair_views(pairs@)) is None,
        },
{
    let mut url = url::Url::parse(base).ok()?;
    url.query_pairs_mut().extend_pairs(pairs.iter().map(|(k, v)| (k.as_str(), v.as_str())));
    Some(url.to_string())
}

/// The request URL given the outcome of parsing: the parsed URL, or the
/// base text itself when it did not parse.
pub fn url_or_base(parsed: Option<String>, base: String) -> (r: String)
    ensures
        r@ == (match parsed {
            Some(u) => u@,
            None => base@,
        }),
{
    match parsed {
        Some(u) => u,
        None => base,
    }
}

/// The URL of an endpoint before any query is added.
pub open spec fn endpoint_base(base_url: Seq<char>, endpoint: Seq<char>) -> Seq<char> {
    base_url + "/rest/"@ + endpoint
}

/// The request URL of an endpoint with the given authentication pairs and
/// extra parameters.
pub open spec fn request_url(base_url: Seq<char>, endpoint: Seq<char>, pairs: Seq<(Seq<char>, Seq<char>)>) -> Seq<char> {
    match url_with_query_pairs(endpoint_base(base_url, endpoint), pairs) {
        Some(u) => u,
        None => endpoint_base(base_url, endpoint),
    }
}

impl SubsonicClient {
    /// A client for a profile: the URL without trailing slashes, and the
    /// clear (decoded) password for legacy servers or legacy-stored passwords.
    pub fn new(p: &ActiveProfile) -> (c: SubsonicClient)
        ensures
            c.base_url@ == trim_char_end(p.url@, '/'),
            c.username@ == p.username@,
            uses_plain_auth(*p) ==> (c.auth matches SubsonicAuth::Plain(pw) && pw@
                == legacy_password(p.password@)),
            !uses_plain_auth(*p) ==> (c.auth matches SubsonicAuth::Token(pw) && pw@
                == p.password@),
    {
        let auth = if str_eq(p.server_type.as_str(), "subsonic_legacy") || has_prefix(
            p.password.as_str(),
            "enc:",
        ) {
            SubsonicAuth::Plain(decode_legacy_password(p.password.as_str()))
        } else {
            SubsonicAuth::Token(p.password.clone())
        };
        SubsonicClient {
            base_url: trim_end_char_str(p.url.as_str(), '/'),
            username: p.username.clone(),
            auth,
        }
    }

    /// The authentication parameters for a given salt: version, client,
    /// format and user, then the clear password, or the token and the salt.
    pub fn auth_params_with_salt(&self, salt: &str) -> (r: Vec<(String, String)>)
        ensures
            pair_views(r@) == auth_pairs_spec(self.username@, self.auth, salt@),
    {
        let mut ps: Vec<(String, String)> = Vec::new();
        push_pair(&mut ps, "v", API_VERSION.to_string());
        push_pair(&mut ps, "c", CLIENT_NAME.to_string());
        push_pair(&mut ps, "f", "json".to_string());
        push_pair(&mut ps, "u", self.username.clone());
        match &self.auth {
            SubsonicAuth::Plain(pw) => {
                push_pair(&mut ps, "p", pw.clone());
            },
            SubsonicAuth::Token(pw) => {
                let mut v = chars_of(pw.as_str());
                extend_chars(&mut v, &chars_of(salt));
                let joined = string_of(&v);
                let token = string_of(&crate::digest::md5_hex_of_str(joined.as_str()));
                push_pair(&mut ps, "t", token);
                push_pair(&mut ps, "s", salt.to_string());
            },
        }
        ps
    }

    /// The authentication parameters with a freshly drawn salt of 16 ASCII
    /// letters and digits.
    pub fn auth_params(&self) -> (r: Vec<(String, String)>)
        ensures
            exists|salt: Seq<char>|
                is_salt(salt) && pair_views(r@) == auth_pairs_spec(self.username@, self.auth, salt),
    {
        let salt = random_alphanumeric(SALT_LEN);
        let r = self.auth_params_with_salt(salt.as_str());
        assert(is_salt(salt@));
        r
    }

    /// The URL of an endpoint with the given salt and extra parameters: the
    /// authentication pairs followed by `params`.
    pub fn build_url_with_salt(&self, endpoint: &str, params: &Vec<(String, String)>, salt: &str) -> (r:
        String)
        ensures
            r@ == request_url(
                self.base_url@,
                endpoint@,
                auth_pairs_spec(self.username@, self.auth, salt@) + pair_views(params@),
            ),
    {
        let mut v = chars_of(self.base_url.as_str());
        extend_chars(&mut v, &chars_of("/rest/"));
        extend_chars(&mut v, &chars_of(endpoint));
        let base = string_of(&v);
        let mut pairs = self.auth_params_with_salt(salt);
        let ghost auth = pair_views(pairs@);
        let mut i: usize = 0;
        while i < params.len()
            invariant
                i <= params@.len(),
                pair_views(pairs@) == auth + pair_views(params@).take(i as int),
            decreases params.len() - i,
        {
            let ghost prev = pair_views(pairs@);
            let k = params[i].0.clone();
            let v = params[i].1.clone();
            pairs.push((k, v));
            proof {
                assert(pair_views(pairs@) =~= prev.push(pair_views(params@)[i as int]));
                assert(pair_views(params@).take(i + 1) =~= pair_views(params@).take(i as int).push(
                    pair_views(params@)[i as int],
                ));
            }
            i = i + 1;
        }
        assert(pair_views(params@).take(params@.len() as int) == pair_views(params@));
        let parsed = parse_url_with_pairs(base.as_str(), &pairs);
        url_or_base(parsed, base)
    }

    /// The URL of an endpoint with a freshly drawn salt.
    pub fn build_url(&self, endpoint: &str, params: &Vec<(String, String)>) -> (r: String)
        ensures
            exists|salt: Seq<char>|
                is_salt(salt) && r@ == request_url(
                    self.base_url@,
                    endpoint@,
                    auth_pairs_spec(self.username@, self.auth, salt) + pair_views(params@),
                ),
    {
        let salt = random_alphanumeric(SALT_LEN);
        assert(is_salt(salt@));
        self.build_url_with_salt(endpoint, params, salt.as_str())
    }

    /// The cover-art URL of an id at a size; empty for an empty id.
    pub fn cover_art_url(&self, id: &str, size: i32) -> (r: String)
        ensures
            id@.len() == 0 ==> r@.len() == 0,
            id@.len() > 0 ==> exists|salt: Seq<char>|
                is_salt(salt) && r@ == request_url(
                    self.base_url@,
                    "getCoverArt"@,
                    auth_pairs_spec(self.username@, self.auth, salt) + seq![
                        ("id"@, id@),
                        ("size"@, decimal_signed(size as int)),
                    ],
                ),
    {
        if id.is_empty() {
            return String::new();
        }
        let mut size_chars: Vec<char> = Vec::new();
        crate::numfmt::push_decimal_signed(&mut size_chars, size as i64);
        let mut params: Vec<(String, String)> = Vec::new();
        push_pair(&mut params, "id", id.to_string());
        push_pair(&mut params, "size", string_of(&size_chars));
        assert(pair_views(params@) =~= seq![("id"@, id@), ("size"@, decimal_signed(size as int))]);
        self.build_url("getCoverArt", &params)
    }

    /// The streaming URL of an id; empty for an empty id.
    pub fn stream_url(&self, id: &str) -> (r: String)
        ensures
            id@.len() == 0 ==> r@.len() == 0,
            id@.len() > 0 ==> exists|salt: Seq<char>|
                is_salt(salt) && r@ == request_url(
                    self.base_url@,
                    "stream"@,
                    auth_pairs_spec(self.username@, self.auth, salt) + seq![("id"@, id@)],
                ),
    {
        if id.is_empty() {
            return String::new();
        }
        let mut params: Vec<(String, String)> = Vec::new();
        push_pair(&mut params, "id", id.to_string());
        assert(pair_views(params@) =~= seq![("id"@, id@)]);
        self.build_url("stream", &params)
    }
}


/// The verdict on a reply to the client: it must hold a
/// `subsonic-response` whose status is `ok`; otherwise its error message
/// (or a generic one) is the error.
pub fn check_reply(has_body: bool, status: &Option<String>, message: &Option<String>) -> (r: Result<
    (),
    String,
>)
    ensures
        !has_body ==> (r matches Err(e) && e@ == "Invalid response: missing subsonic-response"@),
        has_body && (status matches Some(s) && s@ == "ok"@) ==> r is Ok,
        has_body && !(status matches Some(s) && s@ == "ok"@) ==> (r matches Err(e) && e@ == (
        match message {
            Some(m) => m@,
            None => "Unknown subsonic error"@,
        })),
{
    if !has_body {
        return Err("Invalid response: missing subsonic-response".to_string());
    }
    let ok = match status {
        Some(s) => str_eq(s.as_str(), "ok"),
        None => false,
    };
    if ok {
        return Ok(());
    }
    match message {
        Some(m) => Err(m.clone()),
        None => Err("Unknown subsonic error".to_string()),
    }
}


/// The audio format of a Subsonic child entry as the server reports it: the
/// transcoded suffix, else the file suffix (either taken as given), else the
/// trimmed part of the content type after its last `/`, when not empty.
pub fn child_format(transcoded_suffix: Option<String>, suffix: Option<String>, content_type: Option<
    String>) -> (r: Option<String>)
    ensures
        transcoded_suffix is Some ==> r == transcoded_suffix,
        transcoded_suffix is None && suffix is Some ==> r == suffix,
        transcoded_suffix is None && suffix is None ==> (match content_type {
            Some(c) => if trim(after_last(c@, '/')).len() > 0 {
                r matches Some(x) && x@ == trim(after_last(c@, '/'))
            } else {
                r is None
            },
            None => r is None,
        }),
{
    if transcoded_suffix.is_some() {
        return transcoded_suffix;
    }
    if suffix.is_some() {
        return suffix;
    }
    match content_type {
        Some(c) => format_from_content_type(c.as_str()),
        None => None,
    }
}

/// The album lists a Subsonic server offers.
#[derive(Clone, Copy, Debug, PartialEq, Eq, Structural)]
pub enum AlbumListKind {
    Newest,
    Recent,
    Frequent,
    Highest,
    Random,
}

/// The album list named by a request; anything unknown asks for the newest.
pub fn album_list_type(kind: &str) -> (r: AlbumListKind)
    ensures
        r == (if kind@ == "recent"@ {
            AlbumListKind::Recent
        } else if kind@ == "frequent"@ {
            AlbumListKind::Frequent
        } else if kind@ == "highest"@ {
            AlbumListKind::Highest
        } else if kind@ == "random"@ {
            AlbumListKind::Random
        } else {
            AlbumListKind::Newest
        }),
{
    if str_eq(kind, "recent") {
        AlbumListKind::Recent
    } else if str_eq(kind, "frequent") {
        AlbumListKind::Frequent
    } else if str_eq(kind, "highest") {
        AlbumListKind::Highest
    } else if str_eq(kind, "random") {
        AlbumListKind::Random
    } else {
        AlbumListKind::Newest
    }
}

/// The audio format of the child entry at `item` of a reply (see
/// `child_format`).
pub fn child_format_at(text: &str, item: &str) -> (r: Option<String>)
    ensures
        ({
            let t = json_str_at(text@, json_member(item@, "transcodedSuffix"@));
            let s = json_str_at(text@, json_member(item@, "suffix"@));
            let c = json_str_at(text@, json_member(item@, "contentType"@));
            &&& t is Some ==> opt_view(r) == t
            &&& t is None && s is Some ==> opt_view(r) == s
            &&& t is None && s is None ==> (match c {
                Some(x) => if trim(after_last(x, '/')).len() > 0 {
                    r matches Some(y) && y@ == trim(after_last(x, '/'))
                } else {
                    r is None
                },
                None => r is None,
            })
        }),
{
    let t = json_str(text, member(item, "transcodedSuffix").as_str());
    let s = json_str(text, member(item, "suffix").as_str());
    let c = json_str(text, member(item, "contentType").as_str());
    child_format(t, s, c)
}

/// The fields of a song entry of a reply that are not numbers of seconds:
/// ids, names, cover art, audio format and bitrate.
pub struct SongRecord {
    pub id: String,
    pub title: String,
    pub artist: String,
    pub album: String,
    pub album_id: String,
    pub cover_art: String,
    pub audio_format: Option<String>,
    pub bitrate_kbps: Option<u32>,
}

/// The first string present, else the second.
pub open spec fn or_else(a: Option<Seq<char>>, b: Option<Seq<char>>) -> Option<Seq<char>> {
    if a is Some {
        a
    } else {
        b
    }
}

/// The string at member `key` of the entry at `item`.
pub open spec fn str_at(text: Seq<char>, item: Seq<char>, key: Seq<char>) -> Option<Seq<char>> {
    json_str_at(text, json_member(item, key))
}

/// The album of a song entry: `albumId`, else `parent`, else empty.
pub open spec fn song_album_id(text: Seq<char>, item: Seq<char>) -> Seq<char> {
    str_or_empty(or_else(str_at(text, item, "albumId"@), str_at(text, item, "parent"@)))
}

/// The cover art of a song entry: `coverArt`, else its album, else its id.
pub open spec fn song_cover_art(text: Seq<char>, item: Seq<char>) -> Seq<char> {
    match str_at(text, item, "coverArt"@) {
        Some(c) => c,
        None => if song_album_id(text, item).len() == 0 {
            str_or_empty(str_at(text, item, "id"@))
        } else {
            song_album_id(text, item)
        },
    }
}

fn string_at(text: &str, item: &str, key: &str) -> (r: Option<String>)
    ensures
        opt_view(r) == str_at(text@, item@, key@),
{
    json_str(text, member(item, key).as_str())
}

/// What `song_record_at` reads for the entry at `item`: the names and ids
/// as given (an album from `albumId` or `parent`, cover art from
/// `coverArt`, its album or its id), the audio format (see `child_format`)
/// and a positive integer `bitRate` that fits in 32 bits.
pub open spec fn song_record_spec(r: SongRecord, text: Seq<char>, item: Seq<char>) -> bool {
    &&& r.id@ == str_or_empty(str_at(text, item, "id"@))
    &&& r.title@ == str_or_empty(str_at(text, item, "title"@))
    &&& r.artist@ == str_or_empty(or_else(str_at(text, item, "artist"@), str_at(text, item, "displayArtist"@)))
    &&& r.album@ == str_or_empty(str_at(text, item, "album"@))
    &&& r.album_id@ == song_album_id(text, item)
    &&& r.cover_art@ == song_cover_art(text, item)
    &&& ({
        let t = str_at(text, item, "transcodedSuffix"@);
        let s = str_at(text, item, "suffix"@);
        let c = str_at(text, item, "contentType"@);
        &&& t is Some ==> opt_view(r.audio_format) == t
        &&& t is None && s is Some ==> opt_view(r.audio_format) == s
        &&& t is None && s is None ==> (match c {
            Some(x) => if trim(after_last(x, '/')).len() > 0 {
                r.audio_format matches Some(y) && y@ == trim(after_last(x, '/'))
            } else {
                r.audio_format is None
            },
            None => r.audio_format is None,
        })
    })
    &&& r.bitrate_kbps is Some <==> (json_u64_at(text, json_member(item, "bitRate"@)) matches Some(b) && 0 < b
        <= u32::MAX)
    &&& r.bitrate_kbps matches Some(b) ==> json_u64_at(text, json_member(item, "bitRate"@)) == Some(b as u64)
}

/// The song entry at `item` of a reply text.
pub fn song_record_at(text: &str, item: &str) -> (r: SongRecord)
    ensures
        song_record_spec(r, text@, item@),
{
    let id = string_or_empty(string_at(text, item, "id"));
    let album_id = match string_at(text, item, "albumId") {
        Some(a) => a,
        None => string_or_empty(string_at(text, item, "parent")),
    };
    let cover_art = match string_at(text, item, "coverArt") {
        Some(c) => c,
        None => if album_id.as_str().is_empty() {
            id.clone()
        } else {
            album_id.clone()
        },
    };
    let artist = match string_at(text, item, "artist") {
        Some(a) => a,
        None => string_or_empty(string_at(text, item, "displayArtist")),
    };
    SongRecord {
        id,
        title: string_or_empty(string_at(text, item, "title")),
        artist,
        album: string_or_empty(string_at(text, item, "album")),
        album_id,
        cover_art,
        audio_format: child_format_at(text, item),
        bitrate_kbps: optional_u32(json_u64(text, member(item, "bitRate").as_str())),
    }
}

/// The song entries of the array at `list` of a reply text, in order (none
/// when there is no array there).
pub fn song_records_at(text: &str, list: &str) -> (r: Vec<SongRecord>)
    ensures
        r@.len() == (match json_len_at(text@, list@) {
            Some(n) => n as int,
            None => 0,
        }),
        forall|i: int|
            0 <= i < r@.len() ==> song_record_spec(#[trigger] r@[i], text@, json_member(list@, decimal(i as nat))),
{
    let n = match json_len(text, list) {
        Some(n) => n,
        None => 0,
    };
    let mut out: Vec<SongRecord> = Vec::new();
    let mut i: usize = 0;
    while i < n
        invariant
            i <= n,
            out@.len() == i,
            n == (match json_len_at(text@, list@) {
                Some(n) => n as int,
                None => 0,
            }),
            forall|k: int|
                0 <= k < i ==> song_record_spec(#[trigger] out@[k], text@, json_member(list@, decimal(k as nat))),
        decreases n - i,
    {
        let item = element(list, i);
        out.push(song_record_at(text, item.as_str()));
        i = i + 1;
    }
    out
}

/// The verdict on a reply text to the client: the parse error, or the
/// verdict of `check_reply` on its `subsonic-response`, status and error
/// message.
pub fn client_reply(text: &str) -> (r: Result<(), String>)
    ensures
        match json_error_of(text@) {
            Some(m) => r matches Err(e) && e@ == m,
            None => {
                let has_body = json_null_at(text@, "/subsonic-response"@) is Some;
                let status = json_str_at(text@, "/subsonic-response/status"@);
                let message = json_str_at(text@, "/subsonic-response/error/message"@);
                &&& !has_body ==> (r matches Err(e) && e@ == "Invalid response: missing subsonic-response"@)
                &&& has_body && status == Some("ok"@) ==> r is Ok
                &&& has_body && status != Some("ok"@) ==> (r matches Err(e) && e@ == (match message {
                    Some(m) => m,
                    None => "Unknown subsonic error"@,
                }))
            },
        },
{
    json_syntax(text)?;
    let has_body = json_null(text, "/subsonic-response").is_some();
    let status = json_str(text, "/subsonic-response/status");
    let message = json_str(text, "/subsonic-response/error/message");
    check_reply(has_body, &status, &message)
}

/// The cover art of an album or playlist entry: `coverArt`, else its id.
pub open spec fn entry_cover_art(text: Seq<char>, item: Seq<char>) -> Seq<char> {
    match str_at(text, item, "coverArt"@) {
        Some(c) => c,
        None => str_or_empty(str_at(text, item, "id"@)),
    }
}

/// The fields of an album entry of a reply that are not counts or years.
pub struct AlbumRecord {
    pub id: String,
    pub name: String,
    pub artist: String,
    pub artist_id: String,
    pub cover_art: String,
}

/// What `album_record_at` reads for the entry at `item`: names and ids as
/// given (the artist from `artist` or `displayArtist`), and the cover art.
pub open spec fn album_record_spec(r: AlbumRecord, text: Seq<char>, item: Seq<char>) -> bool {
    &&& r.id@ == str_or_empty(str_at(text, item, "id"@))
    &&& r.name@ == str_or_empty(str_at(text, item, "name"@))
    &&& r.artist@ == str_or_empty(or_else(str_at(text, item, "artist"@), str_at(text, item, "displayArtist"@)))
    &&& r.artist_id@ == str_or_empty(str_at(text, item, "artistId"@))
    &&& r.cover_art@ == entry_cover_art(text, item)
}

fn cover_art_at(text: &str, item: &str, id: &String) -> (r: String)
    requires
        id@ == str_or_empty(str_at(text@, item@, "id"@)),
    ensures
        r@ == entry_cover_art(text@, item@),
{
    match string_at(text, item, "coverArt") {
        Some(c) => c,
        None => id.clone(),
    }
}

/// The album entry at `item` of a reply text.
pub fn album_record_at(text: &str, item: &str) -> (r: AlbumRecord)
    ensures
        album_record_spec(r, text@, item@),
{
    let id = string_or_empty(string_at(text, item, "id"));
    let cover_art = cover_art_at(text, item, &id);
    let artist = match string_at(text, item, "artist") {
        Some(a) => a,
        None => string_or_empty(string_at(text, item, "displayArtist")),
    };
    AlbumRecord {
        id,
        name: string_or_empty(string_at(text, item, "name")),
        artist,
        artist_id: string_or_empty(string_at(text, item, "artistId")),
        cover_art,
    }
}

/// The album entries of the array at `list` of a reply text, in order.
pub fn album_records_at(text: &str, list: &str) -> (r: Vec<AlbumRecord>)
    ensures
        r@.len() == (match json_len_at(text@, list@) {
            Some(n) => n as int,
            None => 0,
        }),
        forall|i: int|
            0 <= i < r@.len() ==> album_record_spec(#[trigger] r@[i], text@, json_member(list@, decimal(i as nat))),
{
    let n = match json_len(text, list) {
        Some(n) => n,
        None => 0,
    };
    let mut out: Vec<AlbumRecord> = Vec::new();
    let mut i: usize = 0;
    while i < n
        invariant
            i <= n,
            out@.len() == i,
            n == (match json_len_at(text@, list@) {
                Some(n) => n as int,
                None => 0,
            }),
            forall|k: int|
                0 <= k < i ==> album_record_spec(#[trigger] out@[k], text@, json_member(list@, decimal(k as nat))),
        decreases n - i,
    {
        let item = element(list, i);
        out.push(album_record_at(text, item.as_str()));
        i = i + 1;
    }
    out
}

/// The fields of a playlist entry of a reply that are not counts.
pub struct PlaylistRecord {
    pub id: String,
    pub name: String,
    pub cover_art: String,
}

pub open spec fn playlist_record_spec(r: PlaylistRecord, text: Seq<char>, item: Seq<char>) -> bool {
    &&& r.id@ == str_or_empty(str_at(text, item, "id"@))
    &&& r.name@ == str_or_empty(str_at(text, item, "name"@))
    &&& r.cover_art@ == entry_cover_art(text, item)
}

/// The playlist entry at `item` of a reply text.
pub fn playlist_record_at(text: &str, item: &str) -> (r: PlaylistRecord)
    ensures
        playlist_record_spec(r, text@, item@),
{
    let id = string_or_empty(string_at(text, item, "id"));
    let cover_art = cover_art_at(text, item, &id);
    PlaylistRecord { id, name: string_or_empty(string_at(text, item, "name")), cover_art }
}

/// The playlist entries of the array at `list` of a reply text, in order.
pub fn playlist_records_at(text: &str, list: &str) -> (r: Vec<PlaylistRecord>)
    ensures
        r@.len() == (match json_len_at(text@, list@) {
            Some(n) => n as int,
            None => 0,
        }),
        forall|i: int|
            0 <= i < r@.len() ==> playlist_record_spec(#[trigger] r@[i], text@, json_member(list@, decimal(i as nat))),
{
    let n = match json_len(text, list) {
        Some(n) => n,
        None => 0,
    };
    let mut out: Vec<PlaylistRecord> = Vec::new();
    let mut i: usize = 0;
    while i < n
        invariant
            i <= n,
            out@.len() == i,
            n == (match json_len_at(text@, list@) {
                Some(n) => n as int,
                None => 0,
            }),
            forall|k: int|
                0 <= k < i ==> playlist_record_spec(#[trigger] out@[k], text@, json_member(list@, decimal(k as nat))),
        decreases n - i,
    {
        let item = element(list, i);
        out.push(playlist_record_at(text, item.as_str()));
        i = i + 1;
    }
    out
}

} // verus!
