//! Plex: the PIN sign-in flow, server discovery, authenticated media URLs
//! and the library request rules.
use vstd::prelude::*;
use vstd::utf8::encode_utf8;
use crate::profiles::ActiveProfile;
use crate::sorting::{insert_by, sort_by, lemma_insert_by_at};
use crate::subsonic::{pair_views, url_with_query_pairs};
use crate::profiles::opt_view;
use crate::json::{str_or_empty, string_or_empty};
use crate::numfmt::{parse_u32_spec, parse_u32};
use crate::xml::{XmlNode, XmlNodeView, xml_node_view, xml_node_views, xml_attr, is_xml_element, xml_parse_of, parse_xml_nodes, attribute, has_tag};
use crate::text::{
    chars_of, string_of, extend_chars, trim, trim_str, trim_char_end, trim_char_start, split_on,
    unicode_lowercase, to_lowercase, str_eq, has_prefix, trim_end_char_str,
};

verus! {

pub const PLEX_PRODUCT_NAME: &'static str = "Madrify";

pub const PLEX_CLIENT_ID_KEY: &'static str = "PLEX_CLIENT_ID";

/// The length of a generated client identifier.
pub const CLIENT_ID_LEN: usize = 32;

/// A started PIN sign-in: the PIN, its code and the page to approve it.
pub struct PlexAuthStart {
    pub pin_id: i64,
    pub code: String,
    pub auth_url: String,
    pub expires_at: Option<String>,
}

/// A Plex Media Server the account can reach.
pub struct PlexServerResource {
    pub name: String,
    pub uri: String,
    pub machine_identifier: String,
    pub access_token: String,
    pub owned: bool,
    pub source_title: Option<String>,
    pub local: bool,
}

/// The state of a PIN sign-in: `"pending"`, `"expired"` or `"complete"`.
pub struct PlexAuthPollResult {
    pub status: String,
    pub username: Option<String>,
    pub auth_token: Option<String>,
    pub expires_at: Option<String>,
    pub servers: Vec<PlexServerResource>,
}

// ---------------------------------------------------------------------------
// Form encoding
// ---------------------------------------------------------------------------

/// Bytes kept as they are by `application/x-www-form-urlencoded`.
pub open spec fn form_unchanged(b: u8) -> bool {
    b == 42 || b == 45 || b == 46 || (48 <= b && b <= 57) || (65 <= b && b <= 90) || b == 95 || (97
        <= b && b <= 122)
}

pub open spec fn hex_upper(n: u8) -> char {
    if n < 10 {
        (n + 48) as char
    } else {
        (n + 55) as char
    }
}

/// One byte serialised: kept, a space as `+`, anything else as `%XX`.
pub open spec fn form_byte(b: u8) -> Seq<char> {
    if form_unchanged(b) {
        seq![b as char]
    } else if b == 32 {
        seq!['+']
    } else {
        seq!['%', hex_upper(b / 16), hex_upper(b % 16)]
    }
}

pub open spec fn form_bytes(bs: Seq<u8>) -> Seq<char>
    decreases bs.len(),
{
    if bs.len() == 0 {
        Seq::empty()
    } else {
        form_bytes(bs.drop_last()) + form_byte(bs.last())
    }
}

/// A string serialised byte by byte from its UTF-8 encoding.
pub open spec fn form_component(s: Seq<char>) -> Seq<char> {
    form_bytes(encode_utf8(s))
}

pub open spec fn form_pair(p: (Seq<char>, Seq<char>)) -> Seq<char> {
    form_component(p.0) + seq!['='] + form_component(p.1)
}

/// Name-value pairs serialised as `name=value`, joined by `&`.
pub open spec fn form_query(ps: Seq<(Seq<char>, Seq<char>)>) -> Seq<char>
    decreases ps.len(),
{
    if ps.len() == 0 {
        Seq::empty()
    } else if ps.len() == 1 {
        form_pair(ps[0])
    } else {
        form_query(ps.drop_last()) + seq!['&'] + form_pair(ps.last())
    }
}

/// `url::form_urlencoded::Serializer::new(String::new())`, the pairs
/// appended with `extend_pairs`, then `finish`: each pair is written as the
/// byte serialisation of its name, `=`, and that of its value, pairs joined
/// by `&`.
#[verifier::external_body]
fn form_urlencode(pairs: &Vec<(String, String)>) -> (r: String)
    ensures
        r@ == form_query(pair_views(pairs@)),
{
    url::form_urlencoded::Serializer::new(String::new()).extend_pairs(
        pairs.iter().map(|(k, v)| (k.as_str(), v.as_str())),
    ).finish()
}

/// The page where the user approves a PIN.
pub open spec fn auth_url_spec(client_id: Seq<char>, code: Seq<char>) -> Seq<char> {
    "https://app.plex.tv/auth#?"@ + form_query(
        seq![
            ("clientID"@, client_id),
            ("code"@, code),
            ("context[device][product]"@, PLEX_PRODUCT_NAME@),
        ],
    )
}

pub fn build_auth_url(client_id: &str, code: &str) -> (r: String)
    ensures
        r@ == auth_url_spec(client_id@, code@),
{
    let mut ps: Vec<(String, String)> = Vec::new();
    ps.push(("clientID".to_string(), client_id.to_string()));
    ps.push(("code".to_string(), code.to_string()));
    ps.push(("context[device][product]".to_string(), PLEX_PRODUCT_NAME.to_string()));
    assert(pair_views(ps@) =~= seq![
        ("clientID"@, client_id@),
        ("code"@, code@),
        ("context[device][product]"@, PLEX_PRODUCT_NAME@),
    ]);
    let q = form_urlencode(&ps);
    let mut v = chars_of("https://app.plex.tv/auth#?");
    extend_chars(&mut v, &chars_of(q.as_str()));
    string_of(&v)
}

/// A started sign-in for a PIN.
pub fn auth_start(pin_id: i64, code: String, expires_at: Option<String>, client_id: &str) -> (r:
    PlexAuthStart)
    ensures
        r.pin_id == pin_id,
        r.code@ == code@,
        r.auth_url@ == auth_url_spec(client_id@, code@),
        r.expires_at == expires_at,
{
    let auth_url = build_auth_url(client_id, code.as_str());
    PlexAuthStart { pin_id, code, auth_url, expires_at }
}

// ---------------------------------------------------------------------------
// Client identifier and user name
// ---------------------------------------------------------------------------

/// A stored client identifier is reused when it is non-blank (trimmed);
/// `None` means a new one must be drawn.
pub fn stored_client_id(existing: &Option<String>) -> (r: Option<String>)
    ensures
        match r {
            Some(id) => existing matches Some(e) && id@ == trim(e@) && id@.len() > 0,
            None => !(existing matches Some(e) && trim(e@).len() > 0),
        },
{
    match existing {
        Some(e) => {
            let t = trim_str(e.as_str());
            if t.as_str().is_empty() {
                None
            } else {
                Some(t)
            }
        },
        None => None,
    }
}

/// The client identifier of this installation: the stored one, or 32 fresh
/// ASCII letters and digits that the caller must store.
pub fn client_id(existing: &Option<String>) -> (r: String)
    ensures
        (existing matches Some(e) && trim(e@).len() > 0) ==> r@ == trim(existing->0@),
        !(existing matches Some(e) && trim(e@).len() > 0) ==> crate::subsonic::is_alnum_of_len(
            r@,
            CLIENT_ID_LEN as nat,
        ),
{
    match stored_client_id(existing) {
        Some(id) => id,
        None => crate::subsonic::random_alphanumeric(CLIENT_ID_LEN),
    }
}

/// The user name of an account: its user name, else its title, else its
/// friendly name — the first present — kept only when it is non-blank.
pub fn plex_username(username: Option<String>, title: Option<String>, friendly_name: Option<String>) -> (r:
    Option<String>)
    ensures
        ({
            let first = match username {
                Some(u) => Some(u),
                None => match title {
                    Some(t) => Some(t),
                    None => friendly_name,
                },
            };
            match first {
                Some(n) => if trim(n@).len() > 0 {
                    r == Some(n)
                } else {
                    r is None
                },
                None => r is None,
            }
        }),
{
    let first = match username {
        Some(u) => Some(u),
        None => match title {
            Some(t) => Some(t),
            None => friendly_name,
        },
    };
    match first {
        Some(n) => if trim_str(n.as_str()).as_str().is_empty() {
            None
        } else {
            Some(n)
        },
        None => None,
    }
}

// ---------------------------------------------------------------------------
// Polling a sign-in
// ---------------------------------------------------------------------------

/// The token of an approved PIN, when it is non-blank.
pub fn usable_auth_token(token: Option<String>) -> (r: Option<String>)
    ensures
        match token {
            Some(t) => if trim(t@).len() > 0 {
                r == Some(t)
            } else {
                r is None
            },
            None => r is None,
        },
{
    match token {
        Some(t) => if trim_str(t.as_str()).as_str().is_empty() {
            None
        } else {
            Some(t)
        },
        None => None,
    }
}

/// The poll result while no token has been granted: pending while the PIN
/// has an expiry, expired once it has none.
pub fn pending_poll_result(expires_at: Option<String>) -> (r: PlexAuthPollResult)
    ensures
        r.status@ == (if expires_at is Some {
            "pending"@
        } else {
            "expired"@
        }),
        r.username is None,
        r.auth_token is None,
        r.expires_at == expires_at,
        r.servers@.len() == 0,
{
    let status = if expires_at.is_some() {
        "pending".to_string()
    } else {
        "expired".to_string()
    };
    PlexAuthPollResult {
        status,
        username: None,
        auth_token: None,
        expires_at,
        servers: Vec::new(),
    }
}

/// The poll result once the token is granted.
pub fn complete_poll_result(
    username: Option<String>,
    auth_token: String,
    expires_at: Option<String>,
    servers: Vec<PlexServerResource>,
) -> (r: PlexAuthPollResult)
    ensures
        r.status@ == "complete"@,
        r.username == username,
        r.auth_token == Some(auth_token),
        r.expires_at == expires_at,
        r.servers@ == servers@,
{
    PlexAuthPollResult {
        status: "complete".to_string(),
        username,
        auth_token: Some(auth_token),
        expires_at,
        servers,
    }
}

// ---------------------------------------------------------------------------
// Server discovery
// ---------------------------------------------------------------------------

/// A `Connection` element of a device: its attributes as given.
pub struct PlexConnection {
    pub uri: Option<String>,
    pub local: Option<String>,
    pub protocol: Option<String>,
}

/// A `Device` element of the resources document: its attributes as given,
/// and its connections in document order.
pub struct PlexDevice {
    pub name: Option<String>,
    pub client_identifier: Option<String>,
    pub access_token: Option<String>,
    pub owned: Option<String>,
    pub source_title: Option<String>,
    pub provides: Option<String>,
    pub connections: Vec<PlexConnection>,
}

pub open spec fn attr_is(a: Option<Seq<char>>, v: Seq<char>) -> bool {
    a == Some(v)
}

pub open spec fn attr_or(a: Option<Seq<char>>, d: Seq<char>) -> Seq<char> {
    match a {
        Some(s) => s,
        None => d,
    }
}

/// A connection's `uri`, `local` and `protocol` attributes.
pub type ConnectionView = (Option<Seq<char>>, Option<Seq<char>>, Option<Seq<char>>);

pub open spec fn connection_view(c: PlexConnection) -> ConnectionView {
    (opt_view(c.uri), opt_view(c.local), opt_view(c.protocol))
}

/// A device's `name`, `clientIdentifier`, `accessToken`, `owned`,
/// `sourceTitle` and `provides` attributes, and its connections.
pub type DeviceView = (
    Option<Seq<char>>,
    Option<Seq<char>>,
    Option<Seq<char>>,
    Option<Seq<char>>,
    Option<Seq<char>>,
    Option<Seq<char>>,
    Seq<ConnectionView>,
);

pub open spec fn device_view(d: PlexDevice) -> DeviceView {
    (
        opt_view(d.name),
        opt_view(d.client_identifier),
        opt_view(d.access_token),
        opt_view(d.owned),
        opt_view(d.source_title),
        opt_view(d.provides),
        d.connections@.map_values(|c: PlexConnection| connection_view(c)),
    )
}

pub open spec fn device_views(ds: Seq<PlexDevice>) -> Seq<DeviceView> {
    ds.map_values(|d: PlexDevice| device_view(d))
}

/// A device is a server when one of the comma-separated entries of its
/// `provides` attribute is `server`.
pub open spec fn provides_server(provides: Seq<char>) -> bool {
    exists|i: int|
        0 <= i < split_on(provides, ',').len() && trim(#[trigger] split_on(provides, ',')[i])
            == "server"@
}

/// A usable connection: its trimmed URI (when non-empty), whether it is
/// local, and whether it is secure.
pub open spec fn connection_candidate(c: ConnectionView) -> Option<(Seq<char>, bool, bool)> {
    match c.0 {
        Some(u) => if trim(u).len() == 0 {
            None
        } else {
            Some(
                (
                    trim(u),
                    attr_is(c.1, "1"@),
                    attr_is(c.2, "https"@) || "https://"@.is_prefix_of(trim(u)),
                ),
            )
        },
        None => None,
    }
}

pub open spec fn rank(c: (Seq<char>, bool, bool)) -> int {
    (if c.1 {
        2int
    } else {
        0int
    }) + (if c.2 {
        1int
    } else {
        0int
    })
}

/// The preferred connection: local before remote, secure before plain,
/// and among equals the last one listed.
pub open spec fn best_connection(cs: Seq<ConnectionView>) -> Option<(Seq<char>, bool, bool)>
    decreases cs.len(),
{
    if cs.len() == 0 {
        None
    } else {
        let prev = best_connection(cs.drop_last());
        match connection_candidate(cs.last()) {
            None => prev,
            Some(c) => match prev {
                None => Some(c),
                Some(b) => if rank(c) >= rank(b) {
                    Some(c)
                } else {
                    prev
                },
            },
        }
    }
}

/// The server listed for a device, if it is a server with a usable
/// connection.
pub open spec fn server_of(d: DeviceView, account_token: Seq<char>) -> Option<(
    Seq<char>,
    Seq<char>,
    Seq<char>,
    Seq<char>,
    bool,
    Option<Seq<char>>,
    bool,
)> {
    if !provides_server(attr_or(d.5, Seq::empty())) {
        None
    } else {
        match best_connection(d.6) {
            None => None,
            Some(c) => Some(
                (
                    attr_or(d.0, "Plex Server"@),
                    c.0,
                    attr_or(d.1, Seq::empty()),
                    match d.2 {
                        Some(t) => if trim(t).len() > 0 {
                            trim(t)
                        } else {
                            account_token
                        },
                        None => account_token,
                    },
                    attr_is(d.3, "1"@),
                    d.4,
                    c.1,
                ),
            ),
        }
    }
}

pub open spec fn server_view(s: PlexServerResource) -> (
    Seq<char>,
    Seq<char>,
    Seq<char>,
    Seq<char>,
    bool,
    Option<Seq<char>>,
    bool,
) {
    (
        s.name@,
        s.uri@,
        s.machine_identifier@,
        s.access_token@,
        s.owned,
        match s.source_title {
            Some(t) => Some(t@),
            None => None,
        },
        s.local,
    )
}

/// The servers of the devices, in document order, before sorting.
pub open spec fn servers_of(ds: Seq<DeviceView>, account_token: Seq<char>) -> Seq<
    (Seq<char>, Seq<char>, Seq<char>, Seq<char>, bool, Option<Seq<char>>, bool),
>
    decreases ds.len(),
{
    if ds.len() == 0 {
        Seq::empty()
    } else {
        match server_of(ds.last(), account_token) {
            Some(s) => servers_of(ds.drop_last(), account_token).push(s),
            None => servers_of(ds.drop_last(), account_token),
        }
    }
}

/// Listing order: owned servers first, then local ones, then by name
/// compared in lower case.
pub open spec fn server_before(
    a: (Seq<char>, Seq<char>, Seq<char>, Seq<char>, bool, Option<Seq<char>>, bool),
    b: (Seq<char>, Seq<char>, Seq<char>, Seq<char>, bool, Option<Seq<char>>, bool),
) -> bool {
    if a.4 != b.4 {
        a.4
    } else if a.6 != b.6 {
        a.6
    } else {
        crate::lastfm::key_lt(unicode_lowercase(a.0), unicode_lowercase(b.0))
    }
}

pub open spec fn server_order() -> spec_fn(
    (Seq<char>, Seq<char>, Seq<char>, Seq<char>, bool, Option<Seq<char>>, bool),
    (Seq<char>, Seq<char>, Seq<char>, Seq<char>, bool, Option<Seq<char>>, bool),
) -> bool {
    |a: (Seq<char>, Seq<char>, Seq<char>, Seq<char>, bool, Option<Seq<char>>, bool),
     b: (Seq<char>, Seq<char>, Seq<char>, Seq<char>, bool, Option<Seq<char>>, bool)|
        server_before(a, b)
}

fn attr_equals(a: &Option<String>, v: &str) -> (r: bool)
    ensures
        r == attr_is(opt_view(*a), v@),
{
    match a {
        Some(s) => str_eq(s.as_str(), v),
        None => false,
    }
}

fn provides_server_exec(provides: &Option<String>) -> (r: bool)
    ensures
        r == provides_server(attr_or(opt_view(*provides), Seq::empty())),
{
    let p = match provides {
        Some(s) => chars_of(s.as_str()),
        None => Vec::new(),
    };
    let parts = crate::text::split_chars(&p, ',');
    let mut i: usize = 0;
    let mut found = false;
    while i < parts.len()
        invariant
            i <= parts@.len(),
            parts@.len() == split_on(p@, ',').len(),
            forall|k: int| 0 <= k < parts@.len() ==> #[trigger] parts@[k]@ == split_on(p@, ',')[k],
            found <==> exists|k: int| 0 <= k < i && trim(#[trigger] split_on(p@, ',')[k]) == "server"@,
        decreases parts.len() - i,
    {
        let t = crate::text::trim_chars(parts[i].as_slice());
        let s = string_of(&t);
        if str_eq(s.as_str(), "server") {
            found = true;
        }
        proof {
            assert(parts@[i as int]@ == split_on(p@, ',')[i as int]);
        }
        i = i + 1;
    }
    found
}

fn connection_of(c: &PlexConnection) -> (r: Option<(String, bool, bool)>)
    ensures
        match r {
            Some(x) => connection_candidate(connection_view(*c)) == Some((x.0@, x.1, x.2)),
            None => connection_candidate(connection_view(*c)) is None,
        },
{
    match &c.uri {
        Some(u) => {
            let t = trim_str(u.as_str());
            if t.as_str().is_empty() {
                return None;
            }
            let local = attr_equals(&c.local, "1");
            let secure = attr_equals(&c.protocol, "https") || has_prefix(t.as_str(), "https://");
            Some((t, local, secure))
        },
        None => None,
    }
}

fn rank_of(local: bool, secure: bool) -> (r: u8)
    ensures
        r as int == rank((Seq::empty(), local, secure)),
{
    (if local {
        2
    } else {
        0
    }) + (if secure {
        1
    } else {
        0
    })
}

fn pick_connection(cs: &Vec<PlexConnection>) -> (r: Option<(String, bool, bool)>)
    ensures
        match r {
            Some(x) => best_connection(cs@.map_values(|c: PlexConnection| connection_view(c)))
                == Some((x.0@, x.1, x.2)),
            None => best_connection(cs@.map_values(|c: PlexConnection| connection_view(c))) is None,
        },
{
    let ghost cvs = cs@.map_values(|c: PlexConnection| connection_view(c));
    let mut best: Option<(String, bool, bool)> = None;
    let mut i: usize = 0;
    while i < cs.len()
        invariant
            i <= cs@.len(),
            cvs == cs@.map_values(|c: PlexConnection| connection_view(c)),
            match best {
                Some(x) => best_connection(cvs.take(i as int)) == Some((x.0@, x.1, x.2)),
                None => best_connection(cvs.take(i as int)) is None,
            },
        decreases cs.len() - i,
    {
        proof {
            assert(cvs.take(i + 1).drop_last() == cvs.take(i as int));
            assert(cvs.take(i + 1).last() == connection_view(cs@[i as int]));
        }
        match connection_of(&cs[i]) {
            Some(c) => {
                let better = match &best {
                    None => true,
                    Some(b) => rank_of(c.1, c.2) >= rank_of(b.1, b.2),
                };
                if better {
                    best = Some(c);
                }
            },
            None => {},
        }
        i = i + 1;
    }
    assert(cvs.take(cs@.len() as int) == cvs);
    best
}

fn server_from_device(d: &PlexDevice, account_token: &str) -> (r: Option<PlexServerResource>)
    ensures
        match r {
            Some(s) => server_of(device_view(*d), account_token@) == Some(server_view(s)),
            None => server_of(device_view(*d), account_token@) is None,
        },
{
    if !provides_server_exec(&d.provides) {
        return None;
    }
    let (uri, local, _secure) = match pick_connection(&d.connections) {
        Some(c) => c,
        None => {
            return None;
        },
    };
    let name = match &d.name {
        Some(n) => n.clone(),
        None => "Plex Server".to_string(),
    };
    let machine_identifier = match &d.client_identifier {
        Some(n) => n.clone(),
        None => String::new(),
    };
    let access_token = match &d.access_token {
        Some(t) => {
            let tt = trim_str(t.as_str());
            if tt.as_str().is_empty() {
                account_token.to_string()
            } else {
                tt
            }
        },
        None => account_token.to_string(),
    };
    let source_title = match &d.source_title {
        Some(s) => Some(s.clone()),
        None => None,
    };
    Some(
        PlexServerResource {
            name,
            uri,
            machine_identifier,
            access_token,
            owned: attr_equals(&d.owned, "1"),
            source_title,
            local,
        },
    )
}

/// Whether server `a` is listed before server `b`.
fn goes_before(a: &PlexServerResource, b: &PlexServerResource) -> (r: bool)
    ensures
        r == server_before(server_view(*a), server_view(*b)),
{
    if a.owned != b.owned {
        return a.owned;
    }
    if a.local != b.local {
        return a.local;
    }
    let la = chars_of(to_lowercase(a.name.as_str()).as_str());
    let lb = chars_of(to_lowercase(b.name.as_str()).as_str());
    crate::lastfm::key_less(&la, &lb)
}

pub open spec fn server_views(v: Seq<PlexServerResource>) -> Seq<
    (Seq<char>, Seq<char>, Seq<char>, Seq<char>, bool, Option<Seq<char>>, bool),
> {
    v.map_values(|s: PlexServerResource| server_view(s))
}

fn insert_server(out: &mut Vec<PlexServerResource>, s: PlexServerResource)
    ensures
        server_views(final(out)@) == insert_by(server_views(old(out)@), server_view(s), server_order()),
{
    let ghost v = server_views(out@);
    let mut j: usize = 0;
    let mut found = false;
    while j < out.len() && !found
        invariant
            j <= out@.len(),
            v == server_views(out@),
            forall|i: int| 0 <= i < j ==> !(server_order())(server_view(s), #[trigger] v[i]),
            found ==> j < out@.len() && (server_order())(server_view(s), v[j as int]),
        decreases out.len() - j + (if found {
            0int
        } else {
            1int
        }),
    {
        if goes_before(&s, &out[j]) {
            found = true;
        } else {
            j = j + 1;
        }
    }
    proof {
        lemma_insert_by_at(v, server_view(s), server_order(), j as int);
    }
    let ghost sv = server_view(s);
    out.insert(j, s);
    proof {
        assert(server_views(out@) =~= v.take(j as int).push(sv) + v.skip(j as int));
    }
}

/// The servers among the devices of the resources document, listed owned
/// first, then local, then by lower-cased name (stably).  Each device that
/// provides `server` and has a connection with a non-blank URI becomes one
/// server, reached through its preferred connection; a device without its
/// own token uses the account's.
pub fn select_servers(devices: &Vec<PlexDevice>, account_token: &str) -> (r: Vec<PlexServerResource>)
    ensures
        server_views(r@) == sort_by(servers_of(device_views(devices@), account_token@), server_order()),
{
    let ghost dvs = device_views(devices@);
    let mut out: Vec<PlexServerResource> = Vec::new();
    let mut i: usize = 0;
    while i < devices.len()
        invariant
            i <= devices@.len(),
            dvs == device_views(devices@),
            server_views(out@) == sort_by(servers_of(dvs.take(i as int), account_token@), server_order()),
        decreases devices.len() - i,
    {
        proof {
            assert(dvs.take(i + 1).drop_last() == dvs.take(i as int));
            assert(dvs.take(i + 1).last() == device_view(devices@[i as int]));
        }
        match server_from_device(&devices[i], account_token) {
            Some(s) => {
                proof {
                    let prev = servers_of(dvs.take(i as int), account_token@);
                    assert(prev.push(server_view(s)).drop_last() == prev);
                }
                insert_server(&mut out, s);
            },
            None => {},
        }
        i = i + 1;
    }
    assert(dvs.take(devices@.len() as int) == dvs);
    out
}

/// The connection described by a `Connection` element.
pub open spec fn xml_connection(n: XmlNodeView) -> ConnectionView {
    (xml_attr(n.2, "uri"@), xml_attr(n.2, "local"@), xml_attr(n.2, "protocol"@))
}

/// The `Connection` elements among the first `k` nodes whose parent is node
/// `p`, in document order.
pub open spec fn connections_upto(ns: Seq<XmlNodeView>, p: int, k: int) -> Seq<ConnectionView>
    decreases k,
{
    if k <= 0 {
        Seq::empty()
    } else {
        let prev = connections_upto(ns, p, k - 1);
        if is_xml_element(ns[k - 1], "Connection"@) && (ns[k - 1].3 matches Some(q) && q == p) {
            prev.push(xml_connection(ns[k - 1]))
        } else {
            prev
        }
    }
}

/// The device described by the `Device` element at position `i`.
pub open spec fn xml_device(ns: Seq<XmlNodeView>, i: int) -> DeviceView {
    let a = ns[i].2;
    (
        xml_attr(a, "name"@),
        xml_attr(a, "clientIdentifier"@),
        xml_attr(a, "accessToken"@),
        xml_attr(a, "owned"@),
        xml_attr(a, "sourceTitle"@),
        xml_attr(a, "provides"@),
        connections_upto(ns, i, ns.len() as int),
    )
}

/// The `Device` elements among the first `k` nodes, in document order.
pub open spec fn devices_upto(ns: Seq<XmlNodeView>, k: int) -> Seq<DeviceView>
    decreases k,
{
    if k <= 0 {
        Seq::empty()
    } else {
        let prev = devices_upto(ns, k - 1);
        if is_xml_element(ns[k - 1], "Device"@) {
            prev.push(xml_device(ns, k - 1))
        } else {
            prev
        }
    }
}

/// The devices of a resources document, with their connections.
pub open spec fn xml_devices(ns: Seq<XmlNodeView>) -> Seq<DeviceView> {
    devices_upto(ns, ns.len() as int)
}

fn connection_children(nodes: &Vec<XmlNode>, p: usize) -> (r: Vec<PlexConnection>)
    ensures
        r@.map_values(|c: PlexConnection| connection_view(c)) == connections_upto(
            xml_node_views(nodes@),
            p as int,
            nodes@.len() as int,
        ),
{
    let ghost ns = xml_node_views(nodes@);
    let mut out: Vec<PlexConnection> = Vec::new();
    let mut j: usize = 0;
    while j < nodes.len()
        invariant
            j <= nodes@.len(),
            ns == xml_node_views(nodes@),
            out@.map_values(|c: PlexConnection| connection_view(c)) == connections_upto(ns, p as int, j as int),
        decreases nodes.len() - j,
    {
        let n = &nodes[j];
        proof {
            assert(ns[j as int] == xml_node_view(nodes@[j as int]));
        }
        let child = match n.parent {
            Some(q) => q == p,
            None => false,
        };
        if has_tag(n, "Connection") && child {
            let c = PlexConnection {
                uri: attribute(n, "uri"),
                local: attribute(n, "local"),
                protocol: attribute(n, "protocol"),
            };
            let ghost before = out@;
            out.push(c);
            proof {
                assert(out@.map_values(|c: PlexConnection| connection_view(c)) == before.map_values(
                    |c: PlexConnection| connection_view(c),
                ).push(connection_view(c)));
            }
        }
        j = j + 1;
    }
    out
}

/// The `Device` elements of a resources document's nodes, in document
/// order, each with its `Connection` children.
pub fn devices_of_nodes(nodes: &Vec<XmlNode>) -> (r: Vec<PlexDevice>)
    ensures
        device_views(r@) == xml_devices(xml_node_views(nodes@)),
{
    let ghost ns = xml_node_views(nodes@);
    let mut out: Vec<PlexDevice> = Vec::new();
    let mut i: usize = 0;
    while i < nodes.len()
        invariant
            i <= nodes@.len(),
            ns == xml_node_views(nodes@),
            device_views(out@) == devices_upto(ns, i as int),
        decreases nodes.len() - i,
    {
        let n = &nodes[i];
        proof {
            assert(ns[i as int] == xml_node_view(nodes@[i as int]));
        }
        if has_tag(n, "Device") {
            let d = PlexDevice {
                name: attribute(n, "name"),
                client_identifier: attribute(n, "clientIdentifier"),
                access_token: attribute(n, "accessToken"),
                owned: attribute(n, "owned"),
                source_title: attribute(n, "sourceTitle"),
                provides: attribute(n, "provides"),
                connections: connection_children(nodes, i),
            };
            let ghost before = out@;
            out.push(d);
            proof {
                assert(device_view(d) == xml_device(ns, i as int));
                assert(device_views(out@) == device_views(before).push(device_view(d)));
            }
        }
        i = i + 1;
    }
    out
}

/// The servers of a Plex resources document, each through its preferred
/// connection, owned first, then local, then by name; the parse error when
/// the text is not XML.
pub fn servers_from_resources(xml: &str, account_token: &str) -> (r: Result<Vec<PlexServerResource>, String>)
    ensures
        match xml_parse_of(xml@) {
            Err(m) => r matches Err(e) && e@ == m,
            Ok(ns) => r matches Ok(v) && server_views(v@) == sort_by(
                servers_of(xml_devices(ns), account_token@),
                server_order(),
            ),
        },
{
    let nodes = parse_xml_nodes(xml)?;
    let devices = devices_of_nodes(&nodes);
    Ok(select_servers(&devices, account_token))
}

// ---------------------------------------------------------------------------
// Authenticated media URLs
// ---------------------------------------------------------------------------

/// The serialisation of `path` resolved against the URL `base`, with the
/// pair `key=value` appended to the query; `None` when either step fails.
pub uninterp spec fn url_join_with_pair(base: Seq<char>, path: Seq<char>, key: Seq<char>, value: Seq<
    char,
>) -> Option<Seq<char>>;

/// `url::Url::parse(base)`, then `Url::join(path)`, then
/// `query_pairs_mut().append_pair(key, value)` and `Url::to_string`.
/// Nothing of the result is stated but that it is a function of the four
/// arguments.
#[verifier::external_body]
fn join_url_with_pair(base: &str, path: &str, key: &str, value: &str) -> (r: Option<String>)
    ensures
        match r {
            Some(u) => url_join_with_pair(base@, path@, key@, value@) == Some(u@),
            None => url_join_with_pair(base@, path@, key@, value@) is None,
        },
{
    let mut url = url::Url::parse(base).ok()?.join(path).ok()?;
    url.query_pairs_mut().append_pair(key, value);
    Some(url.to_string())
}

/// A media path made absolute on the server, with the token appended as
/// `X-Plex-Token`; empty for an empty path or when the URL cannot be
/// formed.
pub open spec fn authed_url_spec(server: Seq<char>, token: Seq<char>, path: Seq<char>) -> Seq<char> {
    if path.len() == 0 {
        Seq::empty()
    } else {
        match url_join_with_pair(
            trim_char_end(server, '/') + seq!['/'],
            trim_char_start(path, '/'),
            "X-Plex-Token"@,
            token,
        ) {
            Some(u) => u,
            None => Seq::empty(),
        }
    }
}

/// The URL given the outcome of joining: the joined URL, or empty.
pub fn url_or_empty(joined: Option<String>) -> (r: String)
    ensures
        r@ == (match joined {
            Some(u) => u@,
            None => Seq::<char>::empty(),
        }),
{
    match joined {
        Some(u) => u,
        None => String::new(),
    }
}

pub fn join_authed_url(p: &ActiveProfile, path: &str) -> (r: String)
    ensures
        r@ == authed_url_spec(p.url@, p.password@, path@),
{
    if path.is_empty() {
        return String::new();
    }
    let mut b = chars_of(trim_end_char_str(p.url.as_str(), '/').as_str());
    b.push('/');
    assert(b@ =~= trim_char_end(p.url@, '/') + seq!['/']);
    let base = string_of(&b);
    let pv = chars_of(path);
    let rel = string_of(&crate::text::trim_start_char_chars(&pv, '/'));
    let joined = join_url_with_pair(base.as_str(), rel.as_str(), "X-Plex-Token", p.password.as_str());
    url_or_empty(joined)
}

/// The artwork URL of a thumbnail path.
pub fn cover_url(p: &ActiveProfile, path: &str) -> (r: String)
    ensures
        r@ == authed_url_spec(p.url@, p.password@, path@),
{
    join_authed_url(p, path)
}

/// The streaming URL of a media part path.
pub fn stream_url(p: &ActiveProfile, path: &str) -> (r: String)
    ensures
        r@ == authed_url_spec(p.url@, p.password@, path@),
{
    join_authed_url(p, path)
}

// ---------------------------------------------------------------------------
// Library requests
// ---------------------------------------------------------------------------

/// The sort order of an album list kind; newest first for anything unknown.
pub open spec fn album_sort_spec(kind: Seq<char>) -> Seq<char> {
    if kind == "recent"@ {
        "lastViewedAt:desc"@
    } else if kind == "frequent"@ {
        "viewCount:desc"@
    } else if kind == "highest"@ {
        "userRating:desc"@
    } else if kind == "random"@ {
        "random"@
    } else {
        "addedAt:desc"@
    }
}

pub fn album_list_sort(kind: &str) -> (r: String)
    ensures
        r@ == album_sort_spec(kind@),
{
    if str_eq(kind, "recent") {
        "lastViewedAt:desc".to_string()
    } else if str_eq(kind, "frequent") {
        "viewCount:desc".to_string()
    } else if str_eq(kind, "highest") {
        "userRating:desc".to_string()
    } else if str_eq(kind, "random") {
        "random".to_string()
    } else {
        "addedAt:desc".to_string()
    }
}

/// How many tracks to search for when looking for songs similar to one:
/// twice the count (saturating), at least 8.
pub fn similar_search_count(count: u32) -> (r: u32)
    ensures
        r == (if count as int * 2 > u32::MAX {
            u32::MAX as int
        } else if count * 2 < 8 {
            8
        } else {
            count * 2
        }),
{
    let d: u32 = if count > u32::MAX / 2 {
        u32::MAX
    } else {
        count * 2
    };
    if d < 8 {
        8
    } else {
        d
    }
}

/// The positions of the search results kept as similar songs: those that
/// are not the song itself, at most `count` of them.
pub open spec fn similar_positions(ids: Seq<Seq<char>>, song_id: Seq<char>, n: int) -> Seq<int>
    decreases n,
{
    if n <= 0 {
        Seq::empty()
    } else if ids[n - 1] != song_id {
        similar_positions(ids, song_id, n - 1).push(n - 1)
    } else {
        similar_positions(ids, song_id, n - 1)
    }
}

pub fn similar_selection(ids: &Vec<String>, song_id: &str, count: u32) -> (r: Vec<usize>)
    ensures
        ({
            let all = similar_positions(
                crate::library::string_seq_view(ids@),
                song_id@,
                ids@.len() as int,
            );
            r@.map_values(|i: usize| i as int) == all.take(
                if all.len() < count {
                    all.len() as int
                } else {
                    count as int
                },
            )
        }),
{
    let ghost v = crate::library::string_seq_view(ids@);
    let mut kept: Vec<usize> = Vec::new();
    let mut i: usize = 0;
    while i < ids.len()
        invariant
            i <= ids@.len(),
            v == crate::library::string_seq_view(ids@),
            kept@.map_values(|k: usize| k as int) == similar_positions(v, song_id@, i as int),
        decreases ids.len() - i,
    {
        proof {
            assert(v[i as int] == ids@[i as int]@);
        }
        if !str_eq(ids[i].as_str(), song_id) {
            kept.push(i);
        }
        i = i + 1;
    }
    let ghost all = kept@.map_values(|k: usize| k as int);
    if kept.len() > count as usize {
        kept.truncate(count as usize);
    }
    proof {
        assert(kept@.map_values(|k: usize| k as int) =~= all.take(
            if all.len() < count {
                all.len() as int
            } else {
                count as int
            },
        ));
    }
    kept
}

// ---------------------------------------------------------------------------
// Music section
// ---------------------------------------------------------------------------

/// A library section of type `artist`.
pub open spec fn is_music_section(n: XmlNodeView) -> bool {
    is_xml_element(n, "Directory"@) && xml_attr(n.2, "type"@) == Some("artist"@)
}

/// The `key` of the first `Directory` element of type `artist` in document
/// order, if it has one.
pub open spec fn music_section_key_in(ns: Seq<XmlNodeView>) -> Option<Seq<char>>
    decreases ns.len(),
{
    if ns.len() == 0 {
        None
    } else if is_music_section(ns[0]) {
        xml_attr(ns[0].2, "key"@)
    } else {
        music_section_key_in(ns.drop_first())
    }
}

/// The key of the first music section among the nodes of a sections
/// document.
pub fn first_music_section_key(nodes: &Vec<XmlNode>) -> (r: Option<String>)
    ensures
        opt_view(r) == music_section_key_in(xml_node_views(nodes@)),
{
    let ghost ns = xml_node_views(nodes@);
    let mut i: usize = 0;
    assert(ns.skip(0) == ns);
    while i < nodes.len()
        invariant
            i <= nodes@.len(),
            ns == xml_node_views(nodes@),
            music_section_key_in(ns) == music_section_key_in(ns.skip(i as int)),
        decreases nodes.len() - i,
    {
        let n = &nodes[i];
        proof {
            assert(ns.skip(i as int)[0] == xml_node_view(nodes@[i as int]));
            assert(ns.skip(i as int).drop_first() == ns.skip(i + 1));
        }
        if has_tag(n, "Directory") {
            let kind = attribute(n, "type");
            let is_artist = match &kind {
                Some(k) => str_eq(k.as_str(), "artist"),
                None => false,
            };
            if is_artist {
                return attribute(n, "key");
            }
        }
        i = i + 1;
    }
    proof {
        assert(ns.skip(i as int).len() == 0);
    }
    None
}

pub const NO_MUSIC_SECTION: &'static str = "No Plex music library section found.";

/// The key of the first music section of a library sections document; the
/// parse error, or an error when the document has no music section with a
/// key.
pub fn section_key_of(xml: &str) -> (r: Result<String, String>)
    ensures
        match xml_parse_of(xml@) {
            Err(m) => r matches Err(e) && e@ == m,
            Ok(ns) => match music_section_key_in(ns) {
                Some(k) => r matches Ok(s) && s@ == k,
                None => r matches Err(e) && e@ == NO_MUSIC_SECTION@,
            },
        },
{
    let nodes = parse_xml_nodes(xml)?;
    match first_music_section_key(&nodes) {
        Some(k) => Ok(k),
        None => Err(NO_MUSIC_SECTION.to_string()),
    }
}

/// Whether a reply is a Plex document: it parses and holds a
/// `MediaContainer` element.
pub fn is_media_container(xml: &str) -> (r: Result<bool, String>)
    ensures
        match xml_parse_of(xml@) {
            Err(m) => r matches Err(e) && e@ == m,
            Ok(ns) => r matches Ok(b) && b == exists|i: int|
                0 <= i < ns.len() && is_xml_element(#[trigger] ns[i], "MediaContainer"@),
        },
{
    let nodes = parse_xml_nodes(xml)?;
    Ok(has_element(&nodes, "MediaContainer"))
}

/// Whether some node is an element named `tag`.
pub fn has_element(nodes: &Vec<XmlNode>, tag: &str) -> (r: bool)
    ensures
        r == exists|i: int| 0 <= i < nodes@.len() && is_xml_element(#[trigger] xml_node_views(nodes@)[i], tag@),
{
    let ghost ns = xml_node_views(nodes@);
    let mut i: usize = 0;
    while i < nodes.len()
        invariant
            i <= nodes@.len(),
            ns == xml_node_views(nodes@),
            forall|j: int| 0 <= j < i ==> !is_xml_element(#[trigger] ns[j], tag@),
        decreases nodes.len() - i,
    {
        if has_tag(&nodes[i], tag) {
            assert(ns[i as int] == xml_node_view(nodes@[i as int]));
            assert(is_xml_element(ns[i as int], tag@));
            return true;
        }
        i = i + 1;
    }
    false
}

/// The music section key of each server URL already looked up.
pub struct SectionKeyCache {
    pub entries: Vec<(String, String)>,
}

pub open spec fn cache_lookup(es: Seq<(Seq<char>, Seq<char>)>, url: Seq<char>) -> Option<Seq<char>>
    decreases es.len(),
{
    if es.len() == 0 {
        None
    } else if es.last().0 == url {
        Some(es.last().1)
    } else {
        cache_lookup(es.drop_last(), url)
    }
}

impl SectionKeyCache {
    pub open spec fn view_map(&self) -> Seq<(Seq<char>, Seq<char>)> {
        pair_views(self.entries@)
    }

    pub fn new() -> (c: SectionKeyCache)
        ensures
            c.view_map().len() == 0,
    {
        SectionKeyCache { entries: Vec::new() }
    }

    /// The key remembered for a server URL.
    pub fn get(&self, url: &str) -> (r: Option<String>)
        ensures
            match r {
                Some(k) => cache_lookup(self.view_map(), url@) == Some(k@),
                None => cache_lookup(self.view_map(), url@) is None,
            },
    {
        let ghost v = self.view_map();
        let mut i: usize = self.entries.len();
        assert(v.take(i as int) == v);
        while i > 0
            invariant
                i <= v.len(),
                v == self.view_map(),
                cache_lookup(v, url@) == cache_lookup(v.take(i as int), url@),
            decreases i,
        {
            proof {
                assert(v.take(i as int).drop_last() == v.take(i - 1));
                assert(v.take(i as int).last() == v[i - 1]);
                assert(v[i - 1] == (self.entries@[i - 1].0@, self.entries@[i - 1].1@));
            }
            if str_eq(self.entries[i - 1].0.as_str(), url) {
                return Some(self.entries[i - 1].1.clone());
            }
            i = i - 1;
        }
        None
    }

    /// Remembers the key of a server URL; a later key replaces an earlier one.
    pub fn insert(&mut self, url: String, key: String)
        ensures
            final(self).view_map() == old(self).view_map().push((url@, key@)),
    {
        let ghost before = self.view_map();
        self.entries.push((url, key));
        proof {
            assert(self.view_map() =~= before.push((url@, key@)));
        }
    }
}

/// Law: after remembering a key for a server URL, that key is what the
/// cache gives back for the URL, and other URLs keep theirs.
pub proof fn law_section_cache_read_after_write(
    es: Seq<(Seq<char>, Seq<char>)>,
    url: Seq<char>,
    key: Seq<char>,
    other: Seq<char>,
)
    ensures
        cache_lookup(es.push((url, key)), url) == Some(key),
        other != url ==> cache_lookup(es.push((url, key)), other) == cache_lookup(es, other),
{
    assert(es.push((url, key)).drop_last() == es);
}

// ---------------------------------------------------------------------------
// Tracks of a library document
// ---------------------------------------------------------------------------

/// The position of the first element child of node `p` named `tag`, from
/// position `j` on.
pub open spec fn first_child_from(ns: Seq<XmlNodeView>, p: int, tag: Seq<char>, j: int) -> Option<int>
    decreases ns.len() - j,
{
    if j < 0 || j >= ns.len() {
        None
    } else if is_xml_element(ns[j], tag) && (ns[j].3 matches Some(q) && q == p) {
        Some(j)
    } else {
        first_child_from(ns, p, tag, j + 1)
    }
}

proof fn lemma_first_child_from_bounds(ns: Seq<XmlNodeView>, p: int, tag: Seq<char>, j: int)
    requires
        0 <= j,
    ensures
        first_child_from(ns, p, tag, j) matches Some(k) ==> j <= k < ns.len(),
    decreases ns.len() - j,
{
    if j < ns.len() {
        lemma_first_child_from_bounds(ns, p, tag, j + 1);
    }
}

/// The first element child of node `p` named `tag`.
pub open spec fn first_child(ns: Seq<XmlNodeView>, p: int, tag: Seq<char>) -> Option<int> {
    first_child_from(ns, p, tag, 0)
}

pub open spec fn first_some(a: Option<Seq<char>>, b: Option<Seq<char>>) -> Option<Seq<char>> {
    if a is Some {
        a
    } else {
        b
    }
}

pub open spec fn non_empty(a: Option<Seq<char>>) -> Option<Seq<char>> {
    match a {
        Some(x) => if x.len() > 0 {
            Some(x)
        } else {
            None
        },
        None => None,
    }
}

/// The fields of a `Track` element that are not durations: ids and names,
/// its artwork path, the path it streams from, and what its first `Media`
/// says of the audio.
pub struct PlexTrack {
    pub id: String,
    pub title: String,
    pub artist: String,
    pub album: String,
    pub album_id: String,
    pub thumb: String,
    pub stream_key: String,
    pub audio_format: Option<String>,
    pub bitrate_kbps: Option<u32>,
    pub genre: Option<String>,
    /// The `duration` attribute as written (milliseconds), empty when
    /// missing.
    pub duration: String,
}

/// What `track_at` reads of the `Track` element at position `i`: its own
/// attributes (the artist from `grandparentTitle` or `originalTitle`, the
/// artwork from `thumb`, `parentThumb` or `grandparentThumb`), the `key` of
/// the first `Part` of its first `Media` (else its own `key`), and the
/// non-empty `container` and the positive `bitrate` of that `Media`.
pub open spec fn plex_track_spec(r: PlexTrack, ns: Seq<XmlNodeView>, i: int) -> bool {
    let a = ns[i].2;
    let media = first_child(ns, i, "Media"@);
    let part = match media {
        Some(m) => first_child(ns, m, "Part"@),
        None => None,
    };
    let part_key = match part {
        Some(pt) => xml_attr(ns[pt].2, "key"@),
        None => None,
    };
    &&& r.id@ == str_or_empty(xml_attr(a, "ratingKey"@))
    &&& r.title@ == str_or_empty(xml_attr(a, "title"@))
    &&& r.artist@ == str_or_empty(first_some(xml_attr(a, "grandparentTitle"@), xml_attr(a, "originalTitle"@)))
    &&& r.album@ == str_or_empty(xml_attr(a, "parentTitle"@))
    &&& r.album_id@ == str_or_empty(xml_attr(a, "parentRatingKey"@))
    &&& r.thumb@ == str_or_empty(
        first_some(xml_attr(a, "thumb"@), first_some(xml_attr(a, "parentThumb"@), xml_attr(a, "grandparentThumb"@))),
    )
    &&& r.stream_key@ == str_or_empty(first_some(part_key, xml_attr(a, "key"@)))
    &&& opt_view(r.audio_format) == (match media {
        Some(m) => non_empty(xml_attr(ns[m].2, "container"@)),
        None => None,
    })
    &&& r.bitrate_kbps == (match media {
        Some(m) => match xml_attr(ns[m].2, "bitrate"@) {
            Some(b) => match parse_u32_spec(b) {
                Some(n) => if n > 0 {
                    Some(n)
                } else {
                    None
                },
                None => None,
            },
            None => None,
        },
        None => None,
    })
    &&& opt_view(r.genre) == non_empty(first_some(xml_attr(a, "parentGenre"@), xml_attr(a, "Genre"@)))
    &&& r.duration@ == str_or_empty(xml_attr(a, "duration"@))
}

/// The first element child of node `p` named `tag`.
pub fn child_element(nodes: &Vec<XmlNode>, p: usize, tag: &str) -> (r: Option<usize>)
    ensures
        match first_child(xml_node_views(nodes@), p as int, tag@) {
            Some(j) => r == Some(j as usize),
            None => r is None,
        },
        r matches Some(k) ==> k < nodes@.len(),
        first_child(xml_node_views(nodes@), p as int, tag@) matches Some(k) ==> 0 <= k < nodes@.len(),
{
    proof {
        lemma_first_child_from_bounds(xml_node_views(nodes@), p as int, tag@, 0);
    }
    let ghost ns = xml_node_views(nodes@);
    let mut j: usize = 0;
    while j < nodes.len()
        invariant
            j <= nodes@.len(),
            ns == xml_node_views(nodes@),
            first_child(ns, p as int, tag@) == first_child_from(ns, p as int, tag@, j as int),
        decreases nodes.len() - j,
    {
        let n = &nodes[j];
        proof {
            assert(ns[j as int] == xml_node_view(nodes@[j as int]));
        }
        let child = match n.parent {
            Some(q) => q == p,
            None => false,
        };
        if has_tag(n, tag) && child {
            return Some(j);
        }
        j = j + 1;
    }
    None
}

fn or_attr(n: &XmlNode, first: Option<String>, name: &str) -> (r: Option<String>)
    ensures
        opt_view(r) == first_some(opt_view(first), xml_attr(xml_node_view(*n).2, name@)),
{
    match first {
        Some(x) => Some(x),
        None => attribute(n, name),
    }
}

fn kept_if_non_empty(a: Option<String>) -> (r: Option<String>)
    ensures
        opt_view(r) == non_empty(opt_view(a)),
{
    match a {
        Some(x) => if x.as_str().is_empty() {
            None
        } else {
            Some(x)
        },
        None => None,
    }
}

/// Reads the `Track` element at position `i` of a document's nodes.
pub fn track_at(nodes: &Vec<XmlNode>, i: usize) -> (r: PlexTrack)
    requires
        i < nodes@.len(),
    ensures
        plex_track_spec(r, xml_node_views(nodes@), i as int),
{
    let ghost ns = xml_node_views(nodes@);
    let len = nodes.len();
    assert(ns.len() == len);
    let n = &nodes[i];
    assert(ns[i as int] == xml_node_view(*n));
    let media = child_element(nodes, i, "Media");
    let part = match media {
        Some(m) => child_element(nodes, m, "Part"),
        None => None,
    };
    let part_key = match part {
        Some(pt) => {
            assert(ns[pt as int] == xml_node_view(nodes@[pt as int]));
            attribute(&nodes[pt], "key")
        },
        None => None,
    };
    let (audio_format, bitrate_kbps) = match media {
        Some(m) => {
            assert(ns[m as int] == xml_node_view(nodes@[m as int]));
            let container = kept_if_non_empty(attribute(&nodes[m], "container"));
            let bitrate = match attribute(&nodes[m], "bitrate") {
                Some(b) => match parse_u32(b.as_str()) {
                    Some(k) => if k > 0 {
                        Some(k)
                    } else {
                        None
                    },
                    None => None,
                },
                None => None,
            };
            (container, bitrate)
        },
        None => (None, None),
    };
    let artist = or_attr(n, attribute(n, "grandparentTitle"), "originalTitle");
    let thumb = or_attr(n, or_attr(n, attribute(n, "thumb"), "parentThumb"), "grandparentThumb");
    let stream_key = or_attr(n, part_key, "key");
    let genre = kept_if_non_empty(or_attr(n, attribute(n, "parentGenre"), "Genre"));
    PlexTrack {
        id: string_or_empty(attribute(n, "ratingKey")),
        title: string_or_empty(attribute(n, "title")),
        artist: string_or_empty(artist),
        album: string_or_empty(attribute(n, "parentTitle")),
        album_id: string_or_empty(attribute(n, "parentRatingKey")),
        thumb: string_or_empty(thumb),
        stream_key: string_or_empty(stream_key),
        audio_format,
        bitrate_kbps,
        genre,
        duration: string_or_empty(attribute(n, "duration")),
    }
}

/// The positions of the `Track` elements among the first `k` nodes.
pub open spec fn track_positions(ns: Seq<XmlNodeView>, k: int) -> Seq<int>
    decreases k,
{
    if k <= 0 {
        Seq::empty()
    } else if is_xml_element(ns[k - 1], "Track"@) {
        track_positions(ns, k - 1).push(k - 1)
    } else {
        track_positions(ns, k - 1)
    }
}

/// The first `count` tracks of a library document, in document order; the
/// parse error when the text is not XML.
pub fn plex_tracks(xml: &str, count: u32) -> (r: Result<Vec<PlexTrack>, String>)
    ensures
        match xml_parse_of(xml@) {
            Err(m) => r matches Err(e) && e@ == m,
            Ok(ns) => r matches Ok(v) && {
                let ps = track_positions(ns, ns.len() as int);
                &&& v@.len() == (if ps.len() < count { ps.len() as int } else { count as int })
                &&& forall|j: int| 0 <= j < v@.len() ==> plex_track_spec(#[trigger] v@[j], ns, ps[j])
            },
        },
{
    let nodes = parse_xml_nodes(xml)?;
    Ok(tracks_of_nodes(&nodes, count))
}

fn tracks_of_nodes(nodes: &Vec<XmlNode>, count: u32) -> (v: Vec<PlexTrack>)
    ensures
        ({
            let ns = xml_node_views(nodes@);
            let ps = track_positions(ns, ns.len() as int);
            &&& v@.len() == (if ps.len() < count { ps.len() as int } else { count as int })
            &&& forall|j: int| 0 <= j < v@.len() ==> plex_track_spec(#[trigger] v@[j], ns, ps[j])
        }),
{
    let ghost ns = xml_node_views(nodes@);
    let mut out: Vec<PlexTrack> = Vec::new();
    let mut i: usize = 0;
    while i < nodes.len() && out.len() < count as usize
        invariant
            i <= nodes@.len(),
            ns == xml_node_views(nodes@),
            out@.len() <= count,
            out@.len() == track_positions(ns, i as int).len(),
            forall|j: int|
                0 <= j < out@.len() ==> plex_track_spec(#[trigger] out@[j], ns, track_positions(ns, i as int)[j]),
        decreases nodes.len() - i,
    {
        proof {
            assert(ns[i as int] == xml_node_view(nodes@[i as int]));
        }
        if has_tag(&nodes[i], "Track") {
            let t = track_at(nodes, i);
            out.push(t);
        }
        i = i + 1;
    }
    proof {
        lemma_track_positions_prefix(ns, i as int, ns.len() as int);
    }
    out
}

proof fn lemma_track_positions_prefix(ns: Seq<XmlNodeView>, k: int, n: int)
    requires
        0 <= k <= n,
    ensures
        track_positions(ns, k).len() <= track_positions(ns, n).len(),
        forall|j: int|
            0 <= j < track_positions(ns, k).len() ==> #[trigger] track_positions(ns, n)[j] == track_positions(ns, k)[j],
    decreases n - k,
{
    if k < n {
        lemma_track_positions_prefix(ns, k, n - 1);
    }
}

/// The address of a request to the server: the profile's URL without its
/// trailing slashes, then `path`, with `params` added to the query; `None`
/// when that does not parse as a URL.
pub fn plex_request_url(p: &ActiveProfile, path: &str, params: &Vec<(String, String)>) -> (r: Option<String>)
    ensures
        opt_view(r) == url_with_query_pairs(trim_char_end(p.url@, '/') + path@, pair_views(params@)),
{
    let mut base = chars_of(trim_end_char_str(p.url.as_str(), '/').as_str());
    extend_chars(&mut base, &chars_of(path));
    let base = string_of(&base);
    crate::subsonic::parse_url_with_pairs(base.as_str(), params)
}

} // verus!
