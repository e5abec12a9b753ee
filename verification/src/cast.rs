//! Chromecast: the devices found by discovery and the media session rules of
//! the cast actor.
use vstd::prelude::*;
use crate::numfmt::{decimal, push_decimal};
use crate::text::{chars_of, string_of, extend_chars};

verus! {

/// A Chromecast found on the network.
pub struct CastDeviceInfo {
    pub name: String,
    pub addr: String,
    pub port: u16,
}

/// The key that identifies a device: `addr:port`.
pub open spec fn device_key_spec(addr: Seq<char>, port: u16) -> Seq<char> {
    addr + seq![':'] + decimal(port as nat)
}

pub fn device_key(addr: &str, port: u16) -> (r: String)
    ensures
        r@ == device_key_spec(addr@, port),
{
    let mut v = chars_of(addr);
    v.push(':');
    push_decimal(&mut v, port as u64);
    string_of(&v)
}

/// The devices found so far, each address and port once, the first answer
/// for it kept.
pub struct DeviceRegistry {
    devices: Vec<CastDeviceInfo>,
}

pub open spec fn info_key(d: CastDeviceInfo) -> Seq<char> {
    device_key_spec(d.addr@, d.port)
}

impl DeviceRegistry {
    pub closed spec fn entries(&self) -> Seq<CastDeviceInfo> {
        self.devices@
    }

    /// No two devices share a key.
    pub open spec fn distinct(&self) -> bool {
        forall|i: int, j: int|
            0 <= i < j < self.entries().len() ==> info_key(self.entries()[i]) != info_key(
                self.entries()[j],
            )
    }

    #[verifier::type_invariant]
    spec fn keys_unique(self) -> bool {
        self.distinct()
    }

    pub fn new() -> (r: DeviceRegistry)
        ensures
            r.entries().len() == 0,
            r.distinct(),
    {
        DeviceRegistry { devices: Vec::new() }
    }

    /// Records an answer from a device; a device already known keeps its
    /// first entry.  Returns whether the device was new.
    pub fn record(&mut self, name: String, addr: String, port: u16) -> (added: bool)
        ensures
            final(self).distinct(),
            added <==> forall|i: int|
                0 <= i < old(self).entries().len() ==> info_key(old(self).entries()[i])
                    != device_key_spec(addr@, port),
            added ==> final(self).entries() == old(self).entries().push(
                CastDeviceInfo { name, addr, port },
            ),
            !added ==> final(self).entries() == old(self).entries(),
    {
        proof {
            use_type_invariant(&*self);
        }
        let key = chars_of(device_key(addr.as_str(), port).as_str());
        let mut i: usize = 0;
        while i < self.devices.len()
            invariant
                i <= self.devices@.len(),
                self.devices@ == old(self).devices@,
                old(self).distinct(),
                key@ == device_key_spec(addr@, port),
                forall|k: int| 0 <= k < i ==> info_key(self.devices@[k]) != key@,
            decreases self.devices.len() - i,
        {
            let d = &self.devices[i];
            let dk = chars_of(device_key(d.addr.as_str(), d.port).as_str());
            if crate::text::same_chars(&dk, &key) {
                return false;
            }
            i = i + 1;
        }
        let ghost pushed = self.devices@.push(CastDeviceInfo { name, addr, port });
        assert forall|a: int, b: int| 0 <= a < b < pushed.len() implies info_key(pushed[a]) != info_key(
            pushed[b],
        ) by {
            if b == pushed.len() - 1 {
                assert(pushed[b] == CastDeviceInfo { name, addr, port });
            }
        }
        let mut devices: Vec<CastDeviceInfo> = Vec::new();
        std::mem::swap(&mut devices, &mut self.devices);
        devices.push(CastDeviceInfo { name, addr, port });
        self.devices = devices;
        true
    }

    /// The devices found, in the order they first answered.
    pub fn into_devices(self) -> (r: Vec<CastDeviceInfo>)
        ensures
            r@ == self.entries(),
            forall|i: int, j: int| 0 <= i < j < r@.len() ==> info_key(r@[i]) != info_key(r@[j]),
    {
        proof {
            use_type_invariant(&self);
            assert(self.distinct());
            assert(self.entries() == self.devices@);
        }
        self.devices
    }
}

/// The IPv4 addresses of the interfaces that are not loopback, in order;
/// each interface is given as whether it is loopback and its IPv4 address
/// (`None` for another address family).
pub open spec fn usable_ipv4(interfaces: Seq<(bool, Option<(u8, u8, u8, u8)>)>) -> Seq<(u8, u8, u8, u8)>
    decreases interfaces.len(),
{
    if interfaces.len() == 0 {
        Seq::empty()
    } else {
        let prev = usable_ipv4(interfaces.drop_last());
        match interfaces.last() {
            (false, Some(a)) => prev.push(a),
            _ => prev,
        }
    }
}

/// The local addresses to send queries from: the non-loopback IPv4
/// interfaces, or the unspecified address when there are none.
pub fn bind_addresses(interfaces: Vec<(bool, Option<(u8, u8, u8, u8)>)>) -> (r: Vec<(u8, u8, u8, u8)>)
    ensures
        usable_ipv4(interfaces@).len() == 0 ==> r@ == seq![(0u8, 0u8, 0u8, 0u8)],
        usable_ipv4(interfaces@).len() > 0 ==> r@ == usable_ipv4(interfaces@),
{
    let mut out: Vec<(u8, u8, u8, u8)> = Vec::new();
    let mut i: usize = 0;
    while i < interfaces.len()
        invariant
            i <= interfaces@.len(),
            out@ == usable_ipv4(interfaces@.take(i as int)),
        decreases interfaces.len() - i,
    {
        proof {
            assert(interfaces@.take(i + 1).drop_last() == interfaces@.take(i as int));
            assert(interfaces@.take(i + 1).last() == interfaces@[i as int]);
        }
        match interfaces[i] {
            (false, Some(a)) => out.push(a),
            _ => {},
        }
        i = i + 1;
    }
    assert(interfaces@.take(interfaces@.len() as int) == interfaces@);
    if out.len() == 0 {
        out.push((0, 0, 0, 0));
    }
    out
}

// ---------------------------------------------------------------------------
// The media session of the cast actor
// ---------------------------------------------------------------------------

/// The state a receiver reports for the loaded media.
#[derive(Clone, Copy, Debug, PartialEq, Eq, Structural)]
pub enum CastPlayerState {
    Playing,
    Paused,
    Buffering,
    Idle,
}

pub open spec fn player_state_name_spec(s: CastPlayerState) -> Seq<char> {
    match s {
        CastPlayerState::Playing => "PLAYING"@,
        CastPlayerState::Paused => "PAUSED"@,
        CastPlayerState::Buffering => "BUFFERING"@,
        CastPlayerState::Idle => "IDLE"@,
    }
}

pub fn player_state_name(s: CastPlayerState) -> (r: String)
    ensures
        r@ == player_state_name_spec(s),
{
    match s {
        CastPlayerState::Playing => "PLAYING".to_string(),
        CastPlayerState::Paused => "PAUSED".to_string(),
        CastPlayerState::Buffering => "BUFFERING".to_string(),
        CastPlayerState::Idle => "IDLE".to_string(),
    }
}

/// The media session of a cast connection: 0 while no media is loaded.
pub struct CastSession {
    pub media_session_id: i32,
}

impl CastSession {
    pub fn new() -> (s: CastSession)
        ensures
            s.media_session_id == 0,
    {
        CastSession { media_session_id: 0 }
    }

    /// Loading a track forgets the previous media session.
    pub fn begin_load(&mut self)
        ensures
            final(self).media_session_id == 0,
    {
        self.media_session_id = 0;
    }

    /// After a load, the session of the first media entry is used.
    pub fn finish_load(&mut self, first_entry: Option<i32>)
        ensures
            final(self).media_session_id == (match first_entry {
                Some(id) => id,
                None => old(self).media_session_id,
            }),
    {
        if let Some(id) = first_entry {
            self.media_session_id = id;
        }
    }

    /// Pause, resume and seek need loaded media.
    pub fn require_media(&self) -> (r: Result<i32, String>)
        ensures
            self.media_session_id == 0 ==> (r matches Err(e) && e@ == "No active media session"@),
            self.media_session_id != 0 ==> r == Ok::<i32, String>(self.media_session_id),
    {
        if self.media_session_id == 0 {
            Err("No active media session".to_string())
        } else {
            Ok(self.media_session_id)
        }
    }

    /// Whether a status request must ask the receiver for media status.
    pub fn has_media(&self) -> (r: bool)
        ensures
            r == (self.media_session_id != 0),
    {
        self.media_session_id != 0
    }

    /// The player state reported for a media status: the first entry's
    /// state, whose session is then used, or `"IDLE"` without entries.
    pub fn status_state(&mut self, first_entry: Option<(i32, CastPlayerState)>) -> (r: String)
        ensures
            match first_entry {
                Some((id, st)) => r@ == player_state_name_spec(st) && final(self).media_session_id
                    == id,
                None => r@ == "IDLE"@ && final(self).media_session_id == old(
                    self,
                ).media_session_id,
            },
    {
        match first_entry {
            Some((id, st)) => {
                self.media_session_id = id;
                player_state_name(st)
            },
            None => "IDLE".to_string(),
        }
    }
}

/// The images sent with a track: its cover, if it has one.
pub fn cast_images(cover_url: String) -> (r: Vec<String>)
    ensures
        cover_url@.len() == 0 ==> r@.len() == 0,
        cover_url@.len() > 0 ==> r@ == seq![cover_url],
{
    let mut v: Vec<String> = Vec::new();
    if !cover_url.as_str().is_empty() {
        v.push(cover_url);
    }
    v
}

/// The commands the cast actor takes.
#[derive(Clone, Copy, Debug, PartialEq, Eq, Structural)]
pub enum CastCommandKind {
    Play,
    Pause,
    Resume,
    Seek,
    Volume,
    Status,
    Stop,
}

/// The actor keeps running after every command but `Stop`.
pub fn actor_continues(cmd: CastCommandKind) -> (r: bool)
    ensures
        r == (cmd != CastCommandKind::Stop),
{
    match cmd {
        CastCommandKind::Stop => false,
        _ => true,
    }
}

} // verus!
