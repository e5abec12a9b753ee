//! The Android media session: what the notification and lock screen are
//! told about the playing track.  The service calls themselves are made by
//! the caller; these functions decide them and keep the track metadata that
//! later updates resend.
use vstd::prelude::*;

verus! {

/// The metadata of the track shown by the media session.
pub struct MediaState {
    pub title: String,
    pub artist: String,
    pub album: String,
    pub cover_url: String,
    pub duration_ms: i64,
}

/// A call into the media playback service.
pub enum ServiceCall {
    /// Show a track with its playing state and position.
    Update { state: MediaState, is_playing: bool, position_ms: i64 },
    /// Change only the playing state and position.
    SetPlaying { is_playing: bool, position_ms: i64 },
    /// Stop the service and remove the notification.
    Stop,
}

/// The session: the metadata of the last track shown.
pub struct MediaSession {
    state: MediaState,
}

pub open spec fn empty_state(s: MediaState) -> bool {
    s.title@.len() == 0 && s.artist@.len() == 0 && s.album@.len() == 0 && s.cover_url@.len() == 0
        && s.duration_ms == 0
}

pub open spec fn same_state(a: MediaState, b: MediaState) -> bool {
    a.title@ == b.title@ && a.artist@ == b.artist@ && a.album@ == b.album@ && a.cover_url@
        == b.cover_url@ && a.duration_ms == b.duration_ms
}

fn copy_state(s: &MediaState) -> (r: MediaState)
    ensures
        same_state(r, *s),
{
    MediaState {
        title: s.title.clone(),
        artist: s.artist.clone(),
        album: s.album.clone(),
        cover_url: s.cover_url.clone(),
        duration_ms: s.duration_ms,
    }
}

impl MediaSession {
    pub closed spec fn current(&self) -> MediaState {
        self.state
    }

    /// A session that has shown nothing yet.
    pub fn new() -> (s: MediaSession)
        ensures
            empty_state(s.current()),
    {
        MediaSession {
            state: MediaState {
                title: String::new(),
                artist: String::new(),
                album: String::new(),
                cover_url: String::new(),
                duration_ms: 0,
            },
        }
    }

    /// The metadata of the track last shown.
    pub fn media_state(&self) -> (r: &MediaState)
        ensures
            *r == self.current(),
    {
        &self.state
    }

    /// A new track is queued: remember its metadata and show it.
    pub fn update_track(
        &mut self,
        title: &str,
        artist: &str,
        album: &str,
        cover_url: &str,
        duration_ms: i64,
        is_playing: bool,
        position_ms: i64,
    ) -> (call: ServiceCall)
        ensures
            final(self).current().title@ == title@,
            final(self).current().artist@ == artist@,
            final(self).current().album@ == album@,
            final(self).current().cover_url@ == cover_url@,
            final(self).current().duration_ms == duration_ms,
            call matches ServiceCall::Update { state, is_playing: p, position_ms: q } && same_state(
                state,
                final(self).current(),
            ) && p == is_playing && q == position_ms,
    {
        let state = MediaState {
            title: title.to_string(),
            artist: artist.to_string(),
            album: album.to_string(),
            cover_url: cover_url.to_string(),
            duration_ms,
        };
        let sent = copy_state(&state);
        self.state = state;
        ServiceCall::Update { state: sent, is_playing, position_ms }
    }

    /// Playing or pausing changes only the playing state.
    pub fn update_playback_state(&self, is_playing: bool, position_ms: i64) -> (call: ServiceCall)
        ensures
            call matches ServiceCall::SetPlaying { is_playing: p, position_ms: q } && p == is_playing
                && q == position_ms,
    {
        ServiceCall::SetPlaying { is_playing, position_ms }
    }
}

/// Stopping playback stops the service.
pub fn stop() -> (call: ServiceCall)
    ensures
        call is Stop,
{
    ServiceCall::Stop
}

/// A button pressed on the notification or lock screen.
pub enum MediaButton {
    Play,
    Pause,
    Next,
    Previous,
}

/// What a button press does: play or pause the engine, or ask the front
/// end for the next or previous track.
pub enum ButtonAction {
    EnginePlay,
    EnginePause,
    Emit(String),
}

pub fn button_action(b: MediaButton) -> (r: ButtonAction)
    ensures
        b is Play ==> r is EnginePlay,
        b is Pause ==> r is EnginePause,
        b is Next ==> (r matches ButtonAction::Emit(e) && e@ == "media:next"@),
        b is Previous ==> (r matches ButtonAction::Emit(e) && e@ == "media:previous"@),
{
    match b {
        MediaButton::Play => ButtonAction::EnginePlay,
        MediaButton::Pause => ButtonAction::EnginePause,
        MediaButton::Next => ButtonAction::Emit("media:next".to_string()),
        MediaButton::Previous => ButtonAction::Emit("media:previous".to_string()),
    }
}

} // verus!
