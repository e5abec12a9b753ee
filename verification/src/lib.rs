//! Verified core of the Naviarr music player: the rules for server profiles
//! and backends (Subsonic, Jellyfin, Plex, local folders), request and URL
//! building, the reading of JSON and XML replies, Last.fm signing and taste
//! summaries, lyrics lookups and their text normalisation, mDNS packets,
//! cast sessions, the playback transport, and the on-disk cache policy.

pub mod android_media;
pub mod cast;
pub mod digest;
pub mod disk_cache;
pub mod genius;
pub mod history;
pub mod health;
pub mod jellyfin;
pub mod json;
pub mod lastfm;
pub mod library;
pub mod loader;
pub mod local;
pub mod lyric_sources;
pub mod lyrics;
pub mod mdns;
pub mod numfmt;
pub mod playback;
pub mod plex;
pub mod profiles;
pub mod providers;
pub mod settings;
pub mod sorting;
pub mod subsonic;
pub mod text;
pub mod urls;
pub mod xml;
