//! Ingestion and synchronisation of IPTV channel catalogs: M3U playlists,
//! Xtream-Codes panels and Stalker portals, merged into one catalog whose
//! user-curated state survives every refresh.

pub mod media_type;
pub mod source_type;
pub mod stalker_type;
pub mod text;
pub mod types;
pub mod error;
pub mod tags;
pub mod catalog;
pub mod m3u;
pub mod refresh;
pub mod xtream;
pub mod stalker;
pub mod utils;
pub mod settings;
pub mod episodes;
pub mod epg;
