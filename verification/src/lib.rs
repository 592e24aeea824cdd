//! Lyrics and playlists storage: text formats, routing and file naming.
pub mod error;
pub mod fs;
pub mod logging;
pub mod part;
pub mod playlist_toml;
pub mod routes;
pub mod run;
pub mod store;
pub mod text;
