//! Verified core of an anime browsing and playback application: the parsers
//! for the torrent sources' feeds and pages, the online-source rule model, the
//! media-cache naming scheme, the HTTP range parser of the streaming server,
//! the render loop's decisions and the small registries that the application keeps in memory.
pub mod text;
pub mod numfmt;
pub mod torrent_provider;
pub mod order;
pub mod markup;
pub mod mikan;
pub mod dmhy;
pub mod nyaa;
pub mod models;
pub mod bangumi;
pub mod html;
pub mod rule;
pub mod sniff;
pub mod paths;
pub mod store;
pub mod frame;
pub mod render;
pub mod server;
pub mod torrent;
pub mod registry;
pub mod online;
pub mod errors;
pub mod power;
pub mod shaders;
