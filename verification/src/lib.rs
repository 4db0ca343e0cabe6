//! Decision core of Organizarr.
pub mod binary64;
pub mod client;
pub mod config;
pub mod cycle;
pub mod discovery;
pub mod logger;
pub mod name_map;
pub mod paths;
pub mod rules;
pub mod shown;
pub mod text;
pub mod torrent;
pub mod transfer;
