//! Core logic of the Onyx tile-based multiplayer game: shared types, map
//! tiles and autotiling, and the decisions the server takes on behalf of
//! its players.
pub mod auth;
pub mod autotile;
pub mod chat;
pub mod client;
pub mod common;
pub mod connection;
pub mod editor;
pub mod grid;
pub mod names;
pub mod networking;
pub mod paths;
pub mod server;
pub mod text;
pub mod tilemap;
