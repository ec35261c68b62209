//! Game-world logic for a tile-based multiplayer game: map coordinates, chunks, the
//! server-side map with its entity index, the per-connection chunk bookkeeping and message
//! decisions, chunk planning and generation, identifiers, animations and client-side
//! movement prediction.

pub mod coords;
pub mod world;
pub mod chunk;
pub mod loaded_chunks;
pub mod server_map;
pub mod messages;
pub mod generation;
pub mod handling;
pub mod chunkplan;
pub mod randomness;
pub mod id;
pub mod animations;
pub mod assets;
pub mod connection;
pub mod client_map;
pub mod my_entity;
pub mod records;
pub mod client_game;
