//! A room-based chat relay: a registry of numbered rooms with unique display
//! names, the per-connection decisions of the relay tasks, a counter of
//! delivered messages, and a small readiness handshake; together with the
//! request-level rules of a few single-shot services.
pub mod message;
pub mod views;
pub mod text;
pub mod handshake;
pub mod session;
pub mod registry;
pub mod bake;
pub mod password;
pub mod decimal;
pub mod recalibrate;
pub mod unpaired;
pub mod reindeer;
pub mod elves;
pub mod paging;
pub mod ulids;
pub mod packets;
pub mod archive;
pub mod pixels;
pub mod topgifts;
