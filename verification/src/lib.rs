//! Client-side core of a multiplayer snake game: the wire protocol that the
//! client exchanges with the game server, and the session state machine that
//! tracks the client-local phase (matching, playing, game over), the latest
//! world snapshot, and the gating of player input.

pub mod types;
pub mod codec;
pub mod decode;
pub mod roundtrip;
pub mod session;
pub mod display;
