//! WebSocket protocol.

pub mod client;
pub mod game_id;
pub mod message;
pub mod server;

pub use client::ClientMessage;
pub use game_id::GameId;
pub use message::{GameOptions, Message, PasscodeHash, Request};
pub use server::ServerMessage;
pub use crate::game::{Player, PlayerSlots};
