//! Connect6 Online: game logic, the compact record format, the WebSocket
//! protocol, the decisions the server makes on players' messages, and
//! those the web client makes on the server's messages and the player's
//! commands.

pub mod argon2id;
pub mod codec;
pub mod connection;
pub mod game;
pub mod protocol;
pub mod session;
pub mod ui;
mod ext;
