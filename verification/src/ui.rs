//! The decisions of the web client that do not depend on the browser:
//! positions in the board view, what hitting a position selects, what the
//! client does on server messages and on the player's commands, what its
//! menu and dialogs show and make of the input, and where an address leads.

pub mod app;
pub mod board;
pub mod calc;
pub mod confirm;
pub mod dialog;
pub mod keys;
pub mod menu;
pub mod route;
