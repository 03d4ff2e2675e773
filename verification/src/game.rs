//! Connect6 game logic, record, and serialization.

pub mod direction;
pub mod point;
pub mod index;
pub mod moves;
pub mod record;
pub mod plain;
pub mod format;
pub mod history;
pub mod roundtrip;
pub mod rows;
pub mod delta;
pub mod nibble;
pub mod player;
pub mod bit;

pub use direction::{Direction, Stone};
pub use moves::Move;
pub use player::{Player, PlayerSlots};
pub use point::Point;
pub use record::{turn_at, Record, RecordEncodingScheme};
