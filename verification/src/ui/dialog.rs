//! What the dialogs of the client make of the player's input.
use super::app::stone_under;
use crate::game::{Player, Stone};
use crate::protocol::GameOptions;
use vstd::prelude::*;

verus! {

/// The options of a game started by a player who picked `stone`: the
/// stones are swapped when they picked white.
pub fn start_options(stone: Stone) -> (r: GameOptions)
    ensures
        r.swapped == (stone == Stone::White),
        stone_under(r, Player::Host) == stone,
{
    GameOptions {
        swapped: match stone {
            Stone::White => true,
            Stone::Black => false,
        },
    }
}

/// The options a player asks to reset the game with, to play `new_stone`
/// after playing under `old`: swapped again when the stone changes.
pub fn reset_options(old: GameOptions, player: Player, new_stone: Stone) -> (r: GameOptions)
    ensures
        r.swapped == (old.swapped != (stone_under(old, player) != new_stone)),
        stone_under(r, player) == new_stone,
{
    let old_stone = old.stone_of(player);
    GameOptions { swapped: old.swapped != (old_stone != new_stone) }
}

/// Whether a byte is an ASCII letter or digit.
pub open spec fn alphanumeric(b: u8) -> bool {
    (0x30 <= b <= 0x39) || (0x41 <= b <= 0x5a) || (0x61 <= b <= 0x7a)
}

/// Whether a text can be a game id: eleven ASCII letters or digits.
pub fn is_game_id_text(id: &[u8]) -> (r: bool)
    ensures
        r == (id@.len() == 11 && forall|i: int| 0 <= i < 11 ==> alphanumeric(#[trigger] id@[i])),
{
    if id.len() != 11 {
        return false;
    }
    let mut i: usize = 0;
    while i < 11
        invariant
            id@.len() == 11,
            i <= 11,
            forall|j: int| 0 <= j < i ==> alphanumeric(#[trigger] id@[j]),
        decreases 11 - i,
    {
        let b = id[i];
        if !((0x30 <= b && b <= 0x39) || (0x41 <= b && b <= 0x5a) || (0x61 <= b && b <= 0x7a)) {
            return false;
        }
        i += 1;
    }
    true
}

} // verus!
