//! The two players of a game and a slot for each.
use vstd::prelude::*;

verus! {

/// A player in a game: the one who started it, or the one who joined.
#[derive(Clone, Copy, Debug, Eq, PartialEq, Structural)]
pub enum Player {
    /// The player who started the game.
    Host,
    /// The player who joined the game.
    Guest,
}

impl Player {
    /// The number of a player: 0 for the host, 1 for the guest.
    pub open spec fn value(self) -> u8 {
        match self {
            Player::Host => 0,
            Player::Guest => 1,
        }
    }

    /// The other player.
    pub open spec fn other(self) -> Player {
        match self {
            Player::Host => Player::Guest,
            Player::Guest => Player::Host,
        }
    }

    /// Creates a player from a `u8`.
    pub fn from_u8(n: u8) -> (r: Option<Self>)
        ensures
            n == 0 ==> r == Some(Player::Host),
            n == 1 ==> r == Some(Player::Guest),
            n > 1 ==> r is None,
            r matches Some(p) ==> p.value() == n,
    {
        match n {
            0 => Some(Player::Host),
            1 => Some(Player::Guest),
            _ => None,
        }
    }

    /// Returns the number of the player: 0 for the host, 1 for the guest.
    pub fn as_u8(self) -> (r: u8)
        ensures
            r == self.value(),
    {
        match self {
            Player::Host => 0,
            Player::Guest => 1,
        }
    }

    /// Returns the other player.
    pub fn opposite(self) -> (r: Self)
        ensures
            r == self.other(),
            r != self,
            r.other() == self,
    {
        match self {
            Player::Host => Player::Guest,
            Player::Guest => Player::Host,
        }
    }
}

/// A value for each player.
#[derive(Clone, Copy, Debug, Eq, PartialEq, Structural)]
pub struct PlayerSlots<T> {
    /// The host's value.
    pub host: T,
    /// The guest's value.
    pub guest: T,
}

impl<T: Copy> PlayerSlots<T> {
    /// The value of a player.
    pub open spec fn at(self, p: Player) -> T {
        match p {
            Player::Host => self.host,
            Player::Guest => self.guest,
        }
    }

    /// Creates slots holding `v` for both players.
    pub fn filled(v: T) -> (r: Self)
        ensures
            r.host == v,
            r.guest == v,
    {
        PlayerSlots { host: v, guest: v }
    }

    /// Returns the value of a player.
    pub fn get(&self, p: Player) -> (r: T)
        ensures
            r == self.at(p),
    {
        match p {
            Player::Host => self.host,
            Player::Guest => self.guest,
        }
    }

    /// Sets the value of a player, leaving the other's as it was.
    pub fn set(&mut self, p: Player, v: T)
        ensures
            final(self).at(p) == v,
            final(self).at(p.other()) == old(self).at(p.other()),
    {
        match p {
            Player::Host => self.host = v,
            Player::Guest => self.guest = v,
        }
    }

    /// Sets the value of both players.
    pub fn fill(&mut self, v: T)
        ensures
            final(self).host == v,
            final(self).guest == v,
    {
        self.host = v;
        self.guest = v;
    }
}

} // verus!
