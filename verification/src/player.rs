use vstd::prelude::*;

verus! {

/// One of the two sides of a game.
#[derive(Debug, Clone, Copy, PartialEq, Eq, Structural)]
pub enum Player {
    Black,
    White,
}

impl Player {
    /// The player who moves first, used wherever a side is not given.
    pub fn white() -> (r: Player)
        ensures
            r == Player::White,
    {
        Player::White
    }

    /// The other side.
    pub open spec fn spec_opponent(self) -> Player {
        match self {
            Player::White => Player::Black,
            Player::Black => Player::White,
        }
    }

    /// The other side.
    pub fn opponent(self) -> (r: Player)
        ensures
            r == self.spec_opponent(),
    {
        match self {
            Player::White => Player::Black,
            Player::Black => Player::White,
        }
    }
}

impl Player {
    /// The player named by `s`: `White` or `Black`.
    pub fn from_str(s: &str) -> (r: Option<Player>)
        ensures
            r == spec_player_from_text(s@),
    {
        if crate::text::str_eq(s, "White") {
            Some(Player::White)
        } else if crate::text::str_eq(s, "Black") {
            Some(Player::Black)
        } else {
            None
        }
    }

    /// The name of the player.
    pub fn as_str(&self) -> (r: &str)
        ensures
            r@ == spec_player_text(*self),
    {
        match self {
            Player::Black => "Black",
            Player::White => "White",
        }
    }
}

/// The player a text names.
pub open spec fn spec_player_from_text(s: Seq<char>) -> Option<Player> {
    if s == "White"@ {
        Some(Player::White)
    } else if s == "Black"@ {
        Some(Player::Black)
    } else {
        None
    }
}

/// The name of a player.
pub open spec fn spec_player_text(p: Player) -> Seq<char> {
    match p {
        Player::Black => "Black"@,
        Player::White => "White"@,
    }
}

impl Default for Player {
    fn default() -> (r: Player)
        ensures
            r == Player::White,
    {
        Player::White
    }
}

/// The opponent of the opponent is the player itself.
pub proof fn law_opponent_involutive(p: Player)
    ensures
        p.spec_opponent().spec_opponent() == p,
        p.spec_opponent() != p,
{
}

/// Reading the name of a player gives the player back.
pub proof fn law_player_name_roundtrip(p: Player)
    ensures
        spec_player_from_text(spec_player_text(p)) == Some(p),
{
    reveal_strlit("White");
    reveal_strlit("Black");
    assert("Black"@[0] != "White"@[0]);
}

} // verus!
