//! How pieces and boards are written for the player.
use vstd::prelude::*;
use crate::board::{Board, cell_view};
use crate::piece::{Piece, PieceView};
use crate::player::Player;
use crate::text::{cat3, text};

verus! {

/// What `char::to_lowercase` gives for a character, as text.
pub uninterp spec fn spec_lower(c: char) -> Seq<char>;

/// `char::to_lowercase`, collected into a text: the lowercase form of `c` (some characters have
/// one of several characters).
#[verifier::external_body]
fn lower_text(c: char) -> (r: String)
    ensures
        r@ == spec_lower(c),
{
    c.to_lowercase().to_string()
}

/// What `char::to_uppercase` gives for a character, as text.
pub uninterp spec fn spec_upper(c: char) -> Seq<char>;

/// `char::to_uppercase`, collected into a text: the uppercase form of `c`.
#[verifier::external_body]
fn upper_text(c: char) -> (r: String)
    ensures
        r@ == spec_upper(c),
{
    c.to_uppercase().to_string()
}

/// How a piece is written: the first character of its name (a space when it has none), in
/// lower case for White and in upper case for Black.
pub open spec fn piece_symbol(p: PieceView) -> Seq<char> {
    let c = if p.name.len() > 0 { p.name[0] } else { ' ' };
    if p.owner == Player::White { spec_lower(c) } else { spec_upper(c) }
}

/// How a square is written: its piece, or `.` when it is empty.
pub open spec fn square_symbol(s: Option<Piece>) -> Seq<char> {
    match s {
        Some(p) => piece_symbol(p@),
        None => "."@,
    }
}

/// A row, its squares separated by spaces.
pub open spec fn row_text(r: Seq<Option<Piece>>) -> Seq<char>
    decreases r.len(),
{
    if r.len() == 0 {
        Seq::empty()
    } else if r.len() == 1 {
        square_symbol(r[0])
    } else {
        row_text(r.drop_last()) + " "@ + square_symbol(r.last())
    }
}

/// The rows of a grid, written.
pub open spec fn grid_lines(g: Seq<Vec<Option<Piece>>>) -> Seq<Seq<char>> {
    g.map_values(|r: Vec<Option<Piece>>| row_text(r@))
}

/// Texts joined by line breaks.
pub open spec fn join_lines(s: Seq<Seq<char>>) -> Seq<char>
    decreases s.len(),
{
    if s.len() == 0 {
        Seq::empty()
    } else if s.len() == 1 {
        s[0]
    } else {
        join_lines(s.drop_last()) + "\n"@ + s.last()
    }
}

impl Piece {
    /// The piece as the board shows it; see `piece_symbol`.
    pub fn to_string(&self) -> (r: String)
        ensures
            r@ == piece_symbol(self@),
    {
        let c = if self.name.as_str().unicode_len() > 0 { self.name.as_str().get_char(0) } else { ' ' };
        match self.owner {
            Player::White => lower_text(c),
            Player::Black => upper_text(c),
        }
    }
}

/// A row written; see `row_text`.
pub fn write_row(r: &Vec<Option<Piece>>) -> (s: String)
    ensures
        s@ == row_text(r@),
{
    let mut out = String::new();
    let mut j: usize = 0;
    while j < r.len()
        invariant
            j <= r@.len(),
            out@ == row_text(r@.take(j as int)),
        decreases r.len() - j,
    {
        let sym = match &r[j] {
            Some(p) => p.to_string(),
            None => text("."),
        };
        proof {
            assert(r@.take(j + 1).drop_last() == r@.take(j as int));
            assert(r@.take(j + 1).last() == r@[j as int]);
        }
        if j == 0 {
            out = sym;
            proof {
                assert(r@.take(1)[0] == r@[0]);
            }
        } else {
            out = cat3(out.as_str(), " ", sym.as_str());
        }
        j += 1;
    }
    proof {
        assert(r@.take(r@.len() as int) == r@);
    }
    out
}

impl Board {
    /// The rows of the board, written; see `row_text`.
    pub fn lines(&self) -> (r: Vec<String>)
        ensures
            r@.len() == self.board@.len(),
            forall|i: int| 0 <= i < r@.len() ==> (#[trigger] r@[i])@ == grid_lines(self.board@)[i],
    {
        let mut out: Vec<String> = Vec::new();
        let mut i: usize = 0;
        while i < self.board.len()
            invariant
                i <= self.board@.len(),
                out@.len() == i,
                forall|k: int| 0 <= k < i ==> (#[trigger] out@[k])@ == grid_lines(self.board@)[k],
            decreases self.board.len() - i,
        {
            out.push(write_row(&self.board[i]));
            i += 1;
        }
        out
    }

    /// The board as the player sees it: its rows joined by line breaks; see `grid_lines`.
    pub fn to_string(&self) -> (r: String)
        ensures
            r@ == join_lines(grid_lines(self.board@)),
    {
        let rows = self.lines();
        let mut out = String::new();
        let mut i: usize = 0;
        while i < rows.len()
            invariant
                i <= rows@.len(),
                rows@.len() == self.board@.len(),
                forall|k: int| 0 <= k < rows@.len() ==> (#[trigger] rows@[k])@ == grid_lines(self.board@)[k],
                out@ == join_lines(grid_lines(self.board@).take(i as int)),
            decreases rows.len() - i,
        {
            let ghost g = grid_lines(self.board@);
            proof {
                assert(g.take(i + 1).drop_last() == g.take(i as int));
                assert(g.take(i + 1).last() == g[i as int]);
            }
            if i == 0 {
                out = rows[i].clone();
                proof {
                    assert(g.take(1)[0] == g[0]);
                }
            } else {
                out = cat3(out.as_str(), "\n", rows[i].as_str());
            }
            i += 1;
        }
        proof {
            assert(grid_lines(self.board@).take(rows@.len() as int) == grid_lines(self.board@));
        }
        out
    }
}

} // verus!
