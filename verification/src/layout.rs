//! Setting a board up as a board file lays it out: the pieces on its squares and in its
//! cementaries, each named by its kind, its owner and its id.
use vstd::prelude::*;
use crate::board::{cell_view, Board};
use crate::ids::{board_ids, grid_covers_size};
use crate::piece::{Piece, PieceView};
use crate::player::{spec_player_from_text, Player};
use crate::rule::RuleValue;
use crate::text::cat3;

verus! {

/// A piece as a board file lists it: the id of its kind, its owner's name, and its own id.
pub type Placement = (String, String, i32);

/// The piece a placement puts down: one of its kind, owned by the named player, whose memory
/// records its id; nothing when the kind is unknown or the owner is not `White` or `Black`.
pub open spec fn placed(b: &Board, t: Placement) -> Option<PieceView> {
    if b.pieces@.contains_key(t.0@) && spec_player_from_text(t.1@) is Some {
        Some(PieceView {
            memory: b.pieces@[t.0@].memory.insert("id"@, RuleValue::Integer(t.2)),
            owner: spec_player_from_text(t.1@)->0,
            ..b.pieces@[t.0@]
        })
    } else {
        None
    }
}

/// What a square of a laid-out grid holds.
pub open spec fn placed_opt(b: &Board, o: Option<Placement>) -> Option<PieceView> {
    match o {
        Some(t) => placed(b, t),
        None => None,
    }
}

/// The view of what a square holds.
pub open spec fn opt_piece_view(o: Option<Piece>) -> Option<PieceView> {
    match o {
        Some(p) => Some(p@),
        None => None,
    }
}

/// The cementaries a list of placements fills, White's then Black's, each piece going to its
/// owner's; an error for the first placement whose kind is unknown or whose owner is not a
/// player.
pub open spec fn cementary_layout(b: &Board, s: Seq<Option<Placement>>) -> Result<(Seq<PieceView>, Seq<PieceView>), Seq<char>>
    decreases s.len(),
{
    if s.len() == 0 {
        Ok((Seq::empty(), Seq::empty()))
    } else {
        match cementary_layout(b, s.drop_last()) {
            Err(e) => Err(e),
            Ok((w, k)) => match s.last() {
                None => Ok((w, k)),
                Some(t) => if !b.pieces@.contains_key(t.0@) {
                    Err("no "@ + t.0@ + " defined in board"@)
                } else {
                    match spec_player_from_text(t.1@) {
                        None => Err("cannot set owner"@),
                        Some(Player::White) => Ok((w.push(placed(b, t)->0), k)),
                        Some(Player::Black) => Ok((w, k.push(placed(b, t)->0))),
                    }
                },
            },
        }
    }
}

/// Whether `r` holds the grid `g` laid out with the kinds of `b`.
pub open spec fn grid_laid_out(b: &Board, g: Seq<Vec<Option<Placement>>>, r: &Board) -> bool {
    &&& r.board@.len() == g.len()
    &&& forall|x: int| 0 <= x < g.len() ==> (#[trigger] r.board@[x])@.len() == g[x]@.len()
    &&& forall|x: int, y: int| 0 <= x < g.len() && 0 <= y < g[x]@.len() ==> #[trigger] cell_view(r, x, y) == placed_opt(b, g[x]@[y])
}

/// Whether `r` is `b` laid out as a board file says: its grid replaced by `grid`, when given,
/// its cementaries by those `cementaries` fill, when given, all else kept.
pub open spec fn laid_out(b: &Board, grid: Option<Vec<Vec<Option<Placement>>>>, cementaries: Option<Vec<Option<Placement>>>, r: &Board) -> bool {
    &&& r.size == b.size
    &&& r.pieces@ == b.pieces@
    &&& r.endcondition == b.endcondition
    &&& r.wincondition == b.wincondition
    &&& r.current_player == b.current_player
    &&& r.history == b.history
    &&& r.history_size == b.history_size
    &&& r.revive == b.revive
    &&& match grid {
        Some(g) => grid_laid_out(b, g@, r),
        None => r.board == b.board,
    }
    &&& match cementaries {
        Some(c) => cementary_layout(b, c@) == Ok::<(Seq<PieceView>, Seq<PieceView>), Seq<char>>(
            (crate::board::view_pieces(r.cementaries.0@), crate::board::view_pieces(r.cementaries.1@))),
        None => r.cementaries == b.cementaries,
    }
}

/// A list whose first placements give an error gives that error.
proof fn lemma_layout_err_prefix(b: &Board, s: Seq<Option<Placement>>, n: int, e: Seq<char>)
    requires
        0 <= n <= s.len(),
        cementary_layout(b, s.subrange(0, n)) == Err::<(Seq<PieceView>, Seq<PieceView>), Seq<char>>(e),
    ensures
        cementary_layout(b, s) == Err::<(Seq<PieceView>, Seq<PieceView>), Seq<char>>(e),
    decreases s.len() - n,
{
    if n < s.len() {
        assert(s.subrange(0, n + 1).drop_last() =~= s.subrange(0, n));
        lemma_layout_err_prefix(b, s, n + 1, e);
    } else {
        assert(s.subrange(0, n) =~= s);
    }
}

impl Board {
    /// The piece a placement puts down: a new piece of its kind, owned by the named player,
    /// whose memory records the placement's id.
    pub fn place(&self, t: &Placement) -> (r: Option<Piece>)
        ensures
            opt_piece_view(r) == placed(self, *t),
    {
        match self.pieces.get(t.0.as_str()) {
            Some(kind) => match Player::from_str(t.1.as_str()) {
                Some(owner) => {
                    let mut p = Piece::create_from(kind, t.2);
                    p.set_owner(owner);
                    Some(p)
                },
                None => None,
            },
            None => None,
        }
    }

    /// The grid a board file lays out: each placement becomes the piece it puts down, or an
    /// empty square when it puts down none.
    fn grid_from(&self, g: &Vec<Vec<Option<Placement>>>) -> (r: Vec<Vec<Option<Piece>>>)
        ensures
            r@.len() == g@.len(),
            forall|x: int| 0 <= x < g@.len() ==> (#[trigger] r@[x])@.len() == g@[x]@.len(),
            forall|x: int, y: int| 0 <= x < g@.len() && 0 <= y < g@[x]@.len() ==> opt_piece_view(#[trigger] r@[x]@[y]) == placed_opt(self, g@[x]@[y]),
    {
        let mut rows: Vec<Vec<Option<Piece>>> = Vec::new();
        let mut i: usize = 0;
        while i < g.len()
            invariant
                i <= g@.len(),
                rows@.len() == i,
                forall|x: int| 0 <= x < i ==> (#[trigger] rows@[x])@.len() == g@[x]@.len(),
                forall|x: int, y: int| 0 <= x < i && 0 <= y < g@[x]@.len() ==> opt_piece_view(#[trigger] rows@[x]@[y]) == placed_opt(self, g@[x]@[y]),
            decreases g.len() - i,
        {
            let mut row: Vec<Option<Piece>> = Vec::new();
            let mut j: usize = 0;
            while j < g[i].len()
                invariant
                    i < g@.len(),
                    j <= g@[i as int]@.len(),
                    row@.len() == j,
                    forall|y: int| 0 <= y < j ==> opt_piece_view(#[trigger] row@[y]) == placed_opt(self, g@[i as int]@[y]),
                decreases g[i as int]@.len() - j,
            {
                let square = match &g[i][j] {
                    Some(t) => self.place(t),
                    None => None,
                };
                row.push(square);
                j += 1;
            }
            rows.push(row);
            i += 1;
        }
        rows
    }

    /// The cementaries a list of placements fills, White's then Black's; the error of the first
    /// placement that names an unknown kind or a wrong owner.
    fn cementaries_from(&self, c: &Vec<Option<Placement>>) -> (r: Result<(Vec<Piece>, Vec<Piece>), String>)
        ensures
            match r {
                Ok(p) => cementary_layout(self, c@) == Ok::<(Seq<PieceView>, Seq<PieceView>), Seq<char>>(
                    (crate::board::view_pieces(p.0@), crate::board::view_pieces(p.1@))),
                Err(e) => cementary_layout(self, c@) == Err::<(Seq<PieceView>, Seq<PieceView>), Seq<char>>(e@),
            },
    {
        let mut white: Vec<Piece> = Vec::new();
        let mut black: Vec<Piece> = Vec::new();
        let mut i: usize = 0;
        proof {
            assert(c@.subrange(0, 0) =~= Seq::<Option<Placement>>::empty());
            assert(crate::board::view_pieces(white@) =~= Seq::<PieceView>::empty());
            assert(crate::board::view_pieces(black@) =~= Seq::<PieceView>::empty());
        }
        while i < c.len()
            invariant
                i <= c@.len(),
                cementary_layout(self, c@.subrange(0, i as int)) == Ok::<(Seq<PieceView>, Seq<PieceView>), Seq<char>>(
                    (crate::board::view_pieces(white@), crate::board::view_pieces(black@))),
            decreases c.len() - i,
        {
            proof {
                assert(c@.subrange(0, i + 1).drop_last() =~= c@.subrange(0, i as int));
            }
            match &c[i] {
                Some(t) => {
                    if !self.pieces.contains_key(t.0.as_str()) {
                        let e = cat3("no ", t.0.as_str(), " defined in board");
                        proof {
                            lemma_layout_err_prefix(self, c@, i + 1, e@);
                        }
                        return Err(e);
                    }
                    match self.place(t) {
                        Some(p) => {
                            if p.owner == Player::White {
                                white.push(p);
                            } else {
                                black.push(p);
                            }
                            assert(crate::board::view_pieces(white@) =~= cementary_layout(self, c@.subrange(0, i + 1))->Ok_0.0);
                            assert(crate::board::view_pieces(black@) =~= cementary_layout(self, c@.subrange(0, i + 1))->Ok_0.1);
                        },
                        None => {
                            let e = crate::text::text("cannot set owner");
                            proof {
                                reveal_strlit("cannot set owner");
                                lemma_layout_err_prefix(self, c@, i + 1, e@);
                            }
                            return Err(e);
                        },
                    }
                },
                None => {
                    assert(crate::board::view_pieces(white@) =~= cementary_layout(self, c@.subrange(0, i + 1))->Ok_0.0);
                },
            }
            i += 1;
        }
        assert(c@.subrange(0, i as int) =~= c@);
        Ok((white, black))
    }

    /// The board laid out as a board file says: the grid replaced by `grid`, when given, and
    /// the cementaries by the pieces `cementaries` lists, when given; an error when a listed
    /// cementary piece has an unknown kind (`no <kind> defined in board`) or a wrong owner
    /// (`cannot set owner`). A grid square whose kind or owner is wrong stays empty.
    pub fn lay_out(self, grid: Option<Vec<Vec<Option<Placement>>>>, cementaries: Option<Vec<Option<Placement>>>) -> (r: Result<Board, String>)
        ensures
            r is Err <==> (cementaries matches Some(c) && cementary_layout(&self, c@) is Err),
            match r {
                Ok(b) => laid_out(&self, grid, cementaries, &b),
                Err(e) => cementaries matches Some(c) && cementary_layout(&self, c@) == Err::<(Seq<PieceView>, Seq<PieceView>), Seq<char>>(e@),
            },
    {
        let ghost start = self;
        let mut b = self;
        let laid = match &cementaries {
            Some(c) => match b.cementaries_from(c) {
                Ok(p) => Some(p),
                Err(e) => return Err(e),
            },
            None => None,
        };
        match &grid {
            Some(g) => {
                let rows = b.grid_from(g);
                b.board = rows;
                assert(grid_laid_out(&start, g@, &b));
            },
            None => {},
        }
        match laid {
            Some(p) => {
                b.cementaries = p;
            },
            None => {},
        }
        Ok(b)
    }

    /// Whether every square inside the board's size is a square of its grid.
    pub fn covers_size(&self) -> (r: bool)
        ensures
            r == grid_covers_size(self),
    {
        if (self.board.len() as u64) < (self.size.0 as u64) {
            return false;
        }
        let mut x: u32 = 0;
        while x < self.size.0
            invariant
                x <= self.size.0,
                self.size.0 <= self.board@.len(),
                forall|i: int| 0 <= i < x ==> self.size.1 <= (#[trigger] self.board@[i])@.len(),
            decreases self.size.0 - x,
        {
            if (self.board[x as usize].len() as u64) < (self.size.1 as u64) {
                return false;
            }
            x += 1;
        }
        true
    }

    /// The board, when every piece on it or in a cementary records an id under `id` and no two
    /// the same; otherwise the error `ids not distinct`.
    pub fn validated(self) -> (r: Result<Board, String>)
        requires
            grid_covers_size(&self),
        ensures
            r is Ok <==> (board_ids(&self) matches Some(s) && s.no_duplicates()),
            match r {
                Ok(b) => b == self,
                Err(e) => e@ == "ids not distinct"@,
            },
    {
        if self.check_ids() {
            Ok(self)
        } else {
            proof {
                reveal_strlit("ids not distinct");
            }
            Err(crate::text::text("ids not distinct"))
        }
    }
}

} // verus!
