//! The ids that tell the pieces of a game apart.
use vstd::prelude::*;
use crate::board::{cell_view, Board};
use crate::piece::{Piece, PieceView};
use crate::rule::{RuleExpression, RuleValue};

verus! {

/// The id a piece's memory records under `id`, when it is an integer.
pub open spec fn piece_id(p: PieceView) -> Option<i32> {
    if p.memory.contains_key("id"@) {
        match p.memory["id"@] {
            RuleValue::Integer(n) => Some(n),
            _ => None,
        }
    } else {
        None
    }
}

/// The ids of a list of pieces, in order; nothing when one of them records none.
pub open spec fn pieces_ids(s: Seq<Piece>) -> Option<Seq<i32>>
    decreases s.len(),
{
    if s.len() == 0 {
        Some(Seq::empty())
    } else {
        match (pieces_ids(s.drop_last()), piece_id(s.last()@)) {
            (Some(a), Some(i)) => Some(a.push(i)),
            _ => None,
        }
    }
}

/// The ids of the pieces on the first `n` squares of row `x`; nothing when one of them records
/// none.
pub open spec fn row_ids(b: &Board, x: int, n: int) -> Option<Seq<i32>>
    decreases n,
{
    if n <= 0 {
        Some(Seq::empty())
    } else {
        match row_ids(b, x, n - 1) {
            Some(a) => match cell_view(b, x, n - 1) {
                None => Some(a),
                Some(p) => match piece_id(p) {
                    Some(i) => Some(a.push(i)),
                    None => None,
                },
            },
            None => None,
        }
    }
}

/// The ids of the pieces on the first `n` rows, each as wide as the board; nothing when one of
/// them records none.
pub open spec fn grid_ids(b: &Board, n: int) -> Option<Seq<i32>>
    decreases n,
{
    if n <= 0 {
        Some(Seq::empty())
    } else {
        match (grid_ids(b, n - 1), row_ids(b, n - 1, b.size.1 as int)) {
            (Some(a), Some(c)) => Some(a + c),
            _ => None,
        }
    }
}

/// The ids of every piece of a game: White's cementary, Black's, then the board row by row;
/// nothing when a piece records none.
pub open spec fn board_ids(b: &Board) -> Option<Seq<i32>> {
    match (pieces_ids(b.cementaries.0@), pieces_ids(b.cementaries.1@), grid_ids(b, b.size.0 as int)) {
        (Some(a), Some(c), Some(d)) => Some(a + c + d),
        _ => None,
    }
}

/// Whether every square inside the board's size is a square of the grid.
pub open spec fn grid_covers_size(b: &Board) -> bool {
    b.size.0 <= b.board@.len() && forall|x: int| 0 <= x < b.size.0 ==> b.size.1 <= (#[trigger] b.board@[x])@.len()
}

/// The id a piece records, read from its memory.
fn id_of(p: &Piece) -> (r: Option<i32>)
    ensures
        r == piece_id(p@),
{
    match p.memory.get("id") {
        Some(RuleExpression::Integer(n)) => Some(*n),
        _ => None,
    }
}

/// Appends the ids of a list of pieces; false, and the list left in any state, when one records
/// none.
fn push_ids(s: &Vec<Piece>, ids: &mut Vec<i32>) -> (r: bool)
    ensures
        r <==> pieces_ids(s@) is Some,
        r ==> final(ids)@ == old(ids)@ + pieces_ids(s@)->0,
{
    let mut i: usize = 0;
    while i < s.len()
        invariant
            i <= s@.len(),
            pieces_ids(s@.subrange(0, i as int)) is Some,
            ids@ == old(ids)@ + pieces_ids(s@.subrange(0, i as int))->0,
        decreases s.len() - i,
    {
        proof {
            assert(s@.subrange(0, i + 1).drop_last() =~= s@.subrange(0, i as int));
        }
        match id_of(&s[i]) {
            Some(n) => {
                ids.push(n);
                assert(ids@ =~= old(ids)@ + pieces_ids(s@.subrange(0, i + 1))->0);
            },
            None => {
                proof {
                    lemma_pieces_ids_prefix(s@, i + 1);
                }
                return false;
            },
        }
        i += 1;
    }
    assert(s@.subrange(0, i as int) =~= s@);
    true
}

/// A list whose prefix has a missing id has a missing id.
proof fn lemma_pieces_ids_prefix(s: Seq<Piece>, n: int)
    requires
        0 <= n <= s.len(),
        pieces_ids(s.subrange(0, n)) is None,
    ensures
        pieces_ids(s) is None,
    decreases s.len() - n,
{
    if n < s.len() {
        assert(s.subrange(0, n + 1).drop_last() =~= s.subrange(0, n));
        lemma_pieces_ids_prefix(s, n + 1);
    } else {
        assert(s.subrange(0, n) =~= s);
    }
}

/// A row whose first squares have a missing id has a missing id.
proof fn lemma_row_ids_prefix(b: &Board, x: int, n: int, m: int)
    requires
        0 <= n <= m,
        row_ids(b, x, n) is None,
    ensures
        row_ids(b, x, m) is None,
    decreases m - n,
{
    if n < m {
        lemma_row_ids_prefix(b, x, n + 1, m);
    }
}

/// A grid whose first rows have a missing id has a missing id.
proof fn lemma_grid_ids_prefix(b: &Board, n: int, m: int)
    requires
        0 <= n <= m,
        grid_ids(b, n) is None,
    ensures
        grid_ids(b, m) is None,
    decreases m - n,
{
    if n < m {
        lemma_grid_ids_prefix(b, n + 1, m);
    }
}

/// Whether no integer occurs twice in a list.
fn all_distinct(v: &Vec<i32>) -> (r: bool)
    ensures
        r == v@.no_duplicates(),
{
    let mut i: usize = 0;
    while i < v.len()
        invariant
            i <= v@.len(),
            forall|a: int, c: int| 0 <= a < i && 0 <= c < v@.len() && a != c ==> v@[a] != v@[c],
        decreases v.len() - i,
    {
        let mut j: usize = 0;
        while j < v.len()
            invariant
                i < v@.len(),
                j <= v@.len(),
                forall|a: int, c: int| 0 <= a < i && 0 <= c < v@.len() && a != c ==> v@[a] != v@[c],
                forall|c: int| 0 <= c < j && c != i ==> v@[i as int] != v@[c],
            decreases v.len() - j,
        {
            if j != i && v[i] == v[j] {
                return false;
            }
            j += 1;
        }
        i += 1;
    }
    true
}

impl Board {
    /// Whether every piece of the game, on the board or in a cementary, records an integer id
    /// under `id`, and no two of them the same.
    pub fn check_ids(&self) -> (r: bool)
        requires
            grid_covers_size(self),
        ensures
            r == (board_ids(self) matches Some(s) && s.no_duplicates()),
    {
        let mut ids: Vec<i32> = Vec::new();
        if !push_ids(&self.cementaries.0, &mut ids) {
            return false;
        }
        if !push_ids(&self.cementaries.1, &mut ids) {
            return false;
        }
        let ghost head = ids@;
        let mut x: u32 = 0;
        while x < self.size.0
            invariant
                grid_covers_size(self),
                x <= self.size.0,
                grid_ids(self, x as int) is Some,
                ids@ == head + grid_ids(self, x as int)->0,
            decreases self.size.0 - x,
        {
            let ghost before_row = ids@;
            let mut y: u32 = 0;
            while y < self.size.1
                invariant
                    grid_covers_size(self),
                    x < self.size.0,
                    y <= self.size.1,
                    row_ids(self, x as int, y as int) is Some,
                    ids@ == before_row + row_ids(self, x as int, y as int)->0,
                decreases self.size.1 - y,
            {
                assert(self.size.1 <= self.board@[x as int]@.len());
                match &self.board[x as usize][y as usize] {
                    Some(p) => match id_of(p) {
                        Some(n) => {
                            ids.push(n);
                            assert(ids@ =~= before_row + row_ids(self, x as int, y + 1)->0);
                        },
                        None => {
                            proof {
                                lemma_row_ids_prefix(self, x as int, y + 1, self.size.1 as int);
                                lemma_grid_ids_prefix(self, x + 1, self.size.0 as int);
                            }
                            return false;
                        },
                    },
                    None => {},
                }
                y += 1;
            }
            assert(ids@ =~= head + grid_ids(self, x + 1)->0);
            x += 1;
        }
        assert(ids@ =~= board_ids(self)->0);
        all_distinct(&ids)
    }
}

} // verus!
