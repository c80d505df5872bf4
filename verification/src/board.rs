//! The board: the grid of pieces, the cementaries, the rules that end the game and the history.
use vstd::prelude::*;
use std::collections::VecDeque;
use crate::dict::{DeepCopy, Dict};
use crate::piece::{Piece, PieceView};
use crate::player::Player;
use crate::pmove::{PMove, PMoveView};
use crate::rule::{RuleExpression, RuleValue};
use crate::text::{parse_pair_text, parse_position_text, spec_parse_pair, spec_parse_position};

verus! {

/// A history entry: the move, then the source and the destination.
pub type HistoryEntry = (PMove, ((u32, u32), (u32, u32)));

/// The board of a game.
pub struct Board {
    pub size: (u32, u32),
    pub board: Vec<Vec<Option<Piece>>>,
    /// The kinds of pieces this game knows, by id.
    pub pieces: Dict<Piece>,
    /// White's dead pieces, then Black's.
    pub cementaries: (Vec<Piece>, Vec<Piece>),
    /// When present, the game can only end once this rule holds.
    pub endcondition: Option<RuleExpression>,
    /// White's winning rule, then Black's.
    pub wincondition: (RuleExpression, RuleExpression),
    pub current_player: Player,
    /// The latest moves, the most recent first.
    pub history: VecDeque<HistoryEntry>,
    /// How many moves the history keeps.
    pub history_size: u32,
    /// The rule that decides whether a piece may come back from a cementary.
    pub revive: RuleExpression,
}

/// The piece on a square, if any; squares outside the grid are empty.
pub open spec fn cell(b: &Board, x: int, y: int) -> Option<Piece> {
    if 0 <= x < b.board@.len() && 0 <= y < b.board@[x]@.len() {
        b.board@[x]@[y]
    } else {
        None
    }
}

/// The view of the piece on a square, if any.
pub open spec fn cell_view(b: &Board, x: int, y: int) -> Option<PieceView> {
    match cell(b, x, y) {
        Some(p) => Some(p@),
        None => None,
    }
}

/// Whether a square holds a piece.
pub open spec fn occupied(b: &Board, x: int, y: int) -> bool {
    cell(b, x, y) is Some
}

/// Whether a square lies inside the board's size.
pub open spec fn in_size(b: &Board, x: int, y: int) -> bool {
    0 <= x < b.size.0 && 0 <= y < b.size.1
}

/// Whether the grid has the shape that the size gives.
pub open spec fn grid_fits(b: &Board) -> bool {
    b.board@.len() == b.size.0 && forall|x: int| 0 <= x < b.board@.len() ==> (#[trigger] b.board@[x])@.len() == b.size.1
}

/// The view of a history entry.
pub open spec fn entry_view(e: HistoryEntry) -> (PMoveView, ((u32, u32), (u32, u32))) {
    (e.0@, e.1)
}

/// The views of the history entries, the most recent first.
pub open spec fn history_view(b: &Board) -> Seq<(PMoveView, ((u32, u32), (u32, u32)))> {
    b.history@.map_values(|e: HistoryEntry| entry_view(e))
}

/// Everything a rule leaves as it is: the size, the kinds of pieces, the game-ending rules, the
/// history and the player to move.
pub open spec fn same_frame(a: &Board, b: &Board) -> bool {
    &&& a.size == b.size
    &&& a.pieces@ == b.pieces@
    &&& a.endcondition == b.endcondition
    &&& a.wincondition == b.wincondition
    &&& a.current_player == b.current_player
    &&& a.history == b.history
    &&& a.history_size == b.history_size
    &&& a.revive == b.revive
    &&& a.board@.len() == b.board@.len()
    &&& forall|x: int| 0 <= x < a.board@.len() ==> (#[trigger] a.board@[x])@.len() == b.board@[x]@.len()
}

/// The square `x,y`, parsed; whether it is on the board is not checked.
pub open spec fn spec_valid_position(b: &Board, s: Seq<char>) -> Option<(u32, u32)> {
    match spec_parse_position(s) {
        Some(p) => if p.0 < b.size.0 || p.1 < b.size.1 { Some(p) } else { None },
        None => None,
    }
}

/// The sign of an integer.
pub open spec fn sign(v: int) -> int {
    if v > 0 { 1 } else if v < 0 { -1 } else { 0 }
}

pub open spec fn abs(v: int) -> int {
    if v < 0 { -v } else { v }
}

/// The `k`-th square of the straight line from `from` towards `to`.
pub open spec fn line_point(from: (u32, u32), to: (u32, u32), k: int) -> (int, int) {
    (from.0 + k * sign(to.0 - from.0), from.1 + k * sign(to.1 - from.1))
}

/// The number of steps from `from` to `to` along a straight line or a square diagonal.
pub open spec fn line_steps(from: (u32, u32), to: (u32, u32)) -> int {
    let ax = abs(to.0 - from.0);
    let ay = abs(to.1 - from.1);
    if ax > ay { ax } else { ay }
}

/// Whether `from` and `to` lie on one rank, file or square diagonal, and differ.
pub open spec fn on_line(from: (u32, u32), to: (u32, u32)) -> bool {
    let dx = to.0 - from.0;
    let dy = to.1 - from.1;
    !(dx == 0 && dy == 0) && !(dx != 0 && dy != 0 && abs(dx) != abs(dy))
}

/// Whether a piece stands between `from` and `to`: walking from `from`, some square before `to`
/// holds a piece, and no square before it lies outside the board.
pub open spec fn path_blocked(b: &Board, from: (u32, u32), to: (u32, u32)) -> bool {
    on_line(from, to) && exists|k: int|
        #![trigger line_point(from, to, k)]
        1 <= k < line_steps(from, to) && (forall|j: int|
            1 <= j <= k ==> in_size(b, #[trigger] line_point(from, to, j).0, line_point(from, to, j).1))
            && occupied(b, line_point(from, to, k).0, line_point(from, to, k).1)
}

/// Walking back from `to` reaches, after `k` steps fewer, the square that walking from `from`
/// reaches after `k` steps.
proof fn lemma_line_flip(from: (u32, u32), to: (u32, u32), k: int)
    requires
        on_line(from, to),
    ensures
        on_line(to, from),
        line_steps(to, from) == line_steps(from, to),
        line_point(to, from, line_steps(from, to) - k) == line_point(from, to, k),
{
    let n = line_steps(from, to);
    let dx = to.0 - from.0;
    let dy = to.1 - from.1;
    assert(to.0 == from.0 + n * sign(dx)) by {
        if dx > 0 { assert(sign(dx) == 1); assert(n * sign(dx) == n) by (nonlinear_arith) requires sign(dx) == 1; } else if dx < 0 { assert(sign(dx) == -1); assert(n * sign(dx) == -n) by (nonlinear_arith) requires sign(dx) == -1; } else { assert(sign(dx) == 0); assert(n * sign(dx) == 0) by (nonlinear_arith) requires sign(dx) == 0; }
    }
    assert(to.1 == from.1 + n * sign(dy)) by {
        if dy > 0 { assert(sign(dy) == 1); assert(n * sign(dy) == n) by (nonlinear_arith) requires sign(dy) == 1; } else if dy < 0 { assert(sign(dy) == -1); assert(n * sign(dy) == -n) by (nonlinear_arith) requires sign(dy) == -1; } else { assert(sign(dy) == 0); assert(n * sign(dy) == 0) by (nonlinear_arith) requires sign(dy) == 0; }
    }
    assert(sign(from.0 - to.0) == -sign(dx));
    assert(sign(from.1 - to.1) == -sign(dy));
    assert((n - k) * sign(from.0 - to.0) == k * sign(dx) - n * sign(dx)) by (nonlinear_arith)
        requires sign(from.0 - to.0) == -sign(dx);
    assert((n - k) * sign(from.1 - to.1) == k * sign(dy) - n * sign(dy)) by (nonlinear_arith)
        requires sign(from.1 - to.1) == -sign(dy);
}

/// The squares of the line from `from` to `to` lie between them, so inside the board's size
/// when both ends do.
proof fn lemma_line_in_size(b: &Board, from: (u32, u32), to: (u32, u32), k: int)
    requires
        on_line(from, to),
        0 <= k <= line_steps(from, to),
        in_size(b, from.0 as int, from.1 as int),
        in_size(b, to.0 as int, to.1 as int),
    ensures
        in_size(b, line_point(from, to, k).0, line_point(from, to, k).1),
{
    let n = line_steps(from, to);
    let dx = to.0 - from.0;
    let dy = to.1 - from.1;
    if dx > 0 { assert(sign(dx) == 1); assert(k * sign(dx) == k) by (nonlinear_arith) requires sign(dx) == 1; assert(n * sign(dx) == n); }
    else if dx < 0 { assert(sign(dx) == -1); assert(k * sign(dx) == -k) by (nonlinear_arith) requires sign(dx) == -1; assert(n * sign(dx) == -n); }
    else { assert(sign(dx) == 0); assert(k * sign(dx) == 0) by (nonlinear_arith) requires sign(dx) == 0; }
    if dy > 0 { assert(sign(dy) == 1); assert(k * sign(dy) == k) by (nonlinear_arith) requires sign(dy) == 1; assert(n * sign(dy) == n); }
    else if dy < 0 { assert(sign(dy) == -1); assert(k * sign(dy) == -k) by (nonlinear_arith) requires sign(dy) == -1; assert(n * sign(dy) == -n); }
    else { assert(sign(dy) == 0); assert(k * sign(dy) == 0) by (nonlinear_arith) requires sign(dy) == 0; }
}

/// One direction of `law_path_blocked_symmetric`.
proof fn lemma_blocked_flip(b: &Board, from: (u32, u32), to: (u32, u32))
    requires
        in_size(b, from.0 as int, from.1 as int),
        in_size(b, to.0 as int, to.1 as int),
        path_blocked(b, from, to),
    ensures
        path_blocked(b, to, from),
{
    let n = line_steps(from, to);
    let k = choose|k: int| #![trigger line_point(from, to, k)]
        1 <= k < line_steps(from, to) && (forall|j: int|
            1 <= j <= k ==> in_size(b, #[trigger] line_point(from, to, j).0, line_point(from, to, j).1))
            && occupied(b, line_point(from, to, k).0, line_point(from, to, k).1);
    lemma_line_flip(from, to, k);
    let k2 = n - k;
    assert forall|j: int| 1 <= j <= k2 implies in_size(b, #[trigger] line_point(to, from, j).0, line_point(to, from, j).1) by {
        lemma_line_in_size(b, to, from, j);
    }
    assert(line_point(to, from, k2) == line_point(from, to, k));
    assert(1 <= k2 < line_steps(to, from) && (forall|j: int|
        1 <= j <= k2 ==> in_size(b, #[trigger] line_point(to, from, j).0, line_point(to, from, j).1))
        && occupied(b, line_point(to, from, k2).0, line_point(to, from, k2).1));
}

/// Whether a piece stands between two squares of the board does not depend on which of them
/// the walk starts from.
pub proof fn law_path_blocked_symmetric(b: &Board, from: (u32, u32), to: (u32, u32))
    requires
        in_size(b, from.0 as int, from.1 as int),
        in_size(b, to.0 as int, to.1 as int),
    ensures
        path_blocked(b, from, to) == path_blocked(b, to, from),
{
    if path_blocked(b, from, to) {
        lemma_blocked_flip(b, from, to);
    }
    if path_blocked(b, to, from) {
        lemma_blocked_flip(b, to, from);
    }
}

impl Board {
    /// The piece on a square, if any; squares outside the grid are empty.
    pub fn piece_at(&self, x: u32, y: u32) -> (r: Option<&Piece>)
        ensures
            match r {
                Some(p) => cell(self, x as int, y as int) == Some(*p),
                None => cell(self, x as int, y as int) is None,
            },
    {
        if (x as usize) < self.board.len() && (y as usize) < self.board[x as usize].len() {
            self.board[x as usize][y as usize].as_ref()
        } else {
            None
        }
    }

    /// Puts `v` on a square of the grid; squares outside the grid are left alone.
    pub fn set_cell(&mut self, x: u32, y: u32, v: Option<Piece>)
        ensures
            final(self).board@.len() == old(self).board@.len(),
            forall|i: int| 0 <= i < old(self).board@.len() ==> (#[trigger] final(self).board@[i])@.len() == old(self).board@[i]@.len(),
            forall|i: int, j: int| (i, j) != (x as int, y as int) ==> cell(final(self), i, j) == cell(old(self), i, j),
            0 <= x < old(self).board@.len() && 0 <= y < old(self).board@[x as int]@.len() ==> cell(final(self), x as int, y as int) == v,
            final(self).size == old(self).size,
            final(self).pieces == old(self).pieces,
            final(self).cementaries == old(self).cementaries,
            final(self).endcondition == old(self).endcondition,
            final(self).wincondition == old(self).wincondition,
            final(self).current_player == old(self).current_player,
            final(self).history == old(self).history,
            final(self).history_size == old(self).history_size,
            final(self).revive == old(self).revive,
    {
        if (x as usize) < self.board.len() && (y as usize) < self.board[x as usize].len() {
            let mut row: Vec<Option<Piece>> = Vec::new();
            std::mem::swap(&mut row, &mut self.board[x as usize]);
            row.set(y as usize, v);
            self.board.set(x as usize, row);
        }
    }

    /// Takes the piece off a square, leaving it empty.
    pub fn take_cell(&mut self, x: u32, y: u32) -> (r: Option<Piece>)
        ensures
            r == cell(old(self), x as int, y as int),
            final(self).board@.len() == old(self).board@.len(),
            forall|i: int| 0 <= i < old(self).board@.len() ==> (#[trigger] final(self).board@[i])@.len() == old(self).board@[i]@.len(),
            forall|i: int, j: int| (i, j) != (x as int, y as int) ==> cell(final(self), i, j) == cell(old(self), i, j),
            cell(final(self), x as int, y as int) is None,
            final(self).size == old(self).size,
            final(self).pieces == old(self).pieces,
            final(self).cementaries == old(self).cementaries,
            final(self).endcondition == old(self).endcondition,
            final(self).wincondition == old(self).wincondition,
            final(self).current_player == old(self).current_player,
            final(self).history == old(self).history,
            final(self).history_size == old(self).history_size,
            final(self).revive == old(self).revive,
    {
        if (x as usize) < self.board.len() && (y as usize) < self.board[x as usize].len() {
            let mut row: Vec<Option<Piece>> = Vec::new();
            std::mem::swap(&mut row, &mut self.board[x as usize]);
            let mut p: Option<Piece> = None;
            std::mem::swap(&mut p, &mut row[y as usize]);
            self.board.set(x as usize, row);
            p
        } else {
            None
        }
    }
}

/// Whether a piece's memory records `id` under `id`.
pub open spec fn has_id(p: PieceView, id: i32) -> bool {
    p.memory.contains_key("id"@) && p.memory["id"@] == RuleValue::Integer(id)
}

/// Whether square `(i, j)` comes before square `(x, y)` in row order.
pub open spec fn before(i: int, j: int, x: int, y: int) -> bool {
    i < x || (i == x && j < y)
}

/// The history after `(m, from, to)` is recorded.
pub open spec fn history_after(h: Seq<(PMoveView, ((u32, u32), (u32, u32)))>, size: u32, m: PMoveView, from: (u32, u32), to: (u32, u32)) -> Seq<(PMoveView, ((u32, u32), (u32, u32)))> {
    if size == 0 {
        h
    } else if h.len() == size {
        seq![(m, (from, to))] + h.drop_last()
    } else {
        seq![(m, (from, to))] + h
    }
}

/// A move just recorded is the first entry of a history that keeps any, and the entries before
/// it follow, one place later; the oldest goes once the history is full.
pub proof fn law_recorded_move_comes_first(h: Seq<(PMoveView, ((u32, u32), (u32, u32)))>, size: u32, m: PMoveView, from: (u32, u32), to: (u32, u32))
    requires
        size > 0,
        h.len() <= size,
    ensures
        history_after(h, size, m, from, to)[0] == (m, (from, to)),
        history_after(h, size, m, from, to).len() == (if h.len() == size { h.len() } else { h.len() + 1 }),
        forall|i: int| 1 <= i < history_after(h, size, m, from, to).len() ==> #[trigger] history_after(h, size, m, from, to)[i] == h[i - 1],
{
}

impl Board {
    /// An empty 8 by 8 board with no kinds of pieces, where nobody ever wins, the game never
    /// ends and no piece comes back; the history keeps the last move and White moves first.
    pub fn new() -> (r: Board)
        ensures
            r.size == (8u32, 8u32),
            grid_fits(&r),
            forall|x: int, y: int| !occupied(&r, x, y),
            r.pieces@ == Map::<Seq<char>, PieceView>::empty(),
            r.cementaries.0@.len() == 0,
            r.cementaries.1@.len() == 0,
            r.endcondition == Some(RuleExpression::Boolean(false)),
            r.wincondition == (RuleExpression::Boolean(false), RuleExpression::Boolean(false)),
            r.history@.len() == 0,
            r.history_size == 1,
            r.current_player == Player::White,
            r.revive == RuleExpression::Boolean(false),
    {
        let mut board: Vec<Vec<Option<Piece>>> = Vec::new();
        let mut i: usize = 0;
        while i < 8
            invariant
                i <= 8,
                board@.len() == i,
                forall|x: int| 0 <= x < i ==> (#[trigger] board@[x])@.len() == 8,
                forall|x: int, y: int| 0 <= x < i && 0 <= y < board@[x]@.len() ==> board@[x]@[y] is None,
            decreases 8 - i,
        {
            let mut row: Vec<Option<Piece>> = Vec::new();
            let mut j: usize = 0;
            while j < 8
                invariant
                    j <= 8,
                    row@.len() == j,
                    forall|y: int| 0 <= y < j ==> (#[trigger] row@[y]) is None,
                decreases 8 - j,
            {
                row.push(None);
                j += 1;
            }
            board.push(row);
            i += 1;
        }
        Board {
            size: (8, 8),
            board,
            pieces: Dict::new(),
            cementaries: (Vec::new(), Vec::new()),
            endcondition: Some(RuleExpression::Boolean(false)),
            wincondition: (RuleExpression::Boolean(false), RuleExpression::Boolean(false)),
            history: VecDeque::new(),
            history_size: 1,
            current_player: Player::White,
            revive: RuleExpression::Boolean(false),
        }
    }

    /// Records a move as the most recent in the history, dropping the oldest entry when the
    /// history is full; a history of size 0 records nothing.
    pub fn add_history(&mut self, pmove: PMove, from: (u32, u32), to: (u32, u32))
        ensures
            history_view(final(self)) == history_after(history_view(old(self)), old(self).history_size, pmove@, from, to),
            final(self).size == old(self).size,
            final(self).board == old(self).board,
            final(self).pieces == old(self).pieces,
            final(self).cementaries == old(self).cementaries,
            final(self).endcondition == old(self).endcondition,
            final(self).wincondition == old(self).wincondition,
            final(self).current_player == old(self).current_player,
            final(self).history_size == old(self).history_size,
            final(self).revive == old(self).revive,
    {
        if self.history_size == 0 {
            return;
        }
        if self.history.len() == self.history_size as usize {
            let _ = self.history.pop_back();
        }
        let ghost mid = self.history@;
        self.history.push_front((pmove, (from, to)));
        proof {
            assert(history_view(self) =~= history_after(history_view(old(self)), old(self).history_size, pmove@, from, to));
        }
    }

    /// The entry `idx` moves back in the history, when the history keeps it.
    pub fn get_history(&self, idx: u32) -> (r: Option<HistoryEntry>)
        ensures
            r is None <==> (idx >= self.history_size || idx >= self.history@.len()),
            r matches Some(e) ==> entry_view(e) == history_view(self)[idx as int],
    {
        if idx >= self.history_size || (idx as usize) >= self.history.len() {
            return None;
        }
        let e = &self.history[idx as usize];
        Some((e.0.duplicate(), e.1))
    }

    /// Whether a piece stands on the straight line or square diagonal strictly between `from`
    /// and `to`; squares are looked at from `from` on, and the walk stops at the edge of the
    /// board. Two squares that are equal or not on one line are never blocked.
    pub fn is_path_blocked(&self, from: (u32, u32), to: (u32, u32)) -> (r: bool)
        ensures
            r == path_blocked(self, from, to),
    {
        let (fx, fy) = from;
        let (tx, ty) = to;
        let ddx: i64 = tx as i64 - fx as i64;
        let ddy: i64 = ty as i64 - fy as i64;
        let dx: i64 = if ddx > 0 { 1 } else if ddx < 0 { -1 } else { 0 };
        let dy: i64 = if ddy > 0 { 1 } else if ddy < 0 { -1 } else { 0 };
        if dx == 0 && dy == 0 {
            return false;
        }
        let ax: i64 = if ddx < 0 { -ddx } else { ddx };
        let ay: i64 = if ddy < 0 { -ddy } else { ddy };
        if dx != 0 && dy != 0 && ax != ay {
            return false;
        }
        let steps: i64 = if ax > ay { ax } else { ay };
        let mut x: i64 = fx as i64;
        let mut y: i64 = fy as i64;
        let mut k: i64 = 0;
        while k < steps
            invariant
                0 <= k <= steps,
                steps == line_steps(from, to),
                on_line(from, to),
                dx == sign(to.0 - from.0),
                dy == sign(to.1 - from.1),
                (x as int, y as int) == line_point(from, to, k as int),
                forall|j: int| 1 <= j <= k ==> in_size(self, #[trigger] line_point(from, to, j).0, line_point(from, to, j).1),
                forall|j: int| #![trigger line_point(from, to, j)] 1 <= j <= k ==> !occupied(self, line_point(from, to, j).0, line_point(from, to, j).1),
            decreases steps - k,
        {
            x = x + dx;
            y = y + dy;
            k = k + 1;
            assert((x as int, y as int) == line_point(from, to, k as int)) by (nonlinear_arith)
                requires
                    x == line_point(from, to, k - 1).0 + dx,
                    y == line_point(from, to, k - 1).1 + dy,
                    dx == sign(to.0 - from.0),
                    dy == sign(to.1 - from.1);
            if k == steps {
                proof {
                    assert forall|kk: int| #![trigger line_point(from, to, kk)] 1 <= kk < line_steps(from, to) && (forall|j: int|
                        1 <= j <= kk ==> in_size(self, #[trigger] line_point(from, to, j).0, line_point(from, to, j).1))
                        implies !occupied(self, line_point(from, to, kk).0, line_point(from, to, kk).1) by {
                    }
                }
                return false;
            }
            if x < 0 || y < 0 || x >= self.size.0 as i64 || y >= self.size.1 as i64 {
                proof {
                    assert forall|kk: int| #![trigger line_point(from, to, kk)] 1 <= kk < line_steps(from, to) && (forall|j: int|
                        1 <= j <= kk ==> in_size(self, #[trigger] line_point(from, to, j).0, line_point(from, to, j).1))
                        implies !occupied(self, line_point(from, to, kk).0, line_point(from, to, kk).1) by {
                        if kk >= k {
                            assert(in_size(self, line_point(from, to, k as int).0, line_point(from, to, k as int).1));
                        }
                    }
                }
                return false;
            }
            if self.piece_at(x as u32, y as u32).is_some() {
                return true;
            }
        }
        false
    }
}

impl Board {
    /// Whether a piece stands on `position`.
    pub fn has_piece_at(&self, position: (u32, u32)) -> (r: bool)
        ensures
            r == occupied(self, position.0 as int, position.1 as int),
    {
        self.piece_at(position.0, position.1).is_some()
    }

    /// Reads `x,y` as a square of natural numbers.
    pub fn parse_position(&self, pos_str: &str) -> (r: Option<(u32, u32)>)
        ensures
            r == spec_parse_position(pos_str@),
    {
        parse_position_text(pos_str)
    }

    /// Reads `x,y` as a pair of integers.
    pub fn parse_pair(&self, pos_str: &str) -> (r: Option<(i32, i32)>)
        ensures
            r == spec_parse_pair(pos_str@),
    {
        parse_pair_text(pos_str)
    }

    /// Reads `x,y` as a pair of integers.
    pub fn get_pair(&self, pos: &str) -> (r: Option<(i32, i32)>)
        ensures
            r == spec_parse_pair(pos@),
    {
        self.parse_pair(pos)
    }

    /// Whether `x,y` is a square of the board.
    pub fn is_position_valid(&self, pos_str: &str) -> (r: bool)
        ensures
            r == (spec_parse_position(pos_str@) matches Some(p) && p.0 < self.size.0 && p.1 < self.size.1),
    {
        match self.parse_position(pos_str) {
            Some((x, y)) => x < self.size.0 && y < self.size.1,
            None => false,
        }
    }

    /// Reads `x,y` as a square, refused only when both coordinates lie outside the board.
    pub fn get_valid_position(&self, pos: &str) -> (r: Option<(u32, u32)>)
        ensures
            r == spec_valid_position(self, pos@),
    {
        match self.parse_position(pos) {
            Some(a) => if a.0 < self.size.0 || a.1 < self.size.1 { Some(a) } else { None },
            None => None,
        }
    }

    /// The square `pos1` shifted by `pos2`, when it lies on the board.
    pub fn get_position_from_relative(&self, pos1: &str, pos2: (u32, u32)) -> (r: Option<(u32, u32)>)
        ensures
            r == (match spec_parse_position(pos1@) {
                Some(p) => if p.0 + pos2.0 < self.size.0 && p.1 + pos2.1 < self.size.1 {
                    Some(((p.0 + pos2.0) as u32, (p.1 + pos2.1) as u32))
                } else {
                    None
                },
                None => None,
            }),
    {
        match self.parse_position(pos1) {
            Some(p) => {
                let a: u64 = p.0 as u64 + pos2.0 as u64;
                let b: u64 = p.1 as u64 + pos2.1 as u64;
                if a < self.size.0 as u64 && b < self.size.1 as u64 {
                    Some((a as u32, b as u32))
                } else {
                    None
                }
            },
            None => None,
        }
    }

    /// The square `pos1` shifted forward by `pos2` for a pawn of White (towards higher
    /// coordinates, when on the board), or backward for a pawn of Black (when not below 0).
    pub fn get_position_from_pawn_relative(&self, pos1: &str, pos2: (u32, u32), white: bool) -> (r: Option<(u32, u32)>)
        ensures
            r == (match spec_parse_position(pos1@) {
                Some(p) => if white {
                    if p.0 + pos2.0 < self.size.0 && p.1 + pos2.1 < self.size.1 {
                        Some(((p.0 + pos2.0) as u32, (p.1 + pos2.1) as u32))
                    } else {
                        None
                    }
                } else if p.0 < pos2.0 || p.1 < pos2.1 {
                    None
                } else {
                    Some(((p.0 - pos2.0) as u32, (p.1 - pos2.1) as u32))
                },
                None => None,
            }),
    {
        if white {
            return self.get_position_from_relative(pos1, pos2);
        }
        match self.parse_position(pos1) {
            Some(p) => if p.0 < pos2.0 || p.1 < pos2.1 {
                None
            } else {
                Some((p.0 - pos2.0, p.1 - pos2.1))
            },
            None => None,
        }
    }

    /// The first square, in row order, whose piece's memory records `id` under `id`.
    pub fn find_piece_creation_id(&self, piece_id: i32) -> (r: Option<(u32, u32)>)
        ensures
            match r {
                Some((x, y)) => cell_view(self, x as int, y as int) matches Some(p) && has_id(p, piece_id)
                    && forall|i: int, j: int| 0 <= i <= u32::MAX && 0 <= j <= u32::MAX && before(i, j, x as int, y as int) ==> !(#[trigger] cell_view(self, i, j) matches Some(q) && has_id(q, piece_id)),
                None => forall|i: int, j: int| 0 <= i <= u32::MAX && 0 <= j <= u32::MAX ==> !(#[trigger] cell_view(self, i, j) matches Some(q) && has_id(q, piece_id)),
            },
    {
        let rows = if self.board.len() > u32::MAX as usize { u32::MAX as usize + 1 } else { self.board.len() };
        let mut i: usize = 0;
        while i < rows
            invariant
                rows <= self.board@.len(),
                rows <= u32::MAX + 1,
                rows == self.board@.len() || rows == u32::MAX + 1,
                i <= rows,
                forall|a: int, b: int| 0 <= a < i && 0 <= b <= u32::MAX ==> !(#[trigger] cell_view(self, a, b) matches Some(q) && has_id(q, piece_id)),
                forall|a: int, b: int| 0 <= a < i && b < 0 ==> !(#[trigger] cell_view(self, a, b) matches Some(q) && has_id(q, piece_id)),
            decreases rows - i,
        {
            let len = self.board[i].len();
            let cols = if len > u32::MAX as usize { u32::MAX as usize + 1 } else { len };
            let mut j: usize = 0;
            while j < cols
                invariant
                    i < rows,
                    rows <= self.board@.len(),
                    rows <= u32::MAX + 1,
                    len == self.board@[i as int]@.len(),
                    cols <= len,
                    cols <= u32::MAX + 1,
                    cols == len || cols == u32::MAX + 1,
                    j <= cols,
                    forall|a: int, b: int| 0 <= a < i && 0 <= b <= u32::MAX ==> !(#[trigger] cell_view(self, a, b) matches Some(q) && has_id(q, piece_id)),
                    forall|b: int| 0 <= b < j ==> !(#[trigger] cell_view(self, i as int, b) matches Some(q) && has_id(q, piece_id)),
                decreases cols - j,
            {
                if let Some(p) = &self.board[i][j] {
                    if let Some(v) = p.memory.get("id") {
                        if let RuleExpression::Integer(n) = v {
                            if *n == piece_id {
                                return Some((i as u32, j as u32));
                            }
                        }
                    }
                }
                j += 1;
            }
            i += 1;
        }
        None
    }
}

/// The views of a list of pieces.
pub open spec fn view_pieces(s: Seq<Piece>) -> Seq<PieceView> {
    s.map_values(|p: Piece| p@)
}

/// The view of an optional rule.
pub open spec fn opt_rule_view(o: Option<RuleExpression>) -> Option<RuleValue> {
    match o {
        Some(e) => Some(e@),
        None => None,
    }
}

/// Whether `b` holds the same game as `a`.
pub open spec fn same_board(a: &Board, b: &Board) -> bool {
    &&& a.size == b.size
    &&& a.board@.len() == b.board@.len()
    &&& forall|x: int| 0 <= x < a.board@.len() ==> (#[trigger] a.board@[x])@.len() == b.board@[x]@.len()
    &&& forall|x: int, y: int| #[trigger] cell_view(a, x, y) == cell_view(b, x, y)
    &&& a.pieces@ == b.pieces@
    &&& view_pieces(a.cementaries.0@) == view_pieces(b.cementaries.0@)
    &&& view_pieces(a.cementaries.1@) == view_pieces(b.cementaries.1@)
    &&& opt_rule_view(a.endcondition) == opt_rule_view(b.endcondition)
    &&& a.wincondition.0@ == b.wincondition.0@
    &&& a.wincondition.1@ == b.wincondition.1@
    &&& a.current_player == b.current_player
    &&& history_view(a) == history_view(b)
    &&& a.history_size == b.history_size
    &&& a.revive@ == b.revive@
}

/// Copies a list of pieces.
pub fn copy_pieces(v: &Vec<Piece>) -> (r: Vec<Piece>)
    ensures
        view_pieces(r@) == view_pieces(v@),
{
    let mut out: Vec<Piece> = Vec::new();
    let mut i: usize = 0;
    while i < v.len()
        invariant
            i <= v.len(),
            out@.len() == i,
            forall|j: int| 0 <= j < i ==> (#[trigger] out@[j])@ == v@[j]@,
        decreases v.len() - i,
    {
        out.push(v[i].duplicate());
        i += 1;
    }
    assert(view_pieces(out@) =~= view_pieces(v@));
    out
}

/// Copies a row of squares.
pub fn copy_row(v: &Vec<Option<Piece>>) -> (r: Vec<Option<Piece>>)
    ensures
        r@.len() == v@.len(),
        forall|j: int| 0 <= j < v@.len() ==> match (#[trigger] r@[j], v@[j]) {
            (Some(a), Some(b)) => a@ == b@,
            (None, None) => true,
            _ => false,
        },
{
    let mut out: Vec<Option<Piece>> = Vec::new();
    let mut i: usize = 0;
    while i < v.len()
        invariant
            i <= v.len(),
            out@.len() == i,
            forall|j: int| 0 <= j < i ==> match (#[trigger] out@[j], v@[j]) {
                (Some(a), Some(b)) => a@ == b@,
                (None, None) => true,
                _ => false,
            },
        decreases v.len() - i,
    {
        let c = match &v[i] {
            Some(p) => Some(p.duplicate()),
            None => None,
        };
        out.push(c);
        i += 1;
    }
    out
}

impl Board {
    /// A copy of the board.
    pub fn duplicate(&self) -> (r: Board)
        ensures
            same_board(self, &r),
    {
        let mut grid: Vec<Vec<Option<Piece>>> = Vec::new();
        let mut i: usize = 0;
        while i < self.board.len()
            invariant
                i <= self.board@.len(),
                grid@.len() == i,
                forall|x: int| 0 <= x < i ==> (#[trigger] grid@[x])@.len() == self.board@[x]@.len(),
                forall|x: int, y: int| 0 <= x < i && 0 <= y < self.board@[x]@.len() ==> match (#[trigger] grid@[x]@[y], self.board@[x]@[y]) {
                    (Some(a), Some(b)) => a@ == b@,
                    (None, None) => true,
                    _ => false,
                },
            decreases self.board.len() - i,
        {
            grid.push(copy_row(&self.board[i]));
            i += 1;
        }
        let mut history: VecDeque<HistoryEntry> = VecDeque::new();
        let mut k: usize = 0;
        while k < self.history.len()
            invariant
                k <= self.history@.len(),
                history@.len() == k,
                forall|j: int| 0 <= j < k ==> entry_view(#[trigger] history@[j]) == entry_view(self.history@[j]),
            decreases self.history.len() - k,
        {
            let e = &self.history[k];
            history.push_back((e.0.duplicate(), e.1));
            k += 1;
        }
        let r = Board {
            size: self.size,
            board: grid,
            pieces: self.pieces.deep_copy(),
            cementaries: (copy_pieces(&self.cementaries.0), copy_pieces(&self.cementaries.1)),
            endcondition: match &self.endcondition {
                Some(e) => Some(e.duplicate()),
                None => None,
            },
            wincondition: (self.wincondition.0.duplicate(), self.wincondition.1.duplicate()),
            current_player: self.current_player,
            history,
            history_size: self.history_size,
            revive: self.revive.duplicate(),
        };
        assert(history_view(&r) =~= history_view(self));
        r
    }

    /// Adds a kind of piece under its id, unless the game already knows that id.
    pub fn add_piece2(&mut self, piece: Piece) -> (r: Result<(), String>)
        ensures
            old(self).pieces@.contains_key(piece.id@) ==> r is Err && final(self).pieces@ == old(self).pieces@,
            !old(self).pieces@.contains_key(piece.id@) ==> r is Ok && final(self).pieces@ == old(self).pieces@.insert(piece.id@, piece@),
            r matches Err(e) ==> e@ == "piece already on board"@,
            final(self).board == old(self).board,
            final(self).cementaries == old(self).cementaries,
            final(self).size == old(self).size,
            final(self).history == old(self).history,
            final(self).history_size == old(self).history_size,
            final(self).current_player == old(self).current_player,
            final(self).endcondition == old(self).endcondition,
            final(self).wincondition == old(self).wincondition,
            final(self).revive == old(self).revive,
    {
        if self.pieces.contains_key(piece.id.as_str()) {
            Err(crate::text::text("piece already on board"))
        } else {
            let id = piece.id.clone();
            self.pieces.insert(id, piece);
            Ok(())
        }
    }

    /// Adds a kind of piece under its id, replacing any kind the game knew under that id.
    pub fn register_piece(&mut self, piece: Piece)
        ensures
            final(self).pieces@ == old(self).pieces@.insert(piece.id@, piece@),
            final(self).board == old(self).board,
            final(self).cementaries == old(self).cementaries,
            final(self).size == old(self).size,
            final(self).history == old(self).history,
            final(self).history_size == old(self).history_size,
            final(self).current_player == old(self).current_player,
            final(self).endcondition == old(self).endcondition,
            final(self).wincondition == old(self).wincondition,
            final(self).revive == old(self).revive,
    {
        let id = piece.id.clone();
        self.pieces.insert(id, piece);
    }
}

/// Two different squares of the board on one rank, file or square diagonal are blocked exactly
/// when a square strictly between them, reached from `from` by whole steps of one square
/// towards `to`, holds a piece; this holds whatever the direction of the line, ranks and files
/// included.
pub proof fn law_path_blocked_between(b: &Board, from: (u32, u32), to: (u32, u32))
    requires
        in_size(b, from.0 as int, from.1 as int),
        in_size(b, to.0 as int, to.1 as int),
    ensures
        path_blocked(b, from, to) <==> (from != to
            && (from.0 == to.0 || from.1 == to.1 || abs(to.0 - from.0) == abs(to.1 - from.1))
            && exists|k: int| #![trigger line_point(from, to, k)]
                1 <= k < (if abs(to.0 - from.0) > abs(to.1 - from.1) { abs(to.0 - from.0) } else { abs(to.1 - from.1) })
                && cell(b, from.0 + k * sign(to.0 - from.0), from.1 + k * sign(to.1 - from.1)) is Some
                && line_point(from, to, k) == (from.0 + k * sign(to.0 - from.0), from.1 + k * sign(to.1 - from.1))),
{
    if path_blocked(b, from, to) {
        let k = choose|k: int| #![trigger line_point(from, to, k)]
            1 <= k < line_steps(from, to) && (forall|j: int|
                1 <= j <= k ==> in_size(b, #[trigger] line_point(from, to, j).0, line_point(from, to, j).1))
                && occupied(b, line_point(from, to, k).0, line_point(from, to, k).1);
        assert(line_point(from, to, k) == (from.0 + k * sign(to.0 - from.0), from.1 + k * sign(to.1 - from.1)));
    }
    if from != to && (from.0 == to.0 || from.1 == to.1 || abs(to.0 - from.0) == abs(to.1 - from.1))
        && exists|k: int| #![trigger line_point(from, to, k)]
            1 <= k < (if abs(to.0 - from.0) > abs(to.1 - from.1) { abs(to.0 - from.0) } else { abs(to.1 - from.1) })
            && cell(b, from.0 + k * sign(to.0 - from.0), from.1 + k * sign(to.1 - from.1)) is Some
            && line_point(from, to, k) == (from.0 + k * sign(to.0 - from.0), from.1 + k * sign(to.1 - from.1)) {
        let k = choose|k: int| #![trigger line_point(from, to, k)]
            1 <= k < (if abs(to.0 - from.0) > abs(to.1 - from.1) { abs(to.0 - from.0) } else { abs(to.1 - from.1) })
            && cell(b, from.0 + k * sign(to.0 - from.0), from.1 + k * sign(to.1 - from.1)) is Some
            && line_point(from, to, k) == (from.0 + k * sign(to.0 - from.0), from.1 + k * sign(to.1 - from.1));
        assert(on_line(from, to));
        assert forall|j: int| 1 <= j <= k implies in_size(b, #[trigger] line_point(from, to, j).0, line_point(from, to, j).1) by {
            lemma_line_in_size(b, from, to, j);
        }
        assert(occupied(b, line_point(from, to, k).0, line_point(from, to, k).1));
    }
}

} // verus!
