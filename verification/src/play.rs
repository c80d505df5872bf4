//! Playing: the end of the game, moves, revivals and the search for a mate.
use vstd::prelude::*;
use std::sync::mpsc::{Receiver, Sender};
use crate::board::{Board, HistoryEntry, before, cell, cell_view, has_id, history_after, history_view, in_size, same_board, same_frame, view_pieces};
use crate::channel::{elapsed_millis, clock_now, input_channel, reply_channel};
use std::time::Instant;
use crate::dict::Dict;
use crate::eval::{api_free, is_value, lemma_same_frame_trans, level, MATE_NESTING, pure_eval};
use crate::gamestate::GameState;
use crate::piece::{Piece, PieceView};
use crate::player::Player;
use crate::pmove::PMove;
use crate::rule::{RuleExpression, RuleValue};
use crate::rules::{RuleKind, attack_pred, lemma_attack_pred_player, board_api_free, grid_squares, moves_api_free, silent_at, with_player};
use crate::text::{int_text, int_to_text, pair_text, pair_to_text, text};

verus! {

/// The kinds of outcome of a turn.
pub enum Outcome {
    BlackWins,
    WhiteWins,
    Draw,
    Continue,
    Failed,
}

/// The kind of outcome of a turn's result.
pub open spec fn outcome_of(r: Result<GameState, String>) -> Outcome {
    match r {
        Ok(GameState::BlackWins) => Outcome::BlackWins,
        Ok(GameState::WhiteWins) => Outcome::WhiteWins,
        Ok(GameState::Draw) => Outcome::Draw,
        Ok(GameState::Continue) => Outcome::Continue,
        _ => Outcome::Failed,
    }
}

/// Whether the rules that end the game call the board nowhere.
pub open spec fn end_rules_api_free(b: &Board) -> bool {
    &&& (b.endcondition matches Some(e) ==> api_free(e@))
    &&& api_free(b.wincondition.0@)
    &&& api_free(b.wincondition.1@)
}

/// The outcome the end rules give in the context `ctx`: with an end condition, the game goes on
/// while it is false; then White wins when only White's rule holds, Black when only Black's
/// does, and it is a draw when both hold, or when neither holds but there is an end condition.
pub open spec fn spec_outcome(b: &Board, ctx: Map<Seq<char>, Seq<char>>) -> Outcome {
    let end = match b.endcondition {
        Some(e) => Some(pure_eval(e@, ctx)),
        None => None,
    };
    if end matches Some(RuleValue::Boolean(false)) {
        Outcome::Continue
    } else if end is Some && !(end matches Some(RuleValue::Boolean(true))) {
        Outcome::Failed
    } else {
        match (pure_eval(b.wincondition.0@, ctx), pure_eval(b.wincondition.1@, ctx)) {
            (RuleValue::Boolean(w), RuleValue::Boolean(bl)) => {
                if w == bl {
                    if end is Some || w { Outcome::Draw } else { Outcome::Continue }
                } else if w {
                    Outcome::WhiteWins
                } else {
                    Outcome::BlackWins
                }
            },
            _ => Outcome::Failed,
        }
    }
}

/// The outcome the values of the end rules give (see `spec_outcome`): `end` is that of the end
/// condition, when the board has one, `w` and `k` those of White's and Black's rules.
pub open spec fn outcome_from(end: Option<RuleValue>, w: RuleValue, k: RuleValue) -> Outcome {
    if end matches Some(RuleValue::Boolean(false)) {
        Outcome::Continue
    } else if end is Some && !(end matches Some(RuleValue::Boolean(true))) {
        Outcome::Failed
    } else {
        match (w, k) {
            (RuleValue::Boolean(x), RuleValue::Boolean(y)) => {
                if x == y {
                    if end is Some || x { Outcome::Draw } else { Outcome::Continue }
                } else if x {
                    Outcome::WhiteWins
                } else {
                    Outcome::BlackWins
                }
            },
            _ => Outcome::Failed,
        }
    }
}

/// Whether White's rule and then Black's, evaluated from the board `b` and context `c`, may leave
/// the board `bf` (but for the player to move) and the context `cf`, and give with the value `end`
/// of the end condition the outcome of `r`.
pub open spec fn wins_judged(b: Board, c: Dict<String>, bf: Board, cf: Dict<String>, end: Option<RuleValue>,
    r: Result<GameState, String>, nest: u32) -> bool {
    exists|bw: Board, cw: Dict<String>, w: RuleValue, k: RuleValue|
        #![trigger crate::eval::evaluated(b.wincondition.0@, b, c, bw, cw, w, 0, false, false, nest), crate::eval::evaluated(b.wincondition.1@, bw, cw, with_player(&bf, b.current_player), cf, k, 0, false, false, nest)]
        crate::eval::evaluated(b.wincondition.0@, b, c, bw, cw, w, 0, false, false, nest)
        && crate::eval::evaluated(b.wincondition.1@, bw, cw, with_player(&bf, b.current_player), cf, k, 0, false, false, nest)
        && outcome_of(r) == outcome_from(end, w, k)
}

/// Whether deciding the end of the game from the board `b0` and context `c0` may give `r`,
/// leaving the board `bf` (but for the player to move) and the context `cf`: the end condition,
/// if any, is evaluated first; unless it is true the outcome follows from it alone; then
/// White's rule and Black's are evaluated in turn (see `wins_judged`). Each rule may call the
/// board (see `evaluated`).
pub open spec fn end_judged(b0: Board, c0: Dict<String>, bf: Board, cf: Dict<String>, r: Result<GameState, String>, nest: u32) -> bool {
    match b0.endcondition {
        None => wins_judged(b0, c0, bf, cf, None, r, nest),
        Some(e) => exists|bm: Board, cm: Dict<String>, x: RuleValue|
            #![trigger crate::eval::evaluated(e@, b0, c0, bm, cm, x, 0, false, false, nest)]
            crate::eval::evaluated(e@, b0, c0, bm, cm, x, 0, false, false, nest) && if x == RuleValue::Boolean(true) {
                wins_judged(bm, cm, bf, cf, Some(x), r, nest)
            } else {
                outcome_of(r) == outcome_from(Some(x), RuleValue::Void, RuleValue::Void)
                    && with_player(&bf, b0.current_player) == bm && cf == cm
            },
    }
}

/// `a` and `b` are alike but for the player to move.
pub open spec fn same_frame_but_player(a: &Board, b: &Board) -> bool {
    same_frame(a, &with_player(b, a.current_player))
}

impl Board {
    /// Decides whether the game has ended: see `spec_outcome`. When it goes on, the other
    /// player is to move.
    pub fn get_game_state(&mut self, context: &mut Dict<String>) -> (r: Result<GameState, String>)
        ensures
            same_frame_but_player(old(self), final(self)),
            final(self).current_player == (if outcome_of(r) is Continue { old(self).current_player.spec_opponent() } else { old(self).current_player }),
            !(r matches Ok(GameState::Error(_))),
            r matches Err(e) ==> e@ == "In make move: sth went wrong, end result not bool"@ || e@ == "sth went wrong, one of the winconditions not bool"@,
            end_rules_api_free(old(self)) ==> outcome_of(r) == spec_outcome(old(self), old(context)@)
                && *final(context) == *old(context)
                && *final(self) == with_player(old(self), final(self).current_player),
            end_judged(*old(self), *old(context), *final(self), *final(context), r, MATE_NESTING),
    {
        self.get_game_state_in(context, MATE_NESTING)
    }

    /// `get_game_state`, allowed `nest` more nested searches for a mate.
    pub fn get_game_state_in(&mut self, context: &mut Dict<String>, nest: u32) -> (r: Result<GameState, String>)
        ensures
            same_frame_but_player(old(self), final(self)),
            final(self).current_player == (if outcome_of(r) is Continue { old(self).current_player.spec_opponent() } else { old(self).current_player }),
            !(r matches Ok(GameState::Error(_))),
            r matches Err(e) ==> e@ == "In make move: sth went wrong, end result not bool"@ || e@ == "sth went wrong, one of the winconditions not bool"@,
            end_rules_api_free(old(self)) ==> outcome_of(r) == spec_outcome(old(self), old(context)@)
                && *final(context) == *old(context)
                && *final(self) == with_player(old(self), final(self).current_player),
            end_judged(*old(self), *old(context), *final(self), *final(context), r, nest),
        decreases nest, 30int, 8int, 0int,
    {
        let ghost b0 = *self;
        let ghost c0 = *context;
        let mut ec = false;
        let end_rule = match &self.endcondition {
            Some(e) => Some(e.duplicate()),
            None => None,
        };
        let ghost mut end_val: Option<RuleValue> = None;
        if let Some(e) = end_rule {
            let end = e.evaluate_in(self, context, 0, None, None, false, nest);
            proof {
                end_val = Some(end@);
                assert(crate::eval::evaluated(b0.endcondition->Some_0@, b0, c0, *self, *context, end@, 0, false, false, nest));
            }
            ec = true;
            match end {
                RuleExpression::Boolean(x) => {
                    if !x {
                        let ghost bm = *self;
                        self.current_player = self.current_player.opponent();
                        proof {
                            assert(with_player(self, b0.current_player) == bm);
                        }
                        return Ok(GameState::Continue);
                    }
                },
                _ => {
                    return Err(text("In make move: sth went wrong, end result not bool"));
                },
            }
        }
        let ghost b1 = *self;
        let ghost c1 = *context;
        let w0 = self.wincondition.0.duplicate();
        let white = w0.evaluate_in(self, context, 0, None, None, false, nest);
        let ghost b2 = *self;
        let ghost c2 = *context;
        let w1 = self.wincondition.1.duplicate();
        let black = w1.evaluate_in(self, context, 0, None, None, false, nest);
        let ghost b3 = *self;
        proof {
            lemma_same_frame_trans(&b0, &b1, &b2);
            lemma_same_frame_trans(&b0, &b2, self);
            assert(crate::eval::evaluated(b1.wincondition.0@, b1, c1, b2, c2, white@, 0, false, false, nest));
            assert(crate::eval::evaluated(b1.wincondition.1@, b2, c2, b3, *context, black@, 0, false, false, nest));
        }
        let r = match (&white, &black) {
            (RuleExpression::Boolean(w), RuleExpression::Boolean(b)) => {
                if *w == *b {
                    if ec || *w {
                        Ok(GameState::Draw)
                    } else {
                        self.current_player = self.current_player.opponent();
                        Ok(GameState::Continue)
                    }
                } else if *w {
                    Ok(GameState::WhiteWins)
                } else {
                    Ok(GameState::BlackWins)
                }
            },
            _ => Err(text("sth went wrong, one of the winconditions not bool")),
        };
        proof {
            assert(with_player(self, b1.current_player) == b3);
            assert(ec == (b0.endcondition is Some));
            assert(outcome_of(r) == outcome_from(end_val, white@, black@));
            assert(wins_judged(b1, c1, *self, *context, end_val, r, nest));
        }
        r
    }
}

/// The piece that a capture sends to a cementary: the captured piece, given to the other side.
pub open spec fn captured(p: PieceView) -> PieceView {
    PieceView { owner: p.owner.spec_opponent(), ..p }
}

/// The cementaries after `p` is captured: it joins the cementary of the side it now belongs to,
/// White's first.
pub open spec fn cementaries_after(c: (Seq<PieceView>, Seq<PieceView>), p: Option<PieceView>) -> (Seq<PieceView>, Seq<PieceView>) {
    match p {
        Some(t) => if captured(t).owner == Player::White { (c.0.push(captured(t)), c.1) } else { (c.0, c.1.push(captured(t))) },
        None => c,
    }
}

/// The views of the two cementaries.
pub open spec fn cementary_views(b: &Board) -> (Seq<PieceView>, Seq<PieceView>) {
    (view_pieces(b.cementaries.0@), view_pieces(b.cementaries.1@))
}

/// Whether no rule fires on a move from `o` to `n` by `m`: the moving piece has no rule for the
/// move, the kill and after the move, a piece on `n` has no dying rule, no piece has a passive
/// rule, and the move has no consequences.
pub open spec fn quiet_move(b: &Board, o: (u32, u32), n: (u32, u32), m: &PMove) -> bool {
    &&& silent_at(b, o.0 as int, o.1 as int, RuleKind::Onmove)
    &&& silent_at(b, o.0 as int, o.1 as int, RuleKind::Onkill)
    &&& silent_at(b, o.0 as int, o.1 as int, RuleKind::Aftermove)
    &&& silent_at(b, n.0 as int, n.1 as int, RuleKind::Deathrattle)
    &&& forall|x: int, y: int| silent_at(b, x, y, RuleKind::Passive)
    &&& (m.consequences matches Some(v) ==> v@.len() == 0)
}

/// Whether a move of the piece on `o` is judged without calling the board: its move condition,
/// if any, and the move's own condition call the board nowhere.
pub open spec fn move_judged(b: &Board, o: (u32, u32), m: crate::pmove::PMoveView) -> bool {
    &&& cell_view(b, o.0 as int, o.1 as int) matches Some(p) && (p.movecondition matches Some(c) ==> api_free(c))
    &&& api_free(m.condition)
}

/// The evaluations that judge a move of the piece on `o` to `n` by `m`: in the context that names
/// the two squares, the piece's move condition (when it has one) is evaluated on a copy of the
/// board, giving `x`, and then the move's own condition on another copy, in the context the first
/// left, giving `y`.
pub open spec fn condition_steps(b: &Board, o: (u32, u32), n: (u32, u32), m: crate::pmove::PMoveView,
    c0: Dict<String>, bc1: Board, bm: Board, cm: Dict<String>, x: RuleValue, bc2: Board, b2: Board, c2: Dict<String>, y: RuleValue,
    mate: bool, nest: u32) -> bool {
    &&& c0@ == crate::rules::move_context(o, n)
    &&& same_board(b, &bc1)
    &&& same_board(b, &bc2)
    &&& match cell_view(b, o.0 as int, o.1 as int).unwrap().movecondition {
        Some(c) => crate::eval::evaluated(c, bc1, c0, bm, cm, x, 0, true, mate, nest),
        None => x == RuleValue::Boolean(true) && cm == c0,
    }
    &&& crate::eval::evaluated(m.condition, bc2, cm, b2, c2, y, 0, true, mate, nest)
}

/// Whether judging a move of the piece on `o` to `n` by `m` (see `condition_steps`) may let it
/// go ahead (`ok`): both conditions are `true`.
pub open spec fn move_conditions(b: &Board, o: (u32, u32), n: (u32, u32), m: crate::pmove::PMoveView, mate: bool, nest: u32, ok: bool) -> bool {
    exists|c0: Dict<String>, bc1: Board, bm: Board, cm: Dict<String>, x: RuleValue, bc2: Board, b2: Board, c2: Dict<String>, y: RuleValue|
        #![trigger condition_steps(b, o, n, m, c0, bc1, bm, cm, x, bc2, b2, c2, y, mate, nest)]
        condition_steps(b, o, n, m, c0, bc1, bm, cm, x, bc2, b2, c2, y, mate, nest)
        && ok == (x == RuleValue::Boolean(true) && y == RuleValue::Boolean(true))
}

/// Whether the piece `p` on `o` may make the move `m` to `n`: its move condition, if any, and
/// the move's own condition both hold.
pub open spec fn move_allowed(p: PieceView, o: (u32, u32), n: (u32, u32), m: crate::pmove::PMoveView) -> bool {
    let ctx = crate::rules::move_context(o, n);
    &&& (p.movecondition matches Some(c) ==> crate::rules::cond_true(c, ctx))
    &&& crate::rules::cond_true(m.condition, ctx)
}

/// Whether the squares of `b1` are those of `b0` after the piece on `o` went to `n`.
pub open spec fn moved(b0: &Board, b1: &Board, o: (u32, u32), n: (u32, u32)) -> bool {
    &&& forall|x: int, y: int| (x, y) != (o.0 as int, o.1 as int) && (x, y) != (n.0 as int, n.1 as int)
        ==> #[trigger] cell_view(b1, x, y) == cell_view(b0, x, y)
    &&& o != n ==> cell_view(b1, n.0 as int, n.1 as int) == cell_view(b0, o.0 as int, o.1 as int)
    &&& cell(b1, o.0 as int, o.1 as int) is None
    &&& cementary_views(b1) == cementaries_after(cementary_views(b0), cell_view(b0, n.0 as int, n.1 as int))
}

/// Whether a square lies on the grid itself.
pub open spec fn in_grid(b: &Board, x: int, y: int) -> bool {
    0 <= x < b.board@.len() && 0 <= y < b.board@[x]@.len()
}

/// Whether the rules the piece on `pos` has for the event `k` fired in turn (see `fired`),
/// taking the board `b` and the variables `c` to `b1` and `c1`.
pub open spec fn fired_at(b: Board, c: Dict<String>, pos: (u32, u32), k: RuleKind, b1: Board, c1: Dict<String>, mate: bool, nest: u32) -> bool {
    exists|bs: Seq<Board>, cs: Seq<Dict<String>>|
        #![trigger crate::rules::fired(crate::rules::rules_at(&b, pos.0 as int, pos.1 as int, k), bs, cs, 0, true, mate, nest)]
        crate::rules::fired(crate::rules::rules_at(&b, pos.0 as int, pos.1 as int, k), bs, cs, 0, true, mate, nest)
        && bs[0] == b && bs.last() == b1 && cs[0] == c && cs.last() == c1
}

/// Whether the `i`th of the rules `rs` was evaluated, taking `bs[i]` and `cs[i]` to `bs[i + 1]`
/// and `cs[i + 1]`.
pub open spec fn consequence_step(rs: Seq<RuleValue>, bs: Seq<Board>, cs: Seq<Dict<String>>, i: int, mate: bool, nest: u32) -> bool {
    exists|x: RuleValue| #[trigger] crate::eval::evaluated(rs[i], bs[i], cs[i], bs[i + 1], cs[i + 1], x, 0, true, mate, nest)
}

/// Whether the rules `rs` were evaluated in turn, through the boards `bs` and the variables
/// `cs`.
pub open spec fn evaluated_in_turn(rs: Seq<RuleValue>, bs: Seq<Board>, cs: Seq<Dict<String>>, mate: bool, nest: u32) -> bool {
    &&& bs.len() == rs.len() + 1
    &&& cs.len() == rs.len() + 1
    &&& forall|i: int| 0 <= i < rs.len() ==> #[trigger] consequence_step(rs, bs, cs, i, mate, nest)
}

/// The squares `(x, 0)` to `(x, y - 1)`.
pub open spec fn row_squares(x: u32, y: u32) -> Seq<(u32, u32)>
    decreases y,
{
    if y == 0 { Seq::empty() } else { row_squares(x, (y - 1) as u32).push((x, (y - 1) as u32)) }
}

/// The squares of the first `x` rows of `ny` columns, in row order.
pub open spec fn rows_squares(x: u32, ny: u32) -> Seq<(u32, u32)>
    decreases x,
{
    if x == 0 { Seq::empty() } else { rows_squares((x - 1) as u32, ny) + row_squares((x - 1) as u32, ny) }
}

/// Whether the passive rules of the piece on the `q`th square of `sq` fired, taking `bs[q]` and
/// `cs[q]` to `bs[q + 1]` and `cs[q + 1]`.
pub open spec fn passive_step(sq: Seq<(u32, u32)>, bs: Seq<Board>, cs: Seq<Dict<String>>, q: int, mate: bool, nest: u32) -> bool {
    fired_at(bs[q], cs[q], sq[q], RuleKind::Passive, bs[q + 1], cs[q + 1], mate, nest)
}

/// Whether the passive rules of the pieces on the squares `sq` fired in turn, through the
/// boards `bs` and the variables `cs`.
pub open spec fn passives_fired(sq: Seq<(u32, u32)>, bs: Seq<Board>, cs: Seq<Dict<String>>, mate: bool, nest: u32) -> bool {
    &&& bs.len() == sq.len() + 1
    &&& cs.len() == sq.len() + 1
    &&& forall|q: int| 0 <= q < sq.len() ==> #[trigger] passive_step(sq, bs, cs, q, mate, nest)
}

/// Whether `b1` is `b0` with the piece on `o` taken to `n` (an empty square left behind).
pub open spec fn relocated(b0: &Board, b1: &Board, o: (u32, u32), n: (u32, u32)) -> bool {
    &&& forall|i: int, j: int| (i, j) != (o.0 as int, o.1 as int) && (i, j) != (n.0 as int, n.1 as int) ==> #[trigger] cell(b1, i, j) == cell(b0, i, j)
    &&& o != n ==> cell(b1, n.0 as int, n.1 as int) == cell(b0, o.0 as int, o.1 as int)
    &&& cell(b1, o.0 as int, o.1 as int) is None
    &&& same_frame(b0, b1)
    &&& b1.cementaries == b0.cementaries
}

/// The boards and variables a move passes through (see `move_played`).
pub ghost struct MoveSteps {
    pub c0: Dict<String>,
    pub bc1: Board,
    pub bm: Board,
    pub cm: Dict<String>,
    pub x: RuleValue,
    pub bc2: Board,
    pub b2: Board,
    pub c2: Dict<String>,
    pub y: RuleValue,
    pub started: Board,
    pub d1: Dict<String>,
    pub buried: Board,
    pub died: Board,
    pub d3: Dict<String>,
    pub landed: Board,
    pub killed: Board,
    pub d5: Dict<String>,
    pub cons_boards: Seq<Board>,
    pub cons_contexts: Seq<Dict<String>>,
    pub passive_boards: Seq<Board>,
    pub passive_contexts: Seq<Dict<String>>,
    pub after: Board,
    pub d8: Dict<String>,
    pub recorded: Board,
    pub cf: Dict<String>,
}

/// Whether the move `m` of the piece on `o` to `n` was played on `b0` through the steps `t`,
/// leaving `bf` and the result `r`: both conditions held (see `condition_steps`); the piece's
/// rules for a move fired; a piece on `n` was sent to a cementary and, if there was one, its
/// dying rules fired; the piece went from `o` to `n`; after a capture its rules for a kill
/// fired; the move's consequences were evaluated in turn; the passive rules of every square
/// fired, in row order; the piece's rules for the end of a move fired; the move was recorded;
/// then, with `end`, the end of the game was decided (see `end_judged`), and without it the game
/// goes on.
pub open spec fn move_played(b0: Board, o: (u32, u32), n: (u32, u32), m: crate::pmove::PMoveView, mate: bool, nest: u32, end: bool,
    t: MoveSteps, bf: Board, r: Result<GameState, String>) -> bool {
    let kill = cell(&t.started, n.0 as int, n.1 as int) is Some;
    let cons = match m.consequences { Some(v) => v, None => Seq::empty() };
    &&& condition_steps(&b0, o, n, m, t.c0, t.bc1, t.bm, t.cm, t.x, t.bc2, t.b2, t.c2, t.y, mate, nest)
    &&& t.x == RuleValue::Boolean(true) && t.y == RuleValue::Boolean(true)
    &&& fired_at(b0, t.c2, o, RuleKind::Onmove, t.started, t.d1, mate, nest)
    &&& same_frame(&t.started, &t.buried) && t.buried.board == t.started.board
    &&& cementary_views(&t.buried) == cementaries_after(cementary_views(&t.started), cell_view(&t.started, n.0 as int, n.1 as int))
    &&& kill ==> fired_at(t.buried, t.d1, n, RuleKind::Deathrattle, t.died, t.d3, mate, nest)
    &&& !kill ==> t.died == t.buried && t.d3 == t.d1
    &&& relocated(&t.died, &t.landed, o, n)
    &&& kill ==> fired_at(t.landed, t.d3, n, RuleKind::Onkill, t.killed, t.d5, mate, nest)
    &&& !kill ==> t.killed == t.landed && t.d5 == t.d3
    &&& evaluated_in_turn(cons, t.cons_boards, t.cons_contexts, mate, nest)
    &&& t.cons_boards[0] == t.killed && t.cons_contexts[0] == t.d5
    &&& passives_fired(rows_squares(b0.size.0, b0.size.1), t.passive_boards, t.passive_contexts, mate, nest)
    &&& t.passive_boards[0] == t.cons_boards.last() && t.passive_contexts[0] == t.cons_contexts.last()
    &&& fired_at(t.passive_boards.last(), t.passive_contexts.last(), n, RuleKind::Aftermove, t.after, t.d8, mate, nest)
    &&& history_view(&t.recorded) == history_after(history_view(&t.after), t.after.history_size, m, o, n)
    &&& t.recorded.board == t.after.board && t.recorded.cementaries == t.after.cementaries && t.recorded.size == t.after.size
    &&& end ==> end_judged(t.recorded, t.d8, bf, t.cf, r, nest)
    &&& !end ==> bf == t.recorded && r == Ok::<GameState, String>(GameState::Continue)
}

impl Board {
    /// Sends a piece captured on `pos` to a cementary, given to the other side.
    pub fn bury_copy(&mut self, pos: (u32, u32)) -> (r: bool)
        ensures
            r == (cell(old(self), pos.0 as int, pos.1 as int) is Some),
            cementary_views(final(self)) == cementaries_after(cementary_views(old(self)), cell_view(old(self), pos.0 as int, pos.1 as int)),
            final(self).board == old(self).board,
            same_frame(old(self), final(self)),
    {
        let dead = match self.piece_at(pos.0, pos.1) {
            Some(p) => {
                let mut c = p.duplicate();
                c.owner = p.owner.opponent();
                c
            },
            None => { return false; },
        };
        let ghost dv = dead@;
        match dead.owner {
            Player::White => self.cementaries.0.push(dead),
            Player::Black => self.cementaries.1.push(dead),
        }
        proof {
            assert(view_pieces(self.cementaries.0@) =~= (if dv.owner == Player::White { view_pieces(old(self).cementaries.0@).push(dv) } else { view_pieces(old(self).cementaries.0@) }));
            assert(view_pieces(self.cementaries.1@) =~= (if dv.owner == Player::White { view_pieces(old(self).cementaries.1@) } else { view_pieces(old(self).cementaries.1@).push(dv) }));
        }
        true
    }

    /// Moves the piece on `old_position` to `new_position` by `pmove`, when the piece's move
    /// condition and the move's condition hold (judged on copies of the board): the piece's move
    /// rules fire, a piece on the destination is captured (its dying rule fires), the piece
    /// lands, its kill rules fire, the move's consequences and every passive rule are evaluated,
    /// its after-move rules fire and the move is recorded. With `evaluate_endconditions` the end
    /// of the game is then decided.
    pub fn make_move(
        &mut self,
        old_position: (u32, u32),
        new_position: (u32, u32),
        pmove: PMove,
        sender: &Sender<Option<String>>,
        receiver: &Receiver<String>,
        evaluate_endconditions: bool,
        is_evaluate_mate: bool,
    ) -> (r: Result<GameState, String>)
        ensures
            !(in_size(old(self), old_position.0 as int, old_position.1 as int) && in_size(old(self), new_position.0 as int, new_position.1 as int))
                ==> r is Err && r->Err_0@ == "Out of board"@ && *final(self) == *old(self),
            in_size(old(self), old_position.0 as int, old_position.1 as int) && in_size(old(self), new_position.0 as int, new_position.1 as int)
                && cell(old(self), old_position.0 as int, old_position.1 as int) is None
                ==> r is Err && r->Err_0@ == "Piece doesn't exist"@ && *final(self) == *old(self),
            r is Ok ==> history_view(final(self)) == history_after(history_view(old(self)), old(self).history_size, pmove@, old_position, new_position),
            r is Ok && !evaluate_endconditions ==> (r matches Ok(GameState::Continue)) && final(self).current_player == old(self).current_player,
            r is Ok ==> final(self).current_player == (if outcome_of(r) is Continue && evaluate_endconditions { old(self).current_player.spec_opponent() } else { old(self).current_player }),
            r is Ok ==> final(self).size == old(self).size && final(self).pieces@ == old(self).pieces@ && final(self).history_size == old(self).history_size,
            r is Ok && quiet_move(old(self), old_position, new_position, &pmove) && (evaluate_endconditions ==> end_rules_api_free(old(self)))
                ==> moved(old(self), final(self), old_position, new_position),
            r matches Err(e) && e@ == "Cannot perform move"@ ==> *final(self) == *old(self),
            !evaluate_endconditions && r is Err ==> (r->Err_0@ == "Out of board"@ || r->Err_0@ == "Piece doesn't exist"@ || r->Err_0@ == "Cannot perform move"@),
            in_size(old(self), old_position.0 as int, old_position.1 as int) && in_size(old(self), new_position.0 as int, new_position.1 as int)
                && in_grid(old(self), new_position.0 as int, new_position.1 as int) && cell(old(self), old_position.0 as int, old_position.1 as int) is Some
                ==> !(r matches Err(e) && (e@ == "Out of board"@ || e@ == "Piece doesn't exist"@)),
            in_size(old(self), old_position.0 as int, old_position.1 as int) && in_size(old(self), new_position.0 as int, new_position.1 as int)
                && in_grid(old(self), new_position.0 as int, new_position.1 as int) && move_judged(old(self), old_position, pmove@)
                ==> ((r matches Err(e) && e@ == "Cannot perform move"@)
                    <==> !move_allowed(cell_view(old(self), old_position.0 as int, old_position.1 as int).unwrap(), old_position, new_position, pmove@)),
            in_size(old(self), old_position.0 as int, old_position.1 as int) && in_size(old(self), new_position.0 as int, new_position.1 as int)
                && in_grid(old(self), new_position.0 as int, new_position.1 as int) && move_judged(old(self), old_position, pmove@)
                && move_allowed(cell_view(old(self), old_position.0 as int, old_position.1 as int).unwrap(), old_position, new_position, pmove@)
                && quiet_move(old(self), old_position, new_position, &pmove) && evaluate_endconditions && end_rules_api_free(old(self))
                ==> outcome_of(r) == spec_outcome(old(self), crate::rules::move_context(old_position, new_position)),
            in_size(old(self), old_position.0 as int, old_position.1 as int) && in_size(old(self), new_position.0 as int, new_position.1 as int)
                && in_grid(old(self), new_position.0 as int, new_position.1 as int) && cell(old(self), old_position.0 as int, old_position.1 as int) is Some
                ==> move_conditions(old(self), old_position, new_position, pmove@, is_evaluate_mate, MATE_NESTING, !(r matches Err(e) && e@ == "Cannot perform move"@)),
            evaluate_endconditions && !(r matches Err(e) && (e@ == "Out of board"@ || e@ == "Piece doesn't exist"@ || e@ == "Cannot perform move"@))
                ==> exists|bm: Board, cm: Dict<String>, cf: Dict<String>| #![trigger end_judged(bm, cm, *final(self), cf, r, MATE_NESTING)]
                    end_judged(bm, cm, *final(self), cf, r, MATE_NESTING) && history_view(&bm) == history_after(history_view(old(self)), old(self).history_size, pmove@, old_position, new_position),
            !(r matches Err(e) && (e@ == "Out of board"@ || e@ == "Piece doesn't exist"@ || e@ == "Cannot perform move"@))
                ==> exists|t: MoveSteps| #[trigger] move_played(*old(self), old_position, new_position, pmove@, is_evaluate_mate, MATE_NESTING, evaluate_endconditions, t, *final(self), r),
    {
        self.make_move_in(old_position, new_position, pmove, sender, receiver, evaluate_endconditions, is_evaluate_mate, MATE_NESTING)
    }

    /// `make_move`, allowed `nest` more nested searches for a mate.
    #[verifier::spinoff_prover]
    #[verifier::rlimit(100)]
    pub fn make_move_in(
        &mut self,
        old_position: (u32, u32),
        new_position: (u32, u32),
        pmove: PMove,
        sender: &Sender<Option<String>>,
        receiver: &Receiver<String>,
        evaluate_endconditions: bool,
        is_evaluate_mate: bool,
        nest: u32,
    ) -> (r: Result<GameState, String>)
        ensures
            !(in_size(old(self), old_position.0 as int, old_position.1 as int) && in_size(old(self), new_position.0 as int, new_position.1 as int))
                ==> r is Err && r->Err_0@ == "Out of board"@ && *final(self) == *old(self),
            in_size(old(self), old_position.0 as int, old_position.1 as int) && in_size(old(self), new_position.0 as int, new_position.1 as int)
                && cell(old(self), old_position.0 as int, old_position.1 as int) is None
                ==> r is Err && r->Err_0@ == "Piece doesn't exist"@ && *final(self) == *old(self),
            r is Ok ==> history_view(final(self)) == history_after(history_view(old(self)), old(self).history_size, pmove@, old_position, new_position),
            r is Ok && !evaluate_endconditions ==> (r matches Ok(GameState::Continue)) && final(self).current_player == old(self).current_player,
            r is Ok ==> final(self).current_player == (if outcome_of(r) is Continue && evaluate_endconditions { old(self).current_player.spec_opponent() } else { old(self).current_player }),
            r is Ok ==> final(self).size == old(self).size && final(self).pieces@ == old(self).pieces@ && final(self).history_size == old(self).history_size,
            r is Ok && quiet_move(old(self), old_position, new_position, &pmove) && (evaluate_endconditions ==> end_rules_api_free(old(self)))
                ==> moved(old(self), final(self), old_position, new_position),
            r matches Err(e) && e@ == "Cannot perform move"@ ==> *final(self) == *old(self),
            !evaluate_endconditions && r is Err ==> (r->Err_0@ == "Out of board"@ || r->Err_0@ == "Piece doesn't exist"@ || r->Err_0@ == "Cannot perform move"@),
            in_size(old(self), old_position.0 as int, old_position.1 as int) && in_size(old(self), new_position.0 as int, new_position.1 as int)
                && in_grid(old(self), new_position.0 as int, new_position.1 as int) && cell(old(self), old_position.0 as int, old_position.1 as int) is Some
                ==> !(r matches Err(e) && (e@ == "Out of board"@ || e@ == "Piece doesn't exist"@)),
            in_size(old(self), old_position.0 as int, old_position.1 as int) && in_size(old(self), new_position.0 as int, new_position.1 as int)
                && in_grid(old(self), new_position.0 as int, new_position.1 as int) && move_judged(old(self), old_position, pmove@)
                ==> ((r matches Err(e) && e@ == "Cannot perform move"@)
                    <==> !move_allowed(cell_view(old(self), old_position.0 as int, old_position.1 as int).unwrap(), old_position, new_position, pmove@)),
            in_size(old(self), old_position.0 as int, old_position.1 as int) && in_size(old(self), new_position.0 as int, new_position.1 as int)
                && in_grid(old(self), new_position.0 as int, new_position.1 as int) && move_judged(old(self), old_position, pmove@)
                && move_allowed(cell_view(old(self), old_position.0 as int, old_position.1 as int).unwrap(), old_position, new_position, pmove@)
                && quiet_move(old(self), old_position, new_position, &pmove) && evaluate_endconditions && end_rules_api_free(old(self))
                ==> outcome_of(r) == spec_outcome(old(self), crate::rules::move_context(old_position, new_position)),
            in_size(old(self), old_position.0 as int, old_position.1 as int) && in_size(old(self), new_position.0 as int, new_position.1 as int)
                && in_grid(old(self), new_position.0 as int, new_position.1 as int) && cell(old(self), old_position.0 as int, old_position.1 as int) is Some
                ==> move_conditions(old(self), old_position, new_position, pmove@, is_evaluate_mate, nest, !(r matches Err(e) && e@ == "Cannot perform move"@)),
            evaluate_endconditions && !(r matches Err(e) && (e@ == "Out of board"@ || e@ == "Piece doesn't exist"@ || e@ == "Cannot perform move"@))
                ==> exists|bm: Board, cm: Dict<String>, cf: Dict<String>| #![trigger end_judged(bm, cm, *final(self), cf, r, nest)]
                    end_judged(bm, cm, *final(self), cf, r, nest) && history_view(&bm) == history_after(history_view(old(self)), old(self).history_size, pmove@, old_position, new_position),
            !(r matches Err(e) && (e@ == "Out of board"@ || e@ == "Piece doesn't exist"@ || e@ == "Cannot perform move"@))
                ==> exists|t: MoveSteps| #[trigger] move_played(*old(self), old_position, new_position, pmove@, is_evaluate_mate, nest, evaluate_endconditions, t, *final(self), r),
        decreases nest, 30int, 9int, 0int,
    {
        proof {
            reveal_strlit("Out of board");
            reveal_strlit("Piece doesn't exist");
            reveal_strlit("Cannot perform move");
            reveal_strlit("In make move: sth went wrong, end result not bool");
            reveal_strlit("sth went wrong, one of the winconditions not bool");
            assert("Cannot perform move"@.len() != "Out of board"@.len());
            assert("Cannot perform move"@[0] != "Piece doesn't exist"@[0]);
            assert("In make move: sth went wrong, end result not bool"@.len() != "Out of board"@.len());
            assert("In make move: sth went wrong, end result not bool"@.len() != "Piece doesn't exist"@.len());
            assert("sth went wrong, one of the winconditions not bool"@.len() != "Out of board"@.len());
            assert("sth went wrong, one of the winconditions not bool"@.len() != "Piece doesn't exist"@.len());
        }
        let (x1, y1) = old_position;
        let (x2, y2) = new_position;
        if x1 >= self.size.0 || y1 >= self.size.1 || x2 >= self.size.0 || y2 >= self.size.1 {
            return Err(text("Out of board"));
        }
        let movecondition = match self.piece_at(x1, y1) {
            Some(p) => match &p.movecondition {
                Some(c) => Some(c.duplicate()),
                None => None,
            },
            None => { return Err(text("Piece doesn't exist")); },
        };
        if (x2 as usize) >= self.board.len() || (y2 as usize) >= self.board[x2 as usize].len() {
            return Err(text("Out of board"));
        }
        let mut context: Dict<String> = Dict::new();
        context.insert(text("new_position"), pair_to_text(x2 as i64, y2 as i64));
        context.insert(text("old_position"), pair_to_text(x1 as i64, y1 as i64));
        let ghost judged = move_judged(self, old_position, pmove@);
        let ghost pv = cell_view(self, x1 as int, y1 as int).unwrap();
        let ghost ctx = crate::rules::move_context(old_position, new_position);
        proof {
            reveal_strlit("new_position");
            reveal_strlit("old_position");
            assert("new_position"@ != "old_position"@) by { assert("new_position"@[0] != "old_position"@[0]); }
            assert(context@ =~= ctx);
        }
        let ghost c0 = context;
        let ghost mut bc1: Board = *self;
        let ghost mut bm: Board = *self;
        let ghost mut xv: RuleValue = RuleValue::Boolean(true);
        let condition_met = match &movecondition {
            None => true,
            Some(c) => {
                let mut board_clone = self.duplicate();
                proof { bc1 = board_clone; }
                let v = c.evaluate_in(&mut board_clone, &mut context, 0, Some(sender), Some(receiver), is_evaluate_mate, nest);
                proof {
                    bm = board_clone;
                    xv = v@;
                }
                if let RuleExpression::Boolean(true) = v { true } else { false }
            },
        };
        let ghost cm = context;
        proof {
            if judged {
                assert(context@ == ctx);
                assert(condition_met == (pv.movecondition matches Some(c) ==> crate::rules::cond_true(c, ctx)));
            }
        }
        let mut board_clone = self.duplicate();
        let ghost bc2 = board_clone;
        let v = pmove.condition.evaluate_in(&mut board_clone, &mut context, 0, Some(sender), Some(receiver), is_evaluate_mate, nest);
        let move_possible = if let RuleExpression::Boolean(true) = v { true } else { false };
        proof {
            assert(condition_steps(self, old_position, new_position, pmove@, c0, bc1, bm, cm, xv, bc2, board_clone, context, v@, is_evaluate_mate, nest));
            assert(condition_met == (xv == RuleValue::Boolean(true)));
        }
        proof {
            if judged {
                assert(move_possible == crate::rules::cond_true(pmove@.condition, ctx));
                assert(context@ == ctx);
            }
        }
        let ghost cb2 = board_clone;
        let ghost cc2 = context;
        let ghost yv = v@;
        if !condition_met || !move_possible {
            return Err(text("Cannot perform move"));
        }
        proof {
            reveal_strlit("Cannot perform move");
            reveal_strlit("In make move: sth went wrong, end result not bool");
            reveal_strlit("sth went wrong, one of the winconditions not bool");
            assert("Cannot perform move"@.len() != "In make move: sth went wrong, end result not bool"@.len());
            assert("Cannot perform move"@.len() != "sth went wrong, one of the winconditions not bool"@.len());
        }
        let ghost b0 = *self;
        let ghost d0 = context;
        assert(b0 == *old(self));
        self.fire_rules((x1, y1), RuleKind::Onmove, &mut context, 0, Some(sender), Some(receiver), is_evaluate_mate, nest);
        let ghost b1 = *self;
        let ghost d1 = context;
        proof {
            assert(crate::rules::io_of(Some(sender), Some(receiver)));
            assert(fired_at(b0, d0, old_position, RuleKind::Onmove, b1, d1, is_evaluate_mate, nest));
        }
        let kill = self.bury_copy((x2, y2));
        let ghost b2 = *self;
        if kill {
            self.fire_rules((x2, y2), RuleKind::Deathrattle, &mut context, 0, Some(sender), Some(receiver), is_evaluate_mate, nest);
            proof {
                assert(crate::rules::io_of(Some(sender), Some(receiver)));
                assert(fired_at(b2, d1, new_position, RuleKind::Deathrattle, *self, context, is_evaluate_mate, nest));
            }
        }
        let ghost b3 = *self;
        let ghost d3 = context;
        let temp = self.take_cell(x1, y1);
        self.set_cell(x2, y2, temp);
        self.set_cell(x1, y1, None);
        let ghost b4 = *self;
        let ghost quiet = quiet_move(&b0, old_position, new_position, &pmove);
        proof {
            if quiet {
                assert(b1 == b0);
                assert(context == d0);
                assert(silent_at(&b2, x2 as int, y2 as int, RuleKind::Deathrattle)) by {
                    assert(cell(&b2, x2 as int, y2 as int) == cell(&b0, x2 as int, y2 as int));
                }
                assert(b3 == b2);
                assert(cell(&b0, x1 as int, y1 as int) is Some);
                if (x1, y1) != (x2, y2) {
                    assert(cell(&b4, x2 as int, y2 as int) == cell(&b0, x1 as int, y1 as int));
                }
                assert(cell(&b4, x1 as int, y1 as int) is None);
                assert forall|x: int, y: int| (x, y) != (x1 as int, y1 as int) && (x, y) != (x2 as int, y2 as int)
                    implies #[trigger] cell(&b4, x, y) == cell(&b0, x, y) by {}
            }
            lemma_same_frame_trans(&b0, &b1, &b2);
            lemma_same_frame_trans(&b0, &b2, &b3);
            lemma_same_frame_trans(&b0, &b3, &b4);
        }
        if kill {
            self.fire_rules((x2, y2), RuleKind::Onkill, &mut context, 0, Some(sender), Some(receiver), is_evaluate_mate, nest);
            proof {
                assert(crate::rules::io_of(Some(sender), Some(receiver)));
                assert(fired_at(b4, d3, new_position, RuleKind::Onkill, *self, context, is_evaluate_mate, nest));
            }
        }
        let ghost b5 = *self;
        proof {
            if quiet {
                if kill && (x1, y1) != (x2, y2) {
                    assert(silent_at(&b4, x2 as int, y2 as int, RuleKind::Onkill));
                }
                assert(b5 == b4);
                assert(context == d0);
            }
        }
        let ghost d5 = context;
        let ghost mut cbs: Seq<Board> = seq![b5];
        let ghost mut ccs: Seq<Dict<String>> = seq![d5];
        if let Some(cons) = &pmove.consequences {
            let ghost rs = crate::pmove::view_boxed(cons@);
            let mut i: usize = 0;
            while i < cons.len()
                invariant
                    i <= cons.len(),
                    rs == crate::pmove::view_boxed(cons@),
                    same_frame(&b5, self),
                    cons@.len() == 0 ==> *self == b5 && context == d5,
                    evaluated_in_turn(rs.take(i as int), cbs, ccs, is_evaluate_mate, nest),
                    cbs[0] == b5 && ccs[0] == d5 && cbs.last() == *self && ccs.last() == context,
                decreases cons.len() - i,
            {
                let ghost before = *self;
                let ghost cbefore = context;
                let x = cons[i].evaluate_in(self, &mut context, 0, Some(sender), Some(receiver), is_evaluate_mate, nest);
                proof {
                    lemma_same_frame_trans(&b5, &before, self);
                    let cbs2 = cbs.push(*self);
                    let ccs2 = ccs.push(context);
                    let rs2 = rs.take(i + 1);
                    assert(rs2[i as int] == crate::rule::view_rule(*cons@[i as int]));
                    assert(crate::eval::evaluated(rs2[i as int], cbs2[i as int], ccs2[i as int], cbs2[i + 1], ccs2[i + 1], x@, 0, true, is_evaluate_mate, nest));
                    assert(consequence_step(rs2, cbs2, ccs2, i as int, is_evaluate_mate, nest));
                    assert forall|j: int| 0 <= j < rs2.len() implies #[trigger] consequence_step(rs2, cbs2, ccs2, j, is_evaluate_mate, nest) by {
                        if j < i {
                            assert(consequence_step(rs.take(i as int), cbs, ccs, j, is_evaluate_mate, nest));
                            assert(rs2[j] == rs.take(i as int)[j]);
                            assert(cbs2[j] == cbs[j] && cbs2[j + 1] == cbs[j + 1]);
                            assert(ccs2[j] == ccs[j] && ccs2[j + 1] == ccs[j + 1]);
                        }
                    }
                    cbs = cbs2;
                    ccs = ccs2;
                }
                i += 1;
            }
            proof {
                assert(rs.take(cons@.len() as int) == rs);
            }
        }
        let ghost b6 = *self;
        let ghost d6 = context;
        proof {
            if quiet {
                assert(b6 == b5);
                assert(d6 == d5);
                assert forall|x: int, y: int| silent_at(&b6, x, y, RuleKind::Passive) by {
                    assert(silent_at(&b0, x, y, RuleKind::Passive));
                    assert(silent_at(&b0, x1 as int, y1 as int, RuleKind::Passive));
                    if (x, y) != (x1 as int, y1 as int) && (x, y) != (x2 as int, y2 as int) {
                        assert(cell(&b6, x, y) == cell(&b0, x, y));
                    }
                }
            }
        }
        let nx = self.size.0;
        let ny = self.size.1;
        let ghost mut pbs: Seq<Board> = seq![b6];
        let ghost mut pcs: Seq<Dict<String>> = seq![d6];
        let ghost mut sq: Seq<(u32, u32)> = Seq::empty();
        let mut x6: u32 = 0;
        while x6 < nx
            invariant
                x6 <= nx,
                same_frame(&b6, self),
                nx == b6.size.0,
                ny == b6.size.1,
                (forall|x: int, y: int| silent_at(&b6, x, y, RuleKind::Passive)) ==> *self == b6 && context == d6,
                sq == rows_squares(x6, ny),
                passives_fired(sq, pbs, pcs, is_evaluate_mate, nest),
                pbs[0] == b6 && pcs[0] == d6 && pbs.last() == *self && pcs.last() == context,
            decreases nx - x6,
        {
            let mut y6: u32 = 0;
            while y6 < ny
                invariant
                    x6 < nx,
                    y6 <= ny,
                    same_frame(&b6, self),
                    nx == b6.size.0,
                    ny == b6.size.1,
                    (forall|x: int, y: int| silent_at(&b6, x, y, RuleKind::Passive)) ==> *self == b6 && context == d6,
                    sq == rows_squares(x6, ny) + row_squares(x6, y6),
                    passives_fired(sq, pbs, pcs, is_evaluate_mate, nest),
                    pbs[0] == b6 && pcs[0] == d6 && pbs.last() == *self && pcs.last() == context,
                decreases ny - y6,
            {
                let ghost before = *self;
                let ghost cbefore = context;
                proof {
                    if forall|x: int, y: int| silent_at(&b6, x, y, RuleKind::Passive) {
                        assert(silent_at(&b6, x6 as int, y6 as int, RuleKind::Passive));
                    }
                }
                self.fire_rules((x6, y6), RuleKind::Passive, &mut context, 0, Some(sender), Some(receiver), is_evaluate_mate, nest);
                proof {
                    lemma_same_frame_trans(&b6, &before, self);
                    assert(crate::rules::io_of(Some(sender), Some(receiver)));
                    assert(fired_at(before, cbefore, (x6, y6), RuleKind::Passive, *self, context, is_evaluate_mate, nest));
                    let pbs2 = pbs.push(*self);
                    let pcs2 = pcs.push(context);
                    let sq2 = sq.push((x6, y6));
                    assert(passive_step(sq2, pbs2, pcs2, sq.len() as int, is_evaluate_mate, nest));
                    assert forall|q: int| 0 <= q < sq2.len() implies #[trigger] passive_step(sq2, pbs2, pcs2, q, is_evaluate_mate, nest) by {
                        if q < sq.len() {
                            assert(passive_step(sq, pbs, pcs, q, is_evaluate_mate, nest));
                            assert(sq2[q] == sq[q]);
                            assert(pbs2[q] == pbs[q] && pbs2[q + 1] == pbs[q + 1]);
                            assert(pcs2[q] == pcs[q] && pcs2[q + 1] == pcs[q + 1]);
                        }
                    }
                    assert(sq2 =~= rows_squares(x6, ny) + row_squares(x6, (y6 + 1) as u32));
                    pbs = pbs2;
                    pcs = pcs2;
                    sq = sq2;
                }
                y6 += 1;
            }
            proof {
                assert(rows_squares((x6 + 1) as u32, ny) == rows_squares(x6, ny) + row_squares(x6, ny));
            }
            x6 += 1;
        }
        let ghost b7 = *self;
        let ghost d7 = context;
        proof {
            lemma_same_frame_trans(&b0, &b4, &b5);
            lemma_same_frame_trans(&b0, &b5, &b6);
            assert(sq == rows_squares(old(self).size.0, old(self).size.1));
        }
        proof {
            if quiet {
                assert(b7 == b6);
                if (x1, y1) != (x2, y2) {
                    assert(cell(&b7, x2 as int, y2 as int) == cell(&b0, x1 as int, y1 as int));
                }
                assert(silent_at(&b7, x2 as int, y2 as int, RuleKind::Aftermove));
            }
        }
        self.fire_rules((x2, y2), RuleKind::Aftermove, &mut context, 0, Some(sender), Some(receiver), is_evaluate_mate, nest);
        let ghost b8 = *self;
        let ghost d8 = context;
        proof {
            assert(crate::rules::io_of(Some(sender), Some(receiver)));
            assert(fired_at(b7, d7, new_position, RuleKind::Aftermove, b8, d8, is_evaluate_mate, nest));
        }
        proof {
            lemma_same_frame_trans(&b0, &b4, &b5);
            lemma_same_frame_trans(&b0, &b5, &b6);
            lemma_same_frame_trans(&b0, &b6, &b7);
            lemma_same_frame_trans(&b0, &b7, &b8);
        }
        proof {
            if quiet {
                assert(b8 == b7);
                assert(context == d0);
                assert(moved(&b0, &b8, old_position, new_position)) by {
                    assert forall|x: int, y: int| (x, y) != (x1 as int, y1 as int) && (x, y) != (x2 as int, y2 as int)
                        implies #[trigger] cell_view(&b8, x, y) == cell_view(&b0, x, y) by {
                        assert(cell(&b8, x, y) == cell(&b0, x, y));
                    }
                }
            }
        }
        let ghost pm = pmove@;
        self.add_history(pmove, old_position, new_position);
        let ghost b9 = *self;
        let ghost steps = MoveSteps {
            c0: c0, bc1: bc1, bm: bm, cm: cm, x: xv, bc2: bc2, b2: cb2, c2: cc2, y: yv,
            started: b1, d1: d1, buried: b2, died: b3, d3: d3, landed: b4, killed: b5, d5: d5,
            cons_boards: cbs, cons_contexts: ccs, passive_boards: pbs, passive_contexts: pcs,
            after: b8, d8: d8, recorded: b9, cf: d8,
        };
        proof {
            if quiet {
                assert(moved(&b0, &b9, old_position, new_position)) by {
                    assert forall|x: int, y: int| #[trigger] cell_view(&b9, x, y) == cell_view(&b8, x, y) by {}
                }
            }
        }
        if evaluate_endconditions {
            let ghost c9 = context;
            let r = self.get_game_state_in(&mut context, nest);
            proof {
                assert(end_judged(b9, c9, *self, context, r, nest));
                let t = MoveSteps { cf: context, ..steps };
                assert(move_played(*old(self), old_position, new_position, pm, is_evaluate_mate, nest, evaluate_endconditions, t, *self, r));
            }
            proof {
                if quiet && judged && end_rules_api_free(&b0) {
                    assert(end_rules_api_free(&b9));
                    assert(outcome_of(r) == spec_outcome(&b9, ctx));
                    assert(spec_outcome(&b9, ctx) == spec_outcome(&b0, ctx));
                }
                if r is Ok && quiet && end_rules_api_free(&b0) {
                    assert(end_rules_api_free(&b9));
                    let b10 = *self;
                    assert(b10 == with_player(&b9, b10.current_player));
                    assert forall|x: int, y: int| #[trigger] cell_view(&b10, x, y) == cell_view(&b9, x, y) by {}
                    assert(cementary_views(&b10) == cementary_views(&b9));
                }
            }
            r
        } else {
            let r = Ok(GameState::Continue);
            proof {
                assert(move_played(*old(self), old_position, new_position, pm, is_evaluate_mate, nest, evaluate_endconditions, steps, *self, r));
            }
            r
        }
    }
}


/// The context in which a revival onto `pos` of the piece at `idx` of a cementary is judged.
pub open spec fn revive_context(pos: (u32, u32), idx: u32, white: bool) -> Map<Seq<char>, Seq<char>> {
    Map::<Seq<char>, Seq<char>>::empty()
        .insert("new_position"@, pair_text(pos.0 as int, pos.1 as int))
        .insert("revive_index"@, int_text(idx as int))
        .insert("player_revived"@, if white { "1"@ } else { "0"@ })
}

/// The cementary a revival draws from: White's for `white`, else Black's.
pub open spec fn cementary_of(b: &Board, white: bool) -> Seq<Piece> {
    if white { b.cementaries.0@ } else { b.cementaries.1@ }
}

/// `s` with its item `i` taken out and the last item put in its place.
pub open spec fn swap_removed(s: Seq<PieceView>, i: int) -> Seq<PieceView> {
    s.update(i, s.last()).drop_last()
}

/// Whether a piece has no rule for an event.
pub open spec fn piece_silent(p: Piece, k: RuleKind) -> bool {
    match crate::rules::spec_rules_of(p, k) {
        Some(v) => v@.len() == 0,
        None => true,
    }
}

/// Whether no rule fires on the revival of the piece at `idx`: the piece has no rule for its
/// arrival or for a kill. (The revive rule is judged on a copy, so it changes nothing here.)
pub open spec fn quiet_revive(b: &Board, white: bool, idx: u32) -> bool {
    &&& piece_silent(cementary_of(b, white)[idx as int], RuleKind::Battlecry)
    &&& piece_silent(cementary_of(b, white)[idx as int], RuleKind::Deathrattle)
}

/// Whether `b1` is `b0` after the piece at `idx` of a cementary came back on `pos`: it stands on
/// `pos`, the other squares are unchanged, it left its cementary (the last piece there taking
/// its place) and a piece it landed on was captured.
pub open spec fn revived(b0: &Board, b1: &Board, white: bool, idx: u32, pos: (u32, u32)) -> bool {
    let c = cementary_views(b0);
    let rest = if white { (swap_removed(c.0, idx as int), c.1) } else { (c.0, swap_removed(c.1, idx as int)) };
    &&& cell_view(b1, pos.0 as int, pos.1 as int) == Some(view_pieces(cementary_of(b0, white))[idx as int])
    &&& forall|x: int, y: int| (x, y) != (pos.0 as int, pos.1 as int) ==> #[trigger] cell_view(b1, x, y) == cell_view(b0, x, y)
    &&& cementary_views(b1) == cementaries_after(rest, cell_view(b0, pos.0 as int, pos.1 as int))
}

/// The boards and variables a revival passes through (see `revive_played`).
pub ghost struct ReviveSteps {
    pub bc: Board,
    pub c0: Dict<String>,
    pub be: Board,
    pub c1: Dict<String>,
    pub x: RuleValue,
    pub taken: Board,
    pub buried: Board,
    pub placed: Board,
    pub arrived: Board,
    pub d4: Dict<String>,
    pub died: Board,
    pub d5: Dict<String>,
    pub cf: Dict<String>,
}

/// Whether the piece at `idx` of a cementary (White's for `white`) was revived onto `pos` on
/// `b0` through the steps `t`, leaving `bf` and the result `r`: the revive rule, evaluated on a
/// copy in the context that names the square, the index and the side, gave `true`; the piece
/// left its cementary (the last one taking its place); a piece on `pos` was sent to a
/// cementary; the revived piece was put on `pos`; its rules for its arrival fired, and after a
/// capture its dying rules; then the end of the game was decided (see `end_judged`).
pub open spec fn revive_played(b0: Board, white: bool, idx: u32, pos: (u32, u32), mate: bool, nest: u32, t: ReviveSteps,
    bf: Board, r: Result<GameState, String>) -> bool {
    let c = cementary_views(&b0);
    let rest = if white { (swap_removed(c.0, idx as int), c.1) } else { (c.0, swap_removed(c.1, idx as int)) };
    let kill = cell(&b0, pos.0 as int, pos.1 as int) is Some;
    &&& same_board(&b0, &t.bc) && t.c0@ == revive_context(pos, idx, white)
    &&& crate::eval::evaluated(b0.revive@, t.bc, t.c0, t.be, t.c1, t.x, 0, true, mate, nest) && t.x == RuleValue::Boolean(true)
    &&& idx < cementary_of(&b0, white).len() && in_grid(&b0, pos.0 as int, pos.1 as int)
    &&& same_frame(&b0, &t.taken) && t.taken.board == b0.board && cementary_views(&t.taken) == rest
    &&& same_frame(&t.taken, &t.buried) && t.buried.board == t.taken.board
    &&& cementary_views(&t.buried) == cementaries_after(rest, cell_view(&b0, pos.0 as int, pos.1 as int))
    &&& same_frame(&t.buried, &t.placed) && t.placed.cementaries == t.buried.cementaries
    &&& cell_view(&t.placed, pos.0 as int, pos.1 as int) == Some(view_pieces(cementary_of(&b0, white))[idx as int])
    &&& forall|x: int, y: int| (x, y) != (pos.0 as int, pos.1 as int) ==> #[trigger] cell(&t.placed, x, y) == cell(&b0, x, y)
    &&& fired_at(t.placed, t.c1, pos, RuleKind::Battlecry, t.arrived, t.d4, mate, nest)
    &&& kill ==> fired_at(t.arrived, t.d4, pos, RuleKind::Deathrattle, t.died, t.d5, mate, nest)
    &&& !kill ==> t.died == t.arrived && t.d5 == t.d4
    &&& end_judged(t.died, t.d5, bf, t.cf, r, nest)
}

impl Board {
    /// Brings the piece at `idx` of a cementary (White's for `white`) back onto `position`, when
    /// the revive rule holds (judged on a copy of the board, with the position, the index and
    /// `1` or `0` for the side in the context): a piece on the square is captured, the revived
    /// piece's arrival rules fire, and its dying rules when it captured; then the end of the
    /// game is decided.
    pub fn revive_piece(
        &mut self,
        white: bool,
        idx: u32,
        position: (u32, u32),
        sender: &Sender<Option<String>>,
        receiver: &Receiver<String>,
        is_evaluate_mate: bool,
    ) -> (r: Result<GameState, String>)
        ensures
            api_free(old(self).revive@) && pure_eval(old(self).revive@, revive_context(position, idx, white)) != RuleValue::Boolean(true)
                ==> r is Err && r->Err_0@ == "Cannot revive"@ && *final(self) == *old(self),
            api_free(old(self).revive@) && pure_eval(old(self).revive@, revive_context(position, idx, white)) == RuleValue::Boolean(true)
                && idx >= cementary_of(old(self), white).len()
                ==> r is Err && r->Err_0@ == "no piece at that cementary index"@ && *final(self) == *old(self),
            api_free(old(self).revive@) && pure_eval(old(self).revive@, revive_context(position, idx, white)) == RuleValue::Boolean(true)
                && idx < cementary_of(old(self), white).len() && !in_grid(old(self), position.0 as int, position.1 as int)
                ==> r is Err && r->Err_0@ == "Out of board"@ && *final(self) == *old(self),
            r matches Err(e) && (e@ == "Cannot revive"@ || e@ == "no piece at that cementary index"@ || e@ == "Out of board"@) ==> *final(self) == *old(self),
            r is Ok ==> idx < cementary_of(old(self), white).len() && in_grid(old(self), position.0 as int, position.1 as int),
            r is Ok && api_free(old(self).revive@) ==> pure_eval(old(self).revive@, revive_context(position, idx, white)) == RuleValue::Boolean(true),
            r is Ok ==> final(self).current_player == (if outcome_of(r) is Continue { old(self).current_player.spec_opponent() } else { old(self).current_player }),
            r is Ok ==> final(self).size == old(self).size && final(self).pieces@ == old(self).pieces@
                && final(self).history == old(self).history && final(self).history_size == old(self).history_size,
            r is Ok && quiet_revive(old(self), white, idx) && end_rules_api_free(old(self)) ==> revived(old(self), final(self), white, idx, position),
            api_free(old(self).revive@) && pure_eval(old(self).revive@, revive_context(position, idx, white)) == RuleValue::Boolean(true)
                && idx < cementary_of(old(self), white).len() && in_grid(old(self), position.0 as int, position.1 as int)
                && quiet_revive(old(self), white, idx) && end_rules_api_free(old(self))
                ==> outcome_of(r) == spec_outcome(old(self), revive_context(position, idx, white)),
            exists|bc: Board, c0: Dict<String>, b1: Board, c1: Dict<String>, x: RuleValue|
                #![trigger crate::eval::evaluated(old(self).revive@, bc, c0, b1, c1, x, 0, true, is_evaluate_mate, MATE_NESTING)]
                same_board(old(self), &bc) && c0@ == revive_context(position, idx, white)
                && crate::eval::evaluated(old(self).revive@, bc, c0, b1, c1, x, 0, true, is_evaluate_mate, MATE_NESTING)
                && ((r matches Err(e) && e@ == "Cannot revive"@) <==> x != RuleValue::Boolean(true))
                && (x == RuleValue::Boolean(true) && idx >= cementary_of(old(self), white).len()
                    ==> r is Err && r->Err_0@ == "no piece at that cementary index"@ && *final(self) == *old(self))
                && (x == RuleValue::Boolean(true) && idx < cementary_of(old(self), white).len() && !in_grid(old(self), position.0 as int, position.1 as int)
                    ==> r is Err && r->Err_0@ == "Out of board"@ && *final(self) == *old(self)),
            quiet_revive(old(self), white, idx) && !(r matches Err(e) && (e@ == "Cannot revive"@ || e@ == "no piece at that cementary index"@ || e@ == "Out of board"@))
                ==> exists|bm: Board, cm: Dict<String>, cf: Dict<String>| #![trigger end_judged(bm, cm, *final(self), cf, r, MATE_NESTING)]
                    revived(old(self), &bm, white, idx, position) && end_judged(bm, cm, *final(self), cf, r, MATE_NESTING),
            !(r matches Err(e) && (e@ == "Cannot revive"@ || e@ == "no piece at that cementary index"@ || e@ == "Out of board"@))
                ==> exists|t: ReviveSteps| #[trigger] revive_played(*old(self), white, idx, position, is_evaluate_mate, MATE_NESTING, t, *final(self), r),
            !(r matches Ok(GameState::Error(_))),
    {
        self.revive_piece_in(white, idx, position, sender, receiver, is_evaluate_mate, MATE_NESTING)
    }

    /// `revive_piece`, allowed `nest` more nested searches for a mate.
    pub fn revive_piece_in(
        &mut self,
        white: bool,
        idx: u32,
        position: (u32, u32),
        sender: &Sender<Option<String>>,
        receiver: &Receiver<String>,
        is_evaluate_mate: bool,
        nest: u32,
    ) -> (r: Result<GameState, String>)
        ensures
            api_free(old(self).revive@) && pure_eval(old(self).revive@, revive_context(position, idx, white)) != RuleValue::Boolean(true)
                ==> r is Err && r->Err_0@ == "Cannot revive"@ && *final(self) == *old(self),
            api_free(old(self).revive@) && pure_eval(old(self).revive@, revive_context(position, idx, white)) == RuleValue::Boolean(true)
                && idx >= cementary_of(old(self), white).len()
                ==> r is Err && r->Err_0@ == "no piece at that cementary index"@ && *final(self) == *old(self),
            api_free(old(self).revive@) && pure_eval(old(self).revive@, revive_context(position, idx, white)) == RuleValue::Boolean(true)
                && idx < cementary_of(old(self), white).len() && !in_grid(old(self), position.0 as int, position.1 as int)
                ==> r is Err && r->Err_0@ == "Out of board"@ && *final(self) == *old(self),
            r matches Err(e) && (e@ == "Cannot revive"@ || e@ == "no piece at that cementary index"@ || e@ == "Out of board"@) ==> *final(self) == *old(self),
            r is Ok ==> idx < cementary_of(old(self), white).len() && in_grid(old(self), position.0 as int, position.1 as int),
            r is Ok && api_free(old(self).revive@) ==> pure_eval(old(self).revive@, revive_context(position, idx, white)) == RuleValue::Boolean(true),
            r is Ok ==> final(self).current_player == (if outcome_of(r) is Continue { old(self).current_player.spec_opponent() } else { old(self).current_player }),
            r is Ok ==> final(self).size == old(self).size && final(self).pieces@ == old(self).pieces@
                && final(self).history == old(self).history && final(self).history_size == old(self).history_size,
            r is Ok && quiet_revive(old(self), white, idx) && end_rules_api_free(old(self)) ==> revived(old(self), final(self), white, idx, position),
            api_free(old(self).revive@) && pure_eval(old(self).revive@, revive_context(position, idx, white)) == RuleValue::Boolean(true)
                && idx < cementary_of(old(self), white).len() && in_grid(old(self), position.0 as int, position.1 as int)
                && quiet_revive(old(self), white, idx) && end_rules_api_free(old(self))
                ==> outcome_of(r) == spec_outcome(old(self), revive_context(position, idx, white)),
            exists|bc: Board, c0: Dict<String>, b1: Board, c1: Dict<String>, x: RuleValue|
                #![trigger crate::eval::evaluated(old(self).revive@, bc, c0, b1, c1, x, 0, true, is_evaluate_mate, nest)]
                same_board(old(self), &bc) && c0@ == revive_context(position, idx, white)
                && crate::eval::evaluated(old(self).revive@, bc, c0, b1, c1, x, 0, true, is_evaluate_mate, nest)
                && ((r matches Err(e) && e@ == "Cannot revive"@) <==> x != RuleValue::Boolean(true))
                && (x == RuleValue::Boolean(true) && idx >= cementary_of(old(self), white).len()
                    ==> r is Err && r->Err_0@ == "no piece at that cementary index"@ && *final(self) == *old(self))
                && (x == RuleValue::Boolean(true) && idx < cementary_of(old(self), white).len() && !in_grid(old(self), position.0 as int, position.1 as int)
                    ==> r is Err && r->Err_0@ == "Out of board"@ && *final(self) == *old(self)),
            quiet_revive(old(self), white, idx) && !(r matches Err(e) && (e@ == "Cannot revive"@ || e@ == "no piece at that cementary index"@ || e@ == "Out of board"@))
                ==> exists|bm: Board, cm: Dict<String>, cf: Dict<String>| #![trigger end_judged(bm, cm, *final(self), cf, r, nest)]
                    revived(old(self), &bm, white, idx, position) && end_judged(bm, cm, *final(self), cf, r, nest),
            !(r matches Err(e) && (e@ == "Cannot revive"@ || e@ == "no piece at that cementary index"@ || e@ == "Out of board"@))
                ==> exists|t: ReviveSteps| #[trigger] revive_played(*old(self), white, idx, position, is_evaluate_mate, nest, t, *final(self), r),
            !(r matches Ok(GameState::Error(_))),
        decreases nest, 30int, 9int, 0int,
    {
        let mut context: Dict<String> = Dict::new();
        context.insert(text("new_position"), pair_to_text(position.0 as i64, position.1 as i64));
        context.insert(text("revive_index"), int_to_text(idx as i64));
        context.insert(text("player_revived"), text(if white { "1" } else { "0" }));
        proof {
            reveal_strlit("1");
            reveal_strlit("0");
        }
        assert(context@ == revive_context(position, idx, white));
        let rule = self.revive.duplicate();
        let mut board_clone = self.duplicate();
        let ghost bc = board_clone;
        let ghost c0 = context;
        let allowed = rule.evaluate_in(&mut board_clone, &mut context, 0, Some(sender), Some(receiver), is_evaluate_mate, nest);
        proof {
            assert(crate::eval::evaluated(old(self).revive@, bc, c0, board_clone, context, allowed@, 0, true, is_evaluate_mate, nest));
            reveal_strlit("Cannot revive");
            reveal_strlit("no piece at that cementary index");
            reveal_strlit("Out of board");
            assert("Cannot revive"@.len() != "no piece at that cementary index"@.len());
            assert("Cannot revive"@.len() != "Out of board"@.len());
        }
        let ghost be = board_clone;
        let ghost c1 = context;
        match allowed {
            RuleExpression::Boolean(true) => {},
            _ => { return Err(text("Cannot revive")); },
        }
        let len = if white { self.cementaries.0.len() } else { self.cementaries.1.len() };
        if (idx as usize) >= len {
            return Err(text("no piece at that cementary index"));
        }
        if (position.0 as usize) >= self.board.len() || (position.1 as usize) >= self.board[position.0 as usize].len() {
            return Err(text("Out of board"));
        }
        let ghost b0 = *self;
        let piece = if white { self.cementaries.0.swap_remove(idx as usize) } else { self.cementaries.1.swap_remove(idx as usize) };
        let ghost b1 = *self;
        let kill = self.bury_copy(position);
        let ghost b2 = *self;
        self.set_cell(position.0, position.1, Some(piece));
        let ghost b3 = *self;
        proof {
            lemma_same_frame_trans(&b0, &b1, &b2);
            lemma_same_frame_trans(&b0, &b2, &b3);
        }
        self.fire_rules(position, RuleKind::Battlecry, &mut context, 0, Some(sender), Some(receiver), is_evaluate_mate, nest);
        let ghost b4 = *self;
        let ghost d4 = context;
        proof {
            assert(crate::rules::io_of(Some(sender), Some(receiver)));
            assert(fired_at(b3, c1, position, RuleKind::Battlecry, b4, d4, is_evaluate_mate, nest));
        }
        if kill {
            self.fire_rules(position, RuleKind::Deathrattle, &mut context, 0, Some(sender), Some(receiver), is_evaluate_mate, nest);
            proof {
                assert(crate::rules::io_of(Some(sender), Some(receiver)));
                assert(fired_at(b4, d4, position, RuleKind::Deathrattle, *self, context, is_evaluate_mate, nest));
            }
        }
        let ghost b5 = *self;
        proof {
            lemma_same_frame_trans(&b0, &b3, &b4);
            lemma_same_frame_trans(&b0, &b4, &b5);
            if quiet_revive(&b0, white, idx) {
                assert(cell(&b3, position.0 as int, position.1 as int) == Some(piece));
                assert(b4 == b3);
                assert(b5 == b3);
                let c = cementary_views(&b0);
                if white {
                    assert(view_pieces(b1.cementaries.0@) =~= swap_removed(c.0, idx as int));
                    assert(view_pieces(b1.cementaries.1@) =~= c.1);
                } else {
                    assert(view_pieces(b1.cementaries.1@) =~= swap_removed(c.1, idx as int));
                    assert(view_pieces(b1.cementaries.0@) =~= c.0);
                }
                assert forall|x: int, y: int| (x, y) != (position.0 as int, position.1 as int) implies #[trigger] cell_view(&b5, x, y) == cell_view(&b0, x, y) by {
                    assert(cell(&b3, x, y) == cell(&b0, x, y));
                }
            }
        }
        let ghost c5 = context;
        let r = self.get_game_state_in(&mut context, nest);
        proof {
            let t = ReviveSteps { bc: bc, c0: c0, be: be, c1: c1, x: allowed@, taken: b1, buried: b2, placed: b3, arrived: b4, d4: d4,
                died: b5, d5: c5, cf: context };
            let c = cementary_views(&b0);
            if white {
                assert(view_pieces(b1.cementaries.0@) =~= swap_removed(c.0, idx as int));
                assert(view_pieces(b1.cementaries.1@) =~= c.1);
            } else {
                assert(view_pieces(b1.cementaries.1@) =~= swap_removed(c.1, idx as int));
                assert(view_pieces(b1.cementaries.0@) =~= c.0);
            }
            assert(end_judged(b5, c5, *self, context, r, nest));
            assert(revive_played(*old(self), white, idx, position, is_evaluate_mate, nest, t, *self, r));
        }
        proof {
            if quiet_revive(&b0, white, idx) {
                assert(revived(&b0, &b5, white, idx, position));
                assert(end_judged(b5, c5, *self, context, r, nest));
            }
            reveal_strlit("In make move: sth went wrong, end result not bool");
            reveal_strlit("sth went wrong, one of the winconditions not bool");
            reveal_strlit("Cannot revive");
            reveal_strlit("no piece at that cementary index");
            reveal_strlit("Out of board");
            if let Err(e) = &r {
                assert(e@ == "In make move: sth went wrong, end result not bool"@ || e@ == "sth went wrong, one of the winconditions not bool"@);
                assert(e@.len() > 40);
                assert(!(e@ == "Cannot revive"@ || e@ == "no piece at that cementary index"@ || e@ == "Out of board"@));
            }
            if api_free(b0.revive@) && quiet_revive(&b0, white, idx) && end_rules_api_free(&b0) {
                assert(context@ == revive_context(position, idx, white));
                assert(end_rules_api_free(&b5));
                assert(spec_outcome(&b5, context@) == spec_outcome(&b0, context@));
            }
            if r is Ok && quiet_revive(&b0, white, idx) && end_rules_api_free(&b0) {
                let b6 = *self;
                assert(end_rules_api_free(&b5));
                assert(b6 == with_player(&b5, b6.current_player));
                assert forall|x: int, y: int| #[trigger] cell_view(&b6, x, y) == cell_view(&b5, x, y) by {}
                assert(cementary_views(&b6) == cementary_views(&b5));
            }
        }
        r
    }
}


/// Whether `(x, y)` is the first square, in row order, whose piece has the id `id`.
pub open spec fn first_with_id(b: &Board, id: i32, x: u32, y: u32) -> bool {
    &&& cell_view(b, x as int, y as int) matches Some(p) && has_id(p, id)
    &&& forall|i: int, j: int| 0 <= i <= u32::MAX && 0 <= j <= u32::MAX && before(i, j, x as int, y as int)
        ==> !(#[trigger] cell_view(b, i, j) matches Some(q) && has_id(q, id))
}

/// At most one square is the first with a given id.
pub proof fn lemma_first_unique(b: &Board, id: i32, x: u32, y: u32, i: u32, j: u32)
    requires
        first_with_id(b, id, x, y),
        first_with_id(b, id, i, j),
    ensures
        (x, y) == (i, j),
{
    if (i, j) != (x, y) {
        if before(i as int, j as int, x as int, y as int) {
            assert(cell_view(b, i as int, j as int) matches Some(q) && has_id(q, id));
        } else {
            assert(before(x as int, y as int, i as int, j as int));
            assert(cell_view(b, x as int, y as int) matches Some(q) && has_id(q, id));
        }
    }
}

/// The first square, in row order, whose piece has the id `id`, if any.
pub open spec fn find_id(b: &Board, id: i32) -> Option<(u32, u32)> {
    if exists|p: (u32, u32)| first_with_id(b, id, p.0, p.1) {
        Some(choose|p: (u32, u32)| first_with_id(b, id, p.0, p.1))
    } else {
        None
    }
}

impl Board {
    /// The first square, in row order, whose piece's memory holds `id` under `id`.
    pub fn find_id_square(&self, id: i32) -> (r: Option<(u32, u32)>)
        ensures
            r == find_id(self, id),
            r is None <==> no_piece_with_id(self, id),
    {
        let r = self.find_piece_creation_id(id);
        proof {
            match r {
                Some(p) => {
                    assert(first_with_id(self, id, p.0, p.1));
                    let c = choose|q: (u32, u32)| first_with_id(self, id, q.0, q.1);
                    lemma_first_unique(self, id, p.0, p.1, c.0, c.1);
                    assert(!no_piece_with_id(self, id)) by {
                        assert(cell_view(self, p.0 as int, p.1 as int) matches Some(q) && has_id(q, id));
                    }
                },
                None => {
                    assert(!exists|p: (u32, u32)| first_with_id(self, id, p.0, p.1)) by {
                        if exists|p: (u32, u32)| first_with_id(self, id, p.0, p.1) {
                            let c = choose|q: (u32, u32)| first_with_id(self, id, q.0, q.1);
                            assert(cell_view(self, c.0 as int, c.1 as int) matches Some(q) && has_id(q, id));
                        }
                    }
                },
            }
        }
        r
    }
}

/// Whether no piece on the board has the id `id`.
pub open spec fn no_piece_with_id(b: &Board, id: i32) -> bool {
    forall|i: int, j: int| 0 <= i <= u32::MAX && 0 <= j <= u32::MAX ==> !(#[trigger] cell_view(b, i, j) matches Some(q) && has_id(q, id))
}

/// Whether some piece may move to `pos`.
pub open spec fn under_attack(b: &Board, pos: (u32, u32)) -> bool {
    grid_squares(b.size.0, b.size.1, attack_pred(b, pos, None)).len() > 0
}

/// A board that holds the same game as `b`, but for the player to move, attacks the same
/// squares.
proof fn lemma_same_board_attacks(a: &Board, b: &Board, pos: (u32, u32))
    requires
        same_board(a, b),
    ensures
        attack_pred(a, pos, None) == attack_pred(b, pos, None),
        board_api_free(a) == board_api_free(b),
        in_size(a, pos.0 as int, pos.1 as int) == in_size(b, pos.0 as int, pos.1 as int),
{
    assert(attack_pred(a, pos, None) =~= attack_pred(b, pos, None));
    if board_api_free(a) {
        assert forall|x: int, y: int| #[trigger] cell_view(b, x, y) is Some implies moves_api_free(cell_view(b, x, y).unwrap()) by {
            assert(cell_view(a, x, y) == cell_view(b, x, y));
        }
    }
    if board_api_free(b) {
        assert forall|x: int, y: int| #[trigger] cell_view(a, x, y) is Some implies moves_api_free(cell_view(a, x, y).unwrap()) by {
            assert(cell_view(a, x, y) == cell_view(b, x, y));
        }
    }
}

/// Whether the search for a mate has to look for an escape: a piece has the id, and when the
/// first such piece can be judged without calling the board, some piece may move to it.
pub open spec fn escape_needed(b: &Board, id: i32) -> bool {
    &&& !no_piece_with_id(b, id)
    &&& forall|x: u32, y: u32| first_with_id(b, id, x, y) && board_api_free(b) && in_size(b, x as int, y as int)
        ==> under_attack(b, (x, y))
}

/// What a step of the search for a mate may answer: a boolean, or `Timeout`.
pub open spec fn search_answer(r: RuleExpression) -> bool {
    r matches RuleExpression::Boolean(_) || (r matches RuleExpression::Error(e) && e@ == "Timeout"@)
}

/// Whether a result of a move or a revival ends the search for a mate by itself: a win for
/// `player`, or a draw.
pub open spec fn decisive(res: Result<GameState, String>, player: Player) -> bool {
    ||| (res matches Ok(GameState::BlackWins) && player == Player::Black)
    ||| (res matches Ok(GameState::WhiteWins) && player == Player::White)
    ||| (res matches Ok(GameState::Draw))
}

/// What a step of the search for a mate answers once a move or a revival is made: `true` when
/// it decided the game for the searching player (`decided`); nothing when it was refused, or
/// when no piece has the id (`found` false); `false` when nothing attacks that piece; else
/// `Timeout` when the search has run out of time, and nothing before.
pub open spec fn spec_escape_verdict(decided: bool, refused: bool, found: bool, attacked: bool, timed_out: bool) -> Option<RuleValue> {
    if decided {
        Some(RuleValue::Boolean(true))
    } else if refused || !found {
        None
    } else if !attacked {
        Some(RuleValue::Boolean(false))
    } else if timed_out {
        Some(RuleValue::Error("Timeout"@))
    } else {
        None
    }
}

/// The view of a step's answer.
pub open spec fn view_answer(r: Option<RuleExpression>) -> Option<RuleValue> {
    match r {
        Some(e) => Some(e@),
        None => None,
    }
}

/// The answer of a step of the search for a mate (see `spec_escape_verdict`).
pub fn escape_verdict(decided: bool, refused: bool, found: bool, attacked: bool, timed_out: bool) -> (r: Option<RuleExpression>)
    ensures
        view_answer(r) == spec_escape_verdict(decided, refused, found, attacked, timed_out),
        r matches Some(v) ==> search_answer(v),
        r matches Some(RuleExpression::Boolean(b)) ==> b == decided,
{
    proof {
        reveal_strlit("Timeout");
    }
    if decided {
        Some(RuleExpression::Boolean(true))
    } else if refused || !found {
        None
    } else if !attacked {
        Some(RuleExpression::Boolean(false))
    } else if timed_out {
        Some(RuleExpression::Error(text("Timeout")))
    } else {
        None
    }
}

/// Whether every piece of the board stands on a square within its size.
pub open spec fn pieces_in_size(b: &Board) -> bool {
    forall|x: int, y: int| #[trigger] cell_view(b, x, y) is Some ==> in_size(b, x, y)
}

/// Whether the first piece, in row order, with the id `id` stands where no piece may move to.
pub open spec fn escaped(b: &Board, id: i32) -> bool {
    exists|x: u32, y: u32| #![trigger first_with_id(b, id, x, y)] first_with_id(b, id, x, y) && !under_attack(b, (x, y))
}

/// Judges the board a move or a revival of the search for a mate left: a result that wins the
/// game for `player`, or draws it, is a mate; a refused one tells nothing; else, when the piece
/// with the id `piece_id` is gone nothing is learnt, and when no piece may move to it there is
/// an escape; else `Timeout` once the search has run two seconds (see `escape_verdict`).
fn judge_escape(
    new_board: &mut Board,
    res: Result<GameState, String>,
    player: Player,
    piece_id: i32,
    start: &Instant,
    nest: u32,
) -> (r: Option<RuleExpression>)
    ensures
        r matches Some(v) ==> search_answer(v),
        decisive(res, player) ==> r == Some(RuleExpression::Boolean(true)),
        res is Err ==> r is None,
        res is Ok && !decisive(res, player) ==> {
            &&& !(r matches Some(RuleExpression::Boolean(true)))
            &&& no_piece_with_id(old(new_board), piece_id) ==> r is None
            &&& forall|x: u32, y: u32| first_with_id(old(new_board), piece_id, x, y) && board_api_free(old(new_board))
                && in_size(old(new_board), x as int, y as int) ==> {
                &&& !under_attack(old(new_board), (x, y)) ==> r == Some(RuleExpression::Boolean(false))
                &&& under_attack(old(new_board), (x, y)) ==> (r is None || (r matches Some(RuleExpression::Error(e)) && e@ == "Timeout"@))
            }
            &&& board_api_free(old(new_board)) && pieces_in_size(old(new_board))
                ==> (r == Some(RuleExpression::Boolean(false)) <==> escaped(old(new_board), piece_id))
        },
    decreases nest, 30int, 9int, 1int,
{
    let decided = match res {
        Ok(GameState::BlackWins) => player == Player::Black,
        Ok(GameState::WhiteWins) => player == Player::White,
        Ok(GameState::Draw) => true,
        _ => false,
    };
    let refused = res.is_err();
    if decided || refused {
        return escape_verdict(decided, refused, false, false, false);
    }
    let ghost b0 = *new_board;
    match new_board.find_piece_creation_id(piece_id) {
        Some(target) => {
            new_board.current_player = player.opponent();
            proof {
                lemma_attack_pred_player(&b0, player.spec_opponent(), target, None);
                assert(*new_board == with_player(&b0, player.spec_opponent()));
                assert(first_with_id(&b0, piece_id, target.0, target.1));
                assert forall|x: u32, y: u32| first_with_id(&b0, piece_id, x, y) implies (x, y) == target by {
                    lemma_first_unique(&b0, piece_id, x, y, target.0, target.1);
                }
            }
            let attacked = new_board.is_attacked_in(target, 0, nest);
            let timed_out = attacked && elapsed_millis(start) > 2000;
            let r = escape_verdict(false, false, true, attacked, timed_out);
            proof {
                if board_api_free(&b0) && pieces_in_size(&b0) {
                    assert(cell_view(&b0, target.0 as int, target.1 as int) is Some);
                    assert(in_size(&b0, target.0 as int, target.1 as int));
                    if !under_attack(&b0, target) {
                        assert(escaped(&b0, piece_id));
                    }
                }
            }
            r
        },
        None => {
            proof {
                assert forall|x: u32, y: u32| !first_with_id(&b0, piece_id, x, y) by {
                    if first_with_id(&b0, piece_id, x, y) {
                        assert(cell_view(&b0, x as int, y as int) matches Some(q) && has_id(q, piece_id));
                    }
                }
            }
            escape_verdict(false, false, false, false, false)
        },
    }
}

/// Whether a piece has no rule for an event can be read off its view.
proof fn lemma_silent_views(a: &Board, b: &Board, x: int, y: int, k: RuleKind)
    requires
        cell_view(a, x, y) == cell_view(b, x, y),
    ensures
        silent_at(a, x, y, k) == silent_at(b, x, y, k),
{
    if cell(a, x, y) is Some {
        let p = cell(a, x, y).unwrap();
        let q = cell(b, x, y).unwrap();
        assert(p@ == q@);
        match (crate::rules::spec_rules_of(p, k), crate::rules::spec_rules_of(q, k)) {
            (Some(v), Some(w)) => {
                crate::rule::lemma_view_rules(v@);
                crate::rule::lemma_view_rules(w@);
                assert(crate::piece::view_opt_rules(Some(v)) == crate::piece::view_opt_rules(Some(w))) by {
                    match k {
                        RuleKind::Deathrattle => { assert(p@.deathrattle == q@.deathrattle); },
                        RuleKind::Battlecry => { assert(p@.battlecry == q@.battlecry); },
                        RuleKind::Passive => { assert(p@.passive == q@.passive); },
                        RuleKind::Onmove => { assert(p@.onmove == q@.onmove); },
                        RuleKind::Aftermove => { assert(p@.aftermove == q@.aftermove); },
                        RuleKind::Onkill => { assert(p@.onkill == q@.onkill); },
                    }
                }
            },
            (None, None) => {},
            _ => {
                match k {
                    RuleKind::Deathrattle => { assert(p@.deathrattle == q@.deathrattle); },
                    RuleKind::Battlecry => { assert(p@.battlecry == q@.battlecry); },
                    RuleKind::Passive => { assert(p@.passive == q@.passive); },
                    RuleKind::Onmove => { assert(p@.onmove == q@.onmove); },
                    RuleKind::Aftermove => { assert(p@.aftermove == q@.aftermove); },
                    RuleKind::Onkill => { assert(p@.onkill == q@.onkill); },
                }
            },
        }
    }
}

/// Two boards whose squares look alike and whose sizes agree attack alike.
proof fn lemma_views_attack(a: &Board, b: &Board, pos: (u32, u32))
    requires
        a.size == b.size,
        forall|x: int, y: int| #[trigger] cell_view(a, x, y) == cell_view(b, x, y),
    ensures
        attack_pred(a, pos, None) == attack_pred(b, pos, None),
        under_attack(a, pos) == under_attack(b, pos),
        board_api_free(a) == board_api_free(b),
{
    assert(attack_pred(a, pos, None) =~= attack_pred(b, pos, None));
    if board_api_free(a) {
        assert forall|x: int, y: int| #[trigger] cell_view(b, x, y) is Some implies moves_api_free(cell_view(b, x, y)->Some_0) by {
            assert(cell_view(a, x, y) == cell_view(b, x, y));
        }
    }
    if board_api_free(b) {
        assert forall|x: int, y: int| #[trigger] cell_view(a, x, y) is Some implies moves_api_free(cell_view(a, x, y)->Some_0) by {
            assert(cell_view(a, x, y) == cell_view(b, x, y));
        }
    }
}

/// Whether the squares of `b1` are those of `b` after the piece on `o` went to `n`, on a board of
/// `b`'s size.
pub open spec fn squares_after_move(b: &Board, b1: &Board, o: (u32, u32), n: (u32, u32)) -> bool {
    &&& b1.size == b.size
    &&& forall|x: int, y: int| (x, y) != (o.0 as int, o.1 as int) && (x, y) != (n.0 as int, n.1 as int)
        ==> #[trigger] cell_view(b1, x, y) == cell_view(b, x, y)
    &&& o != n ==> cell_view(b1, n.0 as int, n.1 as int) == cell_view(b, o.0 as int, o.1 as int)
    &&& cell_view(b1, o.0 as int, o.1 as int) is None
}

/// Whether the move of the piece on `o` to `n` lets the piece with the id `id` escape: on the
/// squares the move leaves, nothing attacks it.
pub open spec fn move_escapes(b: &Board, id: i32, o: (u32, u32), n: (u32, u32)) -> bool {
    exists|b1: Board| #[trigger] squares_after_move(b, &b1, o, n) && escaped(&b1, id)
}

/// Boards whose sizes and squares agree agree on the search for a mate.
proof fn lemma_escaped_views(a: &Board, b: &Board, id: i32)
    requires
        a.size == b.size,
        forall|x: int, y: int| #[trigger] cell_view(a, x, y) == cell_view(b, x, y),
    ensures
        escaped(a, id) == escaped(b, id),
        no_piece_with_id(a, id) == no_piece_with_id(b, id),
        board_api_free(a) == board_api_free(b),
        pieces_in_size(a) == pieces_in_size(b),
{
    assert forall|x: u32, y: u32| first_with_id(a, id, x, y) == first_with_id(b, id, x, y) by {
        assert(cell_view(a, x as int, y as int) == cell_view(b, x as int, y as int));
        if first_with_id(a, id, x, y) {
            assert forall|i: int, j: int| 0 <= i <= u32::MAX && 0 <= j <= u32::MAX && before(i, j, x as int, y as int)
                implies !(#[trigger] cell_view(b, i, j) matches Some(q) && has_id(q, id)) by {
                assert(cell_view(a, i, j) == cell_view(b, i, j));
            }
        }
        if first_with_id(b, id, x, y) {
            assert forall|i: int, j: int| 0 <= i <= u32::MAX && 0 <= j <= u32::MAX && before(i, j, x as int, y as int)
                implies !(#[trigger] cell_view(a, i, j) matches Some(q) && has_id(q, id)) by {
                assert(cell_view(a, i, j) == cell_view(b, i, j));
            }
        }
    }
    assert forall|x: u32, y: u32| under_attack(a, (x, y)) == under_attack(b, (x, y)) by {
        lemma_views_attack(a, b, (x, y));
    }
    lemma_views_attack(a, b, (0u32, 0u32));
    if escaped(a, id) {
        let (x, y) = choose|x: u32, y: u32| first_with_id(a, id, x, y) && !under_attack(a, (x, y));
        assert(first_with_id(b, id, x, y) && !under_attack(b, (x, y)));
    }
    if escaped(b, id) {
        let (x, y) = choose|x: u32, y: u32| first_with_id(b, id, x, y) && !under_attack(b, (x, y));
        assert(first_with_id(a, id, x, y) && !under_attack(a, (x, y)));
    }
    if no_piece_with_id(a, id) {
        assert forall|i: int, j: int| 0 <= i <= u32::MAX && 0 <= j <= u32::MAX implies
            !(#[trigger] cell_view(b, i, j) matches Some(q) && has_id(q, id)) by {
            assert(cell_view(a, i, j) == cell_view(b, i, j));
        }
    }
    if no_piece_with_id(b, id) {
        assert forall|i: int, j: int| 0 <= i <= u32::MAX && 0 <= j <= u32::MAX implies
            !(#[trigger] cell_view(a, i, j) matches Some(q) && has_id(q, id)) by {
            assert(cell_view(a, i, j) == cell_view(b, i, j));
        }
    }
    if pieces_in_size(a) {
        assert forall|x: int, y: int| #[trigger] cell_view(b, x, y) is Some implies in_size(b, x, y) by {
            assert(cell_view(a, x, y) == cell_view(b, x, y));
        }
    }
    if pieces_in_size(b) {
        assert forall|x: int, y: int| #[trigger] cell_view(a, x, y) is Some implies in_size(a, x, y) by {
            assert(cell_view(a, x, y) == cell_view(b, x, y));
        }
    }
}

/// A move onto a square of the board keeps every piece on the board's squares, and keeps the
/// pieces' moves free of calls to the board.
proof fn lemma_after_move_props(b: &Board, b1: &Board, o: (u32, u32), n: (u32, u32))
    requires
        squares_after_move(b, b1, o, n),
        in_size(b, n.0 as int, n.1 as int),
        board_api_free(b),
        pieces_in_size(b),
    ensures
        board_api_free(b1),
        pieces_in_size(b1),
{
    assert forall|x: int, y: int| #[trigger] cell_view(b1, x, y) is Some implies in_size(b1, x, y) && moves_api_free(cell_view(b1, x, y)->Some_0) by {
        if (x, y) == (o.0 as int, o.1 as int) {
        } else if (x, y) == (n.0 as int, n.1 as int) {
            assert(cell_view(b, o.0 as int, o.1 as int) is Some);
        } else {
            assert(cell_view(b1, x, y) == cell_view(b, x, y));
        }
    }
}

/// Tries, on a copy of `board` with `player` to move, the move `m` of the piece on `from`, and
/// judges the result as `judge_escape` does.
fn try_move(
    board: &Board,
    from: (u32, u32),
    m: &((u32, u32), PMove),
    player: Player,
    piece_id: i32,
    start: &Instant,
    nest: u32,
) -> (r: Option<RuleExpression>)
    ensures
        r matches Some(v) ==> search_answer(v),
        !(in_size(board, from.0 as int, from.1 as int) && in_size(board, m.0.0 as int, m.0.1 as int)) ==> r is None,
        cell(board, from.0 as int, from.1 as int) is None ==> r is None,
        in_size(board, from.0 as int, from.1 as int) && in_size(board, m.0.0 as int, m.0.1 as int) && in_grid(board, m.0.0 as int, m.0.1 as int)
            && move_judged(board, from, m.1@) ==> {
            let p = cell_view(board, from.0 as int, from.1 as int).unwrap();
            &&& !move_allowed(p, from, m.0, m.1@) ==> r is None
            &&& move_allowed(p, from, m.0, m.1@) && quiet_move(board, from, m.0, &m.1) && board_api_free(board) && pieces_in_size(board) ==> {
                &&& !(r matches Some(RuleExpression::Boolean(true)))
                &&& r == Some(RuleExpression::Boolean(false)) ==> move_escapes(board, piece_id, from, m.0)
                &&& r is None ==> !move_escapes(board, piece_id, from, m.0)
            }
        },
    decreases nest, 30int, 9int, 2int,
{
    let dup = board.duplicate();
    let ghost dv = dup;
    let mut new_board = dup;
    new_board.current_player = player;
    let ghost d = new_board;
    let mv = m.1.duplicate();
    let ghost to = m.0;
    proof {
        assert forall|x: int, y: int| #[trigger] cell_view(&d, x, y) == cell_view(board, x, y) by {
            assert(cell_view(&d, x, y) == cell_view(&dv, x, y));
        }
        if quiet_move(board, from, m.0, &m.1) {
            lemma_silent_views(&d, board, from.0 as int, from.1 as int, RuleKind::Onmove);
            lemma_silent_views(&d, board, from.0 as int, from.1 as int, RuleKind::Onkill);
            lemma_silent_views(&d, board, from.0 as int, from.1 as int, RuleKind::Aftermove);
            lemma_silent_views(&d, board, to.0 as int, to.1 as int, RuleKind::Deathrattle);
            assert forall|x: int, y: int| silent_at(&d, x, y, RuleKind::Passive) by {
                lemma_silent_views(&d, board, x, y, RuleKind::Passive);
            }
            if mv.consequences is Some {
                assert(mv@.consequences == m.1@.consequences);
                assert(crate::pmove::view_boxed(mv.consequences->Some_0@).len() == mv.consequences->Some_0@.len());
                assert(crate::pmove::view_boxed(m.1.consequences->Some_0@).len() == m.1.consequences->Some_0@.len());
            }
            assert(quiet_move(&d, from, to, &mv));
        }
    }
    let (reply, _replies) = reply_channel();
    let (_input, inputs) = input_channel();
    let res = new_board.make_move_in(from, m.0, mv, &reply, &inputs, false, true, nest);
    let ghost b2 = new_board;
    proof {
        reveal_strlit("Cannot perform move");
        reveal_strlit("Out of board");
        reveal_strlit("Piece doesn't exist");
        if in_size(board, from.0 as int, from.1 as int) && in_size(board, to.0 as int, to.1 as int) && in_grid(board, to.0 as int, to.1 as int)
            && move_judged(board, from, m.1@) {
            let p = cell_view(board, from.0 as int, from.1 as int).unwrap();
            assert(cell_view(&d, from.0 as int, from.1 as int) == Some(p));
            assert(move_judged(&d, from, mv@));
            assert(in_grid(&d, to.0 as int, to.1 as int));
            if move_allowed(p, from, to, m.1@) {
                assert("Cannot perform move"@.len() != "Out of board"@.len());
                assert("Cannot perform move"@[0] != "Piece doesn't exist"@[0]);
                assert(res is Ok);
                if quiet_move(board, from, to, &m.1) {
                    assert(moved(&d, &b2, from, to));
                }
            }
        }
    }
    let r = judge_escape(&mut new_board, res, player, piece_id, start, nest);
    proof {
        if in_size(board, from.0 as int, from.1 as int) && in_size(board, to.0 as int, to.1 as int) && in_grid(board, to.0 as int, to.1 as int)
            && move_judged(board, from, m.1@) {
            let p = cell_view(board, from.0 as int, from.1 as int).unwrap();
            if move_allowed(p, from, to, m.1@) && quiet_move(board, from, to, &m.1) {
                assert(!decisive(res, player));
                if board_api_free(board) && pieces_in_size(board) {
                    assert(squares_after_move(board, &b2, from, to)) by {
                        assert forall|x: int, y: int| (x, y) != (from.0 as int, from.1 as int) && (x, y) != (to.0 as int, to.1 as int)
                            implies #[trigger] cell_view(&b2, x, y) == cell_view(board, x, y) by {
                            assert(cell_view(&b2, x, y) == cell_view(&d, x, y));
                        }
                        assert(cell_view(&d, from.0 as int, from.1 as int) == cell_view(board, from.0 as int, from.1 as int));
                    }
                    lemma_after_move_props(board, &b2, from, to);
                    if r == Some(RuleExpression::Boolean(false)) {
                        assert(escaped(&b2, piece_id));
                        assert(squares_after_move(board, &b2, from, to) && escaped(&b2, piece_id));
                    }
                    if r is None {
                        assert(!escaped(&b2, piece_id));
                        assert forall|b1: Board| #[trigger] squares_after_move(board, &b1, from, to) implies !escaped(&b1, piece_id) by {
                            assert forall|x: int, y: int| #[trigger] cell_view(&b1, x, y) == cell_view(&b2, x, y) by {
                                if (x, y) != (from.0 as int, from.1 as int) && (x, y) != (to.0 as int, to.1 as int) {
                                    assert(cell_view(&b2, x, y) == cell_view(&d, x, y));
                                }
                            }
                            lemma_escaped_views(&b1, &b2, piece_id);
                        }
                    }
                }
            }
        }
        if cell(board, from.0 as int, from.1 as int) is None {
            assert(cell_view(&d, from.0 as int, from.1 as int) is None);
        }
    }
    r
}

/// Whether an outcome ends the search for a mate by itself: a win for `player`, or a draw.
pub open spec fn outcome_decides(o: Outcome, player: Player) -> bool {
    ||| (o is BlackWins && player == Player::Black)
    ||| (o is WhiteWins && player == Player::White)
    ||| o is Draw
}

/// Whether a piece has no rule for an event can be read off its view.
proof fn lemma_piece_silent_views(p: Piece, q: Piece, k: RuleKind)
    requires
        p@ == q@,
    ensures
        piece_silent(p, k) == piece_silent(q, k),
{
    match (crate::rules::spec_rules_of(p, k), crate::rules::spec_rules_of(q, k)) {
        (Some(v), Some(w)) => {
            crate::rule::lemma_view_rules(v@);
            crate::rule::lemma_view_rules(w@);
        },
        _ => {},
    }
    match k {
        RuleKind::Deathrattle => { assert(p@.deathrattle == q@.deathrattle); },
        RuleKind::Battlecry => { assert(p@.battlecry == q@.battlecry); },
        RuleKind::Passive => { assert(p@.passive == q@.passive); },
        RuleKind::Onmove => { assert(p@.onmove == q@.onmove); },
        RuleKind::Aftermove => { assert(p@.aftermove == q@.aftermove); },
        RuleKind::Onkill => { assert(p@.onkill == q@.onkill); },
    }
}

/// Whether the squares of `b1` are those of `b` after the piece at `idx` of a cementary (White's
/// for `white`) came back on `pos`, on a board of `b`'s size.
pub open spec fn squares_after_revive(b: &Board, b1: &Board, white: bool, idx: u32, pos: (u32, u32)) -> bool {
    &&& b1.size == b.size
    &&& cell_view(b1, pos.0 as int, pos.1 as int) == Some(view_pieces(cementary_of(b, white))[idx as int])
    &&& forall|x: int, y: int| (x, y) != (pos.0 as int, pos.1 as int) ==> #[trigger] cell_view(b1, x, y) == cell_view(b, x, y)
}

/// Whether the revival of the piece at `idx` onto `pos` lets the piece with the id `id` escape:
/// on the squares the revival leaves, nothing attacks it.
pub open spec fn revive_escapes(b: &Board, id: i32, white: bool, idx: u32, pos: (u32, u32)) -> bool {
    exists|b1: Board| #[trigger] squares_after_revive(b, &b1, white, idx, pos) && escaped(&b1, id)
}

/// A revival onto a square of the board keeps every piece on the board's squares, and, when
/// the revived piece's moves call the board nowhere, keeps the pieces' moves free of such calls.
proof fn lemma_after_revive_props(b: &Board, b1: &Board, white: bool, idx: u32, pos: (u32, u32))
    requires
        squares_after_revive(b, b1, white, idx, pos),
        in_size(b, pos.0 as int, pos.1 as int),
        board_api_free(b),
        pieces_in_size(b),
        moves_api_free(view_pieces(cementary_of(b, white))[idx as int]),
    ensures
        board_api_free(b1),
        pieces_in_size(b1),
{
    assert forall|x: int, y: int| #[trigger] cell_view(b1, x, y) is Some implies in_size(b1, x, y) && moves_api_free(cell_view(b1, x, y)->Some_0) by {
        if (x, y) != (pos.0 as int, pos.1 as int) {
            assert(cell_view(b1, x, y) == cell_view(b, x, y));
        }
    }
}

/// Tries, on a copy of `board` with `player` to move, the revival of the piece at `idx` of
/// `player`'s cementary onto `pos`, and judges the result as `judge_escape` does.
fn try_revive(
    board: &Board,
    idx: u32,
    pos: (u32, u32),
    player: Player,
    piece_id: i32,
    start: &Instant,
    nest: u32,
) -> (r: Option<RuleExpression>)
    ensures
        r matches Some(v) ==> search_answer(v),
        api_free(board.revive@) ==> {
            let w = player == Player::White;
            let ctx = revive_context(pos, idx, w);
            &&& pure_eval(board.revive@, ctx) != RuleValue::Boolean(true) ==> r is None
            &&& pure_eval(board.revive@, ctx) == RuleValue::Boolean(true) && idx >= cementary_of(board, w).len() ==> r is None
            &&& pure_eval(board.revive@, ctx) == RuleValue::Boolean(true) && idx < cementary_of(board, w).len()
                && !in_grid(board, pos.0 as int, pos.1 as int) ==> r is None
            &&& pure_eval(board.revive@, ctx) == RuleValue::Boolean(true) && idx < cementary_of(board, w).len()
                && in_grid(board, pos.0 as int, pos.1 as int) && quiet_revive(board, w, idx) && end_rules_api_free(board) ==> {
                let o = spec_outcome(board, ctx);
                &&& outcome_decides(o, player) ==> r == Some(RuleExpression::Boolean(true))
                &&& o is Failed ==> r is None
                &&& !outcome_decides(o, player) && !(o is Failed) && board_api_free(board) && pieces_in_size(board)
                    && in_size(board, pos.0 as int, pos.1 as int) && moves_api_free(view_pieces(cementary_of(board, w))[idx as int]) ==> {
                    &&& !(r matches Some(RuleExpression::Boolean(true)))
                    &&& r == Some(RuleExpression::Boolean(false)) ==> revive_escapes(board, piece_id, w, idx, pos)
                    &&& r is None ==> !revive_escapes(board, piece_id, w, idx, pos)
                }
            }
        },
    decreases nest, 30int, 9int, 2int,
{
    let dup = board.duplicate();
    let ghost dv = dup;
    let mut new_board = dup;
    new_board.current_player = player;
    let ghost d = new_board;
    let ghost w = player == Player::White;
    proof {
        assert forall|x: int, y: int| #[trigger] cell_view(&d, x, y) == cell_view(board, x, y) by {
            assert(cell_view(&d, x, y) == cell_view(&dv, x, y));
        }
        assert(d.revive@ == board.revive@);
        assert(view_pieces(cementary_of(&d, w)) == view_pieces(cementary_of(board, w)));
        assert(cementary_of(&d, w).len() == view_pieces(cementary_of(&d, w)).len());
        assert(cementary_of(board, w).len() == view_pieces(cementary_of(board, w)).len());
        assert(end_rules_api_free(&d) == end_rules_api_free(board)) by {
            assert(crate::board::opt_rule_view(d.endcondition) == crate::board::opt_rule_view(board.endcondition));
        }
        assert(spec_outcome(&d, revive_context(pos, idx, w)) == spec_outcome(board, revive_context(pos, idx, w))) by {
            assert(crate::board::opt_rule_view(d.endcondition) == crate::board::opt_rule_view(board.endcondition));
        }
        if idx < cementary_of(board, w).len() {
            assert(view_pieces(cementary_of(&d, w))[idx as int] == view_pieces(cementary_of(board, w))[idx as int]);
            lemma_piece_silent_views(cementary_of(&d, w)[idx as int], cementary_of(board, w)[idx as int], RuleKind::Battlecry);
            lemma_piece_silent_views(cementary_of(&d, w)[idx as int], cementary_of(board, w)[idx as int], RuleKind::Deathrattle);
            assert(quiet_revive(&d, w, idx) == quiet_revive(board, w, idx));
        }
    }
    let (reply, _replies) = reply_channel();
    let (_input, inputs) = input_channel();
    let res = new_board.revive_piece_in(player == Player::White, idx, pos, &reply, &inputs, true, nest);
    let ghost b2 = new_board;
    let r = judge_escape(&mut new_board, res, player, piece_id, start, nest);
    proof {
        let ctx = revive_context(pos, idx, w);
        if api_free(board.revive@) && pure_eval(board.revive@, ctx) == RuleValue::Boolean(true) && idx < cementary_of(board, w).len()
            && in_grid(board, pos.0 as int, pos.1 as int) && quiet_revive(board, w, idx) && end_rules_api_free(board) {
            let o = spec_outcome(board, ctx);
            assert(in_grid(&d, pos.0 as int, pos.1 as int));
            assert(outcome_of(res) == o);
            if o is Failed {
                assert(res is Err);
            }
            if outcome_decides(o, player) {
                assert(decisive(res, player));
            }
            if !outcome_decides(o, player) && !(o is Failed) {
                assert(res is Ok);
                assert(!decisive(res, player));
                assert(revived(&d, &b2, w, idx, pos));
                if board_api_free(board) && pieces_in_size(board) && in_size(board, pos.0 as int, pos.1 as int)
                    && moves_api_free(view_pieces(cementary_of(board, w))[idx as int]) {
                    assert(squares_after_revive(board, &b2, w, idx, pos)) by {
                        assert forall|x: int, y: int| (x, y) != (pos.0 as int, pos.1 as int) implies #[trigger] cell_view(&b2, x, y) == cell_view(board, x, y) by {
                            assert(cell_view(&b2, x, y) == cell_view(&d, x, y));
                        }
                    }
                    lemma_after_revive_props(board, &b2, w, idx, pos);
                    if r == Some(RuleExpression::Boolean(false)) {
                        assert(squares_after_revive(board, &b2, w, idx, pos) && escaped(&b2, piece_id));
                    }
                    if r is None {
                        assert(!escaped(&b2, piece_id));
                        assert forall|b1: Board| #[trigger] squares_after_revive(board, &b1, w, idx, pos) implies !escaped(&b1, piece_id) by {
                            assert forall|x: int, y: int| #[trigger] cell_view(&b1, x, y) == cell_view(&b2, x, y) by {
                                if (x, y) != (pos.0 as int, pos.1 as int) {
                                    assert(cell_view(&b2, x, y) == cell_view(board, x, y));
                                }
                            }
                            lemma_escaped_views(&b1, &b2, piece_id);
                        }
                    }
                }
            }
        }
    }
    r
}

/// The moves the piece on `(x, y)` may make, square by square in row order: none when the square
/// is empty, when the piece's move condition is false, or when it has no move.
pub open spec fn piece_moves_at(b: &Board, x: u32, y: u32) -> Seq<((u32, u32), crate::pmove::PMoveView)> {
    match cell_view(b, x as int, y as int) {
        Some(p) => match crate::rules::spec_possible_moves(p, (x, y), b.size) {
            Some(s) => s,
            None => Seq::empty(),
        },
        None => Seq::empty(),
    }
}

/// Whether the `k`th move of the piece of `player` on `(x, y)` is allowed and lets the piece
/// with the id `id` escape.
pub open spec fn escape_by_move(b: &Board, player: Player, id: i32, x: u32, y: u32, k: int) -> bool {
    &&& in_size(b, x as int, y as int)
    &&& cell_view(b, x as int, y as int) matches Some(p) && p.owner == player
    &&& 0 <= k < piece_moves_at(b, x, y).len()
    &&& move_allowed(cell_view(b, x as int, y as int)->Some_0, (x, y), piece_moves_at(b, x, y)[k].0, piece_moves_at(b, x, y)[k].1)
    &&& move_escapes(b, id, (x, y), piece_moves_at(b, x, y)[k].0)
}

/// How many places of a cementary the search for a mate by `player` tries: as many as the other
/// side's cementary holds, up to 2^32.
pub open spec fn revive_count(b: &Board, player: Player) -> int {
    let n = if player == Player::White { b.cementaries.1@.len() } else { b.cementaries.0@.len() };
    if n > u32::MAX { u32::MAX + 1 } else { n as int }
}

/// Whether the search for a mate by `player` tries to revive the piece at `idx` onto `pos`.
pub open spec fn revive_tried(b: &Board, player: Player, idx: u32, pos: (u32, u32)) -> bool {
    idx < revive_count(b, player) && pos.0 < b.size.0 && pos.1 < b.size.1
}

/// Whether `(i, r, c)` comes before `(i2, r2, c2)` in the order the search tries revivals in.
pub open spec fn revive_before(i: u32, r: u32, c: u32, i2: u32, r2: u32, c2: u32) -> bool {
    i < i2 || (i == i2 && (r < r2 || (r == r2 && c < c2)))
}

/// What the search for a mate by `player` learns from reviving the piece at `idx` of its
/// cementary onto `pos`: `true` when the revival is allowed and decides the game for `player`,
/// `false` when it is allowed, the game goes on and the piece with the id `id` escapes, else
/// nothing.
pub open spec fn revive_verdict(b: &Board, player: Player, id: i32, idx: u32, pos: (u32, u32)) -> Option<bool> {
    let w = player == Player::White;
    let ctx = revive_context(pos, idx, w);
    if pure_eval(b.revive@, ctx) == RuleValue::Boolean(true) && idx < cementary_of(b, w).len() && in_grid(b, pos.0 as int, pos.1 as int) {
        let o = spec_outcome(b, ctx);
        if outcome_decides(o, player) {
            Some(true)
        } else if o is Failed {
            None
        } else if revive_escapes(b, id, w, idx, pos) {
            Some(false)
        } else {
            None
        }
    } else {
        None
    }
}

/// Whether the revivals the search tries leave the piece mated: every one that lets it escape
/// comes after one that decides the game for `player`.
pub open spec fn revivals_mate(b: &Board, player: Player, id: i32) -> bool {
    forall|i: u32, r: u32, c: u32| #![trigger revive_verdict(b, player, id, i, (r, c))]
        revive_tried(b, player, i, (r, c)) && revive_verdict(b, player, id, i, (r, c)) == Some(false)
        ==> exists|i2: u32, r2: u32, c2: u32| #![trigger revive_verdict(b, player, id, i2, (r2, c2))]
            revive_tried(b, player, i2, (r2, c2)) && revive_before(i2, r2, c2, i, r, c) && revive_verdict(b, player, id, i2, (r2, c2)) == Some(true)
}

/// Whether the search for a mate by `player` on `b` can be followed without calling the board:
/// the grid has the board's size, no piece's moves or conditions call the board, no piece has a
/// rule for a move, a kill, the end of a move, its death or every turn, no move has
/// consequences, the revive rule and the rules that end the game call the board nowhere, and the
/// pieces of `player`'s cementary have no rule for their arrival or a kill and moves that call
/// the board nowhere.
pub open spec fn mate_exact(b: &Board, player: Player) -> bool {
    let w = player == Player::White;
    &&& crate::board::grid_fits(b)
    &&& board_api_free(b)
    &&& pieces_in_size(b)
    &&& forall|x: int, y: int| #[trigger] silent_at(b, x, y, RuleKind::Onmove)
    &&& forall|x: int, y: int| #[trigger] silent_at(b, x, y, RuleKind::Onkill)
    &&& forall|x: int, y: int| #[trigger] silent_at(b, x, y, RuleKind::Aftermove)
    &&& forall|x: int, y: int| #[trigger] silent_at(b, x, y, RuleKind::Deathrattle)
    &&& forall|x: int, y: int| #[trigger] silent_at(b, x, y, RuleKind::Passive)
    &&& forall|x: int, y: int, i: int| #![trigger cell_view(b, x, y)->Some_0.possiblemoves[i]]
        cell_view(b, x, y) is Some && 0 <= i < cell_view(b, x, y)->Some_0.possiblemoves.len()
        ==> (cell_view(b, x, y)->Some_0.possiblemoves[i].consequences matches Some(v) ==> v.len() == 0)
    &&& api_free(b.revive@)
    &&& end_rules_api_free(b)
    &&& forall|i: int| 0 <= i < cementary_of(b, w).len() ==> {
        &&& piece_silent(#[trigger] cementary_of(b, w)[i], RuleKind::Battlecry)
        &&& piece_silent(cementary_of(b, w)[i], RuleKind::Deathrattle)
        &&& moves_api_free(view_pieces(cementary_of(b, w))[i])
    }
}

/// Whether `player` mates the piece with the id `id` on `b`, as the search for a mate finds:
/// yes when no piece has the id; no when nothing attacks it; else when no allowed move of a
/// piece of `player` lets it escape, and every revival that lets it escape comes after one
/// that decides the game for `player`.
pub open spec fn mate_found(b: &Board, player: Player, id: i32) -> bool {
    if no_piece_with_id(b, id) {
        true
    } else if escaped(b, id) {
        false
    } else {
        !(exists|x: u32, y: u32, k: int| #[trigger] escape_by_move(b, player, id, x, y, k)) && revivals_mate(b, player, id)
    }
}

/// A board that holds the same game as `b` on its squares, but for the player to move, judges
/// the moves and revivals of the search for a mate alike.
proof fn lemma_search_views(a: &Board, b: &Board, player: Player, id: i32)
    requires
        same_board(&with_player(a, b.current_player), b),
    ensures
        forall|x: u32, y: u32| #[trigger] piece_moves_at(a, x, y) == piece_moves_at(b, x, y),
        forall|x: u32, y: u32, k: int| #[trigger] escape_by_move(a, player, id, x, y, k) == escape_by_move(b, player, id, x, y, k),
        forall|i: u32, pos: (u32, u32)| #[trigger] revive_verdict(a, player, id, i, pos) == revive_verdict(b, player, id, i, pos),
        forall|i: u32, pos: (u32, u32)| #[trigger] revive_tried(a, player, i, pos) == revive_tried(b, player, i, pos),
        escaped(a, id) == escaped(b, id),
        no_piece_with_id(a, id) == no_piece_with_id(b, id),
{
    let c = with_player(a, b.current_player);
    assert forall|x: int, y: int| #[trigger] cell_view(a, x, y) == cell_view(b, x, y) by {
        assert(cell_view(&c, x, y) == cell_view(b, x, y));
    }
    lemma_escaped_views(a, b, id);
    assert forall|x: u32, y: u32| #[trigger] piece_moves_at(a, x, y) == piece_moves_at(b, x, y) by {
        assert(cell_view(a, x as int, y as int) == cell_view(b, x as int, y as int));
    }
    assert forall|o: (u32, u32), n: (u32, u32)| move_escapes(a, id, o, n) == move_escapes(b, id, o, n) by {
        if move_escapes(a, id, o, n) {
            let b1 = choose|b1: Board| #[trigger] squares_after_move(a, &b1, o, n) && escaped(&b1, id);
            assert(squares_after_move(b, &b1, o, n));
        }
        if move_escapes(b, id, o, n) {
            let b1 = choose|b1: Board| #[trigger] squares_after_move(b, &b1, o, n) && escaped(&b1, id);
            assert(squares_after_move(a, &b1, o, n));
        }
    }
    assert forall|x: u32, y: u32, k: int| #[trigger] escape_by_move(a, player, id, x, y, k) == escape_by_move(b, player, id, x, y, k) by {
        assert(cell_view(a, x as int, y as int) == cell_view(b, x as int, y as int));
        assert(piece_moves_at(a, x, y) == piece_moves_at(b, x, y));
    }
    assert(cementary_views(a) == cementary_views(b));
    assert(a.cementaries.0@.len() == view_pieces(a.cementaries.0@).len());
    assert(a.cementaries.1@.len() == view_pieces(a.cementaries.1@).len());
    assert(b.cementaries.0@.len() == view_pieces(b.cementaries.0@).len());
    assert(b.cementaries.1@.len() == view_pieces(b.cementaries.1@).len());
    assert forall|ctx: Map<Seq<char>, Seq<char>>| spec_outcome(a, ctx) == spec_outcome(b, ctx) by {
        assert(crate::board::opt_rule_view(a.endcondition) == crate::board::opt_rule_view(b.endcondition));
    }
    assert forall|i: u32, pos: (u32, u32)| #[trigger] revive_verdict(a, player, id, i, pos) == revive_verdict(b, player, id, i, pos) by {
        let w = player == Player::White;
        assert(view_pieces(cementary_of(a, w)) == view_pieces(cementary_of(b, w)));
        assert(in_grid(a, pos.0 as int, pos.1 as int) == in_grid(b, pos.0 as int, pos.1 as int)) by {
            if 0 <= pos.0 < a.board@.len() {
                assert(a.board@[pos.0 as int]@.len() == b.board@[pos.0 as int]@.len());
            }
        }
        if revive_escapes(a, id, w, i, pos) {
            let b1 = choose|b1: Board| #[trigger] squares_after_revive(a, &b1, w, i, pos) && escaped(&b1, id);
            assert(squares_after_revive(b, &b1, w, i, pos));
        }
        if revive_escapes(b, id, w, i, pos) {
            let b1 = choose|b1: Board| #[trigger] squares_after_revive(b, &b1, w, i, pos) && escaped(&b1, id);
            assert(squares_after_revive(a, &b1, w, i, pos));
        }
    }
}

/// One move of the search for a mate, judged against the board `b0` the search started from:
/// when the search can be followed without calling the board (`mate_exact`) and `m` is the
/// `k`th move of the piece of `player` on `from`, the answer is `false` exactly when that move
/// lets the piece with the id escape, and never `true`.
fn search_move(
    board: &Board,
    from: (u32, u32),
    m: &((u32, u32), PMove),
    player: Player,
    piece_id: i32,
    start: &Instant,
    nest: u32,
    Ghost(b0): Ghost<Board>,
    Ghost(k): Ghost<int>,
) -> (r: Option<RuleExpression>)
    ensures
        r matches Some(v) ==> search_answer(v),
        mate_exact(&b0, player) && same_board(&with_player(&b0, board.current_player), board)
            && in_size(&b0, from.0 as int, from.1 as int) && (cell_view(&b0, from.0 as int, from.1 as int) matches Some(p) && p.owner == player)
            && 0 <= k < piece_moves_at(&b0, from.0, from.1).len() && piece_moves_at(&b0, from.0, from.1)[k] == (m.0, m.1@)
            && in_size(&b0, m.0.0 as int, m.0.1 as int) && cell_view(&b0, from.0 as int, from.1 as int)->Some_0.possiblemoves.contains(m.1@) ==> {
            &&& !(r matches Some(RuleExpression::Boolean(true)))
            &&& r == Some(RuleExpression::Boolean(false)) ==> escape_by_move(&b0, player, piece_id, from.0, from.1, k)
            &&& r is None ==> !escape_by_move(&b0, player, piece_id, from.0, from.1, k)
        },
    decreases nest, 30int, 9int, 3int,
{
    let r = try_move(board, from, m, player, piece_id, start, nest);
    proof {
        if mate_exact(&b0, player) && same_board(&with_player(&b0, board.current_player), board)
            && in_size(&b0, from.0 as int, from.1 as int) && (cell_view(&b0, from.0 as int, from.1 as int) matches Some(p) && p.owner == player)
            && 0 <= k < piece_moves_at(&b0, from.0, from.1).len() && piece_moves_at(&b0, from.0, from.1)[k] == (m.0, m.1@)
            && in_size(&b0, m.0.0 as int, m.0.1 as int) && cell_view(&b0, from.0 as int, from.1 as int)->Some_0.possiblemoves.contains(m.1@) {
            lemma_search_views(&b0, board, player, piece_id);
            let c = with_player(&b0, board.current_player);
            assert forall|x: int, y: int| #[trigger] cell_view(&b0, x, y) == cell_view(board, x, y) by {
                assert(cell_view(&c, x, y) == cell_view(board, x, y));
            }
            lemma_escaped_views(&b0, board, piece_id);
            let p = cell_view(&b0, from.0 as int, from.1 as int)->Some_0;
            let to = m.0;
            assert(in_size(board, to.0 as int, to.1 as int));
            assert(in_size(board, from.0 as int, from.1 as int));
            assert(in_grid(board, to.0 as int, to.1 as int)) by {
                assert(b0.board@[to.0 as int]@.len() == b0.size.1);
                assert(b0.board@[to.0 as int]@.len() == board.board@[to.0 as int]@.len());
            }
            let mi = choose|i: int| 0 <= i < p.possiblemoves.len() && p.possiblemoves[i] == m.1@;
            assert(p.possiblemoves[mi] == m.1@);
            assert(api_free(p.possiblemoves[mi].condition));
            assert(move_judged(board, from, m.1@));
            if move_allowed(p, from, to, m.1@) {
                lemma_silent_views(board, &b0, from.0 as int, from.1 as int, RuleKind::Onmove);
                lemma_silent_views(board, &b0, from.0 as int, from.1 as int, RuleKind::Onkill);
                lemma_silent_views(board, &b0, from.0 as int, from.1 as int, RuleKind::Aftermove);
                lemma_silent_views(board, &b0, to.0 as int, to.1 as int, RuleKind::Deathrattle);
                assert(silent_at(&b0, from.0 as int, from.1 as int, RuleKind::Onmove));
                assert(silent_at(&b0, from.0 as int, from.1 as int, RuleKind::Onkill));
                assert(silent_at(&b0, from.0 as int, from.1 as int, RuleKind::Aftermove));
                assert(silent_at(&b0, to.0 as int, to.1 as int, RuleKind::Deathrattle));
                assert forall|x: int, y: int| silent_at(board, x, y, RuleKind::Passive) by {
                    lemma_silent_views(board, &b0, x, y, RuleKind::Passive);
                    assert(silent_at(&b0, x, y, RuleKind::Passive));
                }
                assert(cell_view(&b0, from.0 as int, from.1 as int)->Some_0.possiblemoves[mi] == m.1@);
                if m.1.consequences is Some {
                    assert(crate::pmove::view_boxed(m.1.consequences->Some_0@).len() == m.1.consequences->Some_0@.len());
                }
                assert(quiet_move(board, from, to, &m.1));
            }
        }
    }
    r
}

/// One revival of the search for a mate, judged against the board `b0` the search started
/// from: when the search can be followed without calling the board (`mate_exact`) and the
/// revival is one the search tries, the answer is the revival's verdict (see
/// `revive_verdict`), or `Timeout`.
fn search_revive(
    board: &Board,
    idx: u32,
    pos: (u32, u32),
    player: Player,
    piece_id: i32,
    start: &Instant,
    nest: u32,
    Ghost(b0): Ghost<Board>,
) -> (r: Option<RuleExpression>)
    ensures
        r matches Some(v) ==> search_answer(v),
        mate_exact(&b0, player) && same_board(&with_player(&b0, board.current_player), board) && revive_tried(&b0, player, idx, pos) ==> {
            &&& r matches Some(RuleExpression::Boolean(x)) ==> revive_verdict(&b0, player, piece_id, idx, pos) == Some(x)
            &&& r is None ==> revive_verdict(&b0, player, piece_id, idx, pos) is None
        },
    decreases nest, 30int, 9int, 3int,
{
    let r = try_revive(board, idx, pos, player, piece_id, start, nest);
    proof {
        if mate_exact(&b0, player) && same_board(&with_player(&b0, board.current_player), board) && revive_tried(&b0, player, idx, pos) {
            lemma_search_views(&b0, board, player, piece_id);
            let c = with_player(&b0, board.current_player);
            assert forall|x: int, y: int| #[trigger] cell_view(&b0, x, y) == cell_view(board, x, y) by {
                assert(cell_view(&c, x, y) == cell_view(board, x, y));
            }
            lemma_escaped_views(&b0, board, piece_id);
            let w = player == Player::White;
            let ctx = revive_context(pos, idx, w);
            assert(board.revive@ == b0.revive@);
            assert(view_pieces(cementary_of(board, w)) == view_pieces(cementary_of(&b0, w)));
            assert(cementary_of(board, w).len() == view_pieces(cementary_of(board, w)).len());
            assert(cementary_of(&b0, w).len() == view_pieces(cementary_of(&b0, w)).len());
            assert(end_rules_api_free(board)) by {
                assert(crate::board::opt_rule_view(board.endcondition) == crate::board::opt_rule_view(b0.endcondition));
            }
            assert(spec_outcome(board, ctx) == spec_outcome(&b0, ctx)) by {
                assert(crate::board::opt_rule_view(board.endcondition) == crate::board::opt_rule_view(b0.endcondition));
            }
            assert(in_size(board, pos.0 as int, pos.1 as int));
            assert(in_grid(board, pos.0 as int, pos.1 as int) == in_grid(&b0, pos.0 as int, pos.1 as int)) by {
                if 0 <= pos.0 < b0.board@.len() {
                    assert(b0.board@[pos.0 as int]@.len() == board.board@[pos.0 as int]@.len());
                }
            }
            if idx < cementary_of(&b0, w).len() {
                assert(view_pieces(cementary_of(board, w))[idx as int] == view_pieces(cementary_of(&b0, w))[idx as int]);
                assert(cementary_of(board, w)[idx as int]@ == cementary_of(&b0, w)[idx as int]@);
                lemma_piece_silent_views(cementary_of(board, w)[idx as int], cementary_of(&b0, w)[idx as int], RuleKind::Battlecry);
                lemma_piece_silent_views(cementary_of(board, w)[idx as int], cementary_of(&b0, w)[idx as int], RuleKind::Deathrattle);
                assert(piece_silent(cementary_of(&b0, w)[idx as int], RuleKind::Battlecry));
                assert(quiet_revive(board, w, idx));
                assert(moves_api_free(view_pieces(cementary_of(&b0, w))[idx as int]));
                if revive_escapes(board, piece_id, w, idx, pos) {
                    let b1 = choose|b1: Board| #[trigger] squares_after_revive(board, &b1, w, idx, pos) && escaped(&b1, piece_id);
                    assert(squares_after_revive(&b0, &b1, w, idx, pos));
                }
                if revive_escapes(&b0, piece_id, w, idx, pos) {
                    let b1 = choose|b1: Board| #[trigger] squares_after_revive(&b0, &b1, w, idx, pos) && escaped(&b1, piece_id);
                    assert(squares_after_revive(board, &b1, w, idx, pos));
                }
            }
        }
    }
    r
}

/// Whether the search for attackers of the piece with the id `id`, made on a copy of `b` with the
/// opponent of `player` to move, may have found some (see `attackers_found`).
pub open spec fn attack_seen(b: &Board, player: Player, id: i32, nest: u32) -> bool {
    exists|bc: Board, pos: (u32, u32), g: Seq<crate::rules::AttackStep>, a: Option<Seq<(u32, u32)>>, bf: Board|
        #![trigger crate::rules::attackers_found(bc, pos, None, 0, nest, g, bf, a)]
        first_with_id(b, id, pos.0, pos.1) && same_board(&with_player(b, player.spec_opponent()), &bc)
        && crate::rules::attackers_found(bc, pos, None, 0, nest, g, bf, a) && a is Some
}

impl Board {
    /// Whether the piece whose memory holds the id `piece_id` is mated by `player`, judged on
    /// copies of the board: `true` when no piece has that id; `false` when no piece may move to
    /// its square; else whether every move of a piece of `player`, and every revival onto every
    /// square, leaves it to be taken (a move that wins the game for `player`, or draws it,
    /// counts as mate). The search gives up with `Timeout` after two seconds. On a board whose
    /// rules call the board nowhere and fire on no event (see `mate_exact`), a Boolean answer is
    /// `mate_found`.
    pub fn check_mate(&mut self, player: Player, piece_id: i32) -> (r: RuleExpression)
        ensures
            *final(self) == *old(self),
            search_answer(r),
            no_piece_with_id(old(self), piece_id) ==> r == RuleExpression::Boolean(true),
            !escape_needed(old(self), piece_id) && !no_piece_with_id(old(self), piece_id) ==> r == RuleExpression::Boolean(false),
            !no_piece_with_id(old(self), piece_id) ==> exists|bc: Board, pos: (u32, u32), g: Seq<crate::rules::AttackStep>, a: Option<Seq<(u32, u32)>>, bf: Board|
                #![trigger crate::rules::attackers_found(bc, pos, None, 0, MATE_NESTING, g, bf, a)]
                first_with_id(old(self), piece_id, pos.0, pos.1) && same_board(&with_player(old(self), player.spec_opponent()), &bc)
                && crate::rules::attackers_found(bc, pos, None, 0, MATE_NESTING, g, bf, a)
                && (a is None ==> r == RuleExpression::Boolean(false)),
            mate_exact(old(self), player) ==> (r matches RuleExpression::Boolean(x) ==> x == mate_found(old(self), player, piece_id)),
    {
        self.check_mate_in(player, piece_id, MATE_NESTING)
    }

    /// `check_mate`, allowed `nest` more nested searches for a mate.
    pub fn check_mate_in(&mut self, player: Player, piece_id: i32, nest: u32) -> (r: RuleExpression)
        ensures
            *final(self) == *old(self),
            search_answer(r),
            no_piece_with_id(old(self), piece_id) ==> r == RuleExpression::Boolean(true),
            !escape_needed(old(self), piece_id) && !no_piece_with_id(old(self), piece_id) ==> r == RuleExpression::Boolean(false),
            !no_piece_with_id(old(self), piece_id) ==> exists|bc: Board, pos: (u32, u32), g: Seq<crate::rules::AttackStep>, a: Option<Seq<(u32, u32)>>, bf: Board|
                #![trigger crate::rules::attackers_found(bc, pos, None, 0, nest, g, bf, a)]
                first_with_id(old(self), piece_id, pos.0, pos.1) && same_board(&with_player(old(self), player.spec_opponent()), &bc)
                && crate::rules::attackers_found(bc, pos, None, 0, nest, g, bf, a)
                && (a is None ==> r == RuleExpression::Boolean(false)),
            mate_exact(old(self), player) ==> (r matches RuleExpression::Boolean(x) ==> x == mate_found(old(self), player, piece_id)),
        decreases nest, 30int, 10int, 0int,
    {
        let start = clock_now();
        let ghost ex = mate_exact(self, player);
        let (x, y) = match self.find_piece_creation_id(piece_id) {
            Some(a) => a,
            None => { return RuleExpression::Boolean(true); },
        };
        let mut board_clone = self.duplicate();
        let ghost d = board_clone;
        board_clone.current_player = player.opponent();
        proof {
            let c0 = board_clone;
            assert(!no_piece_with_id(old(self), piece_id)) by {
                assert(cell_view(old(self), x as int, y as int) matches Some(q) && has_id(q, piece_id));
            }
            assert forall|i: u32, j: u32| first_with_id(old(self), piece_id, i, j) implies (i, j) == (x, y) by {
                if (i, j) != (x, y) {
                    if before(i as int, j as int, x as int, y as int) {
                        assert(cell_view(old(self), i as int, j as int) matches Some(q) && has_id(q, piece_id));
                    } else {
                        assert(before(x as int, y as int, i as int, j as int));
                        assert(cell_view(old(self), x as int, y as int) matches Some(q) && has_id(q, piece_id));
                    }
                }
            }
            lemma_same_board_attacks(old(self), &d, (x, y));
            lemma_attack_pred_player(&d, player.spec_opponent(), (x, y), None);
            assert(c0 == with_player(&d, player.spec_opponent()));
        }
        let ghost bc = board_clone;
        let attacked = board_clone.is_attacked_in((x, y), 0, nest);
        proof {
            let (g, a) = choose|g: Seq<crate::rules::AttackStep>, a: Option<Seq<(u32, u32)>>|
                #![trigger crate::rules::attackers_found(bc, (x, y), None, 0, nest, g, board_clone, a)]
                crate::rules::attackers_found(bc, (x, y), None, 0, nest, g, board_clone, a) && attacked == (a is Some);
            assert(first_with_id(old(self), piece_id, x, y));
            let w = with_player(old(self), player.spec_opponent());
            assert forall|i: int, j: int| #[trigger] cell_view(&w, i, j) == cell_view(&bc, i, j) by {
                assert(cell_view(&w, i, j) == cell_view(old(self), i, j));
                assert(cell_view(&bc, i, j) == cell_view(&d, i, j));
            }
            assert forall|i: int| 0 <= i < w.board@.len() implies (#[trigger] w.board@[i])@.len() == bc.board@[i]@.len() by {
                assert(w.board@[i] == old(self).board@[i]);
                assert(bc.board@[i] == d.board@[i]);
            }
            assert(same_board(&w, &bc));
            assert(crate::rules::attackers_found(bc, (x, y), None, 0, nest, g, board_clone, a));
            assert(ex ==> board_api_free(&bc) && in_size(&bc, x as int, y as int)) by {
                if ex {
                    assert(cell_view(old(self), x as int, y as int) is Some);
                    assert(in_size(old(self), x as int, y as int));
                    lemma_same_board_attacks(old(self), &d, (x, y));
                    lemma_attack_pred_player(&d, player.spec_opponent(), (x, y), None);
                }
            }
            assert(ex ==> board_clone == bc);
            if ex {
                assert(attacked == under_attack(old(self), (x, y)));
                if !attacked {
                    assert(escaped(old(self), piece_id));
                } else {
                    assert(!escaped(old(self), piece_id));
                }
            }
        }
        if !attacked {
            return RuleExpression::Boolean(false);
        }
        assert(attack_seen(old(self), player, piece_id, nest));
        assert(escape_needed(old(self), piece_id));
        board_clone.current_player = player;
        let ghost cb = board_clone;
        proof {
            if ex {
                assert(cb == with_player(&d, player));
                assert(same_board(old(self), &d));
                assert forall|i: int, j: int| #[trigger] cell_view(&with_player(old(self), player), i, j) == cell_view(&cb, i, j) by {
                    assert(cell_view(&cb, i, j) == cell_view(&d, i, j));
                    assert(cell_view(&d, i, j) == cell_view(old(self), i, j));
                    assert(cell_view(&with_player(old(self), player), i, j) == cell_view(old(self), i, j));
                }
                assert forall|i: int| 0 <= i < old(self).board@.len() implies (#[trigger] with_player(old(self), player).board@[i])@.len() == cb.board@[i]@.len() by {
                    assert(cb.board@[i] == d.board@[i]);
                }
                assert(same_board(&with_player(old(self), cb.current_player), &cb));
                lemma_search_views(old(self), &cb, player, piece_id);
            }
        }
        if elapsed_millis(&start) > 2000 {
            return RuleExpression::Error(text("Timeout"));
        }
        let rows = if self.board.len() > u32::MAX as usize { u32::MAX as usize + 1 } else { self.board.len() };
        let mut i: usize = 0;
        while i < rows
            invariant
                rows <= u32::MAX + 1,
                rows <= self.board@.len(),
                ex ==> rows == old(self).size.0,
                *self == *old(self),
                escape_needed(old(self), piece_id),
                attack_seen(old(self), player, piece_id, nest),
                ex == mate_exact(old(self), player),
                ex ==> board_clone == cb && same_board(&with_player(old(self), cb.current_player), &cb) && cb.current_player == player,
                ex ==> !escaped(old(self), piece_id) && !no_piece_with_id(old(self), piece_id),
                ex ==> forall|a: u32, b: u32, k: int| #[trigger] escape_by_move(old(self), player, piece_id, a, b, k) ==> a >= i,
            decreases rows - i,
        {
            let len = self.board[i].len();
            let cols = if len > u32::MAX as usize { u32::MAX as usize + 1 } else { len };
            let mut j: usize = 0;
            while j < cols
                invariant
                    i < rows,
                    rows <= u32::MAX + 1,
                    rows <= self.board@.len(),
                    cols <= u32::MAX + 1,
                    cols <= self.board@[i as int]@.len(),
                    ex ==> cols == old(self).size.1 && rows == old(self).size.0,
                    *self == *old(self),
                    escape_needed(old(self), piece_id),
                    attack_seen(old(self), player, piece_id, nest),
                    ex == mate_exact(old(self), player),
                    ex ==> board_clone == cb && same_board(&with_player(old(self), cb.current_player), &cb) && cb.current_player == player,
                    ex ==> !escaped(old(self), piece_id) && !no_piece_with_id(old(self), piece_id),
                    ex ==> forall|a: u32, b: u32, k: int| #[trigger] escape_by_move(old(self), player, piece_id, a, b, k) ==> a > i || (a == i && b >= j),
                decreases cols - j,
            {
                let owned = match &self.board[i][j] {
                    Some(p) => p.owner == player,
                    None => false,
                };
                let from = (i as u32, j as u32);
                if owned {
                    let moves = board_clone.get_possible_moves_in(from, 0, nest);
                    proof {
                        if ex {
                            assert(cell_view(old(self), i as int, j as int) is Some);
                            assert(in_size(old(self), i as int, j as int));
                            assert(cell_view(&cb, i as int, j as int) == cell_view(old(self), i as int, j as int));
                            assert(crate::rules::positions_exact(&cb, from, 0));
                            assert(piece_moves_at(&cb, from.0, from.1) == piece_moves_at(old(self), from.0, from.1));
                        }
                    }
                    if let Some(ms) = moves {
                        let mut k: usize = 0;
                        while k < ms.len()
                            invariant
                                i < rows,
                                j < cols,
                                from == (i as u32, j as u32),
                                ex ==> cols == old(self).size.1 && rows == old(self).size.0,
                                *self == *old(self),
                                escape_needed(old(self), piece_id),
                                attack_seen(old(self), player, piece_id, nest),
                                ex == mate_exact(old(self), player),
                                ex ==> board_clone == cb && same_board(&with_player(old(self), cb.current_player), &cb) && cb.current_player == player,
                                ex ==> !escaped(old(self), piece_id) && !no_piece_with_id(old(self), piece_id),
                                ex ==> crate::rules::view_square_moves(ms@) == piece_moves_at(old(self), from.0, from.1),
                                ex ==> (cell_view(old(self), i as int, j as int) matches Some(p) && p.owner == player),
                                ex ==> forall|q: int| 0 <= q < ms@.len() ==> in_size(old(self), (#[trigger] ms@[q]).0.0 as int, ms@[q].0.1 as int)
                                    && cell_view(old(self), i as int, j as int)->Some_0.possiblemoves.contains(ms@[q].1@),
                                ex ==> forall|a: u32, b: u32, kk: int| #[trigger] escape_by_move(old(self), player, piece_id, a, b, kk)
                                    ==> a > i || (a == i && (b > j || (b == j && kk >= k))),
                            decreases ms.len() - k,
                        {
                            let answer = search_move(&board_clone, from, &ms[k], player, piece_id, &start, nest, Ghost(*old(self)), Ghost(k as int));
                            proof {
                                if ex {
                                    assert(crate::rules::view_square_moves(ms@)[k as int] == (ms@[k as int].0, ms@[k as int].1@));
                                    assert(in_size(old(self), from.0 as int, from.1 as int));
                                }
                            }
                            if let Some(a) = answer {
                                proof {
                                    if ex {
                                        if let RuleExpression::Boolean(v) = a {
                                            assert(escape_by_move(old(self), player, piece_id, from.0, from.1, k as int));
                                            assert(!v);
                                        }
                                    }
                                }
                                return a;
                            }
                            k += 1;
                        }
                    } else {
                        proof {
                            if ex {
                                assert(piece_moves_at(old(self), from.0, from.1).len() == 0);
                            }
                        }
                    }
                    proof {
                        if ex {
                            assert forall|a: u32, b: u32, kk: int| #[trigger] escape_by_move(old(self), player, piece_id, a, b, kk)
                                implies a > i || (a == i && b > j) by {
                                if a == i && b == j {
                                    assert(kk < piece_moves_at(old(self), from.0, from.1).len());
                                }
                            }
                        }
                    }
                } else {
                    proof {
                        if ex {
                            assert forall|a: u32, b: u32, kk: int| #[trigger] escape_by_move(old(self), player, piece_id, a, b, kk)
                                implies a > i || (a == i && b > j) by {
                                if a == i && b == j {
                                    assert(cell(old(self), i as int, j as int) == self.board@[i as int]@[j as int]);
                                }
                            }
                        }
                    }
                }
                j += 1;
            }
            proof {
                if ex {
                    assert forall|a: u32, b: u32, kk: int| #[trigger] escape_by_move(old(self), player, piece_id, a, b, kk) implies a > i by {}
                }
            }
            i += 1;
        }
        proof {
            if ex {
                assert forall|a: u32, b: u32, kk: int| !#[trigger] escape_by_move(old(self), player, piece_id, a, b, kk) by {}
            }
        }
        let cement_len = if player == Player::White { self.cementaries.1.len() } else { self.cementaries.0.len() };
        let count = if cement_len > u32::MAX as usize { u32::MAX as usize + 1 } else { cement_len };
        let nx = self.size.0;
        let ny = self.size.1;
        let mut idx: usize = 0;
        while idx < count
            invariant
                count <= u32::MAX + 1,
                count == revive_count(old(self), player),
                nx == old(self).size.0,
                ny == old(self).size.1,
                *self == *old(self),
                escape_needed(old(self), piece_id),
                attack_seen(old(self), player, piece_id, nest),
                ex == mate_exact(old(self), player),
                ex ==> board_clone == cb && same_board(&with_player(old(self), cb.current_player), &cb) && cb.current_player == player,
                ex ==> !escaped(old(self), piece_id) && !no_piece_with_id(old(self), piece_id),
                ex ==> forall|a: u32, b: u32, kk: int| !#[trigger] escape_by_move(old(self), player, piece_id, a, b, kk),
                ex ==> forall|i2: u32, r2: u32, c2: u32| #![trigger revive_verdict(old(self), player, piece_id, i2, (r2, c2))]
                    revive_tried(old(self), player, i2, (r2, c2)) && i2 < idx ==> revive_verdict(old(self), player, piece_id, i2, (r2, c2)) is None,
            decreases count - idx,
        {
            let mut row: u32 = 0;
            while row < nx
                invariant
                    idx < count,
                    count <= u32::MAX + 1,
                    count == revive_count(old(self), player),
                    nx == old(self).size.0,
                    ny == old(self).size.1,
                    *self == *old(self),
                    escape_needed(old(self), piece_id),
                    attack_seen(old(self), player, piece_id, nest),
                    ex == mate_exact(old(self), player),
                    ex ==> board_clone == cb && same_board(&with_player(old(self), cb.current_player), &cb) && cb.current_player == player,
                    ex ==> !escaped(old(self), piece_id) && !no_piece_with_id(old(self), piece_id),
                    ex ==> forall|a: u32, b: u32, kk: int| !#[trigger] escape_by_move(old(self), player, piece_id, a, b, kk),
                    ex ==> forall|i2: u32, r2: u32, c2: u32| #![trigger revive_verdict(old(self), player, piece_id, i2, (r2, c2))]
                        revive_tried(old(self), player, i2, (r2, c2)) && (i2 < idx || (i2 == idx && r2 < row))
                        ==> revive_verdict(old(self), player, piece_id, i2, (r2, c2)) is None,
                decreases nx - row,
            {
                let mut col: u32 = 0;
                while col < ny
                    invariant
                        idx < count,
                        row < nx,
                        count <= u32::MAX + 1,
                        count == revive_count(old(self), player),
                        nx == old(self).size.0,
                        ny == old(self).size.1,
                        *self == *old(self),
                        escape_needed(old(self), piece_id),
                        attack_seen(old(self), player, piece_id, nest),
                        ex == mate_exact(old(self), player),
                        ex ==> board_clone == cb && same_board(&with_player(old(self), cb.current_player), &cb) && cb.current_player == player,
                        ex ==> !escaped(old(self), piece_id) && !no_piece_with_id(old(self), piece_id),
                        ex ==> forall|a: u32, b: u32, kk: int| !#[trigger] escape_by_move(old(self), player, piece_id, a, b, kk),
                        ex ==> forall|i2: u32, r2: u32, c2: u32| #![trigger revive_verdict(old(self), player, piece_id, i2, (r2, c2))]
                            revive_tried(old(self), player, i2, (r2, c2)) && (i2 < idx || (i2 == idx && (r2 < row || (r2 == row && c2 < col))))
                            ==> revive_verdict(old(self), player, piece_id, i2, (r2, c2)) is None,
                    decreases ny - col,
                {
                    let answer = search_revive(&board_clone, idx as u32, (row, col), player, piece_id, &start, nest, Ghost(*old(self)));
                    proof {
                        if ex {
                            assert(revive_tried(old(self), player, idx as u32, (row, col)));
                        }
                    }
                    if let Some(a) = answer {
                        proof {
                            if ex {
                                if let RuleExpression::Boolean(v) = a {
                                    let i0 = idx as u32;
                                    assert(revive_verdict(old(self), player, piece_id, i0, (row, col)) == Some(v));
                                    if v {
                                        assert forall|i3: u32, r3: u32, c3: u32| #![trigger revive_verdict(old(self), player, piece_id, i3, (r3, c3))]
                                            revive_tried(old(self), player, i3, (r3, c3)) && revive_verdict(old(self), player, piece_id, i3, (r3, c3)) == Some(false)
                                            implies exists|i2: u32, r2: u32, c2: u32| #![trigger revive_verdict(old(self), player, piece_id, i2, (r2, c2))]
                                                revive_tried(old(self), player, i2, (r2, c2)) && revive_before(i2, r2, c2, i3, r3, c3)
                                                && revive_verdict(old(self), player, piece_id, i2, (r2, c2)) == Some(true) by {
                                            assert(revive_before(i0, row, col, i3, r3, c3));
                                        }
                                        assert(revivals_mate(old(self), player, piece_id));
                                    } else {
                                        assert(!revivals_mate(old(self), player, piece_id));
                                    }
                                }
                            }
                        }
                        return a;
                    }
                    col += 1;
                }
                row += 1;
            }
            idx += 1;
        }
        proof {
            if ex {
                assert(revivals_mate(old(self), player, piece_id));
            }
        }
        RuleExpression::Boolean(true)
    }
}

/// The side whose win rule alone holds wins: with no end condition, or one that holds, White's
/// rule true and Black's false give a win for White, and the reverse a win for Black. Swapping
/// the values of the two win rules swaps the two wins and leaves every other outcome as it is.
pub proof fn law_win_rules_decide(end: Option<RuleValue>, w: RuleValue, k: RuleValue)
    ensures
        end is None || end == Some(RuleValue::Boolean(true)) ==> outcome_from(end, RuleValue::Boolean(true), RuleValue::Boolean(false)) == Outcome::WhiteWins
            && outcome_from(end, RuleValue::Boolean(false), RuleValue::Boolean(true)) == Outcome::BlackWins,
        outcome_from(end, w, k) == Outcome::WhiteWins <==> outcome_from(end, k, w) == Outcome::BlackWins,
        outcome_from(end, w, k) is Draw <==> outcome_from(end, k, w) is Draw,
        outcome_from(end, w, k) is Continue <==> outcome_from(end, k, w) is Continue,
        end == Some(RuleValue::Boolean(false)) ==> outcome_from(end, w, k) is Continue,
        end is None ==> outcome_from(end, RuleValue::Boolean(false), RuleValue::Boolean(false)) is Continue
            && outcome_from(end, RuleValue::Boolean(true), RuleValue::Boolean(true)) is Draw,
        end == Some(RuleValue::Boolean(true)) ==> outcome_from(end, RuleValue::Boolean(false), RuleValue::Boolean(false)) is Draw
            && outcome_from(end, RuleValue::Boolean(true), RuleValue::Boolean(true)) is Draw,
{
}

/// On a board whose end rules call the board nowhere (where `get_game_state` answers by
/// `spec_outcome`), with no end condition or one that holds: White's win rule true and Black's
/// false is a win for White, and the reverse a win for Black; when both hold it is a draw.
pub proof fn law_game_won_by_the_side_whose_rule_holds(b: &Board, ctx: Map<Seq<char>, Seq<char>>)
    requires
        b.endcondition matches Some(e) ==> pure_eval(e@, ctx) == RuleValue::Boolean(true),
    ensures
        pure_eval(b.wincondition.0@, ctx) == RuleValue::Boolean(true) && pure_eval(b.wincondition.1@, ctx) == RuleValue::Boolean(false)
            ==> spec_outcome(b, ctx) == Outcome::WhiteWins,
        pure_eval(b.wincondition.0@, ctx) == RuleValue::Boolean(false) && pure_eval(b.wincondition.1@, ctx) == RuleValue::Boolean(true)
            ==> spec_outcome(b, ctx) == Outcome::BlackWins,
        pure_eval(b.wincondition.0@, ctx) == RuleValue::Boolean(true) && pure_eval(b.wincondition.1@, ctx) == RuleValue::Boolean(true)
            ==> spec_outcome(b, ctx) == Outcome::Draw,
{
}

} // verus!
