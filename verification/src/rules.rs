//! The board's searches that evaluate the rules of its pieces: possible moves, attacks, the
//! memory of pieces, the events of a move or a revival, and the end of the game.
use vstd::prelude::*;
use std::sync::mpsc::{Receiver, Sender};
use crate::board::{Board, cell, cell_view, in_size, occupied, same_frame};
use crate::dict::Dict;
use crate::eval::{api_free, is_value, lemma_same_frame_refl, lemma_same_frame_trans, level, MATE_NESTING, MAX_DEPTH, pure_eval};
use crate::piece::Piece;
use crate::player::Player;
use crate::pmove::{PMove, PMoveView};
use crate::piece::{PieceView, view_moves};
use crate::rule::{RuleExpression, RuleValue, view_rule, view_rules, lemma_view_rules};
use crate::text::{cat, cat3, cat4, pair_text, pair_to_text, text};

verus! {

/// The events on which a piece's rules fire.
#[derive(Debug, Clone, Copy, PartialEq, Eq, Structural)]
pub enum RuleKind {
    Deathrattle,
    Battlecry,
    Passive,
    Onmove,
    Aftermove,
    Onkill,
}

/// The rules a piece has for an event.
pub open spec fn spec_rules_of(p: Piece, k: RuleKind) -> Option<Vec<RuleExpression>> {
    match k {
        RuleKind::Deathrattle => p.deathrattle,
        RuleKind::Battlecry => p.battlecry,
        RuleKind::Passive => p.passive,
        RuleKind::Onmove => p.onmove,
        RuleKind::Aftermove => p.aftermove,
        RuleKind::Onkill => p.onkill,
    }
}

/// Whether the piece on a square has no rule for an event.
pub open spec fn silent_at(b: &Board, x: int, y: int, k: RuleKind) -> bool {
    match cell(b, x, y) {
        Some(p) => match spec_rules_of(p, k) {
            Some(v) => v@.len() == 0,
            None => true,
        },
        None => true,
    }
}

/// A copy of the rules a piece has for an event.
pub fn rules_of(p: &Piece, k: RuleKind) -> (r: Option<Vec<RuleExpression>>)
    ensures
        match (r, spec_rules_of(*p, k)) {
            (Some(a), Some(b)) => view_rules(a@) == view_rules(b@) && a@.len() == b@.len(),
            (None, None) => true,
            _ => false,
        },
{
    let o = match k {
        RuleKind::Deathrattle => &p.deathrattle,
        RuleKind::Battlecry => &p.battlecry,
        RuleKind::Passive => &p.passive,
        RuleKind::Onmove => &p.onmove,
        RuleKind::Aftermove => &p.aftermove,
        RuleKind::Onkill => &p.onkill,
    };
    match o {
        Some(v) => {
            let c = RuleExpression::duplicate_all(v);
            proof {
                lemma_view_rules(c@);
                lemma_view_rules(v@);
            }
            Some(c)
        },
        None => None,
    }
}

/// The context in which a move from `o` to `n` is judged.
pub open spec fn move_context(o: (u32, u32), n: (u32, u32)) -> Map<Seq<char>, Seq<char>> {
    Map::<Seq<char>, Seq<char>>::empty().insert("old_position"@, pair_text(o.0 as int, o.1 as int)).insert("new_position"@, pair_text(n.0 as int, n.1 as int))
}

/// The frame that `is_attacked_player` and friends keep: everything but squares and cementaries,
/// which rules may change.
pub open spec fn frame(a: &Board, b: &Board) -> bool {
    same_frame(a, b)
}

/// The rules, as values, that the piece on a square has for an event; none when the square is
/// empty or the piece has none.
pub open spec fn rules_at(b: &Board, x: int, y: int, k: RuleKind) -> Seq<RuleValue> {
    match cell(b, x, y) {
        Some(p) => match spec_rules_of(p, k) {
            Some(v) => view_rules(v@),
            None => Seq::empty(),
        },
        None => Seq::empty(),
    }
}

/// Whether both channels to the player are given.
pub open spec fn io_of(sender: Option<&Sender<Option<String>>>, receiver: Option<&Receiver<String>>) -> bool {
    sender is Some && receiver is Some
}

/// What evaluating the rule `e` at `depth` may do, taking the board `b0` to `b1` and the
/// variables `c0` to `c1`: it keeps the frame; a rule that calls the board nowhere, or one past
/// the depth limit, changes nothing; a call of the board does what that call does, one level
/// deeper.
pub open spec fn rule_effect(e: RuleValue, b0: Board, b1: Board, c0: Dict<String>, c1: Dict<String>, depth: u32, io: bool, mate: bool, nest: u32) -> bool {
    &&& same_frame(&b0, &b1)
    &&& (api_free(e) || depth > MAX_DEPTH) ==> b1 == b0 && c1 == c0
    &&& (depth <= MAX_DEPTH && e is ApiCall) ==> exists|r: RuleExpression| #![trigger crate::api::call_done(b0, b1, c0, c1, e->ApiCall_0, e->ApiCall_1, (depth + 1) as u32, io, mate, nest, r)]
        crate::api::call_done(b0, b1, c0, c1, e->ApiCall_0, e->ApiCall_1, (depth + 1) as u32, io, mate, nest, r)
}

/// Whether the boards `bs` and variables `cs` are those that evaluating the rules `rs` one after
/// the other passes through: each step does what `rule_effect` says of its rule.
pub open spec fn fired(rs: Seq<RuleValue>, bs: Seq<Board>, cs: Seq<Dict<String>>, depth: u32, io: bool, mate: bool, nest: u32) -> bool {
    &&& bs.len() == rs.len() + 1
    &&& cs.len() == rs.len() + 1
    &&& forall|i: int| 0 <= i < rs.len() ==> #[trigger] rule_effect(rs[i], bs[i], bs[i + 1], cs[i], cs[i + 1], depth, io, mate, nest)
}

impl Board {
    /// Evaluates, in order, the rules that the piece on `pos` has for the event `kind`; their
    /// results are dropped.
    pub fn fire_rules(
        &mut self,
        pos: (u32, u32),
        kind: RuleKind,
        context: &mut Dict<String>,
        depth: u32,
        sender: Option<&Sender<Option<String>>>,
        receiver: Option<&Receiver<String>>,
        is_evaluate_mate: bool,
        nest: u32,
    )
        ensures
            same_frame(old(self), final(self)),
            silent_at(old(self), pos.0 as int, pos.1 as int, kind) ==> *final(self) == *old(self) && *final(context) == *old(context),
            exists|bs: Seq<Board>, cs: Seq<Dict<String>>| #![trigger fired(rules_at(old(self), pos.0 as int, pos.1 as int, kind), bs, cs, depth, io_of(sender, receiver), is_evaluate_mate, nest)]
                fired(rules_at(old(self), pos.0 as int, pos.1 as int, kind), bs, cs, depth, io_of(sender, receiver), is_evaluate_mate, nest)
                && bs[0] == *old(self) && bs.last() == *final(self) && cs[0] == *old(context) && cs.last() == *final(context),
        decreases nest, level(depth), 15int, 0int,
    {
        let ghost io = io_of(sender, receiver);
        let ghost rs = rules_at(self, pos.0 as int, pos.1 as int, kind);
        let rules = match self.piece_at(pos.0, pos.1) {
            Some(p) => rules_of(p, kind),
            None => None,
        };
        let ghost mut bs: Seq<Board> = seq![*self];
        let ghost mut cs: Seq<Dict<String>> = seq![*context];
        if let Some(v) = rules {
            proof {
                lemma_view_rules(v@);
                let w = spec_rules_of(cell(self, pos.0 as int, pos.1 as int).unwrap(), kind).unwrap();
                lemma_view_rules(w@);
                assert(rs == view_rules(v@));
            }
            let ghost b0 = *self;
            let mut i: usize = 0;
            while i < v.len()
                invariant
                    i <= v.len(),
                    same_frame(&b0, self),
                    b0 == *old(self),
                    v@.len() == 0 ==> *self == b0 && *context == *old(context),
                    rs == view_rules(v@),
                    view_rules(v@).len() == v@.len(),
                    forall|j: int| 0 <= j < v@.len() ==> view_rules(v@)[j] == view_rule(#[trigger] v@[j]),
                    io == io_of(sender, receiver),
                    bs.len() == i + 1,
                    cs.len() == i + 1,
                    bs[0] == b0,
                    cs[0] == *old(context),
                    bs.last() == *self,
                    cs.last() == *context,
                    forall|j: int| 0 <= j < i ==> #[trigger] rule_effect(rs[j], bs[j], bs[j + 1], cs[j], cs[j + 1], depth, io, is_evaluate_mate, nest),
                decreases v.len() - i,
            {
                let ghost before = *self;
                let ghost cbefore = *context;
                let r = v[i].evaluate_in(self, context, depth, sender, receiver, is_evaluate_mate, nest);
                proof {
                    lemma_same_frame_trans(&b0, &before, self);
                    let e = rs[i as int];
                    assert(e == v@[i as int]@);
                    if depth <= MAX_DEPTH && e is ApiCall {
                        assert(crate::api::call_done(before, *self, cbefore, *context, e->ApiCall_0, e->ApiCall_1, (depth + 1) as u32, io, is_evaluate_mate, nest, r));
                    }
                    assert(rule_effect(e, before, *self, cbefore, *context, depth, io, is_evaluate_mate, nest));
                    bs = bs.push(*self);
                    cs = cs.push(*context);
                    assert forall|j: int| 0 <= j < i + 1 implies #[trigger] rule_effect(rs[j], bs[j], bs[j + 1], cs[j], cs[j + 1], depth, io, is_evaluate_mate, nest) by {
                        if j < i {
                            assert(bs[j] == bs.drop_last()[j]);
                            assert(bs[j + 1] == bs.drop_last()[j + 1]);
                            assert(cs[j] == cs.drop_last()[j]);
                            assert(cs[j + 1] == cs.drop_last()[j + 1]);
                        }
                    }
                }
                i += 1;
            }
            proof {
                assert(fired(rules_at(old(self), pos.0 as int, pos.1 as int, kind), bs, cs, depth, io_of(sender, receiver), is_evaluate_mate, nest));
            }
        } else {
            proof {
                assert(rs.len() == 0);
                assert(fired(rules_at(old(self), pos.0 as int, pos.1 as int, kind), bs, cs, depth, io_of(sender, receiver), is_evaluate_mate, nest));
            }
        }
    }
}

/// Whether a condition holds: it evaluates to `true`.
pub open spec fn cond_true(c: RuleValue, ctx: Map<Seq<char>, Seq<char>>) -> bool {
    pure_eval(c, ctx) == RuleValue::Boolean(true)
}

/// Whether the conditions of a piece's moves call the board nowhere.
pub open spec fn moves_api_free(p: PieceView) -> bool {
    &&& (p.movecondition matches Some(c) ==> api_free(c))
    &&& forall|i: int| 0 <= i < p.possiblemoves.len() ==> api_free(#[trigger] p.possiblemoves[i].condition)
}

/// The moves whose condition holds in `ctx`, in their order.
pub open spec fn true_moves(s: Seq<PMoveView>, ctx: Map<Seq<char>, Seq<char>>) -> Seq<PMoveView>
    decreases s.len(),
{
    if s.len() == 0 {
        Seq::empty()
    } else {
        let rest = true_moves(s.drop_last(), ctx);
        if cond_true(s.last().condition, ctx) { rest.push(s.last()) } else { rest }
    }
}

/// The moves of piece `p` from `o` to `n`: none when its move condition is false, else those
/// whose condition holds, if any.
pub open spec fn spec_moves_to(p: PieceView, o: (u32, u32), n: (u32, u32)) -> Option<Seq<PMoveView>> {
    let ctx = move_context(o, n);
    if p.movecondition matches Some(c) && pure_eval(c, ctx) == RuleValue::Boolean(false) {
        None
    } else {
        let s = true_moves(p.possiblemoves, ctx);
        if s.len() == 0 { None } else { Some(s) }
    }
}

/// Whether `get_moves_to` is pinned down exactly: both squares lie on the board and the piece
/// on `o` judges its moves without calling the board.
pub open spec fn moves_to_exact(b: &Board, o: (u32, u32), n: (u32, u32), depth: u32) -> bool {
    &&& in_size(b, o.0 as int, o.1 as int)
    &&& in_size(b, n.0 as int, n.1 as int)
    &&& cell_view(b, o.0 as int, o.1 as int) is Some
    &&& moves_api_free(cell_view(b, o.0 as int, o.1 as int).unwrap())
    &&& depth <= MAX_DEPTH
}

/// Where the `i`-th of several rules evaluated in turn from the board `b0` and context `c0` starts:
/// there, or where the one before left (`t` holds, for each rule, the board, context and value
/// it left).
pub open spec fn step_start(b0: Board, c0: Dict<String>, t: Seq<(Board, Dict<String>, RuleValue)>, i: int) -> (Board, Dict<String>) {
    if i == 0 { (b0, c0) } else { (t[i - 1].0, t[i - 1].1) }
}

/// Whether the conditions of the moves `s`, evaluated in turn from `b0`, `c0` at call depth
/// `depth` (the player out of reach, no mate being searched for), may leave `t`.
pub open spec fn conditions_in_turn(s: Seq<PMoveView>, t: Seq<(Board, Dict<String>, RuleValue)>, b0: Board, c0: Dict<String>,
    depth: u32, nest: u32) -> bool {
    &&& t.len() == s.len()
    &&& forall|i: int| 0 <= i < s.len() ==> #[trigger] crate::eval::evaluated(s[i].condition, step_start(b0, c0, t, i).0,
        step_start(b0, c0, t, i).1, t[i].0, t[i].1, t[i].2, depth, false, false, nest)
}

/// The moves of `s` whose condition's value in `t` is `true`, in their order.
pub open spec fn kept_moves(s: Seq<PMoveView>, t: Seq<(Board, Dict<String>, RuleValue)>) -> Seq<PMoveView>
    decreases s.len(),
{
    if s.len() == 0 || t.len() == 0 {
        Seq::empty()
    } else {
        let rest = kept_moves(s.drop_last(), t.drop_last());
        if t.last().2 == RuleValue::Boolean(true) { rest.push(s.last()) } else { rest }
    }
}

/// Whether `get_moves_to` may answer `r` for a move of the piece on `o` to `n` on the board `b`,
/// leaving the board `bf`: in the context `c0` that names the two squares, the piece's move
/// condition, if any, is evaluated on the board (to `bm`, `cm`, `x`); when it is `false` there is
/// no move; else the conditions of the piece's moves are evaluated in turn (see
/// `conditions_in_turn`), and the moves whose condition is `true` are the answer, if any.
pub open spec fn moves_found(b: Board, o: (u32, u32), n: (u32, u32), depth: u32, nest: u32, c0: Dict<String>, bm: Board,
    cm: Dict<String>, x: RuleValue, t: Seq<(Board, Dict<String>, RuleValue)>, bf: Board, r: Option<Seq<PMoveView>>) -> bool {
    let pv = cell_view(&b, o.0 as int, o.1 as int).unwrap();
    &&& c0@ == move_context(o, n)
    &&& match pv.movecondition {
        Some(c) => crate::eval::evaluated(c, b, c0, bm, cm, x, depth, false, false, nest),
        None => bm == b && cm == c0 && x == RuleValue::Void,
    }
    &&& if x == RuleValue::Boolean(false) {
        r is None && bf == bm
    } else {
        &&& conditions_in_turn(pv.possiblemoves, t, bm, cm, depth, nest)
        &&& bf == step_start(bm, cm, t, t.len() as int).0
        &&& r == (if kept_moves(pv.possiblemoves, t).len() == 0 { None } else { Some(kept_moves(pv.possiblemoves, t)) })
    }
}

/// The moves of an answer, as values.
pub open spec fn opt_moves_view(r: Option<Vec<PMove>>) -> Option<Seq<PMoveView>> {
    match r {
        Some(v) => Some(view_moves(v@)),
        None => None,
    }
}

impl Board {
    /// The moves by which the piece on `old_position` may go to `new_position`, judged by its
    /// move condition and the conditions of its moves.
    pub fn get_moves_to(&mut self, old_position: (u32, u32), new_position: (u32, u32), depth: u32) -> (r: Option<Vec<PMove>>)
        ensures
            same_frame(old(self), final(self)),
            !(in_size(old(self), old_position.0 as int, old_position.1 as int) && in_size(old(self), new_position.0 as int, new_position.1 as int))
                ==> r is None && *final(self) == *old(self),
            cell(old(self), old_position.0 as int, old_position.1 as int) is None ==> r is None && *final(self) == *old(self),
            moves_to_exact(old(self), old_position, new_position, depth)
                ==> *final(self) == *old(self) && match (r, spec_moves_to(cell_view(old(self), old_position.0 as int, old_position.1 as int).unwrap(), old_position, new_position)) {
                    (Some(v), Some(s)) => view_moves(v@) == s,
                    (None, None) => true,
                    _ => false,
                },
            in_size(old(self), old_position.0 as int, old_position.1 as int) && in_size(old(self), new_position.0 as int, new_position.1 as int)
                && cell(old(self), old_position.0 as int, old_position.1 as int) is Some
                ==> exists|c0: Dict<String>, bm: Board, cm: Dict<String>, x: RuleValue, t: Seq<(Board, Dict<String>, RuleValue)>|
                    #![trigger moves_found(*old(self), old_position, new_position, depth, MATE_NESTING, c0, bm, cm, x, t, *final(self), opt_moves_view(r))]
                    moves_found(*old(self), old_position, new_position, depth, MATE_NESTING, c0, bm, cm, x, t, *final(self), opt_moves_view(r)),
    {
        self.get_moves_to_in(old_position, new_position, depth, MATE_NESTING)
    }

    /// `get_moves_to`, allowed `nest` more nested searches for a mate.
    pub fn get_moves_to_in(&mut self, old_position: (u32, u32), new_position: (u32, u32), depth: u32, nest: u32) -> (r: Option<Vec<PMove>>)
        ensures
            same_frame(old(self), final(self)),
            !(in_size(old(self), old_position.0 as int, old_position.1 as int) && in_size(old(self), new_position.0 as int, new_position.1 as int))
                ==> r is None && *final(self) == *old(self),
            cell(old(self), old_position.0 as int, old_position.1 as int) is None ==> r is None && *final(self) == *old(self),
            moves_to_exact(old(self), old_position, new_position, depth)
                ==> *final(self) == *old(self) && match (r, spec_moves_to(cell_view(old(self), old_position.0 as int, old_position.1 as int).unwrap(), old_position, new_position)) {
                    (Some(v), Some(s)) => view_moves(v@) == s,
                    (None, None) => true,
                    _ => false,
                },
            in_size(old(self), old_position.0 as int, old_position.1 as int) && in_size(old(self), new_position.0 as int, new_position.1 as int)
                && cell(old(self), old_position.0 as int, old_position.1 as int) is Some
                ==> exists|c0: Dict<String>, bm: Board, cm: Dict<String>, x: RuleValue, t: Seq<(Board, Dict<String>, RuleValue)>|
                    #![trigger moves_found(*old(self), old_position, new_position, depth, nest, c0, bm, cm, x, t, *final(self), opt_moves_view(r))]
                    moves_found(*old(self), old_position, new_position, depth, nest, c0, bm, cm, x, t, *final(self), opt_moves_view(r)),
            in_size(old(self), old_position.0 as int, old_position.1 as int) && in_size(old(self), new_position.0 as int, new_position.1 as int)
                && cell(old(self), old_position.0 as int, old_position.1 as int) is Some
                ==> exists|c0: Dict<String>, bm: Board, cm: Dict<String>, x: RuleValue, t: Seq<(Board, Dict<String>, RuleValue)>|
                    #![trigger moves_found(*old(self), old_position, new_position, depth, nest, c0, bm, cm, x, t, *final(self), opt_moves_view(r))]
                    moves_found(*old(self), old_position, new_position, depth, nest, c0, bm, cm, x, t, *final(self), opt_moves_view(r)),
        decreases nest, level(depth), 16int, 0int,
    {
        let (x, y) = old_position;
        let (x2, y2) = new_position;
        if x >= self.size.0 || y >= self.size.1 || x2 >= self.size.0 || y2 >= self.size.1 {
            return None;
        }
        let (possible_moves, movecondition) = match self.piece_at(x, y) {
            Some(p) => (crate::piece::copy_moves(&p.possiblemoves), match &p.movecondition {
                Some(c) => Some(c.duplicate()),
                None => None,
            }),
            None => { return None; },
        };
        let ghost pv = cell_view(self, x as int, y as int).unwrap();
        let ghost b0 = *self;
        let mut context: Dict<String> = Dict::new();
        context.insert(text("old_position"), pair_to_text(x as i64, y as i64));
        context.insert(text("new_position"), pair_to_text(x2 as i64, y2 as i64));
        let ghost ctx = context@;
        assert(ctx == move_context(old_position, new_position));
        let ghost c0 = context;
        let ghost mut xv = RuleValue::Void;
        if let Some(c) = &movecondition {
            let v = c.evaluate_in(self, &mut context, depth, None, None, false, nest);
            proof { xv = v@; }
            if let RuleExpression::Boolean(false) = v {
                proof {
                    assert(moves_found(b0, old_position, new_position, depth, nest, c0, *self, context, xv, Seq::empty(), *self, None));
                }
                return None;
            }
        }
        let ghost bm = *self;
        let ghost cm = context;
        let ghost mut t: Seq<(Board, Dict<String>, RuleValue)> = Seq::empty();
        let mut ret: Vec<PMove> = Vec::new();
        let mut i: usize = 0;
        while i < possible_moves.len()
            invariant
                i <= possible_moves.len(),
                view_moves(possible_moves@) == pv.possiblemoves,
                same_frame(&b0, self),
                b0 == *old(self),
                moves_api_free(pv) && depth <= MAX_DEPTH ==> *self == b0 && context@ == ctx
                    && view_moves(ret@) == true_moves(pv.possiblemoves.take(i as int), ctx),
                t.len() == i,
                conditions_in_turn(pv.possiblemoves.take(i as int), t, bm, cm, depth, nest),
                (*self, context) == step_start(bm, cm, t, i as int),
                view_moves(ret@) == kept_moves(pv.possiblemoves.take(i as int), t),
            decreases possible_moves.len() - i,
        {
            let ghost before = *self;
            proof {
                assert(view_moves(possible_moves@)[i as int] == possible_moves@[i as int]@);
                assert(possible_moves@[i as int]@ == pv.possiblemoves[i as int]);
                if moves_api_free(pv) {
                    assert(api_free(pv.possiblemoves[i as int].condition));
                }
            }
            let ghost before_c = context;
            let v = possible_moves[i].condition.evaluate_in(self, &mut context, depth, None, None, false, nest);
            let ghost t0 = t;
            proof {
                t = t.push((*self, context, v@));
                let s1 = pv.possiblemoves.take(i + 1);
                assert(s1.drop_last() == pv.possiblemoves.take(i as int));
                assert(t.drop_last() == t0);
                assert forall|j: int| 0 <= j < s1.len() implies #[trigger] crate::eval::evaluated(s1[j].condition, step_start(bm, cm, t, j).0,
                    step_start(bm, cm, t, j).1, t[j].0, t[j].1, t[j].2, depth, false, false, nest) by {
                    if j < i {
                        assert(s1[j] == pv.possiblemoves.take(i as int)[j]);
                        assert(step_start(bm, cm, t, j) == step_start(bm, cm, t0, j));
                        assert(t[j] == t0[j]);
                    } else {
                        assert(step_start(bm, cm, t, j) == step_start(bm, cm, t0, j));
                        assert(s1[j] == pv.possiblemoves[i as int]);
                    }
                }
                lemma_same_frame_trans(&b0, &before, self);
                let t = pv.possiblemoves.take(i + 1);
                assert(t.drop_last() == pv.possiblemoves.take(i as int));
                assert(t.last() == pv.possiblemoves[i as int]);
            }
            if let RuleExpression::Boolean(true) = v {
                ret.push(possible_moves[i].duplicate());
                proof {
                    assert(view_moves(ret@) =~= view_moves(ret@.drop_last()).push(ret@.last()@));
                }
            }
            i += 1;
        }
        proof {
            assert(pv.possiblemoves.take(possible_moves@.len() as int) == pv.possiblemoves);
            assert(moves_found(b0, old_position, new_position, depth, nest, c0, bm, cm, xv, t, *self,
                if ret@.len() == 0 { None } else { Some(view_moves(ret@)) }));
        }
        if ret.len() == 0 {
            return None;
        }
        Some(ret)
    }
}

/// The squares of row `x` among the first `ny` columns that satisfy `pred`, in order.
pub open spec fn row_squares(x: u32, ny: u32, pred: spec_fn(u32, u32) -> bool) -> Seq<(u32, u32)>
    decreases ny,
{
    if ny == 0 {
        Seq::empty()
    } else {
        let rest = row_squares(x, (ny - 1) as u32, pred);
        if pred(x, (ny - 1) as u32) { rest.push((x, (ny - 1) as u32)) } else { rest }
    }
}

/// The squares of the first `nx` rows and `ny` columns that satisfy `pred`, in row order.
pub open spec fn grid_squares(nx: u32, ny: u32, pred: spec_fn(u32, u32) -> bool) -> Seq<(u32, u32)>
    decreases nx,
{
    if nx == 0 {
        Seq::empty()
    } else {
        grid_squares((nx - 1) as u32, ny, pred) + row_squares((nx - 1) as u32, ny, pred)
    }
}

/// What judging whether a piece may go to the square `sq` went through: the context `cs` with
/// `new_position` set to the square, the conditions of the piece's moves evaluated in turn until
/// one is `true` (`tm`), then its move condition, if any, leaving `bq`, `cq` and the value `y`.
pub ghost struct SquareSteps {
    pub sq: (u32, u32),
    pub cs: Dict<String>,
    pub tm: Seq<(Board, Dict<String>, RuleValue)>,
    pub bq: Board,
    pub cq: Dict<String>,
    pub y: RuleValue,
}

/// Whether the steps `st` judge the square `st.sq` for the piece `pv` from the board `b0` and the
/// context `c0` (at call depth `depth`, the player out of reach, no mate being searched for).
pub open spec fn square_judged(pv: PieceView, st: SquareSteps, b0: Board, c0: Dict<String>, depth: u32, nest: u32) -> bool {
    let n = st.tm.len() as int;
    let end = step_start(b0, st.cs, st.tm, n);
    &&& st.cs@ == c0@.insert("new_position"@, pair_text(st.sq.0 as int, st.sq.1 as int))
    &&& n <= pv.possiblemoves.len()
    &&& conditions_in_turn(pv.possiblemoves.take(n), st.tm, b0, st.cs, depth, nest)
    &&& forall|k: int| 0 <= k < n - 1 ==> (#[trigger] st.tm[k]).2 != RuleValue::Boolean(true)
    &&& n == pv.possiblemoves.len() || st.tm[n - 1].2 == RuleValue::Boolean(true)
    &&& match pv.movecondition {
        Some(c) => crate::eval::evaluated(c, end.0, end.1, st.bq, st.cq, st.y, depth, false, false, nest),
        None => st.bq == end.0 && st.cq == end.1 && st.y == RuleValue::Boolean(true),
    }
}

/// Whether the steps `st` let the piece go to their square: a move's condition and the move
/// condition are `true`.
pub open spec fn square_kept(st: SquareSteps) -> bool {
    st.tm.len() > 0 && st.tm.last().2 == RuleValue::Boolean(true) && st.y == RuleValue::Boolean(true)
}

/// The squares of `g`, in order.
pub open spec fn steps_squares(g: Seq<SquareSteps>) -> Seq<(u32, u32)> {
    g.map_values(|st: SquareSteps| st.sq)
}

/// The squares of `g` that the piece may go to, in order.
pub open spec fn kept_squares(g: Seq<SquareSteps>) -> Seq<(u32, u32)>
    decreases g.len(),
{
    if g.len() == 0 {
        Seq::empty()
    } else {
        let rest = kept_squares(g.drop_last());
        if square_kept(g.last()) { rest.push(g.last().sq) } else { rest }
    }
}

/// Where the judging of the `k`-th square of `g` starts: the board and context `b0`, `c0`, or
/// where the square before left them.
pub open spec fn square_start(b0: Board, c0: Dict<String>, g: Seq<SquareSteps>, k: int) -> (Board, Dict<String>) {
    if k == 0 { (b0, c0) } else { (g[k - 1].bq, g[k - 1].cq) }
}

/// Whether the squares judged by `g`, each in turn from where the one before left the board and
/// context, start from `b0`, `c0`.
pub open spec fn squares_in_turn(pv: PieceView, g: Seq<SquareSteps>, b0: Board, c0: Dict<String>, depth: u32, nest: u32) -> bool {
    forall|k: int| 0 <= k < g.len() ==> #[trigger] square_judged(pv, g[k], square_start(b0, c0, g, k).0, square_start(b0, c0, g, k).1, depth, nest)
}

/// Whether `get_possible_positions` may answer `r` for the piece on `o` of the board `b`, leaving
/// the board `bf`: in the context `c0` that names `o`, every square of the board, in row order,
/// is judged in turn (see `square_judged`), and the answer is the squares the piece may go to.
pub open spec fn positions_found(b: Board, o: (u32, u32), depth: u32, nest: u32, c0: Dict<String>, g: Seq<SquareSteps>, bf: Board,
    r: Seq<(u32, u32)>) -> bool {
    let pv = cell_view(&b, o.0 as int, o.1 as int).unwrap();
    &&& c0@ == Map::<Seq<char>, Seq<char>>::empty().insert("old_position"@, pair_text(o.0 as int, o.1 as int))
    &&& steps_squares(g) == grid_squares(b.size.0, b.size.1, |x: u32, y: u32| true)
    &&& squares_in_turn(pv, g, b, c0, depth, nest)
    &&& bf == square_start(b, c0, g, g.len() as int).0
    &&& r == kept_squares(g)
}

/// Whether the piece `p` on `o` may go to `n`: one of its moves' conditions holds, and its move
/// condition, if any, holds too.
pub open spec fn position_ok(p: PieceView, o: (u32, u32), n: (u32, u32)) -> bool {
    let ctx = move_context(o, n);
    &&& exists|i: int| 0 <= i < p.possiblemoves.len() && cond_true(#[trigger] p.possiblemoves[i].condition, ctx)
    &&& (p.movecondition matches Some(c) ==> cond_true(c, ctx))
}

/// Some move of a list has its condition hold exactly when the list of such moves is not empty.
proof fn lemma_true_moves_nonempty(s: Seq<PMoveView>, ctx: Map<Seq<char>, Seq<char>>)
    ensures
        true_moves(s, ctx).len() > 0 <==> exists|i: int| 0 <= i < s.len() && cond_true(#[trigger] s[i].condition, ctx),
    decreases s.len(),
{
    if s.len() > 0 {
        lemma_true_moves_nonempty(s.drop_last(), ctx);
        if exists|i: int| 0 <= i < s.drop_last().len() && cond_true(#[trigger] s.drop_last()[i].condition, ctx) {
            let i = choose|i: int| 0 <= i < s.drop_last().len() && cond_true(#[trigger] s.drop_last()[i].condition, ctx);
            assert(s[i] == s.drop_last()[i]);
        }
        if exists|i: int| 0 <= i < s.len() && cond_true(#[trigger] s[i].condition, ctx) {
            let i = choose|i: int| 0 <= i < s.len() && cond_true(#[trigger] s[i].condition, ctx);
            if i < s.len() - 1 {
                assert(s.drop_last()[i] == s[i]);
            }
        }
    }
}

/// The squares to which a piece may go are those it has a move to: `get_possible_positions`
/// lists `n` for the piece `p` on `o` exactly when `get_moves_to` finds it a move from `o` to
/// `n`, where its move condition, if any, gives a boolean there.
pub proof fn law_positions_are_move_targets(p: PieceView, o: (u32, u32), n: (u32, u32))
    requires
        p.movecondition matches Some(c) ==> pure_eval(c, move_context(o, n)) is Boolean,
    ensures
        position_ok(p, o, n) <==> spec_moves_to(p, o, n) is Some,
{
    lemma_true_moves_nonempty(p.possiblemoves, move_context(o, n));
}

/// Whether `get_possible_positions` is pinned down exactly for the piece on `o`.
pub open spec fn positions_exact(b: &Board, o: (u32, u32), depth: u32) -> bool {
    &&& in_size(b, o.0 as int, o.1 as int)
    &&& cell_view(b, o.0 as int, o.1 as int) is Some
    &&& moves_api_free(cell_view(b, o.0 as int, o.1 as int).unwrap())
    &&& depth <= MAX_DEPTH
}

impl Board {
    /// The squares, in row order, to which the piece on `old_position` may go.
    pub fn get_possible_positions(&mut self, old_position: (u32, u32), depth: u32) -> (r: Option<Vec<(u32, u32)>>)
        ensures
            same_frame(old(self), final(self)),
            !in_size(old(self), old_position.0 as int, old_position.1 as int) || cell(old(self), old_position.0 as int, old_position.1 as int) is None
                ==> r is None && *final(self) == *old(self),
            in_size(old(self), old_position.0 as int, old_position.1 as int) && cell(old(self), old_position.0 as int, old_position.1 as int) is Some ==> r is Some,
            positions_exact(old(self), old_position, depth) ==> *final(self) == *old(self) && r is Some
                && r.unwrap()@ == grid_squares(old(self).size.0, old(self).size.1,
                    |x: u32, y: u32| position_ok(cell_view(old(self), old_position.0 as int, old_position.1 as int).unwrap(), old_position, (x, y))),
            in_size(old(self), old_position.0 as int, old_position.1 as int) && cell(old(self), old_position.0 as int, old_position.1 as int) is Some
                ==> exists|c0: Dict<String>, g: Seq<SquareSteps>| #![trigger positions_found(*old(self), old_position, depth, MATE_NESTING, c0, g, *final(self), r.unwrap()@)]
                    positions_found(*old(self), old_position, depth, MATE_NESTING, c0, g, *final(self), r.unwrap()@),
    {
        self.get_possible_positions_in(old_position, depth, MATE_NESTING)
    }

    /// `get_possible_positions`, allowed `nest` more nested searches for a mate.
    pub fn get_possible_positions_in(&mut self, old_position: (u32, u32), depth: u32, nest: u32) -> (r: Option<Vec<(u32, u32)>>)
        ensures
            same_frame(old(self), final(self)),
            !in_size(old(self), old_position.0 as int, old_position.1 as int) || cell(old(self), old_position.0 as int, old_position.1 as int) is None
                ==> r is None && *final(self) == *old(self),
            in_size(old(self), old_position.0 as int, old_position.1 as int) && cell(old(self), old_position.0 as int, old_position.1 as int) is Some ==> r is Some,
            positions_exact(old(self), old_position, depth) ==> *final(self) == *old(self) && r is Some
                && r.unwrap()@ == grid_squares(old(self).size.0, old(self).size.1,
                    |x: u32, y: u32| position_ok(cell_view(old(self), old_position.0 as int, old_position.1 as int).unwrap(), old_position, (x, y))),
            in_size(old(self), old_position.0 as int, old_position.1 as int) && cell(old(self), old_position.0 as int, old_position.1 as int) is Some
                ==> exists|c0: Dict<String>, g: Seq<SquareSteps>| #![trigger positions_found(*old(self), old_position, depth, nest, c0, g, *final(self), r.unwrap()@)]
                    positions_found(*old(self), old_position, depth, nest, c0, g, *final(self), r.unwrap()@),
        decreases nest, level(depth), 16int, 0int,
    {
        let (x, y) = old_position;
        if x >= self.size.0 || y >= self.size.1 {
            return None;
        }
        let (possible_moves, movecondition) = match self.piece_at(x, y) {
            Some(p) => (crate::piece::copy_moves(&p.possiblemoves), match &p.movecondition {
                Some(c) => Some(c.duplicate()),
                None => None,
            }),
            None => { return None; },
        };
        let ghost pv = cell_view(self, x as int, y as int).unwrap();
        let ghost pred = |a: u32, b: u32| position_ok(pv, old_position, (a, b));
        let ghost exact = positions_exact(self, old_position, depth);
        let ghost b0 = *self;
        let mut ret: Vec<(u32, u32)> = Vec::new();
        let mut context: Dict<String> = Dict::new();
        context.insert(text("old_position"), pair_to_text(x as i64, y as i64));
        let ghost m0 = context@;
        let ghost cstart = context;
        let ghost mut g: Seq<SquareSteps> = Seq::empty();
        assert(m0 == Map::<Seq<char>, Seq<char>>::empty().insert("old_position"@, pair_text(x as int, y as int)));
        let nx = self.size.0;
        let ny = self.size.1;
        let mut i: u32 = 0;
        while i < nx
            invariant
                i <= nx,
                nx == b0.size.0,
                ny == b0.size.1,
                view_moves(possible_moves@) == pv.possiblemoves,
                view_opt(movecondition) == pv.movecondition,
                same_frame(&b0, self),
                b0 == *old(self),
                exact == positions_exact(&b0, old_position, depth),
                exact ==> moves_api_free(pv) && depth <= MAX_DEPTH,
                pred == (|a: u32, b: u32| position_ok(pv, old_position, (a, b))),
                m0 == Map::<Seq<char>, Seq<char>>::empty().insert("old_position"@, pair_text(x as int, y as int)),
                old_position == (x, y),
                exact ==> context@.remove("new_position"@) == m0.remove("new_position"@),
                exact ==> *self == b0 && ret@ == grid_squares(i, ny, pred),
                cstart@ == m0,
                steps_squares(g) == grid_squares(i, ny, |a: u32, b: u32| true),
                squares_in_turn(pv, g, b0, cstart, depth, nest),
                (*self, context) == square_start(b0, cstart, g, g.len() as int),
                ret@ == kept_squares(g),
            decreases nx - i,
        {
            let mut j: u32 = 0;
            while j < ny
                invariant
                    i < nx,
                    j <= ny,
                    nx == b0.size.0,
                    ny == b0.size.1,
                    view_moves(possible_moves@) == pv.possiblemoves,
                    view_opt(movecondition) == pv.movecondition,
                    same_frame(&b0, self),
                    b0 == *old(self),
                    exact ==> moves_api_free(pv) && depth <= MAX_DEPTH,
                    pred == (|a: u32, b: u32| position_ok(pv, old_position, (a, b))),
                    m0 == Map::<Seq<char>, Seq<char>>::empty().insert("old_position"@, pair_text(x as int, y as int)),
                    old_position == (x, y),
                    exact ==> context@.remove("new_position"@) == m0.remove("new_position"@),
                    exact ==> *self == b0 && ret@ == grid_squares(i, ny, pred) + row_squares(i, j, pred),
                    cstart@ == m0,
                    steps_squares(g) == grid_squares(i, ny, |a: u32, b: u32| true) + row_squares(i, j, |a: u32, b: u32| true),
                    squares_in_turn(pv, g, b0, cstart, depth, nest),
                    (*self, context) == square_start(b0, cstart, g, g.len() as int),
                    ret@ == kept_squares(g),
                decreases ny - j,
            {
                let ghost prev = context@;
                let ghost b_sq = *self;
                let ghost c_prev = context;
                context.insert(text("new_position"), pair_to_text(i as i64, j as i64));
                let ghost ctx = context@;
                let ghost cs = context;
                let ghost mut tm: Seq<(Board, Dict<String>, RuleValue)> = Seq::empty();
                proof {
                    if exact {
                        lemma_insert_same(prev, m0, "new_position"@, pair_text(i as int, j as int));
                        assert(ctx == prev.insert("new_position"@, pair_text(i as int, j as int)));
                        assert(move_context(old_position, (i, j)) == m0.insert("new_position"@, pair_text(i as int, j as int)));
                        assert(ctx.remove("new_position"@) =~= m0.remove("new_position"@));
                    }
                }
                let mut move_possible = false;
                let mut k: usize = 0;
                while k < possible_moves.len()
                    invariant
                        k <= possible_moves.len(),
                        view_moves(possible_moves@) == pv.possiblemoves,
                        same_frame(&b0, self),
                        b0 == *old(self),
                        exact ==> moves_api_free(pv) && depth <= MAX_DEPTH,
                        exact ==> *self == b0 && context@ == ctx,
                        exact ==> ctx == move_context(old_position, (i, j)),
                        exact ==> ctx.remove("new_position"@) == m0.remove("new_position"@),
                        exact ==> (move_possible <==> exists|m: int| 0 <= m < k && cond_true(#[trigger] pv.possiblemoves[m].condition, ctx)),
                        !move_possible || k == possible_moves.len(),
                        tm.len() <= pv.possiblemoves.len(),
                        !move_possible ==> tm.len() == k,
                        move_possible ==> tm.len() > 0 && tm.last().2 == RuleValue::Boolean(true),
                        !move_possible ==> forall|q: int| 0 <= q < tm.len() ==> (#[trigger] tm[q]).2 != RuleValue::Boolean(true),
                        move_possible ==> forall|q: int| 0 <= q < tm.len() - 1 ==> (#[trigger] tm[q]).2 != RuleValue::Boolean(true),
                        conditions_in_turn(pv.possiblemoves.take(tm.len() as int), tm, b_sq, cs, depth, nest),
                        (*self, context) == step_start(b_sq, cs, tm, tm.len() as int),
                        cs@ == c_prev@.insert("new_position"@, pair_text(i as int, j as int)),
                    decreases possible_moves.len() - k,
                {
                    proof {
                        assert(view_moves(possible_moves@)[k as int] == possible_moves@[k as int]@);
                        if exact {
                            assert(api_free(pv.possiblemoves[k as int].condition));
                        }
                    }
                    let ghost before = *self;
                    let ghost before_c = context;
                    let v = possible_moves[k].condition.evaluate_in(self, &mut context, depth, None, None, false, nest);
                    proof {
                        lemma_same_frame_trans(&b0, &before, self);
                        let t0 = tm;
                        tm = tm.push((*self, context, v@));
                        let s1 = pv.possiblemoves.take(tm.len() as int);
                        assert(s1.drop_last() == pv.possiblemoves.take(t0.len() as int));
                        assert(tm.drop_last() == t0);
                        assert forall|q: int| 0 <= q < s1.len() implies #[trigger] crate::eval::evaluated(s1[q].condition, step_start(b_sq, cs, tm, q).0,
                            step_start(b_sq, cs, tm, q).1, tm[q].0, tm[q].1, tm[q].2, depth, false, false, nest) by {
                            assert(step_start(b_sq, cs, tm, q) == step_start(b_sq, cs, t0, q));
                            if q < t0.len() {
                                assert(s1[q] == pv.possiblemoves.take(t0.len() as int)[q]);
                                assert(tm[q] == t0[q]);
                            } else {
                                assert(s1[q] == pv.possiblemoves[k as int]);
                            }
                        }
                    }
                    if let RuleExpression::Boolean(true) = v {
                        move_possible = true;
                        k = possible_moves.len();
                    } else {
                        k += 1;
                    }
                }
                let ghost mut yv = RuleValue::Boolean(true);
                let condition_met = match &movecondition {
                    None => true,
                    Some(c) => {
                        let ghost before = *self;
                        let v = c.evaluate_in(self, &mut context, depth, None, None, false, nest);
                        proof {
                            lemma_same_frame_trans(&b0, &before, self);
                            yv = v@;
                        }
                        if let RuleExpression::Boolean(true) = v { true } else { false }
                    },
                };
                let ghost st = SquareSteps { sq: (i, j), cs: cs, tm: tm, bq: *self, cq: context, y: yv };
                proof {
                    assert(square_judged(pv, st, b_sq, c_prev, depth, nest));
                    assert(square_kept(st) == (move_possible && condition_met));
                }
                proof {
                    if exact {
                        assert(move_possible && condition_met <==> pred(i, j));
                    }
                }
                let ghost g0 = g;
                if move_possible && condition_met {
                    ret.push((i, j));
                }
                proof {
                    g = g.push(st);
                    assert(g.drop_last() == g0);
                    assert(steps_squares(g) =~= steps_squares(g0).push((i, j)));
                    assert forall|q: int| 0 <= q < g.len() implies #[trigger] square_judged(pv, g[q], square_start(b0, cstart, g, q).0,
                        square_start(b0, cstart, g, q).1, depth, nest) by {
                        assert(square_start(b0, cstart, g, q) == square_start(b0, cstart, g0, q));
                        if q < g0.len() {
                            assert(g[q] == g0[q]);
                        }
                    }
                    assert(row_squares(i, (j + 1) as u32, |a: u32, b: u32| true) == row_squares(i, j, |a: u32, b: u32| true).push((i, j)));
                }
                proof {
                    if exact {
                        assert(row_squares(i, (j + 1) as u32, pred) == (if pred(i, j) { row_squares(i, j, pred).push((i, j)) } else { row_squares(i, j, pred) }));
                        assert(ret@ =~= grid_squares(i, ny, pred) + row_squares(i, (j + 1) as u32, pred));
                    }
                }
                j += 1;
            }
            proof {
                if exact {
                    assert(grid_squares((i + 1) as u32, ny, pred) == grid_squares(i, ny, pred) + row_squares(i, ny, pred));
                }
                assert(grid_squares((i + 1) as u32, ny, |a: u32, b: u32| true) == grid_squares(i, ny, |a: u32, b: u32| true) + row_squares(i, ny, |a: u32, b: u32| true));
            }
            i += 1;
        }
        proof {
            let f1 = |a: u32, b: u32| true;
            let f2 = |x: u32, y: u32| true;
            assert(f1 =~= f2);
            assert(grid_squares(nx, ny, f1) == grid_squares(nx, ny, f2));
            assert(positions_found(b0, old_position, depth, nest, cstart, g, *self, ret@));
            assert(b0 == *old(self));
        }
        let r = Some(ret);
        proof {
            assert(r.unwrap()@ == ret@);
            assert(positions_found(*old(self), old_position, depth, nest, cstart, g, *self, r.unwrap()@));
        }
        r
    }
}

/// Two maps that agree away from `k` agree once `k` is set in both.
pub proof fn lemma_insert_same(a: Map<Seq<char>, Seq<char>>, b: Map<Seq<char>, Seq<char>>, k: Seq<char>, v: Seq<char>)
    requires
        a.remove(k) == b.remove(k),
    ensures
        a.insert(k, v) == b.insert(k, v),
{
    assert forall|kk: Seq<char>| kk != k implies (a.contains_key(kk) <==> b.contains_key(kk)) && (a.contains_key(kk) ==> a[kk] == b[kk]) by {
        assert(a.remove(k).contains_key(kk) == a.contains_key(kk));
        assert(b.remove(k).contains_key(kk) == b.contains_key(kk));
        if a.contains_key(kk) {
            assert(a.remove(k)[kk] == a[kk]);
            assert(b.remove(k)[kk] == b[kk]);
        }
    }
    let x = a.insert(k, v);
    let y = b.insert(k, v);
    assert(x.dom() =~= y.dom()) by {
        assert forall|kk: Seq<char>| x.dom().contains(kk) <==> y.dom().contains(kk) by {
            if kk != k {
                assert(x.contains_key(kk) == a.contains_key(kk));
                assert(y.contains_key(kk) == b.contains_key(kk));
                assert(a.remove(k).contains_key(kk) == a.contains_key(kk));
                assert(b.remove(k).contains_key(kk) == b.contains_key(kk));
            }
        }
    }
    assert forall|kk: Seq<char>| x.contains_key(kk) implies #[trigger] x[kk] == y[kk] by {
        if kk != k {
            assert(x[kk] == a[kk]);
            assert(y[kk] == b[kk]);
        }
    }
    assert(x =~= y);
}

/// The view of an optional rule.
pub open spec fn view_opt(o: Option<RuleExpression>) -> Option<RuleValue> {
    match o {
        Some(e) => Some(e@),
        None => None,
    }
}

/// Whether every piece on the board judges its moves without calling the board.
pub open spec fn board_api_free(b: &Board) -> bool {
    forall|x: int, y: int| #[trigger] cell_view(b, x, y) matches Some(q) ==> moves_api_free(q)
}

/// Whether the piece on `(x, y)` is not on `pos`, is not owned by `pp`, and may move to `pos`.
pub open spec fn attacks_as_opponent(b: &Board, x: u32, y: u32, pos: (u32, u32), pp: Player) -> bool {
    &&& (x, y) != pos
    &&& cell_view(b, x as int, y as int) is Some
    &&& cell_view(b, x as int, y as int).unwrap().owner != pp
    &&& spec_moves_to(cell_view(b, x as int, y as int).unwrap(), (x, y), pos) is Some
}

/// Whether the piece on `(x, y)` is not on `pos` and may move to `pos`.
pub open spec fn attacks(b: &Board, x: u32, y: u32, pos: (u32, u32)) -> bool {
    &&& (x, y) != pos
    &&& cell_view(b, x as int, y as int) is Some
    &&& spec_moves_to(cell_view(b, x as int, y as int).unwrap(), (x, y), pos) is Some
}

/// The squares from which a piece (not owned by `pp`, when given) may move to `pos`.
pub open spec fn attack_pred(b: &Board, pos: (u32, u32), pp: Option<Player>) -> spec_fn(u32, u32) -> bool {
    |x: u32, y: u32| match pp {
        Some(p) => attacks_as_opponent(b, x, y, pos, p),
        None => attacks(b, x, y, pos),
    }
}

/// A list of squares, or nothing when it is empty.
pub open spec fn some_if_any(s: Seq<(u32, u32)>) -> Option<Seq<(u32, u32)>> {
    if s.len() == 0 { None } else { Some(s) }
}

/// The moves of a list, each paired with the square it leads to.
pub open spec fn view_square_moves(s: Seq<((u32, u32), PMove)>) -> Seq<((u32, u32), PMoveView)> {
    s.map_values(|e: ((u32, u32), PMove)| (e.0, e.1@))
}

/// The moves of piece `p` on `o` whose condition holds for going to `n`, each paired with `n`.
pub open spec fn square_moves(p: PieceView, o: (u32, u32), n: (u32, u32)) -> Seq<((u32, u32), PMoveView)> {
    true_moves(p.possiblemoves, move_context(o, n)).map_values(|m: PMoveView| (n, m))
}

/// The moves of piece `p` on `o` to the first `ny` squares of row `x`, square by square.
pub open spec fn row_moves(p: PieceView, o: (u32, u32), x: u32, ny: u32) -> Seq<((u32, u32), PMoveView)>
    decreases ny,
{
    if ny == 0 {
        Seq::empty()
    } else {
        row_moves(p, o, x, (ny - 1) as u32) + square_moves(p, o, (x, (ny - 1) as u32))
    }
}

/// The moves of piece `p` on `o` to the squares of the first `nx` rows, in row order.
pub open spec fn grid_moves(p: PieceView, o: (u32, u32), nx: u32, ny: u32) -> Seq<((u32, u32), PMoveView)>
    decreases nx,
{
    if nx == 0 {
        Seq::empty()
    } else {
        grid_moves(p, o, (nx - 1) as u32, ny) + row_moves(p, o, (nx - 1) as u32, ny)
    }
}

/// The moves piece `p` on `o` may make on a board of size `size`: none when its move condition,
/// judged with no positions given, is false; else those of every square, if any.
pub open spec fn spec_possible_moves(p: PieceView, o: (u32, u32), size: (u32, u32)) -> Option<Seq<((u32, u32), PMoveView)>> {
    if p.movecondition matches Some(c) && pure_eval(c, Map::<Seq<char>, Seq<char>>::empty()) == RuleValue::Boolean(false) {
        None
    } else {
        let s = grid_moves(p, o, size.0, size.1);
        if s.len() == 0 { None } else { Some(s) }
    }
}

impl Board {
    /// The moves, square by square in row order, that the piece on `old_position` may make;
    /// nothing when its move condition (judged with no positions given) is false or when it has
    /// no move at all.
    pub fn get_possible_moves(&mut self, old_position: (u32, u32), depth: u32) -> (r: Option<Vec<((u32, u32), PMove)>>)
        ensures
            same_frame(old(self), final(self)),
            !in_size(old(self), old_position.0 as int, old_position.1 as int) || cell(old(self), old_position.0 as int, old_position.1 as int) is None
                ==> r is None && *final(self) == *old(self),
            r matches Some(v) ==> v@.len() > 0 && forall|k: int| 0 <= k < v@.len() ==> in_size(old(self), (#[trigger] v@[k]).0.0 as int, v@[k].0.1 as int)
                && cell_view(old(self), old_position.0 as int, old_position.1 as int).unwrap().possiblemoves.contains(v@[k].1@),
            positions_exact(old(self), old_position, depth) ==> *final(self) == *old(self)
                && match (r, spec_possible_moves(cell_view(old(self), old_position.0 as int, old_position.1 as int).unwrap(), old_position, old(self).size)) {
                    (Some(v), Some(s)) => view_square_moves(v@) == s,
                    (None, None) => true,
                    _ => false,
                },
    {
        self.get_possible_moves_in(old_position, depth, MATE_NESTING)
    }

    /// `get_possible_moves`, allowed `nest` more nested searches for a mate.
    pub fn get_possible_moves_in(&mut self, old_position: (u32, u32), depth: u32, nest: u32) -> (r: Option<Vec<((u32, u32), PMove)>>)
        ensures
            same_frame(old(self), final(self)),
            !in_size(old(self), old_position.0 as int, old_position.1 as int) || cell(old(self), old_position.0 as int, old_position.1 as int) is None
                ==> r is None && *final(self) == *old(self),
            r matches Some(v) ==> v@.len() > 0 && forall|k: int| 0 <= k < v@.len() ==> in_size(old(self), (#[trigger] v@[k]).0.0 as int, v@[k].0.1 as int)
                && cell_view(old(self), old_position.0 as int, old_position.1 as int).unwrap().possiblemoves.contains(v@[k].1@),
            positions_exact(old(self), old_position, depth) ==> *final(self) == *old(self)
                && match (r, spec_possible_moves(cell_view(old(self), old_position.0 as int, old_position.1 as int).unwrap(), old_position, old(self).size)) {
                    (Some(v), Some(s)) => view_square_moves(v@) == s,
                    (None, None) => true,
                    _ => false,
                },
        decreases nest, level(depth), 16int, 0int,
    {
        let (x, y) = old_position;
        if x >= self.size.0 || y >= self.size.1 {
            return None;
        }
        let (possible_moves, movecondition) = match self.piece_at(x, y) {
            Some(p) => (crate::piece::copy_moves(&p.possiblemoves), match &p.movecondition {
                Some(c) => Some(c.duplicate()),
                None => None,
            }),
            None => { return None; },
        };
        let ghost pv = cell_view(self, x as int, y as int).unwrap();
        let ghost b0 = *self;
        let ghost exact = positions_exact(self, old_position, depth);
        let mut context: Dict<String> = Dict::new();
        if let Some(c) = &movecondition {
            proof {
                if exact {
                    assert(api_free(pv.movecondition.unwrap()));
                }
            }
            let v = c.evaluate_in(self, &mut context, depth, None, None, false, nest);
            if let RuleExpression::Boolean(false) = v {
                return None;
            }
        }
        context.insert(text("old_position"), pair_to_text(x as i64, y as i64));
        let ghost m0 = context@;
        proof {
            if exact {
                assert(m0 == Map::<Seq<char>, Seq<char>>::empty().insert("old_position"@, pair_text(x as int, y as int)));
            }
        }
        let nx = self.size.0;
        let ny = self.size.1;
        let mut ret: Vec<((u32, u32), PMove)> = Vec::new();
        let mut i: u32 = 0;
        while i < nx
            invariant
                i <= nx,
                nx == b0.size.0,
                ny == b0.size.1,
                view_moves(possible_moves@) == pv.possiblemoves,
                same_frame(&b0, self),
                b0 == *old(self),
                old_position == (x, y),
                exact == positions_exact(&b0, old_position, depth),
                exact ==> moves_api_free(pv) && depth <= MAX_DEPTH,
                exact ==> m0 == Map::<Seq<char>, Seq<char>>::empty().insert("old_position"@, pair_text(x as int, y as int)),
                exact ==> context@.remove("new_position"@) == m0.remove("new_position"@),
                exact ==> *self == b0 && view_square_moves(ret@) == grid_moves(pv, old_position, i, ny),
                forall|k: int| 0 <= k < ret@.len() ==> in_size(&b0, (#[trigger] ret@[k]).0.0 as int, ret@[k].0.1 as int)
                    && pv.possiblemoves.contains(ret@[k].1@),
            decreases nx - i,
        {
            let mut j: u32 = 0;
            while j < ny
                invariant
                    i < nx,
                    j <= ny,
                    nx == b0.size.0,
                    ny == b0.size.1,
                    view_moves(possible_moves@) == pv.possiblemoves,
                    same_frame(&b0, self),
                    b0 == *old(self),
                    old_position == (x, y),
                    exact ==> moves_api_free(pv) && depth <= MAX_DEPTH,
                    exact ==> m0 == Map::<Seq<char>, Seq<char>>::empty().insert("old_position"@, pair_text(x as int, y as int)),
                    exact ==> context@.remove("new_position"@) == m0.remove("new_position"@),
                    exact ==> *self == b0 && view_square_moves(ret@) == grid_moves(pv, old_position, i, ny) + row_moves(pv, old_position, i, j),
                    forall|k: int| 0 <= k < ret@.len() ==> in_size(&b0, (#[trigger] ret@[k]).0.0 as int, ret@[k].0.1 as int)
                        && pv.possiblemoves.contains(ret@[k].1@),
                decreases ny - j,
            {
                let ghost prev = context@;
                context.insert(text("new_position"), pair_to_text(i as i64, j as i64));
                let ghost ctx = context@;
                let ghost start = ret@;
                proof {
                    if exact {
                        lemma_insert_same(prev, m0, "new_position"@, pair_text(i as int, j as int));
                        assert(move_context(old_position, (i, j)) == m0.insert("new_position"@, pair_text(i as int, j as int)));
                        assert(ctx.remove("new_position"@) =~= m0.remove("new_position"@));
                        assert(pv.possiblemoves.take(0) =~= Seq::<PMoveView>::empty());
                        assert(view_square_moves(start) =~= view_square_moves(start) + true_moves(pv.possiblemoves.take(0), ctx).map_values(|m: PMoveView| ((i, j), m)));
                    }
                }
                let mut k: usize = 0;
                while k < possible_moves.len()
                    invariant
                        i < nx,
                        j < ny,
                        nx == b0.size.0,
                        ny == b0.size.1,
                        k <= possible_moves.len(),
                        view_moves(possible_moves@) == pv.possiblemoves,
                        same_frame(&b0, self),
                        b0 == *old(self),
                        exact ==> moves_api_free(pv) && depth <= MAX_DEPTH,
                        exact ==> *self == b0 && context@ == ctx,
                        exact ==> ctx == move_context(old_position, (i, j)),
                        exact ==> ctx.remove("new_position"@) == m0.remove("new_position"@),
                        exact ==> view_square_moves(ret@) == view_square_moves(start) + true_moves(pv.possiblemoves.take(k as int), ctx).map_values(|m: PMoveView| ((i, j), m)),
                        forall|m: int| 0 <= m < ret@.len() ==> in_size(&b0, (#[trigger] ret@[m]).0.0 as int, ret@[m].0.1 as int)
                            && pv.possiblemoves.contains(ret@[m].1@),
                    decreases possible_moves.len() - k,
                {
                    proof {
                        assert(view_moves(possible_moves@)[k as int] == possible_moves@[k as int]@);
                        if exact {
                            assert(api_free(pv.possiblemoves[k as int].condition));
                        }
                        let t = pv.possiblemoves.take(k + 1);
                        assert(t.drop_last() == pv.possiblemoves.take(k as int));
                        assert(t.last() == pv.possiblemoves[k as int]);
                    }
                    let ghost before = *self;
                    let ghost before_ret = ret@;
                    let v = possible_moves[k].condition.evaluate_in(self, &mut context, depth, None, None, false, nest);
                    proof { lemma_same_frame_trans(&b0, &before, self); }
                    if let RuleExpression::Boolean(true) = v {
                        let m = possible_moves[k].duplicate();
                        proof {
                            assert(pv.possiblemoves[k as int] == m@);
                        }
                        ret.push(((i, j), m));
                        proof {
                            if exact {
                                let tm = true_moves(pv.possiblemoves.take(k as int), ctx);
                                assert(true_moves(pv.possiblemoves.take(k + 1), ctx) == tm.push(m@));
                                assert(tm.push(m@).map_values(|q: PMoveView| ((i, j), q)) =~= tm.map_values(|q: PMoveView| ((i, j), q)).push(((i, j), m@)));
                                assert(view_square_moves(ret@) =~= view_square_moves(before_ret).push(((i, j), m@)));
                            }
                        }
                    }
                    k += 1;
                }
                proof {
                    if exact {
                        assert(pv.possiblemoves.take(possible_moves@.len() as int) == pv.possiblemoves);
                        assert(row_moves(pv, old_position, i, (j + 1) as u32) == row_moves(pv, old_position, i, j) + square_moves(pv, old_position, (i, j)));
                        assert(view_square_moves(ret@) =~= grid_moves(pv, old_position, i, ny) + row_moves(pv, old_position, i, (j + 1) as u32));
                    }
                }
                j += 1;
            }
            proof {
                if exact {
                    assert(grid_moves(pv, old_position, (i + 1) as u32, ny) == grid_moves(pv, old_position, i, ny) + row_moves(pv, old_position, i, ny));
                }
            }
            i += 1;
        }
        proof {
            if exact {
                assert(view_square_moves(ret@).len() == ret@.len());
            }
        }
        if ret.len() == 0 {
            return None;
        }
        Some(ret)
    }

    /// The squares, in row order, from which a piece not owned by `pp` may move to `position`;
    /// nothing when there is none.
    pub fn get_attackers_player(&mut self, position: (u32, u32), pp: Player, depth: u32) -> (r: Option<Vec<(u32, u32)>>)
        ensures
            same_frame(old(self), final(self)),
            r matches Some(v) ==> v@.len() > 0,
            board_api_free(old(self)) && depth <= MAX_DEPTH && in_size(old(self), position.0 as int, position.1 as int)
                ==> *final(self) == *old(self) && match (r, some_if_any(grid_squares(old(self).size.0, old(self).size.1, attack_pred(old(self), position, Some(pp))))) {
                    (Some(v), Some(s)) => v@ == s,
                    (None, None) => true,
                    _ => false,
                },
            exists|g: Seq<AttackStep>| #![trigger attackers_found(*old(self), position, Some(pp), depth, MATE_NESTING, g, *final(self), opt_squares(r))]
                attackers_found(*old(self), position, Some(pp), depth, MATE_NESTING, g, *final(self), opt_squares(r)),
    {
        self.get_attackers_in(position, Some(pp), depth, MATE_NESTING)
    }

    /// The squares, in row order, from which a piece may move to `position`; nothing when there
    /// is none.
    pub fn get_attackers(&mut self, position: (u32, u32), depth: u32) -> (r: Option<Vec<(u32, u32)>>)
        ensures
            same_frame(old(self), final(self)),
            r matches Some(v) ==> v@.len() > 0,
            board_api_free(old(self)) && depth <= MAX_DEPTH && in_size(old(self), position.0 as int, position.1 as int)
                ==> *final(self) == *old(self) && match (r, some_if_any(grid_squares(old(self).size.0, old(self).size.1, attack_pred(old(self), position, None)))) {
                    (Some(v), Some(s)) => v@ == s,
                    (None, None) => true,
                    _ => false,
                },
            exists|g: Seq<AttackStep>| #![trigger attackers_found(*old(self), position, None, depth, MATE_NESTING, g, *final(self), opt_squares(r))]
                attackers_found(*old(self), position, None, depth, MATE_NESTING, g, *final(self), opt_squares(r)),
    {
        self.get_attackers_in(position, None, depth, MATE_NESTING)
    }

    /// The squares from which a piece (not owned by `pp`, when given) may move to `position`,
    /// allowed `nest` more nested searches for a mate.
    pub fn get_attackers_in(&mut self, position: (u32, u32), pp: Option<Player>, depth: u32, nest: u32) -> (r: Option<Vec<(u32, u32)>>)
        ensures
            same_frame(old(self), final(self)),
            r matches Some(v) ==> v@.len() > 0,
            board_api_free(old(self)) && depth <= MAX_DEPTH && in_size(old(self), position.0 as int, position.1 as int)
                ==> *final(self) == *old(self) && match (r, some_if_any(grid_squares(old(self).size.0, old(self).size.1, attack_pred(old(self), position, pp)))) {
                    (Some(v), Some(s)) => v@ == s,
                    (None, None) => true,
                    _ => false,
                },
            exists|g: Seq<AttackStep>| #![trigger attackers_found(*old(self), position, pp, depth, nest, g, *final(self), opt_squares(r))]
                attackers_found(*old(self), position, pp, depth, nest, g, *final(self), opt_squares(r)),
        decreases nest, level(depth), 17int, 0int,
    {
        let ghost b0 = *self;
        let ghost exact = board_api_free(self) && depth <= MAX_DEPTH && in_size(self, position.0 as int, position.1 as int);
        let ghost pred = attack_pred(&b0, position, pp);
        let nx = self.size.0;
        let ny = self.size.1;
        let mut attackers: Vec<(u32, u32)> = Vec::new();
        let ghost mut g: Seq<AttackStep> = Seq::empty();
        let mut i: u32 = 0;
        while i < nx
            invariant
                i <= nx,
                nx == b0.size.0,
                ny == b0.size.1,
                same_frame(&b0, self),
                b0 == *old(self),
                exact == (board_api_free(&b0) && depth <= MAX_DEPTH && in_size(&b0, position.0 as int, position.1 as int)),
                pred == attack_pred(&b0, position, pp),
                exact ==> *self == b0 && attackers@ == grid_squares(i, ny, pred),
                g.map_values(|st: AttackStep| st.sq) == grid_squares(i, ny, |a: u32, b: u32| true),
                forall|k: int| 0 <= k < g.len() ==> #[trigger] attack_step_ok(g[k], attack_start(b0, g, k), position, pp, depth, nest),
                *self == attack_start(b0, g, g.len() as int),
                attackers@ == hit_squares(g),
            decreases nx - i,
        {
            let mut j: u32 = 0;
            while j < ny
                invariant
                    i < nx,
                    j <= ny,
                    nx == b0.size.0,
                    ny == b0.size.1,
                    same_frame(&b0, self),
                    b0 == *old(self),
                    exact == (board_api_free(&b0) && depth <= MAX_DEPTH && in_size(&b0, position.0 as int, position.1 as int)),
                    pred == attack_pred(&b0, position, pp),
                    exact ==> *self == b0 && attackers@ == grid_squares(i, ny, pred) + row_squares(i, j, pred),
                    g.map_values(|st: AttackStep| st.sq) == grid_squares(i, ny, |a: u32, b: u32| true) + row_squares(i, j, |a: u32, b: u32| true),
                    forall|k: int| 0 <= k < g.len() ==> #[trigger] attack_step_ok(g[k], attack_start(b0, g, k), position, pp, depth, nest),
                    *self == attack_start(b0, g, g.len() as int),
                    attackers@ == hit_squares(g),
                decreases ny - j,
            {
                let candidate = !(i == position.0 && j == position.1) && match self.piece_at(i, j) {
                    Some(v) => match pp {
                        Some(p) => v.owner != p,
                        None => true,
                    },
                    None => false,
                };
                let ghost bs = *self;
                let ghost mut st = AttackStep { sq: (i, j), found: None, c0: vstd::pervasive::arbitrary(), bm: bs, cm: vstd::pervasive::arbitrary(),
                    x: RuleValue::Void, t: Seq::empty(), bf: bs };
                proof {
                    assert(candidate == attack_candidate(&bs, (i, j), position, pp));
                }
                let mut hit = false;
                if candidate {
                    proof {
                        if exact {
                            assert(cell_view(&b0, i as int, j as int) matches Some(q) ==> moves_api_free(q));
                            assert(moves_to_exact(&b0, (i, j), position, depth));
                        }
                    }
                    let ghost before = *self;
                    let m = self.get_moves_to_in((i, j), position, depth, nest);
                    proof {
                        lemma_same_frame_trans(&b0, &before, self);
                        if in_size(&bs, position.0 as int, position.1 as int) {
                            let (c0, bm, cm, x, t) = choose|c0: Dict<String>, bm: Board, cm: Dict<String>, x: RuleValue, t: Seq<(Board, Dict<String>, RuleValue)>|
                                #![trigger moves_found(bs, (i, j), position, depth, nest, c0, bm, cm, x, t, *self, opt_moves_view(m))]
                                moves_found(bs, (i, j), position, depth, nest, c0, bm, cm, x, t, *self, opt_moves_view(m));
                            st = AttackStep { sq: (i, j), found: opt_moves_view(m), c0, bm, cm, x, t, bf: *self };
                        } else {
                            st = AttackStep { sq: (i, j), found: opt_moves_view(m), c0: st.c0, bm: st.bm, cm: st.cm, x: st.x, t: st.t, bf: *self };
                        }
                    }
                    hit = m.is_some();
                }
                proof {
                    if exact {
                        assert(hit == pred(i, j));
                    }
                }
                proof {
                    assert(attack_step_ok(st, bs, position, pp, depth, nest));
                    assert(hit == st.found is Some);
                }
                let ghost g0 = g;
                if hit {
                    attackers.push((i, j));
                }
                proof {
                    g = g.push(st);
                    assert(g.drop_last() == g0);
                    assert(g.map_values(|st: AttackStep| st.sq) =~= g0.map_values(|st: AttackStep| st.sq).push((i, j)));
                    assert forall|k: int| 0 <= k < g.len() implies #[trigger] attack_step_ok(g[k], attack_start(b0, g, k), position, pp, depth, nest) by {
                        assert(attack_start(b0, g, k) == attack_start(b0, g0, k));
                        if k < g0.len() {
                            assert(g[k] == g0[k]);
                        }
                    }
                    assert(row_squares(i, (j + 1) as u32, |a: u32, b: u32| true) == row_squares(i, j, |a: u32, b: u32| true).push((i, j)));
                }
                proof {
                    if exact {
                        assert(row_squares(i, (j + 1) as u32, pred) == (if pred(i, j) { row_squares(i, j, pred).push((i, j)) } else { row_squares(i, j, pred) }));
                        assert(attackers@ =~= grid_squares(i, ny, pred) + row_squares(i, (j + 1) as u32, pred));
                    }
                }
                j += 1;
            }
            proof {
                if exact {
                    assert(grid_squares((i + 1) as u32, ny, pred) == grid_squares(i, ny, pred) + row_squares(i, ny, pred));
                }
                assert(grid_squares((i + 1) as u32, ny, |a: u32, b: u32| true) == grid_squares(i, ny, |a: u32, b: u32| true) + row_squares(i, ny, |a: u32, b: u32| true));
            }
            i += 1;
        }
        proof {
            let f1 = |a: u32, b: u32| true;
            let f2 = |x: u32, y: u32| true;
            assert(f1 =~= f2);
            assert(grid_squares(nx, ny, f1) == grid_squares(nx, ny, f2));
        }
        if attackers.len() != 0 {
            let r = Some(attackers);
            proof {
                assert(opt_squares(r) == some_if_any(hit_squares(g)));
                assert(attackers_found(*old(self), position, pp, depth, nest, g, *self, opt_squares(r)));
            }
            return r;
        }
        proof {
            assert(attackers_found(*old(self), position, pp, depth, nest, g, *self, opt_squares(None)));
        }
        None
    }
}

/// What judging whether the piece on `sq` attacks a square went through: the moves found there
/// (see `moves_found`, with `c0`, `bm`, `cm`, `x`, `t`), and the board `bf` it left.
pub ghost struct AttackStep {
    pub sq: (u32, u32),
    pub found: Option<Seq<PMoveView>>,
    pub c0: Dict<String>,
    pub bm: Board,
    pub cm: Dict<String>,
    pub x: RuleValue,
    pub t: Seq<(Board, Dict<String>, RuleValue)>,
    pub bf: Board,
}

/// Whether the piece on `sq` of `b` is one whose moves to `position` are looked for: the square
/// is another one and holds a piece not owned by `pp`, when given.
pub open spec fn attack_candidate(b: &Board, sq: (u32, u32), position: (u32, u32), pp: Option<Player>) -> bool {
    &&& sq != position
    &&& cell_view(b, sq.0 as int, sq.1 as int) matches Some(v) && (pp matches Some(p) ==> v.owner != p)
}

/// Whether the step `st` judges its square from the board `b0`: a candidate's moves to
/// `position` are found (when `position` lies in the board's size), else nothing changes.
pub open spec fn attack_step_ok(st: AttackStep, b0: Board, position: (u32, u32), pp: Option<Player>, depth: u32, nest: u32) -> bool {
    if attack_candidate(&b0, st.sq, position, pp) && in_size(&b0, position.0 as int, position.1 as int) {
        moves_found(b0, st.sq, position, depth, nest, st.c0, st.bm, st.cm, st.x, st.t, st.bf, st.found)
    } else {
        st.bf == b0 && st.found is None
    }
}

/// Where the judging of the `k`-th square of `g` starts: the board `b0`, or where the one before
/// left it.
pub open spec fn attack_start(b0: Board, g: Seq<AttackStep>, k: int) -> Board {
    if k == 0 { b0 } else { g[k - 1].bf }
}

/// The squares of `g` whose piece has a move to the square, in order.
pub open spec fn hit_squares(g: Seq<AttackStep>) -> Seq<(u32, u32)>
    decreases g.len(),
{
    if g.len() == 0 {
        Seq::empty()
    } else {
        let rest = hit_squares(g.drop_last());
        if g.last().found is Some { rest.push(g.last().sq) } else { rest }
    }
}

/// Whether `get_attackers` may answer `r` for `position` on the board `b`, leaving `bf`: every
/// square, in row order, is judged in turn (see `attack_step_ok`), and the answer is the squares
/// whose piece has a move to `position`, if any.
pub open spec fn attackers_found(b: Board, position: (u32, u32), pp: Option<Player>, depth: u32, nest: u32, g: Seq<AttackStep>, bf: Board,
    r: Option<Seq<(u32, u32)>>) -> bool {
    &&& g.map_values(|st: AttackStep| st.sq) == grid_squares(b.size.0, b.size.1, |x: u32, y: u32| true)
    &&& forall|k: int| 0 <= k < g.len() ==> #[trigger] attack_step_ok(g[k], attack_start(b, g, k), position, pp, depth, nest)
    &&& bf == attack_start(b, g, g.len() as int)
    &&& r == some_if_any(hit_squares(g))
}

/// The side whose pieces do not count as attackers: `p` itself when `opponent` (so its opponents
/// attack), else its opponent.
pub open spec fn defended_side(p: Player, opponent: bool) -> Player {
    if opponent { p } else { p.spec_opponent() }
}

/// The answer of `get_attackers`, as values.
pub open spec fn opt_squares(r: Option<Vec<(u32, u32)>>) -> Option<Seq<(u32, u32)>> {
    match r {
        Some(v) => Some(v@),
        None => None,
    }
}

/// The squares of `s` that satisfy `pred`, in order.
pub open spec fn keep_squares(s: Seq<(u32, u32)>, pred: spec_fn(u32, u32) -> bool) -> Seq<(u32, u32)>
    decreases s.len(),
{
    if s.len() == 0 {
        Seq::empty()
    } else {
        let rest = keep_squares(s.drop_last(), pred);
        if pred(s.last().0, s.last().1) { rest.push(s.last()) } else { rest }
    }
}

/// The squares that hold a piece (not owned by `pp`, when given).
pub open spec fn target_pred(b: &Board, pp: Option<Player>) -> spec_fn(u32, u32) -> bool {
    |x: u32, y: u32| match pp {
        Some(p) => cell_view(b, x as int, y as int) matches Some(q) && q.owner != p,
        None => cell_view(b, x as int, y as int) is Some,
    }
}

/// The board with another player to move.
pub open spec fn with_player(b: &Board, p: Player) -> Board {
    Board { current_player: p, ..*b }
}

pub proof fn lemma_attack_pred_player(b: &Board, p: Player, pos: (u32, u32), pp: Option<Player>)
    ensures
        attack_pred(&with_player(b, p), pos, pp) == attack_pred(b, pos, pp),
        board_api_free(&with_player(b, p)) == board_api_free(b),
{
    let c = with_player(b, p);
    assert forall|x: int, y: int| #[trigger] cell_view(&c, x, y) == cell_view(b, x, y) by {}
    assert(attack_pred(&c, pos, pp) =~= attack_pred(b, pos, pp));
    if board_api_free(b) {
        assert forall|x: int, y: int| #[trigger] cell_view(&c, x, y) is Some implies moves_api_free(cell_view(&c, x, y).unwrap()) by {
            assert(cell_view(&c, x, y) == cell_view(b, x, y));
        }
    }
    if board_api_free(&c) {
        assert forall|x: int, y: int| #[trigger] cell_view(b, x, y) is Some implies moves_api_free(cell_view(b, x, y).unwrap()) by {
            assert(cell_view(&c, x, y) == cell_view(b, x, y));
        }
    }
}

impl Board {
    /// Whether a piece of the player that `opponent` names (the player to move, or the other)
    /// may move to `position`; the player to move is left as it was.
    pub fn is_attacked_player(&mut self, position: (u32, u32), opponent: bool, depth: u32) -> (r: bool)
        ensures
            same_frame(old(self), final(self)),
            board_api_free(old(self)) && depth <= MAX_DEPTH && in_size(old(self), position.0 as int, position.1 as int)
                ==> *final(self) == *old(self) && r == (grid_squares(old(self).size.0, old(self).size.1,
                    attack_pred(old(self), position, Some(if opponent { old(self).current_player } else { old(self).current_player.spec_opponent() }))).len() > 0),
            exists|g: Seq<AttackStep>, a: Option<Seq<(u32, u32)>>, bf: Board|
                #![trigger attackers_found(with_player(old(self), defended_side(old(self).current_player, opponent).spec_opponent()), position, Some(defended_side(old(self).current_player, opponent)), depth, MATE_NESTING, g, bf, a)]
                attackers_found(with_player(old(self), defended_side(old(self).current_player, opponent).spec_opponent()), position, Some(defended_side(old(self).current_player, opponent)), depth, MATE_NESTING, g, bf, a)
                && *final(self) == with_player(&bf, old(self).current_player) && r == (a is Some),
    {
        self.is_attacked_player_in(position, opponent, depth, MATE_NESTING)
    }

    /// `is_attacked_player`, allowed `nest` more nested searches for a mate.
    pub fn is_attacked_player_in(&mut self, position: (u32, u32), opponent: bool, depth: u32, nest: u32) -> (r: bool)
        ensures
            same_frame(old(self), final(self)),
            board_api_free(old(self)) && depth <= MAX_DEPTH && in_size(old(self), position.0 as int, position.1 as int)
                ==> *final(self) == *old(self) && r == (grid_squares(old(self).size.0, old(self).size.1,
                    attack_pred(old(self), position, Some(if opponent { old(self).current_player } else { old(self).current_player.spec_opponent() }))).len() > 0),
            exists|g: Seq<AttackStep>, a: Option<Seq<(u32, u32)>>, bf: Board|
                #![trigger attackers_found(with_player(old(self), defended_side(old(self).current_player, opponent).spec_opponent()), position, Some(defended_side(old(self).current_player, opponent)), depth, nest, g, bf, a)]
                attackers_found(with_player(old(self), defended_side(old(self).current_player, opponent).spec_opponent()), position, Some(defended_side(old(self).current_player, opponent)), depth, nest, g, bf, a)
                && *final(self) == with_player(&bf, old(self).current_player) && r == (a is Some),
        decreases nest, level(depth), 18int, 0int,
    {
        let pp = if opponent { self.current_player } else { self.current_player.opponent() };
        let old_player = self.current_player;
        self.current_player = pp.opponent();
        proof {
            lemma_attack_pred_player(old(self), pp.spec_opponent(), position, Some(pp));
            assert(*self == with_player(old(self), pp.spec_opponent()));
        }
        let ghost bw = *self;
        let at = self.get_attackers_in(position, Some(pp), depth, nest);
        let a = at.is_some();
        let ghost bf = *self;
        self.current_player = old_player;
        proof {
            let g = choose|g: Seq<AttackStep>| #![trigger attackers_found(bw, position, Some(pp), depth, nest, g, bf, opt_squares(at))]
                attackers_found(bw, position, Some(pp), depth, nest, g, bf, opt_squares(at));
            assert(*self == with_player(&bf, old(self).current_player));
            assert(attackers_found(with_player(old(self), pp.spec_opponent()), position, Some(pp), depth, nest, g, bf, opt_squares(at)));
        }
        a
    }

    /// Whether the piece on `position` may be taken: by a piece of its opponent when
    /// `opponent`, else by a piece of its own side. An empty square is never attacked.
    pub fn is_attacked_piece(&mut self, position: (u32, u32), opponent: bool, depth: u32) -> (r: bool)
        ensures
            same_frame(old(self), final(self)),
            cell(old(self), position.0 as int, position.1 as int) is None ==> !r && *final(self) == *old(self),
            board_api_free(old(self)) && depth <= MAX_DEPTH && in_size(old(self), position.0 as int, position.1 as int)
                && cell(old(self), position.0 as int, position.1 as int) is Some
                ==> *final(self) == *old(self) && r == (grid_squares(old(self).size.0, old(self).size.1,
                    attack_pred(old(self), position, Some(if opponent { cell(old(self), position.0 as int, position.1 as int).unwrap().owner }
                        else { cell(old(self), position.0 as int, position.1 as int).unwrap().owner.spec_opponent() }))).len() > 0),
            cell(old(self), position.0 as int, position.1 as int) is Some ==> exists|g: Seq<AttackStep>, a: Option<Seq<(u32, u32)>>, bf: Board|
                #![trigger attackers_found(with_player(old(self), defended_side(cell(old(self), position.0 as int, position.1 as int).unwrap().owner, opponent).spec_opponent()), position, Some(defended_side(cell(old(self), position.0 as int, position.1 as int).unwrap().owner, opponent)), depth, MATE_NESTING, g, bf, a)]
                attackers_found(with_player(old(self), defended_side(cell(old(self), position.0 as int, position.1 as int).unwrap().owner, opponent).spec_opponent()), position, Some(defended_side(cell(old(self), position.0 as int, position.1 as int).unwrap().owner, opponent)), depth, MATE_NESTING, g, bf, a)
                && *final(self) == with_player(&bf, old(self).current_player) && r == (a is Some),
    {
        self.is_attacked_piece_in(position, opponent, depth, MATE_NESTING)
    }

    /// `is_attacked_piece`, allowed `nest` more nested searches for a mate.
    pub fn is_attacked_piece_in(&mut self, position: (u32, u32), opponent: bool, depth: u32, nest: u32) -> (r: bool)
        ensures
            same_frame(old(self), final(self)),
            cell(old(self), position.0 as int, position.1 as int) is None ==> !r && *final(self) == *old(self),
            board_api_free(old(self)) && depth <= MAX_DEPTH && in_size(old(self), position.0 as int, position.1 as int)
                && cell(old(self), position.0 as int, position.1 as int) is Some
                ==> *final(self) == *old(self) && r == (grid_squares(old(self).size.0, old(self).size.1,
                    attack_pred(old(self), position, Some(if opponent { cell(old(self), position.0 as int, position.1 as int).unwrap().owner }
                        else { cell(old(self), position.0 as int, position.1 as int).unwrap().owner.spec_opponent() }))).len() > 0),
            cell(old(self), position.0 as int, position.1 as int) is Some ==> exists|g: Seq<AttackStep>, a: Option<Seq<(u32, u32)>>, bf: Board|
                #![trigger attackers_found(with_player(old(self), defended_side(cell(old(self), position.0 as int, position.1 as int).unwrap().owner, opponent).spec_opponent()), position, Some(defended_side(cell(old(self), position.0 as int, position.1 as int).unwrap().owner, opponent)), depth, nest, g, bf, a)]
                attackers_found(with_player(old(self), defended_side(cell(old(self), position.0 as int, position.1 as int).unwrap().owner, opponent).spec_opponent()), position, Some(defended_side(cell(old(self), position.0 as int, position.1 as int).unwrap().owner, opponent)), depth, nest, g, bf, a)
                && *final(self) == with_player(&bf, old(self).current_player) && r == (a is Some),
        decreases nest, level(depth), 18int, 0int,
    {
        let owner = match self.piece_at(position.0, position.1) {
            Some(p) => p.owner,
            None => { return false; },
        };
        let pp = if opponent { owner } else { owner.opponent() };
        let old_player = self.current_player;
        self.current_player = pp.opponent();
        proof {
            lemma_attack_pred_player(old(self), pp.spec_opponent(), position, Some(pp));
            assert(*self == with_player(old(self), pp.spec_opponent()));
        }
        let ghost bw = *self;
        let at = self.get_attackers_in(position, Some(pp), depth, nest);
        let a = at.is_some();
        let ghost bf = *self;
        self.current_player = old_player;
        proof {
            let g = choose|g: Seq<AttackStep>| #![trigger attackers_found(bw, position, Some(pp), depth, nest, g, bf, opt_squares(at))]
                attackers_found(bw, position, Some(pp), depth, nest, g, bf, opt_squares(at));
            assert(*self == with_player(&bf, old(self).current_player));
            assert(attackers_found(with_player(old(self), pp.spec_opponent()), position, Some(pp), depth, nest, g, bf, opt_squares(at)));
        }
        a
    }

    /// Whether any piece may move to `position`.
    pub fn is_attacked(&mut self, position: (u32, u32), depth: u32) -> (r: bool)
        ensures
            same_frame(old(self), final(self)),
            board_api_free(old(self)) && depth <= MAX_DEPTH && in_size(old(self), position.0 as int, position.1 as int)
                ==> *final(self) == *old(self) && r == (grid_squares(old(self).size.0, old(self).size.1, attack_pred(old(self), position, None)).len() > 0),
            exists|g: Seq<AttackStep>, a: Option<Seq<(u32, u32)>>| #![trigger attackers_found(*old(self), position, None, depth, MATE_NESTING, g, *final(self), a)]
                attackers_found(*old(self), position, None, depth, MATE_NESTING, g, *final(self), a) && r == (a is Some),
    {
        self.is_attacked_in(position, depth, MATE_NESTING)
    }

    /// `is_attacked`, allowed `nest` more nested searches for a mate.
    pub fn is_attacked_in(&mut self, position: (u32, u32), depth: u32, nest: u32) -> (r: bool)
        ensures
            same_frame(old(self), final(self)),
            board_api_free(old(self)) && depth <= MAX_DEPTH && in_size(old(self), position.0 as int, position.1 as int)
                ==> *final(self) == *old(self) && r == (grid_squares(old(self).size.0, old(self).size.1, attack_pred(old(self), position, None)).len() > 0),
            exists|g: Seq<AttackStep>, a: Option<Seq<(u32, u32)>>| #![trigger attackers_found(*old(self), position, None, depth, nest, g, *final(self), a)]
                attackers_found(*old(self), position, None, depth, nest, g, *final(self), a) && r == (a is Some),
        decreases nest, level(depth), 18int, 0int,
    {
        let a = self.get_attackers_in(position, None, depth, nest);
        proof {
            let g = choose|g: Seq<AttackStep>| #![trigger attackers_found(*old(self), position, None, depth, nest, g, *self, opt_squares(a))]
                attackers_found(*old(self), position, None, depth, nest, g, *self, opt_squares(a));
            assert(attackers_found(*old(self), position, None, depth, nest, g, *self, opt_squares(a)) && (a is Some) == (opt_squares(a) is Some));
        }
        a.is_some()
    }

    /// The occupied squares, in row order, to which the piece on `position` may go.
    pub fn get_attacked(&mut self, position: (u32, u32), depth: u32) -> (r: Option<Vec<(u32, u32)>>)
        ensures
            same_frame(old(self), final(self)),
            r is Some <==> in_size(old(self), position.0 as int, position.1 as int) && cell(old(self), position.0 as int, position.1 as int) is Some,
            positions_exact(old(self), position, depth) ==> *final(self) == *old(self) && r.unwrap()@ == keep_squares(
                grid_squares(old(self).size.0, old(self).size.1,
                    |x: u32, y: u32| position_ok(cell_view(old(self), position.0 as int, position.1 as int).unwrap(), position, (x, y))),
                target_pred(old(self), None)),
    {
        self.get_attacked_in(position, None, depth, MATE_NESTING)
    }

    /// Whether the piece on `position` can attack: some occupied square is one it may go to (see
    /// `get_attacked`); a square off the board or an empty square cannot attack.
    pub fn can_attack(&mut self, position: (u32, u32), depth: u32) -> (r: bool)
        ensures
            same_frame(old(self), final(self)),
            r ==> in_size(old(self), position.0 as int, position.1 as int) && cell(old(self), position.0 as int, position.1 as int) is Some,
            positions_exact(old(self), position, depth) ==> *final(self) == *old(self) && r == (keep_squares(
                grid_squares(old(self).size.0, old(self).size.1,
                    |x: u32, y: u32| position_ok(cell_view(old(self), position.0 as int, position.1 as int).unwrap(), position, (x, y))),
                target_pred(old(self), None)).len() > 0),
    {
        match self.get_attacked_in(position, None, depth, MATE_NESTING) {
            Some(v) => v.len() > 0,
            None => false,
        }
    }

    /// The squares, in row order, holding a piece not owned by the player that `opponent` names
    /// (the opponent of the piece on `position`, or its own side), to which that piece may go.
    pub fn get_attacked_player(&mut self, position: (u32, u32), opponent: bool, depth: u32) -> (r: Option<Vec<(u32, u32)>>)
        ensures
            same_frame(old(self), final(self)),
            r is Some <==> in_size(old(self), position.0 as int, position.1 as int) && cell(old(self), position.0 as int, position.1 as int) is Some,
            positions_exact(old(self), position, depth) ==> *final(self) == *old(self) && r.unwrap()@ == keep_squares(
                grid_squares(old(self).size.0, old(self).size.1,
                    |x: u32, y: u32| position_ok(cell_view(old(self), position.0 as int, position.1 as int).unwrap(), position, (x, y))),
                target_pred(old(self), Some(if opponent { cell(old(self), position.0 as int, position.1 as int).unwrap().owner.spec_opponent() }
                    else { cell(old(self), position.0 as int, position.1 as int).unwrap().owner }))),
    {
        let pp = match self.piece_at(position.0, position.1) {
            Some(p) => if opponent { p.owner.opponent() } else { p.owner },
            None => { return None; },
        };
        self.get_attacked_in(position, Some(pp), depth, MATE_NESTING)
    }

    /// Whether the piece on `position` can attack a piece not owned by the player that `opponent`
    /// names (see `get_attacked_player`).
    pub fn can_attack_player(&mut self, position: (u32, u32), opponent: bool, depth: u32) -> (r: bool)
        ensures
            same_frame(old(self), final(self)),
            r ==> in_size(old(self), position.0 as int, position.1 as int) && cell(old(self), position.0 as int, position.1 as int) is Some,
            positions_exact(old(self), position, depth) ==> *final(self) == *old(self) && r == (keep_squares(
                grid_squares(old(self).size.0, old(self).size.1,
                    |x: u32, y: u32| position_ok(cell_view(old(self), position.0 as int, position.1 as int).unwrap(), position, (x, y))),
                target_pred(old(self), Some(if opponent { cell(old(self), position.0 as int, position.1 as int).unwrap().owner.spec_opponent() }
                    else { cell(old(self), position.0 as int, position.1 as int).unwrap().owner }))).len() > 0),
    {
        match self.get_attacked_player(position, opponent, depth) {
            Some(v) => v.len() > 0,
            None => false,
        }
    }

    /// The squares to which the piece on `position` may go that hold a piece (not owned by
    /// `pp`, when given), allowed `nest` more nested searches for a mate.
    pub fn get_attacked_in(&mut self, position: (u32, u32), pp: Option<Player>, depth: u32, nest: u32) -> (r: Option<Vec<(u32, u32)>>)
        ensures
            same_frame(old(self), final(self)),
            r is Some <==> in_size(old(self), position.0 as int, position.1 as int) && cell(old(self), position.0 as int, position.1 as int) is Some,
            positions_exact(old(self), position, depth) ==> *final(self) == *old(self) && r.unwrap()@ == keep_squares(
                grid_squares(old(self).size.0, old(self).size.1,
                    |x: u32, y: u32| position_ok(cell_view(old(self), position.0 as int, position.1 as int).unwrap(), position, (x, y))),
                target_pred(old(self), pp)),
        decreases nest, level(depth), 17int, 0int,
    {
        let v = match self.get_possible_positions_in(position, depth, nest) {
            Some(v) => v,
            None => { return None; },
        };
        let ghost b1 = *self;
        let ghost pred = target_pred(&b1, pp);
        let mut out: Vec<(u32, u32)> = Vec::new();
        let mut i: usize = 0;
        while i < v.len()
            invariant
                i <= v.len(),
                pred == target_pred(&b1, pp),
                *self == b1,
                out@ == keep_squares(v@.take(i as int), pred),
            decreases v.len() - i,
        {
            let (x, y) = v[i];
            let keep = match self.piece_at(x, y) {
                Some(q) => match pp {
                    Some(p) => q.owner != p,
                    None => true,
                },
                None => false,
            };
            proof {
                assert(v@.take(i + 1).drop_last() == v@.take(i as int));
                assert(v@.take(i + 1).last() == v@[i as int]);
                assert(keep == pred(x, y));
            }
            if keep {
                out.push((x, y));
            }
            i += 1;
        }
        proof {
            assert(v@.take(v@.len() as int) == v@);
        }
        Some(out)
    }

    /// The value of the memory `variable` of the piece on `position`, evaluated one level deeper.
    pub fn get_piece_var(
        &mut self,
        position: (u32, u32),
        variable: &str,
        context: &mut Dict<String>,
        depth: u32,
        sender: Option<&Sender<Option<String>>>,
        receiver: Option<&Receiver<String>>,
        is_evaluate_mate: bool,
    ) -> (r: RuleExpression)
        ensures
            is_value(r@),
            same_frame(old(self), final(self)),
            cell(old(self), position.0 as int, position.1 as int) is None ==> *final(self) == *old(self) && *final(context) == *old(context)
                && r@ == RuleValue::Error("no piece at given position in get_piece_var func"@),
            cell_view(old(self), position.0 as int, position.1 as int) matches Some(p) ==> (!p.memory.contains_key(variable@)
                ==> *final(self) == *old(self) && *final(context) == *old(context)
                    && r@ == RuleValue::Error("piece "@ + p.name + " does not have "@ + variable@ + " variable in get_piece_var func"@)),
            cell_view(old(self), position.0 as int, position.1 as int) matches Some(p) ==> (p.memory.contains_key(variable@)
                && api_free(p.memory[variable@]) && depth < MAX_DEPTH
                ==> *final(self) == *old(self) && *final(context) == *old(context) && r@ == pure_eval(p.memory[variable@], old(context)@)),
            cell_view(old(self), position.0 as int, position.1 as int) matches Some(p) ==> (p.memory.contains_key(variable@)
                ==> crate::eval::evaluated(p.memory[variable@], *old(self), *old(context), *final(self), *final(context), r@,
                    (if depth < u32::MAX { depth + 1 } else { depth as int }) as u32, sender is Some && receiver is Some, is_evaluate_mate, MATE_NESTING)),
    {
        self.get_piece_var_in(position, variable, context, depth, sender, receiver, is_evaluate_mate, MATE_NESTING)
    }

    /// `get_piece_var`, allowed `nest` more nested searches for a mate.
    pub fn get_piece_var_in(
        &mut self,
        position: (u32, u32),
        variable: &str,
        context: &mut Dict<String>,
        depth: u32,
        sender: Option<&Sender<Option<String>>>,
        receiver: Option<&Receiver<String>>,
        is_evaluate_mate: bool,
        nest: u32,
    ) -> (r: RuleExpression)
        ensures
            is_value(r@),
            same_frame(old(self), final(self)),
            cell(old(self), position.0 as int, position.1 as int) is None ==> *final(self) == *old(self) && *final(context) == *old(context)
                && r@ == RuleValue::Error("no piece at given position in get_piece_var func"@),
            cell_view(old(self), position.0 as int, position.1 as int) matches Some(p) ==> (!p.memory.contains_key(variable@)
                ==> *final(self) == *old(self) && *final(context) == *old(context)
                    && r@ == RuleValue::Error("piece "@ + p.name + " does not have "@ + variable@ + " variable in get_piece_var func"@)),
            cell_view(old(self), position.0 as int, position.1 as int) matches Some(p) ==> (p.memory.contains_key(variable@)
                && api_free(p.memory[variable@]) && depth < MAX_DEPTH
                ==> *final(self) == *old(self) && *final(context) == *old(context) && r@ == pure_eval(p.memory[variable@], old(context)@)),
            cell_view(old(self), position.0 as int, position.1 as int) matches Some(p) ==> (p.memory.contains_key(variable@)
                ==> crate::eval::evaluated(p.memory[variable@], *old(self), *old(context), *final(self), *final(context), r@,
                    (if depth < u32::MAX { depth + 1 } else { depth as int }) as u32, sender is Some && receiver is Some, is_evaluate_mate, nest)),
        decreases nest, level(depth), 15int, 0int,
    {
        let value = match self.piece_at(position.0, position.1) {
            Some(piece) => match piece.memory.get(variable) {
                Some(val) => val.duplicate(),
                None => {
                    let m = cat4("piece ", piece.name.as_str(), " does not have ", variable);
                    return RuleExpression::Error(cat(m.as_str(), " variable in get_piece_var func"));
                },
            },
            None => { return RuleExpression::Error(text("no piece at given position in get_piece_var func")); },
        };
        let d = if depth < u32::MAX { depth + 1 } else { depth };
        value.evaluate_in(self, context, d, sender, receiver, is_evaluate_mate, nest)
    }
}

} // verus!
