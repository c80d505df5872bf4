//! The calls through which rules read and change the board.
use vstd::prelude::*;
use std::sync::mpsc::{Receiver, Sender};
use crate::board::{Board, cell, cell_view, in_size, line_point, line_steps, same_frame, sign};
use crate::calls::{change_refusal, changed_kind, mate_args, mem_var_source, memory_source, place_target, MemorySource, cleared, memory_target, memory_update, memory_written, move_refusal, move_targets, removal_target, Call, call_named, call_of, arity_error, call_cord, call_forward, call_history, call_in_bounds, call_is_different, call_is_empty, call_is_path_blocked,
    call_clone, call_increase_var, call_var_from_history, int_pair, call_is_player, call_is_same_line, call_is_type, call_north, call_on_board, call_side, context_call, err, grid_count, int_result,
    is_kind, is_pos_name, is_var_name, kind_at, square_text, kind_in_cementary, missing, pure_call, row_count, agrees};
use crate::dict::Dict;
use crate::eval::{api_free, is_value, level, MATE_NESTING, MAX_DEPTH, pure_eval, value_text};
use crate::piece::{Piece, PieceView};
use crate::play::{cementaries_after, cementary_views, escape_needed, in_grid, moved, no_piece_with_id, search_answer};
use crate::rules::{attack_pred, board_api_free, grid_squares};
use crate::eval::lemma_same_frame_trans;
use crate::rules::{RuleKind, silent_at};
use crate::places::{arg_views, dst_word, hist_word, is_hist_word, place_arity, pos_word, src_word, var_word};
use crate::player::Player;
use crate::rule::{RuleExpression, RuleValue};
use crate::text::{debug_str, trim_text, cat, cat3, cat4, int_to_text, pair_to_text, parse_i32, parse_u32, str_eq, text, two_parts};

verus! {

/// `usize::to_string`: the decimal text of a count.
#[verifier::external_body]
pub(crate) fn count_text(n: usize) -> (r: String)
    ensures
        r@ == crate::text::int_text(n as int),
{
    n.to_string()
}

fn error(m: &str) -> (r: RuleExpression)
    ensures
        r@ == err(m@),
{
    RuleExpression::Error(text(m))
}

fn arity_err(api: &str, n: usize) -> (r: RuleExpression)
    ensures
        r@ == arity_error(api@, n as nat),
{
    let t = count_text(n);
    RuleExpression::Error(cat4("wrong number of arguments in ", api, " args:", t.as_str()))
}

fn missing_err(name: &str, api: &str) -> (r: RuleExpression)
    ensures
        r@ == missing(name@, api@),
{
    RuleExpression::Error(cat4("no ", name, " in ", api))
}

fn int_res(v: i64) -> (r: RuleExpression)
    ensures
        r@ == int_result(v as int),
{
    if i32::MIN as i64 <= v && v <= i32::MAX as i64 {
        RuleExpression::Integer(v as i32)
    } else {
        error("integer overflow")
    }
}

fn has_place_arity(a: &Vec<&str>) -> (r: bool)
    ensures
        r == place_arity(arg_views(a@)),
{
    (a.len() == 2 && !hist_word(a[0])) || (a.len() == 3 && hist_word(a[0]))
}

fn pos_name(s: &str) -> (r: bool)
    ensures
        r == is_pos_name(s@),
{
    str_eq(s, "pos") || str_eq(s, "position")
}

fn var_name(s: &str) -> (r: bool)
    ensures
        r == is_var_name(s@),
{
    str_eq(s, "var") || str_eq(s, "variable")
}

impl Board {
    fn is_empty_call(&self, a: &Vec<&str>, context: &Dict<String>, api: &str) -> (r: RuleExpression)
        ensures
            r@ == call_is_empty(self, arg_views(a@), context@, api@),
    {
        if !has_place_arity(a) {
            return arity_err(api, a.len());
        }
        match self.locate_in(a, context) {
            Some(p) => RuleExpression::Boolean(!self.has_piece_at(p)),
            None => error("could not get a valid position"),
        }
    }

    fn side_call(&self, a: &Vec<&str>, context: &Dict<String>, api: &str, ally: bool) -> (r: RuleExpression)
        ensures
            r@ == call_side(self, arg_views(a@), context@, api@, ally),
    {
        if !has_place_arity(a) {
            return arity_err(api, a.len());
        }
        match self.locate_in(a, context) {
            Some(p) => match self.piece_at(p.0, p.1) {
                Some(q) => RuleExpression::Boolean((q.owner == self.current_player) == ally),
                None => RuleExpression::Boolean(false),
            },
            None => error("could not get a valid position"),
        }
    }

    fn kind_at_call(&self, p: (u32, u32), id: &str) -> (r: RuleExpression)
        ensures
            r@ == kind_at(self, p, id@),
    {
        match self.piece_at(p.0, p.1) {
            Some(q) => RuleExpression::Boolean(str_eq(q.id.as_str(), id)),
            None => error("no piece at given position"),
        }
    }

    fn is_type_call(&self, a: &Vec<&str>, context: &Dict<String>, api: &str) -> (r: RuleExpression)
        ensures
            r@ == call_is_type(self, arg_views(a@), context@, api@),
    {
        if a.len() != 3 {
            return error("wrong number of arguments in is_type");
        }
        if pos_name(a[0]) {
            match self.get_valid_position(a[1]) {
                Some(p) => self.kind_at_call(p, a[2]),
                None => error("not a valid position"),
            }
        } else if var_name(a[0]) {
            match context.get(a[1]) {
                Some(s) => match self.get_valid_position(s.as_str()) {
                    Some(p) => self.kind_at_call(p, a[2]),
                    None => RuleExpression::Error(cat3(a[1], " is not a position ", api)),
                },
                None => missing_err(a[1], api),
            }
        } else if str_eq(a[0], "cw") || str_eq(a[0], "cementary_white") {
            kind_in_cementary_call(&self.cementaries.0, a, context, api)
        } else if str_eq(a[0], "cb") || str_eq(a[0], "cementary_black") {
            kind_in_cementary_call(&self.cementaries.1, a, context, api)
        } else {
            error("wrong first argument")
        }
    }

    fn is_player_call(&self, a: &Vec<&str>, context: &Dict<String>, api: &str) -> (r: RuleExpression)
        ensures
            r@ == call_is_player(self, arg_views(a@), context@, api@),
    {
        if a.len() != 2 {
            return error("wrong number of args");
        }
        let p = match self.get_valid_position(a[0]) {
            Some(p) => p,
            None => match context.get(a[0]) {
                Some(s) => match self.get_valid_position(s.as_str()) {
                    Some(p) => p,
                    None => { return RuleExpression::Error(cat("Could not get a valid position in ", api)); },
                },
                None => { return missing_err(a[0], api); },
            },
        };
        match self.piece_at(p.0, p.1) {
            Some(q) => match Player::from_str(a[1]) {
                Some(pl) => RuleExpression::Boolean(q.owner == pl),
                None => RuleExpression::Boolean(false),
            },
            None => RuleExpression::Boolean(false),
        }
    }

    fn in_bounds_call(&self, a: &Vec<&str>, context: &Dict<String>, api: &str) -> (r: RuleExpression)
        ensures
            r@ == call_in_bounds(self, arg_views(a@), context@, api@),
    {
        if !has_place_arity(a) {
            return arity_err(api, a.len());
        }
        let s: String = if pos_word(a[0]) {
            text(a[1])
        } else if var_word(a[0]) {
            match context.get(a[1]) {
                Some(s) => s.clone(),
                None => { return error("given variable not in context"); },
            }
        } else if hist_word(a[0]) {
            let i = match parse_u32(a[2]) {
                Some(i) => i,
                None => { return error("wrong third argument"); },
            };
            match self.get_history(i) {
                Some(e) => {
                    if src_word(a[1]) {
                        pair_to_text(e.1.0.0 as i64, e.1.0.1 as i64)
                    } else if dst_word(a[1]) {
                        pair_to_text(e.1.1.0 as i64, e.1.1.1 as i64)
                    } else {
                        return error("wrong second argument");
                    }
                },
                None => { return error("could not get history entry"); },
            }
        } else {
            return error("wrong first argument");
        };
        RuleExpression::Boolean(self.is_position_valid(s.as_str()))
    }

    fn is_path_blocked_call(&self, a: &Vec<&str>, context: &Dict<String>, api: &str) -> (r: RuleExpression)
        ensures
            r@ == call_is_path_blocked(self, arg_views(a@), context@, api@),
    {
        if a.len() != 2 {
            return error("wrong number of argument");
        }
        let c1 = match context.get(a[0]) {
            Some(s) => s,
            None => { return missing_err(a[0], api); },
        };
        let c2 = match context.get(a[1]) {
            Some(s) => s,
            None => { return missing_err(a[1], api); },
        };
        let p = match self.get_valid_position(c1.as_str()) {
            Some(p) => p,
            None => { return RuleExpression::Error(cat("old_position in ", api)); },
        };
        let q = match self.get_valid_position(c2.as_str()) {
            Some(q) => q,
            None => { return RuleExpression::Error(cat("new_position in ", api)); },
        };
        RuleExpression::Boolean(self.is_path_blocked(p, q))
    }

    fn north_call(&self, a: &Vec<&str>, context: &Dict<String>, api: &str, second: bool) -> (r: RuleExpression)
        ensures
            r@ == call_north(self, arg_views(a@), context@, api@, second),
    {
        if !has_place_arity(a) {
            return arity_err(api, a.len());
        }
        let p = match context.get("old_position") {
            Some(s) => match self.get_pair(s.as_str()) {
                Some(p) => p,
                None => { return RuleExpression::Error(cat("old_position in ", api)); },
            },
            None => { return RuleExpression::Error(cat("no old_position in ", api)); },
        };
        match self.locate_pair_in(a, context) {
            Some(q) => int_res(if second { p.1 as i64 - q.1 as i64 } else { p.0 as i64 - q.0 as i64 }),
            None => RuleExpression::Error(cat("could not get position in ", api)),
        }
    }

    fn forward_call(&self, a: &Vec<&str>, context: &Dict<String>, api: &str, second: bool) -> (r: RuleExpression)
        ensures
            r@ == call_forward(self, arg_views(a@), context@, api@, second),
    {
        if !has_place_arity(a) {
            return arity_err(api, a.len());
        }
        let p = match context.get("old_position") {
            Some(s) => match self.get_valid_position(s.as_str()) {
                Some(p) => p,
                None => { return RuleExpression::Error(cat("old_position in ", api)); },
            },
            None => { return RuleExpression::Error(cat("no old_position in ", api)); },
        };
        let q = match self.locate_pair_in(a, context) {
            Some(q) => q,
            None => { return RuleExpression::Error(cat("could not get position in ", api)); },
        };
        match self.piece_at(p.0, p.1) {
            Some(piece) => {
                let d: i64 = if second { p.1 as i64 - q.1 as i64 } else { p.0 as i64 - q.0 as i64 };
                int_res(if piece.owner == Player::White { d } else { -d })
            },
            None => {
                let sq = cat4("(", int_to_text(p.0 as i64).as_str(), ", ", int_to_text(p.1 as i64).as_str());
                let m = cat4("No piece at ", sq.as_str(), ")", " position in ");
                let e = cat(m.as_str(), api);
                assert(e@ =~= "No piece at "@ + square_text(p) + " position in "@ + api@);
                RuleExpression::Error(e)
            },
        }
    }

    fn history_call(&self, a: &Vec<&str>, api: &str) -> (r: RuleExpression)
        ensures
            r@ == call_history(self, arg_views(a@), api@),
    {
        if a.len() < 2 || a.len() > 3 {
            return RuleExpression::Error(cat("wrong amount of argument in ", api));
        }
        let i = match parse_u32(a[1]) {
            Some(i) => i,
            None => { return RuleExpression::Error(cat("wrong index in ", api)); },
        };
        let e = match self.get_history(i) {
            Some(e) => e,
            None => { return RuleExpression::Error(cat("error with taking entry from history in ", api)); },
        };
        let p = if src_word(a[0]) {
            e.1.0
        } else if dst_word(a[0]) {
            e.1.1
        } else {
            return RuleExpression::Error(cat("wrong first argument in ", api));
        };
        if a.len() == 2 {
            proof {
                reveal_with_fuel(crate::rule::view_rule, 2);
            }
            return RuleExpression::Pair(Box::new(RuleExpression::Integer(p.0 as i32)), Box::new(RuleExpression::Integer(p.1 as i32)));
        }
        if str_eq(a[2], "v") {
            RuleExpression::Integer(p.0 as i32)
        } else if str_eq(a[2], "h") {
            RuleExpression::Integer(p.1 as i32)
        } else {
            RuleExpression::Error(cat("wrong third argument in ", api))
        }
    }

    /// The number of squares holding a piece of kind `id` (owned by `owner`), capped at
    /// `u64::MAX`.
    fn count_kind(&self, id: &str, owner: Option<Player>) -> (r: u64)
        ensures
            r == (if grid_count(self.board@, id@, owner) > u64::MAX { u64::MAX as nat } else { grid_count(self.board@, id@, owner) }),
    {
        let mut total: u64 = 0;
        let mut i: usize = 0;
        while i < self.board.len()
            invariant
                i <= self.board@.len(),
                total == (if grid_count(self.board@.take(i as int), id@, owner) > u64::MAX { u64::MAX as nat } else { grid_count(self.board@.take(i as int), id@, owner) }),
            decreases self.board.len() - i,
        {
            let row = &self.board[i];
            let ghost before = grid_count(self.board@.take(i as int), id@, owner);
            let mut j: usize = 0;
            while j < row.len()
                invariant
                    j <= row@.len(),
                    row == self.board@[i as int],
                    total == (if before + row_count(row@.take(j as int), id@, owner) > u64::MAX { u64::MAX as nat } else { before + row_count(row@.take(j as int), id@, owner) }),
                decreases row.len() - j,
            {
                let hit = match &row[j] {
                    Some(p) => str_eq(p.id.as_str(), id) && match owner {
                        Some(o) => p.owner == o,
                        None => true,
                    },
                    None => false,
                };
                proof {
                    assert(row@.take(j + 1).drop_last() == row@.take(j as int));
                    assert(hit == is_kind(row@[j as int], id@, owner));
                }
                if hit && total < u64::MAX {
                    total = total + 1;
                }
                j += 1;
            }
            proof {
                assert(row@.take(row@.len() as int) == row@);
                assert(self.board@.take(i + 1).drop_last() == self.board@.take(i as int));
            }
            i += 1;
        }
        proof {
            assert(self.board@.take(self.board@.len() as int) == self.board@);
        }
        total
    }

    fn on_board_call(&self, a: &Vec<&str>, api: &str, by_owner: bool, count: bool) -> (r: RuleExpression)
        ensures
            r@ == call_on_board(self, arg_views(a@), api@, by_owner, count),
    {
        if a.len() < 1 {
            return error("wrong number of arguments");
        }
        if !self.pieces.contains_key(a[0]) {
            let m = cat3("Piece ", a[0], " does not exist in this game, in ");
            return RuleExpression::Error(cat(m.as_str(), api));
        }
        let owner = if by_owner {
            if a.len() > 1 {
                match Player::from_str(a[1]) {
                    Some(p) => Some(p),
                    None => { return error("Please add a valid player"); },
                }
            } else {
                Some(self.current_player)
            }
        } else {
            None
        };
        let n = self.count_kind(a[0], owner);
        if count {
            RuleExpression::Integer(n as i32)
        } else {
            RuleExpression::Boolean(n > 0)
        }
    }

    fn is_same_line_call(&self, a: &Vec<&str>) -> (r: RuleExpression)
        ensures
            r@ == call_is_same_line(self, arg_views(a@)),
    {
        if a.len() != 3 {
            return error("wrong number of arguments");
        }
        let p = match self.get_valid_position(a[0]) {
            Some(p) => p,
            None => { return error("position 1 is not valid"); },
        };
        let q = match self.get_valid_position(a[1]) {
            Some(q) => q,
            None => { return error("position 1 is not valid"); },
        };
        let dx: i64 = q.0 as i64 - p.0 as i64;
        let dy: i64 = q.1 as i64 - p.1 as i64;
        let ax: i64 = if dx < 0 { -dx } else { dx };
        let ay: i64 = if dy < 0 { -dy } else { dy };
        if dx != 0 && dy != 0 && ax != ay {
            return error("Positions not on straight line or a square diagonal");
        }
        if dx == 0 && dy == 0 {
            return RuleExpression::Boolean(true);
        }
        let target = match self.piece_at(q.0, q.1) {
            Some(t) => t,
            None => { return RuleExpression::Boolean(false); },
        };
        let by_piece = str_eq(a[2], "piece");
        if !by_piece && !str_eq(a[2], "owner") {
            if self.has_piece_at(p) {
                return error("unknown argument");
            }
            return RuleExpression::Boolean(false);
        }
        let sx: i64 = if dx > 0 { 1 } else if dx < 0 { -1 } else { 0 };
        let sy: i64 = if dy > 0 { 1 } else if dy < 0 { -1 } else { 0 };
        let steps: i64 = if ax > ay { ax } else { ay };
        let mut x: i64 = p.0 as i64;
        let mut y: i64 = p.1 as i64;
        let mut k: i64 = 0;
        while k < steps
            invariant
                0 <= k <= steps,
                steps == line_steps(p, q),
                sx == sign(q.0 - p.0),
                sy == sign(q.1 - p.1),
                dx == q.0 - p.0,
                dy == q.1 - p.1,
                ax == (if dx < 0 { -dx } else { dx as int }),
                ay == (if dy < 0 { -dy } else { dy as int }),
                !(dx != 0 && dy != 0 && ax != ay),
                (x as int, y as int) == line_point(p, q, k as int),
                cell(self, q.0 as int, q.1 as int) == Some(*target),
                a@.len() == 3,
                crate::board::spec_valid_position(self, arg_views(a@)[0]) == Some(p),
                crate::board::spec_valid_position(self, arg_views(a@)[1]) == Some(q),
                p != q,
                by_piece == (arg_views(a@)[2] == "piece"@),
                arg_views(a@)[2] == "piece"@ || arg_views(a@)[2] == "owner"@,
                forall|j: int| 0 <= j < k ==> #[trigger] agrees(self, p, q, j, arg_views(a@)[2]),
            decreases steps - k,
        {
            proof {
                lemma_line_point_bounds(p, q, k as int);
            }
            let c = self.piece_at(x as u32, y as u32);
            let ok = match c {
                Some(piece) => if by_piece { str_eq(piece.id.as_str(), target.id.as_str()) } else { piece.owner == target.owner },
                None => false,
            };
            proof {
                assert(ok == agrees(self, p, q, k as int, arg_views(a@)[2]));
            }
            if !ok {
                assert(!agrees(self, p, q, k as int, arg_views(a@)[2]));
                assert(!(forall|j: int| 0 <= j < line_steps(p, q) ==> #[trigger] agrees(self, p, q, j, arg_views(a@)[2])));
                assert(call_is_same_line(self, arg_views(a@)) == RuleValue::Boolean(false));
                return RuleExpression::Boolean(false);
            }
            x = x + sx;
            y = y + sy;
            k = k + 1;
            assert((x as int, y as int) == line_point(p, q, k as int)) by (nonlinear_arith)
                requires
                    x == line_point(p, q, k - 1).0 + sx,
                    y == line_point(p, q, k - 1).1 + sy,
                    sx == sign(q.0 - p.0),
                    sy == sign(q.1 - p.1);
        }
        RuleExpression::Boolean(true)
    }
}

/// The squares from `p` up to `q` on one line lie between them.
proof fn lemma_line_point_bounds(p: (u32, u32), q: (u32, u32), k: int)
    requires
        0 <= k <= line_steps(p, q),
        !((q.0 - p.0) != 0 && (q.1 - p.1) != 0 && (if q.0 - p.0 < 0 { p.0 - q.0 } else { q.0 - p.0 }) != (if q.1 - p.1 < 0 { p.1 - q.1 } else { q.1 - p.1 })),
    ensures
        0 <= line_point(p, q, k).0 <= u32::MAX,
        0 <= line_point(p, q, k).1 <= u32::MAX,
{
    let sx = sign(q.0 - p.0);
    let sy = sign(q.1 - p.1);
    assert(k * sx == (if sx == 1 { k } else if sx == -1 { -k } else { 0 })) by (nonlinear_arith)
        requires sx == 1 || sx == -1 || sx == 0;
    assert(k * sy == (if sy == 1 { k } else if sy == -1 { -k } else { 0 })) by (nonlinear_arith)
        requires sy == 1 || sy == -1 || sy == 0;
}

fn kind_in_cementary_call(c: &Vec<Piece>, a: &Vec<&str>, context: &Dict<String>, api: &str) -> (r: RuleExpression)
    requires
        a@.len() == 3,
    ensures
        r@ == kind_in_cementary(c@, arg_views(a@), context@, api@),
{
    match context.get(a[1]) {
        Some(s) => match parse_u32(s.as_str()) {
            Some(i) => {
                if (i as usize) >= c.len() {
                    error("index, out of cementary")
                } else {
                    RuleExpression::Boolean(str_eq(c[i as usize].id.as_str(), a[2]))
                }
            },
            None => error("Not a natural number"),
        },
        None => missing_err(a[1], api),
    }
}

fn is_different_call(a: &Vec<&str>, context: &Dict<String>, api: &str) -> (r: RuleExpression)
    ensures
        r@ == call_is_different(arg_views(a@), context@, api@),
{
    if a.len() < 1 {
        return error("wrong number of arguments");
    }
    let c1 = match context.get(a[0]) {
        Some(s) => s,
        None => { return missing_err(a[0], api); },
    };
    if a.len() < 2 {
        return error("wrong number of arguments");
    }
    let c2 = match context.get(a[1]) {
        Some(s) => s,
        None => { return missing_err(a[1], api); },
    };
    let same = match (crate::text::parse_pair_text(c1.as_str()), crate::text::parse_pair_text(c2.as_str())) {
        (Some(x), Some(y)) => x.0 == y.0 && x.1 == y.1,
        (None, None) => true,
        _ => false,
    };
    RuleExpression::Boolean(!same)
}

fn cord_call(context: &Dict<String>, api: &str, key: &str, second: bool) -> (r: RuleExpression)
    ensures
        r@ == call_cord(context@, api@, key@, second),
{
    match context.get(key) {
        Some(s) => match crate::text::parse_pair_text(s.as_str()) {
            Some(p) => RuleExpression::Integer(if second { p.1 } else { p.0 }),
            None => RuleExpression::Error(cat3(key, " in ", api)),
        },
        None => RuleExpression::Error(cat4("no ", key, " in ", api)),
    }
}


fn clone_call(a: &Vec<&str>, context: &mut Dict<String>, api: &str) -> (r: RuleExpression)
    ensures
        (r@, final(context)@) == call_clone(arg_views(a@), old(context)@, api@),
{
    if a.len() != 2 {
        return error("wrong number of argumenst");
    }
    let c = match context.get(a[0]) {
        Some(s) => s.clone(),
        None => { return missing_err(a[0], api); },
    };
    context.insert(text(a[1]), c);
    RuleExpression::Void
}

/// Two integers read from `x,y`.
fn int_pair_of(s: &str) -> (r: Option<(i32, i32)>)
    ensures
        r == int_pair(s@),
{
    match two_parts(s) {
        Some((x, y)) => match (parse_i32(x), parse_i32(y)) {
            (Some(i), Some(j)) => Some((i, j)),
            _ => None,
        },
        None => None,
    }
}

fn increase_var_call(a: &Vec<&str>, context: &mut Dict<String>, api: &str) -> (r: RuleExpression)
    ensures
        (r@, final(context)@) == call_increase_var(arg_views(a@), old(context)@, api@),
{
    if a.len() != 3 {
        return error("wrong number of arguments");
    }
    let c = match context.get(a[1]) {
        Some(s) => s.clone(),
        None => { return missing_err(a[1], api); },
    };
    if str_eq(a[0], "pair") {
        if two_parts(a[2]).is_none() {
            return error("third argument not a pair");
        }
        let p = match int_pair_of(a[2]) {
            Some(p) => p,
            None => { return error("third argument not a pair of integers"); },
        };
        if two_parts(c.as_str()).is_none() {
            return error("given variable not a pair");
        }
        let q = match int_pair_of(c.as_str()) {
            Some(q) => q,
            None => { return error("given varable not a pair of integers"); },
        };
        let x: i64 = p.0 as i64 + q.0 as i64;
        let y: i64 = p.1 as i64 + q.1 as i64;
        if i32::MIN as i64 <= x && x <= i32::MAX as i64 && i32::MIN as i64 <= y && y <= i32::MAX as i64 {
            context.insert(text(a[1]), pair_to_text(x, y));
            RuleExpression::Void
        } else {
            error("integer overflow")
        }
    } else if str_eq(a[0], "int") {
        let n = match parse_i32(a[2]) {
            Some(n) => n,
            None => { return error("third argument not an integer"); },
        };
        let m = match parse_i32(c.as_str()) {
            Some(m) => m,
            None => { return error("given variable not an integer"); },
        };
        let sum: i64 = n as i64 + m as i64;
        if i32::MIN as i64 <= sum && sum <= i32::MAX as i64 {
            context.insert(text(a[1]), int_to_text(sum));
            RuleExpression::Void
        } else {
            error("integer overflow")
        }
    } else {
        error("wrong first argument")
    }
}

impl Board {
    fn var_from_history_call(&self, a: &Vec<&str>, context: &mut Dict<String>, api: &str) -> (r: RuleExpression)
        ensures
            (r@, final(context)@) == call_var_from_history(self, arg_views(a@), old(context)@, api@),
    {
        if a.len() != 4 {
            return error("wrong number of arguments");
        }
        let i = match parse_u32(a[2]) {
            Some(i) => i,
            None => { return RuleExpression::Error(cat("wrong index in ", api)); },
        };
        let e = match self.get_history(i) {
            Some(e) => e,
            None => { return RuleExpression::Error(cat("error with taking entry from history in ", api)); },
        };
        let p = if src_word(a[0]) {
            e.1.0
        } else if dst_word(a[0]) {
            e.1.1
        } else {
            return error("Wrong first argument");
        };
        let v = if str_eq(a[1], "vertical") || str_eq(a[1], "v") || str_eq(a[1], "vert") {
            int_to_text(p.0 as i64)
        } else if str_eq(a[1], "horizontal") || str_eq(a[1], "h") || str_eq(a[1], "horz") {
            int_to_text(p.1 as i64)
        } else if str_eq(a[1], "pair") || str_eq(a[1], "p") {
            pair_to_text(p.0 as i64, p.1 as i64)
        } else {
            return error("Wrong second argument");
        };
        context.insert(text(a[3]), v);
        RuleExpression::Void
    }
}

impl Board {
    /// Empties the square `p`; with `bury`, its piece is first sent to a cementary.
    fn clear_square(&mut self, p: (u32, u32), bury: bool)
        ensures
            cleared(old(self), final(self), p, bury),
    {
        let ghost b0 = *self;
        if bury {
            self.bury_copy(p);
        }
        let ghost b1 = *self;
        self.set_cell(p.0, p.1, None);
        proof {
            assert forall|x: int, y: int| (x, y) != (p.0 as int, p.1 as int) implies #[trigger] cell_view(self, x, y) == cell_view(&b0, x, y) by {
                assert(cell(self, x, y) == cell(&b1, x, y));
            }
            lemma_same_frame_trans(&b0, &b1, self);
        }
    }

    /// The square that `kill`, `remove` and `destroy` act on.
    fn removal_target_of(&self, a: &Vec<&str>, context: &Dict<String>, api: &str, io: bool) -> (r: Result<(u32, u32), RuleExpression>)
        ensures
            match (r, removal_target(self, arg_views(a@), context@, api@, io)) {
                (Ok(p), Ok(q)) => p == q,
                (Err(e), Err(f)) => e@ == f,
                _ => false,
            },
    {
        if !io {
            return Err(RuleExpression::Error(cat("Cannot evaluate without receiver or sender in ", api)));
        }
        if !has_place_arity(a) {
            return Err(arity_err(api, a.len()));
        }
        match self.locate_in(a, context) {
            Some(p) => Ok(p),
            None => Err(RuleExpression::Error(cat("could not get position in ", api))),
        }
    }

    /// The squares `move_piece` moves from and to.
    fn move_targets_of(&self, a: &Vec<&str>, context: &Dict<String>) -> (r: Result<((u32, u32), (u32, u32)), String>)
        ensures
            match (r, move_targets(self, arg_views(a@), context@)) {
                (Ok(p), Ok(q)) => p == q,
                (Err(e), Err(f)) => e@ == f,
                _ => false,
            },
    {
        if a.len() != 3 {
            return Err(text("wrong number of arguments"));
        }
        if str_eq(a[0], "var") {
            let v1 = match context.get(a[1]) {
                Some(s) => s,
                None => { return Err(text("context does not contain var1")); },
            };
            let v2 = match context.get(a[2]) {
                Some(s) => s,
                None => { return Err(text("context does not contain var2")); },
            };
            let p = match self.get_valid_position(v1.as_str()) {
                Some(p) => p,
                None => { return Err(text("position 1 is not valid")); },
            };
            match self.get_valid_position(v2.as_str()) {
                Some(q) => Ok((p, q)),
                None => Err(text("position 2 is not valid")),
            }
        } else if str_eq(a[0], "pos") {
            let p = match self.get_valid_position(a[1]) {
                Some(p) => p,
                None => { return Err(text("position 1 is not valid")); },
            };
            match self.get_valid_position(a[2]) {
                Some(q) => Ok((p, q)),
                None => Err(text("position 2 is not valid")),
            }
        } else {
            Err(cat("Wrong argument to move_piece: ", a[0]))
        }
    }

    /// Whether a square lies on the grid.
    fn on_grid(&self, p: (u32, u32)) -> (r: bool)
        ensures
            r == in_grid(self, p.0 as int, p.1 as int),
    {
        (p.0 as usize) < self.board.len() && (p.1 as usize) < self.board[p.0 as usize].len()
    }

    fn move_piece_call(&mut self, a: &Vec<&str>, context: &Dict<String>) -> (r: RuleExpression)
        ensures
            match move_targets(old(self), arg_views(a@), context@) {
                Err(m) => r@ == err(m) && *final(self) == *old(self),
                Ok((p, q)) => match move_refusal(old(self), p, q) {
                    Some(m) => r@ == err(m) && *final(self) == *old(self),
                    None => r@ == RuleValue::Void && moved(old(self), final(self), p, q) && same_frame(old(self), final(self))
                        && final(self).cementaries == old(self).cementaries,
                },
            },
    {
        let (p, q) = match self.move_targets_of(a, context) {
            Ok(t) => t,
            Err(m) => { return RuleExpression::Error(m); },
        };
        if !self.on_grid(q) {
            return error("Out of board");
        }
        if self.has_piece_at(q) {
            return error("moving a piece to occupied position");
        }
        if !self.on_grid(p) {
            return error("Out of board");
        }
        if !self.has_piece_at(p) {
            return error("No piece at given position");
        }
        let ghost b0 = *self;
        let piece = self.take_cell(p.0, p.1);
        let ghost b1 = *self;
        self.set_cell(q.0, q.1, piece);
        proof {
            assert(p != q);
            assert forall|x: int, y: int| (x, y) != (p.0 as int, p.1 as int) && (x, y) != (q.0 as int, q.1 as int)
                implies #[trigger] cell_view(self, x, y) == cell_view(&b0, x, y) by {
                assert(cell(self, x, y) == cell(&b1, x, y));
            }
            assert(cell(self, p.0 as int, p.1 as int) == cell(&b1, p.0 as int, p.1 as int));
            assert(cementary_views(self) == cementaries_after(cementary_views(&b0), cell_view(&b0, q.0 as int, q.1 as int)));
        }
        RuleExpression::Void
    }

    /// The square whose piece's memory `increase_memory` changes.
    fn memory_target_of(&self, a: &Vec<&str>, context: &Dict<String>, api: &str) -> (r: Result<(u32, u32), RuleExpression>)
        ensures
            match (r, memory_target(self, arg_views(a@), context@, api@)) {
                (Ok(p), Ok(q)) => p == q,
                (Err(e), Err(f)) => e@ == f,
                _ => false,
            },
    {
        if a.len() != 5 {
            return Err(error("wrong number of arguments"));
        }
        if str_eq(a[1], "id") {
            return match parse_i32(a[2]) {
                Some(id) => match self.find_id_square(id) {
                    Some(p) => Ok(p),
                    None => Err(error("could not find piece with given id on board")),
                },
                None => Err(RuleExpression::Error(cat("Not a valid id in ", api))),
            };
        }
        if pos_name(a[1]) {
            match self.get_valid_position(a[2]) {
                Some(p) => Ok(p),
                None => Err(error("not a valid position")),
            }
        } else if var_name(a[1]) {
            match context.get(a[2]) {
                Some(s) => match self.get_valid_position(s.as_str()) {
                    Some(p) => Ok(p),
                    None => Err(RuleExpression::Error(cat3(a[2], " is not a position ", api))),
                },
                None => Err(missing_err(a[2], api)),
            }
        } else {
            Err(error("wrong second argument"))
        }
    }

    fn increase_memory_call(&mut self, a: &Vec<&str>, context: &Dict<String>, api: &str) -> (r: RuleExpression)
        ensures
            match memory_target(old(self), arg_views(a@), context@, api@) {
                Err(e) => r@ == e && *final(self) == *old(self),
                Ok(p) => match cell_view(old(self), p.0 as int, p.1 as int) {
                    None => r@ == RuleValue::Void && *final(self) == *old(self),
                    Some(q) => r@ == memory_update(q, arg_views(a@)).0 && match memory_update(q, arg_views(a@)).1 {
                        None => *final(self) == *old(self),
                        Some((k, v)) => memory_written(old(self), final(self), p, k, v),
                    },
                },
            },
    {
        let p = match self.memory_target_of(a, context, api) {
            Ok(p) => p,
            Err(e) => { return e; },
        };
        let (result, write) = match self.piece_at(p.0, p.1) {
            None => { return RuleExpression::Void; },
            Some(piece) => memory_step(piece, a),
        };
        match write {
            None => result,
            Some((k, v)) => {
                let ghost b0 = *self;
                let taken = self.take_cell(p.0, p.1);
                let ghost b1 = *self;
                match taken {
                    Some(mut piece) => {
                        let ghost before = piece@;
                        piece.memory.insert(k, v);
                        assert(piece@ == PieceView { memory: before.memory.insert(k@, v@), ..before });
                        self.set_cell(p.0, p.1, Some(piece));
                    },
                    None => {},
                }
                proof {
                    assert forall|x: int, y: int| (x, y) != (p.0 as int, p.1 as int) implies #[trigger] cell_view(self, x, y) == cell_view(&b0, x, y) by {
                        assert(cell(self, x, y) == cell(&b1, x, y));
                    }
                }
                result
            },
        }
    }
}

/// What `increase_memory` answers for `piece`, and the memory entry to write; see
/// `memory_update`.
fn memory_step(piece: &Piece, a: &Vec<&str>) -> (r: (RuleExpression, Option<(String, RuleExpression)>))
    requires
        a@.len() == 5,
    ensures
        r.0@ == memory_update(piece@, arg_views(a@)).0,
        match (r.1, memory_update(piece@, arg_views(a@)).1) {
            (Some((k, v)), Some((k2, v2))) => k@ == k2 && v@ == v2,
            (None, None) => true,
            _ => false,
        },
{
    let val = match piece.memory.get(a[3]) {
        Some(v) => v,
        None => { return (error("Given memory does not exist"), None); },
    };
    if str_eq(a[0], "pair") {
        let (s1, s2) = match two_parts(a[4]) {
            Some(t) => t,
            None => { return (error("fifth argument not a pair"), None); },
        };
        let dx: i32 = match parse_i32(s1) { Some(n) => n, None => 0 };
        let dy: i32 = match parse_i32(s2) { Some(n) => n, None => 0 };
        match val {
            RuleExpression::Pair(x, y) => match (&**x, &**y) {
                (RuleExpression::Integer(x2), RuleExpression::Integer(y2)) => {
                    let u: i64 = *x2 as i64 + dx as i64;
                    let w: i64 = *y2 as i64 + dy as i64;
                    if i32::MIN as i64 <= u && u <= i32::MAX as i64 && i32::MIN as i64 <= w && w <= i32::MAX as i64 {
                        proof {
                            reveal_with_fuel(crate::rule::view_rule, 2);
                        }
                        (RuleExpression::Void, Some((text(a[3]), RuleExpression::Pair(Box::new(RuleExpression::Integer(u as i32)), Box::new(RuleExpression::Integer(w as i32))))))
                    } else {
                        (error("integer overflow"), None)
                    }
                },
                _ => (RuleExpression::Void, None),
            },
            _ => (RuleExpression::Void, None),
        }
    } else if str_eq(a[0], "int") {
        match val {
            RuleExpression::Integer(v) => match parse_i32(a[4]) {
                Some(n) => {
                    let sum: i64 = n as i64 + *v as i64;
                    if i32::MIN as i64 <= sum && sum <= i32::MAX as i64 {
                        (RuleExpression::Void, Some((text(a[3]), RuleExpression::Integer(sum as i32))))
                    } else {
                        (error("integer overflow"), None)
                    }
                },
                None => (error("fifth argument not an integer"), None),
            },
            _ => (error("given memory not an integer"), None),
        }
    } else {
        (error("wrong first argument"), None)
    }
}

impl Board {
    /// `kill`: the piece on the square goes to a cementary, its dying rules fire, and the
    /// square is emptied.
    fn kill_call(
        &mut self,
        a: &Vec<&str>,
        context: &mut Dict<String>,
        api: &str,
        depth: u32,
        sender: Option<&Sender<Option<String>>>,
        receiver: Option<&Receiver<String>>,
        is_evaluate_mate: bool,
        nest: u32,
    ) -> (r: RuleExpression)
        ensures
            same_frame(old(self), final(self)),
            match removal_target(old(self), arg_views(a@), old(context)@, api@, sender is Some && receiver is Some) {
                Err(e) => r@ == e && *final(self) == *old(self) && *final(context) == *old(context),
                Ok(p) => r@ == RuleValue::Void && cell(final(self), p.0 as int, p.1 as int) is None
                    && (silent_at(old(self), p.0 as int, p.1 as int, RuleKind::Deathrattle)
                        ==> cleared(old(self), final(self), p, true) && *final(context) == *old(context)),
            },
        decreases nest, level(depth), 19int, 0int,
    {
        let io = sender.is_some() && receiver.is_some();
        let p = match self.removal_target_of(a, context, api, io) {
            Ok(p) => p,
            Err(e) => { return e; },
        };
        let ghost b0 = *self;
        if self.has_piece_at(p) {
            self.bury_copy(p);
            let ghost b1 = *self;
            self.fire_rules(p, RuleKind::Deathrattle, context, depth, sender, receiver, is_evaluate_mate, nest);
            proof {
                lemma_same_frame_trans(&b0, &b1, self);
            }
        }
        let ghost b2 = *self;
        self.set_cell(p.0, p.1, None);
        proof {
            lemma_same_frame_trans(&b0, &b2, self);
            if silent_at(&b0, p.0 as int, p.1 as int, RuleKind::Deathrattle) {
                assert forall|x: int, y: int| (x, y) != (p.0 as int, p.1 as int) implies #[trigger] cell_view(self, x, y) == cell_view(&b0, x, y) by {
                    assert(cell(self, x, y) == cell(&b2, x, y));
                }
            }
        }
        RuleExpression::Void
    }
}

/// `format!("{:?}", v)` for a list of texts: the texts, quoted and escaped, in brackets.
fn debug_words(v: &Vec<&str>) -> (r: String)
    ensures
        r@ == crate::eval::debug_texts(arg_views(v@)),
{
    let ghost s = arg_views(v@);
    let mut out = String::new();
    let mut i: usize = 0;
    while i < v.len()
        invariant
            i <= v@.len(),
            s == arg_views(v@),
            s.len() == v@.len(),
            out@ == crate::eval::texts_joined(s.take(i as int)),
        decreases v.len() - i,
    {
        let d = crate::text::debug_str(v[i]);
        proof {
            assert(s.take(i + 1).drop_last() == s.take(i as int));
            assert(s.take(i + 1).last() == s[i as int]);
        }
        if i == 0 {
            out = d;
            proof {
                assert(s.take(1)[0] == s[0]);
            }
        } else {
            out = cat3(out.as_str(), ", ", d.as_str());
        }
        i += 1;
    }
    proof {
        assert(s.take(s.len() as int) == s);
    }
    cat3("[", out.as_str(), "]")
}

/// The player and the piece id `check_mate` is asked about.
fn mate_args_of(a: &Vec<&str>) -> (r: Result<(Player, i32), RuleExpression>)
    ensures
        match (r, mate_args(arg_views(a@))) {
            (Ok(x), Ok(y)) => x == y,
            (Err(e), Err(f)) => e@ == f,
            _ => false,
        },
{
    if a.len() != 2 {
        return Err(error("wrong number of arguments"));
    }
    match parse_i32(a[0]) {
        Some(id) => match Player::from_str(a[1]) {
            Some(p) => Ok((p, id)),
            None => Err(error("Not a valid player")),
        },
        None => Err(error("Not a valid piece id")),
    }
}

impl Board {
    /// The square a call that names one in the usual way reads.
    fn place_target_of(&self, a: &Vec<&str>, context: &Dict<String>, api: &str) -> (r: Result<(u32, u32), RuleExpression>)
        ensures
            match (r, place_target(self, arg_views(a@), context@, api@)) {
                (Ok(p), Ok(q)) => p == q,
                (Err(e), Err(f)) => e@ == f,
                _ => false,
            },
    {
        if !has_place_arity(a) {
            return Err(arity_err(api, a.len()));
        }
        match self.locate_in(a, context) {
            Some(p) => Ok(p),
            None => Err(error("could not get a valid position")),
        }
    }

    /// `get_memory`: the memory `a[2]` of a piece on the board or in a cementary, evaluated one
    /// level deeper.
    fn get_memory_call(
        &mut self,
        a: &Vec<&str>,
        context: &mut Dict<String>,
        api: &str,
        depth: u32,
        sender: Option<&Sender<Option<String>>>,
        receiver: Option<&Receiver<String>>,
        is_evaluate_mate: bool,
        nest: u32,
    ) -> (r: RuleExpression)
        ensures
            is_value(r@),
            same_frame(old(self), final(self)),
            match memory_source(old(self), arg_views(a@), old(context)@, api@) {
                Err(e) => r@ == e && *final(self) == *old(self) && *final(context) == *old(context),
                Ok(MemorySource::Square(p)) => match cell_view(old(self), p.0 as int, p.1 as int) {
                    None => r@ == err("no piece at given position in get_piece_var func"@) && *final(self) == *old(self) && *final(context) == *old(context),
                    Some(q) => (!q.memory.contains_key(arg_views(a@)[2]) ==> r@ == err("piece "@ + q.name + " does not have "@ + arg_views(a@)[2] + " variable in get_piece_var func"@)
                        && *final(self) == *old(self) && *final(context) == *old(context))
                        && (q.memory.contains_key(arg_views(a@)[2]) && api_free(q.memory[arg_views(a@)[2]]) && depth < MAX_DEPTH
                            ==> r@ == pure_eval(q.memory[arg_views(a@)[2]], old(context)@) && *final(self) == *old(self) && *final(context) == *old(context)),
                },
                Ok(MemorySource::Stored(v)) => api_free(v) && depth < MAX_DEPTH
                    ==> r@ == pure_eval(v, old(context)@) && *final(self) == *old(self) && *final(context) == *old(context),
            },
        decreases nest, level(depth), 19int, 0int,
    {
        proof {
            reveal_with_fuel(is_value, 1);
        }
        if a.len() != 3 {
            return error("wrong number of arguments");
        }
        let white = str_eq(a[0], "cw") || str_eq(a[0], "cementary_white");
        let black = str_eq(a[0], "cb") || str_eq(a[0], "cementary_black");
        if str_eq(a[0], "id") || pos_name(a[0]) || var_name(a[0]) {
            let p = if str_eq(a[0], "id") {
                match parse_i32(a[1]) {
                    Some(id) => match self.find_id_square(id) {
                        Some(p) => p,
                        None => { return error("could not find piece with given id on board"); },
                    },
                    None => { return RuleExpression::Error(cat("Not a valid id in ", api)); },
                }
            } else if pos_name(a[0]) {
                match self.get_valid_position(a[1]) {
                    Some(p) => p,
                    None => { return error("not a valid position"); },
                }
            } else {
                match context.get(a[1]) {
                    Some(s) => match self.get_valid_position(s.as_str()) {
                        Some(p) => p,
                        None => { return RuleExpression::Error(cat3(a[1], " is not a position ", api)); },
                    },
                    None => { return missing_err(a[1], api); },
                }
            };
            self.get_piece_var_in(p, a[2], context, depth, sender, receiver, is_evaluate_mate, nest)
        } else if white || black {
            let value = {
                let c = if white { &self.cementaries.0 } else { &self.cementaries.1 };
                let i = match context.get(a[1]) {
                    Some(s) => match parse_u32(s.as_str()) {
                        Some(i) => i,
                        None => { return error("Not a natural number"); },
                    },
                    None => { return missing_err(a[1], api); },
                };
                if (i as usize) >= c.len() {
                    return error("index, out of cementary");
                }
                match c[i as usize].memory.get(a[2]) {
                    Some(v) => v.duplicate(),
                    None => { return error("Piece does not have given memory"); },
                }
            };
            let d = if depth < u32::MAX { depth + 1 } else { depth };
            value.evaluate_in(self, context, d, sender, receiver, is_evaluate_mate, nest)
        } else {
            error("wrong first argument")
        }
    }

    /// `create_var_from_mem`: stores the memory `a[2]` of a piece, evaluated, in variable `a[3]`.
    fn var_from_mem_call(
        &mut self,
        a: &Vec<&str>,
        context: &mut Dict<String>,
        api: &str,
        depth: u32,
        sender: Option<&Sender<Option<String>>>,
        receiver: Option<&Receiver<String>>,
        is_evaluate_mate: bool,
        nest: u32,
    ) -> (r: RuleExpression)
        ensures
            is_value(r@),
            same_frame(old(self), final(self)),
            match mem_var_source(old(self), arg_views(a@), old(context)@, api@) {
                Err(e) => r@ == e && *final(self) == *old(self) && *final(context) == *old(context),
                Ok(p) => match cell_view(old(self), p.0 as int, p.1 as int) {
                    None => r@ == err("no piece at given position in get_piece_var func"@) && *final(self) == *old(self) && *final(context) == *old(context),
                    Some(q) => (!q.memory.contains_key(arg_views(a@)[2]) ==> r@ == err("piece "@ + q.name + " does not have "@ + arg_views(a@)[2] + " variable in get_piece_var func"@)
                        && *final(self) == *old(self) && *final(context) == *old(context))
                        && (q.memory.contains_key(arg_views(a@)[2]) && api_free(q.memory[arg_views(a@)[2]]) && depth < MAX_DEPTH
                            ==> *final(self) == *old(self) && {
                                let v = pure_eval(q.memory[arg_views(a@)[2]], old(context)@);
                                if v is Error {
                                    r@ == v && *final(context) == *old(context)
                                } else {
                                    r@ == RuleValue::Void && final(context)@ == old(context)@.insert(arg_views(a@)[3], value_text(v))
                                }
                            }),
                },
            },
        decreases nest, level(depth), 19int, 0int,
    {
        if a.len() != 4 {
            return error("wrong number of arguments");
        }
        let p = if str_eq(a[0], "pos") {
            match self.get_valid_position(a[1]) {
                Some(p) => p,
                None => { return error("position 1 is not valid"); },
            }
        } else if str_eq(a[0], "id") {
            match parse_i32(a[1]) {
                Some(id) => match self.find_id_square(id) {
                    Some(p) => p,
                    None => { return RuleExpression::Boolean(true); },
                },
                None => { return error("Not a valid piece id"); },
            }
        } else if str_eq(a[0], "var") {
            match context.get(a[1]) {
                Some(s) => match self.get_valid_position(s.as_str()) {
                    Some(p) => p,
                    None => { return RuleExpression::Error(cat("position in ", api)); },
                },
                None => { return RuleExpression::Error(cat("no given position in ", api)); },
            }
        } else {
            return error("wrong first argument");
        };
        let memory = self.get_piece_var_in(p, a[2], context, depth, sender, receiver, is_evaluate_mate, nest);
        match memory {
            RuleExpression::Error(e) => RuleExpression::Error(e),
            _ => {
                context.insert(text(a[3]), memory.string2());
                RuleExpression::Void
            },
        }
    }

    /// `change_type`: asks the player which of the listed kinds the piece on `new_position`
    /// becomes, and turns it into a piece of that kind that keeps its memory and its owner;
    /// answers that name no listed kind the game knows are refused and asked again.
    fn change_type_call(
        &mut self,
        a: &Vec<&str>,
        context: &Dict<String>,
        api: &str,
        sender: Option<&Sender<Option<String>>>,
        receiver: Option<&Receiver<String>>,
        is_evaluate_mate: bool,
    ) -> (r: RuleExpression)
        ensures
            match change_refusal(old(self), arg_views(a@), api@, sender is Some && receiver is Some, is_evaluate_mate) {
                Some(e) => r@ == e && *final(self) == *old(self),
                None => (r@ == RuleValue::Void && exists|k: Seq<char>| arg_views(a@).contains(k) && changed_kind(old(self), final(self), context@, k))
                    || (r is Error && *final(self) == *old(self) && crate::calls::change_failure(old(self), context@, api@, r@)),
            },
    {
        let (tx, rx) = match (sender, receiver) {
            (Some(t), Some(x)) => (t, x),
            _ => { return RuleExpression::Error(cat("Cannot evaluate without receiver or sender in ", api)); },
        };
        if is_evaluate_mate {
            return error("Cannot evaluate change_type in checking for mate");
        }
        let mut matched: Vec<&str> = Vec::new();
        let mut i: usize = 0;
        while i < a.len()
            invariant
                i <= a@.len(),
                forall|j: int| 0 <= j < matched@.len() ==> self.pieces@.contains_key(#[trigger] matched@[j]@) && arg_views(a@).contains(matched@[j]@),
                matched@.len() == 0 ==> forall|j: int| 0 <= j < i ==> !self.pieces@.contains_key(#[trigger] arg_views(a@)[j]),
            decreases a.len() - i,
        {
            if self.pieces.contains_key(a[i]) {
                proof {
                    assert(arg_views(a@)[i as int] == a@[i as int]@);
                }
                matched.push(a[i]);
            }
            i += 1;
        }
        if matched.len() == 0 {
            return error("No pieces available to change to. Perhaps the listed pieces are not loaded in board.");
        }
        proof {
            let k = matched@[0]@;
            assert(self.pieces@.contains_key(k) && arg_views(a@).contains(k));
            let i = choose|i: int| 0 <= i < arg_views(a@).len() && arg_views(a@)[i] == k;
            assert(self.pieces@.contains_key(arg_views(a@)[i]));
        }
        let prompt = cat("Change to one of available types: ", debug_words(&matched).as_str());
        crate::channel::send_reply(&vec![prompt.clone()], tx);
        let mut attempts: u64 = 0;
        while attempts < u64::MAX
            invariant
                *self == *old(self),
                change_refusal(old(self), arg_views(a@), api@, sender is Some && receiver is Some, is_evaluate_mate) is None,
                forall|j: int| 0 <= j < matched@.len() ==> self.pieces@.contains_key(#[trigger] matched@[j]@) && arg_views(a@).contains(matched@[j]@),
            decreases u64::MAX - attempts,
        {
            attempts += 1;
            let line = match crate::channel::receive_line(rx) {
                Some(l) => l,
                None => { return error("There were issues with input"); },
            };
            let input = trim_text(line.as_str());
            let mut found = false;
            let mut j: usize = 0;
            while j < matched.len()
                invariant
                    j <= matched@.len(),
                    found ==> self.pieces@.contains_key(input@) && arg_views(a@).contains(input@),
                    forall|m: int| 0 <= m < matched@.len() ==> self.pieces@.contains_key(#[trigger] matched@[m]@) && arg_views(a@).contains(matched@[m]@),
                decreases matched.len() - j,
            {
                if str_eq(matched[j], input) {
                    found = true;
                }
                j += 1;
            }
            if found {
                let proto = match self.pieces.get(input) {
                    Some(k) => k.duplicate(),
                    None => { return error("There were issues with input"); },
                };
                let p = match context.get("new_position") {
                    Some(s) => match self.get_valid_position(s.as_str()) {
                        Some(p) => p,
                        None => { return RuleExpression::Error(cat("new_position in ", api)); },
                    },
                    None => { return RuleExpression::Error(cat("no new_position in ", api)); },
                };
                if !self.has_piece_at(p) {
                    let sq = cat4("(", int_to_text(p.0 as i64).as_str(), ", ", int_to_text(p.1 as i64).as_str());
                    let m = cat4("No piece at ", sq.as_str(), ") in ", api);
                    return RuleExpression::Error(m);
                }
                let ghost b0 = *self;
                let taken = self.take_cell(p.0, p.1);
                let ghost b1 = *self;
                match taken {
                    Some(old_piece) => {
                        let mut np = proto;
                        np.memory = old_piece.memory;
                        np.owner = old_piece.owner;
                        self.set_cell(p.0, p.1, Some(np));
                        proof {
                            assert forall|x: int, y: int| (x, y) != (p.0 as int, p.1 as int) implies #[trigger] cell_view(self, x, y) == cell_view(&b0, x, y) by {
                                assert(cell(self, x, y) == cell(&b1, x, y));
                            }
                            assert(changed_kind(&b0, self, context@, input@));
                        }
                        return RuleExpression::Void;
                    },
                    None => {
                        return error("There were issues with input");
                    },
                }
            } else {
                let refusal = cat("Can't change to: ", debug_str(input).as_str());
                crate::channel::send_reply(&vec![refusal, prompt.clone()], tx);
            }
        }
        error("There were issues with input")
    }
}

/// What a call does, for each call the rule language knows: what it answers and how it
/// changes the board `b0` into `b1` and the context `c0` into `c1`, given the arguments `a`, the
/// depth of the call, whether the channels to the player `io` are there, whether a mate is being
/// searched for (`mate`), and the nested searches allowed (`nest`).
pub open spec fn call_done(b0: Board, b1: Board, c0: Dict<String>, c1: Dict<String>, api: Seq<char>, a: Seq<Seq<char>>, depth: u32, io: bool, mate: bool, nest: u32, r: RuleExpression) -> bool {
    &&& (pure_call(&b0, call_of(api), api, a, c0@) matches Some(v)
                ==> r@ == v && b1 == b0 && c1 == c0)
    &&& (context_call(&b0, call_of(api), api, a, c0@) matches Some((v, c))
                ==> r@ == v && b1 == b0 && c1@ == c)
    &&& (call_of(api) == Call::Remove || call_of(api) == Call::Destroy ==> c1 == c0
                && match removal_target(&b0, a, c0@, api, io) {
                    Err(e) => r@ == e && b1 == b0,
                    Ok(p) => r@ == RuleValue::Void && cleared(&b0, &b1, p, call_of(api) == Call::Remove),
                })
    &&& (call_of(api) == Call::Kill ==> match removal_target(&b0, a, c0@, api, io) {
                Err(e) => r@ == e && b1 == b0 && c1 == c0,
                Ok(p) => r@ == RuleValue::Void && cell(&b1, p.0 as int, p.1 as int) is None
                    && (silent_at(&b0, p.0 as int, p.1 as int, RuleKind::Deathrattle)
                        ==> cleared(&b0, &b1, p, true) && c1 == c0),
            })
    &&& (call_of(api) == Call::MovePiece ==> c1 == c0 && match move_targets(&b0, a, c0@) {
                Err(m) => r@ == err(m) && b1 == b0,
                Ok((p, q)) => match move_refusal(&b0, p, q) {
                    Some(m) => r@ == err(m) && b1 == b0,
                    None => r@ == RuleValue::Void && moved(&b0, &b1, p, q) && b1.cementaries == b0.cementaries,
                },
            })
    &&& (call_of(api) == Call::IncreaseMemory ==> c1 == c0 && match memory_target(&b0, a, c0@, api) {
                Err(e) => r@ == e && b1 == b0,
                Ok(p) => match cell_view(&b0, p.0 as int, p.1 as int) {
                    None => r@ == RuleValue::Void && b1 == b0,
                    Some(q) => r@ == memory_update(q, a).0 && match memory_update(q, a).1 {
                        None => b1 == b0,
                        Some((k, v)) => memory_written(&b0, &b1, p, k, v),
                    },
                },
            })
    &&& (call_of(api) == Call::IsAttacked ==> c1 == c0 && match place_target(&b0, a, c0@, api) {
                Err(e) => r@ == e && b1 == b0,
                Ok(p) => r is Boolean && (board_api_free(&b0) && depth <= MAX_DEPTH && in_size(&b0, p.0 as int, p.1 as int)
                    ==> b1 == b0 && r@ == RuleValue::Boolean(grid_squares(b0.size.0, b0.size.1,
                        attack_pred(&b0, p, Some(b0.current_player))).len() > 0)),
            })
    &&& (call_of(api) == Call::GetMemory ==> match memory_source(&b0, a, c0@, api) {
                Err(e) => r@ == e && b1 == b0 && c1 == c0,
                Ok(MemorySource::Square(p)) => match cell_view(&b0, p.0 as int, p.1 as int) {
                    None => r@ == err("no piece at given position in get_piece_var func"@) && b1 == b0 && c1 == c0,
                    Some(q) => (!q.memory.contains_key(a[2]) ==> r@ == err("piece "@ + q.name + " does not have "@ + a[2] + " variable in get_piece_var func"@) && b1 == b0 && c1 == c0)
                        && (q.memory.contains_key(a[2]) && api_free(q.memory[a[2]]) && depth < MAX_DEPTH
                            ==> r@ == pure_eval(q.memory[a[2]], c0@) && b1 == b0 && c1 == c0),
                },
                Ok(MemorySource::Stored(v)) => api_free(v) && depth < MAX_DEPTH
                    ==> r@ == pure_eval(v, c0@) && b1 == b0 && c1 == c0,
            })
    &&& (call_of(api) == Call::CreateVarFromMem ==> match mem_var_source(&b0, a, c0@, api) {
                Err(e) => r@ == e && b1 == b0 && c1 == c0,
                Ok(p) => match cell_view(&b0, p.0 as int, p.1 as int) {
                    None => r@ == err("no piece at given position in get_piece_var func"@) && b1 == b0 && c1 == c0,
                    Some(q) => (!q.memory.contains_key(a[2]) ==> r@ == err("piece "@ + q.name + " does not have "@ + a[2] + " variable in get_piece_var func"@) && b1 == b0 && c1 == c0)
                        && (q.memory.contains_key(a[2]) && api_free(q.memory[a[2]]) && depth < MAX_DEPTH
                            ==> b1 == b0 && {
                                let v = pure_eval(q.memory[a[2]], c0@);
                                if v is Error {
                                    r@ == v && c1 == c0
                                } else {
                                    r@ == RuleValue::Void && c1@ == c0@.insert(a[3], value_text(v))
                                }
                            }),
                },
            })
    &&& (call_of(api) == Call::CheckMate ==> b1 == b0 && c1 == c0 && match mate_args(a) {
                Err(e) => r@ == e,
                Ok((pl, id)) => search_answer(r)
                    && (nest == 0 ==> r@ == err("Timeout"@))
                    && (nest > 0 && no_piece_with_id(&b0, id) ==> r == RuleExpression::Boolean(true))
                    && (nest > 0 && !no_piece_with_id(&b0, id) && !escape_needed(&b0, id) ==> r == RuleExpression::Boolean(false)),
            })
    &&& (call_of(api) == Call::ChangeType ==> c1 == c0
                && match change_refusal(&b0, a, api, io, mate) {
                    Some(e) => r@ == e && b1 == b0,
                    None => (r@ == RuleValue::Void && exists|k: Seq<char>| a.contains(k) && changed_kind(&b0, &b1, c0@, k))
                        || (r is Error && b1 == b0 && crate::calls::change_failure(&b0, c0@, api, r@)),
                })
    &&& (call_of(api) == Call::Unknown ==> r@ == err("unknown call: "@ + api) && b1 == b0 && c1 == c0)
}

impl Board {
    /// Performs the call `api` with the arguments `args`, for a rule evaluated at `depth`.
    pub fn call_api_in(
        &mut self,
        api: &str,
        args: Vec<&str>,
        context: &mut Dict<String>,
        depth: u32,
        sender: Option<&Sender<Option<String>>>,
        receiver: Option<&Receiver<String>>,
        is_evaluate_mate: bool,
        nest: u32,
    ) -> (r: RuleExpression)
        ensures
            is_value(r@),
            same_frame(old(self), final(self)),
            call_done(*old(self), *final(self), *old(context), *final(context), api@, arg_views(args@), depth,
                sender is Some && receiver is Some, is_evaluate_mate, nest, r),
        decreases nest, level(depth), 20int, 0int,
    {
        proof {
            reveal_with_fuel(is_value, 2);
        }
        let a = &args;
        match call_named(api) {
            Call::IsEmpty => self.is_empty_call(a, context, api),
            Call::IsType => self.is_type_call(a, context, api),
            Call::IsOpponent => self.side_call(a, context, api, false),
            Call::IsAlly => self.side_call(a, context, api, true),
            Call::IsPlayer => self.is_player_call(a, context, api),
            Call::IsDifferent => is_different_call(a, context, api),
            Call::InBounds => self.in_bounds_call(a, context, api),
            Call::IsPathBlocked => self.is_path_blocked_call(a, context, api),
            Call::GetVerticalCord => cord_call(context, api, "old_position", false),
            Call::GetHorizontalCord => cord_call(context, api, "old_position", true),
            Call::GetTargetVerticalCord => cord_call(context, api, "new_position", false),
            Call::GetTargetHorizontalCord => cord_call(context, api, "new_position", true),
            Call::IncreaseVar => increase_var_call(a, context, api),
            Call::Forward => self.forward_call(a, context, api, false),
            Call::North => self.north_call(a, context, api, false),
            Call::Left => self.forward_call(a, context, api, true),
            Call::West => self.north_call(a, context, api, true),
            Call::History => self.history_call(a, api),
            Call::PieceOnBoard => self.on_board_call(a, api, false, false),
            Call::PieceOnBoardCnt => self.on_board_call(a, api, false, true),
            Call::PlayerPieceOnBoard => self.on_board_call(a, api, true, false),
            Call::PlayerPieceOnBoardCnt => self.on_board_call(a, api, true, true),
            Call::IsSameLine => self.is_same_line_call(a),
            Call::CreateVarFromHistory => self.var_from_history_call(a, context, api),
            Call::Clone => clone_call(a, context, api),
            Call::Kill => self.kill_call(a, context, api, depth, sender, receiver, is_evaluate_mate, nest),
            Call::Remove | Call::Destroy => {
                let io = sender.is_some() && receiver.is_some();
                match self.removal_target_of(a, context, api, io) {
                    Ok(p) => {
                        self.clear_square(p, str_eq(api, "remove"));
                        RuleExpression::Void
                    },
                    Err(e) => e,
                }
            },
            Call::MovePiece => self.move_piece_call(a, context),
            Call::IncreaseMemory => self.increase_memory_call(a, context, api),
            Call::IsAttacked => match self.place_target_of(a, context, api) {
                Ok(p) => RuleExpression::Boolean(self.is_attacked_player_in(p, true, depth, nest)),
                Err(e) => e,
            },
            Call::GetMemory => self.get_memory_call(a, context, api, depth, sender, receiver, is_evaluate_mate, nest),
            Call::CreateVarFromMem => self.var_from_mem_call(a, context, api, depth, sender, receiver, is_evaluate_mate, nest),
            Call::CheckMate => match mate_args_of(a) {
                Ok((pl, id)) => if nest == 0 {
                    error("Timeout")
                } else {
                    self.check_mate_in(pl, id, nest - 1)
                },
                Err(e) => e,
            },
            Call::ChangeType => self.change_type_call(a, context, api, sender, receiver, is_evaluate_mate),
            _ => RuleExpression::Error(cat("unknown call: ", api)),
        }
    }
}

impl Board {
    /// Performs the call `api` with the arguments `args`, for a rule evaluated at `depth`; see
    /// `call_done` for what each call does. `sender` and `receiver` reach the player, for the
    /// calls that ask something or take pieces; `is_evaluate_mate` marks a call made while
    /// searching for a mate. Unknown calls answer `unknown call: ` and the name.
    pub fn call_api(
        &mut self,
        api: &str,
        args: Vec<&str>,
        context: &mut Dict<String>,
        depth: u32,
        sender: Option<&Sender<Option<String>>>,
        receiver: Option<&Receiver<String>>,
        is_evaluate_mate: bool,
    ) -> (r: RuleExpression)
        ensures
            is_value(r@),
            same_frame(old(self), final(self)),
            call_done(*old(self), *final(self), *old(context), *final(context), api@, arg_views(args@), depth,
                sender is Some && receiver is Some, is_evaluate_mate, MATE_NESTING, r),
    {
        self.call_api_in(api, args, context, depth, sender, receiver, is_evaluate_mate, MATE_NESTING)
    }
}

/// `forward` and `left` are measured from the side of the piece on `old_position`: for a White
/// piece they are the old square's row (`forward`) or column (`left`) minus the target's, for a
/// Black piece the target's minus the old square's, so the same two squares give opposite
/// answers for the two sides. Neither call changes the board or the variables.
pub proof fn law_forward_left_by_side(b0: Board, b1: Board, c0: Dict<String>, c1: Dict<String>, api: Seq<char>, a: Seq<Seq<char>>,
    depth: u32, io: bool, mate: bool, nest: u32, r: RuleExpression, from: (u32, u32), target: (i32, i32))
    requires
        call_done(b0, b1, c0, c1, api, a, depth, io, mate, nest, r),
        call_of(api) == Call::Forward || call_of(api) == Call::Left,
        place_arity(a),
        c0@.contains_key("old_position"@),
        crate::board::spec_valid_position(&b0, c0@["old_position"@]) == Some(from),
        crate::places::locate_pair(&b0, a, c0@) == Some(target),
        cell_view(&b0, from.0 as int, from.1 as int) is Some,
    ensures
        b1 == b0 && c1 == c0,
        call_of(api) == Call::Left && cell_view(&b0, from.0 as int, from.1 as int)->Some_0.owner == Player::White
            && i32::MIN <= from.1 - target.1 <= i32::MAX ==> r@ == RuleValue::Integer((from.1 - target.1) as i32),
        call_of(api) == Call::Left && cell_view(&b0, from.0 as int, from.1 as int)->Some_0.owner == Player::Black
            && i32::MIN <= target.1 - from.1 <= i32::MAX ==> r@ == RuleValue::Integer((target.1 - from.1) as i32),
        call_of(api) == Call::Forward && cell_view(&b0, from.0 as int, from.1 as int)->Some_0.owner == Player::White
            && i32::MIN <= from.0 - target.0 <= i32::MAX ==> r@ == RuleValue::Integer((from.0 - target.0) as i32),
        call_of(api) == Call::Forward && cell_view(&b0, from.0 as int, from.1 as int)->Some_0.owner == Player::Black
            && i32::MIN <= target.0 - from.0 <= i32::MAX ==> r@ == RuleValue::Integer((target.0 - from.0) as i32),
{
}

/// `north` and `west` are measured on the board itself, whoever moves: the row (`north`) or
/// column (`west`) of the pair `old_position` names minus the target's. Neither call changes
/// the board or the variables.
pub proof fn law_north_west_absolute(b0: Board, b1: Board, c0: Dict<String>, c1: Dict<String>, api: Seq<char>, a: Seq<Seq<char>>,
    depth: u32, io: bool, mate: bool, nest: u32, r: RuleExpression, from: (i32, i32), target: (i32, i32))
    requires
        call_done(b0, b1, c0, c1, api, a, depth, io, mate, nest, r),
        call_of(api) == Call::North || call_of(api) == Call::West,
        place_arity(a),
        c0@.contains_key("old_position"@),
        crate::text::spec_parse_pair(c0@["old_position"@]) == Some(from),
        crate::places::locate_pair(&b0, a, c0@) == Some(target),
    ensures
        b1 == b0 && c1 == c0,
        call_of(api) == Call::North && i32::MIN <= from.0 - target.0 <= i32::MAX ==> r@ == RuleValue::Integer((from.0 - target.0) as i32),
        call_of(api) == Call::West && i32::MIN <= from.1 - target.1 <= i32::MAX ==> r@ == RuleValue::Integer((from.1 - target.1) as i32),
{
}

} // verus!
