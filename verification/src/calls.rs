//! What the calls of the rule language answer, and how they change the context.
use vstd::prelude::*;
use crate::board::{Board, cell, cell_view, same_frame, line_point, line_steps, occupied, path_blocked, spec_valid_position};
use crate::piece::{Piece, PieceView};
use crate::play::{cementaries_after, cementary_views, find_id, in_grid};
use crate::places::{history_entry, is_dst_word, is_hist_word, is_pos_word, is_src_word, is_var_word, locate, locate_pair, place_arity};
use crate::player::{Player, spec_player_from_text};
use crate::rule::RuleValue;
use crate::text::{str_eq, int_text, pair_text, spec_parse_i32, spec_parse_position, spec_parse_pair, spec_parse_u32, spec_two_parts};

verus! {

/// An error with the message `m`.
pub open spec fn err(m: Seq<char>) -> RuleValue {
    RuleValue::Error(m)
}

/// The error for a call given the wrong number of arguments.
pub open spec fn arity_error(api: Seq<char>, n: nat) -> RuleValue {
    err("wrong number of arguments in "@ + api + " args:"@ + int_text(n as int))
}

/// The error for a variable that the context does not hold.
pub open spec fn missing(name: Seq<char>, api: Seq<char>) -> RuleValue {
    err("no "@ + name + " in "@ + api)
}

/// How `{:?}` writes a square: `(x, y)`.
pub open spec fn square_text(p: (u32, u32)) -> Seq<char> {
    "("@ + int_text(p.0 as int) + ", "@ + int_text(p.1 as int) + ")"@
}

/// An integer result, or an overflow error when it does not fit.
pub open spec fn int_result(v: int) -> RuleValue {
    if i32::MIN <= v <= i32::MAX { RuleValue::Integer(v as i32) } else { err("integer overflow"@) }
}

/// `pos` or `position`.
pub open spec fn is_pos_name(s: Seq<char>) -> bool {
    s == "pos"@ || s == "position"@
}

/// `var` or `variable`.
pub open spec fn is_var_name(s: Seq<char>) -> bool {
    s == "var"@ || s == "variable"@
}

/// `cw` or `cementary_white`.
pub open spec fn is_white_cementary(s: Seq<char>) -> bool {
    s == "cw"@ || s == "cementary_white"@
}

/// `cb` or `cementary_black`.
pub open spec fn is_black_cementary(s: Seq<char>) -> bool {
    s == "cb"@ || s == "cementary_black"@
}

/// `is_empty`: whether the square the arguments name is empty.
pub open spec fn call_is_empty(b: &Board, a: Seq<Seq<char>>, ctx: Map<Seq<char>, Seq<char>>, api: Seq<char>) -> RuleValue {
    if !place_arity(a) {
        arity_error(api, a.len())
    } else {
        match locate(b, a, ctx) {
            Some(p) => RuleValue::Boolean(!occupied(b, p.0 as int, p.1 as int)),
            None => err("could not get a valid position"@),
        }
    }
}

/// `is_opponent` (with `ally` false) and `is_ally`: whether the piece on the square belongs to
/// the other player, or to the player to move; an empty square answers `false`.
pub open spec fn call_side(b: &Board, a: Seq<Seq<char>>, ctx: Map<Seq<char>, Seq<char>>, api: Seq<char>, ally: bool) -> RuleValue {
    if !place_arity(a) {
        arity_error(api, a.len())
    } else {
        match locate(b, a, ctx) {
            Some(p) => match cell_view(b, p.0 as int, p.1 as int) {
                Some(q) => RuleValue::Boolean((q.owner == b.current_player) == ally),
                None => RuleValue::Boolean(false),
            },
            None => err("could not get a valid position"@),
        }
    }
}

/// Whether the piece on `p` is of kind `id`.
pub open spec fn kind_at(b: &Board, p: (u32, u32), id: Seq<char>) -> RuleValue {
    match cell_view(b, p.0 as int, p.1 as int) {
        Some(q) => RuleValue::Boolean(q.id == id),
        None => err("no piece at given position"@),
    }
}

/// Whether the piece at the index that variable `a[1]` holds in cementary `c` is of kind `a[2]`.
pub open spec fn kind_in_cementary(c: Seq<Piece>, a: Seq<Seq<char>>, ctx: Map<Seq<char>, Seq<char>>, api: Seq<char>) -> RuleValue {
    if !ctx.contains_key(a[1]) {
        missing(a[1], api)
    } else {
        match spec_parse_u32(ctx[a[1]]) {
            Some(i) => if i >= c.len() { err("index, out of cementary"@) } else { RuleValue::Boolean(c[i as int].id@ == a[2]) },
            None => err("Not a natural number"@),
        }
    }
}

/// `is_type`: whether the piece on a square, or in a cementary, is of kind `a[2]`.
pub open spec fn call_is_type(b: &Board, a: Seq<Seq<char>>, ctx: Map<Seq<char>, Seq<char>>, api: Seq<char>) -> RuleValue {
    if a.len() != 3 {
        err("wrong number of arguments in is_type"@)
    } else if is_pos_name(a[0]) {
        match spec_valid_position(b, a[1]) {
            Some(p) => kind_at(b, p, a[2]),
            None => err("not a valid position"@),
        }
    } else if is_var_name(a[0]) {
        if !ctx.contains_key(a[1]) {
            missing(a[1], api)
        } else {
            match spec_valid_position(b, ctx[a[1]]) {
                Some(p) => kind_at(b, p, a[2]),
                None => err(a[1] + " is not a position "@ + api),
            }
        }
    } else if is_white_cementary(a[0]) {
        kind_in_cementary(b.cementaries.0@, a, ctx, api)
    } else if is_black_cementary(a[0]) {
        kind_in_cementary(b.cementaries.1@, a, ctx, api)
    } else {
        err("wrong first argument"@)
    }
}

/// `is_player`: whether the piece on the square (written, or held by a variable) belongs to the
/// player `a[1]` names; an empty square, or another name, answers `false`.
pub open spec fn call_is_player(b: &Board, a: Seq<Seq<char>>, ctx: Map<Seq<char>, Seq<char>>, api: Seq<char>) -> RuleValue {
    if a.len() != 2 {
        err("wrong number of args"@)
    } else {
        let pos = match spec_valid_position(b, a[0]) {
            Some(p) => Ok(p),
            None => if !ctx.contains_key(a[0]) {
                Err(missing(a[0], api))
            } else {
                match spec_valid_position(b, ctx[a[0]]) {
                    Some(p) => Ok(p),
                    None => Err(err("Could not get a valid position in "@ + api)),
                }
            },
        };
        match pos {
            Ok(p) => match cell_view(b, p.0 as int, p.1 as int) {
                Some(q) => match spec_player_from_text(a[1]) {
                    Some(pl) => RuleValue::Boolean(q.owner == pl),
                    None => RuleValue::Boolean(false),
                },
                None => RuleValue::Boolean(false),
            },
            Err(e) => e,
        }
    }
}

/// `is_different`: whether two variables hold different pairs (or one a pair and the other not).
pub open spec fn call_is_different(a: Seq<Seq<char>>, ctx: Map<Seq<char>, Seq<char>>, api: Seq<char>) -> RuleValue {
    if a.len() < 1 {
        err("wrong number of arguments"@)
    } else if !ctx.contains_key(a[0]) {
        missing(a[0], api)
    } else if a.len() < 2 {
        err("wrong number of arguments"@)
    } else if !ctx.contains_key(a[1]) {
        missing(a[1], api)
    } else {
        RuleValue::Boolean(spec_parse_pair(ctx[a[0]]) != spec_parse_pair(ctx[a[1]]))
    }
}

/// The text of the square that the arguments of `in_bounds` name, or the error.
pub open spec fn bounds_text(b: &Board, a: Seq<Seq<char>>, ctx: Map<Seq<char>, Seq<char>>) -> Result<Seq<char>, Seq<char>> {
    if is_pos_word(a[0]) {
        Ok(a[1])
    } else if is_var_word(a[0]) {
        if ctx.contains_key(a[1]) { Ok(ctx[a[1]]) } else { Err("given variable not in context"@) }
    } else if is_hist_word(a[0]) {
        match spec_parse_u32(a[2]) {
            Some(i) => match history_entry(b, i) {
                Some(e) => if is_src_word(a[1]) {
                    Ok(pair_text(e.1.0.0 as int, e.1.0.1 as int))
                } else if is_dst_word(a[1]) {
                    Ok(pair_text(e.1.1.0 as int, e.1.1.1 as int))
                } else {
                    Err("wrong second argument"@)
                },
                None => Err("could not get history entry"@),
            },
            None => Err("wrong third argument"@),
        }
    } else {
        Err("wrong first argument"@)
    }
}

/// `in_bounds`: whether the square the arguments name lies on the board.
pub open spec fn call_in_bounds(b: &Board, a: Seq<Seq<char>>, ctx: Map<Seq<char>, Seq<char>>, api: Seq<char>) -> RuleValue {
    if !place_arity(a) {
        arity_error(api, a.len())
    } else {
        match bounds_text(b, a, ctx) {
            Ok(s) => RuleValue::Boolean(spec_parse_position(s) matches Some(p) && p.0 < b.size.0 && p.1 < b.size.1),
            Err(m) => err(m),
        }
    }
}

/// `is_path_blocked`: whether a piece stands between the squares two variables hold.
pub open spec fn call_is_path_blocked(b: &Board, a: Seq<Seq<char>>, ctx: Map<Seq<char>, Seq<char>>, api: Seq<char>) -> RuleValue {
    if a.len() != 2 {
        err("wrong number of argument"@)
    } else if !ctx.contains_key(a[0]) {
        missing(a[0], api)
    } else if !ctx.contains_key(a[1]) {
        missing(a[1], api)
    } else {
        match (spec_valid_position(b, ctx[a[0]]), spec_valid_position(b, ctx[a[1]])) {
            (Some(p), Some(q)) => RuleValue::Boolean(path_blocked(b, p, q)),
            (None, _) => err("old_position in "@ + api),
            (Some(_), None) => err("new_position in "@ + api),
        }
    }
}

/// The coordinates `get_vertical_cord` and its kin read: the first (or, with `second`, the
/// second) number of the pair the variable `key` holds.
pub open spec fn call_cord(ctx: Map<Seq<char>, Seq<char>>, api: Seq<char>, key: Seq<char>, second: bool) -> RuleValue {
    if !ctx.contains_key(key) {
        err("no "@ + key + " in "@ + api)
    } else {
        match spec_parse_pair(ctx[key]) {
            Some(p) => RuleValue::Integer(if second { p.1 } else { p.0 }),
            None => err(key + " in "@ + api),
        }
    }
}

/// `north` (and, with `second`, `west`): how far the pair the arguments name lies from
/// `old_position`, up (or left), whoever moves.
pub open spec fn call_north(b: &Board, a: Seq<Seq<char>>, ctx: Map<Seq<char>, Seq<char>>, api: Seq<char>, second: bool) -> RuleValue {
    if !place_arity(a) {
        arity_error(api, a.len())
    } else if !ctx.contains_key("old_position"@) {
        err("no old_position in "@ + api)
    } else {
        match spec_parse_pair(ctx["old_position"@]) {
            Some(p) => match locate_pair(b, a, ctx) {
                Some(q) => int_result(if second { p.1 - q.1 } else { p.0 - q.0 }),
                None => err("could not get position in "@ + api),
            },
            None => err("old_position in "@ + api),
        }
    }
}

/// `forward` (and, with `second`, `left`): how far the pair the arguments name lies ahead of
/// (or to the left of) the piece on `old_position`, as its owner sees the board.
pub open spec fn call_forward(b: &Board, a: Seq<Seq<char>>, ctx: Map<Seq<char>, Seq<char>>, api: Seq<char>, second: bool) -> RuleValue {
    if !place_arity(a) {
        arity_error(api, a.len())
    } else if !ctx.contains_key("old_position"@) {
        err("no old_position in "@ + api)
    } else {
        match spec_valid_position(b, ctx["old_position"@]) {
            Some(p) => match locate_pair(b, a, ctx) {
                Some(q) => match cell_view(b, p.0 as int, p.1 as int) {
                    Some(piece) => {
                        let d = if second { p.1 - q.1 } else { p.0 - q.0 };
                        int_result(if piece.owner == Player::White { d } else { -d })
                    },
                    None => err("No piece at "@ + square_text(p) + " position in "@ + api),
                },
                None => err("could not get position in "@ + api),
            },
            None => err("old_position in "@ + api),
        }
    }
}

/// `history src|dst index [v|h]`: a square of a recorded move, or one of its coordinates.
pub open spec fn call_history(b: &Board, a: Seq<Seq<char>>, api: Seq<char>) -> RuleValue {
    if a.len() < 2 || a.len() > 3 {
        err("wrong amount of argument in "@ + api)
    } else {
        match spec_parse_u32(a[1]) {
            Some(i) => match history_entry(b, i) {
                Some(e) => {
                    let sq = if is_src_word(a[0]) { Some(e.1.0) } else if is_dst_word(a[0]) { Some(e.1.1) } else { None };
                    match sq {
                        Some(p) => if a.len() == 2 {
                            RuleValue::Pair(Box::new(RuleValue::Integer(p.0 as i32)), Box::new(RuleValue::Integer(p.1 as i32)))
                        } else if a[2] == "v"@ {
                            RuleValue::Integer(p.0 as i32)
                        } else if a[2] == "h"@ {
                            RuleValue::Integer(p.1 as i32)
                        } else {
                            err("wrong third argument in "@ + api)
                        },
                        None => err("wrong first argument in "@ + api),
                    }
                },
                None => err("error with taking entry from history in "@ + api),
            },
            None => err("wrong index in "@ + api),
        }
    }
}

/// Whether a square holds a piece of kind `id` (owned by `owner`, when given).
pub open spec fn is_kind(c: Option<Piece>, id: Seq<char>, owner: Option<Player>) -> bool {
    c matches Some(p) && p.id@ == id && (owner matches Some(o) ==> p.owner == o)
}

/// The number of squares of a row that hold a piece of kind `id` (owned by `owner`).
pub open spec fn row_count(r: Seq<Option<Piece>>, id: Seq<char>, owner: Option<Player>) -> nat
    decreases r.len(),
{
    if r.len() == 0 {
        0
    } else {
        row_count(r.drop_last(), id, owner) + if is_kind(r.last(), id, owner) { 1nat } else { 0nat }
    }
}

/// The number of squares of a grid that hold a piece of kind `id` (owned by `owner`).
pub open spec fn grid_count(g: Seq<Vec<Option<Piece>>>, id: Seq<char>, owner: Option<Player>) -> nat
    decreases g.len(),
{
    if g.len() == 0 {
        0
    } else {
        grid_count(g.drop_last(), id, owner) + row_count(g.last()@, id, owner)
    }
}

/// A count as the calls answer it: the number of pieces, as `i32`.
pub open spec fn count_value(n: nat) -> i32 {
    (if n > u64::MAX { u64::MAX as nat } else { n }) as i32
}

/// The owner the arguments of the `player_piece_on_board` calls name: `a[1]`, or the player to
/// move; an error when `a[1]` names nobody.
pub open spec fn owner_arg(b: &Board, a: Seq<Seq<char>>) -> Result<Player, RuleValue> {
    if a.len() > 1 {
        match spec_player_from_text(a[1]) {
            Some(p) => Ok(p),
            None => Err(err("Please add a valid player"@)),
        }
    } else {
        Ok(b.current_player)
    }
}

/// `piece_on_board`, `piece_on_board_cnt` (with `count`) and their `player_` forms (with
/// `by_owner`): whether, or how many times, a piece of kind `a[0]` (of the owner `a[1]` names)
/// stands on the board.
pub open spec fn call_on_board(b: &Board, a: Seq<Seq<char>>, api: Seq<char>, by_owner: bool, count: bool) -> RuleValue {
    if a.len() < 1 {
        err("wrong number of arguments"@)
    } else if !b.pieces@.contains_key(a[0]) {
        err("Piece "@ + a[0] + " does not exist in this game, in "@ + api)
    } else {
        let owner = if by_owner { owner_arg(b, a) } else { Ok(b.current_player) };
        match owner {
            Ok(o) => {
                let ow = if by_owner { Some(o) } else { None };
                let n = grid_count(b.board@, a[0], ow);
                if count { RuleValue::Integer(count_value(n)) } else { RuleValue::Boolean(n > 0) }
            },
            Err(e) => e,
        }
    }
}

/// Whether the piece on the `k`-th square from `p` towards `q` agrees with the piece on `q`:
/// same kind with `piece`, same owner with `owner`.
pub open spec fn agrees(b: &Board, p: (u32, u32), q: (u32, u32), k: int, mode: Seq<char>) -> bool {
    let c = cell_view(b, line_point(p, q, k).0, line_point(p, q, k).1);
    let t = cell_view(b, q.0 as int, q.1 as int);
    c is Some && t is Some && (if mode == "piece"@ { c.unwrap().id == t.unwrap().id } else { c.unwrap().owner == t.unwrap().owner })
}

/// `is_same_line`: whether every square from `a[0]` up to `a[1]` (on one line) holds a piece
/// that agrees with the piece on `a[1]`.
pub open spec fn call_is_same_line(b: &Board, a: Seq<Seq<char>>) -> RuleValue {
    if a.len() != 3 {
        err("wrong number of arguments"@)
    } else {
        match (spec_valid_position(b, a[0]), spec_valid_position(b, a[1])) {
            (Some(p), Some(q)) => {
                let dx = q.0 - p.0;
                let dy = q.1 - p.1;
                if dx != 0 && dy != 0 && (if dx < 0 { -dx } else { dx }) != (if dy < 0 { -dy } else { dy }) {
                    err("Positions not on straight line or a square diagonal"@)
                } else if p == q {
                    RuleValue::Boolean(true)
                } else if cell(b, q.0 as int, q.1 as int) is None {
                    RuleValue::Boolean(false)
                } else if a[2] != "piece"@ && a[2] != "owner"@ {
                    if occupied(b, p.0 as int, p.1 as int) { err("unknown argument"@) } else { RuleValue::Boolean(false) }
                } else {
                    RuleValue::Boolean(forall|k: int| 0 <= k < line_steps(p, q) ==> #[trigger] agrees(b, p, q, k, a[2]))
                }
            },
            _ => err("position 1 is not valid"@),
        }
    }
}

/// The calls of the rule language, by name.
#[derive(Clone, Copy, PartialEq, Eq, Structural)]
pub enum Call {
    IsEmpty,
    IsAttacked,
    IsType,
    IsOpponent,
    IsAlly,
    IsPlayer,
    IsDifferent,
    InBounds,
    IsPathBlocked,
    GetVerticalCord,
    GetHorizontalCord,
    GetTargetVerticalCord,
    GetTargetHorizontalCord,
    GetMemory,
    IncreaseMemory,
    IncreaseVar,
    ChangeType,
    Forward,
    North,
    Left,
    West,
    History,
    Kill,
    Remove,
    Destroy,
    PieceOnBoard,
    PieceOnBoardCnt,
    PlayerPieceOnBoard,
    PlayerPieceOnBoardCnt,
    MovePiece,
    IsSameLine,
    CheckMate,
    CreateVarFromMem,
    CreateVarFromHistory,
    Clone,
    Unknown,
}

/// The call a name asks for.
pub open spec fn call_of(api: Seq<char>) -> Call {
    if api == "is_empty"@ {
        Call::IsEmpty
    } else if api == "is_attacked"@ {
        Call::IsAttacked
    } else if api == "is_type"@ {
        Call::IsType
    } else if api == "is_opponent"@ {
        Call::IsOpponent
    } else if api == "is_ally"@ {
        Call::IsAlly
    } else if api == "is_player"@ {
        Call::IsPlayer
    } else if api == "is_different"@ {
        Call::IsDifferent
    } else if api == "in_bounds"@ {
        Call::InBounds
    } else if api == "is_path_blocked"@ {
        Call::IsPathBlocked
    } else if api == "get_vertical_cord"@ {
        Call::GetVerticalCord
    } else if api == "get_horizontal_cord"@ {
        Call::GetHorizontalCord
    } else if api == "get_target_vertical_cord"@ {
        Call::GetTargetVerticalCord
    } else if api == "get_target_horizontal_cord"@ {
        Call::GetTargetHorizontalCord
    } else if api == "get_memory"@ {
        Call::GetMemory
    } else if api == "increase_memory"@ {
        Call::IncreaseMemory
    } else if api == "increase_var"@ {
        Call::IncreaseVar
    } else if api == "change_type"@ {
        Call::ChangeType
    } else if api == "forward"@ {
        Call::Forward
    } else if api == "north"@ {
        Call::North
    } else if api == "left"@ {
        Call::Left
    } else if api == "west"@ {
        Call::West
    } else if api == "history"@ {
        Call::History
    } else if api == "kill"@ {
        Call::Kill
    } else if api == "remove"@ {
        Call::Remove
    } else if api == "destroy"@ {
        Call::Destroy
    } else if api == "piece_on_board"@ {
        Call::PieceOnBoard
    } else if api == "piece_on_board_cnt"@ {
        Call::PieceOnBoardCnt
    } else if api == "player_piece_on_board"@ {
        Call::PlayerPieceOnBoard
    } else if api == "player_piece_on_board_cnt"@ {
        Call::PlayerPieceOnBoardCnt
    } else if api == "move_piece"@ {
        Call::MovePiece
    } else if api == "is_same_line"@ {
        Call::IsSameLine
    } else if api == "check_mate"@ {
        Call::CheckMate
    } else if api == "create_var_from_mem"@ {
        Call::CreateVarFromMem
    } else if api == "create_var_from_history"@ {
        Call::CreateVarFromHistory
    } else if api == "clone"@ {
        Call::Clone
    } else {
        Call::Unknown
    }
}

/// The call a name asks for.
pub fn call_named(api: &str) -> (r: Call)
    ensures
        r == call_of(api@),
{
    if str_eq(api, "is_empty") {
        Call::IsEmpty
    } else if str_eq(api, "is_attacked") {
        Call::IsAttacked
    } else if str_eq(api, "is_type") {
        Call::IsType
    } else if str_eq(api, "is_opponent") {
        Call::IsOpponent
    } else if str_eq(api, "is_ally") {
        Call::IsAlly
    } else if str_eq(api, "is_player") {
        Call::IsPlayer
    } else if str_eq(api, "is_different") {
        Call::IsDifferent
    } else if str_eq(api, "in_bounds") {
        Call::InBounds
    } else if str_eq(api, "is_path_blocked") {
        Call::IsPathBlocked
    } else if str_eq(api, "get_vertical_cord") {
        Call::GetVerticalCord
    } else if str_eq(api, "get_horizontal_cord") {
        Call::GetHorizontalCord
    } else if str_eq(api, "get_target_vertical_cord") {
        Call::GetTargetVerticalCord
    } else if str_eq(api, "get_target_horizontal_cord") {
        Call::GetTargetHorizontalCord
    } else if str_eq(api, "get_memory") {
        Call::GetMemory
    } else if str_eq(api, "increase_memory") {
        Call::IncreaseMemory
    } else if str_eq(api, "increase_var") {
        Call::IncreaseVar
    } else if str_eq(api, "change_type") {
        Call::ChangeType
    } else if str_eq(api, "forward") {
        Call::Forward
    } else if str_eq(api, "north") {
        Call::North
    } else if str_eq(api, "left") {
        Call::Left
    } else if str_eq(api, "west") {
        Call::West
    } else if str_eq(api, "history") {
        Call::History
    } else if str_eq(api, "kill") {
        Call::Kill
    } else if str_eq(api, "remove") {
        Call::Remove
    } else if str_eq(api, "destroy") {
        Call::Destroy
    } else if str_eq(api, "piece_on_board") {
        Call::PieceOnBoard
    } else if str_eq(api, "piece_on_board_cnt") {
        Call::PieceOnBoardCnt
    } else if str_eq(api, "player_piece_on_board") {
        Call::PlayerPieceOnBoard
    } else if str_eq(api, "player_piece_on_board_cnt") {
        Call::PlayerPieceOnBoardCnt
    } else if str_eq(api, "move_piece") {
        Call::MovePiece
    } else if str_eq(api, "is_same_line") {
        Call::IsSameLine
    } else if str_eq(api, "check_mate") {
        Call::CheckMate
    } else if str_eq(api, "create_var_from_mem") {
        Call::CreateVarFromMem
    } else if str_eq(api, "create_var_from_history") {
        Call::CreateVarFromHistory
    } else if str_eq(api, "clone") {
        Call::Clone
    } else {
        Call::Unknown
    }
}

/// The calls that only read the board and the context, and what they answer.
pub open spec fn pure_call(b: &Board, c: Call, api: Seq<char>, a: Seq<Seq<char>>, ctx: Map<Seq<char>, Seq<char>>) -> Option<RuleValue> {
    match c {
        Call::IsEmpty => Some(call_is_empty(b, a, ctx, api)),
        Call::IsType => Some(call_is_type(b, a, ctx, api)),
        Call::IsOpponent => Some(call_side(b, a, ctx, api, false)),
        Call::IsAlly => Some(call_side(b, a, ctx, api, true)),
        Call::IsPlayer => Some(call_is_player(b, a, ctx, api)),
        Call::IsDifferent => Some(call_is_different(a, ctx, api)),
        Call::InBounds => Some(call_in_bounds(b, a, ctx, api)),
        Call::IsPathBlocked => Some(call_is_path_blocked(b, a, ctx, api)),
        Call::GetVerticalCord => Some(call_cord(ctx, api, "old_position"@, false)),
        Call::GetHorizontalCord => Some(call_cord(ctx, api, "old_position"@, true)),
        Call::GetTargetVerticalCord => Some(call_cord(ctx, api, "new_position"@, false)),
        Call::GetTargetHorizontalCord => Some(call_cord(ctx, api, "new_position"@, true)),
        Call::Forward => Some(call_forward(b, a, ctx, api, false)),
        Call::North => Some(call_north(b, a, ctx, api, false)),
        Call::Left => Some(call_forward(b, a, ctx, api, true)),
        Call::West => Some(call_north(b, a, ctx, api, true)),
        Call::History => Some(call_history(b, a, api)),
        Call::PieceOnBoard => Some(call_on_board(b, a, api, false, false)),
        Call::PieceOnBoardCnt => Some(call_on_board(b, a, api, false, true)),
        Call::PlayerPieceOnBoard => Some(call_on_board(b, a, api, true, false)),
        Call::PlayerPieceOnBoardCnt => Some(call_on_board(b, a, api, true, true)),
        Call::IsSameLine => Some(call_is_same_line(b, a)),
        _ => None,
    }
}

/// `clone name1 name2`: copies variable `name1` into `name2`.
pub open spec fn call_clone(a: Seq<Seq<char>>, ctx: Map<Seq<char>, Seq<char>>, api: Seq<char>) -> (RuleValue, Map<Seq<char>, Seq<char>>) {
    if a.len() != 2 {
        (err("wrong number of argumenst"@), ctx)
    } else if !ctx.contains_key(a[0]) {
        (missing(a[0], api), ctx)
    } else {
        (RuleValue::Void, ctx.insert(a[1], ctx[a[0]]))
    }
}

/// `create_var_from_history src|dst v|h|pair index name`: stores a square of a recorded move,
/// or one of its coordinates, in variable `name`.
pub open spec fn call_var_from_history(b: &Board, a: Seq<Seq<char>>, ctx: Map<Seq<char>, Seq<char>>, api: Seq<char>) -> (RuleValue, Map<Seq<char>, Seq<char>>) {
    if a.len() != 4 {
        (err("wrong number of arguments"@), ctx)
    } else {
        match spec_parse_u32(a[2]) {
            Some(i) => match history_entry(b, i) {
                Some(e) => {
                    let sq = if is_src_word(a[0]) { Some(e.1.0) } else if is_dst_word(a[0]) { Some(e.1.1) } else { None };
                    match sq {
                        Some(p) => if a[1] == "vertical"@ || a[1] == "v"@ || a[1] == "vert"@ {
                            (RuleValue::Void, ctx.insert(a[3], int_text(p.0 as int)))
                        } else if a[1] == "horizontal"@ || a[1] == "h"@ || a[1] == "horz"@ {
                            (RuleValue::Void, ctx.insert(a[3], int_text(p.1 as int)))
                        } else if a[1] == "pair"@ || a[1] == "p"@ {
                            (RuleValue::Void, ctx.insert(a[3], pair_text(p.0 as int, p.1 as int)))
                        } else {
                            (err("Wrong second argument"@), ctx)
                        },
                        None => (err("Wrong first argument"@), ctx),
                    }
                },
                None => (err("error with taking entry from history in "@ + api), ctx),
            },
            None => (err("wrong index in "@ + api), ctx),
        }
    }
}

/// Two integers read from `x,y`.
pub open spec fn int_pair(s: Seq<char>) -> Option<(i32, i32)> {
    match spec_two_parts(s) {
        Some((x, y)) => match (spec_parse_i32(x), spec_parse_i32(y)) {
            (Some(i), Some(j)) => Some((i, j)),
            _ => None,
        },
        None => None,
    }
}

/// `increase_var pair|int name value`: adds `value` to the pair or integer variable `name`
/// holds.
pub open spec fn call_increase_var(a: Seq<Seq<char>>, ctx: Map<Seq<char>, Seq<char>>, api: Seq<char>) -> (RuleValue, Map<Seq<char>, Seq<char>>) {
    if a.len() != 3 {
        (err("wrong number of arguments"@), ctx)
    } else if !ctx.contains_key(a[1]) {
        (missing(a[1], api), ctx)
    } else if a[0] == "pair"@ {
        if spec_two_parts(a[2]) is None {
            (err("third argument not a pair"@), ctx)
        } else if int_pair(a[2]) is None {
            (err("third argument not a pair of integers"@), ctx)
        } else if spec_two_parts(ctx[a[1]]) is None {
            (err("given variable not a pair"@), ctx)
        } else if int_pair(ctx[a[1]]) is None {
            (err("given varable not a pair of integers"@), ctx)
        } else {
            let p = int_pair(a[2]).unwrap();
            let q = int_pair(ctx[a[1]]).unwrap();
            let x = p.0 + q.0;
            let y = p.1 + q.1;
            if i32::MIN <= x <= i32::MAX && i32::MIN <= y <= i32::MAX {
                (RuleValue::Void, ctx.insert(a[1], pair_text(x, y)))
            } else {
                (err("integer overflow"@), ctx)
            }
        }
    } else if a[0] == "int"@ {
        match (spec_parse_i32(a[2]), spec_parse_i32(ctx[a[1]])) {
            (Some(n), Some(m)) => if i32::MIN <= n + m <= i32::MAX {
                (RuleValue::Void, ctx.insert(a[1], int_text(n + m)))
            } else {
                (err("integer overflow"@), ctx)
            },
            (None, _) => (err("third argument not an integer"@), ctx),
            (Some(_), None) => (err("given variable not an integer"@), ctx),
        }
    } else {
        (err("wrong first argument"@), ctx)
    }
}

/// `clone a b` answers nothing and makes `b` read as `a` does.
pub proof fn law_clone_then_read(ctx: Map<Seq<char>, Seq<char>>, a: Seq<char>, b: Seq<char>, api: Seq<char>)
    requires
        ctx.contains_key(a),
    ensures
        call_clone(seq![a, b], ctx, api).0 == RuleValue::Void,
        crate::eval::var_value(call_clone(seq![a, b], ctx, api).1, b) == crate::eval::var_value(ctx, a),
{
}

/// `increase_var int name n`, on a variable that holds an integer `m`, answers nothing and makes
/// the variable read as `m + n`, when that fits an `i32`.
pub proof fn law_increase_int_then_read(ctx: Map<Seq<char>, Seq<char>>, name: Seq<char>, amount: Seq<char>, api: Seq<char>)
    requires
        ctx.contains_key(name),
        spec_parse_i32(amount) is Some,
        spec_parse_i32(ctx[name]) is Some,
        i32::MIN <= spec_parse_i32(amount)->0 + spec_parse_i32(ctx[name])->0 <= i32::MAX,
    ensures
        call_increase_var(seq!["int"@, name, amount], ctx, api).0 == RuleValue::Void,
        crate::eval::var_value(call_increase_var(seq!["int"@, name, amount], ctx, api).1, name)
            == RuleValue::Integer((spec_parse_i32(amount)->0 + spec_parse_i32(ctx[name])->0) as i32),
{
    reveal_strlit("int");
    reveal_strlit("pair");
    assert("int"@.len() != "pair"@.len());
    let total = (spec_parse_i32(amount)->0 + spec_parse_i32(ctx[name])->0) as i32;
    crate::text::lemma_int_text(total);
    crate::eval::law_stored_value_reads_back(ctx, name, RuleValue::Integer(total));
}

/// `increase_var pair name x,y`, on a variable that holds a pair of integers, answers nothing and
/// makes the variable read as the pair of sums, when both fit an `i32`.
pub proof fn law_increase_pair_then_read(ctx: Map<Seq<char>, Seq<char>>, name: Seq<char>, amount: Seq<char>, api: Seq<char>)
    requires
        ctx.contains_key(name),
        int_pair(amount) is Some,
        int_pair(ctx[name]) is Some,
        i32::MIN <= int_pair(amount).unwrap().0 + int_pair(ctx[name]).unwrap().0 <= i32::MAX,
        i32::MIN <= int_pair(amount).unwrap().1 + int_pair(ctx[name]).unwrap().1 <= i32::MAX,
    ensures
        call_increase_var(seq!["pair"@, name, amount], ctx, api).0 == RuleValue::Void,
        crate::eval::var_value(call_increase_var(seq!["pair"@, name, amount], ctx, api).1, name)
            == RuleValue::Pair(
                Box::new(RuleValue::Integer((int_pair(amount).unwrap().0 + int_pair(ctx[name]).unwrap().0) as i32)),
                Box::new(RuleValue::Integer((int_pair(amount).unwrap().1 + int_pair(ctx[name]).unwrap().1) as i32))),
{
    reveal_strlit("pair");
    let x = (int_pair(amount).unwrap().0 + int_pair(ctx[name]).unwrap().0) as i32;
    let y = (int_pair(amount).unwrap().1 + int_pair(ctx[name]).unwrap().1) as i32;
    let v = RuleValue::Pair(Box::new(RuleValue::Integer(x)), Box::new(RuleValue::Integer(y)));
    reveal_strlit(",");
    assert(","@ =~= seq![',']);
    assert(crate::eval::value_text(RuleValue::Integer(x)) == int_text(x as int));
    assert(crate::eval::value_text(RuleValue::Integer(y)) == int_text(y as int));
    assert(crate::eval::value_text(v) == pair_text(x as int, y as int));
    crate::eval::law_stored_value_reads_back(ctx, name, v);
}

/// The calls that only read the board and change the context, what they answer and the
/// context they leave.
pub open spec fn context_call(b: &Board, c: Call, api: Seq<char>, a: Seq<Seq<char>>, ctx: Map<Seq<char>, Seq<char>>) -> Option<(RuleValue, Map<Seq<char>, Seq<char>>)> {
    match c {
        Call::IncreaseVar => Some(call_increase_var(a, ctx, api)),
        Call::CreateVarFromHistory => Some(call_var_from_history(b, a, ctx, api)),
        Call::Clone => Some(call_clone(a, ctx, api)),
        _ => None,
    }
}

/// The square that `kill`, `remove` and `destroy` act on, or the error they answer: they need
/// the channels to the player.
pub open spec fn removal_target(b: &Board, a: Seq<Seq<char>>, ctx: Map<Seq<char>, Seq<char>>, api: Seq<char>, io: bool) -> Result<(u32, u32), RuleValue> {
    if !io {
        Err(err("Cannot evaluate without receiver or sender in "@ + api))
    } else if !place_arity(a) {
        Err(arity_error(api, a.len()))
    } else {
        match locate(b, a, ctx) {
            Some(p) => Ok(p),
            None => Err(err("could not get position in "@ + api)),
        }
    }
}

/// Whether `b1` is `b0` with the square `p` emptied and, with `bury`, the piece that stood
/// there sent to a cementary, given to the other side.
pub open spec fn cleared(b0: &Board, b1: &Board, p: (u32, u32), bury: bool) -> bool {
    &&& forall|x: int, y: int| (x, y) != (p.0 as int, p.1 as int) ==> #[trigger] cell_view(b1, x, y) == cell_view(b0, x, y)
    &&& cell(b1, p.0 as int, p.1 as int) is None
    &&& cementary_views(b1) == (if bury { cementaries_after(cementary_views(b0), cell_view(b0, p.0 as int, p.1 as int)) } else { cementary_views(b0) })
    &&& same_frame(b0, b1)
}

/// The squares `move_piece` moves from and to, or the error it answers.
pub open spec fn move_targets(b: &Board, a: Seq<Seq<char>>, ctx: Map<Seq<char>, Seq<char>>) -> Result<((u32, u32), (u32, u32)), Seq<char>> {
    if a.len() != 3 {
        Err("wrong number of arguments"@)
    } else if a[0] == "var"@ {
        if !ctx.contains_key(a[1]) {
            Err("context does not contain var1"@)
        } else if !ctx.contains_key(a[2]) {
            Err("context does not contain var2"@)
        } else {
            match (spec_valid_position(b, ctx[a[1]]), spec_valid_position(b, ctx[a[2]])) {
                (Some(p), Some(q)) => Ok((p, q)),
                (None, _) => Err("position 1 is not valid"@),
                (Some(_), None) => Err("position 2 is not valid"@),
            }
        }
    } else if a[0] == "pos"@ {
        match (spec_valid_position(b, a[1]), spec_valid_position(b, a[2])) {
            (Some(p), Some(q)) => Ok((p, q)),
            (None, _) => Err("position 1 is not valid"@),
            (Some(_), None) => Err("position 2 is not valid"@),
        }
    } else {
        Err("Wrong argument to move_piece: "@ + a[0])
    }
}

/// Why `move_piece` refuses to move from `p` to `q`, if it does: a square off the grid, an
/// occupied destination or an empty source.
pub open spec fn move_refusal(b: &Board, p: (u32, u32), q: (u32, u32)) -> Option<Seq<char>> {
    if !in_grid(b, q.0 as int, q.1 as int) {
        Some("Out of board"@)
    } else if occupied(b, q.0 as int, q.1 as int) {
        Some("moving a piece to occupied position"@)
    } else if !in_grid(b, p.0 as int, p.1 as int) {
        Some("Out of board"@)
    } else if !occupied(b, p.0 as int, p.1 as int) {
        Some("No piece at given position"@)
    } else {
        None
    }
}

/// The square whose piece's memory `increase_memory` changes, or the error it answers.
pub open spec fn memory_target(b: &Board, a: Seq<Seq<char>>, ctx: Map<Seq<char>, Seq<char>>, api: Seq<char>) -> Result<(u32, u32), RuleValue> {
    if a.len() != 5 {
        Err(err("wrong number of arguments"@))
    } else if a[1] == "id"@ {
        match spec_parse_i32(a[2]) {
            Some(id) => match find_id(b, id) {
                Some(p) => Ok(p),
                None => Err(err("could not find piece with given id on board"@)),
            },
            None => Err(err("Not a valid id in "@ + api)),
        }
    } else if is_pos_name(a[1]) {
        match spec_valid_position(b, a[2]) {
            Some(p) => Ok(p),
            None => Err(err("not a valid position"@)),
        }
    } else if is_var_name(a[1]) {
        if !ctx.contains_key(a[2]) {
            Err(missing(a[2], api))
        } else {
            match spec_valid_position(b, ctx[a[2]]) {
                Some(p) => Ok(p),
                None => Err(err(a[2] + " is not a position "@ + api)),
            }
        }
    } else {
        Err(err("wrong second argument"@))
    }
}

/// An integer, or 0 when the text is not one.
pub open spec fn int_or_zero(s: Seq<char>) -> i32 {
    match spec_parse_i32(s) {
        Some(n) => n,
        None => 0,
    }
}

/// What `increase_memory` answers for the piece `q`, and the memory entry it writes, if any:
/// the memory `a[3]` is read, and the sum with the amount `a[4]` is written back under `a[3]`.
pub open spec fn memory_update(q: PieceView, a: Seq<Seq<char>>) -> (RuleValue, Option<(Seq<char>, RuleValue)>) {
    if !q.memory.contains_key(a[3]) {
        (err("Given memory does not exist"@), None)
    } else {
        let val = q.memory[a[3]];
        if a[0] == "pair"@ {
            match spec_two_parts(a[4]) {
                Some((s1, s2)) => match val {
                    RuleValue::Pair(x, y) => match (*x, *y) {
                        (RuleValue::Integer(x2), RuleValue::Integer(y2)) => {
                            let u = x2 + int_or_zero(s1);
                            let w = y2 + int_or_zero(s2);
                            if i32::MIN <= u <= i32::MAX && i32::MIN <= w <= i32::MAX {
                                (RuleValue::Void, Some((a[3], RuleValue::Pair(Box::new(RuleValue::Integer(u as i32)), Box::new(RuleValue::Integer(w as i32))))))
                            } else {
                                (err("integer overflow"@), None)
                            }
                        },
                        _ => (RuleValue::Void, None),
                    },
                    _ => (RuleValue::Void, None),
                },
                None => (err("fifth argument not a pair"@), None),
            }
        } else if a[0] == "int"@ {
            match val {
                RuleValue::Integer(v) => match spec_parse_i32(a[4]) {
                    Some(n) => if i32::MIN <= n + v <= i32::MAX {
                        (RuleValue::Void, Some((a[3], RuleValue::Integer((n + v) as i32))))
                    } else {
                        (err("integer overflow"@), None)
                    },
                    None => (err("fifth argument not an integer"@), None),
                },
                _ => (err("given memory not an integer"@), None),
            }
        } else {
            (err("wrong first argument"@), None)
        }
    }
}

/// Whether `b1` is `b0` with the memory entry `k` of the piece on `p` set to `v`.
pub open spec fn memory_written(b0: &Board, b1: &Board, p: (u32, u32), k: Seq<char>, v: RuleValue) -> bool {
    &&& forall|x: int, y: int| (x, y) != (p.0 as int, p.1 as int) ==> #[trigger] cell_view(b1, x, y) == cell_view(b0, x, y)
    &&& cell_view(b0, p.0 as int, p.1 as int) matches Some(q)
        && cell_view(b1, p.0 as int, p.1 as int) == Some(PieceView { memory: q.memory.insert(k, v), ..q })
    &&& b1.cementaries == b0.cementaries
    &&& same_frame(b0, b1)
}

/// The square a call that names one in the usual way reads, or the error it answers.
pub open spec fn place_target(b: &Board, a: Seq<Seq<char>>, ctx: Map<Seq<char>, Seq<char>>, api: Seq<char>) -> Result<(u32, u32), RuleValue> {
    if !place_arity(a) {
        Err(arity_error(api, a.len()))
    } else {
        match locate(b, a, ctx) {
            Some(p) => Ok(p),
            None => Err(err("could not get a valid position"@)),
        }
    }
}

/// Where `get_memory` finds the memory it reads: the piece on a square, or a value stored by a
/// piece of a cementary.
pub ghost enum MemorySource {
    Square((u32, u32)),
    Stored(RuleValue),
}

/// The memory `a[2]` of the piece at the index variable `a[1]` holds in cementary `c`.
pub open spec fn stored_memory(c: Seq<Piece>, a: Seq<Seq<char>>, ctx: Map<Seq<char>, Seq<char>>, api: Seq<char>) -> Result<MemorySource, RuleValue> {
    if !ctx.contains_key(a[1]) {
        Err(missing(a[1], api))
    } else {
        match spec_parse_u32(ctx[a[1]]) {
            Some(i) => if i >= c.len() {
                Err(err("index, out of cementary"@))
            } else if !c[i as int]@.memory.contains_key(a[2]) {
                Err(err("Piece does not have given memory"@))
            } else {
                Ok(MemorySource::Stored(c[i as int]@.memory[a[2]]))
            },
            None => Err(err("Not a natural number"@)),
        }
    }
}

/// Where `get_memory` reads, or the error it answers.
pub open spec fn memory_source(b: &Board, a: Seq<Seq<char>>, ctx: Map<Seq<char>, Seq<char>>, api: Seq<char>) -> Result<MemorySource, RuleValue> {
    if a.len() != 3 {
        Err(err("wrong number of arguments"@))
    } else if a[0] == "id"@ {
        match spec_parse_i32(a[1]) {
            Some(id) => match find_id(b, id) {
                Some(p) => Ok(MemorySource::Square(p)),
                None => Err(err("could not find piece with given id on board"@)),
            },
            None => Err(err("Not a valid id in "@ + api)),
        }
    } else if is_pos_name(a[0]) {
        match spec_valid_position(b, a[1]) {
            Some(p) => Ok(MemorySource::Square(p)),
            None => Err(err("not a valid position"@)),
        }
    } else if is_var_name(a[0]) {
        if !ctx.contains_key(a[1]) {
            Err(missing(a[1], api))
        } else {
            match spec_valid_position(b, ctx[a[1]]) {
                Some(p) => Ok(MemorySource::Square(p)),
                None => Err(err(a[1] + " is not a position "@ + api)),
            }
        }
    } else if is_white_cementary(a[0]) {
        stored_memory(b.cementaries.0@, a, ctx, api)
    } else if is_black_cementary(a[0]) {
        stored_memory(b.cementaries.1@, a, ctx, api)
    } else {
        Err(err("wrong first argument"@))
    }
}

/// The player and the piece id `check_mate` is asked about, or the error it answers.
pub open spec fn mate_args(a: Seq<Seq<char>>) -> Result<(Player, i32), RuleValue> {
    if a.len() != 2 {
        Err(err("wrong number of arguments"@))
    } else {
        match spec_parse_i32(a[0]) {
            Some(id) => match spec_player_from_text(a[1]) {
                Some(p) => Ok((p, id)),
                None => Err(err("Not a valid player"@)),
            },
            None => Err(err("Not a valid piece id"@)),
        }
    }
}

/// The square whose memory `create_var_from_mem` reads, or what it answers at once (`true` when
/// no piece has the id it is given).
pub open spec fn mem_var_source(b: &Board, a: Seq<Seq<char>>, ctx: Map<Seq<char>, Seq<char>>, api: Seq<char>) -> Result<(u32, u32), RuleValue> {
    if a.len() != 4 {
        Err(err("wrong number of arguments"@))
    } else if a[0] == "pos"@ {
        match spec_valid_position(b, a[1]) {
            Some(p) => Ok(p),
            None => Err(err("position 1 is not valid"@)),
        }
    } else if a[0] == "id"@ {
        match spec_parse_i32(a[1]) {
            Some(id) => match find_id(b, id) {
                Some(p) => Ok(p),
                None => Err(RuleValue::Boolean(true)),
            },
            None => Err(err("Not a valid piece id"@)),
        }
    } else if a[0] == "var"@ {
        if !ctx.contains_key(a[1]) {
            Err(err("no given position in "@ + api))
        } else {
            match spec_valid_position(b, ctx[a[1]]) {
                Some(p) => Ok(p),
                None => Err(err("position in "@ + api)),
            }
        }
    } else {
        Err(err("wrong first argument"@))
    }
}

/// Why `change_type` refuses at once, if it does: it needs the channels to the player, is not
/// played while searching for a mate, and needs a kind of piece the game knows.
pub open spec fn change_refusal(b: &Board, a: Seq<Seq<char>>, api: Seq<char>, io: bool, mate: bool) -> Option<RuleValue> {
    if !io {
        Some(err("Cannot evaluate without receiver or sender in "@ + api))
    } else if mate {
        Some(err("Cannot evaluate change_type in checking for mate"@))
    } else if !(exists|i: int| 0 <= i < a.len() && b.pieces@.contains_key(#[trigger] a[i])) {
        Some(err("No pieces available to change to. Perhaps the listed pieces are not loaded in board."@))
    } else {
        None
    }
}

/// Why `change_type`, once the player has been asked, may fail with the error `e`: the player
/// left, or the square `new_position` names is missing from `ctx`, is not a square, or is empty.
pub open spec fn change_failure(b: &Board, ctx: Map<Seq<char>, Seq<char>>, api: Seq<char>, e: RuleValue) -> bool {
    ||| e == err("There were issues with input"@)
    ||| !ctx.contains_key("new_position"@) && e == err("no new_position in "@ + api)
    ||| ctx.contains_key("new_position"@) && spec_valid_position(b, ctx["new_position"@]) is None && e == err("new_position in "@ + api)
    ||| ctx.contains_key("new_position"@) && (spec_valid_position(b, ctx["new_position"@]) matches Some(p)
        && cell(b, p.0 as int, p.1 as int) is None
        && e == err("No piece at "@ + ("("@ + int_text(p.0 as int) + ", "@ + int_text(p.1 as int)) + ") in "@ + api))
}

/// Whether `b1` is `b0` with the piece on the square `new_position` holds turned into a piece of
/// kind `k`, keeping its memory and its owner.
pub open spec fn changed_kind(b0: &Board, b1: &Board, ctx: Map<Seq<char>, Seq<char>>, k: Seq<char>) -> bool {
    &&& ctx.contains_key("new_position"@)
    &&& spec_valid_position(b0, ctx["new_position"@]) matches Some(p)
        && cell_view(b0, p.0 as int, p.1 as int) matches Some(q)
        && b0.pieces@.contains_key(k)
        && cell_view(b1, p.0 as int, p.1 as int) == Some(PieceView { memory: q.memory, owner: q.owner, ..b0.pieces@[k] })
        && forall|x: int, y: int| (x, y) != (p.0 as int, p.1 as int) ==> #[trigger] cell_view(b1, x, y) == cell_view(b0, x, y)
    &&& b1.cementaries == b0.cementaries
    &&& same_frame(b0, b1)
}

} // verus!
