//! The catalogues of the rule language: the calls a rule may make and the kinds of rule.
use vstd::prelude::*;
use crate::dict::Dict;
use crate::rule::RuleExpression;
use crate::text::text;

verus! {

/// The arity of a call that takes any number of arguments.
pub const ANY_ARGS: u32 = 4294967295;

/// The arity of a call that takes a square named in the usual way: two arguments, or three for
/// the history.
pub const SQUARE_ARGS: u32 = 4294967294;

/// The calls a rule may make, by name: how many arguments each takes (`ANY_ARGS` for any number, `SQUARE_ARGS`
/// for a square named in the usual way) and what it does.
pub open spec fn calls_table() -> Map<Seq<char>, (u32, Seq<char>)> {
    Map::<Seq<char>, (u32, Seq<char>)>::empty()
        .insert("is_empty"@, (SQUARE_ARGS, "checks if given position is empty\nis_empty [[pos position]|[var position_name]|[history [src|dest] index]]\neg: is_empty var new_position"@))
        .insert("is_attacked"@, (SQUARE_ARGS, "checks if given position is attacked\nis_attacked [[pos position]|[var position_name]|[history [src|dest] index]]\neg: is_attacked pos 1,1"@))
        .insert("is_type"@, (3, "checks if piece at a given position or named cementary index has given id\nis_type [[pos position]|[var position_name]|[[cementary_white| cementary_black] idx]] [piece_id]\neg:is_type pos 1,1 pawn"@))
        .insert("is_opponent"@, (SQUARE_ARGS, "checks if given position has opponent piece\nis_opponent [[pos position]|[var position_name]|[history [src|dest] index]]\neg: is_opponent var new_position"@))
        .insert("is_ally"@, (SQUARE_ARGS, "checks if given position has ally piece\nis_ally [[pos position]|[var position_name]|[history [src|dest] index]]\neg: is_ally var new_position"@))
        .insert("is_different"@, (2, "checks if two named positions are different\nis_different [position1_name] [position2_name]\neg: is_different new_position old_position"@))
        .insert("in_bounds"@, (SQUARE_ARGS, "checks if given position is in board bounds\nin_bounds [[pos position]|[var position_name]|[history [src|dest] index]]\neg: in_bounds pos 1,1"@))
        .insert("is_path_blocked"@, (2, "checks if path between two named positions is blocked, when the positions are not in straight line or square diagonal returns false\nis_path_blocked [position1_name] [position2_name]\neg: is_path_blocked old_position new_position"@))
        .insert("get_vertical_cord"@, (0, "returns vertical coordinate of old_position\nget_vertical_cord\neg: get_vertical_cord"@))
        .insert("get_horizontal_cord"@, (0, "returns horizontal coordinate of old_position\nget_horizontal_cord\neg: get_horizontal_cord"@))
        .insert("get_target_vertical_cord"@, (0, "returns vertical coordinate of new_position\nget_target_vertical_cord\neg: get_target_vertical_cord"@))
        .insert("get_target_horizontal_cord"@, (0, "returns horizontal coordinate of new_position\nget_target_horizontal_cord\neg: get_target_horizontal_cord"@))
        .insert("get_memory"@, (3, "returns memory of piece with given id/on given position\nget_memory [[pos position]|[var position_name]|[id piece_memory_id]|[[cementary_white| cementary_black] variable_name]] [memory_name]\neg: get_memory var old_position move_count"@))
        .insert("increase_memory"@, (5, "increase given memory of a piece with given id/on given position\nincrease_memory [pair|int] [[pos position]|[var position_name]|[id piece_memory_id]] [memory_name] [value]\neg: increase_memory int var new_position move_count 13"@))
        .insert("increase_var"@, (3, "increase given context variable\nincrease_var [pair|int] [variable_name] value\neg: increase_var pair special_position 1,1"@))
        .insert("change_type"@, (ANY_ARGS, "change type of piece at new_position to one of listed ones\nchange_type [piece_id1] ...\neg: change_type pawn rook"@))
        .insert("forward"@, (SQUARE_ARGS, "returns vertical difference relative to pawn at 'old_position'\nforward [[position|variable] value ]| [history [src|dest] index]\neg: forward variable new_position"@))
        .insert("left"@, (SQUARE_ARGS, "returns horizontal difference relative to pawn at 'old_position'\nleft [[position|variable] value ]| [history [src|dest] index]\neg: left variable new_position"@))
        .insert("north"@, (SQUARE_ARGS, "returns vertical difference to 'old_position'\nnorth [[position|variable] value ]| [history [src|dest] index]\neg: north variable new_position"@))
        .insert("west"@, (SQUARE_ARGS, "returns horizontal difference to 'old_position'\nwest [[position|variable] value ]| [history [src|dest] index]\neg: west variable new_position"@))
        .insert("history"@, (SQUARE_ARGS, "returns move from history\nhistory [src|dest] [idx] (v|h)\neg: history dest 0 v"@))
        .insert("kill"@, (SQUARE_ARGS, "kills piece at specified position\nkill [[position|variable] value ]| [history [src|dest] index]\neg: kill history dest 0"@))
        .insert("piece_on_board"@, (1, "checks if there is at least one piece with given id on board\npiece_on_board [piece_id]\neg: piece_on_board pawn"@))
        .insert("piece_on_board_cnt"@, (1, "returns number of pieces with given id on board\npiece_on_board_cnt [piece_id]\neg: piece_on_board_cnt pawn"@))
        .insert("player_piece_on_board"@, (2, "checks if given player has at least one piece of given type on board\nplayer_piece_on_board [piece_id] [player]\neg: player_piece_on_board pawn White"@))
        .insert("player_piece_on_board_cnt"@, (2, "returns number of pieces of given type given player has on board\nplayer_piece_on_board_cnt [piece_id] [player]\neg: player_piece_on_board_cnt pawn Black"@))
        .insert("move_piece"@, (3, "moves piece at src to dst\nmove_piece [var|pos] src dst\neg: move_piece pos 1,1 2,1"@))
        .insert("is_same_line"@, (3, "checks if all position on give line are the same, returns error when positions are not in the same line or square diagonal\nis_same_line [position1] [position2] [piece_id|owner]\neg: is_same_line 6,6 7,7 owner"@))
        .insert("check_mate"@, (2, "checks if piece with given id in memory is mated by given player\ncheck_mate [piece_id] [player]\n eg: check_mate 1 White"@))
        .insert("create_var_from_mem"@, (4, "creates context variable from piece memory\ncreate_var_from_mem [[pos position]|[id piece_id ]| [var position_name]] [memory_name] [variable_name]\neg: create_var_from_mem pos 1,1 move_count var1"@))
        .insert("create_var_from_history"@, (4, "createst context variable from history entry\ncreate_var_from_history [src|dst] [vertical|horizontal|pair] [idx] [variable_name]\neg: create_var_from_history src pair 0 var1"@))
        .insert("clone"@, (2, "creates a copy of context variable\nclone [variable_name1] [variable_name2]\neg: clone new_position position2"@))
        .insert("is_player"@, (2, "checks if given position has figure belonging to given player\nis_player [variable_name] [player]\neg:is_player old_position White"@))
}

/// Every call that the table of calls lists is one that a rule may make: the dispatcher knows
/// its name.
pub proof fn law_listed_calls_are_known(name: Seq<char>)
    requires
        calls_table().dom().contains(name),
    ensures
        crate::calls::call_of(name) != crate::calls::Call::Unknown,
{
}

/// The calls a rule may make, with their arity and description; see `calls_table`.
pub fn default_calls() -> (r: Dict<(u32, String)>)
    ensures
        r@ == calls_table(),
{
    let mut m: Dict<(u32, String)> = Dict::new();
    m.insert(text("is_empty"), (SQUARE_ARGS, text("checks if given position is empty\nis_empty [[pos position]|[var position_name]|[history [src|dest] index]]\neg: is_empty var new_position")));
    m.insert(text("is_attacked"), (SQUARE_ARGS, text("checks if given position is attacked\nis_attacked [[pos position]|[var position_name]|[history [src|dest] index]]\neg: is_attacked pos 1,1")));
    m.insert(text("is_type"), (3, text("checks if piece at a given position or named cementary index has given id\nis_type [[pos position]|[var position_name]|[[cementary_white| cementary_black] idx]] [piece_id]\neg:is_type pos 1,1 pawn")));
    m.insert(text("is_opponent"), (SQUARE_ARGS, text("checks if given position has opponent piece\nis_opponent [[pos position]|[var position_name]|[history [src|dest] index]]\neg: is_opponent var new_position")));
    m.insert(text("is_ally"), (SQUARE_ARGS, text("checks if given position has ally piece\nis_ally [[pos position]|[var position_name]|[history [src|dest] index]]\neg: is_ally var new_position")));
    m.insert(text("is_different"), (2, text("checks if two named positions are different\nis_different [position1_name] [position2_name]\neg: is_different new_position old_position")));
    m.insert(text("in_bounds"), (SQUARE_ARGS, text("checks if given position is in board bounds\nin_bounds [[pos position]|[var position_name]|[history [src|dest] index]]\neg: in_bounds pos 1,1")));
    m.insert(text("is_path_blocked"), (2, text("checks if path between two named positions is blocked, when the positions are not in straight line or square diagonal returns false\nis_path_blocked [position1_name] [position2_name]\neg: is_path_blocked old_position new_position")));
    m.insert(text("get_vertical_cord"), (0, text("returns vertical coordinate of old_position\nget_vertical_cord\neg: get_vertical_cord")));
    m.insert(text("get_horizontal_cord"), (0, text("returns horizontal coordinate of old_position\nget_horizontal_cord\neg: get_horizontal_cord")));
    m.insert(text("get_target_vertical_cord"), (0, text("returns vertical coordinate of new_position\nget_target_vertical_cord\neg: get_target_vertical_cord")));
    m.insert(text("get_target_horizontal_cord"), (0, text("returns horizontal coordinate of new_position\nget_target_horizontal_cord\neg: get_target_horizontal_cord")));
    m.insert(text("get_memory"), (3, text("returns memory of piece with given id/on given position\nget_memory [[pos position]|[var position_name]|[id piece_memory_id]|[[cementary_white| cementary_black] variable_name]] [memory_name]\neg: get_memory var old_position move_count")));
    m.insert(text("increase_memory"), (5, text("increase given memory of a piece with given id/on given position\nincrease_memory [pair|int] [[pos position]|[var position_name]|[id piece_memory_id]] [memory_name] [value]\neg: increase_memory int var new_position move_count 13")));
    m.insert(text("increase_var"), (3, text("increase given context variable\nincrease_var [pair|int] [variable_name] value\neg: increase_var pair special_position 1,1")));
    m.insert(text("change_type"), (ANY_ARGS, text("change type of piece at new_position to one of listed ones\nchange_type [piece_id1] ...\neg: change_type pawn rook")));
    m.insert(text("forward"), (SQUARE_ARGS, text("returns vertical difference relative to pawn at 'old_position'\nforward [[position|variable] value ]| [history [src|dest] index]\neg: forward variable new_position")));
    m.insert(text("left"), (SQUARE_ARGS, text("returns horizontal difference relative to pawn at 'old_position'\nleft [[position|variable] value ]| [history [src|dest] index]\neg: left variable new_position")));
    m.insert(text("north"), (SQUARE_ARGS, text("returns vertical difference to 'old_position'\nnorth [[position|variable] value ]| [history [src|dest] index]\neg: north variable new_position")));
    m.insert(text("west"), (SQUARE_ARGS, text("returns horizontal difference to 'old_position'\nwest [[position|variable] value ]| [history [src|dest] index]\neg: west variable new_position")));
    m.insert(text("history"), (SQUARE_ARGS, text("returns move from history\nhistory [src|dest] [idx] (v|h)\neg: history dest 0 v")));
    m.insert(text("kill"), (SQUARE_ARGS, text("kills piece at specified position\nkill [[position|variable] value ]| [history [src|dest] index]\neg: kill history dest 0")));
    m.insert(text("piece_on_board"), (1, text("checks if there is at least one piece with given id on board\npiece_on_board [piece_id]\neg: piece_on_board pawn")));
    m.insert(text("piece_on_board_cnt"), (1, text("returns number of pieces with given id on board\npiece_on_board_cnt [piece_id]\neg: piece_on_board_cnt pawn")));
    m.insert(text("player_piece_on_board"), (2, text("checks if given player has at least one piece of given type on board\nplayer_piece_on_board [piece_id] [player]\neg: player_piece_on_board pawn White")));
    m.insert(text("player_piece_on_board_cnt"), (2, text("returns number of pieces of given type given player has on board\nplayer_piece_on_board_cnt [piece_id] [player]\neg: player_piece_on_board_cnt pawn Black")));
    m.insert(text("move_piece"), (3, text("moves piece at src to dst\nmove_piece [var|pos] src dst\neg: move_piece pos 1,1 2,1")));
    m.insert(text("is_same_line"), (3, text("checks if all position on give line are the same, returns error when positions are not in the same line or square diagonal\nis_same_line [position1] [position2] [piece_id|owner]\neg: is_same_line 6,6 7,7 owner")));
    m.insert(text("check_mate"), (2, text("checks if piece with given id in memory is mated by given player\ncheck_mate [piece_id] [player]\n eg: check_mate 1 White")));
    m.insert(text("create_var_from_mem"), (4, text("creates context variable from piece memory\ncreate_var_from_mem [[pos position]|[id piece_id ]| [var position_name]] [memory_name] [variable_name]\neg: create_var_from_mem pos 1,1 move_count var1")));
    m.insert(text("create_var_from_history"), (4, text("createst context variable from history entry\ncreate_var_from_history [src|dst] [vertical|horizontal|pair] [idx] [variable_name]\neg: create_var_from_history src pair 0 var1")));
    m.insert(text("clone"), (2, text("creates a copy of context variable\nclone [variable_name1] [variable_name2]\neg: clone new_position position2")));
    m.insert(text("is_player"), (2, text("checks if given position has figure belonging to given player\nis_player [variable_name] [player]\neg:is_player old_position White")));
    m
}

/// The kinds of rule, by name: how many parts each takes (`ANY_ARGS` for any number) and what it is.
pub open spec fn kinds_table() -> Map<Seq<char>, (u32, Seq<char>)> {
    Map::<Seq<char>, (u32, Seq<char>)>::empty()
        .insert("Void"@, (0, "empty rule"@))
        .insert("Boolean"@, (1, "boolean value\neg: Boolean false"@))
        .insert("Integer"@, (1, "integer value\neg: Integer 1"@))
        .insert("Diff"@, (2, "difference of two integers"@))
        .insert("ApiCall"@, (ANY_ARGS, "call api"@))
        .insert("Variable"@, (1, "create variable"@))
        .insert("Pair"@, (2, "create pair"@))
        .insert("And"@, (2, "and of two expressions"@))
        .insert("Or"@, (2, "or of two expressions"@))
        .insert("Not"@, (1, "not of expressions"@))
        .insert("Equals"@, (2, "checks if two values equal"@))
        .insert("If"@, (3, "if"@))
        .insert("Error"@, (1, "error"@))
}

impl RuleExpression {
    /// The kinds of rule, with the number of their parts and a description; see `kinds_table`.
    pub fn list() -> (r: Dict<(u32, String)>)
        ensures
            r@ == kinds_table(),
    {
        let mut m: Dict<(u32, String)> = Dict::new();
        m.insert(text("Void"), (0, text("empty rule")));
        m.insert(text("Boolean"), (1, text("boolean value\neg: Boolean false")));
        m.insert(text("Integer"), (1, text("integer value\neg: Integer 1")));
        m.insert(text("Diff"), (2, text("difference of two integers")));
        m.insert(text("ApiCall"), (ANY_ARGS, text("call api")));
        m.insert(text("Variable"), (1, text("create variable")));
        m.insert(text("Pair"), (2, text("create pair")));
        m.insert(text("And"), (2, text("and of two expressions")));
        m.insert(text("Or"), (2, text("or of two expressions")));
        m.insert(text("Not"), (1, text("not of expressions")));
        m.insert(text("Equals"), (2, text("checks if two values equal")));
        m.insert(text("If"), (3, text("if")));
        m.insert(text("Error"), (1, text("error")));
        m
    }
}

} // verus!
