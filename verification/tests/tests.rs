use boardgames::board::Board;
use boardgames::text::{pair_to_text, parse_pair_text, parse_position_text};
use boardgames::creator::{piece_command, PieceCommand};
use boardgames::dict::Dict;
use boardgames::gamestate::GameState;
use boardgames::piece::Piece;
use boardgames::player::Player;
use boardgames::pmove::PMove;
use boardgames::rule::RuleExpression;
use boardgames::game::{Game, Mode, Request};
use boardgames::play::escape_verdict;
use boardgames::ruletree::{add_node, pop_node, print_rule_state, swap_node, RuleState};
use std::sync::mpsc::{channel, Receiver, Sender};

fn is_error(e: &RuleExpression, msg: &str) -> bool {
    matches!(e, RuleExpression::Error(s) if s == msg)
}

fn is_bool(e: &RuleExpression, b: bool) -> bool {
    matches!(e, RuleExpression::Boolean(x) if *x == b)
}

fn is_int(e: &RuleExpression, n: i32) -> bool {
    matches!(e, RuleExpression::Integer(x) if *x == n)
}

fn is_void(e: &RuleExpression) -> bool {
    matches!(e, RuleExpression::Void)
}

/// A kind of piece that may move to any square.
fn free_piece(id: &str, name: &str) -> Piece {
    let mut p = Piece::defualt_piece();
    p.id = id.to_string();
    p.name = name.to_string();
    p.possiblemoves.push(PMove { condition: Box::new(RuleExpression::Boolean(true)), consequences: None });
    p
}

fn channels() -> (Sender<Option<String>>, Receiver<Option<String>>, Sender<String>, Receiver<String>) {
    let (tx, rx) = channel();
    let (tx2, rx2) = channel();
    (tx, rx, tx2, rx2)
}

#[test]
fn test_depth_err() {
    let mut board = Board::new();
    let mut context = Dict::new();
    let res = RuleExpression::Boolean(false).evaluate(&mut board, &mut context, 300, None, None, false);
    assert!(is_error(&res, "too many calls"))
}

#[test]
fn test_get_position_from_relative() {
    let board = Board::new();
    assert!(board.get_position_from_relative("3,2", (1, 4)).is_some_and(|x| x == (4, 6)));
}

#[test]
fn test_get_position_from_pawn_relative() {
    let board = Board::new();
    assert!(board.get_position_from_pawn_relative("3,2", (1, 4), true).is_some_and(|x| x == (4, 6)));
    assert!(board.get_position_from_pawn_relative("3,2", (1, 4), false).is_none());
    assert!(board.get_position_from_pawn_relative("3,2", (2, 1), false).is_some_and(|x| x == (1, 1)));
}

#[test]
fn test_first_second() {
    let mut board = Board::new();
    let mut context = Dict::new();
    let r = RuleExpression::First(Box::new(RuleExpression::Pair(
        Box::new(RuleExpression::Boolean(true)),
        Box::new(RuleExpression::Boolean(false)),
    )))
    .evaluate(&mut board, &mut context, 0, None, None, false);
    assert!(is_bool(&r, true));
}

#[test]
fn test_increase_var() {
    let mut board = Board::new();
    let mut context = Dict::new();
    context.insert("test1".to_string(), "6,10".to_string());
    context.insert("test2".to_string(), "6".to_string());
    board.call_api("increase_var", vec!["pair", "test1", "3,-8"], &mut context, 0, None, None, false);
    assert!(context.get("test1").unwrap() == "9,2");
    let x = board.call_api("increase_var", vec!["pair", "test2", "-38"], &mut context, 0, None, None, false);
    assert!(is_error(&x, "third argument not a pair"));
    board.call_api("increase_var", vec!["int", "test2", "-38"], &mut context, 0, None, None, false);
    assert!(context.get("test2").unwrap() == "-32");
}

#[test]
fn test_clone() {
    let mut board = Board::new();
    let mut context = Dict::new();
    context.insert(String::from("old_position"), format!("{},{}", 1, 1).to_string());
    board.call_api("clone", vec!["old_position", "eugh"], &mut context, 0, None, None, false);
    assert!(context.contains_key("eugh") && context.get("eugh").unwrap().clone() == format!("{},{}", 1, 1));
}

#[test]
fn opponent_of_opponent_is_the_player() {
    assert_eq!(Player::White.opponent().opponent(), Player::White);
    assert_eq!(Player::Black.opponent(), Player::White);
}

#[test]
fn player_names_read_back() {
    assert_eq!(Player::from_str(Player::Black.as_str()), Some(Player::Black));
    assert_eq!(Player::from_str(Player::White.as_str()), Some(Player::White));
    assert_eq!(Player::from_str("white"), None);
}

#[test]
fn dict_later_insert_wins_and_keys_are_distinct() {
    let mut d: Dict<String> = Dict::new();
    d.insert("a".to_string(), "1".to_string());
    d.insert("b".to_string(), "2".to_string());
    d.insert("a".to_string(), "3".to_string());
    assert_eq!(d.get("a").unwrap(), "3");
    assert!(d.get("c").is_none());
    assert_eq!(d.keys(), vec!["a".to_string(), "b".to_string()]);
}

#[test]
fn arithmetic_rules() {
    let mut board = Board::new();
    let mut context = Dict::new();
    let diff = RuleExpression::Diff(Box::new(RuleExpression::Integer(3)), Box::new(RuleExpression::Integer(10)));
    assert!(is_int(&diff.evaluate(&mut board, &mut context, 0, None, None, false), 7));
    let sum = RuleExpression::Sum(Box::new(RuleExpression::Integer(3)), Box::new(RuleExpression::Integer(-10)));
    assert!(is_int(&sum.evaluate(&mut board, &mut context, 0, None, None, false), -7));
    let big = RuleExpression::Sum(Box::new(RuleExpression::Integer(i32::MAX)), Box::new(RuleExpression::Integer(1)));
    assert!(is_error(&big.evaluate(&mut board, &mut context, 0, None, None, false), "integer overflow"));
}

#[test]
fn logic_rules() {
    let mut board = Board::new();
    let mut context = Dict::new();
    context.insert("x".to_string(), "4".to_string());
    let eq = RuleExpression::Equals(Box::new(RuleExpression::Variable("x".to_string())), Box::new(RuleExpression::Integer(4)));
    assert!(is_bool(&eq.evaluate(&mut board, &mut context, 0, None, None, false), true));
    let and = RuleExpression::And(vec![RuleExpression::Boolean(true), RuleExpression::Boolean(false)]);
    assert!(is_bool(&and.evaluate(&mut board, &mut context, 0, None, None, false), false));
    let or = RuleExpression::Or(vec![RuleExpression::Boolean(false), RuleExpression::Boolean(true)]);
    assert!(is_bool(&or.evaluate(&mut board, &mut context, 0, None, None, false), true));
    let cond = RuleExpression::If(
        Box::new(RuleExpression::Boolean(false)),
        Box::new(RuleExpression::Integer(1)),
        Box::new(RuleExpression::Integer(2)),
    );
    assert!(is_int(&cond.evaluate(&mut board, &mut context, 0, None, None, false), 2));
    let not = RuleExpression::Not(Box::new(RuleExpression::Boolean(false)));
    assert!(is_bool(&not.evaluate(&mut board, &mut context, 0, None, None, false), true));
    let second = RuleExpression::Second(Box::new(RuleExpression::Variable("pair".to_string())));
    context.insert("pair".to_string(), "5,-6".to_string());
    assert!(is_int(&second.evaluate(&mut board, &mut context, 0, None, None, false), -6));
}

#[test]
fn missing_variable_is_an_error() {
    let mut board = Board::new();
    let mut context = Dict::new();
    let r = RuleExpression::Variable("nothing".to_string()).evaluate(&mut board, &mut context, 0, None, None, false);
    assert!(is_error(&r, "No variable nothing in context"));
}

#[test]
fn positions_are_read_from_text() {
    let board = Board::new();
    assert_eq!(board.parse_position("3,4"), Some((3, 4)));
    assert_eq!(board.parse_position("3,-4"), None);
    assert_eq!(board.parse_position("3,4,5"), None);
    assert_eq!(board.parse_pair("3,-4"), Some((3, -4)));
    assert!(board.is_position_valid("7,7"));
    assert!(!board.is_position_valid("8,7"));
    assert_eq!(board.get_valid_position("2,100"), Some((2, 100)));
    assert_eq!(board.get_valid_position("100,100"), None);
}

#[test]
fn history_keeps_the_latest_moves() {
    let mut board = Board::new();
    board.history_size = 2;
    board.add_history(PMove::default_move(), (0, 0), (1, 1));
    board.add_history(PMove::default_move(), (1, 1), (2, 2));
    board.add_history(PMove::default_move(), (2, 2), (3, 3));
    assert_eq!(board.get_history(0).unwrap().1, ((2, 2), (3, 3)));
    assert_eq!(board.get_history(1).unwrap().1, ((1, 1), (2, 2)));
    assert!(board.get_history(2).is_none());
}

#[test]
fn paths_are_blocked_by_pieces_between() {
    let mut board = Board::new();
    board.board[2][2] = Some(free_piece("p", "pawn"));
    assert!(board.is_path_blocked((0, 0), (4, 4)));
    assert!(!board.is_path_blocked((0, 0), (2, 2)));
    assert!(!board.is_path_blocked((0, 0), (1, 3)));
    assert!(!board.is_path_blocked((0, 1), (4, 1)));
}

#[test]
fn calls_that_read_squares() {
    let mut board = Board::new();
    board.board[1][1] = Some(free_piece("rook", "rook"));
    let _ = board.add_piece2(free_piece("rook", "rook"));
    let mut context = Dict::new();
    context.insert("old_position".to_string(), "1,1".to_string());
    context.insert("new_position".to_string(), "3,1".to_string());
    let r = board.call_api("is_empty", vec!["var", "new_position"], &mut context, 0, None, None, false);
    assert!(is_bool(&r, true));
    let r = board.call_api("is_empty", vec!["pos", "1,1"], &mut context, 0, None, None, false);
    assert!(is_bool(&r, false));
    let r = board.call_api("is_empty", vec!["pos"], &mut context, 0, None, None, false);
    assert!(is_error(&r, "wrong number of arguments in is_empty args:1"));
    let r = board.call_api("is_type", vec!["pos", "1,1", "rook"], &mut context, 0, None, None, false);
    assert!(is_bool(&r, true));
    let r = board.call_api("is_type", vec!["pos", "2,2", "rook"], &mut context, 0, None, None, false);
    assert!(is_error(&r, "no piece at given position"));
    let r = board.call_api("is_ally", vec!["var", "old_position"], &mut context, 0, None, None, false);
    assert!(is_bool(&r, true));
    let r = board.call_api("is_opponent", vec!["var", "old_position"], &mut context, 0, None, None, false);
    assert!(is_bool(&r, false));
    let r = board.call_api("is_player", vec!["old_position", "White"], &mut context, 0, None, None, false);
    assert!(is_bool(&r, true));
    let r = board.call_api("piece_on_board_cnt", vec!["rook"], &mut context, 0, None, None, false);
    assert!(is_int(&r, 1));
    let r = board.call_api("player_piece_on_board", vec!["rook", "Black"], &mut context, 0, None, None, false);
    assert!(is_bool(&r, false));
    let r = board.call_api("piece_on_board", vec!["queen"], &mut context, 0, None, None, false);
    assert!(is_error(&r, "Piece queen does not exist in this game, in piece_on_board"));
    let r = board.call_api("in_bounds", vec!["pos", "8,1"], &mut context, 0, None, None, false);
    assert!(is_bool(&r, false));
    let r = board.call_api("get_target_vertical_cord", vec![], &mut context, 0, None, None, false);
    assert!(is_int(&r, 3));
    let r = board.call_api("get_horizontal_cord", vec![], &mut context, 0, None, None, false);
    assert!(is_int(&r, 1));
    let r = board.call_api("is_different", vec!["old_position", "new_position"], &mut context, 0, None, None, false);
    assert!(is_bool(&r, true));
    let r = board.call_api("no_such_call", vec![], &mut context, 0, None, None, false);
    assert!(is_error(&r, "unknown call: no_such_call"));
}

#[test]
fn directions_relative_to_the_moving_piece() {
    let mut board = Board::new();
    let mut black = free_piece("p", "pawn");
    black.owner = Player::Black;
    board.board[1][1] = Some(black);
    board.board[6][6] = Some(free_piece("p", "pawn"));
    let mut context = Dict::new();
    context.insert("old_position".to_string(), "1,1".to_string());
    let r = board.call_api("forward", vec!["pos", "3,1"], &mut context, 0, None, None, false);
    assert!(is_int(&r, 2));
    let r = board.call_api("north", vec!["pos", "3,1"], &mut context, 0, None, None, false);
    assert!(is_int(&r, -2));
    let r = board.call_api("left", vec!["pos", "1,4"], &mut context, 0, None, None, false);
    assert!(is_int(&r, 3));
    let r = board.call_api("west", vec!["pos", "1,4"], &mut context, 0, None, None, false);
    assert!(is_int(&r, -3));
    context.insert("old_position".to_string(), "6,6".to_string());
    let r = board.call_api("forward", vec!["pos", "4,6"], &mut context, 0, None, None, false);
    assert!(is_int(&r, 2));
    context.insert("old_position".to_string(), "5,5".to_string());
    let r = board.call_api("forward", vec!["pos", "4,6"], &mut context, 0, None, None, false);
    assert!(is_error(&r, "No piece at (5, 5) position in forward"));
}

#[test]
fn test_is_same_line_on_fresh_pieces() {
    let (tx, _rx, _tx2, rx2) = channels();
    let mut board = Board::new();
    let pawn = free_piece("pawn", "pawn");
    board.board[6][6] = Some(free_piece("pawn", "pawn"));
    let mut black = pawn;
    black.owner = Player::Black;
    board.board[6][7] = Some(black);
    board.board[7][7] = Some(free_piece("king", "king"));
    let mut context = Dict::new();
    let r = board.call_api("is_same_line", vec!["6,6", "7,7", "owner"], &mut context, 0, Some(&tx), Some(&rx2), false);
    assert!(is_bool(&r, true));
    let r = board.call_api("is_same_line", vec!["6,6", "7,7", "piece"], &mut context, 0, Some(&tx), Some(&rx2), false);
    assert!(is_bool(&r, false));
    let r = board.call_api("is_same_line", vec!["6,6", "6,7", "piece"], &mut context, 0, Some(&tx), Some(&rx2), false);
    assert!(is_bool(&r, true));
    let r = board.call_api("is_same_line", vec!["6,6", "6,7", "owner"], &mut context, 0, Some(&tx), Some(&rx2), false);
    assert!(is_bool(&r, false));
    let r = board.call_api("is_same_line", vec!["6,6", "7,1", "owner"], &mut context, 0, Some(&tx), Some(&rx2), false);
    assert!(is_error(&r, "Positions not on straight line or a square diagonal"));
}

#[test]
fn calls_that_change_the_board() {
    let (tx, _rx, _tx2, rx2) = channels();
    let mut board = Board::new();
    board.board[1][1] = Some(free_piece("rook", "rook"));
    board.board[2][2] = Some(free_piece("rook", "rook"));
    let mut context = Dict::new();
    let r = board.call_api("move_piece", vec!["pos", "1,1", "5,5"], &mut context, 0, None, None, false);
    assert!(is_void(&r));
    assert!(board.board[1][1].is_none() && board.board[5][5].is_some());
    let r = board.call_api("move_piece", vec!["pos", "5,5", "2,2"], &mut context, 0, None, None, false);
    assert!(is_error(&r, "moving a piece to occupied position"));
    let r = board.call_api("remove", vec!["pos", "2,2"], &mut context, 0, None, None, false);
    assert!(is_error(&r, "Cannot evaluate without receiver or sender in remove"));
    let r = board.call_api("remove", vec!["pos", "2,2"], &mut context, 0, Some(&tx), Some(&rx2), false);
    assert!(is_void(&r));
    assert!(board.board[2][2].is_none());
    assert_eq!(board.cementaries.1.len(), 1);
    assert_eq!(board.cementaries.1[0].owner, Player::Black);
    let r = board.call_api("destroy", vec!["pos", "5,5"], &mut context, 0, Some(&tx), Some(&rx2), false);
    assert!(is_void(&r));
    assert!(board.board[5][5].is_none());
    assert_eq!(board.cementaries.1.len(), 1);
}

#[test]
fn memory_calls() {
    let mut board = Board::new();
    let mut piece = Piece::create_from(&free_piece("rook", "rook"), 15);
    piece.memory.insert("count".to_string(), RuleExpression::Integer(2));
    piece.memory.insert("at".to_string(), RuleExpression::Pair(Box::new(RuleExpression::Integer(2)), Box::new(RuleExpression::Integer(4))));
    board.board[1][1] = Some(piece);
    let mut context = Dict::new();
    let r = board.call_api("get_memory", vec!["pos", "1,1", "count"], &mut context, 0, None, None, false);
    assert!(is_int(&r, 2));
    let r = board.call_api("create_var_from_mem", vec!["pos", "1,1", "at", "var1"], &mut context, 0, None, None, false);
    assert!(is_void(&r));
    assert_eq!(context.get("var1").unwrap(), "2,4");
    let r = board.call_api("create_var_from_mem", vec!["id", "15", "count", "var2"], &mut context, 0, None, None, false);
    assert!(is_void(&r));
    assert_eq!(context.get("var2").unwrap(), "2");
    let r = board.call_api("create_var_from_mem", vec!["id", "99", "count", "var3"], &mut context, 0, None, None, false);
    assert!(is_bool(&r, true));
    let r = board.call_api("get_memory", vec!["pos", "2,2", "count"], &mut context, 0, None, None, false);
    assert!(is_error(&r, "no piece at given position in get_piece_var func"));
}

#[test]
fn increase_memory_calls() {
    let mut board = Board::new();
    let mut piece = Piece::create_from(&free_piece("rook", "rook"), 15);
    piece.memory.insert("move_count".to_string(), RuleExpression::Integer(0));
    piece.memory.insert("at".to_string(), RuleExpression::Pair(Box::new(RuleExpression::Integer(2)), Box::new(RuleExpression::Integer(4))));
    board.board[1][1] = Some(piece);
    let mut context = Dict::new();
    context.insert("new_position".to_string(), "1,1".to_string());
    let r = board.call_api("increase_memory", vec!["int", "var", "new_position", "move_count", "13"], &mut context, 0, None, None, false);
    assert!(is_void(&r));
    assert!(is_int(board.board[1][1].as_ref().unwrap().memory.get("move_count").unwrap(), 13));
    let r = board.call_api("increase_memory", vec!["int", "pos", "1,1", "move_count", "-3"], &mut context, 0, None, None, false);
    assert!(is_void(&r));
    assert!(is_int(board.board[1][1].as_ref().unwrap().memory.get("move_count").unwrap(), 10));
    let r = board.call_api("increase_memory", vec!["int", "id", "15", "move_count", "5"], &mut context, 0, None, None, false);
    assert!(is_void(&r));
    assert!(is_int(board.board[1][1].as_ref().unwrap().memory.get("move_count").unwrap(), 15));
    let r = board.call_api("increase_memory", vec!["pair", "pos", "1,1", "at", "1,-1"], &mut context, 0, None, None, false);
    assert!(is_void(&r));
    let r = board.call_api("get_memory", vec!["id", "15", "at"], &mut context, 0, None, None, false);
    assert!(matches!(&r, RuleExpression::Pair(x, y) if is_int(x, 3) && is_int(y, 3)));
    let r = board.call_api("increase_memory", vec!["int", "id", "99", "move_count", "5"], &mut context, 0, None, None, false);
    assert!(is_error(&r, "could not find piece with given id on board"));
    let r = board.call_api("increase_memory", vec!["int", "id", "x", "move_count", "5"], &mut context, 0, None, None, false);
    assert!(is_error(&r, "Not a valid id in increase_memory"));
    let r = board.call_api("increase_memory", vec!["int", "pos", "1,1", "missing", "5"], &mut context, 0, None, None, false);
    assert!(is_error(&r, "Given memory does not exist"));
}

#[test]
fn history_calls() {
    let mut board = Board::new();
    board.add_history(PMove::default_move(), (1, 1), (0, 1));
    let mut context = Dict::new();
    board.call_api("create_var_from_history", vec!["src", "pair", "0", "var1"], &mut context, 0, None, None, false);
    assert_eq!(context.get("var1").unwrap(), "1,1");
    board.call_api("create_var_from_history", vec!["dest", "v", "0", "var2"], &mut context, 0, None, None, false);
    assert_eq!(context.get("var2").unwrap(), "0");
    board.call_api("create_var_from_history", vec!["source", "horizontal", "0", "var3"], &mut context, 0, None, None, false);
    assert_eq!(context.get("var3").unwrap(), "1");
    let r = board.call_api("history", vec!["dst", "0", "h"], &mut context, 0, None, None, false);
    assert!(is_int(&r, 1));
    let r = board.call_api("history", vec!["dst", "1"], &mut context, 0, None, None, false);
    assert!(is_error(&r, "error with taking entry from history in history"));
}

#[test]
fn a_move_is_made_and_recorded() {
    let (tx, _rx, _tx2, rx2) = channels();
    let mut board = Board::new();
    board.board[1][1] = Some(free_piece("rook", "rook"));
    let mv = PMove { condition: Box::new(RuleExpression::Boolean(true)), consequences: None };
    let r = board.make_move((1, 1), (3, 1), mv, &tx, &rx2, true, false);
    assert_eq!(r, Ok(GameState::Continue));
    assert!(board.board[1][1].is_none() && board.board[3][1].is_some());
    assert_eq!(board.current_player, Player::Black);
    assert_eq!(board.get_history(0).unwrap().1, ((1, 1), (3, 1)));
}

#[test]
fn a_refused_move_leaves_the_board() {
    let (tx, _rx, _tx2, rx2) = channels();
    let mut board = Board::new();
    board.board[1][1] = Some(free_piece("rook", "rook"));
    let mv = PMove::default_move();
    let r = board.make_move((1, 1), (3, 1), mv, &tx, &rx2, true, false);
    assert_eq!(r, Err("Cannot perform move".to_string()));
    assert!(board.board[1][1].is_some() && board.board[3][1].is_none());
    assert_eq!(board.current_player, Player::White);
    let r = board.make_move((4, 4), (3, 1), PMove::default_move(), &tx, &rx2, true, false);
    assert_eq!(r, Err("Piece doesn't exist".to_string()));
    let r = board.make_move((9, 4), (3, 1), PMove::default_move(), &tx, &rx2, true, false);
    assert_eq!(r, Err("Out of board".to_string()));
}

#[test]
fn a_capture_fills_the_cementary() {
    let (tx, _rx, _tx2, rx2) = channels();
    let mut board = Board::new();
    board.board[1][1] = Some(free_piece("rook", "rook"));
    let mut black = free_piece("rook", "rook");
    black.owner = Player::Black;
    board.board[3][1] = Some(black);
    let mv = PMove { condition: Box::new(RuleExpression::Boolean(true)), consequences: None };
    let r = board.make_move((1, 1), (3, 1), mv, &tx, &rx2, false, false);
    assert_eq!(r, Ok(GameState::Continue));
    assert_eq!(board.cementaries.0.len(), 1);
    assert_eq!(board.cementaries.0[0].owner, Player::White);
    assert_eq!(board.board[3][1].as_ref().unwrap().owner, Player::White);
}

#[test]
fn a_piece_comes_back_from_its_cementary() {
    let (tx, _rx, _tx2, rx2) = channels();
    let mut board = Board::new();
    board.revive = RuleExpression::Boolean(true);
    board.cementaries.0.push(free_piece("rook", "rook"));
    let r = board.revive_piece(true, 0, (2, 2), &tx, &rx2, false);
    assert_eq!(r, Ok(GameState::Continue));
    assert!(board.board[2][2].is_some());
    assert_eq!(board.cementaries.0.len(), 0);
    let r = board.revive_piece(true, 0, (2, 3), &tx, &rx2, false);
    assert_eq!(r, Err("no piece at that cementary index".to_string()));
    board.revive = RuleExpression::Boolean(false);
    let r = board.revive_piece(true, 0, (2, 3), &tx, &rx2, false);
    assert_eq!(r, Err("Cannot revive".to_string()));
}

#[test]
fn the_game_ends_when_a_rule_holds() {
    let mut board = Board::new();
    let mut context = Dict::new();
    assert_eq!(board.get_game_state(&mut context), Ok(GameState::Continue));
    assert_eq!(board.current_player, Player::Black);
    board.endcondition = None;
    board.wincondition.1 = RuleExpression::Boolean(true);
    assert_eq!(board.get_game_state(&mut context), Ok(GameState::BlackWins));
    board.wincondition.0 = RuleExpression::Boolean(true);
    assert_eq!(board.get_game_state(&mut context), Ok(GameState::Draw));
}

#[test]
fn no_piece_with_the_id_is_mated() {
    let mut board = Board::new();
    assert!(is_bool(&board.check_mate(Player::White, 7), true));
    board.board[0][0] = Some(Piece::create_from(&free_piece("king", "king"), 7));
    assert!(is_bool(&board.check_mate(Player::White, 7), false));
}

#[test]
fn stored_values_are_written_as_the_context_reads_them() {
    assert_eq!(RuleExpression::Integer(-3).string2(), "-3");
    assert_eq!(RuleExpression::Boolean(false).string2(), "false");
    let p = RuleExpression::Pair(Box::new(RuleExpression::Integer(2)), Box::new(RuleExpression::Integer(4)));
    assert_eq!(p.string2(), "2,4");
}

#[test]
fn catalogues() {
    let calls = boardgames::catalog::default_calls();
    assert_eq!(calls.get("is_type").unwrap().0, 3);
    assert_eq!(calls.get("change_type").unwrap().0, u32::MAX);
    assert!(calls.get("remove").is_none());
    let kinds = RuleExpression::list();
    assert_eq!(kinds.get("If").unwrap().0, 3);
}

#[test]
fn boards_and_pieces_are_written() {
    let mut board = Board::new();
    board.size = (2, 2);
    board.board = vec![vec![None, None], vec![None, None]];
    let mut black = free_piece("rook", "rook");
    black.owner = Player::Black;
    board.board[0][1] = Some(black);
    board.board[1][0] = Some(free_piece("knight", "knight"));
    assert_eq!(board.to_string(), ". R\nk .");
}

#[test]
fn rule_trees_are_built_and_shown() {
    let mut root = RuleState::Empty;
    add_node(&mut root, vec![], 0, RuleState::Open { name: "Pair".to_string(), children: vec![], size: 2 });
    add_node(&mut root, vec![0], 0, RuleState::Closed(RuleExpression::Integer(1)));
    assert_eq!(print_rule_state(root_copy(&root)), "Pair(Integer(1),empty)");
    add_node(&mut root, vec![1], 0, RuleState::Open { name: "And".to_string(), children: vec![], size: -1 });
    assert_eq!(print_rule_state(root_copy(&root)), "Pair(Integer(1),And(additional RuleExpressions can be added))");
    pop_node(&mut root, vec![1], 0);
    assert_eq!(print_rule_state(root_copy(&root)), "Pair(Integer(1),empty)");
    swap_node(&mut root, vec![], 0, RuleState::Closed(RuleExpression::Void));
    assert_eq!(print_rule_state(root), "Void");
    assert_eq!(print_rule_state(RuleState::Empty), "Empty rule");
}

fn root_copy(s: &RuleState) -> RuleState {
    match s {
        RuleState::Closed(e) => RuleState::Closed(e.duplicate()),
        RuleState::Empty => RuleState::Empty,
        RuleState::Open { name, children, size } => RuleState::Open {
            name: name.clone(),
            children: children.iter().map(root_copy).collect(),
            size: *size,
        },
    }
}

#[test]
fn modes_are_named() {
    assert_eq!(Mode::InitPieces.to_string(), "initpieces");
    assert_eq!(Mode::CreateBoard.to_string(), "createboard");
}

#[test]
fn a_session_sets_up_a_board() {
    let (tx, rx) = channel();
    let (_tx2, rx2) = channel::<String>();
    let (_tx3, rx3) = channel::<String>();
    let mut game = Game::new(rx2, tx, rx3, true);
    assert!(matches!(game.handle_message("hello".to_string()), Request::Nothing));
    assert_eq!(game.current_mode, Mode::InitBoard);
    assert!(matches!(game.handle_message("default".to_string()), Request::Nothing));
    assert_eq!(game.current_mode, Mode::InitPieces);
    assert!(matches!(game.handle_message("load pieces.json".to_string()), Request::LoadPieceFile(f) if f == "pieces.json"));
    game.finish_piece_load(Ok(free_piece("rook", "rook")), Some("pieces.json".to_string()));
    assert!(matches!(game.handle_message("continue".to_string()), Request::Nothing));
    assert_eq!(game.current_mode, Mode::PlacePieces);
    game.handle_message("place rook 1,1 Black".to_string());
    let b = game.board.as_ref().unwrap();
    assert_eq!(b.board[1][1].as_ref().unwrap().owner, Player::Black);
    assert!(matches!(b.board[1][1].as_ref().unwrap().memory.get("id"), Some(RuleExpression::Integer(9))));
    assert!(matches!(game.handle_message("end".to_string()), Request::Quit));
    let mut replies = 0;
    while let Ok(_) = rx.try_recv() {
        replies += 1;
    }
    assert!(replies > 0);
}

fn with_id(mut p: Piece, id: i32) -> Piece {
    p.memory.insert("id".to_string(), RuleExpression::Integer(id));
    p
}

#[test]
fn ids_must_be_present_and_distinct() {
    let mut board = Board::new();
    assert!(board.check_ids());
    board.board[0][0] = Some(with_id(free_piece("rook", "rook"), 1));
    board.cementaries.1.push(with_id(free_piece("pawn", "pawn"), 2));
    assert!(board.check_ids());
    board.board[7][7] = Some(with_id(free_piece("rook", "rook"), 2));
    assert!(!board.check_ids());
    board.board[7][7] = Some(free_piece("rook", "rook"));
    assert!(!board.check_ids());
    board.board[7][7] = Some(with_id(free_piece("rook", "rook"), 3));
    assert!(board.check_ids());
}

fn placement(kind: &str, owner: &str, id: i32) -> Option<(String, String, i32)> {
    Some((kind.to_string(), owner.to_string(), id))
}

fn board_with_rook_kind() -> Board {
    let mut board = Board::new();
    board.register_piece(free_piece("rook", "rook"));
    board
}

#[test]
fn a_board_file_lays_out_squares_and_cementaries() {
    let grid = vec![
        vec![placement("rook", "Black", 1), None, placement("queen", "White", 9)],
        vec![None, placement("rook", "Green", 4), placement("rook", "White", 2)],
    ];
    let cementaries = vec![placement("rook", "White", 3), None, placement("rook", "Black", 5)];
    let b = board_with_rook_kind().lay_out(Some(grid), Some(cementaries)).ok().unwrap();
    assert_eq!(b.board.len(), 2);
    assert_eq!(b.board[0].len(), 3);
    let corner = b.board[0][0].as_ref().unwrap();
    assert_eq!(corner.owner, Player::Black);
    assert!(is_int(corner.memory.get("id").unwrap(), 1));
    assert!(b.board[0][1].is_none());
    assert!(b.board[0][2].is_none());
    assert!(b.board[1][1].is_none());
    assert_eq!(b.board[1][2].as_ref().unwrap().owner, Player::White);
    assert_eq!(b.cementaries.0.len(), 1);
    assert_eq!(b.cementaries.1.len(), 1);
    assert!(is_int(b.cementaries.1[0].memory.get("id").unwrap(), 5));
}

#[test]
fn a_board_file_with_a_bad_cementary_is_refused() {
    let unknown = board_with_rook_kind().lay_out(None, Some(vec![placement("king", "White", 1)]));
    assert_eq!(unknown.err(), Some("no king defined in board".to_string()));
    let owner = board_with_rook_kind().lay_out(None, Some(vec![placement("rook", "Red", 1)]));
    assert_eq!(owner.err(), Some("cannot set owner".to_string()));
}

#[test]
fn a_laid_out_board_is_validated_by_its_ids() {
    let b = board_with_rook_kind();
    assert!(b.covers_size());
    let twice = b
        .lay_out(None, Some(vec![placement("rook", "White", 1), placement("rook", "Black", 1)]))
        .ok()
        .unwrap();
    assert_eq!(twice.validated().err(), Some("ids not distinct".to_string()));
    let once = board_with_rook_kind()
        .lay_out(None, Some(vec![placement("rook", "White", 1), placement("rook", "Black", 2)]))
        .ok()
        .unwrap();
    assert!(once.validated().is_ok());
    let mut small = Board::new();
    small.board.pop();
    assert!(!small.covers_size());
}

fn call(name: &str, args: &[&str]) -> RuleExpression {
    RuleExpression::ApiCall(name.to_string(), args.iter().map(|a| a.to_string()).collect())
}

/// A knight: it jumps two squares one way and one the other, onto an empty or an enemy square.
fn knight() -> Piece {
    let mut p = Piece::defualt_piece();
    p.id = "knight".to_string();
    p.name = "knight".to_string();
    let jump = |a: i32, b: i32| {
        RuleExpression::Equals(
            Box::new(RuleExpression::Pair(
                Box::new(call("north", &["var", "new_position"])),
                Box::new(call("west", &["var", "new_position"])),
            )),
            Box::new(RuleExpression::Pair(Box::new(RuleExpression::Integer(a)), Box::new(RuleExpression::Integer(b)))),
        )
    };
    let jumps = [(1, 2), (2, 1), (-1, 2), (-2, 1), (1, -2), (2, -1), (-1, -2), (-2, -1)]
        .iter()
        .map(|&(a, b)| jump(a, b))
        .collect();
    let free = RuleExpression::Or(vec![call("is_empty", &["var", "new_position"]), call("is_opponent", &["var", "new_position"])]);
    p.possiblemoves.push(PMove { condition: Box::new(RuleExpression::And(vec![RuleExpression::Or(jumps), free])), consequences: None });
    p
}

#[test]
fn knight_moves_without_friendly_fire() {
    let mut board = Board::new();
    board.board[3][2] = Some(knight());
    let positions = board.get_possible_positions((3, 2), 0).unwrap();
    assert_eq!(positions, vec![(1, 1), (1, 3), (2, 0), (2, 4), (4, 0), (4, 4), (5, 1), (5, 3)]);
    board.board[5][3] = Some(knight());
    let positions = board.get_possible_positions((3, 2), 0).unwrap();
    assert_eq!(positions.len(), 7);
    assert!(!positions.contains(&(5, 3)));
    let mut enemy = knight();
    enemy.owner = Player::Black;
    board.board[5][3] = Some(enemy);
    let moves = board.get_possible_moves((3, 2), 0).unwrap();
    assert_eq!(moves.len(), 8);
    assert_eq!(moves[7].0, (5, 3));
    assert!(board.get_possible_moves((0, 0), 0).is_none());
}

#[test]
fn a_knight_attacks_the_squares_it_jumps_to() {
    let mut board = Board::new();
    board.board[3][2] = Some(knight());
    assert_eq!(board.get_attackers((1, 1), 0), Some(vec![(3, 2)]));
    assert_eq!(board.get_attackers((3, 3), 0), None);
    assert!(board.is_attacked((5, 3), 0));
    assert!(!board.is_attacked((7, 7), 0));
    let moves = board.get_moves_to((3, 2), (1, 1), 0).unwrap();
    assert_eq!(moves.len(), 1);
    assert!(board.get_moves_to((3, 2), (3, 3), 0).is_none());
}

/// A king: it steps one square any way, onto an empty or an enemy square.
fn king() -> Piece {
    let mut p = Piece::defualt_piece();
    p.id = "king".to_string();
    p.name = "king".to_string();
    let step = |a: i32, b: i32| {
        RuleExpression::Equals(
            Box::new(RuleExpression::Pair(
                Box::new(call("north", &["var", "new_position"])),
                Box::new(call("west", &["var", "new_position"])),
            )),
            Box::new(RuleExpression::Pair(Box::new(RuleExpression::Integer(a)), Box::new(RuleExpression::Integer(b)))),
        )
    };
    let steps = [(1, 1), (1, 0), (1, -1), (0, 1), (0, -1), (-1, 1), (-1, 0), (-1, -1)]
        .iter()
        .map(|&(a, b)| step(a, b))
        .collect();
    let free = RuleExpression::Or(vec![call("is_empty", &["var", "new_position"]), call("is_opponent", &["var", "new_position"])]);
    p.possiblemoves.push(PMove { condition: Box::new(RuleExpression::And(vec![RuleExpression::Or(steps), free])), consequences: None });
    p
}

fn black_free_piece() -> Piece {
    let mut p = free_piece("queen", "queen");
    p.owner = Player::Black;
    p
}

#[test]
fn a_cornered_king_is_mated() {
    let mut board = Board::new();
    board.board[0][0] = Some(with_id(king(), 1));
    board.board[7][7] = Some(with_id(black_free_piece(), 2));
    board.board[7][6] = Some(with_id(black_free_piece(), 3));
    assert!(is_bool(&board.check_mate(Player::White, 1), true));
}

#[test]
fn a_king_escapes_by_capturing() {
    let mut board = Board::new();
    board.board[0][0] = Some(with_id(king(), 1));
    board.board[1][1] = Some(with_id(black_free_piece(), 2));
    assert!(is_bool(&board.check_mate(Player::White, 1), false));
    let mut quiet = Board::new();
    quiet.board[0][0] = Some(with_id(king(), 1));
    assert!(is_bool(&quiet.check_mate(Player::White, 1), false));
}

fn read_var(board: &mut Board, context: &mut Dict<String>, name: &str) -> RuleExpression {
    RuleExpression::Variable(name.to_string()).evaluate(board, context, 0, None, None, false)
}

#[test]
fn stored_values_read_back_as_themselves() {
    let mut board = Board::new();
    let mut context = Dict::new();
    let pair = RuleExpression::Pair(Box::new(RuleExpression::Integer(3)), Box::new(RuleExpression::Integer(-8)));
    context.insert("p".to_string(), pair.string2());
    context.insert("n".to_string(), RuleExpression::Integer(-38).string2());
    context.insert("b".to_string(), RuleExpression::Boolean(true).string2());
    let p = read_var(&mut board, &mut context, "p");
    assert!(matches!(p, RuleExpression::Pair(ref a, ref b) if is_int(a, 3) && is_int(b, -8)));
    assert!(is_int(&read_var(&mut board, &mut context, "n"), -38));
    assert!(is_bool(&read_var(&mut board, &mut context, "b"), true));
}

#[test]
fn cloned_and_increased_variables_read_back() {
    let mut board = Board::new();
    let mut context = Dict::new();
    context.insert("a".to_string(), "7".to_string());
    context.insert("q".to_string(), "6,10".to_string());
    board.call_api("clone", vec!["a", "b"], &mut context, 0, None, None, false);
    assert!(is_int(&read_var(&mut board, &mut context, "b"), 7));
    board.call_api("increase_var", vec!["int", "b", "-9"], &mut context, 0, None, None, false);
    assert!(is_int(&read_var(&mut board, &mut context, "b"), -2));
    board.call_api("increase_var", vec!["pair", "q", "3,-8"], &mut context, 0, None, None, false);
    let q = read_var(&mut board, &mut context, "q");
    assert!(matches!(q, RuleExpression::Pair(ref a, ref b) if is_int(a, 9) && is_int(b, 2)));
}

#[test]
fn what_a_knight_can_take() {
    let mut board = Board::new();
    board.board[3][2] = Some(knight());
    let mut enemy = knight();
    enemy.owner = Player::Black;
    board.board[1][1] = Some(enemy);
    board.board[5][3] = Some(knight());
    assert_eq!(board.get_attacked((3, 2), 0), Some(vec![(1, 1)]));
    assert_eq!(board.get_attacked_player((3, 2), true, 0), Some(vec![]));
    assert_eq!(board.get_attacked_player((3, 2), false, 0), Some(vec![(1, 1)]));
    assert_eq!(board.get_attacked((0, 0), 0), None);
    assert!(board.can_attack((3, 2), 0));
    assert!(!board.can_attack((0, 0), 0));
    assert!(!board.can_attack_player((1, 1), true, 0));
    let mut lone = Board::new();
    lone.board[0][0] = Some(Piece::defualt_piece());
    assert!(!lone.can_attack((0, 0), 0));
    assert_eq!(board.get_attackers_player((1, 1), Player::Black, 0), Some(vec![(3, 2)]));
    assert_eq!(board.get_attackers_player((1, 1), Player::White, 0), None);
}

#[test]
fn a_piece_changes_sides() {
    let mut p = free_piece("rook", "rook");
    p.switch_owner();
    assert_eq!(p.owner, Player::Black);
    p.switch_owner();
    assert_eq!(p.owner, Player::White);
}

#[test]
fn pairs_are_read_from_arguments() {
    let mut board = Board::new();
    let mut context = Dict::new();
    context.insert("d".to_string(), "-2,5".to_string());
    assert_eq!(board.match_and_get_pair(vec!["pos", "3,-4"], &mut context), Some((3, -4)));
    assert_eq!(board.match_and_get_pair(vec!["var", "d"], &mut context), Some((-2, 5)));
    assert_eq!(board.match_and_get_pair(vec!["var", "missing"], &mut context), None);
}

#[test]
fn a_piece_changes_kind_by_dialog() {
    let (tx, rx, tx2, rx2) = channels();
    let mut board = Board::new();
    board.register_piece(free_piece("queen", "queen"));
    board.register_piece(free_piece("rook", "rook"));
    board.board[7][0] = Some(with_id(free_piece("pawn", "pawn"), 5));
    let mut context = Dict::new();
    context.insert("new_position".to_string(), "7,0".to_string());
    tx2.send("king".to_string()).unwrap();
    tx2.send(" rook ".to_string()).unwrap();
    let r = board.call_api("change_type", vec!["queen", "rook", "king"], &mut context, 0, Some(&tx), Some(&rx2), false);
    assert!(is_void(&r));
    assert_eq!(rx.recv().unwrap(), Some("Change to one of available types: [\"queen\", \"rook\"]".to_string()));
    assert_eq!(rx.recv().unwrap(), None);
    assert_eq!(rx.recv().unwrap(), Some("Can't change to: \"king\"".to_string()));
    let changed = board.board[7][0].as_ref().unwrap();
    assert_eq!(changed.id, "rook");
    assert!(is_int(changed.memory.get("id").unwrap(), 5));
    let none = board.call_api("change_type", vec!["king"], &mut context, 0, Some(&tx), Some(&rx2), false);
    assert!(is_error(&none, "No pieces available to change to. Perhaps the listed pieces are not loaded in board."));
}

#[test]
fn memory_and_cementaries_are_shown() {
    let p = with_id(free_piece("rook", "rook"), 1);
    assert_eq!(boardgames::game::write_memory(&p.memory), "{\"id\": Integer(1)}");
    let (tx, rx) = channel();
    let (_tx2, rx2) = channel::<String>();
    let (_tx3, rx3) = channel::<String>();
    let mut game = Game::new(rx2, tx, rx3, true);
    let mut board = Board::new();
    board.cementaries.0.push(with_id(free_piece("rook", "rook"), -64));
    game.board = Some(board);
    game.current_mode = Mode::PlacePieces;
    game.handle_message("show cementary white".to_string());
    assert_eq!(rx.recv().unwrap(), Some("[\"rook\"]".to_string()));
    assert_eq!(rx.recv().unwrap(), None);
    game.handle_message("show".to_string());
    let mut lines = Vec::new();
    while let Some(line) = rx.recv().unwrap() {
        lines.push(line);
    }
    assert_eq!(lines.len(), 10);
    assert_eq!(lines[9], "black: ");
    assert_eq!(lines[8], "white: (rook,-64)");
}

#[test]
fn listed_squares_are_those_with_a_move() {
    let mut board = Board::new();
    board.board[3][2] = Some(knight());
    board.board[5][3] = Some(knight());
    let positions = board.get_possible_positions((3, 2), 0).unwrap();
    for x in 0..8u32 {
        for y in 0..8u32 {
            let has_move = board.get_moves_to((3, 2), (x, y), 0).is_some();
            assert_eq!(positions.contains(&(x, y)), has_move);
        }
    }
}

#[test]
fn an_unknown_place_word_names_no_square() {
    let mut board = Board::new();
    let mut context = Dict::new();
    assert_eq!(board.match_and_get_valid_position(vec!["somewhere"], &mut context), None);
    assert_eq!(board.match_and_get_valid_position(vec!["pos", "2,3"], &mut context), Some((2, 3)));
    assert_eq!(board.match_and_get_pair(vec!["somewhere"], &mut context), None);
}

#[test]
fn a_board_file_text_is_laid_out() {
    let json = r#"{"size": [8, 8], "initialboard": [[["rook", "Black", 1], null], [null, ["rook", "White", 4]]],
                   "initialcementaries": [["rook", "White", 2], null]}"#;
    let (grid, cementaries) = boardgames::json::read_layout(json);
    assert_eq!(grid.as_ref().unwrap().len(), 2);
    assert_eq!(cementaries.as_ref().unwrap().len(), 2);
    let b = board_with_rook_kind().lay_out_json(json).ok().unwrap();
    assert_eq!(b.board.len(), 2);
    assert_eq!(b.board[0][0].as_ref().unwrap().owner, Player::Black);
    assert!(b.board[0][1].is_none());
    assert!(is_int(b.board[1][1].as_ref().unwrap().memory.get("id").unwrap(), 4));
    assert_eq!(b.cementaries.0.len(), 1);
    let plain = board_with_rook_kind().lay_out_json(r#"{"size": [8, 8]}"#).ok().unwrap();
    assert_eq!(plain.board.len(), 8);
    let wrong = board_with_rook_kind().lay_out_json(r#"{"initialcementaries": [["pawn", "White", 2]]}"#);
    assert_eq!(wrong.err(), Some("no pawn defined in board".to_string()));
    assert_eq!(boardgames::json::read_layout("not json").0, None);
}

#[test]
fn debug_text_of_rules() {
    let r = RuleExpression::And(vec![
        RuleExpression::Boolean(true),
        RuleExpression::Not(Box::new(RuleExpression::Integer(-3))),
        RuleExpression::ApiCall("is_empty".to_string(), vec!["pos".to_string(), "1,1".to_string()]),
        RuleExpression::Error("bad \"x\"".to_string()),
    ]);
    assert_eq!(
        r.string2(),
        "And([Boolean(true), Not(Integer(-3)), ApiCall(\"is_empty\", [\"pos\", \"1,1\"]), Err(\"bad \\\"x\\\"\")])"
    );
    let p = RuleExpression::If(
        Box::new(RuleExpression::Variable("v".to_string())),
        Box::new(RuleExpression::Void),
        Box::new(RuleExpression::Or(vec![])),
    );
    assert_eq!(p.string2(), "If(Variable(\"v\"), Void, Or([]))");
}

#[test]
fn written_pairs_read_back() {
    for (x, y) in [(0i32, 0i32), (-5, 17), (i32::MIN, i32::MAX), (123, -456)] {
        assert_eq!(parse_pair_text(pair_to_text(x as i64, y as i64).as_str()), Some((x, y)));
    }
    for (x, y) in [(0u32, 0u32), (7, 12), (u32::MAX, 1)] {
        assert_eq!(parse_position_text(pair_to_text(x as i64, y as i64).as_str()), Some((x, y)));
    }
}

#[test]
fn path_blocked_both_ways() {
    let mut board = Board::new();
    board.board[3][3] = Some(Piece::defualt_piece());
    assert!(board.is_path_blocked((1, 1), (5, 5)));
    assert!(board.is_path_blocked((5, 5), (1, 1)));
    assert!(!board.is_path_blocked((1, 2), (5, 2)));
    assert!(!board.is_path_blocked((5, 2), (1, 2)));
    board.board[3][2] = Some(Piece::defualt_piece());
    assert!(board.is_path_blocked((1, 2), (5, 2)));
    assert!(board.is_path_blocked((5, 2), (1, 2)));
}

#[test]
fn negation_of_a_board_call() {
    let mut board = Board::new();
    board.board[1][1] = Some(Piece::defualt_piece());
    let mut context = Dict::new();
    let e = RuleExpression::Not(Box::new(RuleExpression::ApiCall("is_empty".to_string(), vec!["pos".to_string(), "1,1".to_string()])));
    assert!(is_bool(&e.evaluate(&mut board, &mut context, 0, None, None, false), true));
    let e = RuleExpression::Not(Box::new(RuleExpression::Not(Box::new(RuleExpression::ApiCall("is_empty".to_string(), vec!["pos".to_string(), "2,2".to_string()])))));
    assert!(is_bool(&e.evaluate(&mut board, &mut context, 0, None, None, false), true));
    let e = RuleExpression::And(vec![
        RuleExpression::ApiCall("is_empty".to_string(), vec!["pos".to_string(), "2,2".to_string()]),
        RuleExpression::ApiCall("is_empty".to_string(), vec!["pos".to_string(), "1,1".to_string()]),
    ]);
    assert!(is_bool(&e.evaluate(&mut board, &mut context, 0, None, None, false), false));
    let e = RuleExpression::If(
        Box::new(RuleExpression::ApiCall("is_empty".to_string(), vec!["pos".to_string(), "1,1".to_string()])),
        Box::new(RuleExpression::Integer(1)),
        Box::new(RuleExpression::Integer(2)),
    );
    assert!(is_int(&e.evaluate(&mut board, &mut context, 0, None, None, false), 2));
}

#[test]
fn typed_move_is_played() {
    let (tx, _rx) = channel();
    let (_tx2, rx2) = channel::<String>();
    let (_tx3, rx3) = channel::<String>();
    let mut game = Game::new(rx2, tx, rx3, true);
    let mut board = Board::new();
    board.board[1][1] = Some(free_piece("rook", "rook"));
    game.board = Some(board);
    game.current_mode = Mode::Playing;
    let mode = game.handle_playing("move 1,1 3,2".to_string());
    assert_eq!(mode, Mode::Playing);
    let b = game.board.as_ref().unwrap();
    assert!(b.board[1][1].is_none());
    assert!(b.board[3][2].is_some());
    assert_eq!(b.history.len(), 1);
    let mut ended = Board::new();
    ended.board[1][1] = Some(free_piece("rook", "rook"));
    ended.endcondition = Some(RuleExpression::Boolean(true));
    ended.wincondition = (RuleExpression::Boolean(true), RuleExpression::Boolean(false));
    game.board = Some(ended);
    assert_eq!(game.handle_playing("move 1,1 2,2".to_string()), Mode::Finished);
}

#[test]
fn typed_move_with_extra_spaces() {
    let (tx, _rx) = channel();
    let (_tx2, rx2) = channel::<String>();
    let (_tx3, rx3) = channel::<String>();
    let mut game = Game::new(rx2, tx, rx3, true);
    let mut board = Board::new();
    board.board[1][1] = Some(free_piece("rook", "rook"));
    game.board = Some(board);
    assert_eq!(game.handle_playing("move   1,1 \t 4,4  ".to_string()), Mode::Playing);
    assert!(game.board.as_ref().unwrap().board[4][4].is_some());
    assert!(game.board.as_ref().unwrap().board[1][1].is_none());
}

#[test]
fn playing_replies() {
    let (tx, rx) = channel();
    let (_tx2, rx2) = channel::<String>();
    let (_tx3, rx3) = channel::<String>();
    let mut game = Game::new(rx2, tx, rx3, true);
    game.board = Some(Board::new());
    assert_eq!(game.handle_playing("move 1,1".to_string()), Mode::Playing);
    assert_eq!(rx.try_recv().unwrap(), Some("Wrong input.\n move [start position] [end position]".to_string()));
    assert_eq!(rx.try_recv().unwrap(), None);
    assert_eq!(game.handle_playing("end".to_string()), Mode::Finished);
    assert_eq!(rx.try_recv().unwrap(), Some("Game ended.".to_string()));
    assert_eq!(rx.try_recv().unwrap(), Some("Thank you for playing!".to_string()));
    assert_eq!(rx.try_recv().unwrap(), None);
}

#[test]
fn piece_creator_commands() {
    let mut p = Piece::defualt_piece();
    assert!(matches!(piece_command(&mut p, "set id  knight "), PieceCommand::Reply(v) if v == vec!["set id to knight".to_string()]));
    assert_eq!(p.id, "knight");
    assert!(matches!(piece_command(&mut p, "set name a b"), PieceCommand::Reply(v) if v == vec!["wrong number of args expected 1 got 2".to_string()]));
    assert!(matches!(piece_command(&mut p, "show id"), PieceCommand::Reply(v) if v == vec!["knight".to_string()]));
    assert!(matches!(piece_command(&mut p, "show movecondition"), PieceCommand::Reply(v) if v == vec!["None".to_string()]));
    assert!(matches!(piece_command(&mut p, "fly"), PieceCommand::Reply(v) if v == vec!["unknown command".to_string()]));
    assert!(matches!(piece_command(&mut p, "help"), PieceCommand::Reply(v) if v.len() == 25));
    assert!(matches!(piece_command(&mut p, "export"), PieceCommand::Export));
    assert!(matches!(piece_command(&mut p, "add move"), PieceCommand::Other));
    assert!(matches!(piece_command(&mut p, "cancel"), PieceCommand::Leave));
}

#[test]
fn board_calling_conditions_decide() {
    let (tx, _rx, _tx2, rx2) = channels();
    let mut board = Board::new();
    let mut p = Piece::defualt_piece();
    p.possiblemoves.push(PMove {
        condition: Box::new(RuleExpression::ApiCall("is_empty".to_string(), vec!["var".to_string(), "new_position".to_string()])),
        consequences: None,
    });
    board.board[1][1] = Some(p);
    board.board[2][2] = Some(Piece::defualt_piece());
    let m = PMove {
        condition: Box::new(RuleExpression::ApiCall("is_empty".to_string(), vec!["var".to_string(), "new_position".to_string()])),
        consequences: None,
    };
    let r = board.make_move((1, 1), (2, 2), m, &tx, &rx2, false, false);
    assert!(matches!(r, Err(ref e) if e == "Cannot perform move"));
    assert!(board.board[1][1].is_some());
    assert!(board.board[2][2].is_some());
    assert_eq!(board.get_possible_positions((1, 1), 0).unwrap().len(), 62);
    assert!(board.is_attacked((3, 3), 0));
    assert!(!board.is_attacked((2, 2), 0));
    board.revive = RuleExpression::ApiCall("is_empty".to_string(), vec!["var".to_string(), "new_position".to_string()]);
    let r = board.revive_piece(true, 5, (4, 4), &tx, &rx2, false);
    assert!(matches!(r, Err(ref e) if e == "no piece at that cementary index"));
    let r = board.revive_piece(true, 0, (2, 2), &tx, &rx2, false);
    assert!(matches!(r, Err(ref e) if e == "Cannot revive"));
}

#[test]
fn a_boolean_answer_builds_its_value() {
    assert_eq!(boardgames::creator::boolean_reply("true"), Some(true));
    assert_eq!(boardgames::creator::boolean_reply("false"), Some(false));
    assert_eq!(boardgames::creator::boolean_reply("True"), None);
    assert_eq!(boardgames::creator::boolean_reply("help"), None);
}

#[test]
fn an_integer_answer_builds_its_value() {
    assert_eq!(boardgames::creator::integer_reply("-42"), Some(-42));
    assert_eq!(boardgames::creator::integer_reply("+7"), Some(7));
    assert_eq!(boardgames::creator::integer_reply("4x"), None);
    assert_eq!(boardgames::creator::integer_reply("status"), None);
}

#[test]
fn a_variable_answer_names_the_variable() {
    assert_eq!(boardgames::creator::variable_reply("new_position"), Some("new_position".to_string()));
    assert_eq!(boardgames::creator::variable_reply("cancel"), None);
    assert_eq!(boardgames::creator::variable_reply("getstatus"), None);
}

#[test]
fn a_call_answer_is_checked_against_the_catalogue() {
    let calls = boardgames::catalog::default_calls();
    match boardgames::creator::call_reply("  is_empty var new_position ", &calls) {
        Ok(RuleExpression::ApiCall(name, args)) => {
            assert_eq!(name, "is_empty");
            assert_eq!(args, vec!["var".to_string(), "new_position".to_string()]);
        },
        _ => panic!("expected a call"),
    }
    match boardgames::creator::call_reply("get_vertical_cord", &calls) {
        Ok(RuleExpression::ApiCall(name, args)) => {
            assert_eq!(name, "get_vertical_cord");
            assert!(args.is_empty());
        },
        _ => panic!("expected a call"),
    }
    assert!(matches!(boardgames::creator::call_reply("is_empty var", &calls), Err(e) if e == "Wrong number of arguments"));
    assert!(matches!(boardgames::creator::call_reply("   ", &calls), Err(e) if e == "Wrong number of arguments"));
    assert!(matches!(boardgames::creator::call_reply("fly away", &calls), Err(e) if e == "No such call"));
    assert!(matches!(boardgames::creator::call_reply("change_type a b c d", &calls), Ok(RuleExpression::ApiCall(_, a)) if a.len() == 4));
}

#[test]
fn the_rule_menu_reads_its_numbers() {
    assert_eq!(boardgames::creator::menu_choice("1"), Some(1));
    assert_eq!(boardgames::creator::menu_choice("13"), Some(13));
    assert_eq!(boardgames::creator::menu_choice("15"), Some(15));
    assert_eq!(boardgames::creator::menu_choice("16"), None);
    assert_eq!(boardgames::creator::menu_choice("01"), None);
}

#[test]
fn a_search_step_answers_by_its_outcome() {
    assert!(matches!(escape_verdict(true, false, true, true, true), Some(RuleExpression::Boolean(true))));
    assert!(escape_verdict(false, true, true, false, false).is_none());
    assert!(escape_verdict(false, false, false, false, true).is_none());
    assert!(matches!(escape_verdict(false, false, true, false, true), Some(RuleExpression::Boolean(false))));
    assert!(matches!(escape_verdict(false, false, true, true, true), Some(RuleExpression::Error(e)) if e == "Timeout"));
    assert!(escape_verdict(false, false, true, true, false).is_none());
}

fn reply_lines(rx: &Receiver<Option<String>>) -> Vec<String> {
    let mut out = Vec::new();
    while let Ok(Some(line)) = rx.try_recv() {
        out.push(line);
    }
    out
}

#[test]
fn choosing_a_board_replies() {
    let (tx, rx) = channel();
    let (_tx2, rx2) = channel::<String>();
    let (_tx3, rx3) = channel::<String>();
    let mut game = Game::new(rx2, tx, rx3, true);
    let (mode, req) = game.handle_init_board("help".to_string());
    assert_eq!(mode, Mode::InitBoard);
    assert!(matches!(req, Request::Nothing));
    assert_eq!(reply_lines(&rx), vec![
        "- 'default': Create a default board".to_string(),
        "- 'load <filename>': Load a board from a file".to_string(),
        "- 'load_json': Load a board from json".to_string(),
        "- 'create': enter boardcreator".to_string(),
        "- 'help': list available commands".to_string(),
    ]);
    let (_, req) = game.handle_init_board("fly".to_string());
    assert!(matches!(req, Request::Nothing));
    assert_eq!(reply_lines(&rx), vec!["Invalid board initialization command.".to_string(), "Use 'default' or 'load <filename>'".to_string()]);
    let (_, req) = game.handle_init_board("load_json".to_string());
    assert!(matches!(req, Request::Nothing));
    assert_eq!(reply_lines(&rx), vec!["No json was sent to load the board from.".to_string(), "Try again or use 'default'".to_string()]);
}

#[test]
fn choosing_kinds_of_pieces_replies() {
    let (tx, rx) = channel();
    let (_tx2, rx2) = channel::<String>();
    let (_tx3, rx3) = channel::<String>();
    let mut game = Game::new(rx2, tx, rx3, true);
    game.board = Some(Board::new());
    let (mode, _) = game.handle_init_pieces("fly".to_string());
    assert_eq!(mode, Mode::InitPieces);
    assert_eq!(reply_lines(&rx), vec![
        "Invalid pieces initialization command.".to_string(),
        "Use 'continue' or 'load <filename>'".to_string(),
        "Or use 'list' to get all loaded pieces.".to_string(),
    ]);
    let (_, req) = game.handle_init_pieces("load_json".to_string());
    assert!(matches!(req, Request::Nothing));
    assert_eq!(reply_lines(&rx), vec!["No json was sent to load the piece from.".to_string(), "Try again or use 'default'".to_string()]);
    let (mode, _) = game.handle_init_pieces("continue".to_string());
    assert_eq!(mode, Mode::PlacePieces);
    assert_eq!(reply_lines(&rx), vec![
        "Pieces initialization ended.".to_string(),
        "Pieces are ready to be placed".to_string(),
        "Tip: Use 'show' at any point to view the board".to_string(),
    ]);
}

#[test]
fn a_move_with_consequences_still_lands() {
    let (tx, _rx, _tx2, rx2) = channels();
    let mut board = Board::new();
    board.board[1][1] = Some(free_piece("rook", "rook"));
    let consequence = RuleExpression::ApiCall("increase_var".to_string(), vec!["int".to_string(), "steps".to_string(), "1".to_string()]);
    let mv = PMove { condition: Box::new(RuleExpression::Boolean(true)), consequences: Some(vec![Box::new(consequence)]) };
    let r = board.make_move((1, 1), (3, 1), mv, &tx, &rx2, false, false);
    assert_eq!(r, Ok(GameState::Continue));
    assert!(board.board[1][1].is_none() && board.board[3][1].is_some());
}

#[test]
fn a_revive_rule_that_reads_the_board_still_places_the_piece() {
    let (tx, _rx, _tx2, rx2) = channels();
    let mut board = Board::new();
    board.revive = RuleExpression::ApiCall("is_empty".to_string(), vec!["var".to_string(), "new_position".to_string()]);
    board.cementaries.0.push(free_piece("rook", "rook"));
    let r = board.revive_piece(true, 0, (2, 2), &tx, &rx2, false);
    assert_eq!(r, Ok(GameState::Continue));
    assert!(board.board[2][2].is_some());
    assert_eq!(board.cementaries.0.len(), 0);
}

#[test]
fn a_king_without_escape_is_mated() {
    let mut board = Board::new();
    board.board[0][0] = Some(with_id(free_piece("king", "king"), 1));
    board.board[5][5] = Some(with_id(black_free_piece(), 2));
    board.board[6][6] = Some(with_id(black_free_piece(), 3));
    assert!(is_bool(&board.check_mate(Player::White, 1), true));
    let mut one = Board::new();
    one.board[0][0] = Some(with_id(free_piece("king", "king"), 1));
    one.board[5][5] = Some(with_id(black_free_piece(), 2));
    assert!(is_bool(&one.check_mate(Player::White, 1), false));
}
