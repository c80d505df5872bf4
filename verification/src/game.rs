//! A game session: the stages of setting a game up and playing it, driven by the player's
//! messages.
use vstd::prelude::*;
use std::sync::mpsc::{Receiver, Sender};
use crate::board::Board;
use crate::channel::{receive_line, send_line, send_reply, try_receive_line};
use crate::eval::{debug_text, spec_debug};
use crate::piece::Piece;
use crate::pmove::PMove;
use crate::rule::{RuleExpression, RuleValue};
use crate::text::{cat, cat3, cat4, debug_str, starts_with, str_eq, text, trim_start_matches, trim_text};
use crate::gamestate::GameState;
use crate::dict::Dict;

verus! {

/// The stage a game is in.
#[derive(Debug, Clone, Copy, PartialEq, Eq, Structural)]
pub enum Mode {
    Start,
    InitBoard,
    InitPieces,
    PlacePieces,
    Playing,
    Finished,
    CreateBoard,
}

/// The name of a stage, as `getstatus` reports it.
pub open spec fn mode_text(m: Mode) -> Seq<char> {
    match m {
        Mode::Start => "start"@,
        Mode::InitBoard => "initboard"@,
        Mode::InitPieces => "initpieces"@,
        Mode::PlacePieces => "placepieces"@,
        Mode::Playing => "playing"@,
        Mode::Finished => "finished"@,
        Mode::CreateBoard => "createboard"@,
    }
}

impl Mode {
    /// The name of the stage; see `mode_text`.
    pub fn to_string(&self) -> (r: String)
        ensures
            r@ == mode_text(*self),
    {
        match self {
            Mode::Start => text("start"),
            Mode::InitBoard => text("initboard"),
            Mode::InitPieces => text("initpieces"),
            Mode::PlacePieces => text("placepieces"),
            Mode::Playing => text("playing"),
            Mode::Finished => text("finished"),
            Mode::CreateBoard => text("createboard"),
        }
    }
}

/// What a step of the game asks of the program that runs it: files and texts in the game's
/// exchange format are read and written there.
pub enum Request {
    /// Nothing to do.
    Nothing,
    /// The session ends.
    Quit,
    /// Load the board from the named file, then call `finish_board_load`.
    LoadBoardFile(String),
    /// Load the board from this text, then call `finish_board_load`.
    LoadBoardJson(String),
    /// Load a kind of piece from the named file, then call `finish_piece_load`.
    LoadPieceFile(String),
    /// Load a kind of piece from this text, then call `finish_piece_load`.
    LoadPieceJson(String),
    /// Load a kind of piece from this text to check it, then call `finish_verify_piece`.
    VerifyPiece(String),
    /// Send the board in the exchange format.
    ExportBoard,
    /// Send this piece, being made in the piece creator, in the exchange format, then call
    /// `resume_piece_creator` with it.
    SharePiece(Piece),
}

/// How many messages a dialog waits for before it gives up.
pub const MAX_WAIT: u64 = 18446744073709551615;

/// The bound on how deeply the rule creator nests parts of a rule, which lets its termination
/// be proved; no player comes near it.
pub const RULE_NESTING: u32 = 4294967295;

/// A game session: its board, once there is one, the channels to the player, the stage it is
/// in, whether the player uses the text interface, and the channel that brings texts in the
/// exchange format.
pub struct Game {
    pub board: Option<Board>,
    pub sender: Sender<Option<String>>,
    pub receiver: Receiver<String>,
    pub current_mode: Mode,
    pub tui: bool,
    pub json: Receiver<String>,
    /// The replies the stages of play sent themselves, each as its lines (not those of the
    /// dialogs that create rules and pieces, nor the status lines).
    pub replies: Ghost<Seq<Seq<Seq<char>>>>,
}

/// How `{:?}` writes a list of rules.
pub open spec fn debug_list(s: Seq<RuleValue>) -> Seq<char> {
    "["@ + crate::eval::debug_items(s) + "]"@
}

/// How `{:?}` writes an optional list of rules.
pub open spec fn debug_opt_list(o: Option<Seq<RuleValue>>) -> Seq<char> {
    match o {
        Some(s) => "Some("@ + debug_list(s) + ")"@,
        None => "None"@,
    }
}

/// How `{:?}` writes an optional rule.
pub open spec fn debug_opt(o: Option<RuleValue>) -> Seq<char> {
    match o {
        Some(e) => "Some("@ + spec_debug(e) + ")"@,
        None => "None"@,
    }
}

/// Writes a list of rules as `{:?}` does.
pub fn write_list(v: &Vec<RuleExpression>) -> (r: String)
    ensures
        r@ == debug_list(crate::rule::view_rules(v@)),
{
    let items = crate::eval::write_items(v);
    cat3("[", items.as_str(), "]")
}

/// Writes an optional list of rules as `{:?}` does.
pub fn write_opt_list(o: &Option<Vec<RuleExpression>>) -> (r: String)
    ensures
        r@ == debug_opt_list(crate::piece::view_opt_rules(*o)),
{
    match o {
        Some(v) => {
            let l = write_list(v);
            cat3("Some(", l.as_str(), ")")
        },
        None => text("None"),
    }
}

/// Writes an optional rule as `{:?}` does.
pub fn write_opt(o: &Option<RuleExpression>) -> (r: String)
    ensures
        r@ == debug_opt(crate::piece::view_opt_rule(*o)),
{
    match o {
        Some(e) => {
            let d = debug_text(e);
            cat3("Some(", d.as_str(), ")")
        },
        None => text("None"),
    }
}

/// Writes the consequences of a move as `{:?}` does.
pub fn write_consequences(o: &Option<Vec<Box<RuleExpression>>>) -> (r: String)
    ensures
        r@ == debug_opt_list(match *o {
            Some(v) => Some(crate::pmove::view_boxed(v@)),
            None => None,
        }),
{
    match o {
        Some(v) => {
            let mut plain: Vec<RuleExpression> = Vec::new();
            let mut i: usize = 0;
            while i < v.len()
                invariant
                    i <= v@.len(),
                    plain@.len() == i,
                    forall|j: int| 0 <= j < i ==> (#[trigger] plain@[j])@ == crate::rule::view_rule(*v@[j]),
                decreases v.len() - i,
            {
                plain.push(v[i].duplicate());
                i += 1;
            }
            let l = write_list(&plain);
            proof {
                crate::rule::lemma_view_rules(plain@);
                assert forall|j: int| 0 <= j < v@.len() implies crate::rule::view_rules(plain@)[j] == #[trigger] crate::pmove::view_boxed(v@)[j] by {
                    assert(crate::rule::view_rules(plain@)[j] == crate::rule::view_rule(plain@[j]));
                }
                assert(crate::rule::view_rules(plain@) =~= crate::pmove::view_boxed(v@));
            }
            cat3("Some(", l.as_str(), ")")
        },
        None => text("None"),
    }
}

/// Writes a move as `{:?}` does.
pub fn write_move(m: &PMove) -> (r: String)
    ensures
        r@ == "PMove { condition: "@ + spec_debug(m@.condition) + ", consequences: "@ + debug_opt_list(m@.consequences) + " }"@,
{
    let c = debug_text(&m.condition);
    let q = write_consequences(&m.consequences);
    let a = cat3("PMove { condition: ", c.as_str(), ", consequences: ");
    cat3(a.as_str(), q.as_str(), " }")
}

/// How `{:?}` writes a move.
pub open spec fn debug_move(m: crate::pmove::PMoveView) -> Seq<char> {
    "PMove { condition: "@ + spec_debug(m.condition) + ", consequences: "@ + debug_opt_list(m.consequences) + " }"@
}

/// The debug texts of a list of moves, separated by `, `.
pub open spec fn moves_joined(s: Seq<crate::pmove::PMoveView>) -> Seq<char>
    decreases s.len(),
{
    if s.len() == 0 {
        Seq::empty()
    } else if s.len() == 1 {
        debug_move(s[0])
    } else {
        moves_joined(s.drop_last()) + ", "@ + debug_move(s.last())
    }
}

/// Writes a list of moves as `{:?}` does: the moves, separated by `, `, in brackets.
pub fn write_moves(v: &Vec<PMove>) -> (r: String)
    ensures
        r@ == "["@ + moves_joined(crate::piece::view_moves(v@)) + "]"@,
{
    let ghost s = crate::piece::view_moves(v@);
    let mut out = String::new();
    let mut i: usize = 0;
    while i < v.len()
        invariant
            i <= v@.len(),
            s == crate::piece::view_moves(v@),
            out@ == moves_joined(s.take(i as int)),
        decreases v.len() - i,
    {
        let d = write_move(&v[i]);
        proof {
            assert(s.take(i + 1).drop_last() == s.take(i as int));
            assert(s.take(i + 1).last() == s[i as int]);
        }
        if i == 0 {
            out = d;
        } else {
            out = cat3(out.as_str(), ", ", d.as_str());
        }
        i += 1;
    }
    proof {
        assert(s.take(s.len() as int) == s);
    }
    cat3("[", out.as_str(), "]")
}

/// How `{:?}` writes an entry of a piece's memory: the quoted name, `: `, the value.
pub open spec fn debug_memory_entry(k: Seq<char>, v: RuleValue) -> Seq<char> {
    crate::text::spec_debug_str(k) + ": "@ + spec_debug(v)
}

/// The entries of a memory under the names `ks`, in that order, separated by `, `.
pub open spec fn memory_joined(ks: Seq<Seq<char>>, m: Map<Seq<char>, RuleValue>) -> Seq<char>
    decreases ks.len(),
{
    if ks.len() == 0 {
        Seq::empty()
    } else if ks.len() == 1 {
        debug_memory_entry(ks[0], m[ks[0]])
    } else {
        memory_joined(ks.drop_last(), m) + ", "@ + debug_memory_entry(ks.last(), m[ks.last()])
    }
}

/// Writes a piece's memory as `{:?}` writes a map: `{"name": value, ...}`, each name once, in
/// some order.
pub fn write_memory(m: &crate::dict::Dict<RuleExpression>) -> (r: String)
    ensures
        exists|ks: Seq<Seq<char>>| #![trigger memory_joined(ks, m@)]
            ks.no_duplicates() && (forall|k: Seq<char>| m@.contains_key(k) <==> ks.contains(k))
            && r@ == "{"@ + memory_joined(ks, m@) + "}"@,
{
    let keys = m.keys();
    let ghost ks = keys@.map_values(|s: String| s@);
    let mut out = String::new();
    let mut i: usize = 0;
    while i < keys.len()
        invariant
            i <= keys@.len(),
            ks == keys@.map_values(|s: String| s@),
            forall|k: Seq<char>| #![trigger crate::dict::listed(keys@, k)] m@.contains_key(k) <==> crate::dict::listed(keys@, k),
            out@ == memory_joined(ks.take(i as int), m@),
        decreases keys.len() - i,
    {
        proof {
            assert(crate::dict::listed(keys@, keys@[i as int]@));
        }
        let v = match m.get(keys[i].as_str()) {
            Some(e) => debug_text(e),
            None => text("?"),
        };
        let k = debug_str(keys[i].as_str());
        let entry = cat3(k.as_str(), ": ", v.as_str());
        proof {
            assert(ks.take(i + 1).drop_last() == ks.take(i as int));
            assert(ks.take(i + 1).last() == ks[i as int]);
        }
        if i == 0 {
            out = entry;
        } else {
            out = cat3(out.as_str(), ", ", entry.as_str());
        }
        i += 1;
    }
    proof {
        assert(ks.take(ks.len() as int) == ks);
        assert forall|a: int, b: int| 0 <= a < ks.len() && 0 <= b < ks.len() && a != b implies ks[a] != ks[b] by {
            if a < b {
                assert(keys@[a]@ != keys@[b]@);
            } else {
                assert(keys@[b]@ != keys@[a]@);
            }
        }
        assert forall|k: Seq<char>| m@.contains_key(k) <==> ks.contains(k) by {
            if m@.contains_key(k) {
                assert(crate::dict::listed(keys@, k));
                let q = choose|q: int| 0 <= q < keys@.len() && (#[trigger] keys@[q])@ == k;
                assert(ks[q] == k);
            }
            if ks.contains(k) {
                let q = choose|q: int| 0 <= q < ks.len() && ks[q] == k;
                assert(keys@[q]@ == k);
                assert(crate::dict::listed(keys@, k));
            }
        }
    }
    cat3("{", out.as_str(), "}")
}

/// Whether a reply lists the names of the kinds of pieces the board knows, each once.
pub open spec fn kind_names(b: Board, lines: Seq<Seq<char>>) -> bool {
    &&& lines.no_duplicates()
    &&& forall|k: Seq<char>| b.pieces@.contains_key(k) <==> lines.contains(k)
}

/// The reply to `help` while the board is chosen.
pub open spec fn init_board_help() -> Seq<Seq<char>> {
    seq!["- 'default': Create a default board"@, "- 'load <filename>': Load a board from a file"@, "- 'load_json': Load a board from json"@, "- 'create': enter boardcreator"@, "- 'help': list available commands"@]
}

/// The reply to a command the stage of choosing the board does not know.
pub open spec fn init_board_invalid() -> Seq<Seq<char>> {
    seq!["Invalid board initialization command."@, "Use 'default' or 'load <filename>'"@]
}

/// The reply to `load_json` while the board is chosen, when no text came in the exchange format.
pub open spec fn board_no_json() -> Seq<Seq<char>> {
    seq!["No json was sent to load the board from."@, "Try again or use 'default'"@]
}

/// The reply to `default`: the board is made and the kinds of pieces come next.
pub open spec fn default_board_reply() -> Seq<Seq<char>> {
    seq!["Default board created successfully!"@, "Next: Initialize pieces"@, "- 'continue': Go to piece placement"@, "- 'load <filename>: Load a piece from a file"@, "- 'load_json': Load a piece from json"@, "- 'create': enter piece creator"@, "- 'help': list available commands"@, "Tip: Use 'show' at any point to view the board"@]
}

/// The reply to `create`: the board is made and the board creator opens.
pub open spec fn create_board_reply() -> Seq<Seq<char>> {
    seq!["Default board created successfully!"@, "Next: Edit board"@, "- 'continue': Go to piece placement"@, "- show size"@, "- show history_size"@, "- show end_condition"@, "- show win_condition"@, "- show revive"@, "- set size"@, "- set history_size"@, "- set end_condition"@, "- set win_condition [Black|White]"@, "- set revive"@, "- 'help': list available commands"@]
}

/// The reply to `help` while the kinds of pieces are chosen.
pub open spec fn init_pieces_help() -> Seq<Seq<char>> {
    seq!["- 'continue': Go to piece placement"@, "- 'load <filename>: Load a piece from a file"@, "- 'load_json': Load a piece from json"@, "- 'create': enter piece creator"@, "- 'help': list available commands"@, "Tip: Use 'show' at any point to view the board"@]
}

/// The reply to `continue` while the kinds of pieces are chosen.
pub open spec fn init_pieces_done() -> Seq<Seq<char>> {
    seq!["Pieces initialization ended."@, "Pieces are ready to be placed"@, "Tip: Use 'show' at any point to view the board"@]
}

/// The reply to a command the stage of the kinds of pieces does not know.
pub open spec fn init_pieces_invalid() -> Seq<Seq<char>> {
    seq!["Invalid pieces initialization command."@, "Use 'continue' or 'load <filename>'"@, "Or use 'list' to get all loaded pieces."@]
}

/// The reply to `load_json` while the kinds of pieces are chosen, when no text came in the exchange format.
pub open spec fn pieces_no_json() -> Seq<Seq<char>> {
    seq!["No json was sent to load the piece from."@, "Try again or use 'default'"@]
}

/// The reply to `create` while the kinds of pieces are chosen: the commands of the piece creator.
pub open spec fn piece_creator_intro() -> Seq<Seq<char>> {
    seq!["Entering piece creator."@, "- 'cancel': Go to piece placement"@, "- 'export' to export a piece"@, "- show id"@, "- show name"@, "- show deathrattle"@, "- show battlecry"@, "- show passive"@, "- show onmove"@, "- show aftermove"@, "- show onkill"@, "- show possiblemoves"@, "- show movecondition"@, "- show memory"@, "- set id"@, "- set name"@, "- add deathrattle"@, "- add battlecry"@, "- add passive"@, "- add onmove"@, "- add aftermove"@, "- add onkill"@, "- add move"@, "- set movecondition"@, "- add memory"@, "- 'help': list available commands"@]
}

impl Game {
    fn tell_init_board_help(&mut self)
        ensures
            final(self).replies@ == old(self).replies@.push(init_board_help()),
            final(self).board == old(self).board,
            final(self).current_mode == old(self).current_mode,
            final(self).tui == old(self).tui,
    {
        let lines = vec![text("- 'default': Create a default board"), text("- 'load <filename>': Load a board from a file"), text("- 'load_json': Load a board from json"), text("- 'create': enter boardcreator"), text("- 'help': list available commands")];
        proof {
            assert(lines@.map_values(|l: String| l@) =~= init_board_help());
        }
        self.tell(lines);
    }

    fn tell_init_board_invalid(&mut self)
        ensures
            final(self).replies@ == old(self).replies@.push(init_board_invalid()),
            final(self).board == old(self).board,
            final(self).current_mode == old(self).current_mode,
            final(self).tui == old(self).tui,
    {
        let lines = vec![text("Invalid board initialization command."), text("Use 'default' or 'load <filename>'")];
        proof {
            assert(lines@.map_values(|l: String| l@) =~= init_board_invalid());
        }
        self.tell(lines);
    }

    fn tell_board_no_json(&mut self)
        ensures
            final(self).replies@ == old(self).replies@.push(board_no_json()),
            final(self).board == old(self).board,
            final(self).current_mode == old(self).current_mode,
            final(self).tui == old(self).tui,
    {
        let lines = vec![text("No json was sent to load the board from."), text("Try again or use 'default'")];
        proof {
            assert(lines@.map_values(|l: String| l@) =~= board_no_json());
        }
        self.tell(lines);
    }

    fn tell_default_board_reply(&mut self)
        ensures
            final(self).replies@ == old(self).replies@.push(default_board_reply()),
            final(self).board == old(self).board,
            final(self).current_mode == old(self).current_mode,
            final(self).tui == old(self).tui,
    {
        let lines = vec![text("Default board created successfully!"), text("Next: Initialize pieces"), text("- 'continue': Go to piece placement"), text("- 'load <filename>: Load a piece from a file"), text("- 'load_json': Load a piece from json"), text("- 'create': enter piece creator"), text("- 'help': list available commands"), text("Tip: Use 'show' at any point to view the board")];
        proof {
            assert(lines@.map_values(|l: String| l@) =~= default_board_reply());
        }
        self.tell(lines);
    }

    fn tell_create_board_reply(&mut self)
        ensures
            final(self).replies@ == old(self).replies@.push(create_board_reply()),
            final(self).board == old(self).board,
            final(self).current_mode == old(self).current_mode,
            final(self).tui == old(self).tui,
    {
        let lines = vec![text("Default board created successfully!"), text("Next: Edit board"), text("- 'continue': Go to piece placement"), text("- show size"), text("- show history_size"), text("- show end_condition"), text("- show win_condition"), text("- show revive"), text("- set size"), text("- set history_size"), text("- set end_condition"), text("- set win_condition [Black|White]"), text("- set revive"), text("- 'help': list available commands")];
        proof {
            assert(lines@.map_values(|l: String| l@) =~= create_board_reply());
        }
        self.tell(lines);
    }

    fn tell_init_pieces_help(&mut self)
        ensures
            final(self).replies@ == old(self).replies@.push(init_pieces_help()),
            final(self).board == old(self).board,
            final(self).current_mode == old(self).current_mode,
            final(self).tui == old(self).tui,
    {
        let lines = vec![text("- 'continue': Go to piece placement"), text("- 'load <filename>: Load a piece from a file"), text("- 'load_json': Load a piece from json"), text("- 'create': enter piece creator"), text("- 'help': list available commands"), text("Tip: Use 'show' at any point to view the board")];
        proof {
            assert(lines@.map_values(|l: String| l@) =~= init_pieces_help());
        }
        self.tell(lines);
    }

    fn tell_init_pieces_done(&mut self)
        ensures
            final(self).replies@ == old(self).replies@.push(init_pieces_done()),
            final(self).board == old(self).board,
            final(self).current_mode == old(self).current_mode,
            final(self).tui == old(self).tui,
    {
        let lines = vec![text("Pieces initialization ended."), text("Pieces are ready to be placed"), text("Tip: Use 'show' at any point to view the board")];
        proof {
            assert(lines@.map_values(|l: String| l@) =~= init_pieces_done());
        }
        self.tell(lines);
    }

    fn tell_init_pieces_invalid(&mut self)
        ensures
            final(self).replies@ == old(self).replies@.push(init_pieces_invalid()),
            final(self).board == old(self).board,
            final(self).current_mode == old(self).current_mode,
            final(self).tui == old(self).tui,
    {
        let lines = vec![text("Invalid pieces initialization command."), text("Use 'continue' or 'load <filename>'"), text("Or use 'list' to get all loaded pieces.")];
        proof {
            assert(lines@.map_values(|l: String| l@) =~= init_pieces_invalid());
        }
        self.tell(lines);
    }

    fn tell_pieces_no_json(&mut self)
        ensures
            final(self).replies@ == old(self).replies@.push(pieces_no_json()),
            final(self).board == old(self).board,
            final(self).current_mode == old(self).current_mode,
            final(self).tui == old(self).tui,
    {
        let lines = vec![text("No json was sent to load the piece from."), text("Try again or use 'default'")];
        proof {
            assert(lines@.map_values(|l: String| l@) =~= pieces_no_json());
        }
        self.tell(lines);
    }

    fn tell_piece_creator_intro(&mut self)
        ensures
            final(self).replies@ == old(self).replies@.push(piece_creator_intro()),
            final(self).board == old(self).board,
            final(self).current_mode == old(self).current_mode,
            final(self).tui == old(self).tui,
    {
        let lines = vec![text("Entering piece creator."), text("- 'cancel': Go to piece placement"), text("- 'export' to export a piece"), text("- show id"), text("- show name"), text("- show deathrattle"), text("- show battlecry"), text("- show passive"), text("- show onmove"), text("- show aftermove"), text("- show onkill"), text("- show possiblemoves"), text("- show movecondition"), text("- show memory"), text("- set id"), text("- set name"), text("- add deathrattle"), text("- add battlecry"), text("- add passive"), text("- add onmove"), text("- add aftermove"), text("- add onkill"), text("- add move"), text("- set movecondition"), text("- add memory"), text("- 'help': list available commands")];
        proof {
            assert(lines@.map_values(|l: String| l@) =~= piece_creator_intro());
        }
        self.tell(lines);
    }

}

impl Game {
    /// A new session at the start, with no board.
    pub fn new(rx: Receiver<String>, tx: Sender<Option<String>>, rx_json: Receiver<String>, tui: bool) -> (r: Game)
        ensures
            r.board is None,
            r.current_mode == Mode::Start,
            r.tui == tui,
    {
        Game { board: None, receiver: rx, sender: tx, current_mode: Mode::Start, json: rx_json, tui, replies: Ghost(Seq::empty()) }
    }

    /// Sends the lines as one reply.
    pub(crate) fn say(&self, lines: Vec<String>) {
        send_reply(&lines, &self.sender);
    }

    /// Sends one line as a reply.
    pub(crate) fn say1(&self, line: &str) {
        self.say(vec![text(line)]);
    }

    /// Sends the lines as one reply of a stage of play, and records it among its replies.
    pub(crate) fn tell(&mut self, lines: Vec<String>)
        ensures
            final(self).replies@ == old(self).replies@.push(lines@.map_values(|l: String| l@)),
            final(self).board == old(self).board,
            final(self).current_mode == old(self).current_mode,
            final(self).tui == old(self).tui,
    {
        let ghost v = lines@.map_values(|l: String| l@);
        send_reply(&lines, &self.sender);
        proof {
            self.replies@ = self.replies@.push(v);
        }
    }

    /// Sends two lines as one reply of a stage of play, and records it.
    pub(crate) fn tell2(&mut self, a: &str, b: &str)
        ensures
            final(self).replies@ == old(self).replies@.push(seq![a@, b@]),
            final(self).board == old(self).board,
            final(self).current_mode == old(self).current_mode,
            final(self).tui == old(self).tui,
    {
        let lines = vec![text(a), text(b)];
        proof {
            assert(lines@.map_values(|l: String| l@) =~= seq![a@, b@]);
        }
        self.tell(lines);
    }

    /// Sends one line as a reply of a stage of play, and records it.
    pub(crate) fn tell1(&mut self, line: &str)
        ensures
            final(self).replies@ == old(self).replies@.push(seq![line@]),
            final(self).board == old(self).board,
            final(self).current_mode == old(self).current_mode,
            final(self).tui == old(self).tui,
    {
        let lines = vec![text(line)];
        proof {
            assert(lines@.map_values(|l: String| l@) =~= seq![line@]);
        }
        self.tell(lines);
    }

    /// Sends a status line, not ended as a reply is.
    pub(crate) fn status(&self, line: &str) {
        send_line(&self.sender, Some(text(line)));
    }

    /// The player's next message; nothing once the player has gone.
    pub(crate) fn next_message(&self) -> Option<String> {
        receive_line(&self.receiver)
    }

    /// A text in the exchange format, if one was sent.
    pub(crate) fn next_json(&self) -> Option<String> {
        try_receive_line(&self.json)
    }
}

/// Whether a board is the one a new game starts from: 8 by 8, empty, with no kinds of pieces,
/// White to move.
pub open spec fn fresh_board(b: Board) -> bool {
    &&& b.size == (8u32, 8u32)
    &&& crate::board::grid_fits(&b)
    &&& forall|x: int, y: int| !crate::board::occupied(&b, x, y)
    &&& b.pieces@ == Map::<Seq<char>, crate::piece::PieceView>::empty()
    &&& b.current_player == crate::player::Player::White
}

/// The size `set size` gives a board for `x,y`: zeros become ones.
pub open spec fn set_size(p: (u32, u32)) -> (u32, u32) {
    (if p.0 == 0 { 1u32 } else { p.0 }, if p.1 == 0 { 1u32 } else { p.1 })
}

/// The stage a game result leads to: a win or a draw ends the game; otherwise the game stays.
pub open spec fn stage_after(state: GameState, stay: Mode) -> Mode {
    match state {
        GameState::BlackWins | GameState::WhiteWins | GameState::Draw => Mode::Finished,
        _ => stay,
    }
}

/// The stage a turn leaves when its outcome is `o`: a win or a draw ends the game.
pub open spec fn stage_of(o: crate::play::Outcome) -> Mode {
    match o {
        crate::play::Outcome::BlackWins | crate::play::Outcome::WhiteWins | crate::play::Outcome::Draw => Mode::Finished,
        _ => Mode::Playing,
    }
}

/// Whether no rule fires on the move `m` from `o` to `n` (see `quiet_move`).
pub open spec fn quiet_view(b: &Board, o: (u32, u32), n: (u32, u32), m: crate::pmove::PMoveView) -> bool {
    &&& crate::rules::silent_at(b, o.0 as int, o.1 as int, crate::rules::RuleKind::Onmove)
    &&& crate::rules::silent_at(b, o.0 as int, o.1 as int, crate::rules::RuleKind::Onkill)
    &&& crate::rules::silent_at(b, o.0 as int, o.1 as int, crate::rules::RuleKind::Aftermove)
    &&& crate::rules::silent_at(b, n.0 as int, n.1 as int, crate::rules::RuleKind::Deathrattle)
    &&& forall|x: int, y: int| crate::rules::silent_at(b, x, y, crate::rules::RuleKind::Passive)
    &&& (m.consequences matches Some(v) ==> v.len() == 0)
}

/// Whether the piece on `o` goes to `n` by a plain move: it has exactly one move there, judged
/// and allowed without calling the board, on which no rule fires, onto a square of the grid, and
/// the rules that end the game call the board nowhere.
pub open spec fn plain_move(b: &Board, o: (u32, u32), n: (u32, u32)) -> bool {
    &&& crate::rules::moves_to_exact(b, o, n, 0)
    &&& crate::rules::spec_moves_to(crate::board::cell_view(b, o.0 as int, o.1 as int).unwrap(), o, n) matches Some(s)
    &&& s.len() == 1
    &&& crate::play::in_grid(b, n.0 as int, n.1 as int)
    &&& crate::play::move_judged(b, o, s[0])
    &&& crate::play::move_allowed(crate::board::cell_view(b, o.0 as int, o.1 as int).unwrap(), o, n, s[0])
    &&& quiet_view(b, o, n, s[0])
    &&& crate::play::end_rules_api_free(b)
}

/// What playing a plain move from `o` to `n` on `b0` does (see `plain_move`): the game goes on
/// or ends as the end rules say, and unless they fail the piece has moved.
pub open spec fn plain_move_played(b0: &Board, b1: Option<Board>, o: (u32, u32), n: (u32, u32), r: Mode) -> bool {
    let out = crate::play::spec_outcome(b0, crate::rules::move_context(o, n));
    &&& r == stage_of(out)
    &&& !(out is Failed) ==> (b1 matches Some(b) && crate::play::moved(b0, &b, o, n))
}

/// What `make_move` (with the end of the game decided) may do, as its contract says: moving the
/// piece on `o` to `n` by the move `m` on the board `b0` may leave `b1` and answer `r`.
pub open spec fn move_made(b0: Board, b1: Board, o: (u32, u32), n: (u32, u32), m: crate::pmove::PMoveView, r: Result<GameState, String>) -> bool {
    let cannot = r matches Err(e) && e@ == "Cannot perform move"@;
    let sizes = crate::board::in_size(&b0, o.0 as int, o.1 as int) && crate::board::in_size(&b0, n.0 as int, n.1 as int);
    &&& !sizes ==> r is Err && r->Err_0@ == "Out of board"@ && b1 == b0
    &&& sizes && crate::board::cell(&b0, o.0 as int, o.1 as int) is None ==> r is Err && r->Err_0@ == "Piece doesn't exist"@ && b1 == b0
    &&& sizes && crate::play::in_grid(&b0, n.0 as int, n.1 as int) && crate::board::cell(&b0, o.0 as int, o.1 as int) is Some
        ==> crate::play::move_conditions(&b0, o, n, m, false, crate::eval::MATE_NESTING, !cannot)
    &&& cannot ==> b1 == b0
    &&& r is Ok ==> crate::board::history_view(&b1) == crate::board::history_after(crate::board::history_view(&b0), b0.history_size, m, o, n)
    &&& !(r matches Err(e) && (e@ == "Out of board"@ || e@ == "Piece doesn't exist"@ || e@ == "Cannot perform move"@))
        ==> exists|bm: Board, cm: Dict<String>, cf: Dict<String>| #![trigger crate::play::end_judged(bm, cm, b1, cf, r, crate::eval::MATE_NESTING)]
            crate::play::end_judged(bm, cm, b1, cf, r, crate::eval::MATE_NESTING)
            && crate::board::history_view(&bm) == crate::board::history_after(crate::board::history_view(&b0), b0.history_size, m, o, n)
    &&& r is Ok && quiet_view(&b0, o, n, m) && crate::play::end_rules_api_free(&b0) ==> crate::play::moved(&b0, &b1, o, n)
}

/// The stage a turn's result leaves: a win or a draw ends the game.
pub open spec fn stage_of_result(r: Result<GameState, String>) -> Mode {
    match r {
        Ok(st) => stage_after(st, Mode::Playing),
        Err(_) => Mode::Playing,
    }
}

/// What `move a b` may do to the board `b0`, the squares being `o` and `n`: the moves of the
/// piece there are found (see `moves_found`), which may change the board to `bf`; with none the
/// game goes on; with one it is made (see `move_made`); with several the player picks one, or
/// none.
pub open spec fn turn_played(b0: Board, o: (u32, u32), n: (u32, u32), b1: Board, r: Mode) -> bool {
    exists|c0: Dict<String>, bm: Board, cm: Dict<String>, x: RuleValue, t: Seq<(Board, Dict<String>, RuleValue)>, bf: Board,
        found: Option<Seq<crate::pmove::PMoveView>>|
        #![trigger crate::rules::moves_found(b0, o, n, 0, crate::eval::MATE_NESTING, c0, bm, cm, x, t, bf, found)]
        crate::rules::moves_found(b0, o, n, 0, crate::eval::MATE_NESTING, c0, bm, cm, x, t, bf, found) && match found {
            None => b1 == bf && r == Mode::Playing,
            Some(s) => (s.len() > 1 && b1 == bf && r == Mode::Playing)
                || exists|k: int, res: Result<GameState, String>| #![trigger move_made(bf, b1, o, n, s[k], res)]
                    0 <= k < s.len() && (s.len() == 1 ==> k == 0) && move_made(bf, b1, o, n, s[k], res) && r == stage_of_result(res),
        }
}

/// Whether `b1` is `b0` knowing, besides its kinds of pieces, the kind `p` under its id.
pub open spec fn kind_added(b0: &Board, b1: &Board, p: crate::piece::PieceView) -> bool {
    &&& b1.pieces@ == b0.pieces@.insert(p.id, p)
    &&& b1.board == b0.board
    &&& b1.size == b0.size
    &&& b1.cementaries == b0.cementaries
    &&& b1.endcondition == b0.endcondition
    &&& b1.wincondition == b0.wincondition
    &&& b1.current_player == b0.current_player
    &&& b1.history == b0.history
    &&& b1.history_size == b0.history_size
    &&& b1.revive == b0.revive
}

/// Whether a text begins with `p`.
pub open spec fn has_prefix(s: Seq<char>, p: Seq<char>) -> bool {
    p.len() <= s.len() && s.subrange(0, p.len() as int) == p
}

/// The words that follow a command word: the message without its leading `prefix`es and
/// surrounding white space, split at white space.
pub open spec fn command_args(msg: Seq<char>, prefix: Seq<char>) -> Seq<Seq<char>> {
    crate::text::spec_words(crate::text::spec_trim(crate::text::strip_prefixes(msg, prefix)))
}

/// Whether `b1` differs from `b0` at most in what the squares of its grid hold.
pub open spec fn same_but_squares(b0: &Board, b1: &Board) -> bool {
    &&& b1.board@.len() == b0.board@.len()
    &&& forall|i: int| 0 <= i < b0.board@.len() ==> (#[trigger] b1.board@[i])@.len() == b0.board@[i]@.len()
    &&& b1.size == b0.size
    &&& b1.pieces == b0.pieces
    &&& b1.cementaries == b0.cementaries
    &&& b1.endcondition == b0.endcondition
    &&& b1.wincondition == b0.wincondition
    &&& b1.current_player == b0.current_player
    &&& b1.history == b0.history
    &&& b1.history_size == b0.history_size
    &&& b1.revive == b0.revive
}

/// Whether `b1` differs from `b0` at most in its cementaries.
pub open spec fn same_but_cementaries(b0: &Board, b1: &Board) -> bool {
    &&& b1.board == b0.board
    &&& b1.size == b0.size
    &&& b1.pieces == b0.pieces
    &&& b1.endcondition == b0.endcondition
    &&& b1.wincondition == b0.wincondition
    &&& b1.current_player == b0.current_player
    &&& b1.history == b0.history
    &&& b1.history_size == b0.history_size
    &&& b1.revive == b0.revive
}

/// A new piece of kind `name` of board `b`, owned by `pl`, whose memory records `id`.
pub open spec fn new_piece(b: &Board, name: Seq<char>, pl: crate::player::Player, id: i32) -> crate::piece::PieceView {
    crate::piece::PieceView {
        memory: b.pieces@[name].memory.insert("id"@, RuleValue::Integer(id)),
        owner: pl,
        ..b.pieces@[name]
    }
}

/// What `place name position player` does to a board: a new piece of the kind, owned by the
/// player, goes on the square, its id the number of the square in row order; a square outside
/// the grid, an unknown kind or a wrong player changes nothing.
pub open spec fn place_effect(b0: &Board, b1: &Board, name: Seq<char>, position: Seq<char>, player: Seq<char>) -> bool {
    match (crate::board::spec_valid_position(b0, position), b0.pieces@.contains_key(name), crate::player::spec_player_from_text(player)) {
        (Some(pos), true, Some(pl)) => if crate::play::in_grid(b0, pos.0 as int, pos.1 as int) {
            &&& same_but_squares(b0, b1)
            &&& crate::board::cell_view(b1, pos.0 as int, pos.1 as int) == Some(new_piece(b0, name, pl, pos.0.wrapping_mul(b0.size.1).wrapping_add(pos.1) as i32))
            &&& forall|x: int, y: int| (x, y) != (pos.0 as int, pos.1 as int) ==> #[trigger] crate::board::cell_view(b1, x, y) == crate::board::cell_view(b0, x, y)
        } else {
            *b1 == *b0
        },
        _ => *b1 == *b0,
    }
}

/// The id `rest` gives a piece going to `pl`'s cementary: it counts on from the number of
/// squares, negated for White.
pub open spec fn rest_id(b: &Board, pl: crate::player::Player) -> i32 {
    let nm = b.size.0.wrapping_mul(b.size.1) as i32;
    match pl {
        crate::player::Player::Black => nm.wrapping_add(b.cementaries.1.len() as i32),
        crate::player::Player::White => 0i32.wrapping_sub(nm.wrapping_add(b.cementaries.0.len() as i32)),
    }
}

/// What placing a piece of the kind `name` in the cementary of the player named `player`
/// answers: that it was placed, or why not.
pub open spec fn rest_reply(b0: &Board, name: Seq<char>, player: Seq<char>) -> Seq<Seq<char>> {
    if crate::player::spec_player_from_text(player) is None {
        seq!["Wrong player.\n please enter command again with valid player\n White/Black"@]
    } else if !b0.pieces@.contains_key(name) {
        seq!["no such piece in board"@]
    } else {
        seq!["Placed "@ + name + " in cementary"@]
    }
}

/// What `set size` answers: that the size was set, or how to write it.
pub open spec fn set_size_reply(msg: Seq<char>) -> Seq<Seq<char>> {
    if crate::text::spec_parse_position(crate::text::spec_trim(crate::text::strip_prefixes(msg, "set size"@))) is Some {
        seq!["successfully set size"@]
    } else {
        seq!["wrong set size format"@, "eg: set size 1,2"@]
    }
}

/// What `rest name player` does to a board: a new piece of the kind, owned by the player, goes
/// to the end of that player's cementary; an unknown kind or a wrong player changes nothing.
pub open spec fn rest_effect(b0: &Board, b1: &Board, name: Seq<char>, player: Seq<char>) -> bool {
    match (crate::player::spec_player_from_text(player), b0.pieces@.contains_key(name)) {
        (Some(pl), true) => {
            &&& same_but_cementaries(b0, b1)
            &&& match pl {
                crate::player::Player::White => {
                    &&& crate::board::view_pieces(b1.cementaries.0@) == crate::board::view_pieces(b0.cementaries.0@).push(new_piece(b0, name, pl, rest_id(b0, pl)))
                    &&& b1.cementaries.1 == b0.cementaries.1
                },
                crate::player::Player::Black => {
                    &&& crate::board::view_pieces(b1.cementaries.1@) == crate::board::view_pieces(b0.cementaries.1@).push(new_piece(b0, name, pl, rest_id(b0, pl)))
                    &&& b1.cementaries.0 == b0.cementaries.0
                },
            }
        },
        _ => *b1 == *b0,
    }
}

/// Whether `b1` keeps every rule of `b0` that decides the end of a game or a revival.
pub open spec fn same_rules(b0: &Board, b1: &Board) -> bool {
    &&& b1.endcondition == b0.endcondition
    &&& b1.wincondition == b0.wincondition
    &&& b1.revive == b0.revive
}

/// Whether `b1` keeps the pieces, the cementaries, the history and the player to move of `b0`.
pub open spec fn same_play(b0: &Board, b1: &Board) -> bool {
    &&& b1.pieces == b0.pieces
    &&& b1.cementaries == b0.cementaries
    &&& b1.current_player == b0.current_player
    &&& b1.history == b0.history
}

/// What a command of the board creator does to a board: `set size x,y` gives it that size
/// (zeros become ones) and an empty grid; `set history_size n` sets how many moves the history
/// keeps; the other `set` commands replace one rule each, by one the player builds; anything
/// else changes nothing. A size or a number that does not parse changes nothing.
pub open spec fn create_board_effect(b0: &Board, b1: &Board, msg: Seq<char>) -> bool {
    if has_prefix(msg, "set size"@) {
        match crate::text::spec_parse_position(crate::text::spec_trim(crate::text::strip_prefixes(msg, "set size"@))) {
            Some(p) => {
                &&& b1.size == set_size(p)
                &&& crate::board::grid_fits(b1)
                &&& forall|x: int, y: int| !crate::board::occupied(b1, x, y)
                &&& same_play(b0, b1) && same_rules(b0, b1) && b1.history_size == b0.history_size
            },
            None => *b1 == *b0,
        }
    } else if has_prefix(msg, "set history_size"@) {
        match crate::text::spec_parse_u32(crate::text::spec_trim(crate::text::strip_prefixes(msg, "set history_size "@))) {
            Some(n) => {
                &&& b1.history_size == n
                &&& b1.board == b0.board && b1.size == b0.size
                &&& same_play(b0, b1) && same_rules(b0, b1)
            },
            None => *b1 == *b0,
        }
    } else if msg == "set end_condition"@ || msg == "set win_condition White"@ || msg == "set win_condition Black"@ || msg == "set revive"@ {
        &&& b1.board == b0.board && b1.size == b0.size && b1.history_size == b0.history_size
        &&& same_play(b0, b1)
        &&& msg != "set end_condition"@ ==> b1.endcondition == b0.endcondition
        &&& msg != "set win_condition White"@ ==> b1.wincondition.0 == b0.wincondition.0
        &&& msg != "set win_condition Black"@ ==> b1.wincondition.1 == b0.wincondition.1
        &&& msg != "set revive"@ ==> b1.revive == b0.revive
    } else {
        *b1 == *b0
    }
}

/// Whether a message is one that every stage answers: `show`, `end`, `getstatus`,
/// `getdimensions`, `currentwhite`, or one that begins with `verifypiece`.
pub open spec fn global_command(msg: Seq<char>) -> bool {
    msg == "show"@ || msg == "end"@ || msg == "getstatus"@ || msg == "getdimensions"@ || msg == "currentwhite"@
        || has_prefix(msg, "verifypiece"@)
}

/// The stage a message of a stage leads to, where the message alone decides it: `continue`
/// ends the stages that prepare a game, `default` and `create` leave the first stage,
/// `restart` leaves a finished game; a move or a revival during play leads where its outcome
/// says.
pub open spec fn next_stage(mode: Mode, msg: Seq<char>) -> Option<Mode> {
    match mode {
        Mode::Start => Some(Mode::InitBoard),
        Mode::InitBoard => Some(if msg == "default"@ { Mode::InitPieces } else if msg == "create"@ { Mode::CreateBoard } else { Mode::InitBoard }),
        Mode::InitPieces => Some(if msg == "continue"@ { Mode::PlacePieces } else { Mode::InitPieces }),
        Mode::PlacePieces => Some(if msg == "continue"@ { Mode::Playing } else { Mode::PlacePieces }),
        Mode::Playing => if has_prefix(msg, "move "@) || has_prefix(msg, "revive "@) { None } else { Some(Mode::Playing) },
        Mode::Finished => Some(if msg == "restart"@ { Mode::Start } else { Mode::Finished }),
        Mode::CreateBoard => Some(if msg == "continue"@ { Mode::InitPieces } else { Mode::CreateBoard }),
    }
}

/// An empty grid of `nx` rows of `ny` squares.
fn empty_grid(nx: u32, ny: u32) -> (r: Vec<Vec<Option<Piece>>>)
    ensures
        r@.len() == nx,
        forall|x: int| 0 <= x < nx ==> (#[trigger] r@[x])@.len() == ny,
        forall|x: int, y: int| 0 <= x < nx && 0 <= y < ny ==> r@[x]@[y] is None,
{
    let mut board: Vec<Vec<Option<Piece>>> = Vec::new();
    let mut i: u32 = 0;
    while i < nx
        invariant
            i <= nx,
            board@.len() == i,
            forall|x: int| 0 <= x < i ==> (#[trigger] board@[x])@.len() == ny,
            forall|x: int, y: int| 0 <= x < i && 0 <= y < ny ==> board@[x]@[y] is None,
        decreases nx - i,
    {
        let mut row: Vec<Option<Piece>> = Vec::new();
        let mut j: u32 = 0;
        while j < ny
            invariant
                j <= ny,
                row@.len() == j,
                forall|y: int| 0 <= y < j ==> (#[trigger] row@[y]) is None,
            decreases ny - j,
        {
            row.push(None);
            j += 1;
        }
        board.push(row);
        i += 1;
    }
    board
}

/// Writes a square as `{:?}` does: `(x, y)`.
fn square_debug(p: (u32, u32)) -> (r: String)
    ensures
        r@ == crate::calls::square_text(p),
{
    let a = cat3("(", crate::text::int_to_text(p.0 as i64).as_str(), ", ");
    let r = cat3(a.as_str(), crate::text::int_to_text(p.1 as i64).as_str(), ")");
    assert(r@ =~= crate::calls::square_text(p));
    r
}

/// The quoted names of a list of pieces, separated by `, `.
pub open spec fn names_joined(s: Seq<Piece>) -> Seq<char>
    decreases s.len(),
{
    if s.len() == 0 {
        Seq::empty()
    } else if s.len() == 1 {
        crate::text::spec_debug_str(s[0].name@)
    } else {
        names_joined(s.drop_last()) + ", "@ + crate::text::spec_debug_str(s.last().name@)
    }
}

/// Writes the names of the pieces of a cementary as `{:?}` writes a list of texts.
fn cementary_names(c: &Vec<Piece>) -> (r: String)
    ensures
        r@ == "["@ + names_joined(c@) + "]"@,
{
    let mut out = String::new();
    let mut i: usize = 0;
    while i < c.len()
        invariant
            i <= c@.len(),
            out@ == names_joined(c@.take(i as int)),
        decreases c.len() - i,
    {
        let d = debug_str(c[i].name.as_str());
        proof {
            assert(c@.take(i + 1).drop_last() == c@.take(i as int));
            assert(c@.take(i + 1).last() == c@[i as int]);
        }
        if i == 0 {
            out = d;
        } else {
            out = cat3(out.as_str(), ", ", d.as_str());
        }
        i += 1;
    }
    proof {
        assert(c@.take(c@.len() as int) == c@);
    }
    cat3("[", out.as_str(), "]")
}

/// The text of the id a memory value records: the integer in decimal, or `_` when there is no
/// value or it is not an integer.
pub open spec fn id_text(v: Option<RuleValue>) -> Seq<char> {
    match v {
        Some(RuleValue::Integer(n)) => crate::text::int_text(n as int),
        _ => "_"@,
    }
}

/// The id a piece's memory records, as text; `_` when it records none or not an integer.
fn extractnum(num: Option<&RuleExpression>) -> (r: String)
    ensures
        r@ == id_text(match num { Some(e) => Some(e@), None => None }),
{
    proof {
        reveal_strlit("_");
    }
    match num {
        Some(RuleExpression::Integer(n)) => crate::text::int_to_text(*n as i64),
        _ => text("_"),
    }
}

/// How the board view shows a piece of a cementary: `(name,id)`.
pub open spec fn cementary_entry(p: crate::piece::PieceView) -> Seq<char> {
    "("@ + p.name + ","@ + id_text(if p.memory.contains_key("id"@) { Some(p.memory["id"@]) } else { None }) + ")"@
}

/// The entries of a cementary, separated by commas.
pub open spec fn cementary_joined(s: Seq<Piece>) -> Seq<char>
    decreases s.len(),
{
    if s.len() == 0 {
        Seq::empty()
    } else if s.len() == 1 {
        cementary_entry(s[0]@)
    } else {
        cementary_joined(s.drop_last()) + ","@ + cementary_entry(s.last()@)
    }
}

/// A cementary as the board view shows it: `(name,id)` for each piece, separated by commas.
fn show_cementary(c: &Vec<Piece>) -> (r: String)
    ensures
        r@ == cementary_joined(c@),
{
    let mut out = String::new();
    let mut i: usize = 0;
    while i < c.len()
        invariant
            i <= c@.len(),
            out@ == cementary_joined(c@.take(i as int)),
        decreases c.len() - i,
    {
        let got = c[i].memory.get("id");
        let id = extractnum(got);
        let entry = cat(cat3("(", c[i].name.as_str(), ",").as_str(), cat(id.as_str(), ")").as_str());
        proof {
            assert(c@.take(i + 1).drop_last() == c@.take(i as int));
            assert(c@.take(i + 1).last() == c@[i as int]);
            assert(entry@ =~= cementary_entry(c@[i as int]@));
        }
        if i == 0 {
            out = entry;
        } else {
            out = cat3(out.as_str(), ",", entry.as_str());
        }
        i += 1;
    }
    proof {
        assert(c@.take(c@.len() as int) == c@);
    }
    out
}

impl Game {
    /// Sends the board, a row per line, and, with the text interface, the two cementaries.
    fn show_board(&self) {
        match &self.board {
            Some(b) => {
                let mut lines = b.lines();
                if self.tui {
                    lines.push(cat("white: ", show_cementary(&b.cementaries.0).as_str()));
                    lines.push(cat("black: ", show_cementary(&b.cementaries.1).as_str()));
                }
                self.say(lines);
            },
            None => self.say1("No board initialized yet."),
        }
    }

    /// Sends the size of the board, `x,y`.
    fn get_dimensions(&mut self)
        ensures
            final(self).board == old(self).board,
            final(self).current_mode == old(self).current_mode,
            final(self).tui == old(self).tui,
    {
        match &self.board {
            Some(b) => self.tell(vec![crate::text::pair_to_text(b.size.0 as i64, b.size.1 as i64)]),
            None => self.tell1("No board initialized yet."),
        }
    }

    /// Sends the name of the player to move.
    fn currentwhite(&self) {
        match &self.board {
            Some(b) => self.say1(b.current_player.as_str()),
            None => self.say1("No board initialized yet."),
        }
    }

    /// Greets the player and offers the ways to get a board.
    pub fn handle_start(&self, msg: String) -> (r: Mode)
        ensures
            r == Mode::InitBoard,
    {
        self.say(vec![text("Welcome to the Board Games!"), text("Choose how to initialize the board:"), text("- 'default': Create a default board"),
            text("- 'load <filename>': Load a board from a file"), text("- 'load_json': Load a board from json"),
            text("- 'create': enter boardcreator"), text("- 'help': list available commands")]);
        Mode::InitBoard
    }

    /// Tells the player how a turn ended and gives the stage it leads to; see `stage_after`.
    pub fn match_game_state(&mut self, state: GameState, stay: Mode) -> (r: Mode)
        ensures
            r == stage_after(state, stay),
            final(self).board == old(self).board,
            final(self).current_mode == old(self).current_mode,
            final(self).tui == old(self).tui,
            state is BlackWins ==> final(self).replies@ == old(self).replies@.push(seq!["Black wins"@]),
            state is WhiteWins ==> final(self).replies@ == old(self).replies@.push(seq!["White wins"@]),
            state is Draw ==> final(self).replies@ == old(self).replies@.push(seq!["It's a draw"@]),
    {
        match state {
            GameState::BlackWins => {
                self.tell1("Black wins");
                Mode::Finished
            },
            GameState::WhiteWins => {
                self.tell1("White wins");
                Mode::Finished
            },
            GameState::Draw => {
                self.tell1("It's a draw");
                Mode::Finished
            },
            GameState::Continue => {
                match &self.board {
                    Some(b) => {
                        let board_str = b.to_string();
                        let head = cat(b.current_player.as_str(), "'s turn\nstate:\n");
                        self.tell(vec![cat(head.as_str(), board_str.as_str())]);
                    },
                    None => self.tell1("No board initialized yet."),
                }
                stay
            },
            GameState::Error(em) => {
                self.tell(vec![cat("could not determine result. er: ", em.as_str())]);
                stay
            },
        }
    }

    /// The stage after the game is over: `restart` drops the board and starts again, `show`
    /// shows the board.
    pub fn handle_finished(&mut self, msg: String) -> (r: Mode)
        ensures
            msg@ == "restart"@ ==> r == Mode::Start && final(self).board is None,
            msg@ != "restart"@ ==> r == Mode::Finished && final(self).board == old(self).board,
    {
        proof {
            reveal_strlit("show");
            reveal_strlit("restart");
            assert("show"@.len() != "restart"@.len());
        }
        let m = msg.as_str();
        if str_eq(m, "show") {
            self.show_board();
            Mode::Finished
        } else if str_eq(m, "restart") {
            self.say1("Restarting the game...");
            self.board = None;
            Mode::Start
        } else {
            self.say(vec![text("Game is over."), text("Use 'restart' to start again or 'exit' to quit.")]);
            Mode::Finished
        }
    }

    /// Gives the game a new default board.
    fn new_default_board(&mut self)
        ensures
            final(self).board matches Some(b) && fresh_board(b),
            final(self).current_mode == old(self).current_mode,
            final(self).replies == old(self).replies,
    {
        let b = Board::new();
        self.board = Some(b);
    }

    /// The first stage: the player makes a default board, enters the board creator, or asks for
    /// a board to be loaded.
    pub fn handle_init_board(&mut self, msg: String) -> (r: (Mode, Request))
        ensures
            !(r.1 is Quit),
            final(self).current_mode == old(self).current_mode,
            msg@ == "default"@ ==> r.0 == Mode::InitPieces && (final(self).board matches Some(b) && fresh_board(b))
                && final(self).replies@ == old(self).replies@.push(default_board_reply()),
            msg@ == "create"@ ==> r.0 == Mode::CreateBoard && (final(self).board matches Some(b) && fresh_board(b))
                && final(self).replies@ == old(self).replies@.push(create_board_reply()),
            msg@ != "default"@ && msg@ != "create"@ ==> r.0 == Mode::InitBoard && final(self).board == old(self).board,
            msg@ == "help"@ ==> r.1 is Nothing && final(self).replies@ == old(self).replies@.push(init_board_help()),
            r.1 is Nothing || r.1 is LoadBoardFile || r.1 is LoadBoardJson,
            has_prefix(msg@, "load "@) <==> r.1 is LoadBoardFile,
            r.1 matches Request::LoadBoardFile(f) ==> f@ == crate::text::spec_trim(crate::text::strip_prefixes(msg@, "load "@)),
            r.1 is LoadBoardFile || r.1 is LoadBoardJson ==> final(self).replies@ == old(self).replies@,
            r.1 is LoadBoardJson ==> has_prefix(msg@, "load_json"@),
            has_prefix(msg@, "load_json"@) ==> r.1 is LoadBoardJson || (r.1 is Nothing && final(self).replies@ == old(self).replies@.push(board_no_json())),
            msg@ != "default"@ && msg@ != "create"@ && msg@ != "help"@ && !has_prefix(msg@, "load "@) && !has_prefix(msg@, "load_json"@)
                ==> r.1 is Nothing && final(self).replies@ == old(self).replies@.push(init_board_invalid()),
    {
        proof {
            reveal_strlit("default");
            reveal_strlit("create");
            reveal_strlit("load ");
            reveal_strlit("help");
            reveal_strlit("load_json");
            assert(!has_prefix("default"@, "load "@)) by { assert("default"@.subrange(0, 5)[0] != "load "@[0]); }
            assert(!has_prefix("create"@, "load "@)) by { assert("create"@.subrange(0, 5)[0] != "load "@[0]); }
            assert(!has_prefix("load_json"@, "load "@)) by { assert("load_json"@.subrange(0, 5)[4] != "load "@[4]); }
            assert(!has_prefix("default"@, "load_json"@)) by { assert("default"@.len() < "load_json"@.len()); }
            assert(!has_prefix("create"@, "load_json"@)) by { assert("create"@.len() < "load_json"@.len()); }
            assert(!has_prefix("help"@, "load_json"@)) by { assert("help"@.len() < "load_json"@.len()); }
            assert(!has_prefix("help"@, "load "@)) by { assert("help"@.len() < "load "@.len()); }
            if has_prefix(msg@, "load_json"@) {
                assert(!has_prefix(msg@, "load "@)) by { assert(msg@[4] == "load_json"@[4]); }
            }
        }
        let m = msg.as_str();
        if str_eq(m, "default") {
            self.new_default_board();
            self.tell_default_board_reply();
            (Mode::InitPieces, Request::Nothing)
        } else if str_eq(m, "create") {
            self.new_default_board();
            self.tell_create_board_reply();
            (Mode::CreateBoard, Request::Nothing)
        } else if str_eq(m, "help") {
            self.tell_init_board_help();
            (Mode::InitBoard, Request::Nothing)
        } else if starts_with(m, "load ") {
            let filename = trim_text(trim_start_matches(m, "load "));
            (Mode::InitBoard, Request::LoadBoardFile(text(filename)))
        } else if starts_with(m, "load_json") {
            match self.next_json() {
                Some(json) => (Mode::InitBoard, Request::LoadBoardJson(json)),
                None => {
                    self.tell_board_no_json();
                    (Mode::InitBoard, Request::Nothing)
                },
            }
        } else {
            self.tell_init_board_invalid();
            (Mode::InitBoard, Request::Nothing)
        }
    }

    /// Takes the outcome of loading a board: on success the game has the board and goes on to
    /// its kinds of pieces; `source` names the file it came from, or nothing for a text.
    pub fn finish_board_load(&mut self, result: Result<Board, String>, source: Option<String>) -> (r: Mode)
        ensures
            r == final(self).current_mode,
            result matches Ok(b) ==> r == Mode::InitPieces && final(self).board == Some(b),
            result is Err ==> r == Mode::InitBoard && final(self).board == old(self).board,
            final(self).tui == old(self).tui,
    {
        match result {
            Ok(b) => {
                self.board = Some(b);
                let first = match &source {
                    Some(f) => cat("Board loaded from ", f.as_str()),
                    None => text("Board loaded from json"),
                };
                self.say(vec![first, text("Next: Initialize pieces"), text("Tip: Use 'show' at any point to view the board")]);
                self.current_mode = Mode::InitPieces;
            },
            Err(e) => {
                self.say(vec![cat("Failed to load board: ", e.as_str()), text("Try again or use 'default'")]);
                self.current_mode = Mode::InitBoard;
            },
        }
        self.current_mode
    }

    /// The board creator: the player sets the size, the history size and the rules that end the
    /// game or revive pieces, then goes on to the kinds of pieces.
    pub fn handle_create_board(&mut self, msg: String) -> (r: Mode)
        ensures
            final(self).current_mode == old(self).current_mode,
            msg@ == "continue"@ ==> r == Mode::InitPieces,
            msg@ != "continue"@ ==> r == Mode::CreateBoard,
            (final(self).board is Some) == (old(self).board is Some),
            old(self).board matches Some(b0) ==> (final(self).board matches Some(b1) && create_board_effect(&b0, &b1, msg@)),
            old(self).board is Some && has_prefix(msg@, "set size"@) ==> final(self).replies@ == old(self).replies@.push(set_size_reply(msg@)),
    {
        proof {
            reveal_strlit("help");
            reveal_strlit("continue");
            reveal_strlit("set size");
            reveal_strlit("set history_size");
            reveal_strlit("set history_size ");
            reveal_strlit("set end_condition");
            reveal_strlit("set win_condition White");
            reveal_strlit("set win_condition Black");
            reveal_strlit("set revive");
            assert("help"@.len() != "continue"@.len());
            assert(!has_prefix("continue"@, "set size"@)) by { assert("continue"@.subrange(0, 8)[0] != "set size"@[0]); }
            assert(!has_prefix("set end_condition"@, "set size"@)) by { assert("set end_condition"@.subrange(0, 8)[4] != "set size"@[4]); }
            assert(!has_prefix("set end_condition"@, "set history_size"@)) by { assert("set end_condition"@.subrange(0, 16)[4] != "set history_size"@[4]); }
            assert(!has_prefix("set win_condition White"@, "set size"@)) by { assert("set win_condition White"@.subrange(0, 8)[4] != "set size"@[4]); }
            assert(!has_prefix("set win_condition White"@, "set history_size"@)) by { assert("set win_condition White"@.subrange(0, 16)[4] != "set history_size"@[4]); }
            assert(!has_prefix("set win_condition Black"@, "set size"@)) by { assert("set win_condition Black"@.subrange(0, 8)[4] != "set size"@[4]); }
            assert(!has_prefix("set win_condition Black"@, "set history_size"@)) by { assert("set win_condition Black"@.subrange(0, 16)[4] != "set history_size"@[4]); }
            assert(!has_prefix("set revive"@, "set size"@)) by { assert("set revive"@.subrange(0, 8)[4] != "set size"@[4]); }
            assert("set win_condition White"@ != "set win_condition Black"@) by { assert("set win_condition White"@[18] != "set win_condition Black"@[18]); }
            reveal_strlit("show size");
            reveal_strlit("show history_size");
            reveal_strlit("show end_condition");
            reveal_strlit("show win_condition");
            reveal_strlit("show revive");
            assert(!has_prefix("show size"@, "set size"@)) by { assert("show size"@.subrange(0, 8)[1] != "set size"@[1]); }
            assert(!has_prefix("show history_size"@, "set size"@)) by { assert("show history_size"@.subrange(0, 8)[1] != "set size"@[1]); }
            assert(!has_prefix("show history_size"@, "set history_size"@)) by { assert("show history_size"@.subrange(0, 16)[1] != "set history_size"@[1]); }
            assert(!has_prefix("show end_condition"@, "set size"@)) by { assert("show end_condition"@.subrange(0, 8)[1] != "set size"@[1]); }
            assert(!has_prefix("show end_condition"@, "set history_size"@)) by { assert("show end_condition"@.subrange(0, 16)[1] != "set history_size"@[1]); }
            assert(!has_prefix("show win_condition"@, "set size"@)) by { assert("show win_condition"@.subrange(0, 8)[1] != "set size"@[1]); }
            assert(!has_prefix("show win_condition"@, "set history_size"@)) by { assert("show win_condition"@.subrange(0, 16)[1] != "set history_size"@[1]); }
            assert(!has_prefix("show revive"@, "set size"@)) by { assert("show revive"@.subrange(0, 8)[1] != "set size"@[1]); }
            assert("show end_condition"@ != "set end_condition"@) by { assert("show end_condition"@[1] != "set end_condition"@[1]); }
        }
        let m = msg.as_str();
        if str_eq(m, "help") {
            self.tell(vec![text("- 'continue': Go to piece placement"), text("- show size"), text("- show history_size"), text("- show end_condition"),
                text("- show win_condition"), text("- show revive"), text("- set size"), text("- set history_size"), text("- set end_condition"),
                text("- set win_condition [Black|White]"), text("- set revive"), text("- 'help': list available commands")]);
            return Mode::CreateBoard;
        }
        if str_eq(m, "continue") {
            self.tell(vec![text("Board created successfully!"), text("Next: Initialize pieces"), text("- 'continue': Go to piece placement"),
                text("- 'load <filename>: Load a piece from a file"), text("- 'load_json': Load a piece from json"),
                text("- 'create': enter piece creator"), text("- 'help': list available commands"),
                text("Tip: Use 'show' at any point to view the board")]);
            return Mode::InitPieces;
        }
        if self.board.is_none() {
            self.tell1("No board initialized yet.");
            return Mode::CreateBoard;
        }
        if str_eq(m, "show size") {
            self.get_dimensions();
        } else if str_eq(m, "show history_size") {
            if let Some(b) = &self.board {
                self.tell(vec![crate::text::int_to_text(b.history_size as i64)]);
            }
        } else if str_eq(m, "show end_condition") {
            if let Some(b) = &self.board {
                self.tell(vec![write_opt(&b.endcondition)]);
            }
        } else if str_eq(m, "show win_condition") {
            if let Some(b) = &self.board {
                self.tell(vec![debug_text(&b.wincondition.0), debug_text(&b.wincondition.1)]);
            }
        } else if str_eq(m, "show revive") {
            if let Some(b) = &self.board {
                self.tell(vec![debug_text(&b.revive)]);
            }
        } else if starts_with(m, "set size") {
            let size = trim_text(trim_start_matches(m, "set size"));
            match crate::text::parse_position_text(size) {
                Some(p) => {
                    let s0 = if p.0 == 0 { 1 } else { p.0 };
                    let s1 = if p.1 == 0 { 1 } else { p.1 };
                    let grid = empty_grid(s0, s1);
                    if let Some(b) = &mut self.board {
                        b.size = (s0, s1);
                        b.board = grid;
                    }
                    self.tell1("successfully set size");
                },
                None => {
                    self.tell2("wrong set size format", "eg: set size 1,2");
                },
            }
        } else if starts_with(m, "set history_size") {
            let size = trim_text(trim_start_matches(m, "set history_size "));
            match crate::text::parse_u32(size) {
                Some(n) => {
                    if let Some(b) = &mut self.board {
                        b.history_size = n;
                    }
                    self.tell1("successfully set history size");
                },
                None => {
                    self.tell(vec![text("wrong set history_size format"), text("eg: set history_size 2")]);
                },
            }
        } else if str_eq(m, "set end_condition") {
            let ec = self.new_rule(false);
            if let Some(b) = &mut self.board {
                b.endcondition = ec;
            }
        } else if str_eq(m, "set win_condition White") || str_eq(m, "set win_condition Black") {
            let white = str_eq(m, "set win_condition White");
            if let Some(wc) = self.new_rule(false) {
                if let Some(b) = &mut self.board {
                    if white {
                        b.wincondition.0 = wc;
                    } else {
                        b.wincondition.1 = wc;
                    }
                }
            }
        } else if str_eq(m, "set revive") {
            if let Some(wc) = self.new_rule(false) {
                if let Some(b) = &mut self.board {
                    b.revive = wc;
                }
            }
        } else {
            self.tell(vec![text("No such command"), text("Available commands:\nshow [size|history_size|end_condition|win_condition|revive]\nset [size|history_size|end_condition|revive]\nset win_condition [Black|White]")]);
        }
        Mode::CreateBoard
    }
}

impl Game {
    /// The names of the kinds of pieces the game knows, as a reply, when there is a board.
    fn list_pieces(&mut self)
        ensures
            final(self).board == old(self).board,
            final(self).current_mode == old(self).current_mode,
            old(self).board matches Some(b) ==> final(self).replies@.drop_last() == old(self).replies@
                && final(self).replies@.len() == old(self).replies@.len() + 1 && kind_names(b, final(self).replies@.last()),
            old(self).board is None ==> final(self).replies@ == old(self).replies@,
    {
        let names = match &self.board {
            Some(b) => Some(b.pieces.keys()),
            None => None,
        };
        if let Some(ks) = names {
            let ghost v = ks@.map_values(|l: String| l@);
            let ghost b = self.board->Some_0;
            proof {
                assert forall|k: Seq<char>| b.pieces@.contains_key(k) <==> v.contains(k) by {
                    if b.pieces@.contains_key(k) {
                        assert(crate::dict::listed(ks@, k));
                        let q = choose|q: int| 0 <= q < ks@.len() && (#[trigger] ks@[q])@ == k;
                        assert(v[q] == k);
                    }
                    if v.contains(k) {
                        let q = choose|q: int| 0 <= q < v.len() && v[q] == k;
                        assert(ks@[q]@ == k);
                        assert(crate::dict::listed(ks@, k));
                    }
                }
                assert forall|i: int, j: int| 0 <= i < v.len() && 0 <= j < v.len() && i != j implies v[i] != v[j] by {
                    if i < j {
                        assert(ks@[i]@ != ks@[j]@);
                    } else {
                        assert(ks@[j]@ != ks@[i]@);
                    }
                }
            }
            self.tell(ks);
            proof {
                assert(self.replies@.drop_last() =~= old(self).replies@);
            }
        }
    }

    /// The stage of the kinds of pieces: the player creates kinds or asks for them to be loaded,
    /// then goes on to place pieces.
    pub fn handle_init_pieces(&mut self, msg: String) -> (r: (Mode, Request))
        ensures
            !(r.1 is Quit),
            final(self).current_mode == old(self).current_mode,
            msg@ == "continue"@ ==> r.0 == Mode::PlacePieces && r.1 is Nothing && final(self).replies@ == old(self).replies@.push(init_pieces_done()),
            msg@ != "continue"@ ==> r.0 == Mode::InitPieces,
            (final(self).board is Some) == (old(self).board is Some),
            msg@ == "help"@ ==> r.1 is Nothing && final(self).replies@ == old(self).replies@.push(init_pieces_help()),
            msg@ == "list"@ ==> r.1 is Nothing && (old(self).board matches Some(b) ==> final(self).replies@.drop_last() == old(self).replies@
                && final(self).replies@.len() == old(self).replies@.len() + 1 && kind_names(b, final(self).replies@.last())),
            msg@ == "create"@ ==> final(self).replies@ == old(self).replies@.push(piece_creator_intro()),
            r.1 is Nothing || r.1 is LoadPieceFile || r.1 is LoadPieceJson || r.1 is SharePiece,
            has_prefix(msg@, "load "@) <==> r.1 is LoadPieceFile,
            r.1 matches Request::LoadPieceFile(f) ==> f@ == crate::text::spec_trim(crate::text::strip_prefixes(msg@, "load "@)),
            r.1 is LoadPieceFile || r.1 is LoadPieceJson ==> final(self).replies@ == old(self).replies@,
            r.1 is LoadPieceJson ==> has_prefix(msg@, "load_json"@),
            has_prefix(msg@, "load_json"@) ==> r.1 is LoadPieceJson || (r.1 is Nothing && final(self).replies@ == old(self).replies@.push(pieces_no_json())),
            r.1 is SharePiece ==> msg@ == "create"@,
            msg@ != "create"@ ==> final(self).board == old(self).board,
            msg@ != "continue"@ && msg@ != "help"@ && msg@ != "list"@ && msg@ != "create"@ && !has_prefix(msg@, "load "@) && !has_prefix(msg@, "load_json"@)
                ==> r.1 is Nothing && final(self).replies@ == old(self).replies@.push(init_pieces_invalid()),
    {
        proof {
            reveal_strlit("continue");
            reveal_strlit("help");
            reveal_strlit("list");
            reveal_strlit("create");
            reveal_strlit("load ");
            reveal_strlit("load_json");
            assert(!has_prefix("continue"@, "load "@)) by { assert("continue"@.subrange(0, 5)[0] != "load "@[0]); }
            assert(!has_prefix("create"@, "load "@)) by { assert("create"@.subrange(0, 5)[0] != "load "@[0]); }
            assert(!has_prefix("load_json"@, "load "@)) by { assert("load_json"@.subrange(0, 5)[4] != "load "@[4]); }
            assert(!has_prefix("continue"@, "load_json"@)) by { assert("continue"@.len() < "load_json"@.len()); }
            assert(!has_prefix("create"@, "load_json"@)) by { assert("create"@.len() < "load_json"@.len()); }
            assert(!has_prefix("help"@, "load_json"@)) by { assert("help"@.len() < "load_json"@.len()); }
            assert(!has_prefix("list"@, "load_json"@)) by { assert("list"@.len() < "load_json"@.len()); }
            assert(!has_prefix("help"@, "load "@)) by { assert("help"@.len() < "load "@.len()); }
            assert(!has_prefix("list"@, "load "@)) by { assert("list"@.len() < "load "@.len()); }
            if has_prefix(msg@, "load_json"@) {
                assert(!has_prefix(msg@, "load "@)) by { assert(msg@[4] == "load_json"@[4]); }
            }
            assert("continue"@.len() != "help"@.len());
            assert("continue"@.len() != "list"@.len());
            assert("continue"@.len() != "create"@.len());
            assert("help"@[0] != "list"@[0]);
        }
        let m = msg.as_str();
        if str_eq(m, "help") {
            self.tell_init_pieces_help();
            (Mode::InitPieces, Request::Nothing)
        } else if str_eq(m, "continue") {
            self.tell_init_pieces_done();
            (Mode::PlacePieces, Request::Nothing)
        } else if str_eq(m, "list") {
            let ghost b0 = self.board;
            self.list_pieces();
            proof {
                if b0 is Some {
                    let b = b0->Some_0;
                    assert(self.replies@.drop_last() == old(self).replies@);
                    assert(kind_names(b, self.replies@.last()));
                }
            }
            (Mode::InitPieces, Request::Nothing)
        } else if str_eq(m, "create") {
            self.tell_piece_creator_intro();
            let exit = self.create_piece(Piece::defualt_piece());
            match exit {
                crate::creator::PieceExit::Share(p) => (Mode::InitPieces, Request::SharePiece(p)),
                crate::creator::PieceExit::Done => (Mode::InitPieces, Request::Nothing),
            }
        } else if starts_with(m, "load ") {
            let filename = trim_text(trim_start_matches(m, "load "));
            (Mode::InitPieces, Request::LoadPieceFile(text(filename)))
        } else if starts_with(m, "load_json") {
            match self.next_json() {
                Some(json) => (Mode::InitPieces, Request::LoadPieceJson(json)),
                None => {
                    self.tell_pieces_no_json();
                    (Mode::InitPieces, Request::Nothing)
                },
            }
        } else {
            self.tell_init_pieces_invalid();
            (Mode::InitPieces, Request::Nothing)
        }
    }

    /// Goes on with the piece creator after the piece was sent in the exchange format; a piece
    /// with an id and a name has its name sent after it.
    pub fn resume_piece_creator(&mut self, piece: Piece) -> (r: Request)
        ensures
            final(self).current_mode == old(self).current_mode,
            (final(self).board is Some) == (old(self).board is Some),
            r is Nothing || r is SharePiece,
            old(self).board matches Some(b0) ==> (final(self).board matches Some(b1) && crate::creator::exported(&b0, &b1)
                && (r is SharePiece ==> b1.pieces@ == b0.pieces@)),
    {
        if !str_eq(piece.id.as_str(), "") && !str_eq(piece.name.as_str(), "") {
            let name = text(piece.name.as_str());
            self.say(vec![name]);
        }
        match self.create_piece(piece) {
            crate::creator::PieceExit::Share(p) => Request::SharePiece(p),
            crate::creator::PieceExit::Done => Request::Nothing,
        }
    }

    /// Takes the outcome of loading a kind of piece: on success the game knows the kind, under
    /// its id; `source` names the file it came from, or nothing for a text.
    pub fn finish_piece_load(&mut self, result: Result<Piece, String>, source: Option<String>)
        ensures
            final(self).current_mode == old(self).current_mode,
            (final(self).board is Some) == (old(self).board is Some),
            result is Ok && old(self).board is Some ==> final(self).board->0.pieces@ == old(self).board->0.pieces@.insert(result->Ok_0.id@, result->Ok_0@),
            result is Ok && old(self).board is Some ==> kind_added(&old(self).board->0, &final(self).board->0, result->Ok_0@),
            result is Err || old(self).board is None ==> final(self).board == old(self).board,
    {
        let outcome = match result {
            Ok(p) => match &mut self.board {
                Some(b) => {
                    b.register_piece(p);
                    Ok(())
                },
                None => Err(match &source {
                    Some(f) => cat("Could not load piece from: ", f.as_str()),
                    None => text("Could not load piece from json"),
                }),
            },
            Err(e) => Err(e),
        };
        match outcome {
            Ok(()) => {
                let line = match &source {
                    Some(f) => cat("Piece loaded from ", f.as_str()),
                    None => text("Piece loaded from json"),
                };
                self.say(vec![line]);
            },
            Err(e) => {
                self.say(vec![cat("Failed to load piece: ", e.as_str()), text("Try again or load another piece.")]);
            },
        }
    }

    /// The stage of placing pieces: the player puts pieces on squares or in cementaries, then
    /// starts the game.
    pub fn handle_place_pieces(&mut self, msg: String) -> (r: (Mode, Request))
        ensures
            r.1 is Nothing || r.1 is ExportBoard,
            (r.1 is ExportBoard) <==> (msg@ == "export"@ && old(self).board is Some),
            final(self).current_mode == old(self).current_mode,
            msg@ == "continue"@ ==> r.0 == Mode::Playing,
            msg@ != "continue"@ ==> r.0 == Mode::PlacePieces,
            (final(self).board is Some) == (old(self).board is Some),
            old(self).board matches Some(b0) ==> (final(self).board matches Some(b1) && (
                if has_prefix(msg@, "place "@) {
                    let a = command_args(msg@, "place "@);
                    if a.len() == 3 { place_effect(&b0, &b1, a[0], a[1], a[2]) } else { b1 == b0 }
                } else if has_prefix(msg@, "rest "@) {
                    let a = command_args(msg@, "rest "@);
                    if a.len() == 2 { rest_effect(&b0, &b1, a[0], a[1]) } else { b1 == b0 }
                } else {
                    b1 == b0
                })),
            old(self).board is Some && has_prefix(msg@, "rest "@) ==> final(self).replies@ == old(self).replies@.push(
                if command_args(msg@, "rest "@).len() == 2 {
                    rest_reply(&old(self).board->Some_0, command_args(msg@, "rest "@)[0], command_args(msg@, "rest "@)[1])
                } else {
                    seq!["Wrong number of arguments.\n rest [piece_name]  [player]"@]
                }),
    {
        proof {
            reveal_strlit("continue");
            reveal_strlit("help");
            reveal_strlit("list");
            reveal_strlit("export");
            reveal_strlit("show cementary white");
            reveal_strlit("show cementary black");
            reveal_strlit("place ");
            reveal_strlit("rest ");
            assert("continue"@.len() != "help"@.len());
            assert("continue"@.len() != "list"@.len());
            assert("continue"@.len() != "export"@.len());
            assert("continue"@.len() != "show cementary white"@.len());
            assert("continue"@.len() != "show cementary black"@.len());
            assert(!has_prefix("continue"@, "place "@)) by { assert("continue"@.subrange(0, 6)[0] != "place "@[0]); }
            assert(!has_prefix("continue"@, "rest "@)) by { assert("continue"@.subrange(0, 5)[0] != "rest "@[0]); }
            assert(!has_prefix("export"@, "place "@)) by { assert("export"@.subrange(0, 6)[0] != "place "@[0]); }
            assert(!has_prefix("export"@, "rest "@)) by { assert("export"@.subrange(0, 5)[0] != "rest "@[0]); }
            assert(!has_prefix("show cementary white"@, "place "@)) by { assert("show cementary white"@.subrange(0, 6)[0] != "place "@[0]); }
            assert(!has_prefix("show cementary white"@, "rest "@)) by { assert("show cementary white"@.subrange(0, 5)[0] != "rest "@[0]); }
            assert(!has_prefix("show cementary black"@, "place "@)) by { assert("show cementary black"@.subrange(0, 6)[0] != "place "@[0]); }
            assert(!has_prefix("show cementary black"@, "rest "@)) by { assert("show cementary black"@.subrange(0, 5)[0] != "rest "@[0]); }
        }
        let m = msg.as_str();
        if str_eq(m, "help") {
            self.tell(vec![text("- 'continue': Go to the game"), text("- 'place  <piece> <position> <player>': place piece at given possition and assign owner"),
                text("- 'rest <piece> <player>': place piece at the cementary and assign owner"), text("- 'list': list available pieces"),
                text("- 'export': export the game in json format"), text("- 'help': list available commands"),
                text("Tip: Use 'show' at any point to view the board")]);
            return (Mode::PlacePieces, Request::Nothing);
        }
        if str_eq(m, "continue") {
            self.tell(vec![text("Pieces placing ended."), text("Game is ready to start!"), text("Tip: Use 'show' to view the board")]);
            return (Mode::Playing, Request::Nothing);
        }
        if str_eq(m, "list") {
            self.list_pieces();
            return (Mode::PlacePieces, Request::Nothing);
        }
        if self.board.is_none() {
            self.tell1("No board initialized yet.");
            return (Mode::PlacePieces, Request::Nothing);
        }
        if str_eq(m, "show cementary white") || str_eq(m, "show cementary black") {
            if let Some(b) = &self.board {
                let c = if str_eq(m, "show cementary white") { &b.cementaries.0 } else { &b.cementaries.1 };
                self.tell(vec![cementary_names(c)]);
            }
            return (Mode::PlacePieces, Request::Nothing);
        }
        if str_eq(m, "export") {
            return (Mode::PlacePieces, Request::ExportBoard);
        }
        if starts_with(m, "place ") {
            let command = trim_text(trim_start_matches(m, "place "));
            let args = crate::text::words(command);
            if args.len() != 3 {
                self.tell1("Wrong number of arguments.\n place [name] [position] [player]");
                return (Mode::PlacePieces, Request::Nothing);
            }
            self.place_piece(args[0], args[1], args[2]);
            return (Mode::PlacePieces, Request::Nothing);
        }
        if starts_with(m, "rest ") {
            let command = trim_text(trim_start_matches(m, "rest "));
            let args = crate::text::words(command);
            if args.len() != 2 {
                self.tell1("Wrong number of arguments.\n rest [piece_name]  [player]");
                return (Mode::PlacePieces, Request::Nothing);
            }
            self.rest_piece(args[0], args[1]);
            return (Mode::PlacePieces, Request::Nothing);
        }
        self.tell(vec![text("Invalid pieces place command."), text("Use 'continue' or 'place <piece> <position> <player>' or 'rest <piece> <player>'"),
            text("Or use 'list' to get all loaded pieces."), text("For list of available command use 'help'")]);
        (Mode::PlacePieces, Request::Nothing)
    }

    /// `place name position player`: a new piece of kind `name`, owned by `player`, goes on
    /// `position`; its id is the number of the square in row order.
    pub fn place_piece(&mut self, piece_name: &str, position: &str, player: &str)
        ensures
            final(self).current_mode == old(self).current_mode,
            (final(self).board is Some) == (old(self).board is Some),
            old(self).board matches Some(b0) ==> (final(self).board matches Some(b1) && place_effect(&b0, &b1, piece_name@, position@, player@)),
    {
        let b = match &mut self.board {
            Some(b) => b,
            None => { return; },
        };
        let pos = match b.get_valid_position(position) {
            Some(p) => p,
            None => {
                self.tell1("Wrong position.\n please enter command again with valid position");
                return;
            },
        };
        let kind = match b.pieces.get(piece_name) {
            Some(k) => k,
            None => {
                self.tell1("no such piece in board");
                return;
            },
        };
        let id: u32 = pos.0.wrapping_mul(b.size.1).wrapping_add(pos.1);
        let mut piece = Piece::create_from(kind, id as i32);
        let pl = match crate::player::Player::from_str(player) {
            Some(p) => p,
            None => {
                self.tell1("Wrong player.\n please enter command again with valid player\n White/Black");
                return;
            },
        };
        piece.owner = pl;
        if !((pos.0 as usize) < b.board.len() && (pos.1 as usize) < b.board[pos.0 as usize].len()) {
            self.tell1("Wrong position.\n please enter command again with valid position");
            return;
        }
        let ghost b0 = *b;
        b.set_cell(pos.0, pos.1, Some(piece));
        proof {
            assert forall|x: int, y: int| (x, y) != (pos.0 as int, pos.1 as int) implies #[trigger] crate::board::cell_view(b, x, y) == crate::board::cell_view(&b0, x, y) by {
                assert(crate::board::cell(b, x, y) == crate::board::cell(&b0, x, y));
            }
        }
        self.tell(vec![cat("Placed ", piece_name)]);
    }

    /// `rest name player`: a new piece of kind `name`, owned by `player`, goes to that player's
    /// cementary; its id counts on from the squares (negated for White).
    pub fn rest_piece(&mut self, piece_name: &str, player: &str)
        ensures
            final(self).current_mode == old(self).current_mode,
            (final(self).board is Some) == (old(self).board is Some),
            old(self).board matches Some(b0) ==> (final(self).board matches Some(b1) && rest_effect(&b0, &b1, piece_name@, player@)),
            old(self).board matches Some(b0) ==> final(self).replies@ == old(self).replies@.push(rest_reply(&b0, piece_name@, player@)),
    {
        let b = match &mut self.board {
            Some(b) => b,
            None => { return; },
        };
        let pl = match crate::player::Player::from_str(player) {
            Some(p) => p,
            None => {
                self.tell1("Wrong player.\n please enter command again with valid player\n White/Black");
                return;
            },
        };
        let nm: i32 = b.size.0.wrapping_mul(b.size.1) as i32;
        let id: i32 = match pl {
            crate::player::Player::Black => nm.wrapping_add(b.cementaries.1.len() as i32),
            crate::player::Player::White => 0i32.wrapping_sub(nm.wrapping_add(b.cementaries.0.len() as i32)),
        };
        let kind = match b.pieces.get(piece_name) {
            Some(k) => k,
            None => {
                self.tell1("no such piece in board");
                return;
            },
        };
        let mut piece = Piece::create_from(kind, id);
        piece.owner = pl;
        let ghost b0 = *b;
        let ghost pv = piece@;
        assert(pv == new_piece(&b0, piece_name@, pl, rest_id(&b0, pl)));
        match pl {
            crate::player::Player::Black => {
                b.cementaries.1.push(piece);
                assert(crate::board::view_pieces(b.cementaries.1@) =~= crate::board::view_pieces(b0.cementaries.1@).push(pv));
            },
            crate::player::Player::White => {
                b.cementaries.0.push(piece);
                assert(crate::board::view_pieces(b.cementaries.0@) =~= crate::board::view_pieces(b0.cementaries.0@).push(pv));
            },
        }
        let placed = cat3("Placed ", piece_name, " in cementary");
        self.tell1(placed.as_str());
    }
}

impl Game {
    /// Asks the player to pick one of several moves by its number.
    fn pick_move(&self, v: &Vec<PMove>) -> (r: Option<usize>)
        requires
            v@.len() > 0,
        ensures
            r matches Some(i) ==> i < v@.len(),
    {
        let mut waited: u64 = 0;
        while waited < MAX_WAIT
            invariant
                v@.len() > 0,
            decreases MAX_WAIT - waited,
        {
            waited += 1;
            let last = crate::api::count_text(v.len() - 1);
            self.say(vec![cat3("Pick a move [0-", last.as_str(), "]")]);
            match self.next_message() {
                Some(msg) => {
                    if let Some(num) = crate::text::parse_u32(msg.as_str()) {
                        if (num as usize) < v.len() {
                            return Some(num as usize);
                        }
                    }
                },
                None => { return None; },
            }
        }
        None
    }

    /// `move a b`: the piece on `a` goes to `b`, by the one move it has there or by the one the
    /// player picks; the game then goes on or ends as the result says.
    fn play_move(&mut self, a: &str, b: &str) -> (r: Mode)
        ensures
            final(self).current_mode == old(self).current_mode,
            r == Mode::Playing || r == Mode::Finished,
            (final(self).board is Some) == (old(self).board is Some),
            old(self).board is Some && (crate::board::spec_valid_position(&old(self).board->Some_0, a@) is None
                || crate::board::spec_valid_position(&old(self).board->Some_0, b@) is None)
                ==> final(self).board == old(self).board && r == Mode::Playing
                    && final(self).replies@ == old(self).replies@.push(seq!["Wrong input.\n move [start position] [end position]"@]),
            old(self).board matches Some(b0) ==> (crate::board::spec_valid_position(&b0, a@) matches Some(p) ==> (
                crate::board::spec_valid_position(&b0, b@) matches Some(q) ==> (plain_move(&b0, p, q)
                ==> plain_move_played(&b0, final(self).board, p, q, r)))),
            old(self).board matches Some(b0) ==> (crate::board::spec_valid_position(&b0, a@) matches Some(p) ==> (
                crate::board::spec_valid_position(&b0, b@) matches Some(q) ==> (crate::board::in_size(&b0, p.0 as int, p.1 as int)
                && crate::board::in_size(&b0, q.0 as int, q.1 as int) && crate::board::cell(&b0, p.0 as int, p.1 as int) is Some
                ==> (final(self).board matches Some(b1) && turn_played(b0, p, q, b1, r))))),
    {
        let stay = Mode::Playing;
        let ghost b0 = self.board;
        let (pos1, pos2) = match &self.board {
            Some(board) => match (board.get_valid_position(a), board.get_valid_position(b)) {
                (Some(p), Some(q)) => (p, q),
                _ => {
                    self.tell1("Wrong input.\n move [start position] [end position]");
                    return stay;
                },
            },
            None => {
                self.tell1("No board initialized yet.");
                return stay;
            },
        };
        let moves = match &mut self.board {
            Some(board) => board.get_moves_to(pos1, pos2, 0),
            None => None,
        };
        let ghost bf = self.board->Some_0;
        let ghost found = crate::rules::opt_moves_view(moves);
        let ghost useful = b0 is Some && crate::board::in_size(&b0->Some_0, pos1.0 as int, pos1.1 as int)
            && crate::board::in_size(&b0->Some_0, pos2.0 as int, pos2.1 as int) && crate::board::cell(&b0->Some_0, pos1.0 as int, pos1.1 as int) is Some;
        let ghost mut wc0: Dict<String> = vstd::pervasive::arbitrary();
        let ghost mut wbm: Board = bf;
        let ghost mut wcm: Dict<String> = wc0;
        let ghost mut wx: RuleValue = RuleValue::Void;
        let ghost mut wt: Seq<(Board, Dict<String>, RuleValue)> = Seq::empty();
        proof {
            if useful {
                let (c0, bm, cm, x, t) = choose|c0: Dict<String>, bm: Board, cm: Dict<String>, x: RuleValue, t: Seq<(Board, Dict<String>, RuleValue)>|
                    #![trigger crate::rules::moves_found(b0->Some_0, pos1, pos2, 0, crate::eval::MATE_NESTING, c0, bm, cm, x, t, bf, found)]
                    crate::rules::moves_found(b0->Some_0, pos1, pos2, 0, crate::eval::MATE_NESTING, c0, bm, cm, x, t, bf, found);
                wc0 = c0; wbm = bm; wcm = cm; wx = x; wt = t;
                assert(crate::rules::moves_found(b0->Some_0, pos1, pos2, 0, crate::eval::MATE_NESTING, wc0, wbm, wcm, wx, wt, bf, found));
            }
        }
        let mut picked: usize = 0;
        let plmove = match moves {
            None => {
                let m = cat4("move from ", square_debug(pos1).as_str(), " to ", square_debug(pos2).as_str());
                self.tell(vec![cat(m.as_str(), " can't be perfomed")]);
                proof {
                    if useful {
                        assert(turn_played(b0->Some_0, pos1, pos2, bf, stay));
                    }
                }
                return stay;
            },
            Some(v) => {
                if v.len() == 1 {
                    proof { assert(crate::piece::view_moves(v@)[0] == v@[0]@); }
                    v[0].duplicate()
                } else if v.len() == 0 {
                    proof {
                        if useful {
                            assert(found->Some_0.len() > 0);
                        }
                    }
                    return stay;
                } else {
                    match self.pick_move(&v) {
                        Some(i) => {
                            picked = i;
                            proof { assert(crate::piece::view_moves(v@)[i as int] == v@[i as int]@); }
                            v[i].duplicate()
                        },
                        None => {
                            proof {
                                if useful {
                                    assert(found->Some_0.len() > 1);
                                    assert(turn_played(b0->Some_0, pos1, pos2, bf, stay));
                                }
                            }
                            return stay;
                        },
                    }
                }
            },
        };
        proof {
            if useful {
                assert(plmove@ == found->Some_0[picked as int]);
            }
        }
        let ghost pm = plmove@;
        proof {
            if b0 is Some && plain_move(&b0->Some_0, pos1, pos2) {
                let bb = b0->Some_0;
                assert(self.board == b0);
                let sq = crate::rules::spec_moves_to(crate::board::cell_view(&bb, pos1.0 as int, pos1.1 as int).unwrap(), pos1, pos2)->Some_0;
                assert(plmove@ == sq[0]);
                if plmove.consequences is Some {
                    let cv = plmove.consequences->Some_0;
                    assert(crate::pmove::view_boxed(cv@).len() == cv@.len());
                }
                assert(crate::play::quiet_move(&bb, pos1, pos2, &plmove));
            }
        }
        proof {
            if plmove.consequences is Some {
                let cv = plmove.consequences->Some_0;
                assert(crate::pmove::view_boxed(cv@).len() == cv@.len());
            }
            assert(quiet_view(&bf, pos1, pos2, plmove@) ==> crate::play::quiet_move(&bf, pos1, pos2, &plmove));
        }
        let res = match &mut self.board {
            Some(board) => board.make_move(pos1, pos2, plmove, &self.sender, &self.receiver, true, false),
            None => { return stay; },
        };
        proof {
            if useful {
                assert(move_made(bf, self.board->Some_0, pos1, pos2, pm, res));
            }
        }
        let ghost res_g = res;
        let r = match res {
            Ok(state) => {
                let r = self.match_game_state(state, stay);
                r
            },
            Err(mm) => {
                let m = cat4("move from ", square_debug(pos1).as_str(), " to ", square_debug(pos2).as_str());
                self.tell(vec![cat3(m.as_str(), " can't be perfomed, ", mm.as_str())]);
                stay
            },
        };
        proof {
            if useful {
                assert(r == stage_of_result(res_g));
                assert(move_made(bf, self.board->Some_0, pos1, pos2, found->Some_0[picked as int], res_g));
                assert(turn_played(b0->Some_0, pos1, pos2, self.board->Some_0, r));
            }
        }
        r
    }

    /// `revive i p`: the piece at index `i` of the cementary of the player to move comes back on
    /// `p`; the game then goes on or ends as the result says.
    fn play_revive(&mut self, i: &str, p: &str) -> (r: Mode)
        ensures
            final(self).current_mode == old(self).current_mode,
            r == Mode::Playing || r == Mode::Finished,
            (final(self).board is Some) == (old(self).board is Some),
            old(self).board matches Some(b0) && (crate::board::spec_valid_position(&b0, p@) is None || crate::text::spec_parse_u32(i@) is None)
                ==> final(self).board == old(self).board && r == Mode::Playing,
    {
        let stay = Mode::Playing;
        let (pos, white) = match &self.board {
            Some(board) => {
                let pos = board.get_valid_position(p);
                let idx = crate::text::parse_u32(i);
                if pos.is_none() || idx.is_none() {
                    self.tell1("Wrong index or position.\n revive [cementary index] [position]");
                    return stay;
                }
                (pos.unwrap(), board.current_player == crate::player::Player::White)
            },
            None => {
                self.tell1("No board initialized yet.");
                return stay;
            },
        };
        let idx = match crate::text::parse_u32(i) {
            Some(n) => n,
            None => { return stay; },
        };
        let res = match &mut self.board {
            Some(board) => board.revive_piece(white, idx, pos, &self.sender, &self.receiver, false),
            None => { return stay; },
        };
        match res {
            Ok(state) => self.match_game_state(state, stay),
            Err(mm) => {
                let m = cat4("revive from ", crate::text::int_to_text(idx as i64).as_str(), " to ", square_debug(pos).as_str());
                self.tell(vec![cat3(m.as_str(), " can't be perfomed, ", mm.as_str())]);
                stay
            },
        }
    }

    /// The stage of play: the player moves pieces and revives them until the game ends or the
    /// player ends it.
    pub fn handle_playing(&mut self, msg: String) -> (r: Mode)
        ensures
            final(self).current_mode == old(self).current_mode,
            msg@ == "end"@ ==> r == Mode::Finished,
            r == Mode::Playing || r == Mode::Finished,
            r == Mode::Finished ==> msg@ == "end"@ || has_prefix(msg@, "move "@) || has_prefix(msg@, "revive "@),
            msg@ == "end"@ ==> final(self).replies@ == old(self).replies@.push(seq!["Game ended."@, "Thank you for playing!"@]),
            old(self).board is Some && has_prefix(msg@, "move "@) && (command_args(msg@, "move "@).len() != 2
                || crate::board::spec_valid_position(&old(self).board->Some_0, command_args(msg@, "move "@)[0]) is None
                || crate::board::spec_valid_position(&old(self).board->Some_0, command_args(msg@, "move "@)[1]) is None)
                ==> final(self).replies@ == old(self).replies@.push(seq!["Wrong input.\n move [start position] [end position]"@]),
            (final(self).board is Some) == (old(self).board is Some),
            old(self).board matches Some(b0) ==> {
                let mv = command_args(msg@, "move "@);
                let rv = command_args(msg@, "revive "@);
                if has_prefix(msg@, "move "@) {
                    &&& (mv.len() != 2 || crate::board::spec_valid_position(&b0, mv[0]) is None || crate::board::spec_valid_position(&b0, mv[1]) is None
                        ==> final(self).board == old(self).board && r == Mode::Playing)
                    &&& (mv.len() == 2 ==> (crate::board::spec_valid_position(&b0, mv[0]) matches Some(p) ==> (
                        crate::board::spec_valid_position(&b0, mv[1]) matches Some(q) ==> (plain_move(&b0, p, q)
                        ==> plain_move_played(&b0, final(self).board, p, q, r)))))
                    &&& (mv.len() == 2 ==> (crate::board::spec_valid_position(&b0, mv[0]) matches Some(p) ==> (
                        crate::board::spec_valid_position(&b0, mv[1]) matches Some(q) ==> (crate::board::in_size(&b0, p.0 as int, p.1 as int)
                        && crate::board::in_size(&b0, q.0 as int, q.1 as int) && crate::board::cell(&b0, p.0 as int, p.1 as int) is Some
                        ==> (final(self).board matches Some(b1) && turn_played(b0, p, q, b1, r))))))
                } else if has_prefix(msg@, "revive "@) {
                    rv.len() != 2 || crate::text::spec_parse_u32(rv[0]) is None || crate::board::spec_valid_position(&b0, rv[1]) is None
                        ==> final(self).board == old(self).board && r == Mode::Playing
                } else {
                    final(self).board == old(self).board
                }
            },
    {
        proof {
            reveal_strlit("end");
            reveal_strlit("help");
            reveal_strlit("status");
            reveal_strlit("show cementary white");
            reveal_strlit("show cementary black");
            reveal_strlit("move ");
            reveal_strlit("revive ");
            assert(!has_prefix("status"@, "revive "@));
            assert(!has_prefix("show cementary white"@, "move "@)) by { assert("show cementary white"@.subrange(0, 5)[0] != "move "@[0]); }
            assert(!has_prefix("show cementary white"@, "revive "@)) by { assert("show cementary white"@.subrange(0, 7)[0] != "revive "@[0]); }
            assert(!has_prefix("show cementary black"@, "move "@)) by { assert("show cementary black"@.subrange(0, 5)[0] != "move "@[0]); }
            assert(!has_prefix("show cementary black"@, "revive "@)) by { assert("show cementary black"@.subrange(0, 7)[0] != "revive "@[0]); }
            assert(!has_prefix("status"@, "move "@)) by { assert("status"@.subrange(0, 5)[0] != "move "@[0]); }
            assert("end"@.len() != "help"@.len());
            assert("end"@.len() != "status"@.len());
            assert("end"@.len() != "show cementary white"@.len());
            assert("end"@.len() != "show cementary black"@.len());
        }
        let stay = Mode::Playing;
        let m = msg.as_str();
        if str_eq(m, "help") {
            self.tell(vec![text("- 'move  <position1> <position2> <player>': move piece at 'position1' to 'position2'"),
                text("- 'revive <cementary index> <position>': revive piece from own cementary and plave it at 'position'"),
                text("- 'show cementary <color>': show cementary of 'color' player"), text("- 'end': end game"),
                text("- 'help': list available commands"), text("Tip: Use 'show' at any point to view the board")]);
            stay
        } else if str_eq(m, "status") {
            self.tell1("Current game status:");
            stay
        } else if str_eq(m, "show cementary white") || str_eq(m, "show cementary black") {
            match &self.board {
                Some(b) => {
                    let c = if str_eq(m, "show cementary white") { &b.cementaries.0 } else { &b.cementaries.1 };
                    self.tell(vec![cementary_names(c)]);
                },
                None => self.tell1("No board initialized yet."),
            }
            stay
        } else if str_eq(m, "end") {
            self.tell2("Game ended.", "Thank you for playing!");
            Mode::Finished
        } else if starts_with(m, "move ") {
            let command = trim_text(trim_start_matches(m, "move "));
            let args = crate::text::words(command);
            if args.len() != 2 {
                self.tell1("Wrong input.\n move [start position] [end position]");
                return stay;
            }
            self.play_move(args[0], args[1])
        } else if starts_with(m, "revive ") {
            let command = trim_text(trim_start_matches(m, "revive "));
            let args = crate::text::words(command);
            if args.len() != 2 {
                self.tell1("Wrong input.\n revive [cementary index] [position]");
                return stay;
            }
            self.play_revive(args[0], args[1])
        } else {
            self.tell1("Unknown input, use 'help' to list available commands");
            stay
        }
    }

    /// Takes the outcome of loading a kind of piece sent with `verifypiece`.
    pub fn finish_verify_piece(&mut self, result: Result<Piece, String>)
        ensures
            final(self).current_mode == old(self).current_mode,
            (final(self).board is Some) == (old(self).board is Some),
            result is Ok && old(self).board is Some ==> kind_added(&old(self).board->0, &final(self).board->0, result->Ok_0@),
            result is Err || old(self).board is None ==> final(self).board == old(self).board,
    {
        self.finish_piece_load(result, None);
    }

    /// Handles one message of the player: the commands that work at every stage (`show`,
    /// `end`, `getstatus`, `getdimensions`, `currentwhite`, `verifypiece`), else the command of
    /// the stage the game is in, which gives the next stage. What needs files or the exchange
    /// format is asked of the caller.
    pub fn handle_message(&mut self, msg: String) -> (r: Request)
        ensures
            r is Quit <==> msg@ == "end"@,
            global_command(msg@) ==> final(self).current_mode == old(self).current_mode && final(self).board == old(self).board,
            has_prefix(msg@, "verifypiece"@) && msg@ != "end"@ && msg@ != "show"@ && msg@ != "getstatus"@ && msg@ != "getdimensions"@ && msg@ != "currentwhite"@
                ==> (r matches Request::VerifyPiece(j) && j@ == crate::text::spec_trim(crate::text::strip_prefixes(msg@, "verifypiece "@))),
            r is VerifyPiece ==> has_prefix(msg@, "verifypiece"@),
            !global_command(msg@) ==> match next_stage(old(self).current_mode, msg@) {
                Some(m) => final(self).current_mode == m,
                None => final(self).current_mode == Mode::Playing || final(self).current_mode == Mode::Finished,
            },
            (r is LoadBoardFile || r is LoadBoardJson) ==> old(self).current_mode == Mode::InitBoard,
            (r is LoadPieceFile || r is LoadPieceJson || r is SharePiece) ==> old(self).current_mode == Mode::InitPieces,
            r is ExportBoard ==> old(self).current_mode == Mode::PlacePieces && msg@ == "export"@,
    {
        proof {
            reveal_strlit("end");
            reveal_strlit("show");
            reveal_strlit("getstatus");
            reveal_strlit("getdimensions");
            reveal_strlit("currentwhite");
            reveal_strlit("verifypiece");
            assert("end"@.len() != "show"@.len());
            assert("end"@.len() != "getstatus"@.len());
            assert("end"@.len() != "getdimensions"@.len());
            assert("end"@.len() != "currentwhite"@.len());
            assert("end"@[0] != "verifypiece"@[0]);
        }
        let m = msg.as_str();
        if str_eq(m, "show") {
            self.show_board();
            return Request::Nothing;
        }
        if str_eq(m, "end") {
            return Request::Quit;
        }
        if str_eq(m, "getstatus") {
            let s = self.current_mode.to_string();
            self.status(s.as_str());
            return Request::Nothing;
        }
        if str_eq(m, "getdimensions") {
            self.get_dimensions();
            return Request::Nothing;
        }
        if str_eq(m, "currentwhite") {
            self.currentwhite();
            return Request::Nothing;
        }
        if starts_with(m, "verifypiece") {
            let json = trim_text(trim_start_matches(m, "verifypiece "));
            let args = crate::text::words(json);
            if args.len() != 1 {
                self.say1("Wrong input.\n verifypiece [json]");
            }
            return Request::VerifyPiece(text(json));
        }
        let (mode, request) = match self.current_mode {
            Mode::Start => (self.handle_start(msg), Request::Nothing),
            Mode::InitBoard => self.handle_init_board(msg),
            Mode::InitPieces => self.handle_init_pieces(msg),
            Mode::PlacePieces => self.handle_place_pieces(msg),
            Mode::Playing => (self.handle_playing(msg), Request::Nothing),
            Mode::Finished => (self.handle_finished(msg), Request::Nothing),
            Mode::CreateBoard => (self.handle_create_board(msg), Request::Nothing),
        };
        self.current_mode = mode;
        request
    }
}

} // verus!
