//! How the arguments of a call name a square: directly, through a variable of the context, or
//! through an entry of the history.
use vstd::prelude::*;
use crate::board::{Board, history_view, spec_valid_position};
use crate::dict::Dict;
use crate::pmove::PMoveView;
use crate::text::{parse_u32, spec_parse_pair, spec_parse_u32, str_eq};

verus! {

/// The texts of a list of arguments.
pub open spec fn arg_views(a: Seq<&str>) -> Seq<Seq<char>> {
    a.map_values(|s: &str| s@)
}

/// `position`, `pos` or `p`: the square is written in the next argument.
pub open spec fn is_pos_word(s: Seq<char>) -> bool {
    s == "position"@ || s == "pos"@ || s == "p"@
}

/// `variable`, `var` or `v`: the next argument names a variable that holds the square.
pub open spec fn is_var_word(s: Seq<char>) -> bool {
    s == "variable"@ || s == "var"@ || s == "v"@
}

/// `history` or `h`: the square is read from the history.
pub open spec fn is_hist_word(s: Seq<char>) -> bool {
    s == "history"@ || s == "h"@
}

/// `src` or `source`: the square a recorded move left.
pub open spec fn is_src_word(s: Seq<char>) -> bool {
    s == "src"@ || s == "source"@
}

/// `dst`, `dest` or `destination`: the square a recorded move reached.
pub open spec fn is_dst_word(s: Seq<char>) -> bool {
    s == "dst"@ || s == "dest"@ || s == "destination"@
}

pub fn pos_word(s: &str) -> (r: bool)
    ensures
        r == is_pos_word(s@),
{
    str_eq(s, "position") || str_eq(s, "pos") || str_eq(s, "p")
}

pub fn var_word(s: &str) -> (r: bool)
    ensures
        r == is_var_word(s@),
{
    str_eq(s, "variable") || str_eq(s, "var") || str_eq(s, "v")
}

pub fn hist_word(s: &str) -> (r: bool)
    ensures
        r == is_hist_word(s@),
{
    str_eq(s, "history") || str_eq(s, "h")
}

pub fn src_word(s: &str) -> (r: bool)
    ensures
        r == is_src_word(s@),
{
    str_eq(s, "src") || str_eq(s, "source")
}

pub fn dst_word(s: &str) -> (r: bool)
    ensures
        r == is_dst_word(s@),
{
    str_eq(s, "dst") || str_eq(s, "dest") || str_eq(s, "destination")
}

/// The entry `idx` moves back in the history, when the history keeps it.
pub open spec fn history_entry(b: &Board, idx: u32) -> Option<(PMoveView, ((u32, u32), (u32, u32)))> {
    if idx < b.history_size && idx < history_view(b).len() { Some(history_view(b)[idx as int]) } else { None }
}

/// The square that `which` (`src` or `dst`) picks from the history entry whose index `idx`
/// writes.
pub open spec fn history_square(b: &Board, which: Seq<char>, idx: Seq<char>) -> Option<(u32, u32)> {
    match spec_parse_u32(idx) {
        Some(i) => match history_entry(b, i) {
            Some(e) => if is_src_word(which) { Some(e.1.0) } else if is_dst_word(which) { Some(e.1.1) } else { None },
            None => None,
        },
        None => None,
    }
}

/// Whether the arguments that name a square are as many as their first word asks: two, or
/// three for the history.
pub open spec fn place_arity(a: Seq<Seq<char>>) -> bool {
    (a.len() == 2 && !is_hist_word(a[0])) || (a.len() == 3 && is_hist_word(a[0]))
}

/// Whether there are enough arguments to read a square from: a first word, a second after
/// a position or variable word, and a third after a history word.
pub open spec fn place_args(a: Seq<Seq<char>>) -> bool {
    &&& a.len() >= 1
    &&& (is_pos_word(a[0]) || is_var_word(a[0]) ==> a.len() >= 2)
    &&& (is_hist_word(a[0]) ==> a.len() >= 3)
}

/// The square that the arguments name, as `get_valid_position` reads it.
pub open spec fn locate(b: &Board, a: Seq<Seq<char>>, ctx: Map<Seq<char>, Seq<char>>) -> Option<(u32, u32)> {
    if is_pos_word(a[0]) {
        spec_valid_position(b, a[1])
    } else if is_var_word(a[0]) {
        if ctx.contains_key(a[1]) { spec_valid_position(b, ctx[a[1]]) } else { None }
    } else if is_hist_word(a[0]) {
        history_square(b, a[1], a[2])
    } else {
        None
    }
}

/// The pair of integers that the arguments name.
pub open spec fn locate_pair(b: &Board, a: Seq<Seq<char>>, ctx: Map<Seq<char>, Seq<char>>) -> Option<(i32, i32)> {
    if is_pos_word(a[0]) {
        spec_parse_pair(a[1])
    } else if is_var_word(a[0]) {
        if ctx.contains_key(a[1]) { spec_parse_pair(ctx[a[1]]) } else { None }
    } else if is_hist_word(a[0]) {
        match history_square(b, a[1], a[2]) {
            Some(p) => Some((p.0 as i32, p.1 as i32)),
            None => None,
        }
    } else {
        None
    }
}

impl Board {
    /// The square that `which` picks from the history entry whose index `idx` writes.
    pub fn history_square_of(&self, which: &str, idx: &str) -> (r: Option<(u32, u32)>)
        ensures
            r == history_square(self, which@, idx@),
    {
        let i = match parse_u32(idx) {
            Some(i) => i,
            None => { return None; },
        };
        match self.get_history(i) {
            Some(e) => {
                if src_word(which) {
                    Some(e.1.0)
                } else if dst_word(which) {
                    Some(e.1.1)
                } else {
                    None
                }
            },
            None => None,
        }
    }

    /// The square that `a` names; see `locate`.
    pub fn locate_in(&self, a: &Vec<&str>, context: &Dict<String>) -> (r: Option<(u32, u32)>)
        requires
            place_args(arg_views(a@)),
        ensures
            r == locate(self, arg_views(a@), context@),
    {
        if pos_word(a[0]) {
            self.get_valid_position(a[1])
        } else if var_word(a[0]) {
            match context.get(a[1]) {
                Some(s) => self.get_valid_position(s.as_str()),
                None => None,
            }
        } else if hist_word(a[0]) {
            self.history_square_of(a[1], a[2])
        } else {
            None
        }
    }

    /// The pair of integers that `a` names; see `locate_pair`.
    pub fn locate_pair_in(&self, a: &Vec<&str>, context: &Dict<String>) -> (r: Option<(i32, i32)>)
        requires
            place_args(arg_views(a@)),
        ensures
            r == locate_pair(self, arg_views(a@), context@),
    {
        if pos_word(a[0]) {
            self.get_pair(a[1])
        } else if var_word(a[0]) {
            match context.get(a[1]) {
                Some(s) => self.get_pair(s.as_str()),
                None => None,
            }
        } else if hist_word(a[0]) {
            match self.history_square_of(a[1], a[2]) {
                Some(p) => Some((p.0 as i32, p.1 as i32)),
                None => None,
            }
        } else {
            None
        }
    }

    /// The square that the arguments name: `position x,y`, `variable name` or
    /// `history src|dst index`; nothing when it cannot be read.
    pub fn match_and_get_valid_position(&mut self, args: Vec<&str>, context: &mut Dict<String>) -> (r: Option<(u32, u32)>)
        requires
            place_args(arg_views(args@)),
        ensures
            r == locate(old(self), arg_views(args@), old(context)@),
            *final(self) == *old(self),
            *final(context) == *old(context),
    {
        self.locate_in(&args, context)
    }

    /// The pair of integers that the arguments name, as `match_and_get_valid_position` reads
    /// them but with any integers allowed.
    pub fn match_and_get_pair(&mut self, args: Vec<&str>, context: &mut Dict<String>) -> (r: Option<(i32, i32)>)
        requires
            place_args(arg_views(args@)),
        ensures
            r == locate_pair(old(self), arg_views(args@), old(context)@),
            *final(self) == *old(self),
            *final(context) == *old(context),
    {
        self.locate_pair_in(&args, context)
    }
}

} // verus!
