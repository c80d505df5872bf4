//! Reading, with serde_json, the layout that a board file gives: the pieces it puts on the
//! squares (`initialboard`) and in the cementaries (`initialcementaries`).
use vstd::prelude::*;
use crate::board::Board;
use crate::layout::{cementary_layout, laid_out, Placement};
use crate::piece::PieceView;

verus! {

/// A placement as plain values: the id of the kind, the owner's name and the piece's id.
pub open spec fn placement_view(t: Placement) -> (Seq<char>, Seq<char>, i32) {
    (t.0@, t.1@, t.2)
}

/// A list of placements as plain values.
pub open spec fn placements_view(v: Vec<Option<Placement>>) -> Seq<Option<(Seq<char>, Seq<char>, i32)>> {
    v@.map_values(|o: Option<Placement>| match o {
        Some(t) => Some(placement_view(t)),
        None => None,
    })
}

/// A grid of placements, if any, as plain values.
pub open spec fn grid_view(g: Option<Vec<Vec<Option<Placement>>>>) -> Option<Seq<Seq<Option<(Seq<char>, Seq<char>, i32)>>>> {
    match g {
        Some(v) => Some(v@.map_values(|r: Vec<Option<Placement>>| placements_view(r))),
        None => None,
    }
}

/// A list of placements, if any, as plain values.
pub open spec fn list_view(c: Option<Vec<Option<Placement>>>) -> Option<Seq<Option<(Seq<char>, Seq<char>, i32)>>> {
    match c {
        Some(v) => Some(placements_view(v)),
        None => None,
    }
}

/// The grid of placements that serde_json reads under `key` of the JSON text `json`, if the
/// text is JSON and the value under the key reads as such a grid.
pub uninterp spec fn spec_grid_under(json: Seq<char>, key: Seq<char>) -> Option<Seq<Seq<Option<(Seq<char>, Seq<char>, i32)>>>>;

/// The list of placements that serde_json reads under `key` of the JSON text `json`, if the
/// text is JSON and the value under the key reads as such a list.
pub uninterp spec fn spec_list_under(json: Seq<char>, key: Seq<char>) -> Option<Seq<Option<(Seq<char>, Seq<char>, i32)>>>;

/// `serde_json::from_str::<serde_json::Value>`, then `serde_json::from_value` of the value under
/// `key` (`null` when absent) into a grid of placements: nothing when either fails. The result
/// is a function of the two texts alone, named `spec_grid_under`; what it is is not stated.
#[verifier::external_body]
fn grid_under(json: &str, key: &str) -> (r: Option<Vec<Vec<Option<Placement>>>>)
    ensures
        grid_view(r) == spec_grid_under(json@, key@),
{
    match serde_json::from_str::<serde_json::Value>(json) {
        Ok(v) => serde_json::from_value(v[key].clone()).ok(),
        Err(_) => None,
    }
}

/// `serde_json::from_str::<serde_json::Value>`, then `serde_json::from_value` of the value under
/// `key` (`null` when absent) into a list of placements: nothing when either fails. The result
/// is a function of the two texts alone, named `spec_list_under`; what it is is not stated.
#[verifier::external_body]
fn list_under(json: &str, key: &str) -> (r: Option<Vec<Option<Placement>>>)
    ensures
        list_view(r) == spec_list_under(json@, key@),
{
    match serde_json::from_str::<serde_json::Value>(json) {
        Ok(v) => serde_json::from_value(v[key].clone()).ok(),
        Err(_) => None,
    }
}

/// The layout a board file's text gives: the grid of placements under `initialboard` and the
/// list of placements under `initialcementaries`, each where it reads as one.
pub fn read_layout(json: &str) -> (r: (Option<Vec<Vec<Option<Placement>>>>, Option<Vec<Option<Placement>>>))
    ensures
        grid_view(r.0) == spec_grid_under(json@, "initialboard"@),
        list_view(r.1) == spec_list_under(json@, "initialcementaries"@),
{
    let grid = grid_under(json, "initialboard");
    let cementaries = list_under(json, "initialcementaries");
    (grid, cementaries)
}

impl Board {
    /// The board read from a board file's text, laid out as that text says (see `read_layout`
    /// and `lay_out`): an error when a cementary piece it lists has an unknown kind or a wrong
    /// owner.
    pub fn lay_out_json(self, json: &str) -> (r: Result<Board, String>)
        ensures
            match r {
                Ok(b) => exists|g: Option<Vec<Vec<Option<Placement>>>>, c: Option<Vec<Option<Placement>>>|
                    #![trigger laid_out(&self, g, c, &b)]
                    grid_view(g) == spec_grid_under(json@, "initialboard"@)
                    && list_view(c) == spec_list_under(json@, "initialcementaries"@)
                    && !(c matches Some(cs) && cementary_layout(&self, cs@) is Err)
                    && laid_out(&self, g, c, &b),
                Err(e) => exists|c: Vec<Option<Placement>>| #![trigger cementary_layout(&self, c@)]
                    list_view(Some(c)) == spec_list_under(json@, "initialcementaries"@)
                    && cementary_layout(&self, c@) == Err::<(Seq<PieceView>, Seq<PieceView>), Seq<char>>(e@),
            },
    {
        let ghost start = self;
        let (grid, cementaries) = read_layout(json);
        let ghost g = grid;
        let ghost c = cementaries;
        let r = self.lay_out(grid, cementaries);
        proof {
            if r is Ok {
                assert(laid_out(&start, g, c, &r->Ok_0));
            } else {
                assert(cementary_layout(&start, c->Some_0@) == Err::<(Seq<PieceView>, Seq<PieceView>), Seq<char>>(r->Err_0@));
            }
        }
        r
    }
}

} // verus!
