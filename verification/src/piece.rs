//! A kind of piece together with its rules, its memory and its owner.
use vstd::prelude::*;
use crate::dict::{DeepCopy, Dict};
use crate::player::Player;
use crate::pmove::{PMove, PMoveView};
use crate::rule::{RuleExpression, RuleValue, view_rule, view_rules};

verus! {

/// The rules of an optional list of rules.
pub open spec fn view_opt_rules(o: Option<Vec<RuleExpression>>) -> Option<Seq<RuleValue>> {
    match o {
        Some(v) => Some(view_rules(v@)),
        None => None,
    }
}

/// The rule of an optional rule.
pub open spec fn view_opt_rule(o: Option<RuleExpression>) -> Option<RuleValue> {
    match o {
        Some(e) => Some(view_rule(e)),
        None => None,
    }
}

/// The moves of a list of moves.
pub open spec fn view_moves(s: Seq<PMove>) -> Seq<PMoveView> {
    s.map_values(|m: PMove| m@)
}

/// The mathematical value of a piece.
pub ghost struct PieceView {
    pub id: Seq<char>,
    pub name: Seq<char>,
    pub deathrattle: Option<Seq<RuleValue>>,
    pub battlecry: Option<Seq<RuleValue>>,
    pub passive: Option<Seq<RuleValue>>,
    pub onmove: Option<Seq<RuleValue>>,
    pub aftermove: Option<Seq<RuleValue>>,
    pub onkill: Option<Seq<RuleValue>>,
    pub possiblemoves: Seq<PMoveView>,
    pub movecondition: Option<RuleValue>,
    pub memory: Map<Seq<char>, RuleValue>,
    pub owner: Player,
}

/// A piece: its kind (`id`, `name`), the rules that fire on events, its moves, its memory and
/// its owner.
#[derive(Debug)]
pub struct Piece {
    pub id: String,
    pub name: String,
    pub deathrattle: Option<Vec<RuleExpression>>,
    pub battlecry: Option<Vec<RuleExpression>>,
    pub passive: Option<Vec<RuleExpression>>,
    pub onmove: Option<Vec<RuleExpression>>,
    pub aftermove: Option<Vec<RuleExpression>>,
    pub onkill: Option<Vec<RuleExpression>>,
    pub possiblemoves: Vec<PMove>,
    pub movecondition: Option<RuleExpression>,
    pub memory: Dict<RuleExpression>,
    pub owner: Player,
}

impl View for Piece {
    type V = PieceView;

    open spec fn view(&self) -> PieceView {
        PieceView {
            id: self.id@,
            name: self.name@,
            deathrattle: view_opt_rules(self.deathrattle),
            battlecry: view_opt_rules(self.battlecry),
            passive: view_opt_rules(self.passive),
            onmove: view_opt_rules(self.onmove),
            aftermove: view_opt_rules(self.aftermove),
            onkill: view_opt_rules(self.onkill),
            possiblemoves: view_moves(self.possiblemoves@),
            movecondition: view_opt_rule(self.movecondition),
            memory: self.memory@,
            owner: self.owner,
        }
    }
}

/// Copies an optional list of rules.
pub fn copy_opt_rules(o: &Option<Vec<RuleExpression>>) -> (r: Option<Vec<RuleExpression>>)
    ensures
        view_opt_rules(r) == view_opt_rules(*o),
{
    match o {
        Some(v) => Some(RuleExpression::duplicate_all(v)),
        None => None,
    }
}

/// Copies a list of moves.
pub fn copy_moves(v: &Vec<PMove>) -> (r: Vec<PMove>)
    ensures
        view_moves(r@) == view_moves(v@),
{
    let mut out: Vec<PMove> = Vec::new();
    let mut i: usize = 0;
    while i < v.len()
        invariant
            i <= v.len(),
            out@.len() == i,
            forall|j: int| 0 <= j < i ==> (#[trigger] out@[j])@ == v@[j]@,
        decreases v.len() - i,
    {
        out.push(v[i].duplicate());
        i += 1;
    }
    assert(view_moves(out@) =~= view_moves(v@));
    out
}

impl Piece {
    /// A piece with no id, no name, no rules, no moves and an empty memory, owned by White.
    pub fn defualt_piece() -> (r: Piece)
        ensures
            r@.id.len() == 0,
            r@.name.len() == 0,
            r@.deathrattle is None,
            r@.battlecry is None,
            r@.passive is None,
            r@.onmove is None,
            r@.aftermove is None,
            r@.onkill is None,
            r@.possiblemoves.len() == 0,
            r@.movecondition is None,
            r@.memory == Map::<Seq<char>, RuleValue>::empty(),
            r.owner == Player::White,
    {
        let r = Piece {
            id: String::new(),
            name: String::new(),
            deathrattle: None,
            battlecry: None,
            passive: None,
            onmove: None,
            aftermove: None,
            onkill: None,
            possiblemoves: Vec::new(),
            movecondition: None,
            memory: Dict::new(),
            owner: Player::White,
        };
        assert(view_moves(r.possiblemoves@) =~= Seq::<PMoveView>::empty());
        r
    }

    /// Gives the piece to `pl`.
    pub fn set_owner(&mut self, pl: Player)
        ensures
            final(self)@ == (PieceView { owner: pl, ..old(self)@ }),
    {
        self.owner = pl;
    }

    /// Gives the piece to the other player.
    pub fn switch_owner(&mut self)
        ensures
            final(self)@ == (PieceView { owner: old(self).owner.spec_opponent(), ..old(self)@ }),
    {
        self.owner = self.owner.opponent();
    }

    /// A copy of the piece.
    pub fn duplicate(&self) -> (r: Piece)
        ensures
            r@ == self@,
    {
        Piece {
            id: self.id.clone(),
            name: self.name.clone(),
            deathrattle: copy_opt_rules(&self.deathrattle),
            battlecry: copy_opt_rules(&self.battlecry),
            passive: copy_opt_rules(&self.passive),
            onmove: copy_opt_rules(&self.onmove),
            aftermove: copy_opt_rules(&self.aftermove),
            onkill: copy_opt_rules(&self.onkill),
            possiblemoves: copy_moves(&self.possiblemoves),
            movecondition: match &self.movecondition {
                Some(e) => Some(e.duplicate()),
                None => None,
            },
            memory: self.memory.deep_copy(),
            owner: self.owner,
        }
    }

    /// A new piece made after the definition `kind`, whose memory records `id` under `id`.
    pub fn create_from(kind: &Piece, id: i32) -> (r: Piece)
        ensures
            r@ == (PieceView {
                memory: kind@.memory.insert("id"@, RuleValue::Integer(id)),
                ..kind@
            }),
    {
        let mut p = kind.duplicate();
        p.memory.insert(crate::text::text("id"), RuleExpression::Integer(id));
        p
    }
}

impl DeepCopy for Piece {
    fn deep_copy(&self) -> (r: Piece)
        ensures
            r@ == self@,
    {
        self.duplicate()
    }
}

} // verus!
