//! A possible move of a piece: the condition under which it applies and what it causes.
use vstd::prelude::*;
use crate::rule::{RuleExpression, RuleValue, view_rule};

verus! {

/// The rules of a list of boxed rules.
pub open spec fn view_boxed(s: Seq<Box<RuleExpression>>) -> Seq<RuleValue> {
    s.map_values(|b: Box<RuleExpression>| view_rule(*b))
}

/// The mathematical value of a move.
pub ghost struct PMoveView {
    pub condition: RuleValue,
    pub consequences: Option<Seq<RuleValue>>,
}

/// A move: `condition` says when it may be made, `consequences` are evaluated once it is made.
#[derive(Debug)]
pub struct PMove {
    pub condition: Box<RuleExpression>,
    pub consequences: Option<Vec<Box<RuleExpression>>>,
}

impl View for PMove {
    type V = PMoveView;

    open spec fn view(&self) -> PMoveView {
        PMoveView {
            condition: view_rule(*self.condition),
            consequences: match self.consequences {
                Some(v) => Some(view_boxed(v@)),
                None => None,
            },
        }
    }
}

/// Copies a list of boxed rules.
pub fn copy_boxed(v: &Vec<Box<RuleExpression>>) -> (r: Vec<Box<RuleExpression>>)
    ensures
        view_boxed(r@) == view_boxed(v@),
{
    let mut out: Vec<Box<RuleExpression>> = Vec::new();
    let mut i: usize = 0;
    while i < v.len()
        invariant
            i <= v.len(),
            out@.len() == i,
            forall|j: int| 0 <= j < i ==> view_rule(*#[trigger] out@[j]) == view_rule(*v@[j]),
        decreases v.len() - i,
    {
        out.push(Box::new(v[i].duplicate()));
        i += 1;
    }
    assert(view_boxed(out@) =~= view_boxed(v@));
    out
}

impl PMove {
    /// The move that is never possible and causes nothing.
    pub fn default_move() -> (r: PMove)
        ensures
            r@ == (PMoveView { condition: RuleValue::Boolean(false), consequences: None }),
    {
        PMove { condition: Box::new(RuleExpression::Boolean(false)), consequences: None }
    }

    /// A copy of the move.
    pub fn duplicate(&self) -> (r: PMove)
        ensures
            r@ == self@,
    {
        PMove {
            condition: Box::new(self.condition.duplicate()),
            consequences: match &self.consequences {
                Some(v) => Some(copy_boxed(v)),
                None => None,
            },
        }
    }
}

} // verus!
