//! The rule language in which games describe moves, conditions and effects.
use vstd::prelude::*;
use crate::dict::{DeepCopy, Dict};


verus! {

/// The mathematical value of a rule: the same tree, with texts as sequences of characters.
pub ghost enum RuleValue {
    Void,
    Boolean(bool),
    Integer(i32),
    Diff(Box<RuleValue>, Box<RuleValue>),
    Sum(Box<RuleValue>, Box<RuleValue>),
    ApiCall(Seq<char>, Seq<Seq<char>>),
    Variable(Seq<char>),
    Pair(Box<RuleValue>, Box<RuleValue>),
    First(Box<RuleValue>),
    Second(Box<RuleValue>),
    And(Seq<RuleValue>),
    Or(Seq<RuleValue>),
    Not(Box<RuleValue>),
    Equals(Box<RuleValue>, Box<RuleValue>),
    If(Box<RuleValue>, Box<RuleValue>, Box<RuleValue>),
    Error(Seq<char>),
}

/// A rule: a condition, a value or an effect, evaluated against a board.
#[derive(Debug)]
pub enum RuleExpression {
    Void,
    Boolean(bool),
    Integer(i32),
    Diff(Box<RuleExpression>, Box<RuleExpression>),
    Sum(Box<RuleExpression>, Box<RuleExpression>),
    ApiCall(String, Vec<String>),
    Variable(String),
    Pair(Box<RuleExpression>, Box<RuleExpression>),
    First(Box<RuleExpression>),
    Second(Box<RuleExpression>),
    And(Vec<RuleExpression>),
    Or(Vec<RuleExpression>),
    Not(Box<RuleExpression>),
    Equals(Box<RuleExpression>, Box<RuleExpression>),
    If(Box<RuleExpression>, Box<RuleExpression>, Box<RuleExpression>),
    Error(String),
}

/// The texts of a list of strings.
pub open spec fn view_texts(v: Seq<String>) -> Seq<Seq<char>> {
    v.map_values(|s: String| s@)
}

pub open spec fn view_rule(e: RuleExpression) -> RuleValue
    decreases e,
{
    match e {
        RuleExpression::Void => RuleValue::Void,
        RuleExpression::Boolean(b) => RuleValue::Boolean(b),
        RuleExpression::Integer(i) => RuleValue::Integer(i),
        RuleExpression::Diff(a, b) => RuleValue::Diff(Box::new(view_rule(*a)), Box::new(view_rule(*b))),
        RuleExpression::Sum(a, b) => RuleValue::Sum(Box::new(view_rule(*a)), Box::new(view_rule(*b))),
        RuleExpression::ApiCall(n, a) => RuleValue::ApiCall(n@, view_texts(a@)),
        RuleExpression::Variable(n) => RuleValue::Variable(n@),
        RuleExpression::Pair(a, b) => RuleValue::Pair(Box::new(view_rule(*a)), Box::new(view_rule(*b))),
        RuleExpression::First(a) => RuleValue::First(Box::new(view_rule(*a))),
        RuleExpression::Second(a) => RuleValue::Second(Box::new(view_rule(*a))),
        RuleExpression::And(v) => RuleValue::And(view_rules(v@)),
        RuleExpression::Or(v) => RuleValue::Or(view_rules(v@)),
        RuleExpression::Not(a) => RuleValue::Not(Box::new(view_rule(*a))),
        RuleExpression::Equals(a, b) => RuleValue::Equals(Box::new(view_rule(*a)), Box::new(view_rule(*b))),
        RuleExpression::If(a, b, c) => RuleValue::If(Box::new(view_rule(*a)), Box::new(view_rule(*b)), Box::new(view_rule(*c))),
        RuleExpression::Error(s) => RuleValue::Error(s@),
    }
}

pub open spec fn view_rules(s: Seq<RuleExpression>) -> Seq<RuleValue>
    decreases s,
{
    if s.len() == 0 {
        Seq::empty()
    } else {
        view_rules(s.drop_last()).push(view_rule(s.last()))
    }
}

pub proof fn lemma_view_rules(s: Seq<RuleExpression>)
    ensures
        view_rules(s).len() == s.len(),
        forall|i: int| 0 <= i < s.len() ==> view_rules(s)[i] == view_rule(#[trigger] s[i]),
    decreases s.len(),
{
    if s.len() > 0 {
        lemma_view_rules(s.drop_last());
        assert forall|i: int| 0 <= i < s.len() implies view_rules(s)[i] == view_rule(#[trigger] s[i]) by {
            if i < s.len() - 1 {
                assert(s.drop_last()[i] == s[i]);
            }
        }
    }
}

pub proof fn lemma_view_rules_ext(a: Seq<RuleExpression>, b: Seq<RuleExpression>)
    requires
        a.len() == b.len(),
        forall|i: int| 0 <= i < a.len() ==> view_rule(#[trigger] a[i]) == view_rule(b[i]),
    ensures
        view_rules(a) == view_rules(b),
{
    lemma_view_rules(a);
    lemma_view_rules(b);
    assert(view_rules(a) =~= view_rules(b)) by {
        assert forall|i: int| 0 <= i < a.len() implies view_rules(a)[i] == view_rules(b)[i] by {
            assert(view_rule(a[i]) == view_rule(b[i]));
        }
    }
}

impl View for RuleExpression {
    type V = RuleValue;

    open spec fn view(&self) -> RuleValue {
        view_rule(*self)
    }
}

/// Copies a list of texts.
pub fn copy_texts(v: &Vec<String>) -> (r: Vec<String>)
    ensures
        view_texts(r@) == view_texts(v@),
{
    let mut out: Vec<String> = Vec::new();
    let mut i: usize = 0;
    while i < v.len()
        invariant
            i <= v.len(),
            out@.len() == i,
            forall|j: int| 0 <= j < i ==> (#[trigger] out@[j])@ == v@[j]@,
        decreases v.len() - i,
    {
        out.push(v[i].clone());
        i += 1;
    }
    assert(view_texts(out@) =~= view_texts(v@));
    out
}

impl RuleExpression {
    /// A copy of a list of rules.
    pub fn duplicate_all(v: &Vec<RuleExpression>) -> (r: Vec<RuleExpression>)
        ensures
            view_rules(r@) == view_rules(v@),
        decreases v, 1int,
    {
        let mut out: Vec<RuleExpression> = Vec::new();
        let mut i: usize = 0;
        while i < v.len()
            invariant
                i <= v.len(),
                out@.len() == i,
                forall|j: int| 0 <= j < i ==> (#[trigger] out@[j])@ == v@[j]@,
            decreases v.len() - i,
        {
            proof {
                assert(decreases_to!(*v => v@));
                assert(decreases_to!(v@ => v@[i as int]));
            }
            out.push(v[i].duplicate());
            i += 1;
        }
        proof {
            lemma_view_rules_ext(out@, v@);
        }
        out
    }

    /// A copy of the rule.
    pub fn duplicate(&self) -> (r: RuleExpression)
        ensures
            r@ == self@,
        decreases self, 0int,
    {
        match self {
            RuleExpression::Void => RuleExpression::Void,
            RuleExpression::Boolean(b) => RuleExpression::Boolean(*b),
            RuleExpression::Integer(i) => RuleExpression::Integer(*i),
            RuleExpression::Diff(a, b) => RuleExpression::Diff(Box::new(a.duplicate()), Box::new(b.duplicate())),
            RuleExpression::Sum(a, b) => RuleExpression::Sum(Box::new(a.duplicate()), Box::new(b.duplicate())),
            RuleExpression::ApiCall(n, a) => RuleExpression::ApiCall(n.clone(), copy_texts(a)),
            RuleExpression::Variable(n) => RuleExpression::Variable(n.clone()),
            RuleExpression::Pair(a, b) => RuleExpression::Pair(Box::new(a.duplicate()), Box::new(b.duplicate())),
            RuleExpression::First(a) => RuleExpression::First(Box::new(a.duplicate())),
            RuleExpression::Second(a) => RuleExpression::Second(Box::new(a.duplicate())),
            RuleExpression::And(v) => {
                proof { assert(decreases_to!(self => self->And_0)); }
                RuleExpression::And(RuleExpression::duplicate_all(v))
            },
            RuleExpression::Or(v) => {
                proof { assert(decreases_to!(self => self->Or_0)); }
                RuleExpression::Or(RuleExpression::duplicate_all(v))
            },
            RuleExpression::Not(a) => RuleExpression::Not(Box::new(a.duplicate())),
            RuleExpression::Equals(a, b) => RuleExpression::Equals(Box::new(a.duplicate()), Box::new(b.duplicate())),
            RuleExpression::If(a, b, c) => RuleExpression::If(Box::new(a.duplicate()), Box::new(b.duplicate()), Box::new(c.duplicate())),
            RuleExpression::Error(s) => RuleExpression::Error(s.clone()),
        }
    }
}

impl DeepCopy for RuleExpression {
    fn deep_copy(&self) -> (r: RuleExpression)
        ensures
            r@ == self@,
    {
        self.duplicate()
    }
}

} // verus!
