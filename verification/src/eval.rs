//! Evaluation of rules against a board and a context of named values.
use vstd::prelude::*;
use std::sync::mpsc::{Receiver, Sender};
use crate::board::{Board, same_frame};
use crate::dict::Dict;
use crate::rule::{RuleExpression, RuleValue, view_rule, view_rules, lemma_view_rules};
use crate::text::{cat, cat3, cat4, debug_str, spec_debug_str, int_text, parse_bool, parse_i32, spec_parse_bool, spec_parse_i32, spec_split_once, split_once_comma, text};

verus! {

/// The bound on nested searches for a mate (each plays every move again) that lets their
/// termination be proved; no game comes near it.
pub const MATE_NESTING: u32 = 4294967295;

/// The deepest level of calls a rule may reach.
pub const MAX_DEPTH: u32 = 15;

/// The room left for nested calls at depth `d`.
pub open spec fn level(d: u32) -> int {
    if d <= 16 { 17 - d } else { 0 }
}

/// How `{:?}` writes a list of texts: each quoted, separated by `, `, in brackets.
pub open spec fn debug_texts(s: Seq<Seq<char>>) -> Seq<char> {
    "["@ + texts_joined(s) + "]"@
}

/// The quoted texts of a list, separated by `, `.
pub open spec fn texts_joined(s: Seq<Seq<char>>) -> Seq<char>
    decreases s.len(),
{
    if s.len() == 0 {
        Seq::empty()
    } else if s.len() == 1 {
        spec_debug_str(s[0])
    } else {
        texts_joined(s.drop_last()) + ", "@ + spec_debug_str(s.last())
    }
}

/// What `{:?}` writes for a rule: the variant's name and its fields in brackets, as the derived
/// debug text of the rule type shows them (the error variant under its name `Err`).
pub open spec fn spec_debug(e: RuleValue) -> Seq<char>
    decreases e, 0int,
{
    match e {
        RuleValue::Void => "Void"@,
        RuleValue::Boolean(b) => "Boolean("@ + (if b { "true"@ } else { "false"@ }) + ")"@,
        RuleValue::Integer(n) => "Integer("@ + int_text(n as int) + ")"@,
        RuleValue::Diff(a, b) => "Diff("@ + spec_debug(*a) + ", "@ + spec_debug(*b) + ")"@,
        RuleValue::Sum(a, b) => "Sum("@ + spec_debug(*a) + ", "@ + spec_debug(*b) + ")"@,
        RuleValue::ApiCall(n, a) => "ApiCall("@ + spec_debug_str(n) + ", "@ + debug_texts(a) + ")"@,
        RuleValue::Variable(n) => "Variable("@ + spec_debug_str(n) + ")"@,
        RuleValue::Pair(a, b) => "Pair("@ + spec_debug(*a) + ", "@ + spec_debug(*b) + ")"@,
        RuleValue::First(a) => "First("@ + spec_debug(*a) + ")"@,
        RuleValue::Second(a) => "Second("@ + spec_debug(*a) + ")"@,
        RuleValue::And(s) => "And(["@ + debug_items(s) + "])"@,
        RuleValue::Or(s) => "Or(["@ + debug_items(s) + "])"@,
        RuleValue::Not(a) => "Not("@ + spec_debug(*a) + ")"@,
        RuleValue::Equals(a, b) => "Equals("@ + spec_debug(*a) + ", "@ + spec_debug(*b) + ")"@,
        RuleValue::If(a, b, c) => "If("@ + spec_debug(*a) + ", "@ + spec_debug(*b) + ", "@ + spec_debug(*c) + ")"@,
        RuleValue::Error(m) => "Err("@ + spec_debug_str(m) + ")"@,
    }
}

/// The debug texts of a list of rules, separated by `, `.
pub open spec fn debug_items(s: Seq<RuleValue>) -> Seq<char>
    decreases s, 1int,
{
    if s.len() == 0 {
        Seq::empty()
    } else if s.len() == 1 {
        spec_debug(s[0])
    } else {
        debug_items(s.subrange(0, s.len() - 1)) + ", "@ + spec_debug(s[s.len() - 1])
    }
}

/// Writes a list of texts as `{:?}` does.
fn write_texts(v: &Vec<String>) -> (r: String)
    ensures
        r@ == debug_texts(crate::rule::view_texts(v@)),
{
    let ghost s = crate::rule::view_texts(v@);
    let mut out = String::new();
    let mut i: usize = 0;
    while i < v.len()
        invariant
            i <= v@.len(),
            s == crate::rule::view_texts(v@),
            s.len() == v@.len(),
            out@ == texts_joined(s.take(i as int)),
        decreases v.len() - i,
    {
        let d = debug_str(v[i].as_str());
        proof {
            assert(s.take(i + 1).drop_last() == s.take(i as int));
            assert(s.take(i + 1).last() == s[i as int]);
        }
        if i == 0 {
            out = d;
            proof {
                assert(s.take(1)[0] == s[0]);
            }
        } else {
            out = cat3(out.as_str(), ", ", d.as_str());
        }
        i += 1;
    }
    proof {
        assert(s.take(s.len() as int) == s);
    }
    cat3("[", out.as_str(), "]")
}

/// Writes a list of rules as `{:?}` does, without the brackets.
pub(crate) fn write_items(v: &Vec<RuleExpression>) -> (r: String)
    ensures
        r@ == debug_items(view_rules(v@)),
    decreases v, 1int,
{
    proof {
        lemma_view_rules(v@);
    }
    let ghost s = view_rules(v@);
    let mut out = String::new();
    let mut i: usize = 0;
    while i < v.len()
        invariant
            i <= v@.len(),
            s == view_rules(v@),
            s.len() == v@.len(),
            forall|j: int| 0 <= j < v@.len() ==> s[j] == view_rule(#[trigger] v@[j]),
            out@ == debug_items(s.take(i as int)),
        decreases v.len() - i,
    {
        proof {
            assert(decreases_to!(*v => v@));
            assert(decreases_to!(v@ => v@[i as int]));
        }
        let d = debug_text(&v[i]);
        proof {
            let t = s.take(i + 1);
            assert(t.subrange(0, t.len() - 1) == s.take(i as int));
            assert(t[t.len() - 1] == s[i as int]);
        }
        if i == 0 {
            out = d;
            proof {
                assert(s.take(1)[0] == s[0]);
            }
        } else {
            out = cat3(out.as_str(), ", ", d.as_str());
        }
        i += 1;
    }
    proof {
        assert(s.take(s.len() as int) == s);
    }
    out
}

/// `format!("{:?}", e)` for a rule.
pub(crate) fn debug_text(e: &RuleExpression) -> (r: String)
    ensures
        r@ == spec_debug(e@),
    decreases e, 0int,
{
    match e {
        RuleExpression::Void => text("Void"),
        RuleExpression::Boolean(b) => cat3("Boolean(", if *b { "true" } else { "false" }, ")"),
        RuleExpression::Integer(n) => {
            let t = crate::text::int_to_text(*n as i64);
            cat3("Integer(", t.as_str(), ")")
        },
        RuleExpression::Diff(a, b) => {
            let x = debug_text(a);
            let y = debug_text(b);
            cat4("Diff(", x.as_str(), ", ", cat(y.as_str(), ")").as_str())
        },
        RuleExpression::Sum(a, b) => {
            let x = debug_text(a);
            let y = debug_text(b);
            cat4("Sum(", x.as_str(), ", ", cat(y.as_str(), ")").as_str())
        },
        RuleExpression::ApiCall(n, a) => {
            let x = debug_str(n.as_str());
            let y = write_texts(a);
            let t = cat3("ApiCall(", x.as_str(), ", ");
            cat3(t.as_str(), y.as_str(), ")")
        },
        RuleExpression::Variable(n) => {
            let x = debug_str(n.as_str());
            cat3("Variable(", x.as_str(), ")")
        },
        RuleExpression::Pair(a, b) => {
            let x = debug_text(a);
            let y = debug_text(b);
            cat4("Pair(", x.as_str(), ", ", cat(y.as_str(), ")").as_str())
        },
        RuleExpression::First(a) => {
            let x = debug_text(a);
            cat3("First(", x.as_str(), ")")
        },
        RuleExpression::Second(a) => {
            let x = debug_text(a);
            cat3("Second(", x.as_str(), ")")
        },
        RuleExpression::And(v) => {
            proof { assert(decreases_to!(e => e->And_0)); }
            let x = write_items(v);
            cat3("And([", x.as_str(), "])")
        },
        RuleExpression::Or(v) => {
            proof { assert(decreases_to!(e => e->Or_0)); }
            let x = write_items(v);
            cat3("Or([", x.as_str(), "])")
        },
        RuleExpression::Not(a) => {
            let x = debug_text(a);
            cat3("Not(", x.as_str(), ")")
        },
        RuleExpression::Equals(a, b) => {
            let x = debug_text(a);
            let y = debug_text(b);
            cat4("Equals(", x.as_str(), ", ", cat(y.as_str(), ")").as_str())
        },
        RuleExpression::If(a, b, c) => {
            let x = debug_text(a);
            let y = debug_text(b);
            let z = debug_text(c);
            let t = cat4("If(", x.as_str(), ", ", y.as_str());
            let u = cat3(t.as_str(), ", ", z.as_str());
            cat(u.as_str(), ")")
        },
        RuleExpression::Error(m) => {
            let x = debug_str(m.as_str());
            cat3("Err(", x.as_str(), ")")
        },
    }
}

/// The message `prefix` followed by the debug text of `a`.
pub open spec fn msg1(prefix: Seq<char>, a: RuleValue) -> Seq<char> {
    prefix + spec_debug(a)
}

/// The message `prefix` followed by the debug texts of `a` and `b`, separated by a comma.
pub open spec fn msg2(prefix: Seq<char>, a: RuleValue, b: RuleValue) -> Seq<char> {
    prefix + spec_debug(a) + ", "@ + spec_debug(b)
}

/// Whether a rule calls the board nowhere.
pub open spec fn api_free(e: RuleValue) -> bool
    decreases e,
{
    match e {
        RuleValue::ApiCall(_, _) => false,
        RuleValue::Diff(a, b) => api_free(*a) && api_free(*b),
        RuleValue::Sum(a, b) => api_free(*a) && api_free(*b),
        RuleValue::Pair(a, b) => api_free(*a) && api_free(*b),
        RuleValue::Equals(a, b) => api_free(*a) && api_free(*b),
        RuleValue::First(a) => api_free(*a),
        RuleValue::Second(a) => api_free(*a),
        RuleValue::Not(a) => api_free(*a),
        RuleValue::If(a, b, c) => api_free(*a) && api_free(*b) && api_free(*c),
        RuleValue::And(s) => all_api_free(s),
        RuleValue::Or(s) => all_api_free(s),
        _ => true,
    }
}

pub open spec fn all_api_free(s: Seq<RuleValue>) -> bool
    decreases s,
{
    if s.len() == 0 {
        true
    } else {
        api_free(s[0]) && all_api_free(s.subrange(1, s.len() as int))
    }
}

/// The size of a rule: one for each node, two for a conjunction or disjunction node.
pub open spec fn rule_size(e: RuleValue) -> nat
    decreases e,
{
    match e {
        RuleValue::Diff(a, b) => 1 + rule_size(*a) + rule_size(*b),
        RuleValue::Sum(a, b) => 1 + rule_size(*a) + rule_size(*b),
        RuleValue::Pair(a, b) => 1 + rule_size(*a) + rule_size(*b),
        RuleValue::Equals(a, b) => 1 + rule_size(*a) + rule_size(*b),
        RuleValue::First(a) => 1 + rule_size(*a),
        RuleValue::Second(a) => 1 + rule_size(*a),
        RuleValue::Not(a) => 1 + rule_size(*a),
        RuleValue::If(a, b, c) => 1 + rule_size(*a) + rule_size(*b) + rule_size(*c),
        RuleValue::And(s) => 2 + rules_size(s),
        RuleValue::Or(s) => 2 + rules_size(s),
        _ => 1,
    }
}

/// The total size of a list of rules.
pub open spec fn rules_size(s: Seq<RuleValue>) -> nat
    decreases s,
{
    if s.len() == 0 {
        0
    } else {
        rule_size(s[0]) + rules_size(s.subrange(1, s.len() as int))
    }
}

/// No rule of a list is larger than the list.
pub proof fn lemma_rules_size(s: Seq<RuleValue>, i: int)
    requires
        0 <= i < s.len(),
    ensures
        rule_size(s[i]) <= rules_size(s),
    decreases s.len(),
{
    if i > 0 {
        let t = s.subrange(1, s.len() as int);
        lemma_rules_size(t, i - 1);
        assert(t[i - 1] == s[i]);
    }
}

/// Whether a rule is a result of evaluation: nothing, a boolean, an integer, an error, a text or
/// a pair of results.
pub open spec fn is_value(v: RuleValue) -> bool
    decreases v,
{
    match v {
        RuleValue::Void => true,
        RuleValue::Boolean(_) => true,
        RuleValue::Integer(_) => true,
        RuleValue::Error(_) => true,
        RuleValue::Variable(_) => true,
        RuleValue::Pair(a, b) => is_value(*a) && is_value(*b),
        _ => false,
    }
}

/// How deeply pairs nest in a result; a text counts as one level, since it may name a pair.
pub open spec fn vdepth(v: RuleValue) -> nat
    decreases v,
{
    match v {
        RuleValue::Pair(a, b) => {
            let x = vdepth(*a);
            let y = vdepth(*b);
            1 + if x > y { x } else { y }
        },
        RuleValue::Variable(_) => 1,
        _ => 0,
    }
}

/// The value a context gives to the variable `name`: an integer, a boolean, a pair of integers
/// written `x,y`, or else the text itself.
pub open spec fn var_value(ctx: Map<Seq<char>, Seq<char>>, name: Seq<char>) -> RuleValue {
    if !ctx.contains_key(name) {
        RuleValue::Error("No variable "@ + name + " in context"@)
    } else {
        let v = ctx[name];
        if spec_parse_i32(v) is Some {
            RuleValue::Integer(spec_parse_i32(v).unwrap())
        } else if spec_parse_bool(v) is Some {
            RuleValue::Boolean(spec_parse_bool(v).unwrap())
        } else {
            match spec_split_once(v) {
                Some((p1, p2)) => match (spec_parse_i32(p1), spec_parse_i32(p2)) {
                    (Some(a), Some(b)) => RuleValue::Pair(Box::new(RuleValue::Integer(a)), Box::new(RuleValue::Integer(b))),
                    _ => RuleValue::Variable(v),
                },
                None => RuleValue::Variable(v),
            }
        }
    }
}

/// Evaluating a result again: texts are looked up anew, pairs are evaluated part by part.
pub open spec fn value_eval(v: RuleValue, ctx: Map<Seq<char>, Seq<char>>) -> RuleValue
    decreases v,
{
    match v {
        RuleValue::Variable(n) => var_value(ctx, n),
        RuleValue::Pair(a, b) => {
            let x = value_eval(*a, ctx);
            if x is Error {
                x
            } else {
                let y = value_eval(*b, ctx);
                if y is Error {
                    y
                } else {
                    RuleValue::Pair(Box::new(x), Box::new(y))
                }
            }
        },
        _ => v,
    }
}

pub proof fn lemma_value_eval(v: RuleValue, ctx: Map<Seq<char>, Seq<char>>)
    requires
        is_value(v),
    ensures
        is_value(value_eval(v, ctx)),
        vdepth(value_eval(v, ctx)) <= vdepth(v),
    decreases v,
{
    match v {
        RuleValue::Pair(a, b) => {
            lemma_value_eval(*a, ctx);
            lemma_value_eval(*b, ctx);
            let x = value_eval(*a, ctx);
            let y = value_eval(*b, ctx);
            if !(x is Error) && !(y is Error) {
                let r = RuleValue::Pair(Box::new(x), Box::new(y));
                assert(value_eval(v, ctx) == r);
                assert(vdepth(r) == 1 + if vdepth(x) > vdepth(y) { vdepth(x) } else { vdepth(y) });
            }
        },
        RuleValue::Variable(n) => {
            let r = var_value(ctx, n);
            reveal_with_fuel(is_value, 2);
            reveal_with_fuel(vdepth, 2);
            assert(is_value(r) && vdepth(r) <= 1);
        },
        _ => {},
    }
}

/// Comparing two results for equality; pairs are compared part by part after evaluating their
/// parts again.
pub open spec fn compare_spec(x: RuleValue, y: RuleValue, ctx: Map<Seq<char>, Seq<char>>) -> RuleValue
    decreases vdepth(x) + vdepth(y),
{
    match (x, y) {
        (RuleValue::Void, RuleValue::Void) => RuleValue::Boolean(true),
        (RuleValue::Integer(a), RuleValue::Integer(b)) => RuleValue::Boolean(a == b),
        (RuleValue::Boolean(a), RuleValue::Boolean(b)) => RuleValue::Boolean(a == b),
        (RuleValue::Pair(a, b), RuleValue::Pair(c, d)) => {
            let a1 = value_eval(*a, ctx);
            let b1 = value_eval(*b, ctx);
            let c1 = value_eval(*c, ctx);
            let d1 = value_eval(*d, ctx);
            if a1 is Error { a1 } else if b1 is Error { b1 } else if c1 is Error { c1 } else if d1 is Error { d1 } else {
                let a2 = value_eval(a1, ctx);
                let c2 = value_eval(c1, ctx);
                if a2 is Error { a2 } else if c2 is Error { c2 } else {
                    let e1 = if is_value(*a) && is_value(*c) && vdepth(a2) + vdepth(c2) < vdepth(x) + vdepth(y) {
                        compare_spec(a2, c2, ctx)
                    } else {
                        RuleValue::Void
                    };
                    if e1 is Error { e1 } else {
                        let b2 = value_eval(b1, ctx);
                        let d2 = value_eval(d1, ctx);
                        if b2 is Error { b2 } else if d2 is Error { d2 } else {
                            let e2 = if is_value(*b) && is_value(*d) && vdepth(b2) + vdepth(d2) < vdepth(x) + vdepth(y) {
                                compare_spec(b2, d2, ctx)
                            } else {
                                RuleValue::Void
                            };
                            if e2 is Error { e2 } else {
                                match (e1, e2) {
                                    (RuleValue::Boolean(p), RuleValue::Boolean(q)) => RuleValue::Boolean(p && q),
                                    _ => RuleValue::Error(msg2("Cannot compare different types: "@, e1, e2)),
                                }
                            }
                        }
                    }
                }
            }
        },
        _ => RuleValue::Error(msg2("Cannot compare different types: "@, x, y)),
    }
}

/// `|a - b|`, when it fits an `i32`.
pub open spec fn diff_value(a: i32, b: i32) -> RuleValue {
    let d = if a - b < 0 { b - a } else { a - b };
    if d <= i32::MAX { RuleValue::Integer(d as i32) } else { RuleValue::Error("integer overflow"@) }
}

/// `a + b`, when it fits an `i32`.
pub open spec fn sum_value(a: i32, b: i32) -> RuleValue {
    if i32::MIN <= a + b <= i32::MAX { RuleValue::Integer((a + b) as i32) } else { RuleValue::Error("integer overflow"@) }
}

/// The result of evaluating, in the context `ctx`, a rule that calls the board nowhere.
pub open spec fn pure_eval(e: RuleValue, ctx: Map<Seq<char>, Seq<char>>) -> RuleValue
    decreases e,
{
    match e {
        RuleValue::Variable(n) => var_value(ctx, n),
        RuleValue::Pair(a, b) => {
            let x = pure_eval(*a, ctx);
            if x is Error { x } else {
                let y = pure_eval(*b, ctx);
                if y is Error { y } else { RuleValue::Pair(Box::new(x), Box::new(y)) }
            }
        },
        RuleValue::Equals(a, b) => {
            let x = pure_eval(*a, ctx);
            if x is Error { x } else {
                let y = pure_eval(*b, ctx);
                if y is Error { y } else { compare_spec(x, y, ctx) }
            }
        },
        RuleValue::Diff(a, b) => {
            let x = pure_eval(*a, ctx);
            if x is Error { x } else {
                let y = pure_eval(*b, ctx);
                if y is Error { y } else {
                    match (x, y) {
                        (RuleValue::Integer(i), RuleValue::Integer(j)) => diff_value(i, j),
                        _ => RuleValue::Error(msg2("Cannot calculate absolute difference for: "@, x, y)),
                    }
                }
            }
        },
        RuleValue::Sum(a, b) => {
            let x = pure_eval(*a, ctx);
            if x is Error { x } else {
                let y = pure_eval(*b, ctx);
                if y is Error { y } else {
                    match (x, y) {
                        (RuleValue::Integer(i), RuleValue::Integer(j)) => sum_value(i, j),
                        _ => RuleValue::Error(msg2("Cannot calculate sum for: "@, x, y)),
                    }
                }
            }
        },
        RuleValue::First(a) => {
            let x = pure_eval(*a, ctx);
            match x {
                RuleValue::Error(_) => x,
                RuleValue::Pair(p, _) => *p,
                _ => RuleValue::Error(msg1("Not a pair: "@, x)),
            }
        },
        RuleValue::Second(a) => {
            let x = pure_eval(*a, ctx);
            match x {
                RuleValue::Error(_) => x,
                RuleValue::Pair(_, q) => *q,
                _ => RuleValue::Error(msg1("Not a pair: "@, x)),
            }
        },
        RuleValue::Not(a) => {
            let x = pure_eval(*a, ctx);
            match x {
                RuleValue::Error(_) => x,
                RuleValue::Boolean(b) => RuleValue::Boolean(!b),
                RuleValue::Integer(i) => if i == 0 { RuleValue::Integer(1) } else { RuleValue::Integer(0) },
                _ => RuleValue::Error(msg1("Cannot calculate a negation for: "@, x)),
            }
        },
        RuleValue::If(c, t, f) => {
            let x = pure_eval(*c, ctx);
            match x {
                RuleValue::Error(_) => x,
                RuleValue::Boolean(b) => if b { pure_eval(*t, ctx) } else { pure_eval(*f, ctx) },
                _ => RuleValue::Error(msg1("Not a boolean: "@, x)),
            }
        },
        RuleValue::And(s) => and_eval(s, ctx),
        RuleValue::Or(s) => or_eval(s, ctx),
        _ => e,
    }
}

/// Evaluating the rules of a conjunction in order, stopping at the first that is false or
/// not a boolean.
pub open spec fn and_eval(s: Seq<RuleValue>, ctx: Map<Seq<char>, Seq<char>>) -> RuleValue
    decreases s,
{
    if s.len() == 0 {
        RuleValue::Boolean(true)
    } else {
        let v = pure_eval(s[0], ctx);
        match v {
            RuleValue::Error(_) => v,
            RuleValue::Boolean(b) => if b { and_eval(s.subrange(1, s.len() as int), ctx) } else { RuleValue::Boolean(false) },
            _ => RuleValue::Error(msg1("Not a boolean: "@, v)),
        }
    }
}

/// Evaluating the rules of a disjunction in order, stopping at the first that is true or not a
/// boolean.
pub open spec fn or_eval(s: Seq<RuleValue>, ctx: Map<Seq<char>, Seq<char>>) -> RuleValue
    decreases s,
{
    if s.len() == 0 {
        RuleValue::Boolean(false)
    } else {
        let v = pure_eval(s[0], ctx);
        match v {
            RuleValue::Error(_) => v,
            RuleValue::Boolean(b) => if b { RuleValue::Boolean(true) } else { or_eval(s.subrange(1, s.len() as int), ctx) },
            _ => RuleValue::Error(msg1("Not a boolean: "@, v)),
        }
    }
}

pub proof fn lemma_all_api_free(s: Seq<RuleValue>)
    ensures
        all_api_free(s) <==> forall|i: int| 0 <= i < s.len() ==> api_free(#[trigger] s[i]),
    decreases s.len(),
{
    if s.len() > 0 {
        let t = s.subrange(1, s.len() as int);
        lemma_all_api_free(t);
        assert forall|i: int| 1 <= i < s.len() implies s[i] == t[i - 1] by {}
        if all_api_free(s) {
            assert forall|i: int| 0 <= i < s.len() implies api_free(#[trigger] s[i]) by {
                if i > 0 {
                    assert(t[i - 1] == s[i]);
                }
            }
        }
        if forall|i: int| 0 <= i < s.len() ==> api_free(#[trigger] s[i]) {
            assert forall|i: int| 0 <= i < t.len() implies api_free(#[trigger] t[i]) by {
                assert(t[i] == s[i + 1]);
            }
        }
    }
}

/// The value the context gives to the variable `name`.
pub fn lookup_var(name: &String, context: &Dict<String>) -> (r: RuleExpression)
    ensures
        r@ == var_value(context@, name@),
{
    let value = match context.get(name.as_str()) {
        Some(v) => v,
        None => {
            return RuleExpression::Error(cat3("No variable ", name.as_str(), " in context"));
        },
    };
    if let Some(i) = parse_i32(value.as_str()) {
        return RuleExpression::Integer(i);
    }
    if let Some(b) = parse_bool(value.as_str()) {
        return RuleExpression::Boolean(b);
    }
    if let Some((p1, p2)) = split_once_comma(value.as_str()) {
        if let Some(v1) = parse_i32(p1) {
            if let Some(v2) = parse_i32(p2) {
                let r = RuleExpression::Pair(Box::new(RuleExpression::Integer(v1)), Box::new(RuleExpression::Integer(v2)));
                assert(view_rule(RuleExpression::Integer(v1)) == RuleValue::Integer(v1));
                assert(view_rule(RuleExpression::Integer(v2)) == RuleValue::Integer(v2));
                return r;
            }
        }
    }
    RuleExpression::Variable(value.clone())
}

/// Evaluates a result again.
pub fn eval_value(v: &RuleExpression, context: &Dict<String>) -> (r: RuleExpression)
    requires
        is_value(v@),
    ensures
        r@ == value_eval(v@, context@),
        is_value(r@),
        vdepth(r@) <= vdepth(v@),
    decreases v,
{
    proof {
        lemma_value_eval(v@, context@);
    }
    match v {
        RuleExpression::Variable(n) => lookup_var(n, context),
        RuleExpression::Pair(a, b) => {
            let x = eval_value(a, context);
            if let RuleExpression::Error(_) = x {
                return x;
            }
            let y = eval_value(b, context);
            if let RuleExpression::Error(_) = y {
                return y;
            }
            RuleExpression::Pair(Box::new(x), Box::new(y))
        },
        _ => v.duplicate(),
    }
}

/// Compares two results for equality, as the rule `Equals` does.
#[verifier::spinoff_prover]
#[verifier::rlimit(40)]
pub fn compare_values(x: &RuleExpression, y: &RuleExpression, context: &Dict<String>) -> (r: RuleExpression)
    requires
        is_value(x@),
        is_value(y@),
    ensures
        r@ == compare_spec(x@, y@, context@),
        is_value(r@),
    decreases vdepth(x@) + vdepth(y@),
{
    match (x, y) {
        (RuleExpression::Void, RuleExpression::Void) => RuleExpression::Boolean(true),
        (RuleExpression::Integer(a), RuleExpression::Integer(b)) => RuleExpression::Boolean(*a == *b),
        (RuleExpression::Boolean(a), RuleExpression::Boolean(b)) => RuleExpression::Boolean(*a == *b),
        (RuleExpression::Pair(a, b), RuleExpression::Pair(c, d)) => {
            let a1 = eval_value(a, context);
            let b1 = eval_value(b, context);
            let c1 = eval_value(c, context);
            let d1 = eval_value(d, context);
            if let RuleExpression::Error(_) = a1 { return a1; }
            if let RuleExpression::Error(_) = b1 { return b1; }
            if let RuleExpression::Error(_) = c1 { return c1; }
            if let RuleExpression::Error(_) = d1 { return d1; }
            let a2 = eval_value(&a1, context);
            let c2 = eval_value(&c1, context);
            if let RuleExpression::Error(_) = a2 { return a2; }
            if let RuleExpression::Error(_) = c2 { return c2; }
            let e1 = compare_values(&a2, &c2, context);
            if let RuleExpression::Error(_) = e1 { return e1; }
            let b2 = eval_value(&b1, context);
            let d2 = eval_value(&d1, context);
            if let RuleExpression::Error(_) = b2 { return b2; }
            if let RuleExpression::Error(_) = d2 { return d2; }
            let e2 = compare_values(&b2, &d2, context);
            if let RuleExpression::Error(_) = e2 { return e2; }
            match (&e1, &e2) {
                (RuleExpression::Boolean(p), RuleExpression::Boolean(q)) => RuleExpression::Boolean(*p && *q),
                _ => {
                    let t1 = debug_text(&e1);
                    let t2 = debug_text(&e2);
                    proof { reveal_strlit(", "); }
                    RuleExpression::Error(cat4("Cannot compare different types: ", t1.as_str(), ", ", t2.as_str()))
                },
            }
        },
        _ => {
            let t1 = debug_text(x);
            let t2 = debug_text(y);
            proof { reveal_strlit(", "); }
            RuleExpression::Error(cat4("Cannot compare different types: ", t1.as_str(), ", ", t2.as_str()))
        },
    }
}

/// What `Not` gives for the value of its rule: a boolean or an integer negated, an error kept.
pub open spec fn not_of(x: RuleValue) -> RuleValue {
    match x {
        RuleValue::Error(_) => x,
        RuleValue::Boolean(b) => RuleValue::Boolean(!b),
        RuleValue::Integer(i) => if i == 0 { RuleValue::Integer(1) } else { RuleValue::Integer(0) },
        _ => RuleValue::Error(msg1("Cannot calculate a negation for: "@, x)),
    }
}

/// What `First` (`second` false) or `Second` gives for the value of its rule.
pub open spec fn part_of(x: RuleValue, second: bool) -> RuleValue {
    match x {
        RuleValue::Error(_) => x,
        RuleValue::Pair(p, q) => if second { *q } else { *p },
        _ => RuleValue::Error(msg1("Not a pair: "@, x)),
    }
}

/// What a condition that is not a boolean makes of `If`, `And` and `Or`: its error, or
/// `Not a boolean`.
pub open spec fn not_boolean(x: RuleValue) -> RuleValue {
    match x {
        RuleValue::Error(_) => x,
        _ => RuleValue::Error(msg1("Not a boolean: "@, x)),
    }
}

/// What a rule of two parts (`Pair`, `Equals`, `Diff`, `Sum`) gives for the values `x` and `y`
/// of its parts, neither an error, `ctx` being the context after both.
pub open spec fn combined(e: RuleValue, x: RuleValue, y: RuleValue, ctx: Map<Seq<char>, Seq<char>>) -> RuleValue {
    match e {
        RuleValue::Equals(_, _) => compare_spec(x, y, ctx),
        RuleValue::Diff(_, _) => match (x, y) {
            (RuleValue::Integer(i), RuleValue::Integer(j)) => diff_value(i, j),
            _ => RuleValue::Error(msg2("Cannot calculate absolute difference for: "@, x, y)),
        },
        RuleValue::Sum(_, _) => match (x, y) {
            (RuleValue::Integer(i), RuleValue::Integer(j)) => sum_value(i, j),
            _ => RuleValue::Error(msg2("Cannot calculate sum for: "@, x, y)),
        },
        _ => RuleValue::Pair(Box::new(x), Box::new(y)),
    }
}

/// The intermediate states of an evaluation: for a rule of one part, the evaluation of the part
/// and its value; for a rule of two parts (and for `If`, and a list of `And` or `Or`), the
/// evaluation of the first part, the board, context and value it left, the evaluation of what
/// comes next, and the value of the second part.
pub ghost enum Steps {
    Leaf,
    One(Box<Steps>, RuleValue),
    Two(Box<Steps>, Board, Dict<String>, RuleValue, Box<Steps>, RuleValue),
}

/// Whether a call of the board `n` with the arguments `a` may take the board and context from
/// `b0`, `c0` to `b1`, `c1` with the value `r` (see `call_done`).
pub open spec fn call_made(b0: Board, b1: Board, c0: Dict<String>, c1: Dict<String>, n: Seq<char>, a: Seq<Seq<char>>,
    depth: u32, io: bool, mate: bool, nest: u32, r: RuleValue) -> bool {
    exists|x: RuleExpression| #![trigger crate::api::call_done(b0, b1, c0, c1, n, a, depth, io, mate, nest, x)]
        x@ == r && crate::api::call_done(b0, b1, c0, c1, n, a, depth, io, mate, nest, x)
}

/// Whether the steps `t` evaluate `e` at call depth `depth` from the board and context `b0`, `c0`
/// to `b1`, `c1` with the value `r`. The parts of a rule are evaluated left to right, each on
/// the board and context the one before left; the first part whose value is an error gives the
/// result and no later part is evaluated. A call of the board is a step of `call_done`. `io`
/// tells whether the player can be reached, `mate` whether a mate is being searched for, and
/// `nest` how many nested searches for a mate may still start.
pub open spec fn evaluated_by(e: RuleValue, t: Steps, b0: Board, c0: Dict<String>, b1: Board, c1: Dict<String>, r: RuleValue,
    depth: u32, io: bool, mate: bool, nest: u32) -> bool
    decreases e, 0int,
{
    if depth > MAX_DEPTH {
        r == RuleValue::Error("too many calls"@) && b1 == b0 && c1 == c0
    } else {
        match e {
            RuleValue::ApiCall(n, a) => call_made(b0, b1, c0, c1, n, a, (depth + 1) as u32, io, mate, nest, r),
            RuleValue::Variable(n) => r == var_value(c0@, n) && b1 == b0 && c1 == c0,
            RuleValue::Not(a) => t matches Steps::One(ta, x) && evaluated_by(*a, *ta, b0, c0, b1, c1, x, depth, io, mate, nest) && r == not_of(x),
            RuleValue::First(a) => t matches Steps::One(ta, x) && evaluated_by(*a, *ta, b0, c0, b1, c1, x, depth, io, mate, nest) && r == part_of(x, false),
            RuleValue::Second(a) => t matches Steps::One(ta, x) && evaluated_by(*a, *ta, b0, c0, b1, c1, x, depth, io, mate, nest) && r == part_of(x, true),
            RuleValue::If(c, p, q) => t matches Steps::Two(tc, bm, cm, x, tb, _) && evaluated_by(*c, *tc, b0, c0, bm, cm, x, depth, io, mate, nest)
                && match x {
                    RuleValue::Boolean(true) => evaluated_by(*p, *tb, bm, cm, b1, c1, r, depth, io, mate, nest),
                    RuleValue::Boolean(false) => evaluated_by(*q, *tb, bm, cm, b1, c1, r, depth, io, mate, nest),
                    _ => r == not_boolean(x) && b1 == bm && c1 == cm,
                },
            RuleValue::Pair(a, b) => t matches Steps::Two(ta, bm, cm, x, tb, y) && two_steps(e, evaluated_by(*a, *ta, b0, c0, bm, cm, x, depth, io, mate, nest),
                bm, cm, x, evaluated_by(*b, *tb, bm, cm, b1, c1, y, depth, io, mate, nest), y, b1, c1, r),
            RuleValue::Equals(a, b) => t matches Steps::Two(ta, bm, cm, x, tb, y) && two_steps(e, evaluated_by(*a, *ta, b0, c0, bm, cm, x, depth, io, mate, nest),
                bm, cm, x, evaluated_by(*b, *tb, bm, cm, b1, c1, y, depth, io, mate, nest), y, b1, c1, r),
            RuleValue::Diff(a, b) => t matches Steps::Two(ta, bm, cm, x, tb, y) && two_steps(e, evaluated_by(*a, *ta, b0, c0, bm, cm, x, depth, io, mate, nest),
                bm, cm, x, evaluated_by(*b, *tb, bm, cm, b1, c1, y, depth, io, mate, nest), y, b1, c1, r),
            RuleValue::Sum(a, b) => t matches Steps::Two(ta, bm, cm, x, tb, y) && two_steps(e, evaluated_by(*a, *ta, b0, c0, bm, cm, x, depth, io, mate, nest),
                bm, cm, x, evaluated_by(*b, *tb, bm, cm, b1, c1, y, depth, io, mate, nest), y, b1, c1, r),
            RuleValue::And(s) => all_evaluated_by(s, true, t, b0, c0, b1, c1, r, depth, io, mate, nest),
            RuleValue::Or(s) => all_evaluated_by(s, false, t, b0, c0, b1, c1, r, depth, io, mate, nest),
            _ => r == e && b1 == b0 && c1 == c0,
        }
    }
}

/// How the evaluations of the two parts of `e` make its evaluation: the first (`first`) leaves
/// the state `bm`, `cm` and the value `x`; unless that is an error, the second (`second`) then
/// gives the value `y`.
pub open spec fn two_steps(e: RuleValue, first: bool, bm: Board, cm: Dict<String>, x: RuleValue, second: bool, y: RuleValue,
    b1: Board, c1: Dict<String>, r: RuleValue) -> bool {
    &&& first
    &&& if x is Error {
        r == x && b1 == bm && c1 == cm
    } else {
        &&& second
        &&& r == (if y is Error { y } else { combined(e, x, y, c1@) })
    }
}

/// `evaluated_by` for the rules `s` of a conjunction (`conj`) or a disjunction: each in turn,
/// until one is false (for a conjunction), true (for a disjunction), not a boolean, or an error.
pub open spec fn all_evaluated_by(s: Seq<RuleValue>, conj: bool, t: Steps, b0: Board, c0: Dict<String>, b1: Board, c1: Dict<String>,
    r: RuleValue, depth: u32, io: bool, mate: bool, nest: u32) -> bool
    decreases s, 1int,
{
    if s.len() == 0 {
        r == RuleValue::Boolean(conj) && b1 == b0 && c1 == c0
    } else {
        t matches Steps::Two(ta, bm, cm, x, tb, _) && evaluated_by(s[0], *ta, b0, c0, bm, cm, x, depth, io, mate, nest) && match x {
            RuleValue::Boolean(v) => if v == conj {
                all_evaluated_by(s.subrange(1, s.len() as int), conj, *tb, bm, cm, b1, c1, r, depth, io, mate, nest)
            } else {
                r == x && b1 == bm && c1 == cm
            },
            _ => r == not_boolean(x) && b1 == bm && c1 == cm,
        }
    }
}

/// Whether evaluating `e` at call depth `depth` may take the board and context from `b0`, `c0`
/// to `b1`, `c1` with the value `r`: some steps do (see `evaluated_by`).
pub open spec fn evaluated(e: RuleValue, b0: Board, c0: Dict<String>, b1: Board, c1: Dict<String>, r: RuleValue,
    depth: u32, io: bool, mate: bool, nest: u32) -> bool {
    exists|t: Steps| #[trigger] evaluated_by(e, t, b0, c0, b1, c1, r, depth, io, mate, nest)
}

/// `evaluated` for the rules of a conjunction (`conj`) or a disjunction.
pub open spec fn all_evaluated(s: Seq<RuleValue>, conj: bool, b0: Board, c0: Dict<String>, b1: Board, c1: Dict<String>,
    r: RuleValue, depth: u32, io: bool, mate: bool, nest: u32) -> bool {
    exists|t: Steps| #[trigger] all_evaluated_by(s, conj, t, b0, c0, b1, c1, r, depth, io, mate, nest)
}

/// A rule evaluated with no part: `evaluated_by` with no steps.
proof fn lemma_leaf(e: RuleValue, b0: Board, c0: Dict<String>, b1: Board, c1: Dict<String>, r: RuleValue,
    depth: u32, io: bool, mate: bool, nest: u32)
    requires
        evaluated_by(e, Steps::Leaf, b0, c0, b1, c1, r, depth, io, mate, nest),
    ensures
        evaluated(e, b0, c0, b1, c1, r, depth, io, mate, nest),
{
}

/// `evaluated` for a call of the board from the step of `call_done` it makes.
proof fn lemma_call(e: RuleValue, n: Seq<char>, a: Seq<Seq<char>>, b0: Board, c0: Dict<String>, b1: Board, c1: Dict<String>, x: RuleExpression,
    depth: u32, io: bool, mate: bool, nest: u32)
    requires
        depth <= MAX_DEPTH,
        e == RuleValue::ApiCall(n, a),
        crate::api::call_done(b0, b1, c0, c1, n, a, (depth + 1) as u32, io, mate, nest, x),
    ensures
        evaluated(e, b0, c0, b1, c1, x@, depth, io, mate, nest),
{
    assert(call_made(b0, b1, c0, c1, n, a, (depth + 1) as u32, io, mate, nest, x@));
    assert(evaluated_by(e, Steps::Leaf, b0, c0, b1, c1, x@, depth, io, mate, nest));
}

/// `evaluated` for `Not`, `First` and `Second` from the evaluation of the part.
proof fn lemma_one(e: RuleValue, a: RuleValue, b0: Board, c0: Dict<String>, b1: Board, c1: Dict<String>, x: RuleValue,
    depth: u32, io: bool, mate: bool, nest: u32)
    requires
        depth <= MAX_DEPTH,
        e == RuleValue::Not(Box::new(a)) || e == RuleValue::First(Box::new(a)) || e == RuleValue::Second(Box::new(a)),
        evaluated(a, b0, c0, b1, c1, x, depth, io, mate, nest),
    ensures
        evaluated(e, b0, c0, b1, c1, match e {
            RuleValue::Not(_) => not_of(x),
            RuleValue::First(_) => part_of(x, false),
            _ => part_of(x, true),
        }, depth, io, mate, nest),
{
    let ta = choose|t: Steps| evaluated_by(a, t, b0, c0, b1, c1, x, depth, io, mate, nest);
    let t = Steps::One(Box::new(ta), x);
    let r = match e {
        RuleValue::Not(_) => not_of(x),
        RuleValue::First(_) => part_of(x, false),
        _ => part_of(x, true),
    };
    assert(evaluated_by(e, t, b0, c0, b1, c1, r, depth, io, mate, nest));
}

/// `evaluated` for `If` from the evaluation of the condition, and of the branch it picks.
proof fn lemma_if(e: RuleValue, c: RuleValue, p: RuleValue, q: RuleValue, b0: Board, c0: Dict<String>, bm: Board, cm: Dict<String>,
    x: RuleValue, b1: Board, c1: Dict<String>, r: RuleValue, depth: u32, io: bool, mate: bool, nest: u32)
    requires
        depth <= MAX_DEPTH,
        e == RuleValue::If(Box::new(c), Box::new(p), Box::new(q)),
        evaluated(c, b0, c0, bm, cm, x, depth, io, mate, nest),
        match x {
            RuleValue::Boolean(true) => evaluated(p, bm, cm, b1, c1, r, depth, io, mate, nest),
            RuleValue::Boolean(false) => evaluated(q, bm, cm, b1, c1, r, depth, io, mate, nest),
            _ => r == not_boolean(x) && b1 == bm && c1 == cm,
        },
    ensures
        evaluated(e, b0, c0, b1, c1, r, depth, io, mate, nest),
{
    let tc = choose|t: Steps| evaluated_by(c, t, b0, c0, bm, cm, x, depth, io, mate, nest);
    let tb = match x {
        RuleValue::Boolean(true) => choose|t: Steps| evaluated_by(p, t, bm, cm, b1, c1, r, depth, io, mate, nest),
        RuleValue::Boolean(false) => choose|t: Steps| evaluated_by(q, t, bm, cm, b1, c1, r, depth, io, mate, nest),
        _ => Steps::Leaf,
    };
    assert(evaluated_by(e, Steps::Two(Box::new(tc), bm, cm, x, Box::new(tb), x), b0, c0, b1, c1, r, depth, io, mate, nest));
}

/// `evaluated` for a rule of two parts whose first part's value is an error.
proof fn lemma_two_first_error(e: RuleValue, a: RuleValue, b: RuleValue, b0: Board, c0: Dict<String>, bm: Board, cm: Dict<String>,
    x: RuleValue, depth: u32, io: bool, mate: bool, nest: u32)
    requires
        depth <= MAX_DEPTH,
        e == RuleValue::Pair(Box::new(a), Box::new(b)) || e == RuleValue::Equals(Box::new(a), Box::new(b))
            || e == RuleValue::Diff(Box::new(a), Box::new(b)) || e == RuleValue::Sum(Box::new(a), Box::new(b)),
        evaluated(a, b0, c0, bm, cm, x, depth, io, mate, nest),
        x is Error,
    ensures
        evaluated(e, b0, c0, bm, cm, x, depth, io, mate, nest),
{
    let ta = choose|t: Steps| evaluated_by(a, t, b0, c0, bm, cm, x, depth, io, mate, nest);
    assert(evaluated_by(e, Steps::Two(Box::new(ta), bm, cm, x, Box::new(Steps::Leaf), x), b0, c0, bm, cm, x, depth, io, mate, nest));
}

/// `evaluated` for a rule of two parts both evaluated.
proof fn lemma_two_done(e: RuleValue, a: RuleValue, b: RuleValue, b0: Board, c0: Dict<String>, bm: Board, cm: Dict<String>,
    x: RuleValue, b1: Board, c1: Dict<String>, y: RuleValue, depth: u32, io: bool, mate: bool, nest: u32)
    requires
        depth <= MAX_DEPTH,
        e == RuleValue::Pair(Box::new(a), Box::new(b)) || e == RuleValue::Equals(Box::new(a), Box::new(b))
            || e == RuleValue::Diff(Box::new(a), Box::new(b)) || e == RuleValue::Sum(Box::new(a), Box::new(b)),
        evaluated(a, b0, c0, bm, cm, x, depth, io, mate, nest),
        !(x is Error),
        evaluated(b, bm, cm, b1, c1, y, depth, io, mate, nest),
    ensures
        evaluated(e, b0, c0, b1, c1, (if y is Error { y } else { combined(e, x, y, c1@) }), depth, io, mate, nest),
{
    let ta = choose|t: Steps| evaluated_by(a, t, b0, c0, bm, cm, x, depth, io, mate, nest);
    let tb = choose|t: Steps| evaluated_by(b, t, bm, cm, b1, c1, y, depth, io, mate, nest);
    let r = if y is Error { y } else { combined(e, x, y, c1@) };
    assert(evaluated_by(e, Steps::Two(Box::new(ta), bm, cm, x, Box::new(tb), y), b0, c0, b1, c1, r, depth, io, mate, nest));
}

/// One step of `all_evaluated`: the first rule is evaluated, then the rest as its value says.
proof fn lemma_all_step(s: Seq<RuleValue>, conj: bool, b0: Board, c0: Dict<String>, bm: Board, cm: Dict<String>, x: RuleValue,
    b1: Board, c1: Dict<String>, r: RuleValue, depth: u32, io: bool, mate: bool, nest: u32)
    requires
        s.len() > 0,
        evaluated(s[0], b0, c0, bm, cm, x, depth, io, mate, nest),
        match x {
            RuleValue::Boolean(v) => if v == conj {
                all_evaluated(s.subrange(1, s.len() as int), conj, bm, cm, b1, c1, r, depth, io, mate, nest)
            } else {
                r == x && b1 == bm && c1 == cm
            },
            _ => r == not_boolean(x) && b1 == bm && c1 == cm,
        },
    ensures
        all_evaluated(s, conj, b0, c0, b1, c1, r, depth, io, mate, nest),
{
    let ta = choose|t: Steps| evaluated_by(s[0], t, b0, c0, bm, cm, x, depth, io, mate, nest);
    let tb = if x == RuleValue::Boolean(conj) {
        choose|t: Steps| all_evaluated_by(s.subrange(1, s.len() as int), conj, t, bm, cm, b1, c1, r, depth, io, mate, nest)
    } else {
        Steps::Leaf
    };
    assert(all_evaluated_by(s, conj, Steps::Two(Box::new(ta), bm, cm, x, Box::new(tb), x), b0, c0, b1, c1, r, depth, io, mate, nest));
}

/// `all_evaluated` of no rules.
proof fn lemma_all_empty(s: Seq<RuleValue>, conj: bool, b0: Board, c0: Dict<String>, depth: u32, io: bool, mate: bool, nest: u32)
    requires
        s.len() == 0,
    ensures
        all_evaluated(s, conj, b0, c0, b0, c0, RuleValue::Boolean(conj), depth, io, mate, nest),
{
    assert(all_evaluated_by(s, conj, Steps::Leaf, b0, c0, b0, c0, RuleValue::Boolean(conj), depth, io, mate, nest));
}

/// `evaluated` for `And` and `Or` from the evaluation of their rules.
proof fn lemma_all(e: RuleValue, s: Seq<RuleValue>, conj: bool, b0: Board, c0: Dict<String>, b1: Board, c1: Dict<String>, r: RuleValue,
    depth: u32, io: bool, mate: bool, nest: u32)
    requires
        depth <= MAX_DEPTH,
        e == (if conj { RuleValue::And(s) } else { RuleValue::Or(s) }),
        all_evaluated(s, conj, b0, c0, b1, c1, r, depth, io, mate, nest),
    ensures
        evaluated(e, b0, c0, b1, c1, r, depth, io, mate, nest),
{
    let t = choose|t: Steps| all_evaluated_by(s, conj, t, b0, c0, b1, c1, r, depth, io, mate, nest);
    assert(evaluated_by(e, t, b0, c0, b1, c1, r, depth, io, mate, nest));
}

/// Negating a rule twice gives back its value when that is a boolean, whatever the rule does to
/// the board on the way, calls of the board included: `Not(Not(e))` takes the board and context
/// where `e` does, with the value of `e` when that is a boolean.
pub proof fn law_not_not(e: RuleValue, b0: Board, c0: Dict<String>, b1: Board, c1: Dict<String>, r: RuleValue,
    depth: u32, io: bool, mate: bool, nest: u32)
    requires
        depth <= MAX_DEPTH,
        evaluated(RuleValue::Not(Box::new(RuleValue::Not(Box::new(e)))), b0, c0, b1, c1, r, depth, io, mate, nest),
    ensures
        exists|x: RuleValue| #[trigger] evaluated(e, b0, c0, b1, c1, x, depth, io, mate, nest) && (x is Boolean ==> r == x),
{
    reveal_with_fuel(evaluated_by, 3);
    let n = RuleValue::Not(Box::new(RuleValue::Not(Box::new(e))));
    let t = choose|t: Steps| evaluated_by(n, t, b0, c0, b1, c1, r, depth, io, mate, nest);
    let ta = t->One_0;
    let x1 = t->One_1;
    let tb = ta->One_0;
    let x2 = ta->One_1;
    assert(evaluated_by(e, *tb, b0, c0, b1, c1, x2, depth, io, mate, nest));
    assert(evaluated(e, b0, c0, b1, c1, x2, depth, io, mate, nest));
}

impl RuleExpression {
    /// Evaluates the rule against `board`, looking variables up in `context`. `depth` counts the
    /// nested calls of the board so far: beyond 15 the result is the error `too many calls`.
    /// `sender` and `receiver` reach the player, for the calls that need to ask something;
    /// `is_evaluate_mate` marks an evaluation made while searching for a mate.
    pub fn evaluate(
        &self,
        board: &mut Board,
        context: &mut Dict<String>,
        depth: u32,
        sender: Option<&Sender<Option<String>>>,
        receiver: Option<&Receiver<String>>,
        is_evaluate_mate: bool,
    ) -> (r: RuleExpression)
        ensures
            is_value(r@),
            same_frame(old(board), final(board)),
            depth > MAX_DEPTH ==> r@ == RuleValue::Error("too many calls"@) && *final(board) == *old(board) && *final(context) == *old(context),
            api_free(self@) ==> *final(board) == *old(board) && *final(context) == *old(context),
            api_free(self@) && depth <= MAX_DEPTH ==> r@ == pure_eval(self@, old(context)@),
            depth <= MAX_DEPTH && self@ is ApiCall ==> crate::api::call_done(*old(board), *final(board), *old(context), *final(context),
                self@->ApiCall_0, self@->ApiCall_1, (depth + 1) as u32, sender is Some && receiver is Some, is_evaluate_mate, MATE_NESTING, r),
            evaluated(self@, *old(board), *old(context), *final(board), *final(context), r@, depth, sender is Some && receiver is Some,
                is_evaluate_mate, MATE_NESTING),
    {
        self.evaluate_in(board, context, depth, sender, receiver, is_evaluate_mate, MATE_NESTING)
    }

    /// `evaluate`, allowed to start `nest` more nested searches for a mate.
    #[verifier::spinoff_prover]
    #[verifier::rlimit(100)]
    pub fn evaluate_in(
        &self,
        board: &mut Board,
        context: &mut Dict<String>,
        depth: u32,
        sender: Option<&Sender<Option<String>>>,
        receiver: Option<&Receiver<String>>,
        is_evaluate_mate: bool,
        nest: u32,
    ) -> (r: RuleExpression)
        ensures
            is_value(r@),
            same_frame(old(board), final(board)),
            depth > MAX_DEPTH ==> r@ == RuleValue::Error("too many calls"@) && *final(board) == *old(board) && *final(context) == *old(context),
            api_free(self@) ==> *final(board) == *old(board) && *final(context) == *old(context),
            api_free(self@) && depth <= MAX_DEPTH ==> r@ == pure_eval(self@, old(context)@),
            depth <= MAX_DEPTH && self@ is ApiCall ==> crate::api::call_done(*old(board), *final(board), *old(context), *final(context),
                self@->ApiCall_0, self@->ApiCall_1, (depth + 1) as u32, sender is Some && receiver is Some, is_evaluate_mate, nest, r),
            evaluated(self@, *old(board), *old(context), *final(board), *final(context), r@, depth, sender is Some && receiver is Some, is_evaluate_mate, nest),
        decreases nest, level(depth), 0int, rule_size(self@),
    {
        let ghost b0 = *board;
        let ghost c0 = *context;
        let ghost io = sender is Some && receiver is Some;
        if depth > MAX_DEPTH {
            let r = RuleExpression::Error(text("too many calls"));
            proof { lemma_leaf(self@, b0, c0, b0, c0, r@, depth, io, is_evaluate_mate, nest); }
            return r;
        }
        match self {
            RuleExpression::Equals(left, right) => {
                let x = left.evaluate_in(board, context, depth, sender, receiver, is_evaluate_mate, nest);
                let ghost bm = *board;
                let ghost cm = *context;
                if let RuleExpression::Error(_) = x {
                    proof { lemma_two_first_error(self@, left@, right@, b0, c0, bm, cm, x@, depth, io, is_evaluate_mate, nest); }
                    return x;
                }
                let y = right.evaluate_in(board, context, depth, sender, receiver, is_evaluate_mate, nest);
                proof { lemma_two_done(self@, left@, right@, b0, c0, bm, cm, x@, *board, *context, y@, depth, io, is_evaluate_mate, nest); }
                if let RuleExpression::Error(_) = y { return y; }
                compare_values(&x, &y, context)
            },
            RuleExpression::Diff(a, b) => {
                let x = a.evaluate_in(board, context, depth, sender, receiver, is_evaluate_mate, nest);
                let ghost bm = *board;
                let ghost cm = *context;
                if let RuleExpression::Error(_) = x {
                    proof { lemma_two_first_error(self@, a@, b@, b0, c0, bm, cm, x@, depth, io, is_evaluate_mate, nest); }
                    return x;
                }
                let y = b.evaluate_in(board, context, depth, sender, receiver, is_evaluate_mate, nest);
                proof { lemma_two_done(self@, a@, b@, b0, c0, bm, cm, x@, *board, *context, y@, depth, io, is_evaluate_mate, nest); }
                if let RuleExpression::Error(_) = y { return y; }
                match (&x, &y) {
                    (RuleExpression::Integer(a1), RuleExpression::Integer(b1)) => {
                        let d: i64 = *a1 as i64 - *b1 as i64;
                        let d: i64 = if d < 0 { -d } else { d };
                        if d <= i32::MAX as i64 {
                            RuleExpression::Integer(d as i32)
                        } else {
                            RuleExpression::Error(text("integer overflow"))
                        }
                    },
                    _ => {
                        let t1 = debug_text(&x);
                        let t2 = debug_text(&y);
                        proof { reveal_strlit(", "); }
                        RuleExpression::Error(cat4("Cannot calculate absolute difference for: ", t1.as_str(), ", ", t2.as_str()))
                    },
                }
            },
            RuleExpression::Sum(a, b) => {
                let x = a.evaluate_in(board, context, depth, sender, receiver, is_evaluate_mate, nest);
                let ghost bm = *board;
                let ghost cm = *context;
                if let RuleExpression::Error(_) = x {
                    proof { lemma_two_first_error(self@, a@, b@, b0, c0, bm, cm, x@, depth, io, is_evaluate_mate, nest); }
                    return x;
                }
                let y = b.evaluate_in(board, context, depth, sender, receiver, is_evaluate_mate, nest);
                proof { lemma_two_done(self@, a@, b@, b0, c0, bm, cm, x@, *board, *context, y@, depth, io, is_evaluate_mate, nest); }
                if let RuleExpression::Error(_) = y { return y; }
                match (&x, &y) {
                    (RuleExpression::Integer(a1), RuleExpression::Integer(b1)) => {
                        let d: i64 = *a1 as i64 + *b1 as i64;
                        if i32::MIN as i64 <= d && d <= i32::MAX as i64 {
                            RuleExpression::Integer(d as i32)
                        } else {
                            RuleExpression::Error(text("integer overflow"))
                        }
                    },
                    _ => {
                        let t1 = debug_text(&x);
                        let t2 = debug_text(&y);
                        proof { reveal_strlit(", "); }
                        RuleExpression::Error(cat4("Cannot calculate sum for: ", t1.as_str(), ", ", t2.as_str()))
                    },
                }
            },
            RuleExpression::ApiCall(api, args) => {
                let mut strs: Vec<&str> = Vec::new();
                let mut i: usize = 0;
                while i < args.len()
                    invariant
                        i <= args.len(),
                        strs@.len() == i,
                        forall|j: int| 0 <= j < i ==> (#[trigger] strs@[j])@ == args@[j]@,
                    decreases args.len() - i,
                {
                    strs.push(args[i].as_str());
                    i += 1;
                }
                proof {
                    assert(crate::places::arg_views(strs@) =~= crate::rule::view_texts(args@));
                }
                let r = board.call_api_in(api.as_str(), strs, context, depth + 1, sender, receiver, is_evaluate_mate, nest);
                proof {
                    lemma_call(self@, api@, crate::rule::view_texts(args@), b0, c0, *board, *context, r, depth, io, is_evaluate_mate, nest);
                }
                r
            },
            RuleExpression::Boolean(value) => {
                let r = RuleExpression::Boolean(*value);
                proof { lemma_leaf(self@, b0, c0, b0, c0, r@, depth, io, is_evaluate_mate, nest); }
                r
            },
            RuleExpression::Variable(name) => {
                proof {
                    reveal_with_fuel(is_value, 2);
                }
                let r = lookup_var(name, context);
                proof { lemma_leaf(self@, b0, c0, b0, c0, r@, depth, io, is_evaluate_mate, nest); }
                r
            },
            RuleExpression::Integer(value) => {
                let r = RuleExpression::Integer(*value);
                proof { lemma_leaf(self@, b0, c0, b0, c0, r@, depth, io, is_evaluate_mate, nest); }
                r
            },
            RuleExpression::Void => {
                proof { lemma_leaf(self@, b0, c0, b0, c0, RuleValue::Void, depth, io, is_evaluate_mate, nest); }
                RuleExpression::Void
            },
            RuleExpression::And(v) => {
                let r = RuleExpression::eval_all(v, true, board, context, depth, sender, receiver, is_evaluate_mate, nest);
                proof { lemma_all(self@, view_rules(v@), true, b0, c0, *board, *context, r@, depth, io, is_evaluate_mate, nest); }
                r
            },
            RuleExpression::Or(v) => {
                let r = RuleExpression::eval_all(v, false, board, context, depth, sender, receiver, is_evaluate_mate, nest);
                proof { lemma_all(self@, view_rules(v@), false, b0, c0, *board, *context, r@, depth, io, is_evaluate_mate, nest); }
                r
            },
            RuleExpression::Not(inner) => {
                let x = inner.evaluate_in(board, context, depth, sender, receiver, is_evaluate_mate, nest);
                proof { lemma_one(self@, inner@, b0, c0, *board, *context, x@, depth, io, is_evaluate_mate, nest); }
                match x {
                    RuleExpression::Boolean(a) => RuleExpression::Boolean(!a),
                    RuleExpression::Integer(n) => if n == 0 { RuleExpression::Integer(1) } else { RuleExpression::Integer(0) },
                    RuleExpression::Error(_) => x,
                    _ => {
                        let t = debug_text(&x);
                        RuleExpression::Error(cat("Cannot calculate a negation for: ", t.as_str()))
                    },
                }
            },
            RuleExpression::If(cond, t, f) => {
                let x = cond.evaluate_in(board, context, depth, sender, receiver, is_evaluate_mate, nest);
                let ghost bm = *board;
                let ghost cm = *context;
                let r = match x {
                    RuleExpression::Boolean(true) => t.evaluate_in(board, context, depth, sender, receiver, is_evaluate_mate, nest),
                    RuleExpression::Boolean(false) => f.evaluate_in(board, context, depth, sender, receiver, is_evaluate_mate, nest),
                    RuleExpression::Error(_) => x,
                    _ => {
                        let m = debug_text(&x);
                        RuleExpression::Error(cat("Not a boolean: ", m.as_str()))
                    },
                };
                proof { lemma_if(self@, cond@, t@, f@, b0, c0, bm, cm, x@, *board, *context, r@, depth, io, is_evaluate_mate, nest); }
                r
            },
            RuleExpression::First(inner) => {
                let x = inner.evaluate_in(board, context, depth, sender, receiver, is_evaluate_mate, nest);
                proof { lemma_one(self@, inner@, b0, c0, *board, *context, x@, depth, io, is_evaluate_mate, nest); }
                match x {
                    RuleExpression::Pair(p, q) => {
                        proof { assert(is_value(view_rule(*p))); }
                        *p
                    },
                    RuleExpression::Error(_) => x,
                    _ => {
                        let t = debug_text(&x);
                        RuleExpression::Error(cat("Not a pair: ", t.as_str()))
                    },
                }
            },
            RuleExpression::Second(inner) => {
                let x = inner.evaluate_in(board, context, depth, sender, receiver, is_evaluate_mate, nest);
                proof { lemma_one(self@, inner@, b0, c0, *board, *context, x@, depth, io, is_evaluate_mate, nest); }
                match x {
                    RuleExpression::Pair(p, q) => {
                        proof { assert(is_value(view_rule(*q))); }
                        *q
                    },
                    RuleExpression::Error(_) => x,
                    _ => {
                        let t = debug_text(&x);
                        RuleExpression::Error(cat("Not a pair: ", t.as_str()))
                    },
                }
            },
            RuleExpression::Pair(a, b) => {
                let x = a.evaluate_in(board, context, depth, sender, receiver, is_evaluate_mate, nest);
                let ghost bm = *board;
                let ghost cm = *context;
                if let RuleExpression::Error(_) = x {
                    proof { lemma_two_first_error(self@, a@, b@, b0, c0, bm, cm, x@, depth, io, is_evaluate_mate, nest); }
                    return x;
                }
                let y = b.evaluate_in(board, context, depth, sender, receiver, is_evaluate_mate, nest);
                proof { lemma_two_done(self@, a@, b@, b0, c0, bm, cm, x@, *board, *context, y@, depth, io, is_evaluate_mate, nest); }
                if let RuleExpression::Error(_) = y { return y; }
                let r = RuleExpression::Pair(Box::new(x), Box::new(y));
                proof { assert(r@ == RuleValue::Pair(Box::new(x@), Box::new(y@))); }
                r
            },
            RuleExpression::Error(a) => {
                let r = RuleExpression::Error(a.clone());
                proof { lemma_leaf(self@, b0, c0, b0, c0, r@, depth, io, is_evaluate_mate, nest); }
                r
            },
        }
    }
}

/// Transitivity of `same_frame`.
pub proof fn lemma_same_frame_trans(a: &Board, b: &Board, c: &Board)
    requires
        same_frame(a, b),
        same_frame(b, c),
    ensures
        same_frame(a, c),
{
    assert forall|x: int| 0 <= x < a.board@.len() implies (#[trigger] a.board@[x])@.len() == c.board@[x]@.len() by {
        assert(b.board@[x]@.len() == c.board@[x]@.len());
    }
}

/// `same_frame` holds of a board and itself.
pub proof fn lemma_same_frame_refl(a: &Board)
    ensures
        same_frame(a, a),
{
}

impl RuleExpression {
    /// Evaluates the rules of a conjunction (`conj`) or a disjunction in order, stopping as
    /// `And` and `Or` do.
    pub fn eval_all(
        v: &Vec<RuleExpression>,
        conj: bool,
        board: &mut Board,
        context: &mut Dict<String>,
        depth: u32,
        sender: Option<&Sender<Option<String>>>,
        receiver: Option<&Receiver<String>>,
        is_evaluate_mate: bool,
        nest: u32,
    ) -> (r: RuleExpression)
        requires
            depth <= MAX_DEPTH,
        ensures
            is_value(r@),
            same_frame(old(board), final(board)),
            all_api_free(view_rules(v@)) ==> *final(board) == *old(board) && *final(context) == *old(context),
            all_api_free(view_rules(v@)) ==> r@ == (if conj { and_eval(view_rules(v@), old(context)@) } else { or_eval(view_rules(v@), old(context)@) }),
            all_evaluated(view_rules(v@), conj, *old(board), *old(context), *final(board), *final(context), r@, depth,
                sender is Some && receiver is Some, is_evaluate_mate, nest),
        decreases nest, level(depth), 0int, 1 + rules_size(view_rules(v@)),
    {
        let ghost b0 = *board;
        let ghost c0 = *context;
        let ghost io = sender is Some && receiver is Some;
        let ghost s = view_rules(v@);
        proof {
            lemma_view_rules(v@);
            lemma_all_api_free(s);
            assert(s.subrange(0, s.len() as int) == s);
        }
        let mut i: usize = 0;
        while i < v.len()
            invariant
                i <= v.len(),
                s == view_rules(v@),
                s.len() == v@.len(),
                forall|j: int| 0 <= j < v@.len() ==> s[j] == view_rule(#[trigger] v@[j]),
                all_api_free(s) <==> forall|j: int| 0 <= j < s.len() ==> api_free(#[trigger] s[j]),
                depth <= MAX_DEPTH,
                same_frame(&b0, board),
                b0 == *old(board),
                c0 == *old(context),
                all_api_free(s) ==> *board == b0 && *context == c0,
                all_api_free(s) && conj ==> and_eval(s, c0@) == and_eval(s.subrange(i as int, s.len() as int), c0@),
                all_api_free(s) && !conj ==> or_eval(s, c0@) == or_eval(s.subrange(i as int, s.len() as int), c0@),
                io == (sender is Some && receiver is Some),
                forall|be: Board, ce: Dict<String>, re: RuleValue|
                    #[trigger] all_evaluated(s.subrange(i as int, s.len() as int), conj, *board, *context, be, ce, re, depth, io, is_evaluate_mate, nest)
                    ==> all_evaluated(s, conj, b0, c0, be, ce, re, depth, io, is_evaluate_mate, nest),
            decreases v.len() - i,
        {
            proof {
                lemma_rules_size(s, i as int);
            }
            let ghost before = *board;
            let ghost before_c = *context;
            let x = v[i].evaluate_in(board, context, depth, sender, receiver, is_evaluate_mate, nest);
            let ghost t = s.subrange(i as int, s.len() as int);
            proof {
                lemma_same_frame_trans(&b0, &before, board);
                assert(t[0] == s[i as int]);
                assert(t.subrange(1, t.len() as int) == s.subrange(i + 1, s.len() as int));
                assert(evaluated(t[0], before, before_c, *board, *context, x@, depth, io, is_evaluate_mate, nest));
            }
            match x {
                RuleExpression::Boolean(a) => {
                    proof { assert(x@ == RuleValue::Boolean(a)); }
                    if conj && !a {
                        proof { lemma_all_step(t, conj, before, before_c, *board, *context, x@, *board, *context, x@, depth, io, is_evaluate_mate, nest); }
                        return RuleExpression::Boolean(false);
                    }
                    if !conj && a {
                        proof { lemma_all_step(t, conj, before, before_c, *board, *context, x@, *board, *context, x@, depth, io, is_evaluate_mate, nest); }
                        return RuleExpression::Boolean(true);
                    }
                },
                RuleExpression::Error(_) => {
                    proof { lemma_all_step(t, conj, before, before_c, *board, *context, x@, *board, *context, x@, depth, io, is_evaluate_mate, nest); }
                    return x;
                },
                _ => {
                    let m = debug_text(&x);
                    let r = RuleExpression::Error(cat("Not a boolean: ", m.as_str()));
                    proof { lemma_all_step(t, conj, before, before_c, *board, *context, x@, *board, *context, r@, depth, io, is_evaluate_mate, nest); }
                    return r;
                },
            }
            proof {
                assert forall|be: Board, ce: Dict<String>, re: RuleValue|
                    #[trigger] all_evaluated(s.subrange(i + 1, s.len() as int), conj, *board, *context, be, ce, re, depth, io, is_evaluate_mate, nest)
                    implies all_evaluated(s, conj, b0, c0, be, ce, re, depth, io, is_evaluate_mate, nest) by {
                    lemma_all_step(t, conj, before, before_c, *board, *context, x@, be, ce, re, depth, io, is_evaluate_mate, nest);
                }
            }
            i += 1;
        }
        proof {
            assert(s.subrange(s.len() as int, s.len() as int) == Seq::<RuleValue>::empty());
            lemma_all_empty(s.subrange(i as int, s.len() as int), conj, *board, *context, depth, io, is_evaluate_mate, nest);
        }
        RuleExpression::Boolean(conj)
    }
}

/// The text a result is stored as in a context: integers and booleans as Rust writes them, a
/// pair as `x,y`, a text or an error message as itself, anything else as its debug text.
pub open spec fn value_text(v: RuleValue) -> Seq<char>
    decreases v,
{
    match v {
        RuleValue::Integer(n) => int_text(n as int),
        RuleValue::Boolean(b) => if b { "true"@ } else { "false"@ },
        RuleValue::Pair(a, b) => value_text(*a) + ","@ + value_text(*b),
        RuleValue::Variable(s) => s,
        RuleValue::Error(s) => s,
        _ => spec_debug(v),
    }
}

/// The first comma of `a,b` is the one after `a`, when `a` holds none.
proof fn lemma_first_comma(a: Seq<char>, b: Seq<char>)
    requires
        !a.contains(','),
    ensures
        crate::text::first_comma(a + ","@ + b) == a.len(),
    decreases a.len(),
{
    reveal_strlit(",");
    let s = a + ","@ + b;
    if a.len() == 0 {
        assert(s[0] == ',');
    } else {
        assert(s[0] == a[0]);
        assert(a[0] != ',') by {
            if a[0] == ',' {
                assert(a.contains(','));
            }
        }
        assert(!a.drop_first().contains(',')) by {
            if a.drop_first().contains(',') {
                let i = choose|i: int| 0 <= i < a.drop_first().len() && a.drop_first()[i] == ',';
                assert(a[i + 1] == ',');
            }
        }
        assert(s.drop_first() =~= a.drop_first() + ","@ + b);
        lemma_first_comma(a.drop_first(), b);
    }
}

/// A text that holds a comma is not made of digits alone.
proof fn lemma_comma_not_digits(s: Seq<char>, i: int)
    requires
        0 <= i < s.len(),
        s[i] == ',',
    ensures
        !crate::text::all_digits(s),
{
    assert(!crate::text::is_digit(s[i]));
}

/// A result a rule stores in a context reads back as itself: an integer, a boolean or a pair of
/// integers, written under a name as `value_text` writes it, is what the variable of that name
/// evaluates to.
pub proof fn law_stored_value_reads_back(ctx: Map<Seq<char>, Seq<char>>, name: Seq<char>, v: RuleValue)
    requires
        v is Integer || v is Boolean || (v matches RuleValue::Pair(a, b) && *a is Integer && *b is Integer),
    ensures
        pure_eval(RuleValue::Variable(name), ctx.insert(name, value_text(v))) == v,
{
    let c = ctx.insert(name, value_text(v));
    assert(c[name] == value_text(v));
    match v {
        RuleValue::Integer(n) => {
            crate::text::lemma_int_text(n);
        },
        RuleValue::Boolean(b) => {
            reveal_strlit("true");
            reveal_strlit("false");
            let t = value_text(v);
            assert(!crate::text::is_digit(t[0]));
            assert(crate::text::spec_parse_i32(t) is None);
        },
        RuleValue::Pair(a, b) => {
            let x = a->Integer_0;
            let y = b->Integer_0;
            crate::text::lemma_int_text(x);
            crate::text::lemma_int_text(y);
            let ta = int_text(x as int);
            let tb = int_text(y as int);
            let t = value_text(v);
            reveal_strlit(",");
            assert(value_text(*a) == ta);
            assert(value_text(*b) == tb);
            assert(t == ta + ","@ + tb);
            let k = ta.len() as int;
            assert(t[k] == ',');
            lemma_comma_not_digits(t, k);
            if t[0] == '-' {
                assert(t.drop_first()[k - 1] == ',');
                lemma_comma_not_digits(t.drop_first(), k - 1);
            }
            if t[0] == '+' {
                if k == 0 {
                    assert(t[0] == ',');
                } else {
                    assert(t[0] == ta[0]);
                }
                assert(false);
            }
            assert(crate::text::spec_parse_i32(t) is None);
            reveal_strlit("true");
            reveal_strlit("false");
            assert(crate::text::spec_parse_bool(t) is None) by {
                if t == "true"@ {
                    assert("true"@[k] != ',');
                }
                if t == "false"@ {
                    assert("false"@[k] != ',');
                }
            }
            lemma_first_comma(ta, tb);
            assert(t.take(k) =~= ta);
            assert(t.skip(k + 1) =~= tb);
        },
        _ => {},
    }
}

/// The text of a natural number that fits in a `u32` reads back as it.
proof fn lemma_u32_text(n: u32)
    ensures
        crate::text::spec_parse_u32(int_text(n as int)) == Some(n),
        !int_text(n as int).contains(','),
{
    crate::text::lemma_nat_text(n as nat);
    let s = int_text(n as int);
    assert(crate::text::is_digit(s[0]));
}

/// `x,y` splits at its comma into `x` and `y` when neither holds a comma.
proof fn lemma_two_parts_of(a: Seq<char>, b: Seq<char>)
    requires
        !a.contains(','),
        !b.contains(','),
    ensures
        crate::text::spec_two_parts(a + seq![','] + b) == Some((a, b)),
{
    reveal_strlit(",");
    assert(","@ == seq![',']) by {
        assert(","@.len() == 1);
    }
    lemma_first_comma(a, b);
    let t = a + seq![','] + b;
    let k = a.len() as int;
    assert(t.take(k) =~= a);
    assert(t.skip(k + 1) =~= b);
}

/// Two integers written as `x,y` read back as the same pair.
pub proof fn law_pair_text_reads_back(x: i32, y: i32)
    ensures
        crate::text::spec_parse_pair(crate::text::pair_text(x as int, y as int)) == Some((x, y)),
{
    crate::text::lemma_int_text(x);
    crate::text::lemma_int_text(y);
    lemma_two_parts_of(int_text(x as int), int_text(y as int));
}

/// Two coordinates written as `x,y` read back as the same position.
pub proof fn law_position_text_reads_back(x: u32, y: u32)
    ensures
        crate::text::spec_parse_position(crate::text::pair_text(x as int, y as int)) == Some((x, y)),
{
    lemma_u32_text(x);
    lemma_u32_text(y);
    lemma_two_parts_of(int_text(x as int), int_text(y as int));
}

impl RuleExpression {
    /// The text the result is stored as in a context; see `value_text`.
    pub fn string2(&self) -> (r: String)
        ensures
            r@ == value_text(self@),
        decreases self,
    {
        match self {
            RuleExpression::Integer(n) => crate::text::int_to_text(*n as i64),
            RuleExpression::Boolean(b) => text(if *b { "true" } else { "false" }),
            RuleExpression::Pair(a, b) => {
                let x = a.string2();
                let y = b.string2();
                cat3(x.as_str(), ",", y.as_str())
            },
            RuleExpression::Variable(s) => s.clone(),
            RuleExpression::Error(s) => s.clone(),
            _ => debug_text(self),
        }
    }
}

/// `Diff` is the distance between two integers: for parts whose values are the integers `x` and
/// `y` it gives `|x - y|` (an overflow error when that exceeds `i32`), never a negative number,
/// and the same whichever part comes first.
pub proof fn law_diff_is_distance(a: RuleValue, b: RuleValue, ctx: Map<Seq<char>, Seq<char>>, x: i32, y: i32)
    requires
        pure_eval(a, ctx) == RuleValue::Integer(x),
        pure_eval(b, ctx) == RuleValue::Integer(y),
    ensures
        x - y >= 0 && x - y <= i32::MAX ==> pure_eval(RuleValue::Diff(Box::new(a), Box::new(b)), ctx) == RuleValue::Integer((x - y) as i32),
        y - x >= 0 && y - x <= i32::MAX ==> pure_eval(RuleValue::Diff(Box::new(a), Box::new(b)), ctx) == RuleValue::Integer((y - x) as i32),
        pure_eval(RuleValue::Diff(Box::new(a), Box::new(b)), ctx) matches RuleValue::Integer(d) ==> d >= 0,
        pure_eval(RuleValue::Diff(Box::new(a), Box::new(b)), ctx) == pure_eval(RuleValue::Diff(Box::new(b), Box::new(a)), ctx),
{
}

/// The same for a `Diff` whose parts call the board: once both parts have given integers, the
/// value is their distance, the same whichever comes first.
pub proof fn law_diff_combines_as_distance(a: RuleValue, b: RuleValue, ctx: Map<Seq<char>, Seq<char>>, x: i32, y: i32)
    ensures
        combined(RuleValue::Diff(Box::new(a), Box::new(b)), RuleValue::Integer(x), RuleValue::Integer(y), ctx)
            == combined(RuleValue::Diff(Box::new(b), Box::new(a)), RuleValue::Integer(y), RuleValue::Integer(x), ctx),
        x - y >= 0 && x - y <= i32::MAX ==> combined(RuleValue::Diff(Box::new(a), Box::new(b)), RuleValue::Integer(x), RuleValue::Integer(y), ctx)
            == RuleValue::Integer((x - y) as i32),
        x - y <= 0 && y - x <= i32::MAX ==> combined(RuleValue::Diff(Box::new(a), Box::new(b)), RuleValue::Integer(x), RuleValue::Integer(y), ctx)
            == RuleValue::Integer((y - x) as i32),
{
}

/// `Sum` adds two integers: for parts whose values are `x` and `y` it gives `x + y` (an
/// overflow error outside `i32`), the same whichever part comes first.
pub proof fn law_sum_adds(a: RuleValue, b: RuleValue, ctx: Map<Seq<char>, Seq<char>>, x: i32, y: i32)
    requires
        pure_eval(a, ctx) == RuleValue::Integer(x),
        pure_eval(b, ctx) == RuleValue::Integer(y),
    ensures
        i32::MIN <= x + y <= i32::MAX ==> pure_eval(RuleValue::Sum(Box::new(a), Box::new(b)), ctx) == RuleValue::Integer((x + y) as i32),
        pure_eval(RuleValue::Sum(Box::new(a), Box::new(b)), ctx) == pure_eval(RuleValue::Sum(Box::new(b), Box::new(a)), ctx),
{
}

} // verus!
