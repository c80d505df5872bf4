//! The partial rule a player builds step by step in the rule creator, as a tree whose open
//! nodes still wait for parts.
use vstd::prelude::*;
use crate::eval::{debug_text, spec_debug};
use crate::rule::{RuleExpression, RuleValue};
use crate::text::{cat, cat3, text};

verus! {

/// A rule being built: a finished rule, a node that waits for parts (`size` of them, or any
/// number when `size` is -1), or nothing yet.
pub enum RuleState {
    Closed(RuleExpression),
    Open { name: String, children: Vec<RuleState>, size: i32 },
    Empty,
}

/// The mathematical value of a rule being built.
pub ghost enum RuleTree {
    Closed(RuleValue),
    Open { name: Seq<char>, children: Seq<RuleTree>, size: i32 },
    Empty,
}

pub open spec fn view_state(s: RuleState) -> RuleTree
    decreases s,
{
    match s {
        RuleState::Closed(e) => RuleTree::Closed(e@),
        RuleState::Open { name, children, size } => RuleTree::Open { name: name@, children: view_states(children@), size },
        RuleState::Empty => RuleTree::Empty,
    }
}

pub open spec fn view_states(s: Seq<RuleState>) -> Seq<RuleTree>
    decreases s,
{
    if s.len() == 0 {
        Seq::empty()
    } else {
        view_states(s.drop_last()).push(view_state(s.last()))
    }
}

pub proof fn lemma_view_states(s: Seq<RuleState>)
    ensures
        view_states(s).len() == s.len(),
        forall|i: int| 0 <= i < s.len() ==> #[trigger] view_states(s)[i] == view_state(s[i]),
    decreases s.len(),
{
    if s.len() > 0 {
        lemma_view_states(s.drop_last());
        assert forall|i: int| 0 <= i < s.len() implies #[trigger] view_states(s)[i] == view_state(s[i]) by {
            if i < s.len() - 1 {
                assert(s.drop_last()[i] == s[i]);
            }
        }
    }
}

/// The views of a list with one item replaced.
pub proof fn lemma_update_views(s: Seq<RuleState>, i: int, c: RuleState)
    requires
        0 <= i < s.len(),
    ensures
        view_states(s.update(i, c)) == view_states(s).update(i, view_state(c)),
{
    lemma_view_states(s);
    lemma_view_states(s.update(i, c));
    assert(view_states(s.update(i, c)) =~= view_states(s).update(i, view_state(c)));
}

impl View for RuleState {
    type V = RuleTree;

    open spec fn view(&self) -> RuleTree {
        view_state(*self)
    }
}

/// The tree after `c` is put at `path` (from `depth` on): an empty node becomes `c`, an open
/// node at the end of the path gets `c` as its last part, and an index one past the last part
/// of an open node appends `c` there.
pub open spec fn tree_add(t: RuleTree, path: Seq<usize>, depth: int, c: RuleTree) -> RuleTree
    decreases path.len() - depth,
{
    if depth >= path.len() {
        match t {
            RuleTree::Empty => c,
            RuleTree::Open { name, children, size } => RuleTree::Open { name, children: children.push(c), size },
            _ => t,
        }
    } else {
        match t {
            RuleTree::Open { name, children, size } => {
                let ind = path[depth] as int;
                if ind < children.len() {
                    RuleTree::Open { name, children: children.update(ind, tree_add(children[ind], path, depth + 1, c)), size }
                } else if ind == children.len() {
                    RuleTree::Open { name, children: children.push(c), size }
                } else {
                    t
                }
            },
            _ => t,
        }
    }
}

/// The tree after the node `path` names (from `depth` on) is taken out: the last part of the
/// open node that holds it is dropped; a finished rule at the top becomes nothing.
pub open spec fn tree_pop(t: RuleTree, path: Seq<usize>, depth: int) -> RuleTree
    decreases path.len() - depth,
{
    if depth + 1 >= path.len() {
        match t {
            RuleTree::Open { name, children, size } => RuleTree::Open {
                name,
                children: if children.len() > 0 { children.drop_last() } else { children },
                size,
            },
            RuleTree::Closed(_) => RuleTree::Empty,
            _ => t,
        }
    } else {
        match t {
            RuleTree::Open { name, children, size } => {
                let ind = path[depth] as int;
                if ind < children.len() {
                    RuleTree::Open { name, children: children.update(ind, tree_pop(children[ind], path, depth + 1)), size }
                } else {
                    t
                }
            },
            _ => t,
        }
    }
}

/// The tree with the node `path` names (from `depth` on) replaced by `c`.
pub open spec fn tree_swap(t: RuleTree, path: Seq<usize>, depth: int, c: RuleTree) -> RuleTree
    decreases path.len() - depth,
{
    if depth >= path.len() {
        c
    } else {
        match t {
            RuleTree::Open { name, children, size } => {
                let ind = path[depth] as int;
                if ind < children.len() {
                    RuleTree::Open { name, children: children.update(ind, tree_swap(children[ind], path, depth + 1, c)), size }
                } else {
                    t
                }
            },
            _ => t,
        }
    }
}

/// The node that `path` names (from `depth` on), when every step goes into an open node.
pub open spec fn tree_at(t: RuleTree, path: Seq<usize>, depth: int) -> Option<RuleTree>
    decreases path.len() - depth,
{
    if depth >= path.len() {
        Some(t)
    } else {
        match t {
            RuleTree::Open { children, .. } => {
                let ind = path[depth] as int;
                if ind < children.len() { tree_at(children[ind], path, depth + 1) } else { None }
            },
            _ => None,
        }
    }
}

/// Takes the part `ind` out of a list, leaving an empty node in its place.
fn take_child(children: &mut Vec<RuleState>, ind: usize) -> (r: RuleState)
    requires
        ind < old(children)@.len(),
    ensures
        r == old(children)@[ind as int],
        final(children)@ == old(children)@.update(ind as int, RuleState::Empty),
{
    let mut c = RuleState::Empty;
    std::mem::swap(&mut c, &mut children[ind]);
    c
}

/// Puts `child` at `path` in the tree; see `tree_add`.
pub fn add_node(node: &mut RuleState, path: Vec<usize>, depth: usize, child: RuleState)
    ensures
        final(node)@ == tree_add(old(node)@, path@, depth as int, child@),
    decreases path@.len() - depth,
{
    if depth >= path.len() {
        match node {
            RuleState::Empty => {
                *node = child;
            },
            RuleState::Open { children, .. } => {
                let ghost before = children@;
                children.push(child);
                proof {
                    assert(children@ == before.push(child));
                    assert(before.push(child).drop_last() == before);
                }
            },
            _ => {},
        }
    } else {
        match node {
            RuleState::Open { children, .. } => {
                let ind = path[depth];
                proof { lemma_view_states(children@); }
                if ind < children.len() {
                    let ghost before = children@;
                    let mut c = take_child(children, ind);
                    add_node(&mut c, path, depth + 1, child);
                    children.set(ind, c);
                    proof {
                        assert(children@ == before.update(ind as int, c));
                        lemma_update_views(before, ind as int, c);
                    }
                } else if ind == children.len() {
                    let ghost before = children@;
                    children.push(child);
                    proof {
                        assert(children@ == before.push(child));
                        assert(before.push(child).drop_last() == before);
                    }
                }
            },
            _ => {},
        }
    }
}

/// Takes the node `path` names out of the tree; see `tree_pop`.
pub fn pop_node(node: &mut RuleState, path: Vec<usize>, depth: usize)
    ensures
        final(node)@ == tree_pop(old(node)@, path@, depth as int),
    decreases path@.len() - depth,
{
    if depth >= path.len() || depth + 1 >= path.len() {
        match node {
            RuleState::Open { children, .. } => {
                proof { lemma_view_states(children@); }
                let ghost before = children@;
                if children.len() > 0 {
                    children.pop();
                    proof {
                        assert(children@ == before.drop_last());
                        assert(view_states(before) == view_states(before.drop_last()).push(view_state(before.last())));
                        assert(view_states(before).drop_last() == view_states(before.drop_last()));
                    }
                }
            },
            RuleState::Closed(..) => {
                *node = RuleState::Empty;
            },
            _ => {},
        }
    } else {
        match node {
            RuleState::Open { children, .. } => {
                let ind = path[depth];
                proof { lemma_view_states(children@); }
                if ind < children.len() {
                    let ghost before = children@;
                    let mut c = take_child(children, ind);
                    pop_node(&mut c, path, depth + 1);
                    children.set(ind, c);
                    proof {
                        assert(children@ == before.update(ind as int, c));
                        lemma_update_views(before, ind as int, c);
                    }
                }
            },
            _ => {},
        }
    }
}

/// Replaces the node `path` names by `closed`; see `tree_swap`.
pub fn swap_node(node: &mut RuleState, path: Vec<usize>, depth: usize, closed: RuleState)
    ensures
        final(node)@ == tree_swap(old(node)@, path@, depth as int, closed@),
    decreases path@.len() - depth,
{
    if depth >= path.len() {
        *node = closed;
    } else {
        match node {
            RuleState::Open { children, .. } => {
                let ind = path[depth];
                proof { lemma_view_states(children@); }
                if ind < children.len() {
                    let ghost before = children@;
                    let mut c = take_child(children, ind);
                    swap_node(&mut c, path, depth + 1, closed);
                    children.set(ind, c);
                    proof {
                        assert(children@ == before.update(ind as int, c));
                        lemma_update_views(before, ind as int, c);
                    }
                }
            },
            _ => {},
        }
    }
}

/// Whether `c` can be put at `path` (from `depth` on) as a new last part of an open node, so
/// that the rule creator can take it out again.
pub open spec fn appendable(t: RuleTree, path: Seq<usize>, depth: int) -> bool
    decreases path.len() - depth,
{
    if depth + 1 >= path.len() {
        depth + 1 == path.len() && (t matches RuleTree::Open { children, .. } && children.len() == path[depth] as int)
    } else {
        (t matches RuleTree::Open { children, .. } && (path[depth] as int) < children.len()
            && appendable(children[path[depth] as int], path, depth + 1))
    }
}

/// Taking out a part just put at the end of an open node gives the tree back: what the rule
/// creator does when a part is cancelled.
pub proof fn law_add_then_pop(t: RuleTree, path: Seq<usize>, depth: int, c: RuleTree)
    requires
        0 <= depth,
        appendable(t, path, depth),
    ensures
        tree_pop(tree_add(t, path, depth, c), path, depth) == t,
    decreases path.len() - depth,
{
    if depth + 1 >= path.len() {
        if let RuleTree::Open { name, children, size } = t {
            assert(children.push(c).drop_last() == children);
        }
    } else {
        if let RuleTree::Open { name, children, size } = t {
            let ind = path[depth] as int;
            law_add_then_pop(children[ind], path, depth + 1, c);
            let added = children.update(ind, tree_add(children[ind], path, depth + 1, c));
            assert(added.update(ind, tree_pop(added[ind], path, depth + 1)) =~= children);
        }
    }
}

/// After a node is replaced, the path that named it names the replacement: what the rule
/// creator relies on when it closes a finished part.
pub proof fn law_swap_then_read(t: RuleTree, path: Seq<usize>, depth: int, c: RuleTree)
    requires
        0 <= depth,
        tree_at(t, path, depth) is Some,
    ensures
        tree_at(tree_swap(t, path, depth, c), path, depth) == Some(c),
    decreases path.len() - depth,
{
    if depth < path.len() {
        if let RuleTree::Open { name, children, size } = t {
            let ind = path[depth] as int;
            law_swap_then_read(children[ind], path, depth + 1, c);
        }
    }
}

/// `n` copies of `s`, one after the other.
pub open spec fn repeat_text(s: Seq<char>, n: nat) -> Seq<char>
    decreases n,
{
    if n == 0 { Seq::empty() } else { repeat_text(s, (n - 1) as nat) + s }
}

/// The printed parts of an open node, each followed by a comma.
pub open spec fn print_each(s: Seq<RuleTree>) -> Seq<char>
    decreases s,
{
    if s.len() == 0 {
        Seq::empty()
    } else {
        print_tree(s[0]) + ","@ + print_each(s.subrange(1, s.len() as int))
    }
}

/// The printed parts of an open node, separated by commas.
pub open spec fn print_joined(s: Seq<RuleTree>) -> Seq<char>
    decreases s,
{
    if s.len() == 0 {
        Seq::empty()
    } else if s.len() == 1 {
        print_tree(s[0])
    } else {
        print_tree(s[0]) + ","@ + print_joined(s.subrange(1, s.len() as int))
    }
}

/// How the rule creator shows a rule being built: a finished rule by its debug text, nothing
/// as `Empty rule`, and an open node as its name followed by its parts in brackets, then either
/// a note that parts may be added (for any number of parts) or `empty` for each missing part.
pub open spec fn print_tree(t: RuleTree) -> Seq<char>
    decreases t,
{
    match t {
        RuleTree::Closed(e) => spec_debug(e),
        RuleTree::Empty => "Empty rule"@,
        RuleTree::Open { name, children, size } => {
            if size == -1 {
                name + "("@ + print_each(children) + "additional RuleExpressions can be added)"@
            } else if size - children.len() > 0 {
                name + "("@ + print_each(children) + repeat_text("empty,"@, (size - children.len() - 1) as nat) + "empty)"@
            } else if children.len() > 0 {
                name + "("@ + print_joined(children) + ")"@
            } else {
                name + ")"@
            }
        },
    }
}

/// Shows a rule being built; see `print_tree`.
pub fn print_rule_state(expr2: RuleState) -> (r: String)
    ensures
        r@ == print_tree(expr2@),
{
    print_state(&expr2)
}

/// Shows a rule being built; see `print_tree`.
pub fn print_state(s: &RuleState) -> (r: String)
    ensures
        r@ == print_tree(s@),
    decreases s, 0int,
{
    match s {
        RuleState::Closed(e) => debug_text(e),
        RuleState::Empty => text("Empty rule"),
        RuleState::Open { name, children, size } => {
            proof {
                assert(decreases_to!(s => s->children));
                lemma_view_states(children@);
            }
            let (each, joined) = print_parts(children);
            let n: i128 = *size as i128 - children.len() as i128;
            if *size == -1 {
                let r = cat(name.as_str(), "(");
                let r = cat(r.as_str(), each.as_str());
                let r = cat(r.as_str(), "additional RuleExpressions can be added)");
                assert(r@ =~= name@ + "("@ + print_each(view_states(children@)) + "additional RuleExpressions can be added)"@);
                r
            } else if n > 0 {
                let mut r = cat(name.as_str(), "(");
                r = cat(r.as_str(), each.as_str());
                let mut k: i128 = 0;
                while k < n - 1
                    invariant
                        0 <= k <= n - 1,
                        r@ == name@ + "("@ + print_each(view_states(children@)) + repeat_text("empty,"@, k as nat),
                    decreases n - 1 - k,
                {
                    r = cat(r.as_str(), "empty,");
                    k = k + 1;
                    proof {
                        assert(repeat_text("empty,"@, k as nat) == repeat_text("empty,"@, (k - 1) as nat) + "empty,"@);
                    }
                }
                r = cat(r.as_str(), "empty)");
                assert(r@ =~= name@ + "("@ + print_each(view_states(children@)) + repeat_text("empty,"@, (*size - children@.len() - 1) as nat) + "empty)"@);
                r
            } else if children.len() > 0 {
                let r = cat(name.as_str(), "(");
                let r = cat(r.as_str(), joined.as_str());
                let r = cat(r.as_str(), ")");
                assert(r@ =~= name@ + "("@ + print_joined(view_states(children@)) + ")"@);
                r
            } else {
                cat(name.as_str(), ")")
            }
        },
    }
}

/// The printed parts of an open node, each followed by a comma, and separated by commas.
fn print_parts(v: &Vec<RuleState>) -> (r: (String, String))
    ensures
        r.0@ == print_each(view_states(v@)),
        r.1@ == print_joined(view_states(v@)),
    decreases v, 1int,
{
    proof {
        lemma_view_states(v@);
    }
    let ghost s = view_states(v@);
    let mut each = String::new();
    let mut joined = String::new();
    let mut i: usize = v.len();
    proof {
        assert(s.subrange(i as int, s.len() as int) =~= Seq::<RuleTree>::empty());
    }
    while i > 0
        invariant
            i <= v@.len(),
            s == view_states(v@),
            s.len() == v@.len(),
            each@ == print_each(s.subrange(i as int, s.len() as int)),
            joined@ == print_joined(s.subrange(i as int, s.len() as int)),
        decreases i,
    {
        i = i - 1;
        proof {
            assert(decreases_to!(*v => v@));
            assert(decreases_to!(v@ => v@[i as int]));
        }
        let p = print_state(&v[i]);
        proof {
            lemma_view_states(v@);
        }
        let ghost rest = s.subrange(i + 1, s.len() as int);
        let ghost now = s.subrange(i as int, s.len() as int);
        proof {
            assert(now[0] == s[i as int]);
            assert(now.subrange(1, now.len() as int) =~= rest);
            assert(s[i as int] == view_state(v@[i as int]));
        }
        let e2 = cat3(p.as_str(), ",", each.as_str());
        let j2 = if i + 1 == v.len() {
            p.clone()
        } else {
            cat3(p.as_str(), ",", joined.as_str())
        };
        proof {
            assert(e2@ =~= print_tree(now[0]) + ","@ + print_each(rest));
        }
        each = e2;
        joined = j2;
    }
    proof {
        assert(s.subrange(0, s.len() as int) =~= s);
    }
    (each, joined)
}

} // verus!
