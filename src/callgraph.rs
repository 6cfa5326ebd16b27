//! Call-site harvesting: every call of the target function, with the kinds
//! that its arguments' literal syntax gives.
use vstd::prelude::*;
use crate::infer::{literal_kind, literal_typ};
use crate::kinds::JSTyp;
use crate::syntax::{inside, lemma_wf_nest, lemma_wf_node, Node, NodeKind, SyntaxTree};
use crate::text::str_eq;

verus! {

/// The literal kinds of the children of node `a` from child `c` on; children
/// that are not literal are skipped.
pub open spec fn arg_kinds_from(n: Seq<Node>, a: int, c: int) -> Seq<JSTyp>
    decreases n[a].end - c,
{
    if inside(n, a, c) {
        let rest = arg_kinds_from(n, a, n[c].end as int);
        match literal_kind(n, c) {
            Some(k) => seq![k] + rest,
            None => rest,
        }
    } else {
        Seq::empty()
    }
}

/// The argument kinds of the argument list at node `a`.
pub open spec fn arg_kinds(n: Seq<Node>, a: int) -> Seq<JSTyp> {
    arg_kinds_from(n, a, a + 1)
}

/// The call at node `c` calls `target` by name: its callee, the first
/// child, is an identifier with that text.
pub open spec fn calls_target(n: Seq<Node>, c: int, target: Seq<char>) -> bool {
    inside(n, c, c + 1) && n[c + 1].kind == NodeKind::Identifier && n[c + 1].text@ == target
}

/// The argument kinds of the call at node `c`: those of the argument list
/// that follows the callee, or none.
pub open spec fn call_args(n: Seq<Node>, c: int) -> Seq<JSTyp> {
    let a = if inside(n, c, c + 1) { n[c + 1].end as int } else { c };
    if inside(n, c, c + 1) && inside(n, c, a) && n[a].kind == NodeKind::Arguments {
        arg_kinds(n, a)
    } else {
        Seq::empty()
    }
}

/// The calls of `target` found in pre-order among the nodes of the subtree
/// of `root` from node `j` on; a call's own subtree is not searched.
pub open spec fn callsites_from(n: Seq<Node>, root: int, j: int, target: Seq<char>) -> Seq<
    (int, Seq<JSTyp>),
>
    decreases n[root].end - j,
{
    if inside(n, root, j) {
        if n[j].kind == NodeKind::CallExpression {
            let rest = callsites_from(n, root, n[j].end as int, target);
            if calls_target(n, j, target) {
                seq![(j, call_args(n, j))] + rest
            } else {
                rest
            }
        } else {
            callsites_from(n, root, j + 1, target)
        }
    } else {
        Seq::empty()
    }
}

/// The literal kinds of the arguments in the argument list at node `a`.
pub fn run_arguments(tree: &SyntaxTree, a: usize) -> (r: Vec<JSTyp>)
    requires
        tree.wf(),
        a < tree.nodes@.len(),
    ensures
        r@ == arg_kinds(tree.nodes@, a as int),
{
    let ghost n = tree.nodes@;
    proof {
        lemma_wf_node(n, a as int);
    }
    let end = tree.nodes[a].end;
    let mut c = a + 1;
    let mut typs: Vec<JSTyp> = Vec::new();
    while c < end
        invariant
            tree.wf(),
            n == tree.nodes@,
            a < n.len(),
            end == n[a as int].end,
            end <= n.len(),
            a < c <= end,
            typs@ + arg_kinds_from(n, a as int, c as int) == arg_kinds(n, a as int),
        decreases end - c,
    {
        proof {
            lemma_wf_node(n, c as int);
            lemma_wf_nest(n, a as int, c as int);
        }
        let ghost before = typs@;
        match literal_typ(tree, c) {
            Some(k) => {
                typs.push(k);
                assert(before + (seq![k] + arg_kinds_from(n, a as int, n[c as int].end as int))
                    == typs@ + arg_kinds_from(n, a as int, n[c as int].end as int));
            },
            None => {},
        }
        c = tree.nodes[c].end;
    }
    assert(typs@ + arg_kinds_from(n, a as int, c as int) == typs@);
    typs
}

/// For the call at node `c`: the callee node where it is `target`, and the
/// argument kinds.
pub fn run_call_expr(target: &str, tree: &SyntaxTree, c: usize) -> (r: (Option<usize>, Vec<JSTyp>))
    requires
        tree.wf(),
        c < tree.nodes@.len(),
    ensures
        r.0 is Some <==> calls_target(tree.nodes@, c as int, target@),
        r.0 matches Some(f) ==> f == c + 1,
        r.1@ == call_args(tree.nodes@, c as int),
{
    let ghost n = tree.nodes@;
    proof {
        lemma_wf_node(n, c as int);
    }
    let end = tree.nodes[c].end;
    if !(c + 1 < end) {
        return (None, Vec::new());
    }
    proof {
        lemma_wf_node(n, c + 1);
        lemma_wf_nest(n, c as int, c + 1);
    }
    let callee = &tree.nodes[c + 1];
    let func = if callee.kind == NodeKind::Identifier && str_eq(callee.text.as_str(), target) {
        Some(c + 1)
    } else {
        None
    };
    let a = callee.end;
    if a < end {
        proof {
            lemma_wf_node(n, a as int);
            lemma_wf_nest(n, c as int, a as int);
        }
        if tree.nodes[a].kind == NodeKind::Arguments {
            return (func, run_arguments(tree, a));
        }
    }
    (func, Vec::new())
}

/// Every call of `target` in the tree under its root, in pre-order, with
/// the literal kinds of its arguments.
pub fn gather_callsites(target_func_ident: &str, tree: &SyntaxTree) -> (r: Vec<(usize, Vec<JSTyp>)>)
    requires
        tree.wf(),
    ensures
        tree.nodes@.len() > 0 ==> {
            let s = callsites_from(tree.nodes@, 0, 1, target_func_ident@);
            &&& r@.len() == s.len()
            &&& forall|k: int|
                0 <= k < s.len() ==> (#[trigger] r@[k]).0 == s[k].0 && r@[k].1@ == s[k].1
        },
{
    let ghost n = tree.nodes@;
    let ghost t = target_func_ident@;
    let mut callsites: Vec<(usize, Vec<JSTyp>)> = Vec::new();
    if tree.nodes.len() == 0 {
        return callsites;
    }
    proof {
        lemma_wf_node(n, 0);
    }
    let end = tree.nodes[0].end;
    let mut j: usize = 1;
    while j < end
        invariant
            tree.wf(),
            n == tree.nodes@,
            t == target_func_ident@,
            n.len() > 0,
            end == n[0].end,
            end <= n.len(),
            0 < j <= end,
            ({
                let s = callsites_from(n, 0, j as int, t);
                let all = callsites_from(n, 0, 1, t);
                &&& all.len() == callsites@.len() + s.len()
                &&& forall|k: int|
                    0 <= k < callsites@.len() ==> (#[trigger] callsites@[k]).0 == all[k].0
                        && callsites@[k].1@ == all[k].1
                &&& forall|k: int|
                    0 <= k < s.len() ==> #[trigger] s[k] == all[k + callsites@.len()]
            }),
        decreases end - j,
    {
        proof {
            lemma_wf_node(n, j as int);
            lemma_wf_nest(n, 0, j as int);
        }
        let ghost s = callsites_from(n, 0, j as int, t);
        if tree.nodes[j].kind == NodeKind::CallExpression {
            let (func, args) = run_call_expr(target_func_ident, tree, j);
            let ghost s2 = callsites_from(n, 0, n[j as int].end as int, t);
            match func {
                Some(_) => {
                    let ghost len0 = callsites@.len();
                    callsites.push((j, args));
                    proof {
                        assert(s == seq![(j as int, call_args(n, j as int))] + s2);
                        assert(s[0] == (j as int, call_args(n, j as int)));
                        assert forall|k: int| 0 <= k < s2.len() implies #[trigger] s2[k]
                            == callsites_from(n, 0, 1, t)[k + callsites@.len()] by {
                            assert(s2[k] == s[k + 1]);
                        }
                    }
                },
                None => {},
            }
            j = tree.nodes[j].end;
        } else {
            j = j + 1;
        }
    }
    callsites
}

} // verus!
