//! The abstract interpreter: walks a debloated function over kinds, keeps
//! the kind environment and records every operator misuse.
use vstd::prelude::*;
use crate::annot::{get_parent_id, is_non_branch, AnnotError};
use crate::env::{env_of, insert_var, kinds_in, lemma_env_update, overwrite_var, read_spec, EnvModel, Introduced, VarMap};
use crate::kinds::{result_of, violation_of, JSOp, JSTyp};
use crate::report::{Diagnostic, Violation};
use crate::syntax::{get_annot, inside, lemma_wf_nest, lemma_wf_node, Node, NodeKind, SyntaxTree};
use crate::text::str_eq;

verus! {

broadcast use crate::env::lemma_env_of;

/// A number literal with the `n` suffix is a `BigInt`.
pub open spec fn number_kind(text: Seq<char>) -> JSTyp {
    if text.len() > 0 && text.last() == 'n' {
        JSTyp::BigInt
    } else {
        JSTyp::Number
    }
}

/// Node `i` is a call whose callee is the identifier `Symbol`.
pub open spec fn symbol_call(n: Seq<Node>, i: int) -> bool {
    0 <= i && i + 1 < n.len() && i + 1 < n[i].end && n[i].kind == NodeKind::CallExpression && n[i
        + 1].kind == NodeKind::Identifier && n[i + 1].text@ == "Symbol"@
}

/// The kind that literal syntax at node `i` denotes, if it is literal.
pub open spec fn literal_kind(n: Seq<Node>, i: int) -> Option<JSTyp> {
    if 0 <= i < n.len() {
        match n[i].kind {
            NodeKind::True | NodeKind::False => Some(JSTyp::Bool),
            NodeKind::Null => Some(JSTyp::Null),
            NodeKind::Undefined => Some(JSTyp::Undefined),
            NodeKind::Number => Some(number_kind(n[i].text@)),
            NodeKind::StringLiteral => Some(JSTyp::String),
            NodeKind::CallExpression => if symbol_call(n, i) {
                Some(JSTyp::Symbol)
            } else {
                None
            },
            NodeKind::Object => Some(JSTyp::Object),
            _ => None,
        }
    } else {
        None
    }
}

/// What a read of a variable yields; `Unknown` for a variable that is not
/// in the environment.
pub open spec fn read_kind(m: EnvModel, scope: usize, name: Seq<char>) -> JSTyp {
    if m.contains_key((scope, name)) {
        read_spec(m[(scope, name)])
    } else {
        JSTyp::Unknown
    }
}

/// The misuse found by applying `op` at node `i`, as a list of at most one.
pub open spec fn misuse_at(i: int, op: JSOp, a: JSTyp, b: JSTyp) -> Seq<Violation> {
    match violation_of(op, a, b) {
        Some(c) => seq![Violation { node: i as usize, lhs: a, op, rhs: b, class: c }],
        None => Seq::empty(),
    }
}

/// The operator of the binary expression at node `i`.
pub open spec fn binary_op(n: Seq<Node>, i: int) -> Option<JSOp> {
    if 0 <= i < n.len() && n[i].kind == NodeKind::BinaryExpression {
        let l = i + 1;
        let o = if inside(n, i, l) { n[l].end as int } else { i };
        let r = if inside(n, i, o) { n[o].end as int } else { i };
        if inside(n, i, l) && inside(n, i, o) && inside(n, i, r) {
            match n[o].kind {
                NodeKind::Operator(op) => Some(op),
                _ => None,
            }
        } else {
            None
        }
    } else {
        None
    }
}

/// A misuse as the analysis of tree `n` records it: one that the operator
/// algebra reports, at a binary expression whose operator it names.
pub open spec fn is_finding(n: Seq<Node>, v: Violation) -> bool {
    v.is_sound() && binary_op(n, v.node as int) == Some(v.op)
}

pub open spec fn all_findings(n: Seq<Node>, s: Seq<Violation>) -> bool {
    forall|k: int| 0 <= k < s.len() ==> is_finding(n, #[trigger] s[k])
}

/// The kind of the expression at node `i`, and the misuses found while
/// evaluating it, left operand first. Identifiers read the environment,
/// literals give their kind, a binary expression applies its operator to
/// its operands' kinds, parentheses are transparent, and anything else is
/// `Unknown`.
pub open spec fn eval_spec(n: Seq<Node>, vars: EnvModel, scope: usize, i: int) -> (
    JSTyp,
    Seq<Violation>,
)
    decreases n[i].end - i,
{
    if !(0 <= i < n.len()) {
        (JSTyp::Unknown, Seq::empty())
    } else if n[i].kind == NodeKind::Identifier {
        (read_kind(vars, scope, n[i].text@), Seq::empty())
    } else if n[i].kind == NodeKind::BinaryExpression {
        let l = i + 1;
        let o = if inside(n, i, l) { n[l].end as int } else { i };
        let r = if inside(n, i, o) { n[o].end as int } else { i };
        if inside(n, i, l) && inside(n, i, o) && inside(n, i, r) {
            match n[o].kind {
                NodeKind::Operator(op) => {
                    let (a, va) = eval_spec(n, vars, scope, l);
                    let (b, vb) = eval_spec(n, vars, scope, r);
                    (result_of(op, a, b), va + vb + misuse_at(i, op, a, b))
                },
                _ => (JSTyp::Unknown, Seq::empty()),
            }
        } else {
            (JSTyp::Unknown, Seq::empty())
        }
    } else if n[i].kind == NodeKind::ParenthesizedExpression {
        let c = if inside(n, i, i + 1) { n[i + 1].end as int } else { i };
        if inside(n, i, i + 1) && inside(n, i, c) {
            eval_spec(n, vars, scope, c)
        } else {
            (JSTyp::Unknown, Seq::empty())
        }
    } else {
        match literal_kind(n, i) {
            Some(k) => (k, Seq::empty()),
            None => (JSTyp::Unknown, Seq::empty()),
        }
    }
}

/// The diagnostics met while evaluating the expression at node `i`, in the
/// order of `eval_spec`: reads of variables that are not in the
/// environment, and expressions that are not modelled.
pub open spec fn eval_diags(n: Seq<Node>, vars: EnvModel, scope: usize, i: int) -> Seq<Diagnostic>
    decreases n[i].end - i,
{
    if !(0 <= i < n.len()) {
        Seq::empty()
    } else if n[i].kind == NodeKind::Identifier {
        if vars.contains_key((scope, n[i].text@)) {
            Seq::empty()
        } else {
            seq![Diagnostic::UnknownVariable(i as usize)]
        }
    } else if n[i].kind == NodeKind::BinaryExpression {
        let l = i + 1;
        let o = if inside(n, i, l) { n[l].end as int } else { i };
        let r = if inside(n, i, o) { n[o].end as int } else { i };
        if inside(n, i, l) && inside(n, i, o) && inside(n, i, r) && n[o].kind is Operator {
            eval_diags(n, vars, scope, l) + eval_diags(n, vars, scope, r)
        } else {
            seq![Diagnostic::Unsupported(i as usize)]
        }
    } else if n[i].kind == NodeKind::ParenthesizedExpression {
        let c = if inside(n, i, i + 1) { n[i + 1].end as int } else { i };
        if inside(n, i, i + 1) && inside(n, i, c) {
            eval_diags(n, vars, scope, c)
        } else {
            seq![Diagnostic::Unsupported(i as usize)]
        }
    } else if literal_kind(n, i) is Some {
        Seq::empty()
    } else {
        seq![Diagnostic::Unsupported(i as usize)]
    }
}

/// The kind of a number literal.
pub fn number2typ(node: &Node) -> (r: JSTyp)
    ensures
        r == number_kind(node.text@),
{
    let len = node.text.as_str().unicode_len();
    if len > 0 && node.text.as_str().get_char(len - 1) == 'n' {
        JSTyp::BigInt
    } else {
        JSTyp::Number
    }
}

/// Whether node `i` is a call of `Symbol`.
pub fn is_symbol_call(tree: &SyntaxTree, i: usize) -> (r: bool)
    requires
        tree.wf(),
    ensures
        r == symbol_call(tree.nodes@, i as int),
{
    if i >= tree.nodes.len() || i + 1 >= tree.nodes.len() {
        return false;
    }
    let n = &tree.nodes[i];
    let c = &tree.nodes[i + 1];
    if i + 1 < n.end && n.kind == NodeKind::CallExpression && c.kind == NodeKind::Identifier {
        proof {
            reveal_strlit("Symbol");
        }
        str_eq(c.text.as_str(), "Symbol")
    } else {
        false
    }
}

/// The kind that literal syntax at node `i` denotes.
pub fn literal_typ(tree: &SyntaxTree, i: usize) -> (r: Option<JSTyp>)
    requires
        tree.wf(),
    ensures
        r == literal_kind(tree.nodes@, i as int),
{
    if i >= tree.nodes.len() {
        return None;
    }
    let node = &tree.nodes[i];
    match node.kind {
        NodeKind::True | NodeKind::False => Some(JSTyp::Bool),
        NodeKind::Null => Some(JSTyp::Null),
        NodeKind::Undefined => Some(JSTyp::Undefined),
        NodeKind::Number => Some(number2typ(node)),
        NodeKind::StringLiteral => Some(JSTyp::String),
        NodeKind::CallExpression => if is_symbol_call(tree, i) {
            Some(JSTyp::Symbol)
        } else {
            None
        },
        NodeKind::Object => Some(JSTyp::Object),
        _ => None,
    }
}

/// Evaluates the expression at node `i`, appending the misuses and the
/// diagnostics met.
pub fn run_binary_expr(
    tree: &SyntaxTree,
    vars: &VarMap,
    scope: usize,
    i: usize,
    out: &mut Vec<Violation>,
    diags: &mut Vec<Diagnostic>,
) -> (r: JSTyp)
    requires
        tree.wf(),
        i < tree.nodes@.len(),
    ensures
        r == eval_spec(tree.nodes@, env_of(*vars), scope, i as int).0,
        final(out)@ == old(out)@ + eval_spec(tree.nodes@, env_of(*vars), scope, i as int).1,
        final(diags)@ == old(diags)@ + eval_diags(tree.nodes@, env_of(*vars), scope, i as int),
    decreases tree.nodes@[i as int].end - i,
{
    let ghost n = tree.nodes@;
    proof {
        lemma_wf_node(n, i as int);
    }
    let node = &tree.nodes[i];
    assert(out@ == old(out)@ + Seq::<Violation>::empty());
    assert(diags@ == old(diags)@ + Seq::<Diagnostic>::empty());
    if node.kind == NodeKind::Identifier {
        return match vars.read_var(scope, node.text.as_str()) {
            Some(k) => k,
            None => {
                diags.push(Diagnostic::UnknownVariable(i));
                JSTyp::Unknown
            },
        };
    }
    if node.kind == NodeKind::BinaryExpression {
        let l = i + 1;
        let o = if tree.is_inside(i, l) {
            tree.nodes[l].end
        } else {
            i
        };
        let r = if tree.is_inside(i, o) {
            tree.nodes[o].end
        } else {
            i
        };
        if tree.is_inside(i, l) && tree.is_inside(i, o) && tree.is_inside(i, r) {
            match tree.nodes[o].kind {
                NodeKind::Operator(op) => {
                    let a = run_binary_expr(tree, vars, scope, l, out, diags);
                    let b = run_binary_expr(tree, vars, scope, r, out, diags);
                    let (k, v) = op.execute(&a, &b);
                    match v {
                        Some(c) => {
                            out.push(Violation { node: i, lhs: a, op, rhs: b, class: c });
                        },
                        None => {},
                    }
                    proof {
                        let va = eval_spec(n, env_of(*vars), scope, l as int).1;
                        let vb = eval_spec(n, env_of(*vars), scope, r as int).1;
                        assert(out@ == old(out)@ + va + vb + misuse_at(i as int, op, a, b));
                        let da = eval_diags(n, env_of(*vars), scope, l as int);
                        let db = eval_diags(n, env_of(*vars), scope, r as int);
                        assert(diags@ == old(diags)@ + (da + db));
                    }
                    return k;
                },
                _ => {},
            }
        }
        diags.push(Diagnostic::Unsupported(i));
        return JSTyp::Unknown;
    }
    if node.kind == NodeKind::ParenthesizedExpression {
        if tree.is_inside(i, i + 1) {
            let c = tree.nodes[i + 1].end;
            if tree.is_inside(i, c) {
                return run_binary_expr(tree, vars, scope, c, out, diags);
            }
        }
        diags.push(Diagnostic::Unsupported(i));
        return JSTyp::Unknown;
    }
    match literal_typ(tree, i) {
        Some(k) => k,
        None => {
            diags.push(Diagnostic::Unsupported(i));
            JSTyp::Unknown
        },
    }
}

} // verus!

verus! {

/// Every misuse found while evaluating an expression is one that the
/// operator algebra reports, at a binary expression whose operator it
/// names.
pub proof fn lemma_eval_sound(n: Seq<Node>, vars: EnvModel, scope: usize, i: int)
    ensures
        all_findings(n, eval_spec(n, vars, scope, i).1),
    decreases n[i].end - i,
{
    if 0 <= i < n.len() && n[i].kind == NodeKind::BinaryExpression {
        let l = i + 1;
        let o = if inside(n, i, l) { n[l].end as int } else { i };
        let r = if inside(n, i, o) { n[o].end as int } else { i };
        if inside(n, i, l) && inside(n, i, o) && inside(n, i, r) {
            match n[o].kind {
                NodeKind::Operator(op) => {
                    lemma_eval_sound(n, vars, scope, l);
                    lemma_eval_sound(n, vars, scope, r);
                    let (a, va) = eval_spec(n, vars, scope, l);
                    let (b, vb) = eval_spec(n, vars, scope, r);
                    let all = va + vb + misuse_at(i, op, a, b);
                    assert forall|k: int| 0 <= k < all.len() implies is_finding(n, #[trigger] all[k]) by {
                        if k < va.len() {
                            assert(all[k] == va[k]);
                        } else if k < va.len() + vb.len() {
                            assert(all[k] == vb[k - va.len()]);
                        } else {
                            assert(all[k] == misuse_at(i, op, a, b)[k - va.len() - vb.len()]);
                        }
                    }
                },
                _ => {},
            }
        }
    } else if 0 <= i < n.len() && n[i].kind == NodeKind::ParenthesizedExpression {
        let c = if inside(n, i, i + 1) { n[i + 1].end as int } else { i };
        if inside(n, i, i + 1) && inside(n, i, c) {
            lemma_eval_sound(n, vars, scope, c);
        }
    }
}

proof fn lemma_append_sound(n: Seq<Node>, a: Seq<Violation>, b: Seq<Violation>)
    requires
        all_findings(n, a),
        all_findings(n, b),
    ensures
        all_findings(n, a + b),
{
    assert forall|k: int| 0 <= k < (a + b).len() implies is_finding(n, #[trigger] (a + b)[k]) by {
        if k < a.len() {
            assert((a + b)[k] == a[k]);
        } else {
            assert((a + b)[k] == b[k - a.len()]);
        }
    }
}

/// The kind of the value written by a declaration or an assignment: that
/// of a binary expression, or of literal syntax, and `Undefined` otherwise.
pub open spec fn value_spec(n: Seq<Node>, vars: EnvModel, scope: usize, v: int) -> (
    JSTyp,
    Seq<Violation>,
) {
    if 0 <= v < n.len() && n[v].kind == NodeKind::BinaryExpression {
        eval_spec(n, vars, scope, v)
    } else {
        match literal_kind(n, v) {
            Some(k) => (k, Seq::empty()),
            None => (JSTyp::Undefined, Seq::empty()),
        }
    }
}

/// The diagnostics met while evaluating the value at node `v`.
pub open spec fn value_diags(n: Seq<Node>, m: EnvModel, scope: usize, v: int) -> Seq<Diagnostic> {
    if 0 <= v < n.len() && n[v].kind == NodeKind::BinaryExpression {
        eval_diags(n, m, scope, v)
    } else {
        Seq::empty()
    }
}

/// Why the analysis of a function stopped.
#[derive(Debug, Clone, Copy, PartialEq, Eq, Structural)]
pub enum InferError {
    /// The statement at the node has no readable annotation.
    Annotation(AnnotError, usize),
    /// The node is not a function declaration.
    NotAFunction(usize),
    /// No function of the requested name is declared.
    FunctionNotFound,
}

/// The parent id in the annotation of node `i`.
pub open spec fn annot_parent_id_spec(n: Seq<Node>, i: int) -> Result<usize, AnnotError> {
    match crate::syntax::annot_index(n, i) {
        None => Err(AnnotError::AnnotationMissing),
        Some(j) => crate::annot::parent_id_spec(n[j].text@),
    }
}

/// Whether the annotation of node `i` carries the non-branch marker.
pub open spec fn annot_non_branch_spec(n: Seq<Node>, i: int) -> bool {
    match crate::syntax::annot_index(n, i) {
        None => false,
        Some(j) => crate::annot::non_branch_spec(n[j].text@),
    }
}

fn annot_parent_id(tree: &SyntaxTree, i: usize) -> (r: Result<usize, InferError>)
    requires
        tree.wf(),
        i < tree.nodes@.len(),
    ensures
        match annot_parent_id_spec(tree.nodes@, i as int) {
            Ok(p) => r == Ok::<usize, InferError>(p),
            Err(e) => r == Err::<usize, InferError>(InferError::Annotation(e, i)),
        },
{
    match get_annot(tree, i) {
        None => Err(InferError::Annotation(AnnotError::AnnotationMissing, i)),
        Some(j) => match get_parent_id(tree.nodes[j].text.as_str()) {
            Ok(p) => Ok(p),
            Err(e) => Err(InferError::Annotation(e, i)),
        },
    }
}

fn annot_non_branch(tree: &SyntaxTree, i: usize) -> (r: bool)
    requires
        tree.wf(),
        i < tree.nodes@.len(),
    ensures
        r == annot_non_branch_spec(tree.nodes@, i as int),
{
    match get_annot(tree, i) {
        None => false,
        Some(j) => is_non_branch(tree.nodes[j].text.as_str()),
    }
}

/// Evaluates the value written by a declaration or an assignment.
fn run_value(
    tree: &SyntaxTree,
    vars: &VarMap,
    scope: usize,
    v: usize,
    out: &mut Vec<Violation>,
    diags: &mut Vec<Diagnostic>,
) -> (r: JSTyp)
    requires
        tree.wf(),
        v < tree.nodes@.len(),
    ensures
        r == value_spec(tree.nodes@, env_of(*vars), scope, v as int).0,
        final(out)@ == old(out)@ + value_spec(tree.nodes@, env_of(*vars), scope, v as int).1,
        final(diags)@ == old(diags)@ + value_diags(tree.nodes@, env_of(*vars), scope, v as int),
{
    if tree.nodes[v].kind == NodeKind::BinaryExpression {
        run_binary_expr(tree, vars, scope, v, out, diags)
    } else {
        assert(out@ == old(out)@ + Seq::<Violation>::empty());
        assert(diags@ == old(diags)@ + Seq::<Diagnostic>::empty());
        match literal_typ(tree, v) {
            Some(k) => k,
            None => JSTyp::Undefined,
        }
    }
}

/// The parts of an assignment or a declarator at node `a`: the target
/// (first child) and the value (the child after the `=` token).
pub open spec fn target_and_value(n: Seq<Node>, a: int) -> Option<(int, int)> {
    let t = a + 1;
    let e = if inside(n, a, t) { n[t].end as int } else { a };
    let v = if inside(n, a, e) { n[e].end as int } else { a };
    if inside(n, a, t) && inside(n, a, e) && inside(n, a, v) && n[e].kind == NodeKind::Assign {
        Some((t, v))
    } else {
        None
    }
}

fn find_target_and_value(tree: &SyntaxTree, a: usize) -> (r: Option<(usize, usize)>)
    requires
        tree.wf(),
        a < tree.nodes@.len(),
    ensures
        match target_and_value(tree.nodes@, a as int) {
            Some((t, v)) => r == Some((t as usize, v as usize)),
            None => r is None,
        },
        r matches Some((t, v)) ==> t < tree.nodes@.len() && v < tree.nodes@.len(),
{
    proof {
        lemma_wf_node(tree.nodes@, a as int);
    }
    let t = a + 1;
    if !tree.is_inside(a, t) {
        return None;
    }
    let e = tree.nodes[t].end;
    if !tree.is_inside(a, e) {
        return None;
    }
    let v = tree.nodes[e].end;
    if !tree.is_inside(a, v) {
        return None;
    }
    if tree.nodes[e].kind == NodeKind::Assign {
        Some((t, v))
    } else {
        None
    }
}

/// The kinds of `name` after a write of `kind` by introducer `pid`: a
/// replacement under the non-branch marker, a union insert otherwise.
pub open spec fn written_kinds(
    old_kinds: Seq<crate::env::Introduced>,
    non_branch: bool,
    pid: usize,
    kind: JSTyp,
) -> Seq<crate::env::Introduced> {
    if non_branch {
        seq![crate::env::Introduced { introducer: pid, kind }]
    } else {
        crate::env::insert_spec(old_kinds, pid, kind)
    }
}

/// What a run of statements ends with: success or the error met, the
/// environment, and the misuses and the diagnostics found, in order.
pub type Outcome = (Result<(), InferError>, EnvModel, Seq<Violation>, Seq<Diagnostic>);

/// The effect of the assignment at node `a`: its value is evaluated, then
/// its kind is written to the target variable, replacing the variable's
/// kinds where the statement is outside any branch and joining them
/// otherwise. A target that is not an identifier is not written.
pub open spec fn assign_spec(n: Seq<Node>, m: EnvModel, scope: usize, a: int) -> Outcome {
    match target_and_value(n, a) {
        None => (Ok(()), m, Seq::empty(), Seq::empty()),
        Some((t, v)) => {
            let (k, found) = value_spec(n, m, scope, v);
            let ds = value_diags(n, m, scope, v);
            let name = n[t].text@;
            match annot_parent_id_spec(n, a) {
                Err(e) => (Err(InferError::Annotation(e, a as usize)), m, found, ds),
                Ok(pid) => (
                    Ok(()),
                    if n[t].kind == NodeKind::Identifier {
                        m.insert(
                            (scope, name),
                            written_kinds(
                                kinds_in(m, scope, name),
                                annot_non_branch_spec(n, a),
                                pid,
                                k,
                            ),
                        )
                    } else {
                        m
                    },
                    found,
                    ds,
                ),
            }
        },
    }
}

/// Runs the assignment at node `a`.
pub fn run_assignment_stmt(
    tree: &SyntaxTree,
    vars: &mut VarMap,
    scope: usize,
    a: usize,
    out: &mut Vec<Violation>,
    diags: &mut Vec<Diagnostic>,
) -> (r: Result<(), InferError>)
    requires
        tree.wf(),
        a < tree.nodes@.len(),
        old(vars).wf(),
        all_findings(tree.nodes@, old(out)@),
    ensures
        final(vars).wf(),
        all_findings(tree.nodes@, final(out)@),
        r == assign_spec(tree.nodes@, env_of(*old(vars)), scope, a as int).0,
        env_of(*final(vars)) == assign_spec(tree.nodes@, env_of(*old(vars)), scope, a as int).1,
        final(out)@ == old(out)@ + assign_spec(tree.nodes@, env_of(*old(vars)), scope, a as int).2,
        final(diags)@ == old(diags)@ + assign_spec(tree.nodes@, env_of(*old(vars)), scope, a as int).3,
{
    match find_target_and_value(tree, a) {
        None => {
            assert(out@ == old(out)@ + Seq::<Violation>::empty());
            assert(diags@ == old(diags)@ + Seq::<Diagnostic>::empty());
            Ok(())
        },
        Some((t, v)) => {
            let k = run_value(tree, vars, scope, v, out, diags);
            proof {
                lemma_eval_sound(tree.nodes@, env_of(*old(vars)), scope, v as int);
                lemma_append_sound(
                    tree.nodes@,
                    old(out)@,
                    value_spec(tree.nodes@, env_of(*old(vars)), scope, v as int).1,
                );
            }
            let pid = match annot_parent_id(tree, a) {
                Ok(p) => p,
                Err(e) => return Err(e),
            };
            if tree.nodes[t].kind == NodeKind::Identifier {
                let name = tree.nodes[t].text.as_str();
                if annot_non_branch(tree, a) {
                    overwrite_var(vars, scope, name, k, pid);
                } else {
                    insert_var(vars, scope, name, k, pid);
                }
                proof {
                    lemma_env_update(*old(vars), *vars, scope, name@);
                }
            }
            Ok(())
        },
    }
}

/// The effect of the declarator at node `d` of a declaration introduced by
/// `pid`: its variable gets, by a union insert, the kind of its value, or
/// `Undefined` without one.
pub open spec fn declarator_spec(n: Seq<Node>, m: EnvModel, scope: usize, d: int, pid: usize) -> (
    EnvModel,
    Seq<Violation>,
    Seq<Diagnostic>,
) {
    match target_and_value(n, d) {
        Some((t, v)) => {
            let (k, found) = value_spec(n, m, scope, v);
            let ds = value_diags(n, m, scope, v);
            let name = n[t].text@;
            (
                if n[t].kind == NodeKind::Identifier {
                    m.insert((scope, name), crate::env::insert_spec(kinds_in(m, scope, name), pid, k))
                } else {
                    m
                },
                found,
                ds,
            )
        },
        None => {
            let name = n[d + 1].text@;
            (
                if inside(n, d, d + 1) && n[d + 1].kind == NodeKind::Identifier {
                    m.insert(
                        (scope, name),
                        crate::env::insert_spec(kinds_in(m, scope, name), pid, JSTyp::Undefined),
                    )
                } else {
                    m
                },
                Seq::empty(),
                Seq::empty(),
            )
        },
    }
}

/// Runs the declarator at node `d` of a declaration introduced by `pid`.
pub fn run_declarator(
    tree: &SyntaxTree,
    vars: &mut VarMap,
    scope: usize,
    d: usize,
    pid: usize,
    out: &mut Vec<Violation>,
    diags: &mut Vec<Diagnostic>,
)
    requires
        tree.wf(),
        d < tree.nodes@.len(),
        old(vars).wf(),
        all_findings(tree.nodes@, old(out)@),
    ensures
        final(vars).wf(),
        all_findings(tree.nodes@, final(out)@),
        env_of(*final(vars)) == declarator_spec(tree.nodes@, env_of(*old(vars)), scope, d as int, pid).0,
        final(out)@ == old(out)@ + declarator_spec(
            tree.nodes@,
            env_of(*old(vars)),
            scope,
            d as int,
            pid,
        ).1,
        final(diags)@ == old(diags)@ + declarator_spec(
            tree.nodes@,
            env_of(*old(vars)),
            scope,
            d as int,
            pid,
        ).2,
{
    proof {
        lemma_wf_node(tree.nodes@, d as int);
    }
    match find_target_and_value(tree, d) {
        Some((t, v)) => {
            let k = run_value(tree, vars, scope, v, out, diags);
            proof {
                lemma_eval_sound(tree.nodes@, env_of(*old(vars)), scope, v as int);
                lemma_append_sound(
                    tree.nodes@,
                    old(out)@,
                    value_spec(tree.nodes@, env_of(*old(vars)), scope, v as int).1,
                );
            }
            if tree.nodes[t].kind == NodeKind::Identifier {
                insert_var(vars, scope, tree.nodes[t].text.as_str(), k, pid);
                proof {
                    lemma_env_update(*old(vars), *vars, scope, tree.nodes@[t as int].text@);
                }
            }
        },
        None => {
            assert(out@ == old(out)@ + Seq::<Violation>::empty());
            assert(diags@ == old(diags)@ + Seq::<Diagnostic>::empty());
            if tree.is_inside(d, d + 1) && tree.nodes[d + 1].kind == NodeKind::Identifier {
                insert_var(vars, scope, tree.nodes[d + 1].text.as_str(), JSTyp::Undefined, pid);
                proof {
                    lemma_env_update(*old(vars), *vars, scope, tree.nodes@[d + 1].text@);
                }
            }
        },
    }
}

/// The effect of the declarators among the children of node `i` from
/// child `c` on, in order.
pub open spec fn decl_fold(n: Seq<Node>, m: EnvModel, scope: usize, i: int, c: int, pid: usize) -> (
    EnvModel,
    Seq<Violation>,
    Seq<Diagnostic>,
)
    decreases n[i].end - c,
{
    if inside(n, i, c) {
        let (m1, v1, d1) = if n[c].kind == NodeKind::VariableDeclarator {
            declarator_spec(n, m, scope, c, pid)
        } else {
            (m, Seq::empty(), Seq::empty())
        };
        let (m2, v2, d2) = decl_fold(n, m1, scope, i, n[c].end as int, pid);
        (m2, v1 + v2, d1 + d2)
    } else {
        (m, Seq::empty(), Seq::empty())
    }
}

/// The effect of the declaration at node `i`: each declarator in order,
/// introduced by the declaration's parent id.
pub open spec fn lexical_spec(n: Seq<Node>, m: EnvModel, scope: usize, i: int) -> Outcome {
    match annot_parent_id_spec(n, i) {
        Err(e) => (Err(InferError::Annotation(e, i as usize)), m, Seq::empty(), Seq::empty()),
        Ok(pid) => {
            let (m2, v, d) = decl_fold(n, m, scope, i, i + 1, pid);
            (Ok(()), m2, v, d)
        },
    }
}

/// The next child of node `i` after its child `c`, with what the shape of
/// the tree gives of it.
fn next_child(tree: &SyntaxTree, i: usize, c: usize) -> (r: usize)
    requires
        tree.wf(),
        inside(tree.nodes@, i as int, c as int),
    ensures
        r == tree.nodes@[c as int].end,
        c < r <= tree.nodes@[i as int].end,
{
    tree.nodes[c].end
}

/// Runs the declaration at node `i`.
pub fn run_lexical_decl(
    tree: &SyntaxTree,
    vars: &mut VarMap,
    scope: usize,
    i: usize,
    out: &mut Vec<Violation>,
    diags: &mut Vec<Diagnostic>,
) -> (r: Result<(), InferError>)
    requires
        tree.wf(),
        i < tree.nodes@.len(),
        old(vars).wf(),
        all_findings(tree.nodes@, old(out)@),
    ensures
        final(vars).wf(),
        all_findings(tree.nodes@, final(out)@),
        r == lexical_spec(tree.nodes@, env_of(*old(vars)), scope, i as int).0,
        env_of(*final(vars)) == lexical_spec(tree.nodes@, env_of(*old(vars)), scope, i as int).1,
        final(out)@ == old(out)@ + lexical_spec(tree.nodes@, env_of(*old(vars)), scope, i as int).2,
        final(diags)@ == old(diags)@ + lexical_spec(tree.nodes@, env_of(*old(vars)), scope, i as int).3,
{
    let ghost n = tree.nodes@;
    let pid = match annot_parent_id(tree, i) {
        Ok(p) => p,
        Err(e) => {
            assert(out@ == old(out)@ + Seq::<Violation>::empty());
            assert(diags@ == old(diags)@ + Seq::<Diagnostic>::empty());
            return Err(e);
        },
    };
    proof {
        lemma_wf_node(n, i as int);
    }
    let end = tree.nodes[i].end;
    let mut c = i + 1;
    let ghost mut acc: Seq<Violation> = Seq::empty();
    let ghost mut dacc: Seq<Diagnostic> = Seq::empty();
    while c < end
        invariant
            tree.wf(),
            n == tree.nodes@,
            i < n.len(),
            end == n[i as int].end,
            end <= n.len(),
            i < c <= end,
            vars.wf(),
            all_findings(n, out@),
            out@ == old(out)@ + acc,
            diags@ == old(diags)@ + dacc,
            annot_parent_id_spec(n, i as int) == Ok::<usize, AnnotError>(pid),
            ({
                let total = decl_fold(n, env_of(*old(vars)), scope, i as int, i + 1, pid);
                let rest = decl_fold(n, env_of(*vars), scope, i as int, c as int, pid);
                total.0 == rest.0 && total.1 == acc + rest.1 && total.2 == dacc + rest.2
            }),
        decreases end - c,
    {
        proof {
            lemma_wf_node(n, c as int);
            lemma_wf_nest(n, i as int, c as int);
        }
        let ghost m0 = env_of(*vars);
        let ghost o0 = out@;
        let ghost g0 = diags@;
        if tree.nodes[c].kind == NodeKind::VariableDeclarator {
            run_declarator(tree, vars, scope, c, pid, out, diags);
        }
        proof {
            let (m1, v1, d1) = if n[c as int].kind == NodeKind::VariableDeclarator {
                declarator_spec(n, m0, scope, c as int, pid)
            } else {
                (m0, Seq::empty(), Seq::empty())
            };
            assert(env_of(*vars) == m1);
            assert(out@ == o0 + v1);
            assert(diags@ == g0 + d1);
            acc = acc + v1;
            dacc = dacc + d1;
        }
        c = next_child(tree, i, c);
    }
    Ok(())
}

/// The effect of the expression statement at node `i`, from node `j` of
/// its subtree on in pre-order: each outermost binary expression is
/// evaluated for its misuses, and each outermost assignment is run.
pub open spec fn expr_walk(n: Seq<Node>, m: EnvModel, scope: usize, i: int, j: int) -> Outcome
    decreases n[i].end - j,
{
    if inside(n, i, j) {
        if n[j].kind == NodeKind::BinaryExpression {
            let f = eval_spec(n, m, scope, j).1;
            let g = eval_diags(n, m, scope, j);
            let rest = expr_walk(n, m, scope, i, n[j].end as int);
            (rest.0, rest.1, f + rest.2, g + rest.3)
        } else if n[j].kind == NodeKind::AssignmentExpression {
            let a = assign_spec(n, m, scope, j);
            if a.0 is Err {
                a
            } else {
                let rest = expr_walk(n, a.1, scope, i, n[j].end as int);
                (rest.0, rest.1, a.2 + rest.2, a.3 + rest.3)
            }
        } else {
            expr_walk(n, m, scope, i, j + 1)
        }
    } else {
        (Ok(()), m, Seq::empty(), Seq::empty())
    }
}

/// Runs the expression statement at node `i`.
pub fn run_expr_stmt(
    tree: &SyntaxTree,
    vars: &mut VarMap,
    scope: usize,
    i: usize,
    out: &mut Vec<Violation>,
    diags: &mut Vec<Diagnostic>,
) -> (r: Result<(), InferError>)
    requires
        tree.wf(),
        i < tree.nodes@.len(),
        old(vars).wf(),
        all_findings(tree.nodes@, old(out)@),
    ensures
        final(vars).wf(),
        all_findings(tree.nodes@, final(out)@),
        r == expr_walk(tree.nodes@, env_of(*old(vars)), scope, i as int, i + 1).0,
        env_of(*final(vars)) == expr_walk(tree.nodes@, env_of(*old(vars)), scope, i as int, i + 1).1,
        final(out)@ == old(out)@ + expr_walk(tree.nodes@, env_of(*old(vars)), scope, i as int, i + 1).2,
        final(diags)@ == old(diags)@ + expr_walk(tree.nodes@, env_of(*old(vars)), scope, i as int, i + 1).3,
{
    let ghost n = tree.nodes@;
    proof {
        lemma_wf_node(n, i as int);
    }
    let end = tree.nodes[i].end;
    let mut j = i + 1;
    let ghost mut acc: Seq<Violation> = Seq::empty();
    let ghost mut dacc: Seq<Diagnostic> = Seq::empty();
    while j < end
        invariant
            tree.wf(),
            n == tree.nodes@,
            i < n.len(),
            end == n[i as int].end,
            end <= n.len(),
            i < j <= end,
            vars.wf(),
            all_findings(n, out@),
            out@ == old(out)@ + acc,
            diags@ == old(diags)@ + dacc,
            ({
                let total = expr_walk(n, env_of(*old(vars)), scope, i as int, i + 1);
                let rest = expr_walk(n, env_of(*vars), scope, i as int, j as int);
                total.0 == rest.0 && total.1 == rest.1 && total.2 == acc + rest.2 && total.3 == dacc + rest.3
            }),
        decreases end - j,
    {
        proof {
            lemma_wf_node(n, j as int);
            lemma_wf_nest(n, i as int, j as int);
        }
        let ghost m0 = env_of(*vars);
        let ghost o0 = out@;
        let k = tree.nodes[j].kind;
        if k == NodeKind::BinaryExpression {
            run_binary_expr(tree, vars, scope, j, out, diags);
            proof {
                lemma_eval_sound(n, m0, scope, j as int);
                lemma_append_sound(n, o0, eval_spec(n, m0, scope, j as int).1);
                acc = acc + eval_spec(n, m0, scope, j as int).1;
                dacc = dacc + eval_diags(n, m0, scope, j as int);
            }
            j = tree.nodes[j].end;
        } else if k == NodeKind::AssignmentExpression {
            let r = run_assignment_stmt(tree, vars, scope, j, out, diags);
            proof {
                acc = acc + assign_spec(n, m0, scope, j as int).2;
                dacc = dacc + assign_spec(n, m0, scope, j as int).3;
            }
            match r {
                Ok(()) => {},
                Err(e) => return Err(e),
            }
            j = tree.nodes[j].end;
        } else {
            j = j + 1;
        }
    }
    Ok(())
}

/// The effect of the statements among the children of block `i` from child
/// `c` on, in order: declarations, expression statements and nested blocks
/// run; anything else has no effect. The first error ends the run.
pub open spec fn block_spec(n: Seq<Node>, m: EnvModel, scope: usize, i: int, c: int) -> Outcome
    decreases n[i].end - c,
{
    if inside(n, i, c) {
        let first: Outcome = if n[c].kind == NodeKind::LexicalDeclaration {
            lexical_spec(n, m, scope, c)
        } else if n[c].kind == NodeKind::ExpressionStatement {
            expr_walk(n, m, scope, c, c + 1)
        } else if n[c].kind == NodeKind::StatementBlock {
            block_spec(n, m, scope, c, c + 1)
        } else {
            (Ok(()), m, Seq::empty(), Seq::empty())
        };
        if first.0 is Err {
            first
        } else {
            let rest = block_spec(n, first.1, scope, i, n[c].end as int);
            (rest.0, rest.1, first.2 + rest.2, first.3 + rest.3)
        }
    } else {
        (Ok(()), m, Seq::empty(), Seq::empty())
    }
}

/// Runs the statement block at node `i`; nested blocks run in place, with
/// the same scope.
#[verifier::rlimit(40)]
pub fn run_stmt_blk(
    tree: &SyntaxTree,
    vars: &mut VarMap,
    scope: usize,
    i: usize,
    out: &mut Vec<Violation>,
    diags: &mut Vec<Diagnostic>,
) -> (r: Result<(), InferError>)
    requires
        tree.wf(),
        i < tree.nodes@.len(),
        old(vars).wf(),
        all_findings(tree.nodes@, old(out)@),
    ensures
        final(vars).wf(),
        all_findings(tree.nodes@, final(out)@),
        r == block_spec(tree.nodes@, env_of(*old(vars)), scope, i as int, i + 1).0,
        env_of(*final(vars)) == block_spec(tree.nodes@, env_of(*old(vars)), scope, i as int, i + 1).1,
        final(out)@ == old(out)@ + block_spec(tree.nodes@, env_of(*old(vars)), scope, i as int, i + 1).2,
        final(diags)@ == old(diags)@ + block_spec(tree.nodes@, env_of(*old(vars)), scope, i as int, i + 1).3,
    decreases tree.nodes@[i as int].end - i,
{
    let ghost n = tree.nodes@;
    proof {
        lemma_wf_node(n, i as int);
    }
    let end = tree.nodes[i].end;
    let mut c = i + 1;
    let ghost mut acc: Seq<Violation> = Seq::empty();
    let ghost mut dacc: Seq<Diagnostic> = Seq::empty();
    while c < end
        invariant
            tree.wf(),
            n == tree.nodes@,
            i < n.len(),
            end == n[i as int].end,
            end <= n.len(),
            i < c <= end,
            vars.wf(),
            all_findings(n, out@),
            out@ == old(out)@ + acc,
            diags@ == old(diags)@ + dacc,
            ({
                let total = block_spec(n, env_of(*old(vars)), scope, i as int, i + 1);
                let rest = block_spec(n, env_of(*vars), scope, i as int, c as int);
                total.0 == rest.0 && total.1 == rest.1 && total.2 == acc + rest.2 && total.3 == dacc + rest.3
            }),
        decreases end - c,
    {
        proof {
            lemma_wf_node(n, c as int);
            lemma_wf_nest(n, i as int, c as int);
        }
        let ghost m0 = env_of(*vars);
        let k = tree.nodes[c].kind;
        let r = if k == NodeKind::LexicalDeclaration {
            run_lexical_decl(tree, vars, scope, c, out, diags)
        } else if k == NodeKind::ExpressionStatement {
            run_expr_stmt(tree, vars, scope, c, out, diags)
        } else if k == NodeKind::StatementBlock {
            run_stmt_blk(tree, vars, scope, c, out, diags)
        } else {
            Ok(())
        };
        proof {
            let first: Outcome = if n[c as int].kind == NodeKind::LexicalDeclaration {
                lexical_spec(n, m0, scope, c as int)
            } else if n[c as int].kind == NodeKind::ExpressionStatement {
                expr_walk(n, m0, scope, c as int, c + 1)
            } else if n[c as int].kind == NodeKind::StatementBlock {
                block_spec(n, m0, scope, c as int, c + 1)
            } else {
                (Ok(()), m0, Seq::empty(), Seq::empty())
            };
            assert(r == first.0 && env_of(*vars) == first.1);
            acc = acc + first.2;
            dacc = dacc + first.3;
        }
        match r {
            Ok(()) => {},
            Err(e) => return Err(e),
        }
        c = next_child(tree, i, c);
    }
    Ok(())
}

/// No declaration or expression statement lies inside node `i`.
pub open spec fn no_statements(n: Seq<Node>, i: int) -> bool {
    forall|c: int|
        inside(n, i, c) ==> (#[trigger] n[c]).kind != NodeKind::LexicalDeclaration && n[c].kind
            != NodeKind::ExpressionStatement
}

/// A block without statements changes nothing and reports nothing.
pub proof fn lemma_empty_block(n: Seq<Node>, m: EnvModel, scope: usize, i: int, c: int)
    requires
        no_statements(n, i),
    ensures
        block_spec(n, m, scope, i, c) == (
            Ok::<(), InferError>(()),
            m,
            Seq::<Violation>::empty(),
            Seq::<Diagnostic>::empty(),
        ),
    decreases n[i].end - c,
{
    if inside(n, i, c) {
        if n[c].kind == NodeKind::StatementBlock {
            assert forall|d: int| inside(n, c, d) implies (#[trigger] n[d]).kind
                != NodeKind::LexicalDeclaration && n[d].kind != NodeKind::ExpressionStatement by {
                assert(inside(n, i, d));
            }
            lemma_empty_block(n, m, scope, c, c + 1);
        }
        lemma_empty_block(n, m, scope, i, n[c].end as int);
    }
}

/// The identifier children of node `p` from child `c` on, in order.
pub open spec fn ident_children(n: Seq<Node>, p: int, c: int) -> Seq<usize>
    decreases n[p].end - c,
{
    if inside(n, p, c) {
        (if n[c].kind == NodeKind::Identifier {
            seq![c as usize]
        } else {
            Seq::empty()
        }) + ident_children(n, p, n[c].end as int)
    } else {
        Seq::empty()
    }
}

proof fn lemma_ident_children_inside(n: Seq<Node>, p: int, c: int)
    ensures
        forall|q: int|
            0 <= q < ident_children(n, p, c).len() ==> inside(
                n,
                p,
                #[trigger] ident_children(n, p, c)[q] as int,
            ),
    decreases n[p].end - c,
{
    if inside(n, p, c) {
        lemma_ident_children_inside(n, p, n[c].end as int);
        let head = if n[c].kind == NodeKind::Identifier {
            seq![c as usize]
        } else {
            Seq::<usize>::empty()
        };
        let rest = ident_children(n, p, n[c].end as int);
        assert forall|q: int| 0 <= q < (head + rest).len() implies inside(
            n,
            p,
            #[trigger] (head + rest)[q] as int,
        ) by {
            if q >= head.len() {
                assert((head + rest)[q] == rest[q - head.len()]);
            }
        }
    }
}

/// The identifier children of the parameter list at node `i`, in order.
pub fn get_func_params(tree: &SyntaxTree, i: usize) -> (r: Vec<usize>)
    requires
        tree.wf(),
        i < tree.nodes@.len(),
    ensures
        r@ == ident_children(tree.nodes@, i as int, i + 1),
{
    let ghost n = tree.nodes@;
    proof {
        lemma_wf_node(n, i as int);
    }
    let end = tree.nodes[i].end;
    let mut c = i + 1;
    let mut params: Vec<usize> = Vec::new();
    while c < end
        invariant
            tree.wf(),
            n == tree.nodes@,
            i < n.len(),
            end == n[i as int].end,
            end <= n.len(),
            i < c <= end,
            params@ + ident_children(n, i as int, c as int) == ident_children(n, i as int, i + 1),
        decreases end - c,
    {
        proof {
            lemma_wf_node(n, c as int);
            lemma_wf_nest(n, i as int, c as int);
        }
        let ghost before = params@;
        if tree.nodes[c].kind == NodeKind::Identifier {
            params.push(c);
        }
        proof {
            let head = if n[c as int].kind == NodeKind::Identifier {
                seq![c]
            } else {
                Seq::<usize>::empty()
            };
            assert(params@ == before + head);
            assert(before + (head + ident_children(n, i as int, n[c as int].end as int)) == params@
                + ident_children(n, i as int, n[c as int].end as int));
        }
        c = next_child(tree, i, c);
    }
    assert(params@ + ident_children(n, i as int, c as int) == params@);
    params
}

/// The kind at position `k` of `typs`; `Undefined` past its end.
pub open spec fn typ_at(typs: Seq<JSTyp>, k: int) -> JSTyp {
    if 0 <= k < typs.len() {
        typs[k]
    } else {
        JSTyp::Undefined
    }
}

/// The effect of the parameters `ps` from position `k` on: each enters
/// scope 0, by a union insert, with the kind at its position and the parent
/// id of its annotation.
pub open spec fn params_spec(n: Seq<Node>, m: EnvModel, ps: Seq<usize>, typs: Seq<JSTyp>, k: int) -> (
    Result<(), InferError>,
    EnvModel,
)
    decreases ps.len() - k,
{
    if 0 <= k < ps.len() {
        let p = ps[k] as int;
        match annot_parent_id_spec(n, p) {
            Err(e) => (Err(InferError::Annotation(e, ps[k])), m),
            Ok(pid) => {
                let name = n[p].text@;
                params_spec(
                    n,
                    m.insert(
                        (0usize, name),
                        crate::env::insert_spec(kinds_in(m, 0, name), pid, typ_at(typs, k)),
                    ),
                    ps,
                    typs,
                    k + 1,
                )
            },
        }
    } else {
        (Ok(()), m)
    }
}

/// The effect of the children of function declaration `f` from child `c`
/// on: the parameter list enters the parameters, the body block runs in
/// scope 0. The first error ends the run.
pub open spec fn func_spec(n: Seq<Node>, m: EnvModel, typs: Seq<JSTyp>, f: int, c: int) -> Outcome
    decreases n[f].end - c,
{
    if inside(n, f, c) {
        let first: Outcome = if n[c].kind == NodeKind::FormalParameters {
            let (r, m1) = params_spec(n, m, ident_children(n, c, c + 1), typs, 0);
            (r, m1, Seq::empty(), Seq::empty())
        } else if n[c].kind == NodeKind::StatementBlock {
            block_spec(n, m, 0, c, c + 1)
        } else {
            (Ok(()), m, Seq::empty(), Seq::empty())
        };
        if first.0 is Err {
            first
        } else {
            let rest = func_spec(n, first.1, typs, f, n[c].end as int);
            (rest.0, rest.1, first.2 + rest.2, first.3 + rest.3)
        }
    } else {
        (Ok(()), m, Seq::empty(), Seq::empty())
    }
}

/// Runs the function declared at node `f` of a debloated tree: each
/// parameter enters scope 0 with the kind at its position in
/// `param_typs` (`Undefined` past its end), introduced by the parent id of
/// its annotation; then the body runs. Misuses are appended to `out`.
pub fn run_func(
    vars: &mut VarMap,
    param_typs: &Vec<JSTyp>,
    tree: &SyntaxTree,
    f: usize,
    out: &mut Vec<Violation>,
    diags: &mut Vec<Diagnostic>,
) -> (r: Result<(), InferError>)
    requires
        tree.wf(),
        f < tree.nodes@.len(),
        old(vars).wf(),
        all_findings(tree.nodes@, old(out)@),
    ensures
        final(vars).wf(),
        all_findings(tree.nodes@, final(out)@),
        tree.nodes@[f as int].kind != NodeKind::FunctionDeclaration ==> r == Err::<(), InferError>(
            InferError::NotAFunction(f),
        ) && *final(vars) == *old(vars) && final(out)@ == old(out)@ && final(diags)@ == old(
            diags,
        )@,
        tree.nodes@[f as int].kind == NodeKind::FunctionDeclaration ==> {
            let o = func_spec(tree.nodes@, env_of(*old(vars)), param_typs@, f as int, f + 1);
            &&& r == o.0
            &&& env_of(*final(vars)) == o.1
            &&& final(out)@ == old(out)@ + o.2
            &&& final(diags)@ == old(diags)@ + o.3
        },
{
    if tree.nodes[f].kind != NodeKind::FunctionDeclaration {
        return Err(InferError::NotAFunction(f));
    }
    let ghost n = tree.nodes@;
    let ghost typs = param_typs@;
    proof {
        lemma_wf_node(n, f as int);
    }
    let end = tree.nodes[f].end;
    let mut c = f + 1;
    let ghost mut acc: Seq<Violation> = Seq::empty();
    let ghost mut dacc: Seq<Diagnostic> = Seq::empty();
    while c < end
        invariant
            tree.wf(),
            n == tree.nodes@,
            typs == param_typs@,
            f < n.len(),
            n[f as int].kind == NodeKind::FunctionDeclaration,
            end == n[f as int].end,
            end <= n.len(),
            f < c <= end,
            vars.wf(),
            all_findings(n, out@),
            out@ == old(out)@ + acc,
            diags@ == old(diags)@ + dacc,
            ({
                let total = func_spec(n, env_of(*old(vars)), typs, f as int, f + 1);
                let rest = func_spec(n, env_of(*vars), typs, f as int, c as int);
                total.0 == rest.0 && total.1 == rest.1 && total.2 == acc + rest.2 && total.3 == dacc + rest.3
            }),
        decreases end - c,
    {
        proof {
            lemma_wf_node(n, c as int);
            lemma_wf_nest(n, f as int, c as int);
        }
        let ghost m0 = env_of(*vars);
        let k = tree.nodes[c].kind;
        if k == NodeKind::FormalParameters {
            let params = get_func_params(tree, c);
            let ghost ps = params@;
            proof {
                lemma_ident_children_inside(n, c as int, c + 1);
            }
            let mut idx: usize = 0;
            while idx < params.len()
                invariant
                    tree.wf(),
                    n == tree.nodes@,
                    typs == param_typs@,
                    c < n.len(),
                    f < n.len(),
                    n[f as int].kind == NodeKind::FunctionDeclaration,
                    inside(n, f as int, c as int),
                    n[c as int].kind == NodeKind::FormalParameters,
                    ps == params@,
                    ps == ident_children(n, c as int, c + 1),
                    forall|q: int| 0 <= q < ps.len() ==> inside(n, c as int, #[trigger] ps[q] as int),
                    idx <= ps.len(),
                    vars.wf(),
                    out@ == old(out)@ + acc,
                    diags@ == old(diags)@ + dacc,
                    all_findings(n, out@),
                    params_spec(n, m0, ps, typs, 0) == params_spec(n, env_of(*vars), ps, typs, idx as int),
                    ({
                        let total = func_spec(n, env_of(*old(vars)), typs, f as int, f + 1);
                        let rest = func_spec(n, m0, typs, f as int, c as int);
                        total.0 == rest.0 && total.1 == rest.1 && total.2 == acc + rest.2 && total.3 == dacc + rest.3
                    }),
                decreases ps.len() - idx,
            {
                let p = params[idx];
                let pid = match annot_parent_id(tree, p) {
                    Ok(x) => x,
                    Err(e) => {
                        proof {
                            assert(func_spec(n, m0, typs, f as int, c as int) == (
                                Err::<(), InferError>(e),
                                env_of(*vars),
                                Seq::<Violation>::empty(),
                                Seq::<Diagnostic>::empty(),
                            ));
                            assert(acc + Seq::<Violation>::empty() =~= acc);
                            assert(dacc + Seq::<Diagnostic>::empty() =~= dacc);
                        }
                        return Err(e);
                    },
                };
                let typ = if idx < param_typs.len() {
                    param_typs[idx]
                } else {
                    JSTyp::Undefined
                };
                let ghost before = *vars;
                insert_var(vars, 0, tree.nodes[p].text.as_str(), typ, pid);
                proof {
                    lemma_env_update(before, *vars, 0, n[p as int].text@);
                }
                idx = idx + 1;
            }
            proof {
                assert(params_spec(n, m0, ps, typs, 0) == (Ok::<(), InferError>(()), env_of(*vars)));
                let rest = func_spec(n, env_of(*vars), typs, f as int, n[c as int].end as int);
                assert(Seq::<Violation>::empty() + rest.2 == rest.2);
                assert(Seq::<Diagnostic>::empty() + rest.3 == rest.3);
            }
        } else if k == NodeKind::StatementBlock {
            let r = run_stmt_blk(tree, vars, 0, c, out, diags);
            proof {
                acc = acc + block_spec(n, m0, 0, c as int, c + 1).2;
                dacc = dacc + block_spec(n, m0, 0, c as int, c + 1).3;
            }
            match r {
                Ok(()) => {},
                Err(e) => return Err(e),
            }
        }
        c = next_child(tree, f, c);
    }
    Ok(())
}

/// Node `f` declares a function named `name`: its name follows the
/// `function` keyword.
pub open spec fn declares(n: Seq<Node>, f: int, name: Seq<char>) -> bool {
    0 <= f < n.len() && n[f].kind == NodeKind::FunctionDeclaration && inside(n, f, f + 1) && inside(
        n,
        f,
        n[f + 1].end as int,
    ) && n[n[f + 1].end as int].kind == NodeKind::Identifier && n[n[f + 1].end as int].text@ == name
}

/// The first function declaration named `name`, in pre-order.
pub fn find_function(tree: &SyntaxTree, name: &str) -> (r: Option<usize>)
    requires
        tree.wf(),
    ensures
        r matches Some(f) ==> declares(tree.nodes@, f as int, name@) && forall|g: int|
            0 <= g < f ==> !declares(tree.nodes@, g, name@),
        r is None ==> forall|g: int| 0 <= g < tree.nodes@.len() ==> !declares(tree.nodes@, g, name@),
{
    let mut f: usize = 0;
    while f < tree.nodes.len()
        invariant
            tree.wf(),
            f <= tree.nodes@.len(),
            forall|g: int| 0 <= g < f ==> !declares(tree.nodes@, g, name@),
        decreases tree.nodes@.len() - f,
    {
        if tree.nodes[f].kind == NodeKind::FunctionDeclaration && f + 1 < tree.nodes.len() && tree.is_inside(f, f + 1) {
            let id = tree.nodes[f + 1].end;
            if tree.is_inside(f, id) && tree.nodes[id].kind == NodeKind::Identifier && str_eq(
                tree.nodes[id].text.as_str(),
                name,
            ) {
                return Some(f);
            }
        }
        f = f + 1;
    }
    None
}

/// What the analysis of a function found: the final environment, and the
/// misuses and the diagnostics in the order met.
pub struct Analysis {
    pub vars: VarMap,
    pub violations: Vec<Violation>,
    pub diagnostics: Vec<Diagnostic>,
}

/// The argument kinds that the analysis of `target` seeds its parameters
/// with: those of its first call site, or none.
pub open spec fn seed_kinds(n: Seq<Node>, target: Seq<char>) -> Seq<JSTyp> {
    let cs = crate::callgraph::callsites_from(n, 0, 1, target);
    if cs.len() > 0 {
        cs[0].1
    } else {
        Seq::empty()
    }
}

/// Analyses the function `target` of a debloated tree: the first function
/// of that name, run from an empty environment with the argument kinds of
/// its first call site in the same tree (none where it is never called).
pub fn analyze(tree: &SyntaxTree, target: &str) -> (r: Result<Analysis, InferError>)
    requires
        tree.wf(),
    ensures
        r matches Ok(a) ==> a.vars.wf() && all_findings(tree.nodes@, a.violations@),
        (forall|g: int| 0 <= g < tree.nodes@.len() ==> !declares(tree.nodes@, g, target@)) ==> r
            == Err::<Analysis, InferError>(InferError::FunctionNotFound),
        forall|f: int|
            declares(tree.nodes@, f, target@) && (forall|g: int|
                0 <= g < f ==> !declares(tree.nodes@, g, target@)) ==> {
                let o = func_spec(
                    tree.nodes@,
                    Map::empty(),
                    seed_kinds(tree.nodes@, target@),
                    f,
                    f + 1,
                );
                match r {
                    Ok(a) => o.0 is Ok && env_of(a.vars) == o.1 && a.violations@ == o.2
                        && a.diagnostics@ == o.3,
                    Err(e) => o.0 == Err::<(), InferError>(e),
                }
            },
{
    let f = match find_function(tree, target) {
        None => return Err(InferError::FunctionNotFound),
        Some(f) => f,
    };
    let callsites = crate::callgraph::gather_callsites(target, tree);
    let empty: Vec<JSTyp> = Vec::new();
    let param_typs = if callsites.len() > 0 {
        &callsites[0].1
    } else {
        &empty
    };
    assert(param_typs@ == seed_kinds(tree.nodes@, target@));
    let mut vars = VarMap::new();
    assert(env_of(vars) =~= Map::empty());
    let mut out: Vec<Violation> = Vec::new();
    let mut diags: Vec<Diagnostic> = Vec::new();
    proof {
        assert forall|g: int| declares(tree.nodes@, g, target@) && (forall|h: int|
            0 <= h < g ==> !declares(tree.nodes@, h, target@)) implies g == f by {
            if g < f {
            } else if g > f {
                assert(!declares(tree.nodes@, f as int, target@));
            }
        }
    }
    match run_func(&mut vars, param_typs, tree, f, &mut out, &mut diags) {
        Ok(()) => Ok(Analysis { vars, violations: out, diagnostics: diags }),
        Err(e) => Err(e),
    }
}

} // verus!
