//! The debloater: flattens a parsed file into annotated straight-line
//! statements, one per source row, with identifiers renamed by scope.
use vstd::prelude::*;
use crate::annot::{annotation, FIELD_END, LOC_FIELD, NON_BRANCH_ANNOT, PARENT_ID_FIELD};
use crate::scope::{balanced, brace_step, lemma_balanced_braces, run_braces, after_rename, counter_of, enter_spec, get_scoped_ident, leave_spec, rename_spec, texts, Counter, IdentRole, ScopeEnv};
use crate::syntax::{inside, in_ctrl_flow, is_branching, is_in_ctrl_flow, lemma_wf_nest, lemma_wf_node, parse, Node, NodeKind, SyntaxTree};
use crate::text::{count_occ, decimal, is_digit, lemma_count_concat, lemma_count_self, lemma_count_without_head, lemma_count_zero, lemma_decimal_digits, lemma_no_straddle, occurs_at, usize_to_decimal};

verus! {

/// `text` joined to `to_append` by one space, or `to_append` alone after
/// nothing.
pub open spec fn append_spec(text: Seq<char>, to_append: Seq<char>) -> Seq<char> {
    if text.len() == 0 {
        to_append
    } else {
        text + " "@ + to_append
    }
}

/// A statement's text with its terminating `;`: added unless the text ends
/// in one already or is a function header.
pub open spec fn terminated(text: Seq<char>, header: bool) -> Seq<char> {
    if header || (text.len() > 0 && text.last() == ';') {
        text
    } else {
        text + ";"@
    }
}

/// An emitted statement line: the statement and its annotation.
pub open spec fn line_spec(
    text: Seq<char>,
    header: bool,
    file: Seq<char>,
    row: nat,
    col: nat,
    non_branch: bool,
    parent_id: nat,
) -> Seq<char> {
    terminated(text, header) + " "@ + annotation(file, row, col, non_branch, parent_id)
}

/// A line of the debloated output: a statement with its annotation, or the
/// `}` that closes a function.
pub open spec fn is_emitted_line(l: Seq<char>, file: Seq<char>) -> bool {
    l == "}"@ || exists|text: Seq<char>, header: bool, row: nat, col: nat, nb: bool, pid: nat|
        l == #[trigger] line_spec(text, header, file, row, col, nb, pid)
}

/// The id that the annotation of a statement started by node `s` carries:
/// that of the node's parent.
pub open spec fn parent_id_of(n: Seq<Node>, s: int) -> nat {
    match n[s].parent {
        Some(p) => p as nat,
        None => s as nat,
    }
}

/// The annotated line of a statement started by node `s` of the tree.
pub open spec fn statement_line(
    n: Seq<Node>,
    s: int,
    text: Seq<char>,
    header: bool,
    file: Seq<char>,
) -> Seq<char> {
    line_spec(
        text,
        header,
        file,
        n[s].row as nat,
        n[s].column as nat,
        !in_ctrl_flow(n, s),
        parent_id_of(n, s),
    )
}

/// A line of the debloated output of tree `n`: a statement started by one
/// of its nodes, annotated with that node's location, with the non-branch
/// marker exactly where no conditional encloses the node, and with the id
/// of the node's parent; or the `}` that closes a function.
pub open spec fn is_line_of(l: Seq<char>, file: Seq<char>, n: Seq<Node>) -> bool {
    l == "}"@ || exists|s: int, text: Seq<char>, header: bool|
        0 <= s < n.len() && l == #[trigger] statement_line(n, s, text, header, file)
}

/// The lines joined by line feeds.
pub open spec fn joined(ls: Seq<Seq<char>>) -> Seq<char>
    decreases ls.len(),
{
    if ls.len() == 0 {
        Seq::empty()
    } else if ls.len() == 1 {
        ls[0]
    } else {
        joined(ls.drop_last()) + "\n"@ + ls.last()
    }
}

/// Joins `text` and `to_append` by one space.
pub fn append_text(text: &str, to_append: &str) -> (r: String)
    ensures
        r@ == append_spec(text@, to_append@),
{
    if text.unicode_len() == 0 {
        String::from_str(to_append)
    } else {
        let mut s = String::from_str(text);
        s.append(" ");
        s.append(to_append);
        s
    }
}

/// The location part of an annotation: `// [Loc] file:row:col` for node `i`.
fn mapping_source(tree: &SyntaxTree, i: usize, filename: &str) -> (r: String)
    requires
        i < tree.nodes@.len(),
    ensures
        r@ == LOC_FIELD@ + filename@ + ":"@ + decimal(tree.nodes@[i as int].row as nat)
            + ":"@ + decimal(tree.nodes@[i as int].column as nat),
{
    let mut s = String::from_str(LOC_FIELD);
    s.append(filename);
    s.append(":");
    let r = usize_to_decimal(tree.nodes[i].row);
    s.append(r.as_str());
    s.append(":");
    let c = usize_to_decimal(tree.nodes[i].column);
    s.append(c.as_str());
    s
}

/// Emits the statement `text`, started by node `start`, with its
/// annotation: the start's location, the non-branch marker where no
/// conditional encloses it, and the id of its parent.
fn aggregate(
    debloated: &mut Vec<String>,
    tree: &SyntaxTree,
    start: usize,
    text: &str,
    header: bool,
    filename: &str,
)
    requires
        tree.wf(),
        start < tree.nodes@.len(),
    ensures
        final(debloated)@ == old(debloated)@.push(final(debloated)@.last()),
        final(debloated)@.last()@ == line_spec(
            text@,
            header,
            filename@,
            tree.nodes@[start as int].row as nat,
            tree.nodes@[start as int].column as nat,
            !in_ctrl_flow(tree.nodes@, start as int),
            match tree.nodes@[start as int].parent {
                Some(p) => p as nat,
                None => start as nat,
            },
        ),
{
    let len = text.unicode_len();
    let mut s = String::from_str(text);
    if !(header || (len > 0 && text.get_char(len - 1) == ';')) {
        s.append(";");
    }
    s.append(" ");
    let loc = mapping_source(tree, start, filename);
    s.append(loc.as_str());
    if !is_in_ctrl_flow(tree, start) {
        s.append(", ");
        s.append(NON_BRANCH_ANNOT);
    }
    s.append(", ");
    s.append(PARENT_ID_FIELD);
    let pid = match tree.nodes[start].parent {
        Some(p) => p,
        None => start,
    };
    let d = usize_to_decimal(pid);
    s.append(d.as_str());
    s.append(FIELD_END);
    debloated.push(s);
}

} // verus!

verus! {

/// Keywords of branching and looping constructs, which the flattened
/// output drops.
pub open spec fn is_dropped_keyword(k: NodeKind) -> bool {
    match k {
        NodeKind::If | NodeKind::Else | NodeKind::Switch | NodeKind::Case | NodeKind::For
        | NodeKind::Break | NodeKind::Continue | NodeKind::While | NodeKind::Do
        | NodeKind::Comment => true,
        _ => false,
    }
}

fn is_dropped(k: NodeKind) -> (r: bool)
    ensures
        r == is_dropped_keyword(k),
{
    match k {
        NodeKind::If | NodeKind::Else | NodeKind::Switch | NodeKind::Case | NodeKind::For
        | NodeKind::Break | NodeKind::Continue | NodeKind::While | NodeKind::Do
        | NodeKind::Comment => true,
        _ => false,
    }
}

/// The mutable state of the walk.
struct Emitter {
    lines: Vec<String>,
    text: String,
    start: usize,
    header: bool,
    trace: Ghost<Seq<int>>,
    braces: Ghost<Seq<bool>>,
}

impl Emitter {
    spec fn inv(&self, tree: &SyntaxTree, file: Seq<char>) -> bool {
        &&& self.text@.len() > 0 ==> self.start < tree.nodes@.len()
        &&& forall|k: int|
            0 <= k < self.lines@.len() ==> is_line_of(#[trigger] self.lines@[k]@, file, tree.nodes@)
    }

    /// Adds a piece to the current statement; the first piece fixes the
    /// statement's start node.
    fn push_piece(&mut self, tree: &SyntaxTree, j: usize, piece: &str, Ghost(file): Ghost<Seq<char>>)
        requires
            old(self).inv(tree, file),
            j < tree.nodes@.len(),
        ensures
            final(self).inv(tree, file),
            final(self).lines@ == old(self).lines@,
            final(self).trace@ == old(self).trace@.push(j as int),
            final(self).braces@ == old(self).braces@,
            final(self).text@ == append_spec(old(self).text@, piece@),
            final(self).start == if old(self).text@.len() == 0 {
                j
            } else {
                old(self).start
            },
            final(self).header == if old(self).text@.len() == 0 {
                heads_function(tree.nodes@, j as int)
            } else {
                old(self).header
            },
    {
        if self.text.as_str().unicode_len() == 0 {
            self.start = j;
            self.header = match tree.nodes[j].parent {
                Some(p) => p < tree.nodes.len() && tree.nodes[p].kind == NodeKind::FunctionDeclaration,
                None => false,
            };
        }
        let t = append_text(self.text.as_str(), piece);
        self.text = t;
        self.trace = Ghost(self.trace@.push(j as int));
    }

    /// Emits the current statement, if there is one.
    fn flush(&mut self, tree: &SyntaxTree, filename: &str)
        requires
            tree.wf(),
            old(self).inv(tree, filename@),
        ensures
            final(self).inv(tree, filename@),
            final(self).text@.len() == 0,
            final(self).text@ == Seq::<char>::empty(),
            final(self).start == old(self).start,
            final(self).header == old(self).header,
            final(self).trace@ == old(self).trace@,
            final(self).braces@ == old(self).braces@,
            texts(final(self).lines@) == if old(self).text@.len() > 0 {
                texts(old(self).lines@).push(
                    statement_line(
                        tree.nodes@,
                        old(self).start as int,
                        old(self).text@,
                        old(self).header,
                        filename@,
                    ),
                )
            } else {
                texts(old(self).lines@)
            },
    {
        if self.text.as_str().unicode_len() > 0 {
            let ghost before = self.lines@;
            aggregate(&mut self.lines, tree, self.start, self.text.as_str(), self.header, filename);
            proof {
                let l = self.lines@.last()@;
                let n = tree.nodes@;
                let s = self.start as int;
                assert(l == line_spec(
                    self.text@,
                    self.header,
                    filename@,
                    n[s].row as nat,
                    n[s].column as nat,
                    !in_ctrl_flow(n, s),
                    match n[s].parent {
                        Some(p) => p as nat,
                        None => s as nat,
                    },
                ));
                assert(l == statement_line(n, s, self.text@, self.header, filename@));
                assert(is_line_of(l, filename@, n));
                assert(texts(self.lines@) =~= texts(before).push(l));
                assert forall|k: int| 0 <= k < self.lines@.len() implies is_line_of(
                    #[trigger] self.lines@[k]@,
                    filename@,
                    n,
                ) by {
                    if k < before.len() {
                        assert(self.lines@[k] == before[k]);
                    }
                }
            }
        }
        self.text = String::new();
        assert(self.text@ =~= Seq::<char>::empty());
    }
}

/// The state of the walk: the lines emitted, the current statement's text,
/// its start node and whether it is a function header, the scope counter,
/// the last source row met, and whether a function body's `{` is pending.
pub struct WalkState {
    pub lines: Seq<Seq<char>>,
    pub text: Seq<char>,
    pub start: int,
    pub header: bool,
    pub counter: Counter,
    pub last_row: usize,
    pub open: bool,
    /// The nodes whose text was kept, in the order kept.
    pub trace: Seq<int>,
    /// The block braces met, in order: `true` for `{`, `false` for `}`.
    pub braces: Seq<bool>,
}

/// Node `j`'s parent is a function declaration.
pub open spec fn heads_function(n: Seq<Node>, j: int) -> bool {
    match n[j].parent {
        Some(p) => p < n.len() && n[p as int].kind == NodeKind::FunctionDeclaration,
        None => false,
    }
}

pub open spec fn parent_kind(n: Seq<Node>, j: int) -> NodeKind {
    match n[j].parent {
        Some(p) => n[p as int].kind,
        None => NodeKind::Other,
    }
}

/// Ends the current statement: a non-empty text becomes an annotated line.
pub open spec fn flush_s(n: Seq<Node>, st: WalkState, file: Seq<char>) -> WalkState {
    if st.text.len() > 0 {
        WalkState {
            lines: st.lines.push(statement_line(n, st.start, st.text, st.header, file)),
            text: Seq::empty(),
            ..st
        }
    } else {
        WalkState { text: Seq::empty(), ..st }
    }
}

/// Adds a piece of text at node `j`; the first piece fixes the start node.
pub open spec fn push_s(n: Seq<Node>, st: WalkState, j: int, piece: Seq<char>) -> WalkState {
    if st.text.len() == 0 {
        WalkState {
            start: j,
            header: heads_function(n, j),
            text: append_spec(st.text, piece),
            trace: st.trace.push(j),
            ..st
        }
    } else {
        WalkState { text: append_spec(st.text, piece), trace: st.trace.push(j), ..st }
    }
}

/// The position of identifier `j` for the renaming rule.
pub open spec fn ident_role(n: Seq<Node>, j: int) -> IdentRole {
    if parent_kind(n, j) == NodeKind::FormalParameters {
        IdentRole::Param
    } else if parent_kind(n, j) == NodeKind::VariableDeclarator && n[j].parent == Some(
        (j - 1) as usize,
    ) {
        IdentRole::Declared
    } else {
        IdentRole::Used
    }
}

/// The effect of the leaf (token) `j`: braces of blocks move the counter
/// and are dropped, save the `{` of a function body; those of object
/// literals are kept; `;` after `break`, `continue` and empty statements is
/// dropped; `:` of a switch case ends the statement; identifiers are
/// renamed, save callees and function names; branch keywords and comments
/// are dropped; any other token is kept.
pub open spec fn leaf_step(n: Seq<Node>, st: WalkState, j: int, file: Seq<char>) -> WalkState {
    let pk = parent_kind(n, j);
    let k = n[j].kind;
    if k == NodeKind::OpenBrace {
        if pk == NodeKind::Object {
            push_s(n, st, j, "{"@)
        } else {
            let st1 = if st.open {
                WalkState { open: false, ..flush_s(n, push_s(n, st, j, "{"@), file) }
            } else {
                st
            };
            WalkState { counter: enter_spec(st1.counter), braces: st1.braces.push(true), ..st1 }
        }
    } else if k == NodeKind::CloseBrace {
        if pk == NodeKind::Object {
            push_s(n, st, j, "}"@)
        } else {
            WalkState { counter: leave_spec(st.counter), braces: st.braces.push(false), ..st }
        }
    } else if k == NodeKind::Semicolon {
        if !(pk == NodeKind::BreakStatement || pk == NodeKind::EmptyStatement || pk
            == NodeKind::ContinueStatement) {
            push_s(n, st, j, ";"@)
        } else {
            st
        }
    } else if k == NodeKind::Colon {
        if pk == NodeKind::SwitchCase {
            flush_s(n, st, file)
        } else {
            push_s(n, st, j, ":"@)
        }
    } else if k == NodeKind::Identifier {
        if pk == NodeKind::FunctionDeclaration || pk == NodeKind::CallExpression {
            push_s(n, st, j, n[j].text@)
        } else {
            let role = ident_role(n, j);
            WalkState {
                counter: after_rename(st.counter, n[j].text@, role),
                ..push_s(n, st, j, rename_spec(st.counter, n[j].text@, role))
            }
        }
    } else if !is_dropped_keyword(k) {
        push_s(n, st, j, n[j].text@)
    } else {
        st
    }
}

/// One step of the walk at node `j`: a new source row, or a statement of a
/// block, ends the current statement; a string literal is kept whole and
/// its subtree skipped; a leaf has its effect; other nodes have none. The
/// second component is the next node.
pub open spec fn step_s(n: Seq<Node>, st: WalkState, j: int, file: Seq<char>) -> (WalkState, int) {
    let st1 = if st.last_row < n[j].row {
        flush_s(n, WalkState { last_row: n[j].row, ..st }, file)
    } else {
        st
    };
    let pk = parent_kind(n, j);
    let st2 = if (pk == NodeKind::StatementBlock || pk == NodeKind::SwitchCase) && !(n[j].kind
        == NodeKind::OpenBrace && st1.open) {
        flush_s(n, st1, file)
    } else {
        st1
    };
    if n[j].kind == NodeKind::StringLiteral {
        (push_s(n, st2, j, n[j].text@), n[j].end as int)
    } else if n[j].end == j + 1 {
        (leaf_step(n, st2, j, file), j + 1)
    } else {
        (st2, j + 1)
    }
}

/// The walk over the subtree of top-level node `c` from node `j` on.
pub open spec fn inner_s(n: Seq<Node>, st: WalkState, c: int, j: int, file: Seq<char>) -> WalkState
    decreases n[c].end - j,
{
    if inside(n, c, j) {
        let (st1, j1) = step_s(n, st, j, file);
        if j < j1 <= n[c].end {
            inner_s(n, st1, c, j1, file)
        } else {
            st1
        }
    } else {
        st
    }
}

/// The walk over the top-level nodes from child `c` of the root on: each
/// is walked with a function body's `{` pending for a function, its last
/// statement ended, and a function closed by a line `}`.
pub open spec fn top_s(n: Seq<Node>, st: WalkState, c: int, file: Seq<char>) -> WalkState
    decreases n[0].end - c,
{
    if n.len() > 0 && inside(n, 0, c) {
        let is_func = n[c].kind == NodeKind::FunctionDeclaration;
        let st2 = flush_s(n, inner_s(n, WalkState { open: is_func, ..st }, c, c + 1, file), file);
        let st3 = if is_func {
            WalkState { lines: st2.lines.push("}"@), ..st2 }
        } else {
            st2
        };
        top_s(n, st3, n[c].end as int, file)
    } else {
        st
    }
}

pub open spec fn initial_walk() -> WalkState {
    WalkState {
        lines: Seq::empty(),
        text: Seq::empty(),
        start: 0,
        header: false,
        counter: Counter {
            lvl: 0,
            visited: Seq::empty(),
            occupied: Seq::empty(),
            known: Seq::empty(),
        },
        last_row: 0,
        open: false,
        trace: Seq::empty(),
        braces: Seq::empty(),
    }
}

/// The debloated lines of a tree with file name `file` in the annotations.
pub open spec fn debloat_spec(n: Seq<Node>, file: Seq<char>) -> Seq<Seq<char>> {
    if n.len() == 0 {
        Seq::empty()
    } else {
        top_s(n, initial_walk(), 1, file).lines
    }
}

spec fn state_of(em: Emitter, env: ScopeEnv, vars: Seq<String>, last_row: usize, open: bool) -> WalkState {
    WalkState {
        lines: texts(em.lines@),
        text: em.text@,
        start: em.start as int,
        header: em.header,
        counter: counter_of(env, vars),
        last_row,
        open,
        trace: em.trace@,
        braces: em.braces@,
    }
}

/// The debloated lines of a parsed file, as `debloat_spec` walks them:
/// for each top-level statement, its tokens one source row and one
/// statement at a time, with branch keywords and block braces dropped,
/// strings kept whole, identifiers renamed by scope, and each statement
/// annotated; a function declaration keeps the `{` that opens its body and
/// is closed by a line `}`.
pub fn debloat_lines(tree: &SyntaxTree, filename: &str) -> (r: Vec<String>)
    requires
        tree.wf(),
    ensures
        texts(r@) == debloat_spec(tree.nodes@, filename@),
        forall|k: int| 0 <= k < r@.len() ==> is_line_of(#[trigger] r@[k]@, filename@, tree.nodes@),
{
    let ghost file = filename@;
    let mut em = Emitter {
        lines: Vec::new(),
        text: String::new(),
        start: 0,
        header: false,
        trace: Ghost(Seq::empty()),
        braces: Ghost(Seq::empty()),
    };
    if tree.nodes.len() == 0 {
        assert(texts(em.lines@) =~= Seq::<Seq<char>>::empty());
        return em.lines;
    }
    let ghost n = tree.nodes@;
    proof {
        lemma_wf_node(n, 0);
    }
    let root_end = tree.nodes[0].end;
    let mut scope_env = ScopeEnv::new();
    let mut vars: Vec<String> = Vec::new();
    let mut last_row: usize = 0;
    let mut open_pending = false;
    let mut c: usize = 1;
    proof {
        assert(texts(em.lines@) =~= Seq::<Seq<char>>::empty());
        assert(texts(vars@) =~= Seq::<Seq<char>>::empty());
        assert(state_of(em, scope_env, vars@, last_row, open_pending) == initial_walk());
    }
    while c < root_end
        invariant
            tree.wf(),
            n == tree.nodes@,
            file == filename@,
            n.len() > 0,
            root_end == n[0].end,
            root_end <= n.len(),
            0 < c <= root_end,
            scope_env.lvl <= c,
            em.inv(tree, file),
            em.text@.len() == 0,
            top_s(n, state_of(em, scope_env, vars@, last_row, open_pending), c as int, file)
                == top_s(n, initial_walk(), 1, file),
        decreases root_end - c,
    {
        proof {
            lemma_wf_node(n, c as int);
            lemma_wf_nest(n, 0, c as int);
        }
        let ghost s_top = state_of(em, scope_env, vars@, last_row, open_pending);
        let is_func = tree.nodes[c].kind == NodeKind::FunctionDeclaration;
        open_pending = is_func;
        let end = tree.nodes[c].end;
        let mut j: usize = c + 1;
        let ghost target = inner_s(n, state_of(em, scope_env, vars@, last_row, open_pending), c as int, c + 1, file);
        while j < end
            invariant
                tree.wf(),
                n == tree.nodes@,
                file == filename@,
                c < n.len(),
                end == n[c as int].end,
                end <= n.len(),
                c < j <= end,
                scope_env.lvl <= j,
                em.inv(tree, file),
                inner_s(n, state_of(em, scope_env, vars@, last_row, open_pending), c as int, j as int, file)
                    == target,
            decreases end - j,
        {
            proof {
                lemma_wf_node(n, j as int);
                lemma_wf_nest(n, c as int, j as int);
            }
            let ghost s0 = state_of(em, scope_env, vars@, last_row, open_pending);
            let ghost jj = j as int;
            let nd = &tree.nodes[j];
            if last_row < nd.row {
                last_row = nd.row;
                em.flush(tree, filename);
            }
            let ghost s1 = state_of(em, scope_env, vars@, last_row, open_pending);
            assert(s1 == if s0.last_row < n[jj].row {
                flush_s(n, WalkState { last_row: n[jj].row, ..s0 }, file)
            } else {
                s0
            });
            let pk = match nd.parent {
                Some(p) => tree.nodes[p].kind,
                None => NodeKind::Other,
            };
            assert(pk == parent_kind(n, jj));
            if (pk == NodeKind::StatementBlock || pk == NodeKind::SwitchCase)
                && !(nd.kind == NodeKind::OpenBrace && open_pending) {
                em.flush(tree, filename);
            }
            let ghost s2 = state_of(em, scope_env, vars@, last_row, open_pending);
            assert(s2 == if (pk == NodeKind::StatementBlock || pk
                == NodeKind::SwitchCase) && !(n[jj].kind == NodeKind::OpenBrace && s1.open) {
                flush_s(n, s1, file)
            } else {
                s1
            });
            if nd.kind == NodeKind::StringLiteral {
                em.push_piece(tree, j, nd.text.as_str(), Ghost(file));
                assert(state_of(em, scope_env, vars@, last_row, open_pending) == push_s(n, s2, jj, n[jj].text@));
                j = nd.end;
            } else {
                if nd.end == j + 1 {
                    let k = nd.kind;
                    if k == NodeKind::OpenBrace {
                        if pk == NodeKind::Object {
                            em.push_piece(tree, j, "{", Ghost(file));
                        } else {
                            if open_pending {
                                em.push_piece(tree, j, "{", Ghost(file));
                                em.flush(tree, filename);
                                open_pending = false;
                            }
                            let ghost s3 = state_of(em, scope_env, vars@, last_row, open_pending);
                            scope_env.enter();
                            em.braces = Ghost(em.braces@.push(true));
                            assert(state_of(em, scope_env, vars@, last_row, open_pending) == WalkState {
                                counter: enter_spec(s3.counter),
                                braces: s3.braces.push(true),
                                ..s3
                            });
                        }
                    } else if k == NodeKind::CloseBrace {
                        if pk == NodeKind::Object {
                            em.push_piece(tree, j, "}", Ghost(file));
                        } else {
                            scope_env.leave();
                            em.braces = Ghost(em.braces@.push(false));
                        }
                    } else if k == NodeKind::Semicolon {
                        if !(pk == NodeKind::BreakStatement || pk
                            == NodeKind::EmptyStatement || pk
                            == NodeKind::ContinueStatement) {
                            em.push_piece(tree, j, ";", Ghost(file));
                        }
                    } else if k == NodeKind::Colon {
                        if pk == NodeKind::SwitchCase {
                            em.flush(tree, filename);
                        } else {
                            em.push_piece(tree, j, ":", Ghost(file));
                        }
                    } else if k == NodeKind::Identifier {
                        if pk == NodeKind::FunctionDeclaration || pk
                            == NodeKind::CallExpression {
                            em.push_piece(tree, j, nd.text.as_str(), Ghost(file));
                        } else {
                            let role = if pk == NodeKind::FormalParameters {
                                IdentRole::Param
                            } else if pk == NodeKind::VariableDeclarator && nd.parent
                                == Some(j - 1) {
                                IdentRole::Declared
                            } else {
                                IdentRole::Used
                            };
                            assert(role == ident_role(n, jj));
                            let ident = get_scoped_ident(
                                &mut vars,
                                nd.text.as_str(),
                                role,
                                &mut scope_env,
                            );
                            em.push_piece(tree, j, ident.as_str(), Ghost(file));
                        }
                    } else if !is_dropped(k) {
                        em.push_piece(tree, j, nd.text.as_str(), Ghost(file));
                    }
                    assert(state_of(em, scope_env, vars@, last_row, open_pending) == leaf_step(n, s2, jj, file));
                }
                j = j + 1;
            }
        }
        let ghost s_end = state_of(em, scope_env, vars@, last_row, open_pending);
        em.flush(tree, filename);
        if is_func {
            let ghost before = em.lines@;
            em.lines.push(String::from_str("}"));
            proof {
                reveal_strlit("}");
                assert(texts(em.lines@) =~= texts(before).push("}"@));
                assert forall|k: int| 0 <= k < em.lines@.len() implies is_line_of(
                    #[trigger] em.lines@[k]@,
                    file,
                    n,
                ) by {
                    if k < before.len() {
                        assert(em.lines@[k] == before[k]);
                    }
                }
            }
        }
        proof {
            lemma_wf_nest(n, 0, c as int);
            assert(target == s_end);
            assert(state_of(em, scope_env, vars@, last_row, open_pending) == {
                let st2 = flush_s(n, s_end, file);
                if is_func {
                    WalkState { lines: st2.lines.push("}"@), ..st2 }
                } else {
                    st2
                }
            });
        }
        c = tree.nodes[c].end;
    }
    em.lines
}

/// Joins lines by line feeds.
pub fn join_lines(lines: &Vec<String>) -> (r: String)
    ensures
        r@ == joined(texts(lines@)),
{
    let mut s = String::new();
    let mut i: usize = 0;
    while i < lines.len()
        invariant
            i <= lines@.len(),
            s@ == joined(texts(lines@).subrange(0, i as int)),
        decreases lines@.len() - i,
    {
        assert(texts(lines@).subrange(0, i + 1).drop_last() =~= texts(lines@).subrange(0, i as int));
        if i > 0 {
            s.append("\n");
        }
        s.append(lines[i].as_str());
        i = i + 1;
    }
    assert(texts(lines@).subrange(0, lines@.len() as int) =~= texts(lines@));
    s
}

/// The debloated text of a parsed file: its debloated lines joined by line
/// feeds.
pub fn debloat_control_flow(tree: &SyntaxTree, filename: &str) -> (r: String)
    requires
        tree.wf(),
    ensures
        r@ == joined(debloat_spec(tree.nodes@, filename@)),
        forall|k: int|
            0 <= k < debloat_spec(tree.nodes@, filename@).len() ==> is_line_of(
                #[trigger] debloat_spec(tree.nodes@, filename@)[k],
                filename@,
                tree.nodes@,
            ),
{
    let lines = debloat_lines(tree, filename);
    proof {
        assert forall|k: int| 0 <= k < texts(lines@).len() implies is_line_of(
            #[trigger] texts(lines@)[k],
            filename@,
            tree.nodes@,
        ) by {
            assert(texts(lines@)[k] == lines@[k]@);
        }
    }
    join_lines(&lines)
}

/// A line of the tree's debloated output is a statement line or `}`.
pub proof fn lemma_line_of_is_emitted(l: Seq<char>, file: Seq<char>, n: Seq<Node>)
    requires
        is_line_of(l, file, n),
    ensures
        is_emitted_line(l, file),
{
    if l != "}"@ {
        let (s, text, header) = choose|s: int, text: Seq<char>, header: bool|
            0 <= s < n.len() && l == #[trigger] statement_line(n, s, text, header, file);
        assert(l == line_spec(
            text,
            header,
            file,
            n[s].row as nat,
            n[s].column as nat,
            !in_ctrl_flow(n, s),
            parent_id_of(n, s),
        ));
    }
}

/// Parses `code` and debloats it, with `filename` in the annotations;
/// `None` where the source cannot be parsed, or parses with error nodes.
pub fn debloat(code: &str, filename: &str) -> (r: Option<String>)
    ensures
        r is Some ==> crate::syntax::js_parses(code@),
        r matches Some(s) ==> exists|n: Seq<Node>|
            crate::syntax::wf_nodes(n) && crate::syntax::error_free(n) && s@ == joined(
                debloat_spec(n, filename@),
            ),
{
    match parse(code) {
        None => None,
        Some(tree) => {
            let r = debloat_control_flow(&tree, filename);
            assert(crate::syntax::wf_nodes(tree.nodes@));
            Some(r)
        },
    }
}

} // verus!

verus! {

pub open spec fn loc_marker() -> Seq<char> {
    "[Loc]"@
}

pub open spec fn parent_marker() -> Seq<char> {
    "[Parent-ID]"@
}

/// Joining two pieces at a seam that no marker can straddle adds up their
/// marker counts.
proof fn lemma_join(a: Seq<char>, b: Seq<char>)
    requires
        a.len() == 0 || b.len() == 0 || b[0] == ' ' || b[0] == ',' || b[0] == ':' || b[0] == ';'
            || b[0] == '_' || is_digit(b[0]) || a.last() == ' ',
    ensures
        count_occ(a + b, loc_marker()) == count_occ(a, loc_marker()) + count_occ(b, loc_marker()),
        count_occ(a + b, parent_marker()) == count_occ(a, parent_marker()) + count_occ(
            b,
            parent_marker(),
        ),
{
    reveal_strlit("[Loc]");
    reveal_strlit("[Parent-ID]");
    lemma_no_straddle(a, b, loc_marker());
    lemma_no_straddle(a, b, parent_marker());
    lemma_count_concat(a, b, loc_marker());
    lemma_count_concat(a, b, parent_marker());
}

/// A piece without `[` holds no marker.
proof fn lemma_plain(s: Seq<char>)
    requires
        forall|i: int| 0 <= i < s.len() ==> s[i] != '[',
    ensures
        count_occ(s, loc_marker()) == 0,
        count_occ(s, parent_marker()) == 0,
{
    reveal_strlit("[Loc]");
    reveal_strlit("[Parent-ID]");
    lemma_count_without_head(s, loc_marker());
    lemma_count_without_head(s, parent_marker());
}

proof fn lemma_marker_pieces()
    ensures
        count_occ("[Loc]"@, loc_marker()) == 1,
        count_occ("[Loc]"@, parent_marker()) == 0,
        count_occ("[Parent-ID]"@, parent_marker()) == 1,
        count_occ("[Parent-ID]"@, loc_marker()) == 0,
        count_occ("[Non-branch]"@, loc_marker()) == 0,
        count_occ("[Non-branch]"@, parent_marker()) == 0,
{
    reveal_strlit("[Loc]");
    reveal_strlit("[Parent-ID]");
    reveal_strlit("[Non-branch]");
    lemma_count_self(loc_marker());
    lemma_count_self(parent_marker());
    lemma_count_zero("[Loc]"@, parent_marker());
    let p = parent_marker();
    let l = loc_marker();
    let nb = "[Non-branch]"@;
    assert forall|q: int| 0 <= q < p.len() implies !#[trigger] occurs_at(p, l, q) by {
        if occurs_at(p, l, q) {
            assert(p.subrange(q, q + l.len())[0] == l[0]);
            assert(p.subrange(q, q + l.len())[1] == l[1]);
        }
    }
    lemma_count_zero(p, l);
    assert forall|q: int| 0 <= q < nb.len() implies !#[trigger] occurs_at(nb, l, q) by {
        if occurs_at(nb, l, q) {
            assert(nb.subrange(q, q + l.len())[0] == l[0]);
            assert(nb.subrange(q, q + l.len())[1] == l[1]);
        }
    }
    lemma_count_zero(nb, l);
    assert forall|q: int| 0 <= q < nb.len() implies !#[trigger] occurs_at(nb, p, q) by {
        if occurs_at(nb, p, q) {
            assert(nb.subrange(q, q + p.len())[0] == p[0]);
            assert(nb.subrange(q, q + p.len())[1] == p[1]);
        }
    }
    lemma_count_zero(nb, p);
}

/// The piece of an annotation that holds the location's numbers.
pub open spec fn numbers_piece(row: nat, col: nat) -> Seq<char> {
    ":"@ + decimal(row) + ":"@ + decimal(col)
}

/// The optional non-branch piece of an annotation.
pub open spec fn branch_piece(non_branch: bool) -> Seq<char> {
    if non_branch {
        ", "@ + NON_BRANCH_ANNOT@
    } else {
        Seq::empty()
    }
}

proof fn lemma_line_shape(
    text: Seq<char>,
    header: bool,
    file: Seq<char>,
    row: nat,
    col: nat,
    non_branch: bool,
    parent_id: nat,
)
    ensures
        line_spec(text, header, file, row, col, non_branch, parent_id) == terminated(text, header)
            + " // "@ + "[Loc]"@ + " "@ + file + numbers_piece(row, col) + branch_piece(non_branch)
            + ", "@ + "[Parent-ID]"@ + " "@ + (decimal(parent_id) + ","@),
{
    reveal_strlit("// [Loc] ");
    reveal_strlit("[Parent-ID] ");
    reveal_strlit(" ");
    reveal_strlit(" // ");
    reveal_strlit("[Loc]");
    reveal_strlit("[Parent-ID]");
    reveal_strlit(",");
    assert(" "@ + LOC_FIELD@ == " // "@ + "[Loc]"@ + " "@);
    assert(PARENT_ID_FIELD@ == "[Parent-ID]"@ + " "@);
    assert(line_spec(text, header, file, row, col, non_branch, parent_id) =~= terminated(text, header)
            + " // "@ + "[Loc]"@ + " "@ + file + numbers_piece(row, col) + branch_piece(non_branch)
            + ", "@ + "[Parent-ID]"@ + " "@ + (decimal(parent_id) + ","@));
}

proof fn lemma_number_pieces_plain(row: nat, col: nat, parent_id: nat)
    ensures
        count_occ(numbers_piece(row, col), loc_marker()) == 0,
        count_occ(numbers_piece(row, col), parent_marker()) == 0,
        count_occ(decimal(parent_id) + ","@, loc_marker()) == 0,
        count_occ(decimal(parent_id) + ","@, parent_marker()) == 0,
{
    reveal_strlit(":");
    reveal_strlit(",");
    lemma_decimal_digits(row);
    lemma_decimal_digits(col);
    lemma_decimal_digits(parent_id);
    let s5 = numbers_piece(row, col);
    let s10 = decimal(parent_id) + ","@;
    assert forall|i: int| 0 <= i < s5.len() implies s5[i] != '[' by {
        let dr = decimal(row);
        let dc = decimal(col);
        if 1 <= i < 1 + dr.len() {
            assert(s5[i] == dr[i - 1]);
        } else if 2 + dr.len() <= i {
            assert(s5[i] == dc[i - 2 - dr.len()]);
        }
    }
    assert forall|i: int| 0 <= i < s10.len() implies s10[i] != '[' by {
        let d = decimal(parent_id);
        if i < d.len() {
            assert(s10[i] == d[i]);
        }
    }
    lemma_plain(s5);
    lemma_plain(s10);
}

proof fn lemma_small_pieces(text: Seq<char>, header: bool, non_branch: bool)
    requires
        count_occ(text, loc_marker()) == 0,
        count_occ(text, parent_marker()) == 0,
    ensures
        count_occ(terminated(text, header), loc_marker()) == 0,
        count_occ(terminated(text, header), parent_marker()) == 0,
        count_occ(branch_piece(non_branch), loc_marker()) == 0,
        count_occ(branch_piece(non_branch), parent_marker()) == 0,
        count_occ(" // "@, loc_marker()) == 0,
        count_occ(" // "@, parent_marker()) == 0,
        count_occ(" "@, loc_marker()) == 0,
        count_occ(" "@, parent_marker()) == 0,
        count_occ(", "@, loc_marker()) == 0,
        count_occ(", "@, parent_marker()) == 0,
        " // "@.len() > 0 && " // "@[0] == ' ' && " // "@.last() == ' ',
        " "@.len() > 0 && " "@[0] == ' ' && " "@.last() == ' ',
        ", "@.len() > 0 && ", "@[0] == ',' && ", "@.last() == ' ',
        branch_piece(non_branch).len() == 0 || branch_piece(non_branch)[0] == ',',
{
    reveal_strlit(";");
    reveal_strlit(" // ");
    reveal_strlit(" ");
    reveal_strlit(", ");
    reveal_strlit("[Non-branch]");
    if !(header || (text.len() > 0 && text.last() == ';')) {
        lemma_join(text, ";"@);
        lemma_plain(";"@);
    }
    lemma_plain(" // "@);
    lemma_plain(" "@);
    lemma_plain(", "@);
    lemma_marker_pieces();
    if non_branch {
        lemma_join(", "@, "[Non-branch]"@);
    } else {
        lemma_plain(Seq::empty());
    }
}

/// Every emitted statement line holds the location marker `[Loc]` exactly
/// once and the parent-id marker `[Parent-ID]` exactly once, where neither
/// the statement's text nor the file name holds either marker.
pub proof fn lemma_line_markers(
    text: Seq<char>,
    header: bool,
    file: Seq<char>,
    row: nat,
    col: nat,
    non_branch: bool,
    parent_id: nat,
)
    requires
        count_occ(text, loc_marker()) == 0,
        count_occ(text, parent_marker()) == 0,
        count_occ(file, loc_marker()) == 0,
        count_occ(file, parent_marker()) == 0,
    ensures
        count_occ(line_spec(text, header, file, row, col, non_branch, parent_id), loc_marker())
            == 1,
        count_occ(line_spec(text, header, file, row, col, non_branch, parent_id), parent_marker())
            == 1,
{
    lemma_line_shape(text, header, file, row, col, non_branch, parent_id);
    lemma_number_pieces_plain(row, col, parent_id);
    lemma_small_pieces(text, header, non_branch);
    lemma_marker_pieces();
    reveal_strlit("[Loc]");
    reveal_strlit("[Parent-ID]");
    reveal_strlit(":");
    let s0 = terminated(text, header);
    let s4 = file;
    let s5 = numbers_piece(row, col);
    let s6 = branch_piece(non_branch);
    let s10 = decimal(parent_id) + ","@;
    let a1 = s0 + " // "@;
    lemma_join(s0, " // "@);
    let a2 = a1 + "[Loc]"@;
    lemma_join(a1, "[Loc]"@);
    let a3 = a2 + " "@;
    lemma_join(a2, " "@);
    let a4 = a3 + s4;
    lemma_join(a3, s4);
    assert(s5[0] == ':');
    let a5 = a4 + s5;
    lemma_join(a4, s5);
    let a6 = a5 + s6;
    lemma_join(a5, s6);
    let a7 = a6 + ", "@;
    lemma_join(a6, ", "@);
    let a8 = a7 + "[Parent-ID]"@;
    lemma_join(a7, "[Parent-ID]"@);
    let a9 = a8 + " "@;
    lemma_join(a8, " "@);
    lemma_join(a9, s10);
}

} // verus!

verus! {

/// In a tree without conditional or branching nodes, no node is under a
/// branch.
pub proof fn lemma_flat_not_in_ctrl_flow(n: Seq<Node>, s: int)
    requires
        forall|k: int|
            0 <= k < n.len() ==> !is_branching((#[trigger] n[k]).kind),
    ensures
        !in_ctrl_flow(n, s),
    decreases s,
{
    if 0 <= s < n.len() && n[s].parent is Some && n[s].parent->0 < s {
        let p = n[s].parent->0 as int;
        lemma_flat_not_in_ctrl_flow(n, p);
    }
}

/// Debloating a tree that holds no conditional or branching node marks every statement line
/// as outside any branch, so that every assignment in it is read back
/// under the overwrite rule.
pub proof fn lemma_flat_lines_non_branch(l: Seq<char>, file: Seq<char>, n: Seq<Node>)
    requires
        is_line_of(l, file, n),
        l != "}"@,
        forall|k: int|
            0 <= k < n.len() ==> !is_branching((#[trigger] n[k]).kind),
    ensures
        exists|text: Seq<char>, header: bool, row: nat, col: nat, pid: nat|
            l == #[trigger] line_spec(text, header, file, row, col, true, pid),
{
    let (s, text, header) = choose|s: int, text: Seq<char>, header: bool|
        0 <= s < n.len() && l == #[trigger] statement_line(n, s, text, header, file);
    lemma_flat_not_in_ctrl_flow(n, s);
    assert(l == line_spec(
        text,
        header,
        file,
        n[s].row as nat,
        n[s].column as nat,
        true,
        parent_id_of(n, s),
    ));
}

} // verus!

verus! {

/// Neither marker occurs in `s`.
pub open spec fn clean(s: Seq<char>) -> bool {
    count_occ(s, loc_marker()) == 0 && count_occ(s, parent_marker()) == 0
}

/// A line holds each marker exactly once, or is the `}` closing a function.
pub open spec fn good_line(l: Seq<char>) -> bool {
    l == "}"@ || (count_occ(l, loc_marker()) == 1 && count_occ(l, parent_marker()) == 1)
}

pub open spec fn good_state(st: WalkState) -> bool {
    clean(st.text) && forall|k: int| 0 <= k < st.lines.len() ==> good_line(#[trigger] st.lines[k])
}

proof fn lemma_append_clean(t: Seq<char>, p: Seq<char>)
    requires
        clean(t),
        clean(p),
    ensures
        clean(append_spec(t, p)),
{
    reveal_strlit(" ");
    if t.len() > 0 {
        lemma_plain(" "@);
        lemma_join(t, " "@);
        lemma_join(t + " "@, p);
    }
}

proof fn lemma_renamed_clean(base: Seq<char>, l: nat, v: nat)
    requires
        clean(base),
    ensures
        clean(crate::scope::renamed(base, l, v)),
{
    reveal_strlit("_");
    lemma_decimal_digits(l);
    lemma_decimal_digits(v);
    let u = "_"@;
    let dl = decimal(l);
    let dv = decimal(v);
    assert forall|i: int| 0 <= i < dl.len() implies dl[i] != '[' by {
        assert(is_digit(dl[i]));
    }
    assert forall|i: int| 0 <= i < dv.len() implies dv[i] != '[' by {
        assert(is_digit(dv[i]));
    }
    lemma_plain(u);
    lemma_plain(dl);
    lemma_plain(dv);
    lemma_join(base, u);
    lemma_join(base + u, dl);
    lemma_join(base + u + dl, u);
    lemma_join(base + u + dl + u, dv);
}

proof fn lemma_push_good(n: Seq<Node>, st: WalkState, j: int, piece: Seq<char>)
    requires
        good_state(st),
        clean(piece),
    ensures
        good_state(push_s(n, st, j, piece)),
{
    lemma_append_clean(st.text, piece);
}

proof fn lemma_flush_good(n: Seq<Node>, st: WalkState, file: Seq<char>)
    requires
        good_state(st),
        clean(file),
    ensures
        good_state(flush_s(n, st, file)),
{
    lemma_plain(Seq::<char>::empty());
    if st.text.len() > 0 {
        let s = st.start;
        lemma_line_markers(
            st.text,
            st.header,
            file,
            n[s].row as nat,
            n[s].column as nat,
            !in_ctrl_flow(n, s),
            parent_id_of(n, s),
        );
        let f = flush_s(n, st, file);
        assert forall|k: int| 0 <= k < f.lines.len() implies good_line(#[trigger] f.lines[k]) by {
            if k < st.lines.len() {
                assert(f.lines[k] == st.lines[k]);
            }
        }
    }
}

proof fn lemma_literal_clean()
    ensures
        clean("{"@),
        clean("}"@),
        clean(";"@),
        clean(":"@),
{
    reveal_strlit("{");
    reveal_strlit("}");
    reveal_strlit(";");
    reveal_strlit(":");
    lemma_plain("{"@);
    lemma_plain("}"@);
    lemma_plain(";"@);
    lemma_plain(":"@);
}

/// Every node's text and every known name is free of the markers.
pub open spec fn clean_tree(n: Seq<Node>) -> bool {
    forall|j: int| 0 <= j < n.len() ==> clean(#[trigger] n[j].text@)
}

pub open spec fn clean_counter(c: Counter) -> bool {
    forall|k: int| 0 <= k < c.known.len() ==> clean(#[trigger] c.known[k])
}

proof fn lemma_step_good(n: Seq<Node>, st: WalkState, j: int, file: Seq<char>)
    requires
        good_state(st),
        clean_counter(st.counter),
        clean_tree(n),
        clean(file),
        0 <= j < n.len(),
    ensures
        good_state(step_s(n, st, j, file).0),
        clean_counter(step_s(n, st, j, file).0.counter),
{
    lemma_literal_clean();
    let st0 = WalkState { last_row: n[j].row, ..st };
    lemma_flush_good(n, st0, file);
    let st1 = if st.last_row < n[j].row {
        flush_s(n, st0, file)
    } else {
        st
    };
    lemma_flush_good(n, st1, file);
    let pk = parent_kind(n, j);
    let st2 = if (pk == NodeKind::StatementBlock || pk == NodeKind::SwitchCase) && !(n[j].kind
        == NodeKind::OpenBrace && st1.open) {
        flush_s(n, st1, file)
    } else {
        st1
    };
    assert(clean(n[j].text@));
    lemma_push_good(n, st2, j, n[j].text@);
    lemma_push_good(n, st2, j, "{"@);
    lemma_push_good(n, st2, j, "}"@);
    lemma_push_good(n, st2, j, ";"@);
    lemma_push_good(n, st2, j, ":"@);
    lemma_flush_good(n, st2, file);
    lemma_flush_good(n, push_s(n, st2, j, "{"@), file);
    let role = ident_role(n, j);
    let c = st2.counter;
    let base = n[j].text@;
    let cur = crate::scope::visits(c, c.lvl);
    lemma_renamed_clean(base, 1, 1);
    lemma_renamed_clean(base, c.lvl as nat, cur);
    match crate::scope::resolve(c, c.lvl as int) {
        Some((l, v)) => lemma_renamed_clean(base, l as nat, v),
        None => {},
    }
    lemma_push_good(n, st2, j, rename_spec(c, base, role));
    let c2 = after_rename(c, base, role);
    assert forall|k: int| 0 <= k < c2.known.len() implies clean(#[trigger] c2.known[k]) by {
        if k < c.known.len() {
            assert(c2.known[k] == c.known[k]);
        }
    }
}

proof fn lemma_inner_good(n: Seq<Node>, st: WalkState, c: int, j: int, file: Seq<char>)
    requires
        good_state(st),
        clean_counter(st.counter),
        clean_tree(n),
        clean(file),
    ensures
        good_state(inner_s(n, st, c, j, file)),
        clean_counter(inner_s(n, st, c, j, file).counter),
    decreases n[c].end - j,
{
    if inside(n, c, j) {
        lemma_step_good(n, st, j, file);
        let (st1, j1) = step_s(n, st, j, file);
        if j < j1 <= n[c].end {
            lemma_inner_good(n, st1, c, j1, file);
        }
    }
}

proof fn lemma_top_good(n: Seq<Node>, st: WalkState, c: int, file: Seq<char>)
    requires
        good_state(st),
        clean_counter(st.counter),
        clean_tree(n),
        clean(file),
    ensures
        good_state(top_s(n, st, c, file)),
    decreases n[0].end - c,
{
    if n.len() > 0 && inside(n, 0, c) {
        let is_func = n[c].kind == NodeKind::FunctionDeclaration;
        let st1 = WalkState { open: is_func, ..st };
        lemma_inner_good(n, st1, c, c + 1, file);
        let st2 = flush_s(n, inner_s(n, st1, c, c + 1, file), file);
        lemma_flush_good(n, inner_s(n, st1, c, c + 1, file), file);
        let st3 = if is_func {
            WalkState { lines: st2.lines.push("}"@), ..st2 }
        } else {
            st2
        };
        assert forall|k: int| 0 <= k < st3.lines.len() implies good_line(#[trigger] st3.lines[k]) by {
            if k < st2.lines.len() {
                assert(st3.lines[k] == st2.lines[k]);
            }
        }
        lemma_top_good(n, st3, n[c].end as int, file);
    }
}

/// Every line of the debloated output holds the location marker `[Loc]`
/// exactly once and the parent-id marker `[Parent-ID]` exactly once, or is
/// the `}` that closes a function, where no node's text and not the file
/// name holds either marker.
pub proof fn lemma_debloat_markers(n: Seq<Node>, file: Seq<char>)
    requires
        clean_tree(n),
        clean(file),
    ensures
        forall|k: int|
            0 <= k < debloat_spec(n, file).len() ==> good_line(#[trigger] debloat_spec(n, file)[k]),
{
    if n.len() > 0 {
        let st = initial_walk();
        lemma_plain(Seq::<char>::empty());
        lemma_top_good(n, st, 1, file);
    }
}

} // verus!

verus! {

/// A kept token: a leaf that is not a branch keyword or a comment, or a
/// whole string literal.
pub open spec fn kept_ok(n: Seq<Node>, k: int) -> bool {
    !is_dropped_keyword(n[k].kind) && (n[k].end == k + 1 || n[k].kind == NodeKind::StringLiteral)
}

/// What holds of the walk before node `bound`: the kept nodes are kept
/// tokens, each once, in source order, all before `bound`; the counter's
/// level is that of the block braces met so far.
pub open spec fn walk_ok(n: Seq<Node>, st: WalkState, bound: int) -> bool {
    &&& forall|a: int, b: int| 0 <= a < b < st.trace.len() ==> st.trace[a] < st.trace[b]
    &&& forall|a: int|
        0 <= a < st.trace.len() ==> 0 <= #[trigger] st.trace[a] < bound && kept_ok(n, st.trace[a])
    &&& st.braces.len() <= bound
    &&& st.counter.lvl == run_braces(0, st.braces)
}

proof fn lemma_run_braces_le(b: Seq<bool>)
    ensures
        run_braces(0, b) <= b.len(),
    decreases b.len(),
{
    if b.len() > 0 {
        lemma_run_braces_le(b.drop_last());
    }
}

proof fn lemma_run_braces_push(b: Seq<bool>, x: bool)
    ensures
        run_braces(0, b.push(x)) == brace_step(run_braces(0, b), x),
{
    assert(b.push(x).drop_last() == b);
}

proof fn lemma_walk_ok_weaken(n: Seq<Node>, st: WalkState, b1: int, b2: int)
    requires
        walk_ok(n, st, b1),
        b1 <= b2,
    ensures
        walk_ok(n, st, b2),
{
}

proof fn lemma_push_ok(n: Seq<Node>, st: WalkState, j: int, piece: Seq<char>)
    requires
        walk_ok(n, st, j),
        0 <= j,
        kept_ok(n, j),
    ensures
        walk_ok(n, push_s(n, st, j, piece), j + 1),
{
    let t = push_s(n, st, j, piece).trace;
    assert(t == st.trace.push(j));
    assert forall|a: int, b: int| 0 <= a < b < t.len() implies t[a] < t[b] by {
        if b == t.len() - 1 {
            assert(t[a] == st.trace[a]);
        } else {
            assert(t[a] == st.trace[a] && t[b] == st.trace[b]);
        }
    }
    assert forall|a: int| 0 <= a < t.len() implies 0 <= #[trigger] t[a] < j + 1 && kept_ok(n, t[a]) by {
        if a < st.trace.len() {
            assert(t[a] == st.trace[a]);
        }
    }
}

proof fn lemma_flush_ok(n: Seq<Node>, st: WalkState, b: int, file: Seq<char>)
    requires
        walk_ok(n, st, b),
    ensures
        walk_ok(n, flush_s(n, st, file), b),
{
}

#[verifier::rlimit(60)]
proof fn lemma_step_ok(n: Seq<Node>, st: WalkState, j: int, file: Seq<char>)
    requires
        walk_ok(n, st, j),
        0 <= j < n.len(),
        n.len() < usize::MAX,
    ensures
        walk_ok(n, step_s(n, st, j, file).0, j + 1),
{
    let st0 = WalkState { last_row: n[j].row, ..st };
    lemma_flush_ok(n, st0, j, file);
    let st1 = if st.last_row < n[j].row {
        flush_s(n, st0, file)
    } else {
        st
    };
    lemma_flush_ok(n, st1, j, file);
    let pk = parent_kind(n, j);
    let st2 = if (pk == NodeKind::StatementBlock || pk == NodeKind::SwitchCase) && !(n[j].kind
        == NodeKind::OpenBrace && st1.open) {
        flush_s(n, st1, file)
    } else {
        st1
    };
    assert(walk_ok(n, st2, j));
    lemma_walk_ok_weaken(n, st2, j, j + 1);
    lemma_run_braces_le(st2.braces);
    lemma_run_braces_push(st2.braces, true);
    lemma_run_braces_push(st2.braces, false);
    let k = n[j].kind;
    if k == NodeKind::StringLiteral {
        lemma_push_ok(n, st2, j, n[j].text@);
    } else if n[j].end == j + 1 {
        if !is_dropped_keyword(k) {
            assert(kept_ok(n, j));
            lemma_push_ok(n, st2, j, "{"@);
            lemma_push_ok(n, st2, j, "}"@);
            lemma_push_ok(n, st2, j, ";"@);
            lemma_push_ok(n, st2, j, ":"@);
            lemma_push_ok(n, st2, j, n[j].text@);
            lemma_push_ok(n, st2, j, rename_spec(st2.counter, n[j].text@, ident_role(n, j)));
            let p = push_s(n, st2, j, "{"@);
            lemma_flush_ok(n, p, j + 1, file);
            let f = WalkState { open: false, ..flush_s(n, p, file) };
            lemma_run_braces_push(f.braces, true);
            lemma_flush_ok(n, st2, j + 1, file);
        }
    }
}

proof fn lemma_inner_ok(n: Seq<Node>, st: WalkState, c: int, j: int, file: Seq<char>)
    requires
        walk_ok(n, st, j),
        0 <= j,
        n.len() < usize::MAX,
    ensures
        walk_ok(n, inner_s(n, st, c, j, file), if inside(n, c, j) { n[c].end as int } else { j }),
    decreases n[c].end - j,
{
    if inside(n, c, j) {
        lemma_step_ok(n, st, j, file);
        let (st1, j1) = step_s(n, st, j, file);
        if j < j1 <= n[c].end {
            lemma_walk_ok_weaken(n, st1, j + 1, j1);
            lemma_inner_ok(n, st1, c, j1, file);
            if !inside(n, c, j1) {
                lemma_walk_ok_weaken(n, inner_s(n, st1, c, j1, file), j1, n[c].end as int);
            }
        } else {
            lemma_walk_ok_weaken(n, st1, j + 1, n[c].end as int);
        }
    }
}

proof fn lemma_top_ok(n: Seq<Node>, st: WalkState, c: int, file: Seq<char>)
    requires
        walk_ok(n, st, c),
        0 <= c,
        n.len() < usize::MAX,
    ensures
        walk_ok(n, top_s(n, st, c, file), if n.len() > 0 && c < n[0].end { n[0].end as int } else { c }),
    decreases n[0].end - c,
{
    if n.len() > 0 && inside(n, 0, c) {
        let is_func = n[c].kind == NodeKind::FunctionDeclaration;
        let st1 = WalkState { open: is_func, ..st };
        lemma_walk_ok_weaken(n, st1, c, c + 1);
        lemma_inner_ok(n, st1, c, c + 1, file);
        let inn = inner_s(n, st1, c, c + 1, file);
        lemma_walk_ok_weaken(n, inn, if inside(n, c, c + 1) { n[c].end as int } else { c + 1 }, n[c].end as int);
        lemma_flush_ok(n, inn, n[c].end as int, file);
        let st2 = flush_s(n, inn, file);
        let st3 = if is_func {
            WalkState { lines: st2.lines.push("}"@), ..st2 }
        } else {
            st2
        };
        lemma_top_ok(n, st3, n[c].end as int, file);
    } else if n.len() > 0 && c < n[0].end {
        lemma_walk_ok_weaken(n, st, c, n[0].end as int);
    }
}

/// The debloater keeps no branch keyword (`if`, `else`, `switch`, `case`,
/// `for`, `while`, `do`, `break`, `continue`) and no comment; every text it
/// keeps comes from one token or string literal of the source, each at most
/// once and in source order. Its scope counter ends at the level that the
/// block braces met give, and where those braces are balanced, at the level
/// it started from, never going below zero on the way.
pub proof fn lemma_debloat_walk(n: Seq<Node>, file: Seq<char>)
    requires
        crate::syntax::wf_nodes(n),
        n.len() < usize::MAX,
    ensures
        ({
            let st = top_s(n, initial_walk(), 1, file);
            &&& forall|a: int, b: int| 0 <= a < b < st.trace.len() ==> st.trace[a] < st.trace[b]
            &&& forall|a: int|
                0 <= a < st.trace.len() ==> 0 <= #[trigger] st.trace[a] < n.len() && kept_ok(
                    n,
                    st.trace[a],
                )
            &&& st.counter.lvl == run_braces(0, st.braces)
            &&& balanced(st.braces) ==> st.counter.lvl == 0 && forall|k: int|
                0 <= k <= st.braces.len() ==> #[trigger] run_braces(0, st.braces.subrange(0, k)) >= 0
        }),
{
    let st0 = initial_walk();
    assert(run_braces(0, Seq::<bool>::empty()) == 0);
    assert(walk_ok(n, st0, 1));
    lemma_top_ok(n, st0, 1, file);
    let st = top_s(n, st0, 1, file);
    if n.len() > 0 {
        lemma_wf_node(n, 0);
        lemma_walk_ok_weaken(n, st, if 1 < n[0].end { n[0].end as int } else { 1 }, n.len() as int);
    } else {
        assert(st == st0);
    }
    if balanced(st.braces) {
        lemma_balanced_braces(0, st.braces);
    }
}

} // verus!
