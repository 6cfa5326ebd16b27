//! A read-only model of a parsed JavaScript syntax tree: its nodes in
//! pre-order, each with its kind, text, position, parent and the extent of
//! its subtree.
use vstd::prelude::*;
use crate::kinds::JSOp;
use crate::text::str_eq;

verus! {

/// The node kinds of the JavaScript grammar that the analysis tells apart.
#[derive(Debug, Clone, Copy, PartialEq, Eq, Hash, Structural)]
pub enum NodeKind {
    Program,
    FunctionDeclaration,
    FormalParameters,
    StatementBlock,
    AssignmentExpression,
    CallExpression,
    LexicalDeclaration,
    VariableDeclarator,
    ParenthesizedExpression,
    ExpressionStatement,
    BinaryExpression,
    IfStatement,
    If,
    Else,
    ElseClause,
    SwitchCase,
    SwitchBody,
    SwitchStatement,
    Case,
    Switch,
    ForStatement,
    For,
    BreakStatement,
    Break,
    ContinueStatement,
    Continue,
    EmptyStatement,
    WhileStatement,
    While,
    Arguments,
    ReturnStatement,
    StringLiteral,
    Object,
    Pair,
    OpenBrace,
    CloseBrace,
    Semicolon,
    StringFragment,
    DoubleQuote,
    Colon,
    Identifier,
    Comment,
    Number,
    Null,
    True,
    False,
    Undefined,
    Assign,
    DoStatement,
    Do,
    ForInStatement,
    /// A node the parser could not fit in the grammar.
    Error,
    /// A binary operator token.
    Operator(JSOp),
    /// Any other kind.
    Other,
}

/// The kind that a grammar kind name stands for.
pub open spec fn kind_of(s: Seq<char>) -> NodeKind {
    if s == "program"@ {
        NodeKind::Program
    } else if s == "function_declaration"@ {
        NodeKind::FunctionDeclaration
    } else if s == "formal_parameters"@ {
        NodeKind::FormalParameters
    } else if s == "statement_block"@ {
        NodeKind::StatementBlock
    } else if s == "assignment_expression"@ {
        NodeKind::AssignmentExpression
    } else if s == "call_expression"@ {
        NodeKind::CallExpression
    } else if s == "lexical_declaration"@ {
        NodeKind::LexicalDeclaration
    } else if s == "variable_declarator"@ {
        NodeKind::VariableDeclarator
    } else if s == "parenthesized_expression"@ {
        NodeKind::ParenthesizedExpression
    } else if s == "expression_statement"@ {
        NodeKind::ExpressionStatement
    } else if s == "binary_expression"@ {
        NodeKind::BinaryExpression
    } else if s == "if_statement"@ {
        NodeKind::IfStatement
    } else if s == "if"@ {
        NodeKind::If
    } else if s == "else"@ {
        NodeKind::Else
    } else if s == "else_clause"@ {
        NodeKind::ElseClause
    } else if s == "switch_case"@ {
        NodeKind::SwitchCase
    } else if s == "switch_body"@ {
        NodeKind::SwitchBody
    } else if s == "switch_statement"@ {
        NodeKind::SwitchStatement
    } else if s == "case"@ {
        NodeKind::Case
    } else if s == "switch"@ {
        NodeKind::Switch
    } else if s == "for_statement"@ {
        NodeKind::ForStatement
    } else if s == "for"@ {
        NodeKind::For
    } else if s == "break_statement"@ {
        NodeKind::BreakStatement
    } else if s == "break"@ {
        NodeKind::Break
    } else if s == "continue_statement"@ {
        NodeKind::ContinueStatement
    } else if s == "continue"@ {
        NodeKind::Continue
    } else if s == "empty_statement"@ {
        NodeKind::EmptyStatement
    } else if s == "while_statement"@ {
        NodeKind::WhileStatement
    } else if s == "while"@ {
        NodeKind::While
    } else if s == "arguments"@ {
        NodeKind::Arguments
    } else if s == "return_statement"@ {
        NodeKind::ReturnStatement
    } else if s == "string"@ {
        NodeKind::StringLiteral
    } else if s == "object"@ {
        NodeKind::Object
    } else if s == "pair"@ {
        NodeKind::Pair
    } else if s == "{"@ {
        NodeKind::OpenBrace
    } else if s == "}"@ {
        NodeKind::CloseBrace
    } else if s == ";"@ {
        NodeKind::Semicolon
    } else if s == "string_fragment"@ {
        NodeKind::StringFragment
    } else if s == "\""@ {
        NodeKind::DoubleQuote
    } else if s == ":"@ {
        NodeKind::Colon
    } else if s == "identifier"@ {
        NodeKind::Identifier
    } else if s == "comment"@ {
        NodeKind::Comment
    } else if s == "number"@ {
        NodeKind::Number
    } else if s == "null"@ {
        NodeKind::Null
    } else if s == "true"@ {
        NodeKind::True
    } else if s == "false"@ {
        NodeKind::False
    } else if s == "undefined"@ {
        NodeKind::Undefined
    } else if s == "="@ {
        NodeKind::Assign
    } else if s == "do_statement"@ {
        NodeKind::DoStatement
    } else if s == "do"@ {
        NodeKind::Do
    } else if s == "for_in_statement"@ {
        NodeKind::ForInStatement
    } else if s == "ERROR"@ {
        NodeKind::Error
    } else if s == "=="@ {
        NodeKind::Operator(JSOp::Eq)
    } else if s == "!="@ {
        NodeKind::Operator(JSOp::Neq)
    } else if s == "==="@ {
        NodeKind::Operator(JSOp::StrictEq)
    } else if s == "!=="@ {
        NodeKind::Operator(JSOp::StrictNeq)
    } else if s == ">"@ {
        NodeKind::Operator(JSOp::Gt)
    } else if s == ">="@ {
        NodeKind::Operator(JSOp::Ge)
    } else if s == "<"@ {
        NodeKind::Operator(JSOp::Lt)
    } else if s == "<="@ {
        NodeKind::Operator(JSOp::Le)
    } else if s == "+"@ {
        NodeKind::Operator(JSOp::Add)
    } else if s == "-"@ {
        NodeKind::Operator(JSOp::Sub)
    } else if s == "*"@ {
        NodeKind::Operator(JSOp::Mul)
    } else if s == "/"@ {
        NodeKind::Operator(JSOp::Div)
    } else {
        NodeKind::Other
    }
}

/// Classifies a grammar kind name.
pub fn classify(s: &str) -> (r: NodeKind)
    ensures
        r == kind_of(s@),
{
    if str_eq(s, "program") {
        NodeKind::Program
    } else if str_eq(s, "function_declaration") {
        NodeKind::FunctionDeclaration
    } else if str_eq(s, "formal_parameters") {
        NodeKind::FormalParameters
    } else if str_eq(s, "statement_block") {
        NodeKind::StatementBlock
    } else if str_eq(s, "assignment_expression") {
        NodeKind::AssignmentExpression
    } else if str_eq(s, "call_expression") {
        NodeKind::CallExpression
    } else if str_eq(s, "lexical_declaration") {
        NodeKind::LexicalDeclaration
    } else if str_eq(s, "variable_declarator") {
        NodeKind::VariableDeclarator
    } else if str_eq(s, "parenthesized_expression") {
        NodeKind::ParenthesizedExpression
    } else if str_eq(s, "expression_statement") {
        NodeKind::ExpressionStatement
    } else if str_eq(s, "binary_expression") {
        NodeKind::BinaryExpression
    } else if str_eq(s, "if_statement") {
        NodeKind::IfStatement
    } else if str_eq(s, "if") {
        NodeKind::If
    } else if str_eq(s, "else") {
        NodeKind::Else
    } else if str_eq(s, "else_clause") {
        NodeKind::ElseClause
    } else if str_eq(s, "switch_case") {
        NodeKind::SwitchCase
    } else if str_eq(s, "switch_body") {
        NodeKind::SwitchBody
    } else if str_eq(s, "switch_statement") {
        NodeKind::SwitchStatement
    } else if str_eq(s, "case") {
        NodeKind::Case
    } else if str_eq(s, "switch") {
        NodeKind::Switch
    } else if str_eq(s, "for_statement") {
        NodeKind::ForStatement
    } else if str_eq(s, "for") {
        NodeKind::For
    } else if str_eq(s, "break_statement") {
        NodeKind::BreakStatement
    } else if str_eq(s, "break") {
        NodeKind::Break
    } else if str_eq(s, "continue_statement") {
        NodeKind::ContinueStatement
    } else if str_eq(s, "continue") {
        NodeKind::Continue
    } else if str_eq(s, "empty_statement") {
        NodeKind::EmptyStatement
    } else if str_eq(s, "while_statement") {
        NodeKind::WhileStatement
    } else if str_eq(s, "while") {
        NodeKind::While
    } else if str_eq(s, "arguments") {
        NodeKind::Arguments
    } else if str_eq(s, "return_statement") {
        NodeKind::ReturnStatement
    } else if str_eq(s, "string") {
        NodeKind::StringLiteral
    } else if str_eq(s, "object") {
        NodeKind::Object
    } else if str_eq(s, "pair") {
        NodeKind::Pair
    } else if str_eq(s, "{") {
        NodeKind::OpenBrace
    } else if str_eq(s, "}") {
        NodeKind::CloseBrace
    } else if str_eq(s, ";") {
        NodeKind::Semicolon
    } else if str_eq(s, "string_fragment") {
        NodeKind::StringFragment
    } else if str_eq(s, "\"") {
        NodeKind::DoubleQuote
    } else if str_eq(s, ":") {
        NodeKind::Colon
    } else if str_eq(s, "identifier") {
        NodeKind::Identifier
    } else if str_eq(s, "comment") {
        NodeKind::Comment
    } else if str_eq(s, "number") {
        NodeKind::Number
    } else if str_eq(s, "null") {
        NodeKind::Null
    } else if str_eq(s, "true") {
        NodeKind::True
    } else if str_eq(s, "false") {
        NodeKind::False
    } else if str_eq(s, "undefined") {
        NodeKind::Undefined
    } else if str_eq(s, "=") {
        NodeKind::Assign
    } else if str_eq(s, "do_statement") {
        NodeKind::DoStatement
    } else if str_eq(s, "do") {
        NodeKind::Do
    } else if str_eq(s, "for_in_statement") {
        NodeKind::ForInStatement
    } else if str_eq(s, "ERROR") {
        NodeKind::Error
    } else if str_eq(s, "==") {
        NodeKind::Operator(JSOp::Eq)
    } else if str_eq(s, "!=") {
        NodeKind::Operator(JSOp::Neq)
    } else if str_eq(s, "===") {
        NodeKind::Operator(JSOp::StrictEq)
    } else if str_eq(s, "!==") {
        NodeKind::Operator(JSOp::StrictNeq)
    } else if str_eq(s, ">") {
        NodeKind::Operator(JSOp::Gt)
    } else if str_eq(s, ">=") {
        NodeKind::Operator(JSOp::Ge)
    } else if str_eq(s, "<") {
        NodeKind::Operator(JSOp::Lt)
    } else if str_eq(s, "<=") {
        NodeKind::Operator(JSOp::Le)
    } else if str_eq(s, "+") {
        NodeKind::Operator(JSOp::Add)
    } else if str_eq(s, "-") {
        NodeKind::Operator(JSOp::Sub)
    } else if str_eq(s, "*") {
        NodeKind::Operator(JSOp::Mul)
    } else if str_eq(s, "/") {
        NodeKind::Operator(JSOp::Div)
    } else {
        NodeKind::Other
    }
}

} // verus!

verus! {

/// A node as the parser hands it over: grammar kind name, text, 0-based
/// start position, the parser's node id and its parent's id.
#[derive(Debug, Clone)]
pub struct RawNode {
    pub kind: String,
    pub text: String,
    pub row: usize,
    pub column: usize,
    pub id: usize,
    pub parent: Option<usize>,
}

/// A node of the tree. Its id is its index in pre-order; `row` and
/// `column` are 1-based; its subtree is the nodes from its own index up to
/// `end` (exclusive).
#[derive(Debug, Clone)]
pub struct Node {
    pub kind: NodeKind,
    pub text: String,
    pub row: usize,
    pub column: usize,
    pub parent: Option<usize>,
    pub end: usize,
}

/// A syntax tree as the list of its nodes in pre-order.
#[derive(Debug, Clone)]
pub struct SyntaxTree {
    pub nodes: Vec<Node>,
}

/// The shape of a tree in pre-order: every subtree is a non-empty range
/// that starts at its root, a parent precedes its children and its subtree
/// holds them, and subtrees nest.
#[verifier::opaque]
pub open spec fn wf_nodes(n: Seq<Node>) -> bool {
    &&& forall|i: int| 0 <= i < n.len() ==> i < #[trigger] n[i].end <= n.len()
    &&& forall|i: int| 0 <= i < n.len() ==> #[trigger] parent_ok(n, i)
    &&& forall|i: int, j: int|
        0 <= i < j < n[i].end && i < n.len() ==> #[trigger] n[j].end <= #[trigger] n[i].end
}

/// Node `i`'s parent precedes it and its subtree holds `i`.
pub open spec fn parent_ok(n: Seq<Node>, i: int) -> bool {
    n[i].parent matches Some(p) ==> p < i && i < n[p as int].end
}

/// What the shape gives of one node.
pub proof fn lemma_wf_node(n: Seq<Node>, i: int)
    requires
        wf_nodes(n),
        0 <= i < n.len(),
    ensures
        i < n[i].end <= n.len(),
        n[i].parent matches Some(p) ==> p < i && i < n[p as int].end,
{
    reveal(wf_nodes);
    assert(parent_ok(n, i));
}

/// What the shape gives of a node inside the subtree of another.
pub proof fn lemma_wf_nest(n: Seq<Node>, i: int, j: int)
    requires
        wf_nodes(n),
        0 <= i < j < n[i].end,
        i < n.len(),
    ensures
        n[j].end <= n[i].end,
{
    reveal(wf_nodes);
}

/// The next sibling of node `i`: the node right after its subtree, where
/// that node has the same parent.
pub open spec fn next_sibling(n: Seq<Node>, i: int) -> Option<int> {
    if 0 <= i < n.len() && n[i].end < n.len() && n[i].parent is Some && n[n[i].end as int].parent
        == n[i].parent {
        Some(n[i].end as int)
    } else {
        None
    }
}

/// The conditional and branching constructs: `if`/`else`, `switch` and
/// its cases, and the `for`, `for`-`in`, `while` and `do` loops.
pub open spec fn is_branching(k: NodeKind) -> bool {
    match k {
        NodeKind::IfStatement | NodeKind::ElseClause | NodeKind::SwitchStatement
        | NodeKind::SwitchCase | NodeKind::ForStatement | NodeKind::ForInStatement
        | NodeKind::WhileStatement | NodeKind::DoStatement => true,
        _ => false,
    }
}

/// Whether some ancestor of node `i` is a conditional or branching node.
pub open spec fn in_ctrl_flow(n: Seq<Node>, i: int) -> bool
    decreases i,
{
    if 0 <= i < n.len() && n[i].parent is Some && n[i].parent->0 < i {
        let p = n[i].parent->0 as int;
        is_branching(n[p].kind) || in_ctrl_flow(n, p)
    } else {
        false
    }
}

/// Node `c` lies strictly inside the subtree of node `i`.
pub open spec fn inside(n: Seq<Node>, i: int, c: int) -> bool {
    0 <= i < c < n[c].end <= n[i].end <= n.len()
}

/// The next sibling of node `i` where it is a comment.
pub open spec fn sibling_comment(n: Seq<Node>, i: int) -> Option<int> {
    match next_sibling(n, i) {
        Some(j) => if n[j].kind == NodeKind::Comment {
            Some(j)
        } else {
            None
        },
        None => None,
    }
}

/// The next-sibling comment of node `i`, or of its nearest ancestor that
/// has one.
pub open spec fn ancestor_comment(n: Seq<Node>, i: int) -> Option<int>
    decreases i,
{
    if sibling_comment(n, i) is Some {
        sibling_comment(n, i)
    } else if 0 <= i < n.len() && n[i].parent is Some && n[i].parent->0 < i {
        ancestor_comment(n, n[i].parent->0 as int)
    } else {
        None
    }
}

/// For a formal parameter: the comment right after the `{` of the body
/// that follows the parameter list.
pub open spec fn header_comment(n: Seq<Node>, i: int) -> Option<int> {
    if 0 <= i < n.len() && n[i].parent is Some && n[n[i].parent->0 as int].kind
        == NodeKind::FormalParameters {
        match next_sibling(n, n[i].parent->0 as int) {
            Some(b) => if n[b].kind == NodeKind::StatementBlock && b + 2 < n.len() && n[b
                + 2].kind == NodeKind::Comment {
                Some(b + 2)
            } else {
                None
            },
            None => None,
        }
    } else {
        None
    }
}

/// The annotation comment that belongs to node `i`.
pub open spec fn annot_index(n: Seq<Node>, i: int) -> Option<int> {
    if ancestor_comment(n, i) is Some {
        ancestor_comment(n, i)
    } else {
        header_comment(n, i)
    }
}

impl Node {
    /// The node's kind.
    pub fn kind(&self) -> (r: NodeKind)
        ensures
            r == self.kind,
    {
        self.kind
    }
}

impl SyntaxTree {
    pub open spec fn wf(&self) -> bool {
        wf_nodes(self.nodes@)
    }

    /// Whether node `c` lies strictly inside the subtree of node `i`.
    pub fn is_inside(&self, i: usize, c: usize) -> (r: bool)
        requires
            self.wf(),
            i < self.nodes@.len(),
        ensures
            r == inside(self.nodes@, i as int, c as int),
    {
        proof {
            lemma_wf_node(self.nodes@, i as int);
        }
        if i < c && c < self.nodes[i].end {
            proof {
                lemma_wf_nest(self.nodes@, i as int, c as int);
                lemma_wf_node(self.nodes@, c as int);
            }
            true
        } else {
            false
        }
    }

    /// The next sibling of node `i` where it is a comment.
    fn sibling_comment(&self, i: usize) -> (r: Option<usize>)
        requires
            self.wf(),
        ensures
            r matches Some(j) ==> sibling_comment(self.nodes@, i as int) == Some(j as int),
            r is None ==> sibling_comment(self.nodes@, i as int) is None,
            r matches Some(j) ==> j < self.nodes@.len(),
    {
        match get_next_node(self, i) {
            Some(j) => if self.nodes[j].kind == NodeKind::Comment {
                Some(j)
            } else {
                None
            },
            None => None,
        }
    }

    fn ancestor_comment(&self, i: usize) -> (r: Option<usize>)
        requires
            self.wf(),
            i < self.nodes@.len(),
        ensures
            r matches Some(j) ==> ancestor_comment(self.nodes@, i as int) == Some(j as int),
            r is None ==> ancestor_comment(self.nodes@, i as int) is None,
            r matches Some(j) ==> j < self.nodes@.len(),
        decreases i,
    {
        proof {
            lemma_wf_node(self.nodes@, i as int);
        }
        match self.sibling_comment(i) {
            Some(j) => Some(j),
            None => match self.nodes[i].parent {
                Some(p) => self.ancestor_comment(p),
                None => None,
            },
        }
    }

    fn header_comment(&self, i: usize) -> (r: Option<usize>)
        requires
            self.wf(),
            i < self.nodes@.len(),
        ensures
            r matches Some(j) ==> header_comment(self.nodes@, i as int) == Some(j as int),
            r is None ==> header_comment(self.nodes@, i as int) is None,
            r matches Some(j) ==> j < self.nodes@.len(),
    {
        proof {
            lemma_wf_node(self.nodes@, i as int);
        }
        match self.nodes[i].parent {
            Some(p) if self.nodes[p].kind == NodeKind::FormalParameters => {
                match get_next_node(self, p) {
                    Some(b) => {
                        if self.nodes[b].kind == NodeKind::StatementBlock && 2 < self.nodes.len() - b
                            && self.nodes[b + 2].kind == NodeKind::Comment {
                            Some(b + 2)
                        } else {
                            None
                        }
                    },
                    None => None,
                }
            },
            _ => None,
        }
    }
}

/// The next sibling of node `i` in `tree`.
pub fn get_next_node(tree: &SyntaxTree, i: usize) -> (r: Option<usize>)
    requires
        tree.wf(),
    ensures
        r matches Some(j) ==> next_sibling(tree.nodes@, i as int) == Some(j as int),
        r is None ==> next_sibling(tree.nodes@, i as int) is None,
        r matches Some(j) ==> j < tree.nodes@.len(),
{
    if i >= tree.nodes.len() {
        return None;
    }
    proof {
        lemma_wf_node(tree.nodes@, i as int);
    }
    let e = tree.nodes[i].end;
    if e < tree.nodes.len() && tree.nodes[i].parent.is_some() && tree.nodes[e].parent
        == tree.nodes[i].parent {
        Some(e)
    } else {
        None
    }
}

/// Whether some ancestor of node `i` is a conditional or branching node.
pub fn is_in_ctrl_flow(tree: &SyntaxTree, i: usize) -> (r: bool)
    requires
        tree.wf(),
        i < tree.nodes@.len(),
    ensures
        r == in_ctrl_flow(tree.nodes@, i as int),
    decreases i,
{
    proof {
        lemma_wf_node(tree.nodes@, i as int);
    }
    match tree.nodes[i].parent {
        Some(p) => {
            let k = tree.nodes[p].kind;
            if match k {
                NodeKind::IfStatement | NodeKind::ElseClause | NodeKind::SwitchStatement
                | NodeKind::SwitchCase | NodeKind::ForStatement | NodeKind::ForInStatement
                | NodeKind::WhileStatement | NodeKind::DoStatement => true,
                _ => false,
            } {
                true
            } else {
                is_in_ctrl_flow(tree, p)
            }
        },
        None => false,
    }
}

/// The index of the annotation comment that belongs to node `i`: the
/// next-sibling comment of the node or of its nearest ancestor that has
/// one; for a formal parameter, failing that, the comment that opens the
/// function body.
pub fn get_annot(tree: &SyntaxTree, i: usize) -> (r: Option<usize>)
    requires
        tree.wf(),
        i < tree.nodes@.len(),
    ensures
        r matches Some(j) ==> annot_index(tree.nodes@, i as int) == Some(j as int),
        r is None ==> annot_index(tree.nodes@, i as int) is None,
        r matches Some(j) ==> j < tree.nodes@.len(),
{
    match tree.ancestor_comment(i) {
        Some(j) => Some(j),
        None => tree.header_comment(i),
    }
}

} // verus!

verus! {

/// The index of the nearest record before `k` whose id is `pid`.
pub open spec fn nearest(raw: Seq<RawNode>, pid: usize, k: int) -> Option<int>
    decreases k,
{
    if k <= 0 {
        None
    } else if raw[k - 1].id == pid {
        Some(k - 1)
    } else {
        nearest(raw, pid, k - 1)
    }
}

/// The index of record `i`'s parent: the nearest earlier record with the
/// parent's id.
pub open spec fn parent_index(raw: Seq<RawNode>, i: int) -> Option<int> {
    match raw[i].parent {
        None => None,
        Some(pid) => nearest(raw, pid, i),
    }
}

/// Every parent id names an earlier record.
pub open spec fn parents_found(raw: Seq<RawNode>) -> bool {
    forall|i: int|
        0 <= i < raw.len() && (#[trigger] raw[i]).parent is Some ==> parent_index(raw, i) is Some
}

/// Every position can be made 1-based.
pub open spec fn positions_fit(raw: Seq<RawNode>) -> bool {
    forall|i: int|
        0 <= i < raw.len() ==> (#[trigger] raw[i]).row < usize::MAX && raw[i].column < usize::MAX
}

/// Record `k` lies outside the subtree of record `i`: its parent, if any,
/// comes before `i`.
pub open spec fn stops(raw: Seq<RawNode>, i: int, k: int) -> bool {
    match parent_index(raw, k) {
        None => true,
        Some(q) => q < i,
    }
}

/// The first record from `k` on that lies outside the subtree of `i`, or
/// the end.
pub open spec fn extent(raw: Seq<RawNode>, i: int, k: int) -> int
    decreases raw.len() - k,
{
    if k >= raw.len() || k < 0 {
        raw.len() as int
    } else if stops(raw, i, k) {
        k
    } else {
        extent(raw, i, k + 1)
    }
}

/// The end (exclusive) of record `i`'s subtree.
pub open spec fn subtree_end(raw: Seq<RawNode>, i: int) -> int {
    extent(raw, i, i + 1)
}

/// Every record lies inside its parent's subtree: the records are in
/// pre-order.
pub open spec fn preorder(raw: Seq<RawNode>) -> bool {
    forall|i: int|
        0 <= i < raw.len() ==> match #[trigger] parent_index(raw, i) {
            Some(p) => i < subtree_end(raw, p),
            None => true,
        }
}

proof fn lemma_nearest(raw: Seq<RawNode>, pid: usize, k: int)
    requires
        k <= raw.len(),
    ensures
        nearest(raw, pid, k) matches Some(j) ==> 0 <= j < k,
    decreases k,
{
    if k > 0 && raw[k - 1].id != pid {
        lemma_nearest(raw, pid, k - 1);
    }
}

proof fn lemma_extent(raw: Seq<RawNode>, i: int, k: int)
    requires
        0 <= k <= raw.len(),
    ensures
        k <= extent(raw, i, k) <= raw.len(),
        extent(raw, i, k) < raw.len() ==> stops(raw, i, extent(raw, i, k)),
    decreases raw.len() - k,
{
    if k < raw.len() && !stops(raw, i, k) {
        lemma_extent(raw, i, k + 1);
    }
}

proof fn lemma_extent_le(raw: Seq<RawNode>, j: int, k: int, x: int)
    requires
        0 <= k <= x < raw.len(),
        stops(raw, j, x),
    ensures
        extent(raw, j, k) <= x,
    decreases x - k,
{
    if k < x && !stops(raw, j, k) {
        lemma_extent_le(raw, j, k + 1, x);
    }
}

/// The index of the nearest earlier record whose parser id is `id`.
fn find_parent(raw: &Vec<RawNode>, i: usize, id: usize) -> (r: Option<usize>)
    requires
        i <= raw@.len(),
    ensures
        r matches Some(j) ==> nearest(raw@, id, i as int) == Some(j as int) && j < i,
        r is None ==> nearest(raw@, id, i as int) is None,
{
    let mut k: usize = i;
    while k > 0
        invariant
            k <= i,
            i <= raw@.len(),
            nearest(raw@, id, i as int) == nearest(raw@, id, k as int),
        decreases k,
    {
        if raw[k - 1].id == id {
            return Some(k - 1);
        }
        k = k - 1;
    }
    None
}

/// Builds the tree from the parser's nodes in pre-order: a node's parent is
/// the nearest earlier node with the parent's id, its subtree runs up to the
/// first later node whose parent comes before it, and positions become
/// 1-based. `Some` exactly where every parent id names an earlier node,
/// every position fits once made 1-based, and the nodes are in pre-order.
pub fn from_raw(raw: &Vec<RawNode>) -> (r: Option<SyntaxTree>)
    ensures
        r is Some <==> parents_found(raw@) && positions_fit(raw@) && preorder(raw@),
        r matches Some(t) ==> {
            &&& t.wf()
            &&& t.nodes@.len() == raw@.len()
            &&& forall|i: int|
                0 <= i < raw@.len() ==> {
                    &&& (#[trigger] t.nodes@[i]).kind == kind_of(raw@[i].kind@)
                    &&& t.nodes@[i].text@ == raw@[i].text@
                    &&& t.nodes@[i].row == raw@[i].row + 1
                    &&& t.nodes@[i].column == raw@[i].column + 1
                    &&& t.nodes@[i].end == subtree_end(raw@, i)
                    &&& match parent_index(raw@, i) {
                        None => t.nodes@[i].parent is None,
                        Some(p) => t.nodes@[i].parent == Some(p as usize),
                    }
                }
        },
{
    let ghost rs = raw@;
    let n = raw.len();
    let mut parents: Vec<Option<usize>> = Vec::new();
    let mut i: usize = 0;
    while i < n
        invariant
            rs == raw@,
            n == rs.len(),
            i <= n,
            parents@.len() == i,
            forall|k: int| 0 <= k < i && (#[trigger] rs[k]).parent is Some ==> parent_index(rs, k) is Some,
            forall|k: int|
                0 <= k < i ==> ((#[trigger] parents@[k]) is None <==> parent_index(rs, k) is None)
                    && (parents@[k] matches Some(q) ==> parent_index(rs, k) == Some(q as int) && q < k),
        decreases n - i,
    {
        match raw[i].parent {
            None => parents.push(None),
            Some(pid) => match find_parent(raw, i, pid) {
                Some(j) => {
                    parents.push(Some(j));
                },
                None => {
                    assert(!parents_found(rs));
                    return None;
                },
            },
        }
        i = i + 1;
    }
    let mut ends: Vec<usize> = Vec::new();
    let mut i: usize = 0;
    while i < n
        invariant
            rs == raw@,
            n == rs.len(),
            i <= n,
            parents@.len() == n,
            ends@.len() == i,
            forall|k: int|
                0 <= k < n ==> ((#[trigger] parents@[k]) is None <==> parent_index(rs, k) is None)
                    && (parents@[k] matches Some(q) ==> parent_index(rs, k) == Some(q as int)
                    && q < k),
            forall|k: int| 0 <= k < i ==> #[trigger] ends@[k] as int == subtree_end(rs, k),
        decreases n - i,
    {
        let mut k: usize = i + 1;
        while k < n
            invariant
                rs == raw@,
                n == rs.len(),
                i < n,
                i + 1 <= k <= n,
                parents@.len() == n,
                forall|m: int|
                    0 <= m < n ==> ((#[trigger] parents@[m]) is None <==> parent_index(rs, m) is None)
                        && (parents@[m] matches Some(q) ==> parent_index(rs, m) == Some(q as int)
                        && q < m),
                subtree_end(rs, i as int) == extent(rs, i as int, k as int),
            ensures
                subtree_end(rs, i as int) == k as int,
            decreases n - k,
        {
            let outside = match parents[k] {
                None => true,
                Some(q) => q < i,
            };
            if outside {
                break;
            }
            k = k + 1;
        }
        ends.push(k);
        i = i + 1;
    }
    let mut i: usize = 0;
    while i < n
        invariant
            rs == raw@,
            n == rs.len(),
            i <= n,
            parents@.len() == n,
            ends@.len() == n,
            forall|k: int|
                0 <= k < n ==> ((#[trigger] parents@[k]) is None <==> parent_index(rs, k) is None)
                    && (parents@[k] matches Some(q) ==> parent_index(rs, k) == Some(q as int)
                    && q < k),
            forall|k: int| 0 <= k < n ==> #[trigger] ends@[k] as int == subtree_end(rs, k),
            forall|k: int|
                0 <= k < i ==> match #[trigger] parent_index(rs, k) {
                    Some(p) => k < subtree_end(rs, p),
                    None => true,
                },
        decreases n - i,
    {
        match parents[i] {
            Some(p) => {
                if !(i < ends[p]) {
                    assert(!preorder(rs)) by {
                        assert(parent_index(rs, i as int) == Some(p as int));
                    }
                    return None;
                }
            },
            None => {},
        }
        i = i + 1;
    }
    let mut nodes: Vec<Node> = Vec::new();
    let mut i: usize = 0;
    while i < n
        invariant
            rs == raw@,
            n == rs.len(),
            i <= n,
            parents@.len() == n,
            ends@.len() == n,
            nodes@.len() == i,
            preorder(rs),
            forall|k: int|
                0 <= k < n ==> ((#[trigger] parents@[k]) is None <==> parent_index(rs, k) is None)
                    && (parents@[k] matches Some(q) ==> parent_index(rs, k) == Some(q as int)
                    && q < k),
            forall|k: int| 0 <= k < n ==> #[trigger] ends@[k] as int == subtree_end(rs, k),
            forall|k: int| 0 <= k < i ==> (#[trigger] rs[k]).row < usize::MAX && rs[k].column < usize::MAX,
            forall|k: int|
                0 <= k < i ==> {
                    &&& (#[trigger] nodes@[k]).kind == kind_of(rs[k].kind@)
                    &&& nodes@[k].text@ == rs[k].text@
                    &&& nodes@[k].row == rs[k].row + 1
                    &&& nodes@[k].column == rs[k].column + 1
                    &&& nodes@[k].parent == parents@[k]
                    &&& nodes@[k].end == ends@[k]
                },
        decreases n - i,
    {
        let r = &raw[i];
        if r.row == usize::MAX || r.column == usize::MAX {
            assert(!positions_fit(rs)) by {
                assert(rs[i as int].row == usize::MAX || rs[i as int].column == usize::MAX);
            }
            return None;
        }
        nodes.push(
            Node {
                kind: classify(r.kind.as_str()),
                text: r.text.clone(),
                row: r.row + 1,
                column: r.column + 1,
                parent: parents[i],
                end: ends[i],
            },
        );
        i = i + 1;
    }
    proof {
        let ns = nodes@;
        assert(parents_found(rs)) by {
            assert forall|k: int| 0 <= k < rs.len() && (#[trigger] rs[k]).parent is Some implies parent_index(rs, k) is Some by {
                if parent_index(rs, k) is None {
                    assert(parents@[k] is None);
                }
            }
        }
        assert forall|k: int| 0 <= k < ns.len() implies k < #[trigger] ns[k].end <= ns.len() by {
            lemma_extent(rs, k, k + 1);
        }
        assert forall|k: int| 0 <= k < ns.len() implies #[trigger] parent_ok(ns, k) by {
            assert(ns[k].parent == parents@[k]);
        }
        assert forall|a: int, b: int| 0 <= a < b < ns[a].end && a < ns.len() implies #[trigger] ns[b].end
            <= #[trigger] ns[a].end by {
            lemma_extent(rs, a, a + 1);
            lemma_extent(rs, b, b + 1);
            let ea = subtree_end(rs, a);
            if ea < rs.len() {
                lemma_extent_le(rs, b, b + 1, ea);
            }
        }
        reveal(wf_nodes);
    }
    Some(SyntaxTree { nodes })
}

/// Whether the parser hands back a tree for `code`. It does for all code it
/// is given; what the grammar cannot fit shows as error nodes in the tree.
pub uninterp spec fn js_parses(code: Seq<char>) -> bool;

/// Relies on `tree_sitter::Parser` with the grammar of
/// `tree_sitter_javascript::language()`, and on
/// `tree_sitter_traversal::traverse` in pre-order over the tree it gives:
/// each node's kind name, text, start position, id and parent's id, one
/// record per node in pre-order; `None` where the grammar cannot be loaded
/// or the parser gives no tree, which depends on the code alone.
#[verifier::external_body]
pub fn get_nodes(code: &str) -> (r: Option<Vec<RawNode>>)
    ensures
        r is Some == js_parses(code@),
{
    let mut parser = tree_sitter::Parser::new();
    parser.set_language(tree_sitter_javascript::language()).ok()?;
    let tree = parser.parse(code, None)?;
    let order = tree_sitter_traversal::Order::Pre;
    Some(tree_sitter_traversal::traverse(tree.walk(), order).map(|n: tree_sitter::Node| RawNode {
        kind: n.kind().to_string(),
        text: n.utf8_text(code.as_bytes()).unwrap_or("").to_string(),
        row: n.start_position().row,
        column: n.start_position().column,
        id: n.id(),
        parent: n.parent().map(|p| p.id()),
    }).collect())
}

/// No node of the tree is an error node.
pub open spec fn error_free(n: Seq<Node>) -> bool {
    forall|i: int| 0 <= i < n.len() ==> (#[trigger] n[i]).kind != NodeKind::Error
}

/// Parses JavaScript source into the tree model; `None` where the parser
/// gives no tree, where its nodes do not form one, or where the tree holds
/// an error node (source the grammar cannot fit).
pub fn parse(code: &str) -> (r: Option<SyntaxTree>)
    ensures
        r matches Some(t) ==> t.wf() && error_free(t.nodes@),
        r is Some ==> js_parses(code@),
{
    let t = match get_nodes(code) {
        None => return None,
        Some(raw) => match from_raw(&raw) {
            None => return None,
            Some(t) => t,
        },
    };
    let mut i: usize = 0;
    while i < t.nodes.len()
        invariant
            i <= t.nodes@.len(),
            forall|k: int| 0 <= k < i ==> (#[trigger] t.nodes@[k]).kind != NodeKind::Error,
        decreases t.nodes@.len() - i,
    {
        if t.nodes[i].kind == NodeKind::Error {
            return None;
        }
        i = i + 1;
    }
    Some(t)
}

} // verus!
