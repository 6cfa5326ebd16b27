use jstypecheck::callgraph::gather_callsites;
use jstypecheck::infer::{find_function, number2typ, run_func, InferError};
use jstypecheck::env::VarMap;
use jstypecheck::kinds::JSTyp;
use jstypecheck::report::Diagnostic;
use jstypecheck::syntax::{from_raw, get_next_node, get_nodes, is_in_ctrl_flow, parse, NodeKind, RawNode};

#[test]
fn parser_gives_pre_order_tree() {
    let t = parse("let a = 1;").unwrap();
    let kinds: Vec<NodeKind> = t.nodes.iter().map(|n| n.kind()).collect();
    assert_eq!(kinds[0], NodeKind::Program);
    assert_eq!(kinds[1], NodeKind::LexicalDeclaration);
    assert!(kinds.contains(&NodeKind::VariableDeclarator));
    assert!(kinds.contains(&NodeKind::Number));
    assert_eq!(t.nodes[0].end, t.nodes.len());
    let ident = t.nodes.iter().position(|n| n.kind == NodeKind::Identifier).unwrap();
    assert_eq!(t.nodes[ident].text, "a");
    assert_eq!((t.nodes[ident].row, t.nodes[ident].column), (1, 5));
    assert!(!is_in_ctrl_flow(&t, ident));
}

#[test]
fn raw_nodes_from_parser() {
    let raw = get_nodes("x;").unwrap();
    assert_eq!(raw[0].kind, "program");
    assert_eq!(raw[0].parent, None);
    assert!(raw.iter().any(|r| r.kind == "identifier" && r.text == "x"));
}

#[test]
fn from_raw_rejects_unknown_parent() {
    let raw = vec![
        RawNode { kind: "program".to_string(), text: String::new(), row: 0, column: 0, id: 1, parent: None },
        RawNode { kind: "identifier".to_string(), text: "x".to_string(), row: 0, column: 0, id: 2, parent: Some(9) },
    ];
    assert!(from_raw(&raw).is_none());
    let ok = vec![
        RawNode { kind: "program".to_string(), text: String::new(), row: 0, column: 0, id: 1, parent: None },
        RawNode { kind: "identifier".to_string(), text: "x".to_string(), row: 0, column: 0, id: 2, parent: Some(1) },
    ];
    let t = from_raw(&ok).unwrap();
    assert_eq!(t.nodes[0].end, 2);
    assert_eq!(t.nodes[1].parent, Some(0));
}

#[test]
fn branch_nodes_are_in_control_flow() {
    let t = parse("if (c) {\n  x = 1;\n}\n").unwrap();
    let x = t.nodes.iter().position(|n| n.kind == NodeKind::Identifier && n.text == "x").unwrap();
    assert!(is_in_ctrl_flow(&t, x));
}

#[test]
fn callsites_with_literal_kinds() {
    let t = parse("foo(1, \"s\", 2n, null, undefined, true, {}, Symbol(\"k\"), y);\nbar(1);\nfoo();\n").unwrap();
    let sites = gather_callsites("foo", &t);
    assert_eq!(sites.len(), 2);
    assert_eq!(
        sites[0].1,
        vec![
            JSTyp::Number,
            JSTyp::String,
            JSTyp::BigInt,
            JSTyp::Null,
            JSTyp::Undefined,
            JSTyp::Bool,
            JSTyp::Object,
            JSTyp::Symbol
        ]
    );
    assert!(sites[1].1.is_empty());
}

#[test]
fn number_literal_kinds() {
    let t = parse("1n; 2;").unwrap();
    let nums: Vec<JSTyp> = t.nodes.iter().filter(|n| n.kind == NodeKind::Number).map(|n| number2typ(n)).collect();
    assert_eq!(nums, vec![JSTyp::BigInt, JSTyp::Number]);
}

#[test]
fn run_func_rejects_other_nodes() {
    let t = parse("let a = 1;").unwrap();
    let mut vars = VarMap::new();
    let mut out = Vec::new();
    let mut diags = Vec::new();
    assert_eq!(run_func(&mut vars, &vec![], &t, 1, &mut out, &mut diags), Err(InferError::NotAFunction(1)));
    assert_eq!(find_function(&t, "foo"), None);
}

#[test]
fn missing_parameter_kind_is_undefined() {
    let code = "function foo(a, b) {\n  let t = 0;\n  a + b;\n}\nfoo(1);\n";
    let d = jstypecheck::debloat::debloat(code, "in.js").unwrap();
    let t = parse(&d).unwrap();
    let a = jstypecheck::infer::analyze(&t, "foo").unwrap();
    assert_eq!(a.vars.read_var(0, "b_1_1"), Some(JSTyp::Undefined));
    assert_eq!(a.violations.len(), 1);
    assert_eq!(a.violations[0].rhs, JSTyp::Undefined);
}

#[test]
fn annotation_missing_is_an_error() {
    let t = parse("function foo(a) {\n  let x = 1;\n}\n").unwrap();
    let f = find_function(&t, "foo").unwrap();
    let mut vars = VarMap::new();
    let mut out = Vec::new();
    let mut diags = Vec::new();
    assert!(matches!(
        run_func(&mut vars, &vec![JSTyp::Number], &t, f, &mut out, &mut diags),
        Err(InferError::Annotation(_, _))
    ));
}

#[test]
fn next_node_is_following_sibling() {
    let t = parse("let a = 1;\nlet b = 2;\n").unwrap();
    let first = 1;
    assert_eq!(t.nodes[first].kind, NodeKind::LexicalDeclaration);
    let second = get_next_node(&t, first).unwrap();
    assert_eq!(t.nodes[second].kind, NodeKind::LexicalDeclaration);
    assert_eq!(t.nodes[second].row, 2);
    assert_eq!(get_next_node(&t, second), None);
    assert_eq!(get_next_node(&t, 0), None);
}

#[test]
fn unknown_reads_and_unsupported_expressions_are_diagnosed() {
    let code = "function foo(a) {\n  let t = 0;\n  a - zz;\n  a.b + 1;\n}\nfoo(1);\n";
    let d = jstypecheck::debloat::debloat(code, "in.js").unwrap();
    let t = parse(&d).unwrap();
    let a = jstypecheck::infer::analyze(&t, "foo").unwrap();
    assert!(a.violations.is_empty());
    assert_eq!(a.diagnostics.len(), 2);
    assert!(matches!(a.diagnostics[0], Diagnostic::UnknownVariable(_)));
    assert!(matches!(a.diagnostics[1], Diagnostic::Unsupported(_)));
}

#[test]
fn annotation_is_the_next_sibling_comment() {
    let t = parse("x = 1;\n// [Loc] a.js:1:1, [Parent-ID] 4,\ny = 2; z = 3; // [Loc] a.js:3:1, [Parent-ID] 9,\n").unwrap();
    let first = 1;
    assert_eq!(t.nodes[first].kind, NodeKind::ExpressionStatement);
    let c = jstypecheck::syntax::get_annot(&t, first).unwrap();
    assert_eq!(jstypecheck::annot::get_parent_id(&t.nodes[c].text), Ok(4));
    let y = t.nodes.iter().position(|n| n.kind == NodeKind::Identifier && n.text == "y").unwrap();
    assert_eq!(jstypecheck::syntax::get_annot(&t, y), None);
    let z = t.nodes.iter().position(|n| n.kind == NodeKind::Identifier && n.text == "z").unwrap();
    assert!(jstypecheck::syntax::get_annot(&t, z).is_some());
}

#[test]
fn from_raw_rejects_records_out_of_pre_order() {
    let rec = |id: usize, parent: Option<usize>| RawNode {
        kind: "x".to_string(),
        text: String::new(),
        row: 0,
        column: 0,
        id,
        parent,
    };
    let raw = vec![rec(1, None), rec(2, Some(1)), rec(3, None), rec(4, Some(2))];
    assert!(from_raw(&raw).is_none());
    let raw = vec![rec(1, None), rec(2, Some(1)), rec(4, Some(2)), rec(3, Some(1))];
    let t = from_raw(&raw).unwrap();
    assert_eq!(t.nodes.iter().map(|n| n.end).collect::<Vec<_>>(), vec![4, 3, 3, 4]);
}

#[test]
fn header_annotation_serves_parameters_only() {
    let t = parse("function f(a) { // [Loc] x.js:1:1, [Parent-ID] 3,\n}\n").unwrap();
    let a = t.nodes.iter().position(|n| n.kind == NodeKind::Identifier && n.text == "a").unwrap();
    let c = jstypecheck::syntax::get_annot(&t, a).unwrap();
    assert_eq!(jstypecheck::annot::get_parent_id(&t.nodes[c].text), Ok(3));
    let f = t.nodes.iter().position(|n| n.kind == NodeKind::Identifier && n.text == "f").unwrap();
    assert_eq!(jstypecheck::syntax::get_annot(&t, f), None);
}
