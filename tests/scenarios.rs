use jstypecheck::debloat::debloat;
use jstypecheck::infer::{analyze, Analysis};
use jstypecheck::kinds::{JSOp, JSTyp, ViolationClass};
use jstypecheck::report::{report_line, report_typ_op_violation, ViolationHistory};
use jstypecheck::syntax::parse;

fn run(code: &str) -> (String, Analysis) {
    let debloated = debloat(code, "in.js").expect("source parses");
    let tree = parse(&debloated).expect("debloated source parses");
    let analysis = analyze(&tree, "foo").expect("analysis succeeds");
    (debloated, analysis)
}

#[test]
fn arithmetic_violation_number_minus_bool() {
    let (_, a) = run("function foo(a){ let x = 1; let y = \"s\"; x - a; }\nfoo(true);\n");
    assert_eq!(a.violations.len(), 1);
    let v = a.violations[0];
    assert_eq!(v.lhs, JSTyp::Number);
    assert_eq!(v.op, JSOp::Sub);
    assert_eq!(v.rhs, JSTyp::Bool);
    assert_eq!(v.class, ViolationClass::Arithmetic);
}

#[test]
fn arithmetic_violation_multiline_function() {
    let (_, a) = run("function foo(a) {\n  let x = 1;\n  let y = \"s\";\n  x - a;\n}\nfoo(true);\n");
    assert_eq!(a.violations.len(), 1);
    assert_eq!(a.violations[0].lhs, JSTyp::Number);
    assert_eq!(a.violations[0].rhs, JSTyp::Bool);
}

#[test]
fn branch_join_reads_unknown() {
    let (_, a) = run(
        "function foo(a){ if(a) { a = 1; } else { a = \"s\"; } a + 1; }\nfoo(true);\n",
    );
    assert!(a.violations.is_empty());
    let (_, b) = run(
        "function foo(a) {\n  if (a) {\n    a = 1;\n  } else {\n    a = \"s\";\n  }\n  a + 1;\n}\nfoo(true);\n",
    );
    assert!(b.violations.is_empty());
    let e = b.vars.entries.iter().find(|e| e.name == "a_1_1").unwrap();
    let kinds: Vec<JSTyp> = e.kinds.iter().map(|k| k.kind).collect();
    assert_eq!(kinds, vec![JSTyp::Bool, JSTyp::Number, JSTyp::String]);
}

#[test]
fn symbol_plus_number() {
    let (_, a) = run("function foo(){ let a = Symbol(\"k\"); a + 1; }\n");
    assert_eq!(a.violations.len(), 1);
    let v = a.violations[0];
    assert_eq!((v.lhs, v.op, v.rhs), (JSTyp::Symbol, JSOp::Add, JSTyp::Number));
    assert_eq!(v.class, ViolationClass::Arithmetic);
}

#[test]
fn loose_equality_mismatch_on_parameter() {
    let (_, a) = run("function foo(a){ a == 1; }\nfoo(\"s\");\n");
    assert_eq!(a.violations.len(), 1);
    let v = a.violations[0];
    assert_eq!((v.lhs, v.op, v.rhs), (JSTyp::String, JSOp::Eq, JSTyp::Number));
    assert_eq!(v.class, ViolationClass::Cmp);
    assert!(a.diagnostics.is_empty());
}

#[test]
fn loose_equality_mismatch() {
    let (_, a) = run("function foo(a){ let t = 0; a == 1; }\nfoo(\"s\");\n");
    assert_eq!(a.violations.len(), 1);
    let v = a.violations[0];
    assert_eq!((v.lhs, v.op, v.rhs), (JSTyp::String, JSOp::Eq, JSTyp::Number));
    assert_eq!(v.class, ViolationClass::Cmp);
}

#[test]
fn strict_equality_exempt() {
    let (_, a) = run("function foo(a){ a === 1; }\nfoo(\"s\");\n");
    assert!(a.violations.is_empty());
}

#[test]
fn debloat_renames_by_scope() {
    let code = "function foo() {\n  let a = 1;\n  {\n    let a = 2;\n    a = 3;\n  }\n  let a = 4;\n}\n";
    let d = debloat(code, "in.js").unwrap();
    let stmts: Vec<String> = d
        .lines()
        .map(|l| l.split(" // ").next().unwrap().to_string())
        .collect();
    assert_eq!(
        stmts,
        vec![
            "function foo ( ) {",
            "let a_1_1 = 1 ;",
            "let a_2_1 = 2 ;",
            "a_2_1 = 3 ;",
            "let a_1_1 = 4 ;",
            "}",
        ]
    );
    let lines: Vec<&str> = d.lines().collect();
    assert_eq!(lines[1], "let a_1_1 = 1 ; // [Loc] in.js:2:3, [Non-branch], [Parent-ID] 9,");
}

#[test]
fn debloated_file_reparses() {
    let code = "function foo(a) {\n  if (a) {\n    let b = 1;\n  } else {\n    a = 2;\n  }\n  while (a) {\n    a = a - 1;\n  }\n  do {\n    a = a + 1;\n  } while (a < 3);\n  return a;\n}\nfoo(3);\n";
    assert!(parse(code).is_some());
    assert!(parse("let = ;").is_none());
    let d = debloat(code, "in.js").unwrap();
    assert!(parse(&d).is_some());
    for l in d.lines() {
        assert!(l == "}" || (l.matches("[Loc]").count() == 1 && l.matches("[Parent-ID]").count() == 1));
    }
}

#[test]
fn flattened_file_keeps_statements() {
    let code = "let a = 1;\nlet b = 2;\na = b + 1;\n";
    let d = debloat(code, "in.js").unwrap();
    let stmts: Vec<String> = d
        .lines()
        .map(|l| l.split(" // ").next().unwrap().replace(' ', ""))
        .collect();
    assert_eq!(stmts, vec!["leta_0_0=1;", "letb_0_0=2;", "a_0_0=b_0_0+1;"]);
    let again = debloat(&d, "in.js").unwrap();
    let stmts2: Vec<String> = again
        .lines()
        .map(|l| l.split(" // ").next().unwrap().replace(' ', ""))
        .collect();
    assert_eq!(stmts2.len(), 3);
}

#[test]
fn empty_function_body() {
    let (_, a) = run("function foo() {\n}\n");
    assert!(a.violations.is_empty());
    assert!(a.vars.entries.is_empty());
}

#[test]
fn non_branch_reassignment_is_singleton() {
    let (_, a) = run("function foo() {\n  let x = 1;\n  x = \"s\";\n  x - 1;\n}\n");
    let e = a.vars.entries.iter().find(|e| e.name == "x_1_1").unwrap();
    assert_eq!(e.kinds.len(), 1);
    assert_eq!(e.kinds[0].kind, JSTyp::String);
    assert_eq!(a.violations.len(), 1);
    assert_eq!(a.violations[0].lhs, JSTyp::String);
}

#[test]
fn report_names_location_and_source() {
    let code = "function foo(a) {\n  let t = 0;\n  a == 1;\n}\nfoo(\"s\");\n";
    let d = debloat(code, "in.js").unwrap();
    let tree = parse(&d).unwrap();
    let a = analyze(&tree, "foo").unwrap();
    let mut h = ViolationHistory::new();
    report_typ_op_violation(&mut h, &tree, &a.violations[0]).unwrap();
    let reports = h.get_report_history();
    assert_eq!(reports.len(), 1);
    assert_eq!(reports[0].loc, "in.js:3:3");
    let line = report_line(&reports[0].violation, "  a == 1;", &reports[0].loc);
    assert_eq!(line, "[Detected cmp violation] String == Number \n  a == 1; (in.js:3:3)");
}
