use jstypecheck::annot::{get_loc, get_parent_id, is_non_branch, AnnotError};
use jstypecheck::env::{insert_var, is_overwritable, is_set, overwrite_var, varmap_to_string, VarMap};
use jstypecheck::instrument::gen_assert;
use jstypecheck::kinds::JSTyp;
use jstypecheck::report::{source_line, split_loc};
use jstypecheck::scope::{get_scoped_ident, IdentRole, ScopeEnv};
use jstypecheck::text::{parse_usize, usize_to_decimal};

#[test]
fn annotation_fields() {
    let a = "// [Loc] src/a.js:3:5, [Non-branch], [Parent-ID] 42,";
    assert_eq!(get_loc(a), Ok("src/a.js:3:5"));
    assert_eq!(get_parent_id(a), Ok(42));
    assert!(is_non_branch(a));
    let b = "// [Loc] a.js:1:1, [Parent-ID] 7,";
    assert!(!is_non_branch(b));
    assert_eq!(get_parent_id(b), Ok(7));
}

#[test]
fn annotation_errors() {
    assert_eq!(get_loc("// nothing"), Err(AnnotError::AnnotationMissing));
    assert_eq!(get_loc("// [Loc] a.js:1:1"), Err(AnnotError::AnnotationParse));
    assert_eq!(get_parent_id("// [Loc] a.js:1:1,"), Err(AnnotError::AnnotationParse));
    assert_eq!(get_parent_id("// nothing,"), Err(AnnotError::AnnotationMissing));
    assert_eq!(get_parent_id("[Parent-ID] x1,"), Err(AnnotError::AnnotationParse));
    assert_eq!(get_parent_id("[Parent-ID] 12"), Err(AnnotError::AnnotationParse));
}

#[test]
fn decimal_round_trip() {
    assert_eq!(usize_to_decimal(0), "0");
    assert_eq!(usize_to_decimal(1907), "1907");
    assert_eq!(parse_usize("1907"), Some(1907));
    assert_eq!(parse_usize(""), None);
    assert_eq!(parse_usize("12a"), None);
    assert_eq!(parse_usize("99999999999999999999999"), None);
    assert_eq!(parse_usize(&usize::MAX.to_string()), Some(usize::MAX));
}

#[test]
fn union_insert_and_overwrite() {
    let mut vars = VarMap::new();
    insert_var(&mut vars, 0, "x", JSTyp::Number, 1);
    assert_eq!(vars.read_var(0, "x"), Some(JSTyp::Number));
    insert_var(&mut vars, 0, "x", JSTyp::Number, 2);
    assert_eq!(vars.entries[0].kinds.len(), 1);
    insert_var(&mut vars, 0, "x", JSTyp::String, 3);
    assert_eq!(vars.read_var(0, "x"), Some(JSTyp::Unknown));
    assert_eq!(is_overwritable(&vars, 0, "x", 3), (true, Some(JSTyp::String)));
    assert_eq!(is_overwritable(&vars, 0, "x", 9), (false, None));
    assert!(is_set(&vars, 0, "x", &JSTyp::Number));
    assert!(!is_set(&vars, 0, "x", &JSTyp::Bool));
    insert_var(&mut vars, 0, "x", JSTyp::Bool, 3);
    let kinds: Vec<(usize, JSTyp)> = vars.entries[0].kinds.iter().map(|k| (k.introducer, k.kind)).collect();
    assert_eq!(kinds, vec![(1, JSTyp::Number), (3, JSTyp::Bool)]);
    overwrite_var(&mut vars, 0, "x", JSTyp::Null, 4);
    assert_eq!(vars.read_var(0, "x"), Some(JSTyp::Null));
    assert_eq!(vars.read_var(0, "y"), None);
    assert_eq!(vars.read_var(1, "x"), None);
    insert_var(&mut vars, 0, "y", JSTyp::Object, 5);
    assert_eq!(varmap_to_string(&vars), " x: (Null) y: (Object)");
}

#[test]
fn branch_assignments_join() {
    let mut vars = VarMap::new();
    insert_var(&mut vars, 0, "a", JSTyp::Number, 10);
    insert_var(&mut vars, 0, "a", JSTyp::String, 11);
    assert_eq!(vars.entries[0].kinds.len(), 2);
    assert_eq!(vars.read_var(0, "a"), Some(JSTyp::Unknown));
    assert_eq!(varmap_to_string(&vars), " a: (Number, String)");
}

#[test]
fn scope_counter_and_renaming() {
    let mut env = ScopeEnv::new();
    let mut vars: Vec<String> = Vec::new();
    assert_eq!(get_scoped_ident(&mut vars, "p", IdentRole::Param, &mut env), "p_1_1");
    env.enter();
    assert_eq!(env.count_lvl_visited(1), 1);
    assert_eq!(get_scoped_ident(&mut vars, "a", IdentRole::Declared, &mut env), "a_1_1");
    env.enter();
    assert_eq!(get_scoped_ident(&mut vars, "a", IdentRole::Used, &mut env), "a_1_1");
    assert_eq!(get_scoped_ident(&mut vars, "b", IdentRole::Used, &mut env), "b_2_1");
    assert_eq!(get_scoped_ident(&mut vars, "b", IdentRole::Used, &mut env), "b_2_1");
    env.leave();
    env.enter();
    assert_eq!(env.count_lvl_visited(2), 2);
    assert_eq!(get_scoped_ident(&mut vars, "a", IdentRole::Used, &mut env), "a_1_1");
    env.leave();
    env.leave();
    env.leave();
    assert_eq!(env.lvl, 0);
}

#[test]
fn location_and_source_line() {
    assert_eq!(split_loc("dir/a.js:12:4"), Some(("dir/a.js", 12)));
    assert_eq!(split_loc("a.js:7"), Some(("a.js", 7)));
    assert_eq!(split_loc("a.js"), None);
    assert_eq!(split_loc("a.js:x:1"), None);
    let code = "let a = 1;\nlet b = 2;\n\nb + 1;";
    assert_eq!(source_line(code, 2), Some("let b = 2;".to_string()));
    assert_eq!(source_line(code, 3), Some("".to_string()));
    assert_eq!(source_line(code, 4), Some("b + 1;".to_string()));
    assert_eq!(source_line(code, 0), None);
    assert_eq!(source_line(code, 5), None);
}

#[test]
fn assertion_statement() {
    assert_eq!(
        gen_assert("a", "b"),
        "if (typeof(a) !== typeof(b)) throw `type assertion failed ${a} !== ${b}`"
    );
}
