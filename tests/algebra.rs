use jstypecheck::kinds::{JSOp, JSTyp, ViolationClass};

const ALL: [JSTyp; 9] = [
    JSTyp::Unknown,
    JSTyp::Bool,
    JSTyp::Null,
    JSTyp::Undefined,
    JSTyp::Number,
    JSTyp::BigInt,
    JSTyp::String,
    JSTyp::Symbol,
    JSTyp::Object,
];

#[test]
fn op_tokens() {
    assert_eq!(JSOp::Eq.to_string(), "==");
    assert_eq!(JSOp::StrictNeq.to_string(), "!==");
    assert_eq!(JSOp::Ge.to_string(), ">=");
    assert_eq!(JSOp::Div.to_string(), "/");
}

#[test]
fn add_table() {
    assert_eq!(JSTyp::Number.add(JSTyp::Number), JSTyp::Number);
    assert_eq!(JSTyp::String.add(JSTyp::Number), JSTyp::String);
    assert_eq!(JSTyp::Bool.add(JSTyp::String), JSTyp::String);
    assert_eq!(JSTyp::BigInt.add(JSTyp::BigInt), JSTyp::BigInt);
    assert_eq!(JSTyp::BigInt.add(JSTyp::Object), JSTyp::String);
    assert_eq!(JSTyp::BigInt.add(JSTyp::Number), JSTyp::BigInt);
    assert_eq!(JSTyp::Object.add(JSTyp::Null), JSTyp::String);
    assert_eq!(JSTyp::Null.add(JSTyp::Bool), JSTyp::Number);
    assert_eq!(JSTyp::Unknown.add(JSTyp::String), JSTyp::Unknown);
}

#[test]
fn sub_mul_div_table() {
    assert_eq!(JSTyp::Number.sub(JSTyp::Bool), JSTyp::Number);
    assert_eq!(JSTyp::BigInt.mul(JSTyp::BigInt), JSTyp::BigInt);
    assert_eq!(JSTyp::BigInt.div(JSTyp::Number), JSTyp::BigInt);
    assert_eq!(JSTyp::Object.sub(JSTyp::Number), JSTyp::String);
    assert_eq!(JSTyp::Number.sub_mul_div(JSTyp::Unknown), JSTyp::Unknown);
    assert_eq!(JSTyp::Symbol.sub(JSTyp::Number), JSTyp::Unknown);
}

#[test]
fn same_kind() {
    assert!(JSTyp::Number.is_same_typ(&JSTyp::Number));
    assert!(!JSTyp::Number.is_same_typ(&JSTyp::String));
    assert!(!JSTyp::Unknown.is_same_typ(&JSTyp::Unknown));
}

#[test]
fn comparison_violations() {
    assert_eq!(JSOp::Eq.execute(&JSTyp::String, &JSTyp::Number), (JSTyp::Bool, Some(ViolationClass::Cmp)));
    assert_eq!(JSOp::Lt.execute(&JSTyp::Number, &JSTyp::Number), (JSTyp::Bool, None));
    assert_eq!(JSOp::Neq.execute(&JSTyp::Unknown, &JSTyp::Number), (JSTyp::Bool, None));
    assert_eq!(JSOp::StrictEq.execute(&JSTyp::String, &JSTyp::Number), (JSTyp::Bool, None));
}

#[test]
fn arithmetic_violations() {
    assert_eq!(JSOp::Add.execute(&JSTyp::String, &JSTyp::String), (JSTyp::String, None));
    assert_eq!(
        JSOp::Add.execute(&JSTyp::String, &JSTyp::Number),
        (JSTyp::String, Some(ViolationClass::Arithmetic))
    );
    assert_eq!(JSOp::Sub.execute(&JSTyp::Number, &JSTyp::Number), (JSTyp::Number, None));
    assert_eq!(
        JSOp::Mul.execute(&JSTyp::Number, &JSTyp::Bool),
        (JSTyp::Number, Some(ViolationClass::Arithmetic))
    );
    assert_eq!(JSOp::Div.execute(&JSTyp::Unknown, &JSTyp::Symbol), (JSTyp::Unknown, None));
}

#[test]
fn algebra_is_total_and_deterministic() {
    let ops = [
        JSOp::Eq, JSOp::Neq, JSOp::StrictEq, JSOp::StrictNeq, JSOp::Gt, JSOp::Ge, JSOp::Lt,
        JSOp::Le, JSOp::Add, JSOp::Sub, JSOp::Mul, JSOp::Div,
    ];
    for op in ops.iter() {
        for a in ALL.iter() {
            for b in ALL.iter() {
                assert_eq!(op.execute(a, b), op.execute(a, b));
            }
        }
    }
}

#[test]
fn kind_names() {
    assert_eq!(JSTyp::BigInt.name(), "BigInt");
    assert_eq!(JSTyp::Undefined.name(), "Undefined");
}
