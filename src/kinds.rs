//! The kind lattice and the operator algebra over it.
use vstd::prelude::*;

verus! {

/// The abstract value classes of the analysed language.
#[derive(Debug, Clone, Copy, PartialEq, Eq, Hash, Structural)]
pub enum JSTyp {
    /// Top of the lattice: nothing is known of the value.
    Unknown,
    Bool,
    Null,
    Undefined,
    Number,
    BigInt,
    String,
    Symbol,
    Object,
}

/// The binary operators that the analysis interprets.
#[derive(Debug, Clone, Copy, PartialEq, Eq, Hash, Structural)]
pub enum JSOp {
    Eq,
    Neq,
    StrictEq,
    StrictNeq,
    Gt,
    Ge,
    Lt,
    Le,
    Add,
    Sub,
    Mul,
    Div,
}

/// The two classes of misuse that the algebra detects.
#[derive(Debug, Clone, Copy, PartialEq, Eq, Hash, Structural)]
pub enum ViolationClass {
    /// A loose equality or relational operator on two different known kinds.
    Cmp,
    /// An arithmetic operator outside the sanctioned operand pairs.
    Arithmetic,
}

/// Result kind of `+`. `Unknown` absorbs; a `String` operand gives
/// `String`; `BigInt` stays `BigInt` except with an `Object`, which gives
/// `String`; a `Symbol` operand gives `Unknown`; an `Object` operand gives
/// `String`; anything else gives `Number`.
pub open spec fn add_kind(a: JSTyp, b: JSTyp) -> JSTyp {
    if a == JSTyp::Unknown || b == JSTyp::Unknown {
        JSTyp::Unknown
    } else if a == JSTyp::String || b == JSTyp::String {
        JSTyp::String
    } else if a == JSTyp::BigInt && b == JSTyp::BigInt {
        JSTyp::BigInt
    } else if (a == JSTyp::BigInt && b == JSTyp::Object) || (a == JSTyp::Object && b
        == JSTyp::BigInt) {
        JSTyp::String
    } else if a == JSTyp::BigInt || b == JSTyp::BigInt {
        JSTyp::BigInt
    } else if a == JSTyp::Symbol || b == JSTyp::Symbol {
        JSTyp::Unknown
    } else if a == JSTyp::Object || b == JSTyp::Object {
        JSTyp::String
    } else {
        JSTyp::Number
    }
}

/// Result kind of `-`, `*` and `/`, which share one table. `Unknown`
/// absorbs; two `BigInt`s give `BigInt`; a `Symbol` with another kind gives
/// `Unknown`; a `BigInt` with another kind stays `BigInt`; an `Object`
/// operand gives `String`; anything else gives `Number`.
pub open spec fn sub_mul_div_kind(a: JSTyp, b: JSTyp) -> JSTyp {
    if a == JSTyp::Unknown || b == JSTyp::Unknown {
        JSTyp::Unknown
    } else if a == JSTyp::BigInt && b == JSTyp::BigInt {
        JSTyp::BigInt
    } else if (a == JSTyp::Symbol || b == JSTyp::Symbol) && a != b {
        JSTyp::Unknown
    } else if (a == JSTyp::BigInt || b == JSTyp::BigInt) && a != b {
        JSTyp::BigInt
    } else if a == JSTyp::Object || b == JSTyp::Object {
        JSTyp::String
    } else {
        JSTyp::Number
    }
}

pub open spec fn is_comparison(op: JSOp) -> bool {
    match op {
        JSOp::Eq | JSOp::Neq | JSOp::Gt | JSOp::Ge | JSOp::Lt | JSOp::Le => true,
        _ => false,
    }
}

pub open spec fn is_strict_equality(op: JSOp) -> bool {
    op == JSOp::StrictEq || op == JSOp::StrictNeq
}

/// Whether applying `op` to operand kinds `a` and `b` is a misuse, and of
/// which class. `Unknown` on either side never yields a misuse.
pub open spec fn violation_of(op: JSOp, a: JSTyp, b: JSTyp) -> Option<ViolationClass> {
    if a == JSTyp::Unknown || b == JSTyp::Unknown || is_strict_equality(op) {
        None
    } else if is_comparison(op) {
        if a != b {
            Some(ViolationClass::Cmp)
        } else {
            None
        }
    } else if op == JSOp::Add {
        if (a == JSTyp::Number && b == JSTyp::Number) || (a == JSTyp::String && b
            == JSTyp::String) {
            None
        } else {
            Some(ViolationClass::Arithmetic)
        }
    } else if a == JSTyp::Number && b == JSTyp::Number {
        None
    } else {
        Some(ViolationClass::Arithmetic)
    }
}

/// Result kind of applying `op` to operand kinds `a` and `b`.
pub open spec fn result_of(op: JSOp, a: JSTyp, b: JSTyp) -> JSTyp {
    match op {
        JSOp::Add => add_kind(a, b),
        JSOp::Sub | JSOp::Mul | JSOp::Div => sub_mul_div_kind(a, b),
        _ => JSTyp::Bool,
    }
}

/// The textual operator token.
pub open spec fn op_text(op: JSOp) -> Seq<char> {
    match op {
        JSOp::Eq => "=="@,
        JSOp::Neq => "!="@,
        JSOp::StrictEq => "==="@,
        JSOp::StrictNeq => "!=="@,
        JSOp::Gt => ">"@,
        JSOp::Ge => ">="@,
        JSOp::Lt => "<"@,
        JSOp::Le => "<="@,
        JSOp::Add => "+"@,
        JSOp::Sub => "-"@,
        JSOp::Mul => "*"@,
        JSOp::Div => "/"@,
    }
}

impl JSTyp {
    /// The table shared by `-`, `*` and `/`.
    pub fn sub_mul_div(self, rhs: Self) -> (r: Self)
        ensures
            r == sub_mul_div_kind(self, rhs),
    {
        match (self, rhs) {
            (Self::Unknown, _) | (_, Self::Unknown) => Self::Unknown,
            (Self::BigInt, Self::BigInt) => Self::BigInt,
            (Self::Symbol, Self::Symbol) => Self::Number,
            (Self::Symbol, _) | (_, Self::Symbol) => Self::Unknown,
            (Self::BigInt, _) | (_, Self::BigInt) => Self::BigInt,
            (Self::Object, _) | (_, Self::Object) => Self::String,
            _ => Self::Number,
        }
    }

    /// Structural equality of two kinds where neither is `Unknown`.
    pub fn is_same_typ(&self, other: &Self) -> (r: bool)
        ensures
            r == (*self == *other && *self != JSTyp::Unknown),
    {
        match (self, other) {
            (Self::Bool, Self::Bool)
            | (Self::Null, Self::Null)
            | (Self::Undefined, Self::Undefined)
            | (Self::Number, Self::Number)
            | (Self::BigInt, Self::BigInt)
            | (Self::String, Self::String)
            | (Self::Symbol, Self::Symbol)
            | (Self::Object, Self::Object) => true,
            _ => false,
        }
    }

    /// Result kind of `self + rhs`.
    pub fn add(self, rhs: Self) -> (r: Self)
        ensures
            r == add_kind(self, rhs),
    {
        match (self, rhs) {
            (Self::Unknown, _) | (_, Self::Unknown) => Self::Unknown,
            (Self::String, _) | (_, Self::String) => Self::String,
            (Self::BigInt, Self::BigInt) => Self::BigInt,
            (Self::BigInt, Self::Object) | (Self::Object, Self::BigInt) => Self::String,
            (Self::BigInt, _) | (_, Self::BigInt) => Self::BigInt,
            (Self::Symbol, _) | (_, Self::Symbol) => Self::Unknown,
            (Self::Object, _) | (_, Self::Object) => Self::String,
            _ => Self::Number,
        }
    }

    /// Result kind of `self - rhs`.
    pub fn sub(self, rhs: Self) -> (r: Self)
        ensures
            r == sub_mul_div_kind(self, rhs),
    {
        self.sub_mul_div(rhs)
    }

    /// Result kind of `self * rhs`.
    pub fn mul(self, rhs: Self) -> (r: Self)
        ensures
            r == sub_mul_div_kind(self, rhs),
    {
        self.sub_mul_div(rhs)
    }

    /// Result kind of `self / rhs`.
    pub fn div(self, rhs: Self) -> (r: Self)
        ensures
            r == sub_mul_div_kind(self, rhs),
    {
        self.sub_mul_div(rhs)
    }

    /// The kind's name as it appears in reports.
    pub fn name(&self) -> (r: String)
        ensures
            r@ == kind_name(*self),
    {
        match self {
            Self::Unknown => "Unknown".to_string(),
            Self::Bool => "Bool".to_string(),
            Self::Null => "Null".to_string(),
            Self::Undefined => "Undefined".to_string(),
            Self::Number => "Number".to_string(),
            Self::BigInt => "BigInt".to_string(),
            Self::String => "String".to_string(),
            Self::Symbol => "Symbol".to_string(),
            Self::Object => "Object".to_string(),
        }
    }
}

/// The kind's name as it appears in reports.
pub open spec fn kind_name(t: JSTyp) -> Seq<char> {
    match t {
        JSTyp::Unknown => "Unknown"@,
        JSTyp::Bool => "Bool"@,
        JSTyp::Null => "Null"@,
        JSTyp::Undefined => "Undefined"@,
        JSTyp::Number => "Number"@,
        JSTyp::BigInt => "BigInt"@,
        JSTyp::String => "String"@,
        JSTyp::Symbol => "Symbol"@,
        JSTyp::Object => "Object"@,
    }
}

impl JSOp {
    /// The operator's source token.
    pub fn to_string(&self) -> (r: String)
        ensures
            r@ == op_text(*self),
    {
        match self {
            Self::Eq => "==".to_string(),
            Self::Neq => "!=".to_string(),
            Self::StrictEq => "===".to_string(),
            Self::StrictNeq => "!==".to_string(),
            Self::Gt => ">".to_string(),
            Self::Ge => ">=".to_string(),
            Self::Lt => "<".to_string(),
            Self::Le => "<=".to_string(),
            Self::Add => "+".to_string(),
            Self::Sub => "-".to_string(),
            Self::Mul => "*".to_string(),
            Self::Div => "/".to_string(),
        }
    }

    /// Applies the operator to two operand kinds: the result kind, and the
    /// class of misuse if the combination is one.
    pub fn execute(&self, a: &JSTyp, b: &JSTyp) -> (r: (JSTyp, Option<ViolationClass>))
        ensures
            r.0 == result_of(*self, *a, *b),
            r.1 == violation_of(*self, *a, *b),
    {
        let v = self.arithmetic_typ_check(a, b);
        match self {
            Self::Eq | Self::Neq | Self::Gt | Self::Ge | Self::Lt | Self::Le => {
                if !a.is_same_typ(b) && *a != JSTyp::Unknown && *b != JSTyp::Unknown {
                    (JSTyp::Bool, Some(ViolationClass::Cmp))
                } else {
                    (JSTyp::Bool, None)
                }
            },
            Self::StrictEq | Self::StrictNeq => (JSTyp::Bool, None),
            Self::Add => (a.add(*b), v),
            Self::Sub => (a.sub(*b), v),
            Self::Mul => (a.mul(*b), v),
            Self::Div => (a.div(*b), v),
        }
    }

    /// The arithmetic misuse check: `None` for comparisons, for `Unknown`
    /// operands and for the sanctioned pairs.
    fn arithmetic_typ_check(&self, a: &JSTyp, b: &JSTyp) -> (r: Option<ViolationClass>)
        ensures
            is_comparison(*self) || is_strict_equality(*self) ==> r.is_none(),
            !(is_comparison(*self) || is_strict_equality(*self)) ==> r == violation_of(*self, *a, *b),
    {
        if *a == JSTyp::Unknown || *b == JSTyp::Unknown {
            return None;
        }
        match self {
            Self::Add => match (a, b) {
                (JSTyp::Number, JSTyp::Number) | (JSTyp::String, JSTyp::String) => None,
                _ => Some(ViolationClass::Arithmetic),
            },
            Self::Sub | Self::Mul | Self::Div => match (a, b) {
                (JSTyp::Number, JSTyp::Number) => None,
                _ => Some(ViolationClass::Arithmetic),
            },
            _ => None,
        }
    }
}

/// Applying an operator is a function of the operator and the two operand
/// kinds alone: two applications on equal inputs give equal results.
pub proof fn lemma_execute_deterministic(op1: JSOp, a1: JSTyp, b1: JSTyp, op2: JSOp, a2: JSTyp, b2: JSTyp)
    requires
        op1 == op2,
        a1 == a2,
        b1 == b2,
    ensures
        result_of(op1, a1, b1) == result_of(op2, a2, b2),
        violation_of(op1, a1, b1) == violation_of(op2, a2, b2),
{
}

} // verus!
