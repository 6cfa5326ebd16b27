//! Generation of runtime kind assertions in JavaScript.
use vstd::prelude::*;

verus! {

/// The assertion statement that two expressions have the same `typeof`.
pub open spec fn assert_spec(typ1: Seq<char>, typ2: Seq<char>) -> Seq<char> {
    "if (typeof("@ + typ1 + ") !== typeof("@ + typ2 + ")) throw `type assertion failed ${"@ + typ1
        + "} !== ${"@ + typ2 + "}`"@
}

/// A statement that throws where `typ1` and `typ2` differ in `typeof`.
pub fn gen_assert(typ1: &str, typ2: &str) -> (r: String)
    ensures
        r@ == assert_spec(typ1@, typ2@),
{
    let mut s = String::from_str("if (typeof(");
    s.append(typ1);
    s.append(") !== typeof(");
    s.append(typ2);
    s.append(")) throw `type assertion failed ${");
    s.append(typ1);
    s.append("} !== ${");
    s.append(typ2);
    s.append("}`");
    s
}

} // verus!
