//! The scope-level counter of the debloater and the renaming rule for
//! identifiers that it drives.
use vstd::prelude::*;
use crate::text::{decimal, str_eq, usize_to_decimal};

verus! {

/// How many times `x` occurs in `s`.
pub open spec fn count_eq(s: Seq<usize>, x: usize) -> nat
    decreases s.len(),
{
    if s.len() == 0 {
        0
    } else {
        count_eq(s.drop_last(), x) + if s.last() == x {
            1nat
        } else {
            0nat
        }
    }
}

/// One brace event on the level: `{` enters a level, `}` leaves one,
/// never below zero.
pub open spec fn brace_step(lvl: nat, open: bool) -> nat {
    if open {
        lvl + 1
    } else if lvl > 0 {
        (lvl - 1) as nat
    } else {
        0
    }
}

/// The level after a sequence of brace events (`true` for `{`).
pub open spec fn run_braces(lvl: nat, ev: Seq<bool>) -> nat
    decreases ev.len(),
{
    if ev.len() == 0 {
        lvl
    } else {
        brace_step(run_braces(lvl, ev.drop_last()), ev.last())
    }
}

/// Opening braces minus closing braces.
pub open spec fn depth(ev: Seq<bool>) -> int
    decreases ev.len(),
{
    if ev.len() == 0 {
        0
    } else {
        depth(ev.drop_last()) + if ev.last() {
            1int
        } else {
            -1int
        }
    }
}

/// Every prefix closes no more braces than it opens, and the whole closes
/// all it opens.
pub open spec fn balanced(ev: Seq<bool>) -> bool {
    &&& depth(ev) == 0
    &&& forall|k: int| 0 <= k <= ev.len() ==> depth(#[trigger] ev.subrange(0, k)) >= 0
}

proof fn lemma_run_braces_depth(lvl: nat, ev: Seq<bool>)
    requires
        forall|k: int| 0 <= k <= ev.len() ==> depth(#[trigger] ev.subrange(0, k)) >= 0,
    ensures
        run_braces(lvl, ev) == lvl + depth(ev),
    decreases ev.len(),
{
    if ev.len() > 0 {
        let p = ev.drop_last();
        assert forall|k: int| 0 <= k <= p.len() implies depth(#[trigger] p.subrange(0, k)) >= 0 by {
            assert(p.subrange(0, k) == ev.subrange(0, k));
        }
        lemma_run_braces_depth(lvl, p);
        assert(ev.subrange(0, ev.len() as int) == ev);
        assert(ev.subrange(0, p.len() as int) == p);
    }
}

/// The level never drops below zero, and a balanced sequence of braces
/// ends on the level it started from.
pub proof fn lemma_balanced_braces(lvl: nat, ev: Seq<bool>)
    requires
        balanced(ev),
    ensures
        run_braces(lvl, ev) == lvl,
        forall|k: int| 0 <= k <= ev.len() ==> #[trigger] run_braces(lvl, ev.subrange(0, k)) >= lvl,
{
    lemma_run_braces_depth(lvl, ev);
    assert forall|k: int| 0 <= k <= ev.len() implies #[trigger] run_braces(lvl, ev.subrange(0, k)) >= lvl by {
        let p = ev.subrange(0, k);
        assert forall|m: int| 0 <= m <= p.len() implies depth(#[trigger] p.subrange(0, m)) >= 0 by {
            assert(p.subrange(0, m) == ev.subrange(0, m));
        }
        lemma_run_braces_depth(lvl, p);
    }
}

/// The scope-level counter: the current level, the levels entered so far
/// in order, and the (level, visit) pairs where a name was introduced.
#[derive(Debug, Clone)]
pub struct ScopeEnv {
    pub lvl: usize,
    pub lvl_visited: Vec<usize>,
    pub lvl_occupied: Vec<(usize, usize)>,
}

/// The counter as values: the current level, the levels entered so far in
/// order, the occupied (level, visit) pairs, and the names known so far.
pub struct Counter {
    pub lvl: usize,
    pub visited: Seq<usize>,
    pub occupied: Seq<(usize, usize)>,
    pub known: Seq<Seq<char>>,
}

/// The texts of a list of strings.
pub open spec fn texts(vars: Seq<String>) -> Seq<Seq<char>> {
    vars.map_values(|s: String| s@)
}

/// The counter that a `ScopeEnv` and a list of known names stand for.
pub open spec fn counter_of(env: ScopeEnv, vars: Seq<String>) -> Counter {
    Counter { lvl: env.lvl, visited: env.lvl_visited@, occupied: env.lvl_occupied@, known: texts(vars) }
}

/// The visit of `lvl` that is current: how often it has been entered.
pub open spec fn visits(c: Counter, lvl: usize) -> nat {
    count_eq(c.visited, lvl)
}

/// The (level, visit) pair that a reference made at level `lvl` resolves
/// to: the nearest level at or below `lvl` whose current visit holds an
/// introduction.
pub open spec fn resolve(c: Counter, lvl: int) -> Option<(int, nat)>
    decreases lvl + 1,
{
    if lvl < 0 {
        None
    } else if c.occupied.contains((lvl as usize, visits(c, lvl as usize) as usize)) {
        Some((lvl, visits(c, lvl as usize)))
    } else {
        resolve(c, lvl - 1)
    }
}

/// `base_level_visit`.
pub open spec fn renamed(base: Seq<char>, lvl: nat, visit: nat) -> Seq<char> {
    base + "_"@ + decimal(lvl) + "_"@ + decimal(visit)
}

/// Where an identifier stands, as the renaming rule tells positions apart.
#[derive(Debug, Clone, Copy, PartialEq, Eq, Structural)]
pub enum IdentRole {
    /// A formal parameter.
    Param,
    /// The name of a variable declarator.
    Declared,
    /// Any other position.
    Used,
}

/// The renaming of identifier `base` in position `role`: parameters are
/// `base_1_1`; declarations and first writes take the current level and
/// visit; references to a known name resolve downward through the levels.
pub open spec fn rename_spec(c: Counter, base: Seq<char>, role: IdentRole) -> Seq<char> {
    let cur = visits(c, c.lvl);
    match role {
        IdentRole::Param => renamed(base, 1, 1),
        IdentRole::Declared => renamed(base, c.lvl as nat, cur),
        IdentRole::Used => if c.known.contains(base) {
            match resolve(c, c.lvl as int) {
                Some((l, v)) => renamed(base, l as nat, v),
                None => renamed(base, c.lvl as nat, cur),
            }
        } else {
            renamed(base, c.lvl as nat, cur)
        },
    }
}

/// Whether the renaming introduces the name.
pub open spec fn introduces(c: Counter, base: Seq<char>, role: IdentRole) -> bool {
    role != IdentRole::Used || !c.known.contains(base)
}

/// The counter after renaming `base` in position `role`: an introduction
/// makes the name known and records as occupied the (level, visit) that the
/// new name carries: `(1, 1)` for a parameter, the current pair otherwise.
pub open spec fn after_rename(c: Counter, base: Seq<char>, role: IdentRole) -> Counter {
    if introduces(c, base, role) {
        Counter {
            occupied: c.occupied.push(
                if role == IdentRole::Param {
                    (1usize, 1usize)
                } else {
                    (c.lvl, visits(c, c.lvl) as usize)
                },
            ),
            known: c.known.push(base),
            ..c
        }
    } else {
        c
    }
}

/// The counter after a `{` that opens a block.
pub open spec fn enter_spec(c: Counter) -> Counter {
    Counter { lvl: (c.lvl + 1) as usize, visited: c.visited.push((c.lvl + 1) as usize), ..c }
}

/// The counter after a `}` that closes a block.
pub open spec fn leave_spec(c: Counter) -> Counter {
    Counter { lvl: brace_step(c.lvl as nat, false) as usize, ..c }
}

impl Default for ScopeEnv {
    /// The counter at the top level, before any brace.
    fn default() -> (r: ScopeEnv)
        ensures
            r.lvl == 0,
            r.lvl_visited@ == Seq::<usize>::empty(),
            r.lvl_occupied@ == Seq::<(usize, usize)>::empty(),
    {
        ScopeEnv { lvl: 0, lvl_visited: Vec::new(), lvl_occupied: Vec::new() }
    }
}

impl ScopeEnv {
    /// The counter at the top level, before any brace.
    pub fn new() -> (r: ScopeEnv)
        ensures
            r.lvl == 0,
            r.lvl_visited@ == Seq::<usize>::empty(),
            r.lvl_occupied@ == Seq::<(usize, usize)>::empty(),
    {
        ScopeEnv::default()
    }

    /// How often level `lvl` has been entered.
    pub fn count_lvl_visited(&self, lvl: usize) -> (r: usize)
        ensures
            r == count_eq(self.lvl_visited@, lvl),
    {
        let mut c: usize = 0;
        let mut i: usize = 0;
        while i < self.lvl_visited.len()
            invariant
                i <= self.lvl_visited@.len(),
                c == count_eq(self.lvl_visited@.subrange(0, i as int), lvl),
                c <= i,
            decreases self.lvl_visited@.len() - i,
        {
            assert(self.lvl_visited@.subrange(0, i + 1).drop_last() == self.lvl_visited@.subrange(
                0,
                i as int,
            ));
            if self.lvl_visited[i] == lvl {
                c = c + 1;
            }
            i = i + 1;
        }
        assert(self.lvl_visited@.subrange(0, i as int) == self.lvl_visited@);
        c
    }

    fn is_occupied(&self, l: usize, v: usize) -> (r: bool)
        ensures
            r == self.lvl_occupied@.contains((l, v)),
    {
        let mut i: usize = 0;
        while i < self.lvl_occupied.len()
            invariant
                i <= self.lvl_occupied@.len(),
                forall|j: int| 0 <= j < i ==> self.lvl_occupied@[j] != (l, v),
            decreases self.lvl_occupied@.len() - i,
        {
            let (a, b) = self.lvl_occupied[i];
            if a == l && b == v {
                return true;
            }
            i = i + 1;
        }
        false
    }

    /// Enters a level: `{` outside an object literal.
    pub fn enter(&mut self)
        requires
            old(self).lvl < usize::MAX,
        ensures
            final(self).lvl == brace_step(old(self).lvl as nat, true),
            final(self).lvl_visited@ == old(self).lvl_visited@.push(final(self).lvl),
            final(self).lvl_occupied@ == old(self).lvl_occupied@,
            forall|vars: Seq<String>|
                #[trigger] counter_of(*final(self), vars) == enter_spec(counter_of(*old(self), vars)),
    {
        self.lvl = self.lvl + 1;
        let l = self.lvl;
        self.lvl_visited.push(l);
    }

    /// Leaves a level: `}` outside an object literal.
    pub fn leave(&mut self)
        ensures
            final(self).lvl == brace_step(old(self).lvl as nat, false),
            final(self).lvl_visited@ == old(self).lvl_visited@,
            final(self).lvl_occupied@ == old(self).lvl_occupied@,
            forall|vars: Seq<String>|
                #[trigger] counter_of(*final(self), vars) == leave_spec(counter_of(*old(self), vars)),
    {
        if self.lvl > 0 {
            self.lvl = self.lvl - 1;
        }
    }
}

fn knows_name(vars: &Vec<String>, name: &str) -> (r: bool)
    ensures
        r == texts(vars@).contains(name@),
{
    let mut i: usize = 0;
    while i < vars.len()
        invariant
            i <= vars@.len(),
            forall|j: int| 0 <= j < i ==> vars@[j]@ != name@,
        decreases vars@.len() - i,
    {
        if str_eq(vars[i].as_str(), name) {
            assert(texts(vars@)[i as int] == name@);
            return true;
        }
        i = i + 1;
    }
    assert forall|k: int| 0 <= k < texts(vars@).len() implies texts(vars@)[k] != name@ by {
        assert(texts(vars@)[k] == vars@[k]@);
    }
    false
}

fn renamed_ident(base: &str, lvl: usize, visit: usize) -> (r: String)
    ensures
        r@ == renamed(base@, lvl as nat, visit as nat),
{
    let mut s = String::from_str(base);
    s.append("_");
    let l = usize_to_decimal(lvl);
    s.append(l.as_str());
    s.append("_");
    let v = usize_to_decimal(visit);
    s.append(v.as_str());
    proof {
        reveal_strlit("_");
    }
    s
}

/// The renamed form of identifier `base` standing in position `role`.
/// An introduction adds the name to the known names and records the
/// current (level, visit) as occupied.
pub fn get_scoped_ident(
    vars: &mut Vec<String>,
    base: &str,
    role: IdentRole,
    scope_env: &mut ScopeEnv,
) -> (r: String)
    ensures
        r@ == rename_spec(counter_of(*old(scope_env), old(vars)@), base@, role),
        counter_of(*final(scope_env), final(vars)@) == after_rename(
            counter_of(*old(scope_env), old(vars)@),
            base@,
            role,
        ),
{
    let ghost c0 = counter_of(*scope_env, vars@);
    let cur = scope_env.count_lvl_visited(scope_env.lvl);
    let lvl = scope_env.lvl;
    let known = knows_name(vars, base);
    if role != IdentRole::Used || !known {
        let ghost v0 = vars@;
        vars.push(String::from_str(base));
        assert(texts(vars@) =~= texts(v0).push(base@));
        if role == IdentRole::Param {
            scope_env.lvl_occupied.push((1, 1));
            renamed_ident(base, 1, 1)
        } else {
            scope_env.lvl_occupied.push((lvl, cur));
            renamed_ident(base, lvl, cur)
        }
    } else {
        let mut l: usize = lvl;
        loop
            invariant
                counter_of(*scope_env, vars@) == c0,
                c0 == counter_of(*old(scope_env), old(vars)@),
                *scope_env == *old(scope_env),
                vars@ == old(vars)@,
                role == IdentRole::Used,
                c0.known.contains(base@),
                lvl == c0.lvl,
                cur == visits(c0, c0.lvl),
                l <= c0.lvl,
                resolve(c0, c0.lvl as int) == resolve(c0, l as int),
            decreases l,
        {
            let v = scope_env.count_lvl_visited(l);
            if scope_env.is_occupied(l, v) {
                return renamed_ident(base, l, v);
            }
            if l == 0 {
                assert(resolve(c0, -1) is None);
                return renamed_ident(base, lvl, cur);
            }
            l = l - 1;
        }
    }
}

} // verus!
