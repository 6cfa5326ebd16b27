//! The kind environment: for each variable of a scope, the set of kinds it
//! may hold, each tagged with the statement that introduced it.
use vstd::prelude::*;
use crate::kinds::{JSTyp, kind_name};
use crate::text::str_eq;

verus! {

/// One possible kind of a variable and the statement that introduced it.
#[derive(Debug, Clone, Copy, PartialEq, Eq, Hash, Structural)]
pub struct Introduced {
    pub introducer: usize,
    pub kind: JSTyp,
}

/// The kinds held by one variable of one scope.
#[derive(Debug, Clone)]
pub struct VarEntry {
    pub scope: usize,
    pub name: String,
    pub kinds: Vec<Introduced>,
}

/// The environment, keyed by scope and variable name.
#[derive(Debug, Clone)]
pub struct VarMap {
    pub entries: Vec<VarEntry>,
}

pub open spec fn entry_is(e: VarEntry, scope: usize, name: Seq<char>) -> bool {
    e.scope == scope && e.name@ == name
}

/// The kinds of `(scope, name)` among the first `k` entries: those of the
/// last entry with that key.
pub open spec fn lookup_upto(s: Seq<VarEntry>, scope: usize, name: Seq<char>, k: int) -> Option<
    Seq<Introduced>,
>
    decreases k,
{
    if k <= 0 || k > s.len() {
        None
    } else if entry_is(s[k - 1], scope, name) {
        Some(s[k - 1].kinds@)
    } else {
        lookup_upto(s, scope, name, k - 1)
    }
}

pub open spec fn lookup(s: Seq<VarEntry>, scope: usize, name: Seq<char>) -> Option<Seq<Introduced>> {
    lookup_upto(s, scope, name, s.len() as int)
}

/// No two pairs share an introducer.
pub open spec fn introducers_unique(s: Seq<Introduced>) -> bool {
    forall|i: int, j: int|
        0 <= i < j < s.len() ==> #[trigger] s[i].introducer != #[trigger] s[j].introducer
}

pub open spec fn has_kind(s: Seq<Introduced>, k: JSTyp) -> bool {
    exists|i: int| 0 <= i < s.len() && #[trigger] s[i].kind == k
}

/// The pairs of `s` whose introducer is not `pid`, in order.
pub open spec fn without_introducer(s: Seq<Introduced>, pid: usize) -> Seq<Introduced>
    decreases s.len(),
{
    if s.len() == 0 {
        s
    } else if s.last().introducer == pid {
        without_introducer(s.drop_last(), pid)
    } else {
        without_introducer(s.drop_last(), pid).push(s.last())
    }
}

/// The kind set after a union insert of `kind` by introducer `pid`: the
/// earlier pair of that introducer goes, and the new pair is added unless
/// its kind is already present.
pub open spec fn insert_spec(s: Seq<Introduced>, pid: usize, kind: JSTyp) -> Seq<Introduced> {
    let t = without_introducer(s, pid);
    if has_kind(t, kind) {
        t
    } else {
        t.push(Introduced { introducer: pid, kind })
    }
}

/// What a read of a variable with kind set `s` yields.
pub open spec fn read_spec(s: Seq<Introduced>) -> JSTyp {
    if s.len() == 1 {
        s[0].kind
    } else {
        JSTyp::Unknown
    }
}

/// The rendering of a kind set: the kind names joined by `, `.
pub open spec fn render_kinds(s: Seq<Introduced>) -> Seq<char>
    decreases s.len(),
{
    if s.len() == 0 {
        Seq::empty()
    } else if s.len() == 1 {
        kind_name(s[0].kind)
    } else {
        render_kinds(s.drop_last()) + ", "@ + kind_name(s.last().kind)
    }
}

/// The rendering of the environment: ` name: (kinds)` for each entry.
pub open spec fn render_entries(s: Seq<VarEntry>) -> Seq<char>
    decreases s.len(),
{
    if s.len() == 0 {
        Seq::empty()
    } else {
        render_entries(s.drop_last()) + " "@ + s.last().name@ + ": ("@ + render_kinds(
            s.last().kinds@,
        ) + ")"@
    }
}

proof fn lemma_lookup_update(
    s: Seq<VarEntry>,
    idx: int,
    e: VarEntry,
    scope: usize,
    name: Seq<char>,
    k: int,
)
    requires
        0 <= idx < s.len(),
        e.scope == s[idx].scope,
        e.name@ == s[idx].name@,
        forall|j: int| idx < j < s.len() ==> !entry_is(#[trigger] s[j], e.scope, e.name@),
        0 <= k <= s.len(),
    ensures
        lookup_upto(s.update(idx, e), scope, name, k) == if k > idx && entry_is(
            e,
            scope,
            name,
        ) {
            Some(e.kinds@)
        } else {
            lookup_upto(s, scope, name, k)
        },
    decreases k,
{
    if k > 0 {
        lemma_lookup_update(s, idx, e, scope, name, k - 1);
    }
}

proof fn lemma_lookup_push(s: Seq<VarEntry>, e: VarEntry, scope: usize, name: Seq<char>, k: int)
    requires
        0 <= k <= s.len(),
    ensures
        lookup_upto(s.push(e), scope, name, k) == lookup_upto(s, scope, name, k),
    decreases k,
{
    if k > 0 {
        lemma_lookup_push(s, e, scope, name, k - 1);
    }
}

proof fn lemma_push_contains(t: Seq<Introduced>, y: Introduced, x: Introduced)
    ensures
        t.push(y).contains(x) == (t.contains(x) || x == y),
{
    if t.contains(x) {
        let i = choose|i: int| 0 <= i < t.len() && t[i] == x;
        assert(t.push(y)[i] == x);
    }
    if x == y {
        assert(t.push(y)[t.len() as int] == x);
    }
    if t.push(y).contains(x) {
        let i = choose|i: int| 0 <= i < t.len() + 1 && t.push(y)[i] == x;
        if i < t.len() {
            assert(t[i] == x);
        }
    }
}

proof fn lemma_without_contains(s: Seq<Introduced>, pid: usize, x: Introduced)
    ensures
        without_introducer(s, pid).contains(x) == (s.contains(x) && x.introducer != pid),
    decreases s.len(),
{
    if s.len() == 0 {
    } else {
        let p = s.drop_last();
        lemma_without_contains(p, pid, x);
        lemma_push_contains(p, s.last(), x);
        assert(p.push(s.last()) == s);
        if s.last().introducer != pid {
            lemma_push_contains(without_introducer(p, pid), s.last(), x);
        }
    }
}

proof fn lemma_without_unique(s: Seq<Introduced>, pid: usize)
    requires
        introducers_unique(s),
    ensures
        introducers_unique(without_introducer(s, pid)),
    decreases s.len(),
{
    if s.len() > 0 {
        let p = s.drop_last();
        assert(introducers_unique(p));
        lemma_without_unique(p, pid);
        let t = without_introducer(p, pid);
        if s.last().introducer != pid {
            let u = t.push(s.last());
            assert forall|i: int, j: int| 0 <= i < j < u.len() implies #[trigger] u[i].introducer
                != #[trigger] u[j].introducer by {
                if j == u.len() - 1 {
                    assert(t.contains(t[i]));
                    lemma_without_contains(p, pid, t[i]);
                    let k = choose|k: int| 0 <= k < p.len() && p[k] == t[i];
                    assert(s[k] == t[i]);
                } else {
                    assert(u[i] == t[i] && u[j] == t[j]);
                }
            }
        }
    }
}

/// Inserting keeps the introducers of a kind set unique.
proof fn lemma_insert_unique(s: Seq<Introduced>, pid: usize, kind: JSTyp)
    requires
        introducers_unique(s),
    ensures
        introducers_unique(insert_spec(s, pid, kind)),
{
    lemma_without_unique(s, pid);
    let t = without_introducer(s, pid);
    if !has_kind(t, kind) {
        let u = t.push(Introduced { introducer: pid, kind });
        assert forall|i: int, j: int| 0 <= i < j < u.len() implies #[trigger] u[i].introducer
            != #[trigger] u[j].introducer by {
            if j == u.len() - 1 {
                assert(t.contains(t[i]));
                lemma_without_contains(s, pid, t[i]);
            } else {
                assert(u[i] == t[i] && u[j] == t[j]);
            }
        }
    }
}

/// A read of a variable yields its one kind where it holds exactly one,
/// and `Unknown` otherwise.
pub proof fn lemma_read_singleton_or_unknown(vars: VarMap, scope: usize, name: Seq<char>)
    ensures
        vars.kinds(scope, name).len() == 1 || read_spec(vars.kinds(scope, name)) == JSTyp::Unknown,
        vars.kinds(scope, name).len() == 1 ==> read_spec(vars.kinds(scope, name)) == vars.kinds(
            scope,
            name,
        )[0].kind,
{
}

/// In a well-formed environment no two pairs of a variable's kind set share
/// an introducer.
pub proof fn lemma_introducers_unique(vars: VarMap, scope: usize, name: Seq<char>)
    requires
        vars.wf(),
    ensures
        introducers_unique(vars.kinds(scope, name)),
{
    if vars.has(scope, name) {
        lemma_lookup_in(vars.entries@, scope, name, vars.entries@.len() as int);
    }
}

proof fn lemma_lookup_in(s: Seq<VarEntry>, scope: usize, name: Seq<char>, k: int)
    requires
        lookup_upto(s, scope, name, k) is Some,
    ensures
        exists|i: int| 0 <= i < s.len() && #[trigger] s[i].kinds@ == lookup_upto(s, scope, name, k)->0,
    decreases k,
{
    if !entry_is(s[k - 1], scope, name) {
        lemma_lookup_in(s, scope, name, k - 1);
    } else {
        assert(s[k - 1].kinds@ == lookup_upto(s, scope, name, k)->0);
    }
}

/// Two union inserts of different kinds by different introducers, the
/// second of which had not written the variable before, leave at least two
/// kinds, so that a read yields `Unknown`.
pub proof fn lemma_branch_join(s: Seq<Introduced>, p1: usize, k1: JSTyp, p2: usize, k2: JSTyp)
    requires
        introducers_unique(s),
        p1 != p2,
        k1 != k2,
        forall|i: int| 0 <= i < s.len() ==> (#[trigger] s[i]).introducer != p2,
    ensures
        insert_spec(insert_spec(s, p1, k1), p2, k2).len() >= 2,
        read_spec(insert_spec(insert_spec(s, p1, k1), p2, k2)) == JSTyp::Unknown,
{
    let t = without_introducer(s, p1);
    let u = insert_spec(s, p1, k1);
    // `u` holds a pair of kind `k1` whose introducer is not `p2`.
    let x = if has_kind(t, k1) {
        let i = choose|i: int| 0 <= i < t.len() && #[trigger] t[i].kind == k1;
        assert(t.contains(t[i]));
        lemma_without_contains(s, p1, t[i]);
        t[i]
    } else {
        lemma_push_contains(t, Introduced { introducer: p1, kind: k1 }, Introduced { introducer: p1, kind: k1 });
        Introduced { introducer: p1, kind: k1 }
    };
    assert(u.contains(x) && x.kind == k1 && x.introducer != p2);
    let w = without_introducer(u, p2);
    lemma_without_contains(u, p2, x);
    let v = insert_spec(u, p2, k2);
    let b = choose|b: int| 0 <= b < w.len() && w[b] == x;
    if has_kind(w, k2) {
        let c = choose|c: int| 0 <= c < w.len() && #[trigger] w[c].kind == k2;
        assert(b != c);
    } else {
        assert(v[w.len() as int].kind == k2);
        assert(v[b] == w[b]);
    }
}

proof fn lemma_lookup_none(s: Seq<VarEntry>, scope: usize, name: Seq<char>, k: int)
    requires
        0 <= k <= s.len(),
        lookup_upto(s, scope, name, k) is None,
    ensures
        forall|j: int| 0 <= j < k ==> !entry_is(#[trigger] s[j], scope, name),
    decreases k,
{
    if k > 0 {
        lemma_lookup_none(s, scope, name, k - 1);
    }
}

impl VarMap {
    /// The kinds held by `(scope, name)`; empty where the variable is not
    /// in the environment.
    pub open spec fn kinds(&self, scope: usize, name: Seq<char>) -> Seq<Introduced> {
        match lookup(self.entries@, scope, name) {
            Some(s) => s,
            None => Seq::empty(),
        }
    }

    pub open spec fn has(&self, scope: usize, name: Seq<char>) -> bool {
        lookup(self.entries@, scope, name).is_some()
    }

    /// Every kind set of the environment has unique introducers, and no two
    /// entries share a key.
    pub open spec fn wf(&self) -> bool {
        &&& forall|i: int|
            0 <= i < self.entries@.len() ==> introducers_unique(
                #[trigger] self.entries@[i].kinds@,
            )
        &&& forall|i: int, j: int|
            0 <= i < j < self.entries@.len() ==> !entry_is(
                #[trigger] self.entries@[i],
                #[trigger] self.entries@[j].scope,
                self.entries@[j].name@,
            )
    }

    /// The empty environment.
    pub fn new() -> (r: VarMap)
        ensures
            r.wf(),
            forall|scope: usize, name: Seq<char>| !r.has(scope, name),
    {
        VarMap { entries: Vec::new() }
    }

    /// The index of the entry that holds `(scope, name)`.
    fn find_var(&self, scope: usize, name: &str) -> (r: Option<usize>)
        ensures
            match r {
                Some(i) => i < self.entries@.len() && entry_is(self.entries@[i as int], scope, name@)
                    && (forall|j: int|
                    i < j < self.entries@.len() ==> !entry_is(
                        #[trigger] self.entries@[j],
                        scope,
                        name@,
                    )) && lookup(self.entries@, scope, name@) == Some(
                    self.entries@[i as int].kinds@,
                ),
                None => lookup(self.entries@, scope, name@).is_none(),
            },
    {
        let mut k: usize = self.entries.len();
        while k > 0
            invariant
                k <= self.entries@.len(),
                lookup(self.entries@, scope, name@) == lookup_upto(
                    self.entries@,
                    scope,
                    name@,
                    k as int,
                ),
                forall|j: int|
                    k <= j < self.entries@.len() ==> !entry_is(
                        #[trigger] self.entries@[j],
                        scope,
                        name@,
                    ),
            decreases k,
        {
            let e = &self.entries[k - 1];
            if e.scope == scope && str_eq(e.name.as_str(), name) {
                return Some(k - 1);
            }
            k = k - 1;
        }
        None
    }

    /// The kind that a read of `(scope, name)` yields: `None` where the
    /// variable is unknown, else the unique kind, or `Unknown` where it
    /// may hold several.
    pub fn read_var(&self, scope: usize, name: &str) -> (r: Option<JSTyp>)
        ensures
            r == if self.has(scope, name@) {
                Some(read_spec(self.kinds(scope, name@)))
            } else {
                None::<JSTyp>
            },
    {
        match self.find_var(scope, name) {
            None => None,
            Some(i) => {
                let ks = &self.entries[i].kinds;
                if ks.len() == 1 {
                    Some(ks[0].kind)
                } else {
                    Some(JSTyp::Unknown)
                }
            },
        }
    }

    /// Sets the kind set of `(scope, name)` to `ks`, leaving every other
    /// variable as it was.
    fn set_kinds(&mut self, scope: usize, name: &str, ks: Vec<Introduced>)
        requires
            old(self).wf(),
            introducers_unique(ks@),
        ensures
            final(self).wf(),
            final(self).has(scope, name@),
            final(self).kinds(scope, name@) == ks@,
            forall|sc: usize, nm: Seq<char>|
                !(sc == scope && nm == name@) ==> #[trigger] lookup(final(self).entries@, sc, nm)
                    == lookup(old(self).entries@, sc, nm),
    {
        let ghost s = self.entries@;
        let e = VarEntry { scope, name: name.to_string(), kinds: ks };
        let found = self.find_var(scope, name);
        match found {
            Some(i) => {
                self.entries.set(i, e);
                proof {
                    assert forall|sc: usize, nm: Seq<char>|
                        true implies lookup(self.entries@, sc, nm) == if entry_is(e, sc, nm) {
                        Some(e.kinds@)
                    } else {
                        lookup(s, sc, nm)
                    } by {
                        lemma_lookup_update(s, i as int, e, sc, nm, s.len() as int);
                    }
                }
            },
            None => {
                proof {
                    lemma_lookup_none(s, scope, name@, s.len() as int);
                }
                self.entries.push(e);
                proof {
                    assert forall|sc: usize, nm: Seq<char>|
                        true implies lookup(self.entries@, sc, nm) == if entry_is(e, sc, nm) {
                        Some(e.kinds@)
                    } else {
                        lookup(s, sc, nm)
                    } by {
                        lemma_lookup_push(s, e, sc, nm, s.len() as int);
                    }
                }
            },
        }
        assert(self.wf()) by {
            assert forall|i: int| 0 <= i < self.entries@.len() implies introducers_unique(
                #[trigger] self.entries@[i].kinds@,
            ) by {
                if i < s.len() && self.entries@[i] != e {
                    assert(self.entries@[i] == s[i]);
                }
            }
            assert forall|i: int, j: int| 0 <= i < j < self.entries@.len() implies !entry_is(
                #[trigger] self.entries@[i],
                #[trigger] self.entries@[j].scope,
                self.entries@[j].name@,
            ) by {
                match found {
                    Some(f) => {
                        if i != f && j != f {
                            assert(self.entries@[i] == s[i] && self.entries@[j] == s[j]);
                        } else if i == f {
                            assert(self.entries@[j] == s[j]);
                            assert(entry_is(s[i], scope, name@));
                        } else {
                            assert(self.entries@[i] == s[i]);
                            assert(entry_is(s[j], scope, name@));
                        }
                    },
                    None => {
                        if j < s.len() {
                            assert(self.entries@[i] == s[i] && self.entries@[j] == s[j]);
                        } else {
                            assert(self.entries@[i] == s[i]);
                        }
                    },
                }
            }
        }
    }
}

/// The introducer's pair in the kind set of `(scope, var)`, if there is one:
/// `(true, Some(kind))` where that introducer has written the variable.
pub fn is_overwritable(vars: &VarMap, scope: usize, var: &str, parent_id: usize) -> (r: (
    bool,
    Option<JSTyp>,
))
    ensures
        r.0 == r.1.is_some(),
        r.1 is None ==> forall|i: int|
            0 <= i < vars.kinds(scope, var@).len() ==> (#[trigger] vars.kinds(scope, var@)[i]).introducer
                != parent_id,
        r.1 matches Some(k) ==> exists|i: int|
            0 <= i < vars.kinds(scope, var@).len() && #[trigger] vars.kinds(scope, var@)[i]
                == (Introduced { introducer: parent_id, kind: k }),
{
    match vars.find_var(scope, var) {
        None => (false, None),
        Some(idx) => {
            let ks = &vars.entries[idx].kinds;
            let mut i: usize = 0;
            while i < ks.len()
                invariant
                    i <= ks@.len(),
                    ks@ == vars.kinds(scope, var@),
                    forall|j: int| 0 <= j < i ==> (#[trigger] ks@[j]).introducer != parent_id,
                decreases ks@.len() - i,
            {
                if ks[i].introducer == parent_id {
                    return (true, Some(ks[i].kind));
                }
                i = i + 1;
            }
            (false, None)
        },
    }
}

/// Whether `(scope, var)` may already hold `typ`.
pub fn is_set(vars: &VarMap, scope: usize, var: &str, typ: &JSTyp) -> (r: bool)
    ensures
        r == has_kind(vars.kinds(scope, var@), *typ),
{
    match vars.find_var(scope, var) {
        None => false,
        Some(idx) => {
            let ks = &vars.entries[idx].kinds;
            let mut i: usize = 0;
            while i < ks.len()
                invariant
                    i <= ks@.len(),
                    ks@ == vars.kinds(scope, var@),
                    forall|j: int| 0 <= j < i ==> (#[trigger] ks@[j]).kind != *typ,
                decreases ks@.len() - i,
            {
                if ks[i].kind == *typ {
                    return true;
                }
                i = i + 1;
            }
            false
        },
    }
}

/// The pairs of `ks` whose introducer is not `pid`.
fn drop_introducer(ks: &Vec<Introduced>, pid: usize) -> (r: Vec<Introduced>)
    ensures
        r@ == without_introducer(ks@, pid),
{
    let mut out: Vec<Introduced> = Vec::new();
    let mut i: usize = 0;
    while i < ks.len()
        invariant
            i <= ks@.len(),
            out@ == without_introducer(ks@.subrange(0, i as int), pid),
        decreases ks@.len() - i,
    {
        assert(ks@.subrange(0, i + 1).drop_last() == ks@.subrange(0, i as int));
        if ks[i].introducer != pid {
            out.push(ks[i]);
        }
        i = i + 1;
    }
    assert(ks@.subrange(0, ks@.len() as int) == ks@);
    out
}

/// Union insert of `typ`, introduced by `parent_id`, into the kinds of
/// `(scope, var)`: the introducer's earlier pair is replaced, and a kind
/// already present under another introducer is not added again.
pub fn insert_var(vars: &mut VarMap, scope: usize, var: &str, typ: JSTyp, parent_id: usize)
    requires
        old(vars).wf(),
    ensures
        final(vars).wf(),
        final(vars).has(scope, var@),
        final(vars).kinds(scope, var@) == insert_spec(old(vars).kinds(scope, var@), parent_id, typ),
        forall|sc: usize, nm: Seq<char>|
            !(sc == scope && nm == var@) ==> #[trigger] lookup(final(vars).entries@, sc, nm)
                == lookup(old(vars).entries@, sc, nm),
{
    let ghost s = vars.kinds(scope, var@);
    let mut ks = match vars.find_var(scope, var) {
        Some(idx) => {
            proof {
                assert(introducers_unique(vars.entries@[idx as int].kinds@));
            }
            drop_introducer(&vars.entries[idx].kinds, parent_id)
        },
        None => {
            assert(introducers_unique(s));
            Vec::new()
        },
    };
    assert(ks@ == without_introducer(s, parent_id)) by {
        if s.len() == 0 {
            assert(without_introducer(s, parent_id) == s);
        }
    }
    let mut i: usize = 0;
    let mut present = false;
    while i < ks.len()
        invariant
            i <= ks@.len(),
            present == exists|j: int| 0 <= j < i && #[trigger] ks@[j].kind == typ,
        decreases ks@.len() - i,
    {
        if ks[i].kind == typ {
            present = true;
        }
        i = i + 1;
    }
    if !present {
        ks.push(Introduced { introducer: parent_id, kind: typ });
    }
    proof {
        lemma_insert_unique(s, parent_id, typ);
    }
    vars.set_kinds(scope, var, ks);
}

/// Replaces the kinds of `(scope, var)` by the single pair
/// `(parent_id, typ)`.
pub fn overwrite_var(vars: &mut VarMap, scope: usize, var: &str, typ: JSTyp, parent_id: usize)
    requires
        old(vars).wf(),
    ensures
        final(vars).wf(),
        final(vars).has(scope, var@),
        final(vars).kinds(scope, var@) == seq![Introduced { introducer: parent_id, kind: typ }],
        forall|sc: usize, nm: Seq<char>|
            !(sc == scope && nm == var@) ==> #[trigger] lookup(final(vars).entries@, sc, nm)
                == lookup(old(vars).entries@, sc, nm),
{
    let mut s = Vec::new();
    s.push(Introduced { introducer: parent_id, kind: typ });
    vars.set_kinds(scope, var, s);
}

} // verus!

verus! {

fn kinds_to_string(ks: &Vec<Introduced>) -> (r: String)
    ensures
        r@ == render_kinds(ks@),
{
    let mut s = String::new();
    let mut i: usize = 0;
    while i < ks.len()
        invariant
            i <= ks@.len(),
            s@ == render_kinds(ks@.subrange(0, i as int)),
        decreases ks@.len() - i,
    {
        assert(ks@.subrange(0, i + 1).drop_last() == ks@.subrange(0, i as int));
        let name = ks[i].kind.name();
        if i > 0 {
            s.append(", ");
        }
        s.append(name.as_str());
        i = i + 1;
    }
    assert(ks@.subrange(0, ks@.len() as int) == ks@);
    s
}

/// A one-line rendering of the environment for diagnostics:
/// ` name: (Kind, Kind)` for each variable, in order of first write.
pub fn varmap_to_string(varmap: &VarMap) -> (r: String)
    ensures
        r@ == render_entries(varmap.entries@),
{
    let mut s = String::new();
    let mut i: usize = 0;
    while i < varmap.entries.len()
        invariant
            i <= varmap.entries@.len(),
            s@ == render_entries(varmap.entries@.subrange(0, i as int)),
        decreases varmap.entries@.len() - i,
    {
        assert(varmap.entries@.subrange(0, i + 1).drop_last() == varmap.entries@.subrange(
            0,
            i as int,
        ));
        let e = &varmap.entries[i];
        let ks = kinds_to_string(&e.kinds);
        s.append(" ");
        s.append(e.name.as_str());
        s.append(": (");
        s.append(ks.as_str());
        s.append(")");
        i = i + 1;
    }
    assert(varmap.entries@.subrange(0, varmap.entries@.len() as int) == varmap.entries@);
    s
}

} // verus!

verus! {

/// The environment as a map from `(scope, name)` to its kind set.
pub type EnvModel = Map<(usize, Seq<char>), Seq<Introduced>>;

/// The kind set of `(scope, name)` in a model; empty where absent.
pub open spec fn kinds_in(m: EnvModel, scope: usize, name: Seq<char>) -> Seq<Introduced> {
    if m.contains_key((scope, name)) {
        m[(scope, name)]
    } else {
        Seq::empty()
    }
}

/// The model of an environment.
pub open spec fn env_of(vars: VarMap) -> EnvModel {
    Map::new(|k: (usize, Seq<char>)| vars.has(k.0, k.1), |k: (usize, Seq<char>)| vars.kinds(k.0, k.1))
}

/// The model answers as the environment does.
pub broadcast proof fn lemma_env_of(vars: VarMap, scope: usize, name: Seq<char>)
    ensures
        #[trigger] env_of(vars).contains_key((scope, name)) == vars.has(scope, name),
        kinds_in(env_of(vars), scope, name) == vars.kinds(scope, name),
{
}

/// An environment changed at one key only has the model changed there.
pub proof fn lemma_env_update(old_vars: VarMap, new_vars: VarMap, scope: usize, name: Seq<char>)
    requires
        new_vars.has(scope, name),
        forall|sc: usize, nm: Seq<char>|
            !(sc == scope && nm == name) ==> #[trigger] lookup(new_vars.entries@, sc, nm) == lookup(
                old_vars.entries@,
                sc,
                nm,
            ),
    ensures
        env_of(new_vars) == env_of(old_vars).insert((scope, name), new_vars.kinds(scope, name)),
{
    assert(env_of(new_vars) =~= env_of(old_vars).insert((scope, name), new_vars.kinds(scope, name)));
}

} // verus!
