//! Violation records and their rendering as report lines.
use vstd::prelude::*;
use crate::annot::{get_loc, loc_spec, AnnotError};
use crate::kinds::{kind_name, op_text, JSOp, JSTyp, ViolationClass, violation_of};
use crate::syntax::{annot_index, get_annot, Node, SyntaxTree};
use crate::text::{char_at, find_from, find_spec, parse_decimal, parse_usize};

verus! {

/// An operator misuse found at node `node` of the analysed tree.
#[derive(Debug, Clone, Copy, PartialEq, Eq, Structural)]
pub struct Violation {
    pub node: usize,
    pub lhs: JSTyp,
    pub op: JSOp,
    pub rhs: JSTyp,
    pub class: ViolationClass,
}

impl Violation {
    /// The record states a misuse that the operator algebra detects.
    pub open spec fn is_sound(&self) -> bool {
        violation_of(self.op, self.lhs, self.rhs) == Some(self.class)
    }
}

/// A point where the analysis went on with `Unknown`.
#[derive(Debug, Clone, Copy, PartialEq, Eq, Structural)]
pub enum Diagnostic {
    /// A read of a variable that is not in the environment, at the node.
    UnknownVariable(usize),
    /// An expression that the analysis does not model, at the node.
    Unsupported(usize),
}

} // verus!

verus! {

/// The prefix that names a violation's class in a report.
pub open spec fn prefix_of(c: ViolationClass) -> Seq<char> {
    match c {
        ViolationClass::Cmp => "Detected cmp violation"@,
        ViolationClass::Arithmetic => "Detected arithmetic violation"@,
    }
}

/// The report of a violation: `[prefix] Lhs op Rhs ` on one line, then the
/// source line and the location in parentheses.
pub open spec fn report_spec(v: Violation, source_line: Seq<char>, loc: Seq<char>) -> Seq<char> {
    "["@ + prefix_of(v.class) + "] "@ + kind_name(v.lhs) + " "@ + op_text(v.op) + " "@
        + kind_name(v.rhs) + " \n"@ + source_line + " ("@ + loc + ")"@
}

fn prefix_str(c: ViolationClass) -> (r: &'static str)
    ensures
        r@ == prefix_of(c),
{
    match c {
        ViolationClass::Cmp => "Detected cmp violation",
        ViolationClass::Arithmetic => "Detected arithmetic violation",
    }
}

/// Renders the report of a violation.
pub fn report_line(v: &Violation, source_line: &str, loc: &str) -> (r: String)
    ensures
        r@ == report_spec(*v, source_line@, loc@),
{
    let mut s = String::from_str("[");
    s.append(prefix_str(v.class));
    s.append("] ");
    let l = v.lhs.name();
    s.append(l.as_str());
    s.append(" ");
    let o = v.op.to_string();
    s.append(o.as_str());
    s.append(" ");
    let r = v.rhs.name();
    s.append(r.as_str());
    s.append(" \n");
    s.append(source_line);
    s.append(" (");
    s.append(loc);
    s.append(")");
    s
}

/// A violation with the location that its statement's annotation gives.
#[derive(Debug, Clone)]
pub struct Report {
    pub violation: Violation,
    pub loc: String,
}

/// The append-only history of reports.
#[derive(Debug, Clone)]
pub struct ViolationHistory {
    pub reports: Vec<Report>,
}

/// The location of the statement that holds node `i`: the `loc` field of
/// its annotation.
pub open spec fn node_loc(n: Seq<Node>, i: int) -> Result<Seq<char>, AnnotError> {
    match annot_index(n, i) {
        None => Err(AnnotError::AnnotationMissing),
        Some(j) => loc_spec(n[j].text@),
    }
}

impl ViolationHistory {
    pub fn new() -> (r: ViolationHistory)
        ensures
            r.reports@.len() == 0,
    {
        ViolationHistory { reports: Vec::new() }
    }

    /// The reports recorded so far, in order.
    pub fn get_report_history(&self) -> (r: Vec<Report>)
        ensures
            r@.len() == self.reports@.len(),
            forall|k: int|
                0 <= k < r@.len() ==> (#[trigger] r@[k]).violation == self.reports@[k].violation
                    && r@[k].loc@ == self.reports@[k].loc@,
    {
        let mut out: Vec<Report> = Vec::new();
        let mut i: usize = 0;
        while i < self.reports.len()
            invariant
                i <= self.reports@.len(),
                out@.len() == i,
                forall|k: int|
                    0 <= k < i ==> (#[trigger] out@[k]).violation == self.reports@[k].violation
                        && out@[k].loc@ == self.reports@[k].loc@,
            decreases self.reports@.len() - i,
        {
            let r = &self.reports[i];
            out.push(Report { violation: r.violation, loc: r.loc.clone() });
            i = i + 1;
        }
        out
    }
}

/// Records a violation found in `tree` with the location of its statement.
pub fn report_typ_op_violation(history: &mut ViolationHistory, tree: &SyntaxTree, v: &Violation) -> (r:
    Result<(), AnnotError>)
    requires
        tree.wf(),
        v.node < tree.nodes@.len(),
    ensures
        match node_loc(tree.nodes@, v.node as int) {
            Err(e) => r == Err::<(), AnnotError>(e) && final(history).reports@ == old(
                history,
            ).reports@,
            Ok(loc) => r is Ok && final(history).reports@.len() == old(history).reports@.len() + 1
                && final(history).reports@.drop_last() == old(history).reports@
                && final(history).reports@.last().violation == *v
                && final(history).reports@.last().loc@ == loc,
        },
{
    let j = match get_annot(tree, v.node) {
        None => return Err(AnnotError::AnnotationMissing),
        Some(j) => j,
    };
    match get_loc(tree.nodes[j].text.as_str()) {
        Err(e) => Err(e),
        Ok(loc) => {
            let ghost before = history.reports@;
            history.reports.push(Report { violation: *v, loc: String::from_str(loc) });
            assert(history.reports@.drop_last() == before);
            Ok(())
        },
    }
}

} // verus!

verus! {

/// The lines of `s`, split at each line feed.
pub open spec fn lines_of(s: Seq<char>) -> Seq<Seq<char>>
    decreases s.len(),
{
    if s.len() == 0 {
        seq![Seq::empty()]
    } else {
        let p = lines_of(s.drop_last());
        if s.last() == '\n' {
            p.push(Seq::empty())
        } else {
            p.update(p.len() - 1, p.last().push(s.last()))
        }
    }
}

proof fn lemma_lines_of_len(s: Seq<char>)
    ensures
        lines_of(s).len() >= 1,
    decreases s.len(),
{
    if s.len() > 0 {
        lemma_lines_of_len(s.drop_last());
    }
}

/// The file and row of a location `file:row:col`: the text before the
/// first `:`, and the number between it and the next `:` (or the end).
pub open spec fn loc_file_row(loc: Seq<char>) -> Option<(Seq<char>, usize)> {
    match find_spec(loc, ":"@, 0) {
        None => None,
        Some(i) => {
            let rest_end = match find_spec(loc, ":"@, i + 1) {
                Some(j) => j,
                None => loc.len() as int,
            };
            match parse_decimal(loc.subrange(i + 1, rest_end)) {
                None => None,
                Some(row) => Some((loc.subrange(0, i), row)),
            }
        },
    }
}

/// Splits a location into its file and its row.
pub fn split_loc(loc: &str) -> (r: Option<(&str, usize)>)
    ensures
        match loc_file_row(loc@) {
            None => r is None,
            Some((f, row)) => r matches Some((rf, rrow)) && rf@ == f && rrow == row,
        },
{
    proof {
        reveal_strlit(":");
    }
    match find_from(loc, ":", 0) {
        None => None,
        Some(i) => {
            let n = loc.unicode_len();
            let rest_end = match find_from(loc, ":", i + 1) {
                Some(j) => j,
                None => n,
            };
            match parse_usize(loc.substring_char(i + 1, rest_end)) {
                None => None,
                Some(row) => Some((loc.substring_char(0, i), row)),
            }
        },
    }
}

/// The lines of `code`.
pub fn split_lines(code: &str) -> (r: Vec<String>)
    ensures
        r@.len() == lines_of(code@).len(),
        forall|k: int| 0 <= k < r@.len() ==> (#[trigger] r@[k])@ == lines_of(code@)[k],
{
    let n = code.unicode_len();
    let mut lines: Vec<String> = Vec::new();
    lines.push(String::new());
    let mut i: usize = 0;
    while i < n
        invariant
            n == code@.len(),
            i <= n,
            lines@.len() == lines_of(code@.subrange(0, i as int)).len(),
            lines@.len() >= 1,
            forall|k: int|
                0 <= k < lines@.len() ==> (#[trigger] lines@[k])@ == lines_of(
                    code@.subrange(0, i as int),
                )[k],
        decreases n - i,
    {
        let ghost p = code@.subrange(0, i as int);
        assert(code@.subrange(0, i + 1).drop_last() == p);
        proof {
            lemma_lines_of_len(p);
        }
        let c = code.get_char(i);
        if c == '\n' {
            lines.push(String::new());
        } else {
            let k = lines.len() - 1;
            let mut last = lines[k].clone();
            last.append(char_at(code, i));
            lines.set(k, last);
        }
        i = i + 1;
    }
    assert(code@.subrange(0, n as int) == code@);
    lines
}

/// Line `row` (1-based) of `code`.
pub fn source_line(code: &str, row: usize) -> (r: Option<String>)
    ensures
        1 <= row <= lines_of(code@).len() ==> (r matches Some(l) && l@ == lines_of(code@)[row - 1]),
        !(1 <= row <= lines_of(code@).len()) ==> r is None,
{
    let lines = split_lines(code);
    if 1 <= row && row <= lines.len() {
        Some(lines[row - 1].clone())
    } else {
        None
    }
}

} // verus!
