//! The trailing annotation that the debloater writes after every emitted
//! statement, and the parser that reads it back.
//!
//! An annotation reads
//! `// [Loc] <file>:<row>:<col>[, [Non-branch]], [Parent-ID] <id>,`
//! with 1-based rows and columns.
use vstd::prelude::*;
use crate::text::{contains, decimal, find_from, find_spec, lemma_decimal_value, lemma_find_absent, lemma_find_at, lemma_no_occ_by_prefix, occurs_at, parse_decimal, parse_usize};

verus! {

pub const LOC_ANNOT: &'static str = "// [Loc]";
pub const NON_BRANCH_ANNOT: &'static str = "[Non-branch]";
pub const PARENT_NODE_ID_ANNOT: &'static str = "[Parent-ID]";

/// The location field's opening, up to the location itself.
pub const LOC_FIELD: &'static str = "// [Loc] ";
/// The parent-id field's opening, up to the number itself.
pub const PARENT_ID_FIELD: &'static str = "[Parent-ID] ";
pub const FIELD_END: &'static str = ",";

/// Why an annotation could not be read.
#[derive(Debug, Clone, Copy, PartialEq, Eq, Structural)]
pub enum AnnotError {
    /// No annotation, or not the field asked for.
    AnnotationMissing,
    /// The field is there but malformed.
    AnnotationParse,
}

/// The location field of an annotation: what stands between `// [Loc] `
/// and the next comma.
pub open spec fn loc_spec(a: Seq<char>) -> Result<Seq<char>, AnnotError> {
    match find_spec(a, LOC_FIELD@, 0) {
        None => Err(AnnotError::AnnotationMissing),
        Some(i) => {
            let start = i + LOC_FIELD@.len();
            match find_spec(a, FIELD_END@, start) {
                None => Err(AnnotError::AnnotationParse),
                Some(j) => Ok(a.subrange(start, j)),
            }
        },
    }
}

/// The parent-id field of an annotation: the number between `[Parent-ID] `
/// and the next comma. An annotation (a text with the `// [Loc]` marker)
/// without that field is malformed.
pub open spec fn parent_id_spec(a: Seq<char>) -> Result<usize, AnnotError> {
    match find_spec(a, PARENT_ID_FIELD@, 0) {
        None => if find_spec(a, LOC_ANNOT@, 0) is Some {
            Err(AnnotError::AnnotationParse)
        } else {
            Err(AnnotError::AnnotationMissing)
        },
        Some(i) => {
            let start = i + PARENT_ID_FIELD@.len();
            match find_spec(a, FIELD_END@, start) {
                None => Err(AnnotError::AnnotationParse),
                Some(j) => match parse_decimal(a.subrange(start, j)) {
                    None => Err(AnnotError::AnnotationParse),
                    Some(n) => Ok(n),
                },
            }
        },
    }
}

/// Whether the annotation carries the non-branch marker.
pub open spec fn non_branch_spec(a: Seq<char>) -> bool {
    find_spec(a, NON_BRANCH_ANNOT@, 0).is_some()
}

/// The annotation written for a statement.
pub open spec fn annotation(
    file: Seq<char>,
    row: nat,
    col: nat,
    non_branch: bool,
    parent_id: nat,
) -> Seq<char> {
    LOC_FIELD@ + file + ":"@ + decimal(row) + ":"@ + decimal(col) + (if non_branch {
        ", "@ + NON_BRANCH_ANNOT@
    } else {
        Seq::empty()
    }) + ", "@ + PARENT_ID_FIELD@ + decimal(parent_id) + FIELD_END@
}

/// Reads the location field (`file:row:col`) of an annotation.
pub fn get_loc(annot: &str) -> (r: Result<&str, AnnotError>)
    ensures
        match loc_spec(annot@) {
            Ok(l) => r.is_ok() && r.unwrap()@ == l,
            Err(e) => r == Err::<&str, AnnotError>(e),
        },
{
    match find_from(annot, LOC_FIELD, 0) {
        None => Err(AnnotError::AnnotationMissing),
        Some(i) => {
            let start = i + LOC_FIELD.unicode_len();
            match find_from(annot, FIELD_END, start) {
                None => Err(AnnotError::AnnotationParse),
                Some(j) => Ok(annot.substring_char(start, j)),
            }
        },
    }
}

/// Reads the parent-id field of an annotation.
pub fn get_parent_id(annot: &str) -> (r: Result<usize, AnnotError>)
    ensures
        r == parent_id_spec(annot@),
{
    match find_from(annot, PARENT_ID_FIELD, 0) {
        None => if find_from(annot, LOC_ANNOT, 0).is_some() {
            Err(AnnotError::AnnotationParse)
        } else {
            Err(AnnotError::AnnotationMissing)
        },
        Some(i) => {
            let start = i + PARENT_ID_FIELD.unicode_len();
            match find_from(annot, FIELD_END, start) {
                None => Err(AnnotError::AnnotationParse),
                Some(j) => match parse_usize(annot.substring_char(start, j)) {
                    None => Err(AnnotError::AnnotationParse),
                    Some(n) => Ok(n),
                },
            }
        },
    }
}

/// Whether the annotation carries the non-branch marker.
pub fn is_non_branch(annot: &str) -> (r: bool)
    ensures
        r == non_branch_spec(annot@),
{
    contains(annot, NON_BRANCH_ANNOT)
}

} // verus!

verus! {

/// The annotation parser reads back what an annotation was written with:
/// its location, its parent id and its non-branch marker, where the file
/// name holds no `,` and no `[`.
#[verifier::rlimit(80)]
pub proof fn lemma_annotation_round_trip(
    file: Seq<char>,
    row: nat,
    col: nat,
    non_branch: bool,
    parent_id: nat,
)
    requires
        forall|i: int| 0 <= i < file.len() ==> #[trigger] file[i] != ',' && file[i] != '[',
        parent_id <= usize::MAX,
    ensures
        loc_spec(annotation(file, row, col, non_branch, parent_id)) == Ok::<Seq<char>, AnnotError>(
            file + ":"@ + decimal(row) + ":"@ + decimal(col),
        ),
        parent_id_spec(annotation(file, row, col, non_branch, parent_id)) == Ok::<
            usize,
            AnnotError,
        >(parent_id as usize),
        non_branch_spec(annotation(file, row, col, non_branch, parent_id)) == non_branch,
{
    reveal_strlit("// [Loc] ");
    reveal_strlit("[Parent-ID] ");
    reveal_strlit("[Non-branch]");
    reveal_strlit(",");
    reveal_strlit(", ");
    reveal_strlit(":");
    lemma_decimal_value(row);
    lemma_decimal_value(col);
    lemma_decimal_value(parent_id);
    let lf = LOC_FIELD@;
    let dr = decimal(row);
    let dc = decimal(col);
    let dp = decimal(parent_id);
    let m = file + ":"@ + dr + ":"@ + dc;
    let nbp = if non_branch {
        ", "@ + NON_BRANCH_ANNOT@
    } else {
        Seq::<char>::empty()
    };
    let pf = PARENT_ID_FIELD@;
    let nbm = NON_BRANCH_ANNOT@;
    let a = annotation(file, row, col, non_branch, parent_id);
    assert(a =~= lf + m + nbp + ", "@ + pf + dp + ","@);
    let lm: int = 9 + m.len() as int;
    let lnb: int = lm + nbp.len() as int;
    let q: int = lnb + 2;
    let s2: int = q + 12;
    let j2: int = s2 + dp.len() as int;
    assert(a.len() == j2 + 1);
    assert forall|i: int| 0 <= i < m.len() implies m[i] != ',' && m[i] != '[' by {
        if i < file.len() {
            assert(m[i] == file[i]);
        } else if file.len() + 1 <= i < file.len() + 1 + dr.len() {
            assert(m[i] == dr[i - file.len() - 1]);
        } else if file.len() + 2 + dr.len() <= i {
            assert(m[i] == dc[i - file.len() - 2 - dr.len()]);
        }
    }
    assert(a.subrange(0, 9) =~= lf);
    assert(a.subrange(9, lm) =~= m);
    assert(a.subrange(lm, lnb) =~= nbp);
    assert(a.subrange(q, s2) =~= pf);
    assert(a.subrange(s2, j2) =~= dp);
    assert(a[lnb] == ',' && a[lnb + 1] == ' ');
    assert(a[j2] == ',');
    assert(a[lm] == ',');
    // The location field.
    lemma_find_at(a, lf, 0, 0);
    assert(a.subrange(lm, lm + 1) =~= ","@);
    assert forall|k: int| 9 <= k < lm implies !#[trigger] occurs_at(a, ","@, k) by {
        assert(a[k] == a.subrange(9, lm)[k - 9]);
        if occurs_at(a, ","@, k) {
            assert(a.subrange(k, k + 1)[0] == a[k]);
        }
    }
    lemma_find_at(a, ","@, 9, lm);
    // The parent-id field.
    assert forall|k: int|
        0 <= k < q && 0 <= k < a.len() implies a[k] != pf[0] || (k + 1 < a.len() && #[trigger] a[k
        + 1] != pf[1]) by {
        if k < 9 {
            assert(a[k] == a.subrange(0, 9)[k]);
            assert(a[k + 1] == a.subrange(0, 9)[k + 1] || k + 1 == 9);
        } else if k < lm {
            assert(a[k] == a.subrange(9, lm)[k - 9]);
        } else if k < lnb {
            assert(a[k] == a.subrange(lm, lnb)[k - lm]);
            if k + 1 < lnb {
                assert(a[k + 1] == a.subrange(lm, lnb)[k + 1 - lm]);
            }
        }
    }
    lemma_no_occ_by_prefix(a, pf, 0, q);
    assert(a.subrange(q, q + pf.len()) =~= pf);
    lemma_find_at(a, pf, 0, q);
    assert(a.subrange(j2, j2 + 1) =~= ","@);
    assert forall|k: int| s2 <= k < j2 implies !#[trigger] occurs_at(a, ","@, k) by {
        assert(a[k] == a.subrange(s2, j2)[k - s2]);
        if occurs_at(a, ","@, k) {
            assert(a.subrange(k, k + 1)[0] == a[k]);
        }
    }
    lemma_find_at(a, ","@, s2, j2);
    // The non-branch marker.
    if non_branch {
        assert(a.subrange(lm + 2, lm + 2 + nbm.len()) =~= nbm);
        assert(occurs_at(a, nbm, lm + 2));
        crate::text::lemma_find_spec(a, nbm, 0);
    } else {
        assert forall|k: int|
            0 <= k < a.len() && 0 <= k < a.len() implies a[k] != nbm[0] || (k + 1 < a.len()
            && #[trigger] a[k + 1] != nbm[1]) by {
            if k < 9 {
                assert(a[k] == a.subrange(0, 9)[k]);
                assert(a[k + 1] == a.subrange(0, 9)[k + 1] || k + 1 == 9);
            } else if k < lm {
                assert(a[k] == a.subrange(9, lm)[k - 9]);
            } else if q <= k < s2 {
                assert(a[k] == a.subrange(q, s2)[k - q]);
                if k + 1 < s2 {
                    assert(a[k + 1] == a.subrange(q, s2)[k + 1 - q]);
                }
            } else if s2 <= k < j2 {
                assert(a[k] == a.subrange(s2, j2)[k - s2]);
            }
        }
        lemma_no_occ_by_prefix(a, nbm, 0, a.len() as int);
        assert forall|k: int| 0 <= k implies !#[trigger] occurs_at(a, nbm, k) by {
            if k >= a.len() {
            }
        }
        lemma_find_absent(a, nbm, 0);
    }
}

} // verus!
