//! Character-level helpers over strings, each with its exact meaning on
//! character sequences.
use vstd::prelude::*;

verus! {

/// `pat` occurs in `s` starting at character `i`.
pub open spec fn occurs_at(s: Seq<char>, pat: Seq<char>, i: int) -> bool {
    0 <= i && i + pat.len() <= s.len() && s.subrange(i, i + pat.len()) == pat
}

/// The first occurrence of `pat` in `s` at or after `from`.
pub open spec fn find_spec(s: Seq<char>, pat: Seq<char>, from: int) -> Option<int>
    decreases s.len() + 1 - from,
{
    if from < 0 || from + pat.len() > s.len() {
        None
    } else if occurs_at(s, pat, from) {
        Some(from)
    } else {
        find_spec(s, pat, from + 1)
    }
}

pub open spec fn is_digit(c: char) -> bool {
    '0' <= c && c <= '9'
}

pub open spec fn all_digits(s: Seq<char>) -> bool {
    forall|i: int| 0 <= i < s.len() ==> is_digit(#[trigger] s[i])
}

pub open spec fn digit_value(c: char) -> nat {
    (c as nat - '0' as nat) as nat
}

/// The number that a string of decimal digits denotes.
pub open spec fn digits_value(s: Seq<char>) -> nat
    decreases s.len(),
{
    if s.len() == 0 {
        0
    } else {
        digits_value(s.drop_last()) * 10 + digit_value(s.last())
    }
}

/// What a decimal number field reads as: digits only, at least one, and a
/// value that fits in `usize`.
pub open spec fn parse_decimal(s: Seq<char>) -> Option<usize> {
    if s.len() > 0 && all_digits(s) && digits_value(s) <= usize::MAX {
        Some(digits_value(s) as usize)
    } else {
        None
    }
}

pub open spec fn digit_char(d: nat) -> char {
    if d == 0 { '0' }
    else if d == 1 { '1' }
    else if d == 2 { '2' }
    else if d == 3 { '3' }
    else if d == 4 { '4' }
    else if d == 5 { '5' }
    else if d == 6 { '6' }
    else if d == 7 { '7' }
    else if d == 8 { '8' }
    else { '9' }
}

/// The decimal rendering of `n`, without leading zeros.
pub open spec fn decimal(n: nat) -> Seq<char>
    decreases n,
{
    if n < 10 {
        seq![digit_char(n)]
    } else {
        decimal(n / 10) + seq![digit_char(n % 10)]
    }
}

/// Character-wise equality of two strings.
pub fn str_eq(a: &str, b: &str) -> (r: bool)
    ensures
        r == (a@ == b@),
{
    let n = a.unicode_len();
    if n != b.unicode_len() {
        return false;
    }
    let mut i: usize = 0;
    while i < n
        invariant
            n == a@.len(),
            n == b@.len(),
            i <= n,
            a@.subrange(0, i as int) == b@.subrange(0, i as int),
        decreases n - i,
    {
        if a.get_char(i) != b.get_char(i) {
            return false;
        }
        assert(a@.subrange(0, i + 1) == a@.subrange(0, i as int).push(a@[i as int]));
        assert(b@.subrange(0, i + 1) == b@.subrange(0, i as int).push(b@[i as int]));
        i = i + 1;
    }
    assert(a@ == a@.subrange(0, n as int));
    assert(b@ == b@.subrange(0, n as int));
    true
}

/// Whether `pat` occurs in `s` at character `i`.
pub fn matches_at(s: &str, pat: &str, i: usize) -> (r: bool)
    ensures
        r == occurs_at(s@, pat@, i as int),
{
    let n = s.unicode_len();
    let m = pat.unicode_len();
    if i > n || m > n - i {
        return false;
    }
    let mut k: usize = 0;
    while k < m
        invariant
            n == s@.len(),
            m == pat@.len(),
            i + m <= n,
            k <= m,
            s@.subrange(i as int, i + k) == pat@.subrange(0, k as int),
        decreases m - k,
    {
        if s.get_char(i + k) != pat.get_char(k) {
            assert(s@.subrange(i as int, i + m)[k as int] != pat@[k as int]);
            return false;
        }
        assert(s@.subrange(i as int, i + k + 1) == s@.subrange(i as int, i + k).push(
            s@[i + k],
        ));
        assert(pat@.subrange(0, k + 1) == pat@.subrange(0, k as int).push(pat@[k as int]));
        k = k + 1;
    }
    assert(pat@ == pat@.subrange(0, m as int));
    true
}

/// What the first occurrence at or after `from` is: an occurrence, at or
/// after `from`, with none between `from` and it.
pub proof fn lemma_find_spec(s: Seq<char>, pat: Seq<char>, from: int)
    requires
        0 <= from,
    ensures
        match find_spec(s, pat, from) {
            Some(i) => from <= i && occurs_at(s, pat, i) && forall|k: int|
                from <= k < i ==> !occurs_at(s, pat, k),
            None => forall|k: int| from <= k ==> !occurs_at(s, pat, k),
        },
    decreases s.len() + 1 - from,
{
    if from + pat.len() > s.len() {
    } else if !occurs_at(s, pat, from) {
        lemma_find_spec(s, pat, from + 1);
    }
}

/// The first occurrence of `pat` in `s` at or after character `from`.
pub fn find_from(s: &str, pat: &str, from: usize) -> (r: Option<usize>)
    ensures
        r.is_some() ==> find_spec(s@, pat@, from as int) == Some(r.unwrap() as int),
        r.is_none() ==> find_spec(s@, pat@, from as int) is None,
        r.is_some() ==> from <= r.unwrap() && r.unwrap() + pat@.len() <= s@.len(),
        s@.len() <= usize::MAX,
{
    proof {
        lemma_find_spec(s@, pat@, from as int);
    }
    let n = s.unicode_len();
    let m = pat.unicode_len();
    if from > n || m > n - from {
        return None;
    }
    if m == 0 {
        assert(s@.subrange(from as int, from as int) == pat@);
        return Some(from);
    }
    let mut i: usize = from;
    while i <= n - m
        invariant
            n == s@.len(),
            m == pat@.len(),
            1 <= m <= n,
            from <= i,
            i <= n - m + 1,
            find_spec(s@, pat@, from as int) == find_spec(s@, pat@, i as int),
        decreases n - i,
    {
        if matches_at(s, pat, i) {
            return Some(i);
        }
        i = i + 1;
    }
    None
}

/// Whether `pat` occurs anywhere in `s`.
pub fn contains(s: &str, pat: &str) -> (r: bool)
    ensures
        r == find_spec(s@, pat@, 0).is_some(),
{
    find_from(s, pat, 0).is_some()
}

proof fn lemma_digits_value_prefix_mono(s: Seq<char>, k: int)
    requires
        0 <= k <= s.len(),
    ensures
        digits_value(s.subrange(0, k)) <= digits_value(s),
    decreases s.len() - k,
{
    if k < s.len() {
        lemma_digits_value_prefix_mono(s, k + 1);
        assert(s.subrange(0, k + 1).drop_last() == s.subrange(0, k));
    } else {
        assert(s.subrange(0, k) == s);
    }
}

/// Reads a decimal number made of digits only.
pub fn parse_usize(s: &str) -> (r: Option<usize>)
    ensures
        r == parse_decimal(s@),
{
    let n = s.unicode_len();
    if n == 0 {
        return None;
    }
    let mut acc: usize = 0;
    let mut k: usize = 0;
    while k < n
        invariant
            n == s@.len(),
            k <= n,
            all_digits(s@.subrange(0, k as int)),
            acc as nat == digits_value(s@.subrange(0, k as int)),
        decreases n - k,
    {
        let c = s.get_char(k);
        if !('0' <= c && c <= '9') {
            assert(!all_digits(s@));
            return None;
        }
        let d: usize = (c as u32 - '0' as u32) as usize;
        assert(s@.subrange(0, k + 1).drop_last() == s@.subrange(0, k as int));
        if acc > (usize::MAX - d) / 10 {
            proof {
                lemma_digits_value_prefix_mono(s@, k + 1);
                assert(acc * 10 + d > usize::MAX) by (nonlinear_arith)
                    requires
                        acc > (usize::MAX - d) / 10,
                        d <= 9,
                ;
            }
            return None;
        }
        assert(acc * 10 + d <= usize::MAX) by (nonlinear_arith)
            requires
                acc <= (usize::MAX - d) / 10,
                d <= 9,
        ;
        acc = acc * 10 + d;
        k = k + 1;
    }
    assert(s@.subrange(0, n as int) == s@);
    Some(acc)
}

fn digit_str(d: usize) -> (r: &'static str)
    requires
        d < 10,
    ensures
        r@ == seq![digit_char(d as nat)],
{
    proof {
        reveal_strlit("0");
        reveal_strlit("1");
        reveal_strlit("2");
        reveal_strlit("3");
        reveal_strlit("4");
        reveal_strlit("5");
        reveal_strlit("6");
        reveal_strlit("7");
        reveal_strlit("8");
        reveal_strlit("9");
    }
    if d == 0 { "0" }
    else if d == 1 { "1" }
    else if d == 2 { "2" }
    else if d == 3 { "3" }
    else if d == 4 { "4" }
    else if d == 5 { "5" }
    else if d == 6 { "6" }
    else if d == 7 { "7" }
    else if d == 8 { "8" }
    else { "9" }
}

/// The decimal rendering of `n`.
pub fn usize_to_decimal(n: usize) -> (r: String)
    ensures
        r@ == decimal(n as nat),
    decreases n,
{
    if n < 10 {
        String::from_str(digit_str(n))
    } else {
        let mut s = usize_to_decimal(n / 10);
        s.append(digit_str(n % 10));
        s
    }
}

/// A single character of `s` as a string.
pub fn char_at(s: &str, i: usize) -> (r: &str)
    requires
        i < s@.len(),
    ensures
        r@ == seq![s@[i as int]],
{
    let n = s.unicode_len();
    let r = s.substring_char(i, i + 1);
    assert(r@.len() == 1);
    r
}

} // verus!

verus! {

/// How many occurrences of `pat` in `s` start before position `k`.
pub open spec fn count_upto(s: Seq<char>, pat: Seq<char>, k: int) -> nat
    decreases k,
{
    if k <= 0 {
        0
    } else {
        count_upto(s, pat, k - 1) + if occurs_at(s, pat, k - 1) {
            1nat
        } else {
            0nat
        }
    }
}

/// How many times `pat` occurs in `s`.
pub open spec fn count_occ(s: Seq<char>, pat: Seq<char>) -> nat {
    count_upto(s, pat, s.len() as int)
}

/// No occurrence of `pat` in `a + b` starts in `a` and ends in `b`.
pub open spec fn no_straddle(a: Seq<char>, b: Seq<char>, pat: Seq<char>) -> bool {
    forall|p: int| 0 <= p < a.len() < p + pat.len() ==> !#[trigger] occurs_at(a + b, pat, p)
}

proof fn lemma_count_upto_prefix(a: Seq<char>, b: Seq<char>, pat: Seq<char>, k: int)
    requires
        0 <= k <= a.len(),
        no_straddle(a, b, pat),
    ensures
        count_upto(a + b, pat, k) == count_upto(a, pat, k),
    decreases k,
{
    if k > 0 {
        lemma_count_upto_prefix(a, b, pat, k - 1);
        let p = k - 1;
        if p + pat.len() <= a.len() {
            assert((a + b).subrange(p, p + pat.len()) == a.subrange(p, p + pat.len()));
        }
    }
}

proof fn lemma_count_upto_suffix(a: Seq<char>, b: Seq<char>, pat: Seq<char>, k: int)
    requires
        0 <= k <= b.len(),
        no_straddle(a, b, pat),
    ensures
        count_upto(a + b, pat, a.len() + k) == count_upto(a, pat, a.len() as int) + count_upto(
            b,
            pat,
            k,
        ),
    decreases k,
{
    if k == 0 {
        lemma_count_upto_prefix(a, b, pat, a.len() as int);
    } else {
        lemma_count_upto_suffix(a, b, pat, k - 1);
        let p = k - 1;
        if p + pat.len() <= b.len() {
            assert((a + b).subrange(a.len() + p, a.len() + p + pat.len()) == b.subrange(
                p,
                p + pat.len(),
            ));
        }
    }
}

/// Where no occurrence straddles the seam, the occurrences in `a + b` are
/// those in `a` and those in `b`.
pub proof fn lemma_count_concat(a: Seq<char>, b: Seq<char>, pat: Seq<char>)
    requires
        no_straddle(a, b, pat),
    ensures
        count_occ(a + b, pat) == count_occ(a, pat) + count_occ(b, pat),
{
    lemma_count_upto_suffix(a, b, pat, b.len() as int);
}

/// No occurrence straddles a seam where the left side ends in, or the right
/// side starts with, a character that `pat` cannot have there.
pub proof fn lemma_no_straddle(a: Seq<char>, b: Seq<char>, pat: Seq<char>)
    requires
        a.len() == 0 || b.len() == 0 || (forall|k: int| 1 <= k < pat.len() ==> pat[k] != b[0])
            || (forall|k: int| 0 <= k < pat.len() - 1 ==> pat[k] != a.last()),
    ensures
        no_straddle(a, b, pat),
{
    assert forall|p: int| 0 <= p < a.len() < p + pat.len() implies !#[trigger] occurs_at(
        a + b,
        pat,
        p,
    ) by {
        if occurs_at(a + b, pat, p) {
            let w = (a + b).subrange(p, p + pat.len());
            assert(w[a.len() - p] == b[0]);
            assert(w[a.len() - 1 - p] == a.last());
        }
    }
}

/// `pat` does not occur where no position matches it.
pub proof fn lemma_count_zero(s: Seq<char>, pat: Seq<char>)
    requires
        forall|p: int| 0 <= p < s.len() ==> !#[trigger] occurs_at(s, pat, p),
    ensures
        count_occ(s, pat) == 0,
{
    assert forall|k: int| 0 <= k <= s.len() implies #[trigger] count_upto(s, pat, k) == 0 by {
        lemma_count_upto_zero(s, pat, k);
    }
}

proof fn lemma_count_upto_zero(s: Seq<char>, pat: Seq<char>, k: int)
    requires
        0 <= k <= s.len(),
        forall|p: int| 0 <= p < s.len() ==> !#[trigger] occurs_at(s, pat, p),
    ensures
        count_upto(s, pat, k) == 0,
    decreases k,
{
    if k > 0 {
        lemma_count_upto_zero(s, pat, k - 1);
    }
}

/// A non-empty `pat` occurs once in itself.
pub proof fn lemma_count_self(pat: Seq<char>)
    requires
        pat.len() > 0,
    ensures
        count_occ(pat, pat) == 1,
{
    assert(pat.subrange(0, pat.len() as int) == pat);
    lemma_count_upto_zero_from(pat, pat.len() as int);
}

proof fn lemma_count_upto_zero_from(pat: Seq<char>, k: int)
    requires
        1 <= k <= pat.len(),
        pat.subrange(0, pat.len() as int) == pat,
    ensures
        count_upto(pat, pat, k) == 1,
    decreases k,
{
    if k > 1 {
        lemma_count_upto_zero_from(pat, k - 1);
        assert(!occurs_at(pat, pat, k - 1));
    } else {
        assert(count_upto(pat, pat, 0) == 0);
        assert(occurs_at(pat, pat, 0));
    }
}

/// A string without the first character of `pat` holds no occurrence.
pub proof fn lemma_count_without_head(s: Seq<char>, pat: Seq<char>)
    requires
        pat.len() > 0,
        forall|i: int| 0 <= i < s.len() ==> s[i] != pat[0],
    ensures
        count_occ(s, pat) == 0,
{
    assert forall|p: int| 0 <= p < s.len() implies !#[trigger] occurs_at(s, pat, p) by {
        if occurs_at(s, pat, p) {
            assert(s.subrange(p, p + pat.len())[0] == pat[0]);
        }
    }
    lemma_count_zero(s, pat);
}

/// The decimal rendering holds digits only.
pub proof fn lemma_decimal_digits(n: nat)
    ensures
        all_digits(decimal(n)),
        decimal(n).len() > 0,
    decreases n,
{
    if n >= 10 {
        lemma_decimal_digits(n / 10);
        let d = decimal(n / 10);
        let r = d + seq![digit_char(n % 10)];
        assert forall|i: int| 0 <= i < r.len() implies is_digit(#[trigger] r[i]) by {
            if i < d.len() {
                assert(r[i] == d[i]);
            }
        }
    }
}

} // verus!

verus! {

/// The first occurrence at or after `from` is at `j` where `pat` occurs at
/// `j` and nowhere between `from` and `j`.
pub proof fn lemma_find_at(s: Seq<char>, pat: Seq<char>, from: int, j: int)
    requires
        0 <= from <= j,
        occurs_at(s, pat, j),
        forall|k: int| from <= k < j ==> !#[trigger] occurs_at(s, pat, k),
    ensures
        find_spec(s, pat, from) == Some(j),
    decreases j - from,
{
    if from < j {
        lemma_find_at(s, pat, from + 1, j);
    }
}

/// Nothing is found where `pat` occurs nowhere at or after `from`.
pub proof fn lemma_find_absent(s: Seq<char>, pat: Seq<char>, from: int)
    requires
        0 <= from,
        forall|k: int| from <= k ==> !#[trigger] occurs_at(s, pat, k),
    ensures
        find_spec(s, pat, from) is None,
    decreases s.len() + 1 - from,
{
    if from + pat.len() <= s.len() {
        lemma_find_absent(s, pat, from + 1);
    }
}

/// `pat` occurs nowhere in `[lo, hi)` where each position there either
/// does not hold `pat`'s first character or is not followed by its second.
pub proof fn lemma_no_occ_by_prefix(s: Seq<char>, pat: Seq<char>, lo: int, hi: int)
    requires
        pat.len() >= 2,
        forall|k: int|
            lo <= k < hi && 0 <= k < s.len() ==> s[k] != pat[0] || (k + 1 < s.len() && #[trigger] s[k
                + 1] != pat[1]),
    ensures
        forall|k: int| lo <= k < hi ==> !#[trigger] occurs_at(s, pat, k),
{
    assert forall|k: int| lo <= k < hi implies !#[trigger] occurs_at(s, pat, k) by {
        if occurs_at(s, pat, k) {
            let w = s.subrange(k, k + pat.len());
            assert(w[0] == s[k]);
            assert(w[1] == s[k + 1]);
        }
    }
}

/// The decimal rendering of `n` reads back as `n`.
pub proof fn lemma_decimal_value(n: nat)
    ensures
        digits_value(decimal(n)) == n,
        all_digits(decimal(n)),
        decimal(n).len() > 0,
        n <= usize::MAX ==> parse_decimal(decimal(n)) == Some(n as usize),
    decreases n,
{
    lemma_decimal_digits(n);
    if n < 10 {
        let d = decimal(n);
        assert(d.drop_last() =~= Seq::<char>::empty());
        assert(digits_value(d.drop_last()) == 0);
        assert(d.last() == digit_char(n));
        assert(digit_value(digit_char(n)) == n);
        assert(digits_value(d) == digits_value(d.drop_last()) * 10 + digit_value(d.last()));
    } else {
        lemma_decimal_value(n / 10);
        let d = decimal(n);
        assert(d.drop_last() =~= decimal(n / 10));
        assert(d.last() == digit_char(n % 10));
        assert(digit_value(digit_char(n % 10)) == n % 10);
        assert(digits_value(d) == digits_value(d.drop_last()) * 10 + digit_value(d.last()));
        assert((n / 10) * 10 + n % 10 == n) by (nonlinear_arith);
    }
}

} // verus!
