//! Shared typo-tolerant fuzzy matching, used by both the host list and the macro
//! picker.
//!
//! [`fuzzy_score`] returns `Some(score)` (higher = better) for a match, or `None`
//! for no match; [`fuzzy_match`] is `fuzzy_score(..).is_some()`.
//!
//! Tiers, strongest first:
//! 1. **Substring**: `target` contains the query verbatim. Bonus for matching at
//!    the start or right after a separator, penalty the further in it sits.
//! 2. **Subsequence**: all query chars appear in order with gaps. Bonus for
//!    consecutive runs and matches at word boundaries; penalty for gaps.
//! 3. **Typo fallback**: a small edit distance, only for queries of 3+ chars.
//!
//! Spaces in the query are ignored throughout (so "fen 3" acts like "fen3").
//!
//! The scores are computed exactly and returned as `i32`; the contract states
//! the exact value for every target shorter than 2^31 characters.

use vstd::prelude::*;

use crate::text::{chars_of, char_is_alphabetic, char_is_numeric, is_alphabetic, is_numeric};

verus! {

/// Score of a substring match before the position/length adjustments.
pub const SUBSTRING_BASE: i32 = 10_000;

/// Score of a subsequence match before its bonus.
pub const SUBSEQUENCE_BASE: i32 = 5_000;

/// Score of a zero-distance typo match; each edit costs 100.
pub const TYPO_BASE: i32 = 1_000;

// ───────────────────────── specification ─────────────────────────

/// Separator characters that mark a word boundary in host/macro names.
pub open spec fn is_sep_spec(c: char) -> bool {
    c == '-' || c == '_' || c == ' ' || c == '.' || c == '/' || c == ':' || c == '@'
}

/// `s` with every space removed.
pub open spec fn strip_spaces(s: Seq<char>) -> Seq<char>
    decreases s.len(),
{
    if s.len() == 0 {
        Seq::empty()
    } else if s.last() == ' ' {
        strip_spaces(s.drop_last())
    } else {
        strip_spaces(s.drop_last()).push(s.last())
    }
}

/// `q` occurs in `t` starting at position `p`.
pub open spec fn occurs_at(t: Seq<char>, q: Seq<char>, p: int) -> bool {
    0 <= p && p + q.len() <= t.len() && t.subrange(p, p + q.len()) == q
}

/// The first position at or after `from` where `q` occurs in `t`.
pub open spec fn find_from(t: Seq<char>, q: Seq<char>, from: int) -> Option<int>
    decreases t.len() + 1 - from,
{
    if from < 0 || from + q.len() > t.len() {
        None
    } else if occurs_at(t, q, from) {
        Some(from)
    } else {
        find_from(t, q, from + 1)
    }
}

/// The first position where `q` occurs in `t` (`str::find`, in characters).
pub open spec fn find_first(t: Seq<char>, q: Seq<char>) -> Option<int> {
    find_from(t, q, 0)
}

/// Position `p > 0` of `t` starts a word: right after a separator, or at a
/// letter-to-digit transition.
pub open spec fn boundary_at(t: Seq<char>, p: int) -> bool {
    0 < p <= t.len() && (is_sep_spec(t[p - 1]) || (char_is_alphabetic(t[p - 1]) && p < t.len()
        && char_is_numeric(t[p])))
}

/// Score of a substring match of `q` at position `p` of `t`.
pub open spec fn substring_score(q: Seq<char>, t: Seq<char>, p: int) -> int {
    let bonus: int = if p == 0 {
        100
    } else if boundary_at(t, p) {
        50
    } else {
        0
    };
    let surplus: int = if t.len() > q.len() {
        t.len() - q.len()
    } else {
        0
    };
    SUBSTRING_BASE - 2 * p + bonus - surplus
}

/// The first index at or after `from` holding `c`.
pub open spec fn index_of_from(t: Seq<char>, c: char, from: int) -> Option<int>
    decreases t.len() - from,
{
    if from < 0 || from >= t.len() {
        None
    } else if t[from] == c {
        Some(from)
    } else {
        index_of_from(t, c, from + 1)
    }
}

/// Bonus for a subsequence hit at `mi`: start, after a separator, or a
/// letter-to-digit shift.
pub open spec fn hit_bonus(t: Seq<char>, mi: int) -> int {
    if mi == 0 || is_sep_spec(t[mi - 1]) || (char_is_alphabetic(t[mi - 1]) && char_is_numeric(
        t[mi],
    )) {
        30
    } else {
        0
    }
}

/// Change of the subsequence score for a hit at `mi` after the previous hit `prev`.
pub open spec fn hit_step(t: Seq<char>, prev: Option<int>, mi: int) -> int {
    hit_bonus(t, mi) + match prev {
        Some(p) => if mi == p + 1 {
            20
        } else {
            -(mi - p - 1)
        },
        None => -mi,
    }
}

/// Greedy subsequence match of `q[qi..]` in `t` after the previous hit `prev`,
/// starting with accumulated score `acc`: each query char takes its first
/// occurrence after the previous hit. `None` if some char has none.
pub open spec fn subseq_from(q: Seq<char>, t: Seq<char>, qi: int, prev: Option<int>, acc: int) -> Option<int>
    decreases q.len() - qi,
{
    if qi < 0 || qi >= q.len() {
        Some(acc)
    } else {
        let from = match prev {
            Some(p) => p + 1,
            None => 0,
        };
        match index_of_from(t, q[qi], from) {
            None => None,
            Some(mi) => subseq_from(q, t, qi + 1, Some(mi), acc + hit_step(t, prev, mi)),
        }
    }
}

/// The subsequence bonus of `q` in `t`, or `None` if `q` is not a subsequence.
pub open spec fn subseq_score(q: Seq<char>, t: Seq<char>) -> Option<int> {
    subseq_from(q, t, 0, None, 0)
}

pub open spec fn min2(a: int, b: int) -> int {
    if a <= b {
        a
    } else {
        b
    }
}

/// Optimal String Alignment (Levenshtein plus adjacent transpositions) of
/// `q[..i]` against a substring of `t` that ends at `j`; row 0 is all zeros so
/// the substring may start anywhere.
pub open spec fn osa(q: Seq<char>, t: Seq<char>, i: int, j: int) -> int
    decreases i, j,
{
    if i <= 0 {
        0
    } else if j <= 0 {
        i
    } else {
        let cost: int = if q[i - 1] == t[j - 1] {
            0
        } else {
            1
        };
        let base = min2(min2(osa(q, t, i - 1, j) + 1, osa(q, t, i, j - 1) + 1), osa(q, t, i - 1, j - 1) + cost);
        if i > 1 && j > 1 && q[i - 1] == t[j - 2] && q[i - 2] == t[j - 1] {
            min2(base, osa(q, t, i - 2, j - 2) + 1)
        } else {
            base
        }
    }
}

/// The smallest `osa(q, t, |q|, k)` over `0 <= k <= j`.
pub open spec fn osa_row_min(q: Seq<char>, t: Seq<char>, j: int) -> int
    decreases j,
{
    if j <= 0 {
        osa(q, t, q.len() as int, 0)
    } else {
        min2(osa_row_min(q, t, j - 1), osa(q, t, q.len() as int, j))
    }
}

/// Minimum OSA distance of `q` against the best-matching substring of `t`.
pub open spec fn osa_distance(q: Seq<char>, t: Seq<char>) -> int {
    if q.len() == 0 {
        0
    } else {
        osa_row_min(q, t, t.len() as int)
    }
}

/// How many edits the typo tier tolerates for a query of `len` chars.
pub open spec fn typo_threshold(len: nat) -> int {
    if len / 4 >= 1 {
        (len / 4) as int
    } else {
        1
    }
}

/// The ranked match of `query` against `target` (both already lowercased):
/// `Some(score)`, higher = closer, or `None` for no match.
pub open spec fn spec_fuzzy_score(query: Seq<char>, target: Seq<char>) -> Option<int> {
    let q = strip_spaces(query);
    if q.len() == 0 {
        Some(0)
    } else {
        match find_first(target, q) {
            Some(p) => Some(substring_score(q, target, p)),
            None => match subseq_score(q, target) {
                Some(b) => Some(SUBSEQUENCE_BASE + b),
                None => if q.len() < 3 {
                    None
                } else {
                    let d = osa_distance(q, target);
                    if d <= typo_threshold(q.len()) {
                        Some(TYPO_BASE - 100 * d)
                    } else {
                        None
                    }
                },
            },
        }
    }
}

// ───────────────────────── executable code ─────────────────────────

/// Match `query` against `target` (both already lowercased). True if they match
/// at all; see [`fuzzy_score`] for the ranked variant.
pub fn fuzzy_match(query: &str, target: &str) -> (r: bool)
    ensures
        r == spec_fuzzy_score(query@, target@) is Some,
{
    fuzzy_score(query, target).is_some()
}

/// The score as an `i32`: the exact score, which fits whenever the target has
/// fewer than 2^30 characters (see [`lemma_score_fits_i32`]).
pub open spec fn spec_fuzzy_i32(query: Seq<char>, target: Seq<char>) -> Option<i32> {
    match spec_fuzzy_score(query, target) {
        Some(s) => Some(s as i32),
        None => None,
    }
}

/// Rank `query` against `target` (both already lowercased). Returns `Some(score)`
/// where a higher score means a closer match, or `None` if they do not match.
pub fn fuzzy_score(query: &str, target: &str) -> (r: Option<i32>)
    ensures
        r == spec_fuzzy_i32(query@, target@),
{
    let qall = chars_of(query);
    let t = chars_of(target);
    let q = strip_spaces_vec(&qall);
    if q.len() == 0 {
        return Some(0);
    }
    // Tier 1: exact substring.
    if let Some(p) = find_substring(&t, &q) {
        let n = t.len();
        let m = q.len();
        let mut score: i128 = SUBSTRING_BASE as i128 - (p as i128) * 2;
        if p == 0 {
            score = score + 100;
        } else if is_boundary(&t, p) {
            score = score + 50;
        }
        // Shorter targets that are "more fully" matched rank a touch higher.
        if n > m {
            score = score - (n - m) as i128;
        }
        proof {
            assert(find_first(t@, q@) == Some(p as int));
            assert(score == substring_score(q@, t@, p as int));
        }
        return Some(#[verifier::truncate] (score as i32));
    }
    // Tier 2: subsequence with contiguity / boundary bonuses.
    if let Some(bonus) = subsequence_score(&q, &t) {
        let s: i32 = #[verifier::truncate] ((SUBSEQUENCE_BASE as i128 + bonus) as i32);
        proof {
            assert(find_first(t@, q@) is None);
            assert(subseq_score(q@, t@) == Some(bonus as int));
        }
        return Some(s);
    }
    // Tier 3: typo tolerance, only for queries of at least 3 chars.
    let qlen = q.len();
    if qlen < 3 {
        return None;
    }
    let threshold: usize = if qlen / 4 >= 1 {
        qlen / 4
    } else {
        1
    };
    let dist = osa_substring_distance(&q, &t);
    if dist <= threshold {
        let s: i32 = #[verifier::truncate] ((TYPO_BASE as i128 - (dist as i128) * 100) as i32);
        return Some(s);
    }
    None
}

/// `s` with every space removed.
fn strip_spaces_vec(s: &Vec<char>) -> (r: Vec<char>)
    ensures
        r@ == strip_spaces(s@),
        r@.len() <= s@.len(),
{
    let mut r: Vec<char> = Vec::new();
    let mut i: usize = 0;
    while i < s.len()
        invariant
            0 <= i <= s@.len(),
            r@ == strip_spaces(s@.take(i as int)),
            r@.len() <= i,
        decreases s@.len() - i,
    {
        let c = s[i];
        proof {
            assert(s@.take(i + 1).drop_last() =~= s@.take(i as int));
        }
        if c != ' ' {
            r.push(c);
        }
        i = i + 1;
    }
    assert(s@.take(s@.len() as int) =~= s@);
    r
}

/// True iff `q` occurs in `t` at `p`.
fn occurs_at_exec(t: &Vec<char>, q: &Vec<char>, p: usize) -> (r: bool)
    requires
        q@.len() <= t@.len(),
        p <= t@.len() - q@.len(),
    ensures
        r == occurs_at(t@, q@, p as int),
{
    let m = q.len();
    let n = t.len();
    let mut k: usize = 0;
    while k < m
        invariant
            0 <= k <= m,
            m == q@.len(),
            n == t@.len(),
            q@.len() <= t@.len(),
            p <= t@.len() - q@.len(),
            forall|i: int| 0 <= i < k ==> t@[p + i] == q@[i],
        decreases m - k,
    {
        assert(p + k < t@.len());
        if t[p + k] != q[k] {
            assert(t@.subrange(p as int, p + m)[k as int] != q@[k as int]);
            return false;
        }
        k = k + 1;
    }
    assert(t@.subrange(p as int, p + m) =~= q@);
    true
}

/// The first position where `q` occurs in `t` (in characters).
fn find_substring(t: &Vec<char>, q: &Vec<char>) -> (r: Option<usize>)
    requires
        q@.len() >= 1,
    ensures
        r is None <==> find_first(t@, q@) is None,
        r matches Some(p) ==> find_first(t@, q@) == Some(p as int) && occurs_at(t@, q@, p as int),
{
    let n = t.len();
    let m = q.len();
    if m > n {
        return None;
    }
    let mut p: usize = 0;
    while p <= n - m
        invariant
            1 <= m <= n,
            n == t@.len(),
            m == q@.len(),
            0 <= p <= n - m + 1,
            find_first(t@, q@) == find_from(t@, q@, p as int),
        decreases n - m + 1 - p,
    {
        if occurs_at_exec(t, q, p) {
            return Some(p);
        }
        p = p + 1;
    }
    None
}

/// Separator characters that mark a word boundary in host/macro names.
fn is_sep(c: char) -> (r: bool)
    ensures
        r == is_sep_spec(c),
{
    c == '-' || c == '_' || c == ' ' || c == '.' || c == '/' || c == ':' || c == '@'
}

/// True if a substring starting at char index `pos > 0` begins at a word
/// boundary: right after a separator, or at a letter-to-digit transition.
fn is_boundary(t: &Vec<char>, pos: usize) -> (r: bool)
    requires
        0 < pos <= t@.len(),
    ensures
        r == boundary_at(t@, pos as int),
{
    let prev = t[pos - 1];
    if is_sep(prev) {
        return true;
    }
    if pos < t.len() {
        is_alphabetic(prev) && is_numeric(t[pos])
    } else {
        false
    }
}

proof fn lemma_index_of_skip(t: Seq<char>, c: char, from: int)
    requires
        0 <= from < t.len(),
        t[from] != c,
    ensures
        index_of_from(t, c, from) == index_of_from(t, c, from + 1),
{
}

proof fn lemma_index_of_found(t: Seq<char>, c: char, from: int)
    ensures
        index_of_from(t, c, from) matches Some(mi) ==> from <= mi < t.len() && t[mi] == c,
    decreases t.len() - from,
{
    if 0 <= from < t.len() && t[from] != c {
        lemma_index_of_found(t, c, from + 1);
    }
}

/// Greedy subsequence scorer: walks `t` once, matching each `q` char in order.
/// Returns the exact bonus, or `None` if not all query chars are found in order.
fn subsequence_score(q: &Vec<char>, t: &Vec<char>) -> (r: Option<i128>)
    requires
        t@.len() <= isize::MAX,
        q@.len() <= isize::MAX,
    ensures
        r is None <==> subseq_score(q@, t@) is None,
        r matches Some(b) ==> subseq_score(q@, t@) == Some(b as int),
        r matches Some(b) ==> -(t@.len() as int) <= b <= 50 * q@.len(),
{
    let n = t.len();
    let mut score: i128 = 0;
    let mut ti: usize = 0;
    let mut prev_match: Option<usize> = None;
    let mut qi: usize = 0;
    while qi < q.len()
        invariant
            n == t@.len(),
            n <= isize::MAX,
            q@.len() <= isize::MAX,
            0 <= qi <= q@.len(),
            ti <= n,
            ti == match prev_match {
                Some(p) => p + 1,
                None => 0,
            },
            -(ti as int) <= score <= 50 * qi,
            subseq_score(q@, t@) == subseq_from(
                q@,
                t@,
                qi as int,
                match prev_match {
                    Some(p) => Some(p as int),
                    None => None,
                },
                score as int,
            ),
        decreases q@.len() - qi,
    {
        let qc = q[qi];
        let ghost from = ti as int;
        let mut matched: Option<usize> = None;
        while ti < n
            invariant_except_break
                n == t@.len(),
                from <= ti <= n,
                index_of_from(t@, qc, from) == index_of_from(t@, qc, ti as int),
                matched is None,
            ensures
                from <= ti <= n,
                match matched {
                    Some(mi) => index_of_from(t@, qc, from) == Some(mi as int) && mi == ti,
                    None => index_of_from(t@, qc, from) is None,
                },
            decreases n - ti,
        {
            if t[ti] == qc {
                matched = Some(ti);
                break;
            }
            proof {
                lemma_index_of_skip(t@, qc, ti as int);
            }
            ti = ti + 1;
        }
        let mi = match matched {
            Some(mi) => mi,
            None => {
                return None;
            },
        };
        proof {
            lemma_index_of_found(t@, qc, from);
        }
        let ghost prev_spec: Option<int> = match prev_match {
            Some(p) => Some(p as int),
            None => None,
        };
        let ghost old_score = score as int;
        if mi == 0 || is_sep(t[mi - 1]) || (is_alphabetic(t[mi - 1]) && is_numeric(t[mi])) {
            score = score + 30;
        }
        match prev_match {
            Some(p) => {
                if mi == p + 1 {
                    score = score + 20;
                } else {
                    score = score - (mi - p - 1) as i128;
                }
            },
            None => {
                score = score - mi as i128;
            },
        }
        assert(score == old_score + hit_step(t@, prev_spec, mi as int));
        prev_match = Some(mi);
        ti = mi + 1;
        qi = qi + 1;
    }
    Some(score)
}

pub proof fn lemma_osa_bounds(q: Seq<char>, t: Seq<char>, i: int, j: int)
    requires
        0 <= i <= q.len(),
        0 <= j <= t.len(),
    ensures
        0 <= osa(q, t, i, j) <= i,
    decreases i, j,
{
    if i > 0 && j > 0 {
        lemma_osa_bounds(q, t, i - 1, j);
        lemma_osa_bounds(q, t, i, j - 1);
        lemma_osa_bounds(q, t, i - 1, j - 1);
        if i > 1 && j > 1 {
            lemma_osa_bounds(q, t, i - 2, j - 2);
        }
    }
}

/// Minimum Optimal String Alignment distance (Levenshtein plus adjacent
/// transpositions) of `q` against the best-matching substring of `t`. Runs in
/// `O(|q| * |t|)` with three rolling rows (the third holds row i-2, needed for
/// the transposition case).
fn osa_substring_distance(q: &Vec<char>, t: &Vec<char>) -> (r: usize)
    requires
        t@.len() <= isize::MAX,
        q@.len() <= isize::MAX,
    ensures
        r == osa_distance(q@, t@),
{
    let m = q.len();
    let n = t.len();
    if m == 0 {
        return 0;
    }
    if n == 0 {
        assert(osa_row_min(q@, t@, 0) == m);
        return m;
    }
    let mut prev2: Vec<usize> = vec![0usize; n + 1];  // row i-2
    let mut prev: Vec<usize> = vec![0usize; n + 1];  // row i-1 (row 0 = all zeros)
    let mut cur: Vec<usize> = vec![0usize; n + 1];
    let mut i: usize = 1;
    while i <= m
        invariant
            m == q@.len(),
            n == t@.len(),
            1 <= m <= isize::MAX,
            1 <= n <= isize::MAX,
            1 <= i <= m + 1,
            prev2@.len() == n + 1,
            prev@.len() == n + 1,
            cur@.len() == n + 1,
            forall|j: int| 0 <= j <= n ==> #[trigger] prev@[j] == osa(q@, t@, i - 1, j),
            i >= 2 ==> forall|j: int| 0 <= j <= n ==> #[trigger] prev2@[j] == osa(
                q@,
                t@,
                i - 2,
                j,
            ),
        decreases m + 1 - i,
    {
        cur.set(0, i);
        let mut j: usize = 1;
        while j <= n
            invariant
                m == q@.len(),
                n == t@.len(),
                1 <= m <= isize::MAX,
                1 <= n <= isize::MAX,
                1 <= i <= m,
                1 <= j <= n + 1,
                prev2@.len() == n + 1,
                prev@.len() == n + 1,
                cur@.len() == n + 1,
                forall|k: int| 0 <= k <= n ==> #[trigger] prev@[k] == osa(q@, t@, i - 1, k),
                i >= 2 ==> forall|k: int| 0 <= k <= n ==> #[trigger] prev2@[k] == osa(
                    q@,
                    t@,
                    i - 2,
                    k,
                ),
                forall|k: int| 0 <= k < j ==> #[trigger] cur@[k] == osa(q@, t@, i as int, k),
            decreases n + 1 - j,
        {
            proof {
                lemma_osa_bounds(q@, t@, i - 1, j as int);
                lemma_osa_bounds(q@, t@, i as int, j - 1);
                lemma_osa_bounds(q@, t@, i - 1, j - 1);
            }
            let cost: usize = if q[i - 1] == t[j - 1] {
                0
            } else {
                1
            };
            let a = prev[j] + 1;
            let b = cur[j - 1] + 1;
            let c = prev[j - 1] + cost;
            let ab = if a <= b {
                a
            } else {
                b
            };
            let mut val = if ab <= c {
                ab
            } else {
                c
            };
            if i > 1 && j > 1 && q[i - 1] == t[j - 2] && q[i - 2] == t[j - 1] {
                proof {
                    lemma_osa_bounds(q@, t@, i - 2, j - 2);
                }
                let d = prev2[j - 2] + 1;
                if d < val {
                    val = d;
                }
            }
            cur.set(j, val);
            j = j + 1;
        }
        std::mem::swap(&mut prev2, &mut prev);
        std::mem::swap(&mut prev, &mut cur);
        i = i + 1;
    }
    // `prev` holds row m; the match may end at any column.
    let mut best: usize = prev[0];
    let mut k: usize = 1;
    while k <= n
        invariant
            m == q@.len(),
            n == t@.len(),
            1 <= k <= n + 1,
            n <= isize::MAX,
            prev@.len() == n + 1,
            forall|j: int| 0 <= j <= n ==> #[trigger] prev@[j] == osa(q@, t@, m as int, j),
            best == osa_row_min(q@, t@, k - 1),
        decreases n + 1 - k,
    {
        if prev[k] < best {
            best = prev[k];
        }
        k = k + 1;
    }
    best
}


// ───────────────────────── laws ─────────────────────────

proof fn lemma_strip_spaces_no_space(s: Seq<char>)
    ensures
        forall|i: int| 0 <= i < strip_spaces(s).len() ==> #[trigger] strip_spaces(s)[i] != ' ',
    decreases s.len(),
{
    if s.len() > 0 {
        lemma_strip_spaces_no_space(s.drop_last());
        let r = strip_spaces(s.drop_last());
        if s.last() != ' ' {
            assert forall|i: int| 0 <= i < r.push(s.last()).len() implies #[trigger] r.push(
                s.last(),
            )[i] != ' ' by {
                if i < r.len() {
                    assert(r[i] != ' ');
                }
            }
        }
    }
}

proof fn lemma_strip_spaces_fixed(s: Seq<char>)
    requires
        forall|i: int| 0 <= i < s.len() ==> #[trigger] s[i] != ' ',
    ensures
        strip_spaces(s) == s,
    decreases s.len(),
{
    if s.len() > 0 {
        assert forall|i: int| 0 <= i < s.drop_last().len() implies #[trigger] s.drop_last()[i] != ' ' by {
            assert(s.drop_last()[i] == s[i]);
        }
        lemma_strip_spaces_fixed(s.drop_last());
        assert(s.drop_last().push(s.last()) =~= s);
    }
}

/// Spaces in the query are ignored: a query scores exactly as the same query
/// with every space removed.
pub proof fn lemma_spaces_ignored(query: Seq<char>, target: Seq<char>)
    ensures
        spec_fuzzy_score(query, target) == spec_fuzzy_score(strip_spaces(query), target),
{
    lemma_strip_spaces_no_space(query);
    lemma_strip_spaces_fixed(strip_spaces(query));
}

/// A query that is empty once spaces are removed matches everything with score 0.
pub proof fn lemma_empty_query_scores_zero(query: Seq<char>, target: Seq<char>)
    requires
        strip_spaces(query).len() == 0,
    ensures
        spec_fuzzy_score(query, target) == Some(0int),
{
}

/// Queries shorter than 3 characters (spaces aside) get no typo tolerance: they
/// match only as a substring or as an in-order subsequence.
pub proof fn lemma_short_queries_need_order(query: Seq<char>, target: Seq<char>)
    requires
        1 <= strip_spaces(query).len() < 3,
    ensures
        spec_fuzzy_score(query, target) is Some <==> (find_first(target, strip_spaces(query)) is Some
            || subseq_score(strip_spaces(query), target) is Some),
{
}

proof fn lemma_find_from_occurs(t: Seq<char>, q: Seq<char>, from: int)
    ensures
        find_from(t, q, from) matches Some(p) ==> from <= p && occurs_at(t, q, p),
    decreases t.len() + 1 - from,
{
    if !(from < 0 || from + q.len() > t.len()) && !occurs_at(t, q, from) {
        lemma_find_from_occurs(t, q, from + 1);
    }
}

proof fn lemma_subseq_bounds(q: Seq<char>, t: Seq<char>, qi: int, prev: Option<int>, acc: int)
    requires
        0 <= qi <= q.len(),
        prev matches Some(p) ==> 0 <= p < t.len(),
    ensures
        ({
            let from = match prev {
                Some(p) => p + 1,
                None => 0,
            };
            subseq_from(q, t, qi, prev, acc) matches Some(r) ==> acc - (t.len() - from) <= r <= acc
                + 50 * (q.len() - qi) && q.len() - qi <= t.len() - from
        }),
    decreases q.len() - qi,
{
    if qi < q.len() {
        let from = match prev {
            Some(p) => p + 1,
            None => 0,
        };
        lemma_index_of_found(t, q[qi], from);
        match index_of_from(t, q[qi], from) {
            None => {},
            Some(mi) => {
                lemma_subseq_bounds(q, t, qi + 1, Some(mi), acc + hit_step(t, prev, mi));
            },
        }
    }
}

/// Score range of each tier for a target of `n` characters: a substring match
/// scores in `[10000 - 3n, 10100]`, a subsequence match in `[5000 - n, 5000 + 50n]`,
/// a typo match in `[1000 - 100 * max(|q| / 4, 1), 1000]`.
pub proof fn lemma_tier_ranges(query: Seq<char>, target: Seq<char>)
    ensures
        ({
            let q = strip_spaces(query);
            let n = target.len();
            spec_fuzzy_score(query, target) matches Some(s) ==> {
                &&& (q.len() > 0 && find_first(target, q) is Some) ==> SUBSTRING_BASE - 3 * n <= s
                    <= SUBSTRING_BASE + 100
                &&& (q.len() > 0 && find_first(target, q) is None && subseq_score(q, target) is Some)
                    ==> SUBSEQUENCE_BASE - n <= s <= SUBSEQUENCE_BASE + 50 * q.len() && q.len() <= n
                &&& (q.len() > 0 && find_first(target, q) is None && subseq_score(q, target) is None)
                    ==> TYPO_BASE - 100 * typo_threshold(q.len()) <= s <= TYPO_BASE
            }
        }),
{
    let q = strip_spaces(query);
    if q.len() > 0 {
        lemma_find_from_occurs(target, q, 0);
        lemma_subseq_bounds(q, target, 0, None, 0);
        if find_first(target, q) is None && subseq_score(q, target) is None && q.len() >= 3 {
            let d = osa_distance(q, target);
            assert(typo_threshold(q.len()) <= q.len() / 4 + 1);
            assert(d >= 0) by {
                lemma_osa_row_min_nonneg(q, target, target.len() as int);
            }
        }
    }
}

proof fn lemma_osa_row_min_nonneg(q: Seq<char>, t: Seq<char>, j: int)
    requires
        0 <= j <= t.len(),
    ensures
        osa_row_min(q, t, j) >= 0,
    decreases j,
{
    lemma_osa_bounds(q, t, q.len() as int, j);
    lemma_osa_bounds(q, t, q.len() as int, 0);
    if j > 0 {
        lemma_osa_row_min_nonneg(q, t, j - 1);
    }
}

/// Higher tiers beat lower ones: a substring match outranks any subsequence or
/// typo match of the same query when three times the target's length plus 50
/// times the query's (spaces left out) stays under 5000 (for instance targets
/// of up to 1000 characters and queries of up to 30), and a subsequence match
/// outranks any typo match for targets under 4000 characters.
pub proof fn lemma_tiers_rank(query: Seq<char>, better: Seq<char>, worse: Seq<char>)
    requires
        strip_spaces(query).len() > 0,
        spec_fuzzy_score(query, worse) is Some,
        (find_first(better, strip_spaces(query)) is Some && find_first(worse, strip_spaces(query)) is None
            && 3 * better.len() + 50 * strip_spaces(query).len() < 5000) || (find_first(better, strip_spaces(query)) is None
            && subseq_score(strip_spaces(query), better) is Some && find_first(worse, strip_spaces(query))
            is None && subseq_score(strip_spaces(query), worse) is None && better.len() < 4000),
    ensures
        spec_fuzzy_score(query, better) is Some,
        spec_fuzzy_score(query, better)->0 > spec_fuzzy_score(query, worse)->0,
{
    lemma_tier_ranges(query, better);
    lemma_tier_ranges(query, worse);
}


proof fn lemma_strip_spaces_len(s: Seq<char>)
    ensures
        strip_spaces(s).len() <= s.len(),
    decreases s.len(),
{
    if s.len() > 0 {
        lemma_strip_spaces_len(s.drop_last());
    }
}

/// For queries and targets under ten million characters the score fits in an
/// `i32`, so [`fuzzy_score`] returns it exactly.
pub proof fn lemma_score_fits_i32(query: Seq<char>, target: Seq<char>)
    requires
        query.len() < 10_000_000,
        target.len() < 10_000_000,
    ensures
        spec_fuzzy_score(query, target) matches Some(s) ==> i32::MIN <= s <= i32::MAX
            && spec_fuzzy_i32(query, target) == Some(s as i32),
{
    lemma_tier_ranges(query, target);
    lemma_strip_spaces_len(query);
    let q = strip_spaces(query);
    if q.len() > 0 && find_first(target, q) is None {
        lemma_subseq_bounds(q, target, 0, None, 0);
    }
}

} // verus!
