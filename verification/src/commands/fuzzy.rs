//! Fuzzy subsequence matching for `/` completion prediction.
//!
//! `fuzzy_match` answers "does `query` appear as a (not necessarily
//! consecutive) subsequence of `text`?" and returns a score where **lower is
//! better**: consecutive runs, word-boundary hits and exact matches are
//! rewarded; gaps and late positions are penalised. Scores are integers, so
//! the matcher is deterministic.
use vstd::prelude::*;
use crate::text::{chars_of, eq_chars};

verus! {

/// Reward per char after the first in a consecutive run.
pub const CONSECUTIVE_BONUS: i64 = 50;
/// Reward for a hit preceded by a word boundary.
pub const WORD_BOUNDARY_BONUS: i64 = 100;
/// Reward when the query equals the text.
pub const EXACT_BONUS: i64 = 1000;
/// Penalty per skipped char between hits.
pub const GAP_PENALTY: i64 = 20;
/// Penalty per index position of a hit.
pub const POSITION_PENALTY: i64 = 1;

/// The highest running score a scan can reach for a query of `qlen` chars
/// and a text of `tl` chars: at most `min(qlen, tl)` hits at distinct
/// positions below `tl`, plus the gap penalties, which add up to at most
/// `20 * tl`. Scores fit an `i64` whenever this does.
pub open spec fn score_peak(qlen: nat, tl: nat) -> int {
    let m: int = if qlen <= tl {
        qlen as int
    } else {
        tl as int
    };
    20 * tl + m * tl - triangle(m)
}

/// `1 + 2 + ... + n`.
pub open spec fn triangle(n: int) -> int
    decreases n,
{
    if n <= 0 {
        0
    } else {
        n + triangle(n - 1)
    }
}

/// The running-score bound after `qi` hits, the last one before `ti`.
spec fn running_bound(qi: int, ti: int) -> int {
    20 * ti + qi * ti - triangle(qi)
}

/// Characters that count as a word boundary immediately before a hit; the
/// start of the text counts too.
pub open spec fn spec_is_boundary(prev: Option<char>) -> bool {
    match prev {
        None => true,
        Some(c) => c == ' ' || c == '-' || c == '_' || c == '.' || c == '/' || c == ':',
    }
}

fn is_boundary(prev: Option<char>) -> (b: bool)
    ensures
        b == spec_is_boundary(prev),
{
    match prev {
        None => true,
        Some(c) => c == ' ' || c == '-' || c == '_' || c == '.' || c == '/' || c == ':',
    }
}

/// First index at or after `i` where `t` holds `c`.
pub open spec fn first_from(t: Seq<char>, c: char, i: nat) -> Option<nat>
    decreases t.len() - i,
{
    if i >= t.len() {
        None
    } else if t[i as int] == c {
        Some(i)
    } else {
        first_from(t, c, i + 1)
    }
}

/// The char just before index `i`, if any.
pub open spec fn prev_char(t: Seq<char>, i: nat) -> Option<char> {
    if i == 0 || i > t.len() {
        None
    } else {
        Some(t[i - 1])
    }
}

/// Length of the consecutive run after a hit at `i` when the scan stood at `ti`.
pub open spec fn run_after(ti: nat, i: nat, consecutive: nat) -> nat {
    if i == ti {
        consecutive + 1
    } else {
        0
    }
}

/// The score one hit at `i` adds when the scan stood at `ti`.
pub open spec fn hit_score(t: Seq<char>, ti: nat, i: nat, consecutive: nat) -> int {
    (if i == ti {
        0
    } else {
        GAP_PENALTY * (i - ti)
    }) + POSITION_PENALTY * i - (if spec_is_boundary(prev_char(t, i)) {
        WORD_BOUNDARY_BONUS as int
    } else {
        0
    }) - (if run_after(ti, i, consecutive) > 1 {
        CONSECUTIVE_BONUS as int
    } else {
        0
    })
}

/// Greedy forward scan from query index `qi` and text index `ti`: each query
/// char is matched at its earliest position; the result is the sum of the
/// hit scores, or `None` when some char is not found.
pub open spec fn scan(q: Seq<char>, t: Seq<char>, qi: nat, ti: nat, consecutive: nat) -> Option<int>
    decreases q.len() - qi,
{
    if qi >= q.len() {
        Some(0)
    } else {
        match first_from(t, q[qi as int], ti) {
            None => None,
            Some(i) => match scan(q, t, qi + 1, i + 1, run_after(ti, i, consecutive)) {
                None => None,
                Some(rest) => Some(hit_score(t, ti, i, consecutive) + rest),
            },
        }
    }
}

/// The score of `query` against `text`; lower is better.
pub open spec fn spec_fuzzy(q: Seq<char>, t: Seq<char>) -> Option<int> {
    if q.len() == 0 {
        Some(0)
    } else if t.len() == 0 {
        None
    } else if q == t {
        Some(-EXACT_BONUS)
    } else {
        scan(q, t, 0, 0, 0)
    }
}

proof fn lemma_first_from(t: Seq<char>, c: char, i: nat)
    ensures
        match first_from(t, c, i) {
            Some(j) => i <= j < t.len() && t[j as int] == c,
            None => true,
        },
    decreases t.len() - i,
{
    if i < t.len() && t[i as int] != c {
        lemma_first_from(t, c, i + 1);
    }
}

/// One more hit at `i` keeps the running score under the bound.
proof fn lemma_bound_step(qi: int, ti: int, i: int)
    requires
        0 <= qi,
        0 <= ti <= i,
    ensures
        running_bound(qi, ti) + 20 * (i - ti) + i <= running_bound(qi + 1, i + 1),
{
    assert((qi + 1) * (i + 1) == qi * i + qi + i + 1) by (nonlinear_arith);
    assert(qi * ti <= qi * i) by (nonlinear_arith)
        requires
            0 <= qi,
            ti <= i,
    ;
    assert(triangle(qi + 1) == qi + 1 + triangle(qi));
}

/// More hits, up to the text's length, only raise the bound.
proof fn lemma_bound_hits(qi: int, m: int, tl: int)
    requires
        0 <= qi <= m <= tl,
    ensures
        running_bound(qi, tl) <= running_bound(m, tl),
    decreases m - qi,
{
    if qi < m {
        assert((qi + 1) * tl == qi * tl + tl) by (nonlinear_arith);
        assert(triangle(qi + 1) == qi + 1 + triangle(qi));
        lemma_bound_hits(qi + 1, m, tl);
    }
}

/// The bound never exceeds the peak.
proof fn lemma_bound_peak(qi: int, ti: int, qlen: nat, tl: nat)
    requires
        0 <= qi <= ti <= tl,
        qi <= qlen,
    ensures
        running_bound(qi, ti) <= score_peak(qlen, tl),
        20 * tl <= score_peak(qlen, tl),
{
    let m: int = if qlen <= tl {
        qlen as int
    } else {
        tl as int
    };
    assert(qi * ti <= qi * tl) by (nonlinear_arith)
        requires
            0 <= qi,
            ti <= tl,
    ;
    lemma_bound_hits(qi, m, tl as int);
    lemma_bound_hits(0, m, tl as int);
}

/// The rewards of `q` hits are outweighed by their positions past 151 hits:
/// the lowest running score is above `-151 * 151`.
proof fn lemma_triangle_low(q: int)
    requires
        0 <= q,
    ensures
        triangle(q) - 151 * q >= -22801,
        triangle(q) >= 0,
    decreases q,
{
    if q > 0 {
        lemma_triangle_low(q - 1);
    }
}

/// `idx` places `q[qi..]` in `t` at strictly increasing positions, all at or
/// after `ti`.
pub open spec fn embeds_from(q: Seq<char>, t: Seq<char>, qi: nat, ti: nat, idx: Seq<int>) -> bool {
    &&& qi <= q.len()
    &&& idx.len() == q.len() - qi
    &&& forall|k: int|
        0 <= k < idx.len() ==> ti <= #[trigger] idx[k] < t.len() && t[idx[k]] == q[qi + k]
    &&& forall|k: int, l: int| 0 <= k < l < idx.len() ==> #[trigger] idx[k] < #[trigger] idx[l]
}

/// `q` occurs in `t` as a (not necessarily consecutive) subsequence.
pub open spec fn is_subsequence(q: Seq<char>, t: Seq<char>) -> bool {
    exists|idx: Seq<int>| embeds_from(q, t, 0, 0, idx)
}

proof fn lemma_first_from_least(t: Seq<char>, c: char, i: nat, j: int)
    requires
        i <= j < t.len(),
        t[j] == c,
    ensures
        first_from(t, c, i) matches Some(k) && k <= j,
    decreases t.len() - i,
{
    if t[i as int] != c {
        lemma_first_from_least(t, c, i + 1, j);
    }
}

proof fn lemma_scan_some_iff_embeds(q: Seq<char>, t: Seq<char>, qi: nat, ti: nat, consecutive: nat)
    requires
        qi <= q.len(),
    ensures
        scan(q, t, qi, ti, consecutive) is Some <==> exists|idx: Seq<int>| embeds_from(q, t, qi, ti, idx),
    decreases q.len() - qi,
{
    if qi == q.len() {
        assert(embeds_from(q, t, qi, ti, Seq::<int>::empty()));
    } else {
        let c = q[qi as int];
        lemma_first_from(t, c, ti);
        match first_from(t, c, ti) {
            None => {
                if exists|idx: Seq<int>| embeds_from(q, t, qi, ti, idx) {
                    let idx = choose|idx: Seq<int>| embeds_from(q, t, qi, ti, idx);
                    assert(ti <= idx[0] < t.len() && t[idx[0]] == q[qi as int]);
                    lemma_first_from_least(t, c, ti, idx[0]);
                }
            },
            Some(i) => {
                let next = run_after(ti, i, consecutive);
                let qn: nat = qi + 1;
                let tn: nat = i + 1;
                lemma_scan_some_iff_embeds(q, t, qn, tn, next);
                if scan(q, t, qi, ti, consecutive) is Some {
                    let rest = choose|idx: Seq<int>| embeds_from(q, t, qn, tn, idx);
                    let idx = seq![i as int] + rest;
                    assert forall|k: int| 0 <= k < idx.len() implies ti <= #[trigger] idx[k] < t.len()
                        && t[idx[k]] == q[qi + k] by {
                        if k > 0 {
                            assert(idx[k] == rest[k - 1]);
                            assert(i + 1 <= rest[k - 1] < t.len() && t[rest[k - 1]] == q[qi + 1 + (k - 1)]);
                        }
                    }
                    assert forall|k: int, l: int| 0 <= k < l < idx.len() implies #[trigger] idx[k]
                        < #[trigger] idx[l] by {
                        assert(idx[l] == rest[l - 1]);
                        assert(i + 1 <= rest[l - 1]);
                        if k > 0 {
                            assert(idx[k] == rest[k - 1]);
                            assert(rest[k - 1] < rest[l - 1]);
                        }
                    }
                    assert(embeds_from(q, t, qi, ti, idx));
                }
                if exists|idx: Seq<int>| embeds_from(q, t, qi, ti, idx) {
                    let idx = choose|idx: Seq<int>| embeds_from(q, t, qi, ti, idx);
                    assert(ti <= idx[0] < t.len() && t[idx[0]] == q[qi as int]);
                    lemma_first_from_least(t, c, ti, idx[0]);
                    let rest = idx.drop_first();
                    assert forall|k: int| 0 <= k < rest.len() implies i + 1 <= #[trigger] rest[k] < t.len()
                        && t[rest[k]] == q[(qi + 1) + k] by {
                        assert(rest[k] == idx[k + 1]);
                        assert(idx[0] < idx[k + 1]);
                        assert(ti <= idx[k + 1] < t.len() && t[idx[k + 1]] == q[qi + (k + 1)]);
                    }
                    assert forall|k: int, l: int| 0 <= k < l < rest.len() implies #[trigger] rest[k]
                        < #[trigger] rest[l] by {
                        assert(rest[k] == idx[k + 1] && rest[l] == idx[l + 1]);
                    }
                    assert(embeds_from(q, t, qn, tn, rest));
                }
            },
        }
    }
}

/// A query matches (the result is `Some`) exactly when it is a subsequence of
/// the text.
pub proof fn lemma_fuzzy_match_iff_subsequence(query: Seq<char>, text: Seq<char>)
    ensures
        spec_fuzzy(query, text) is Some <==> is_subsequence(query, text),
{
    if query.len() == 0 {
        assert(embeds_from(query, text, 0, 0, Seq::<int>::empty()));
    } else if text.len() == 0 {
        if is_subsequence(query, text) {
            let idx = choose|idx: Seq<int>| embeds_from(query, text, 0, 0, idx);
            assert(0 <= idx[0] < text.len());
        }
    } else if query == text {
        let idx = Seq::new(query.len(), |k: int| k);
        assert(embeds_from(query, text, 0, 0, idx));
    } else {
        lemma_scan_some_iff_embeds(query, text, 0, 0, 0);
    }
}

/// Match `query` against `text` as a subsequence. Returns `Some(score)` when
/// every character of `query` appears in `text` in order, `None` otherwise.
///
/// Lower score is better. All characters are compared case-sensitively.
pub fn fuzzy_match(query: &str, text: &str) -> (r: Option<i64>)
    requires
        score_peak(query@.len(), text@.len()) <= i64::MAX,
    ensures
        match spec_fuzzy(query@, text@) {
            Some(s) => r == Some(s as i64) && s == r.unwrap() as int,
            None => r is None,
        },
{
    let q = chars_of(query);
    let t = chars_of(text);
    if q.len() == 0 {
        return Some(0);
    }
    if t.len() == 0 {
        return None;
    }
    if eq_chars(&q, &t) {
        return Some(-EXACT_BONUS);
    }
    let tlen = t.len();
    let ghost tl: int = t@.len() as int;
    let mut score: i64 = 0;
    let mut ti: usize = 0;
    let mut consecutive: usize = 0;
    let mut qi: usize = 0;
    while qi < q.len()
        invariant
            q@ == query@,
            t@ == text@,
            q@ != t@,
            q@.len() > 0,
            t@.len() > 0,
            tl == t@.len(),
            tlen as int == tl,
            score_peak(q@.len(), tl as nat) <= i64::MAX,
            qi <= q@.len(),
            qi <= ti <= tl,
            consecutive <= qi,
            triangle(qi as int) - 151 * qi <= score <= running_bound(qi as int, ti as int),
            scan(q@, t@, 0, 0, 0) == match scan(q@, t@, qi as nat, ti as nat, consecutive as nat) {
                Some(rest) => Some(score + rest),
                None => None::<int>,
            },
        decreases q.len() - qi,
    {
        let qc = q[qi];
        let mut i: usize = ti;
        let mut found = false;
        while i < t.len()
            invariant_except_break
                !found,
            invariant
                ti <= i <= t@.len(),
                first_from(t@, qc, ti as nat) == first_from(t@, qc, i as nat),
            ensures
                found ==> i < t@.len() && first_from(t@, qc, ti as nat) == Some(i as nat),
                !found ==> first_from(t@, qc, ti as nat) is None,
            decreases t.len() - i,
        {
            if t[i] == qc {
                found = true;
                break;
            }
            i = i + 1;
        }
        if !found {
            assert(scan(q@, t@, qi as nat, ti as nat, consecutive as nat) is None);
            assert(q@ != t@);
            return None;
        }
        proof {
            lemma_first_from(t@, qc, ti as nat);
            lemma_bound_step(qi as int, ti as int, i as int);
            lemma_bound_peak(qi + 1, i + 1, q@.len(), tl as nat);
            lemma_triangle_low(qi as int);
            lemma_triangle_low(qi + 1);
            assert(triangle(qi + 1) == qi + 1 + triangle(qi as int));
            assert(i < tl);
            assert(i <= i64::MAX);
        }
        let gap: usize = i - ti;
        if gap == 0 {
            consecutive = consecutive + 1;
        } else {
            consecutive = 0;
            score = score + GAP_PENALTY * (gap as i64);
        }
        score = score + POSITION_PENALTY * (i as i64);
        let prev: Option<char> = if i == 0 {
            None
        } else {
            Some(t[i - 1])
        };
        if is_boundary(prev) {
            score = score - WORD_BOUNDARY_BONUS;
        }
        if consecutive > 1 {
            score = score - CONSECUTIVE_BONUS;
        }
        ti = i + 1;
        qi = qi + 1;
    }
    Some(score)
}

/// The chars that mark a word boundary right before a hit.
pub open spec fn boundary_char(c: char) -> bool {
    c == ' ' || c == '-' || c == '_' || c == '.' || c == '/' || c == ':'
}

proof fn lemma_first_at(t: Seq<char>, c: char, i: int, k: nat)
    requires
        0 <= k <= i < t.len(),
        t[i] == c,
        forall|j: int| 0 <= j < i ==> t[j] != c,
    ensures
        first_from(t, c, k) == Some(i as nat),
    decreases i - k,
{
    if k < i {
        lemma_first_at(t, c, i, k + 1);
    }
}

/// A one-char query is scored by where it is first found: a hit at `i`
/// costs its gap from the start and its position (`21 * i`), and earns the
/// word-boundary reward of 100 when it starts the text or follows one of
/// ` `, `-`, `_`, `.`, `/`, `:` (so `h` in `/help` scores `-79`); a text
/// that does not hold the char gives no score.
pub proof fn lemma_single_char_score(c: char, t: Seq<char>)
    requires
        t != seq![c],
    ensures
        (forall|j: int| 0 <= j < t.len() ==> t[j] != c) ==> spec_fuzzy(seq![c], t) is None,
        forall|i: int|
            #![trigger t[i]]
            0 <= i < t.len() && t[i] == c && (forall|j: int| 0 <= j < i ==> t[j] != c) ==> spec_fuzzy(seq![c], t)
                == Some(21 * i - (if i == 0 || boundary_char(t[i - 1]) {
                100int
            } else {
                0int
            })),
{
    let q = seq![c];
    if forall|j: int| 0 <= j < t.len() ==> t[j] != c {
        if t.len() > 0 {
            lemma_first_none(t, c, 0);
        }
    }
    assert forall|i: int|
        #![trigger t[i]]
        0 <= i < t.len() && t[i] == c && (forall|j: int| 0 <= j < i ==> t[j] != c) implies spec_fuzzy(q, t) == Some(
        21 * i - (if i == 0 || boundary_char(t[i - 1]) {
            100int
        } else {
            0int
        }),
    ) by {
        lemma_first_at(t, c, i, 0);
        assert(q[0] == c);
        assert(scan(q, t, 1, (i + 1) as nat, run_after(0, i as nat, 0)) == Some(0int));
        if i > 0 {
            assert(prev_char(t, i as nat) == Some(t[i - 1]));
        }
    }
}

proof fn lemma_first_none(t: Seq<char>, c: char, k: nat)
    requires
        forall|j: int| 0 <= j < t.len() ==> t[j] != c,
    ensures
        first_from(t, c, k) is None,
    decreases t.len() - k,
{
    if k < t.len() {
        lemma_first_none(t, c, k + 1);
    }
}

} // verus!
