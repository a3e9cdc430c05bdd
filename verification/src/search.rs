//! Cancellable bounded fuzzy path search.
//!
//! A candidate path matches a pattern when the pattern's characters
//! occur in order in the path, compared ASCII-case-insensitively. Every
//! match is scored (shorter paths score higher), and at most `limit`
//! best-scoring matches are kept, ordered by descending score with
//! discovery order as the deterministic tie-break. The cancellable
//! variant checks a cooperative flag at each step boundary; once the
//! flag is set it stops promptly and returns the partial result set
//! accumulated so far as a successful (not error) result.

use vstd::prelude::*;

verus! {

/// Scores live below this ceiling; a candidate of `n` characters
/// scores `SCORE_CEILING - n` (and `0` once `n` reaches the ceiling),
/// so shorter matches rank higher.
pub const SCORE_CEILING: u64 = 1000000;

/// ASCII case folding on code points: upper-case letters fold to lower
/// case, everything else is left as it is.
pub open spec fn fold_code(c: char) -> u32 {
    if 65 <= (c as u32) && (c as u32) <= 90 {
        ((c as u32) + 32) as u32
    } else {
        c as u32
    }
}

fn fold_code_exec(c: char) -> (r: u32)
    ensures
        r == fold_code(c),
{
    let u = c as u32;
    if 65 <= u && u <= 90 {
        u + 32
    } else {
        u
    }
}

/// Whether the pattern's characters occur in order in the candidate,
/// compared case-insensitively: the greedy scan that takes the first
/// occurrence of each pattern character.
pub open spec fn is_fuzzy_match(p: Seq<char>, c: Seq<char>) -> bool
    decreases c.len(),
{
    if p.len() == 0 {
        true
    } else if c.len() == 0 {
        false
    } else if fold_code(p[0]) == fold_code(c[0]) {
        is_fuzzy_match(p.drop_first(), c.drop_first())
    } else {
        is_fuzzy_match(p, c.drop_first())
    }
}

/// The score of a matched candidate: shorter candidates score higher.
pub open spec fn spec_score(c: Seq<char>) -> u64 {
    if c.len() >= SCORE_CEILING {
        0u64
    } else {
        (SCORE_CEILING - c.len()) as u64
    }
}

/// The views of a sequence of owned strings.
pub open spec fn views_of(ss: Seq<String>) -> Seq<Seq<char>> {
    ss.map_values(|s: String| s@)
}

/// Decide a fuzzy match, scanning both strings left to right.
pub fn fuzzy_match(pattern: &str, cand: &str) -> (b: bool)
    ensures
        b == is_fuzzy_match(pattern@, cand@),
{
    let plen = pattern.unicode_len();
    let clen = cand.unicode_len();
    let mut pi: usize = 0;
    let mut ci: usize = 0;
    proof {
        assert(pattern@.skip(0) =~= pattern@);
        assert(cand@.skip(0) =~= cand@);
    }
    while pi < plen && ci < clen
        invariant
            pi <= plen,
            ci <= clen,
            plen == pattern@.len(),
            clen == cand@.len(),
            is_fuzzy_match(pattern@, cand@) == is_fuzzy_match(
                pattern@.skip(pi as int),
                cand@.skip(ci as int),
            ),
        decreases clen - ci,
    {
        let pc = pattern.get_char(pi);
        let cc = cand.get_char(ci);
        proof {
            assert(pattern@.skip(pi as int)[0] == pattern@[pi as int]);
            assert(cand@.skip(ci as int)[0] == cand@[ci as int]);
            assert(pattern@.skip(pi as int).drop_first() =~= pattern@.skip(pi as int + 1));
            assert(cand@.skip(ci as int).drop_first() =~= cand@.skip(ci as int + 1));
        }
        if fold_code_exec(pc) == fold_code_exec(cc) {
            pi = pi + 1;
            ci = ci + 1;
        } else {
            ci = ci + 1;
        }
    }
    proof {
        if pi == plen {
            assert(pattern@.skip(pi as int) =~= Seq::<char>::empty());
        } else {
            assert(cand@.skip(ci as int) =~= Seq::<char>::empty());
        }
    }
    pi == plen
}

/// Compute the score of a candidate.
pub fn score_of(cand: &str) -> (s: u64)
    ensures
        s == spec_score(cand@),
{
    let l = cand.unicode_len();
    if (l as u64) >= SCORE_CEILING {
        0
    } else {
        SCORE_CEILING - (l as u64)
    }
}

/// Ranking order on scored entries `(score, discovery index)`: higher
/// score first, and among equal scores the earlier discovery first.
pub open spec fn beats(a: (u64, usize), b: (u64, usize)) -> bool {
    a.0 > b.0 || (a.0 == b.0 && a.1 < b.1)
}

/// Insert an entry into a ranking, directly before the first entry it
/// beats.
pub open spec fn insert_ranked(acc: Seq<(u64, usize)>, m: (u64, usize)) -> Seq<(u64, usize)>
    decreases acc.len(),
{
    if acc.len() == 0 {
        seq![m]
    } else if beats(m, acc[0]) {
        seq![m] + acc
    } else {
        seq![acc[0]] + insert_ranked(acc.drop_first(), m)
    }
}

/// Insert an entry and keep only the `limit` best-ranked ones.
pub open spec fn bounded_insert(
    acc: Seq<(u64, usize)>,
    m: (u64, usize),
    limit: int,
) -> Seq<(u64, usize)> {
    let s = insert_ranked(acc, m);
    if s.len() <= limit {
        s
    } else {
        s.take(limit)
    }
}

/// The ranking after the first `n` candidates have been examined:
/// every match among them was inserted, in discovery order.
pub open spec fn ranked_sel(
    p: Seq<char>,
    cands: Seq<Seq<char>>,
    limit: int,
    n: int,
) -> Seq<(u64, usize)>
    decreases n,
{
    if n <= 0 {
        Seq::empty()
    } else {
        let prev = ranked_sel(p, cands, limit, n - 1);
        if is_fuzzy_match(p, cands[n - 1]) {
            bounded_insert(prev, (spec_score(cands[n - 1]), (n - 1) as usize), limit)
        } else {
            prev
        }
    }
}

/// What the search returns: the best-ranked matches among the
/// candidates, by descending score and then discovery order.
pub open spec fn search_spec(p: Seq<char>, cands: Seq<Seq<char>>, limit: int) -> Seq<Seq<char>> {
    ranked_sel(p, cands, limit, cands.len() as int).map_values(|m: (u64, usize)| cands[m.1 as int])
}

/// Inserting grows a ranking by exactly one entry.
pub proof fn lemma_insert_ranked_len(acc: Seq<(u64, usize)>, m: (u64, usize))
    ensures
        insert_ranked(acc, m).len() == acc.len() + 1,
    decreases acc.len(),
{
    if acc.len() == 0 {
    } else if beats(m, acc[0]) {
    } else {
        lemma_insert_ranked_len(acc.drop_first(), m);
    }
}

/// A ranking never outgrows the number of candidates examined.
pub proof fn lemma_ranked_sel_len(p: Seq<char>, cands: Seq<Seq<char>>, limit: int, n: int)
    requires
        limit >= 0,
        n >= 0,
    ensures
        ranked_sel(p, cands, limit, n).len() <= n,
    decreases n,
{
    if n == 0 {
    } else {
        lemma_ranked_sel_len(p, cands, limit, n - 1);
        let prev = ranked_sel(p, cands, limit, n - 1);
        if is_fuzzy_match(p, cands[n - 1]) {
            lemma_insert_ranked_len(prev, (spec_score(cands[n - 1]), (n - 1) as usize));
        }
    }
}

/// A ranking holds at most `limit` entries.
pub proof fn lemma_ranked_sel_capped(p: Seq<char>, cands: Seq<Seq<char>>, limit: int, n: int)
    requires
        limit >= 1,
        n >= 0,
    ensures
        ranked_sel(p, cands, limit, n).len() <= limit,
    decreases n,
{
    if n == 0 {
    } else {
        lemma_ranked_sel_capped(p, cands, limit, n - 1);
        let prev = ranked_sel(p, cands, limit, n - 1);
        if is_fuzzy_match(p, cands[n - 1]) {
            lemma_insert_ranked_len(prev, (spec_score(cands[n - 1]), (n - 1) as usize));
        }
    }
}

/// A ranking in ranking order: every earlier entry beats every later one.
pub open spec fn sorted_ranking(s: Seq<(u64, usize)>) -> bool {
    forall|i: int, j: int| 0 <= i < j < s.len() ==> beats(s[i], s[j])
}

/// Inserting an entry with a fresh discovery index keeps a ranking in
/// ranking order.
proof fn lemma_insert_ranked_sorted(acc: Seq<(u64, usize)>, m: (u64, usize))
    requires
        sorted_ranking(acc),
        forall|k: int| 0 <= k < acc.len() ==> (#[trigger] acc[k]).1 != m.1,
    ensures
        sorted_ranking(insert_ranked(acc, m)),
    decreases acc.len(),
{
    if acc.len() == 0 {
    } else if beats(m, acc[0]) {
        let s = seq![m] + acc;
        assert forall|i: int, j: int| 0 <= i < j < s.len() implies beats(s[i], s[j]) by {
            if i == 0 {
                assert(s[j] == acc[j - 1]);
                if j > 1 {
                    assert(beats(acc[0], acc[j - 1]));
                }
            } else {
                assert(s[i] == acc[i - 1]);
                assert(s[j] == acc[j - 1]);
            }
        }
    } else {
        let rest = acc.drop_first();
        assert forall|k: int| 0 <= k < rest.len() implies (#[trigger] rest[k]).1 != m.1 by {
            assert(rest[k] == acc[k + 1]);
        }
        assert forall|i: int, j: int| 0 <= i < j < rest.len() implies beats(rest[i], rest[j]) by {
            assert(rest[i] == acc[i + 1]);
            assert(rest[j] == acc[j + 1]);
        }
        lemma_insert_ranked_sorted(rest, m);
        lemma_insert_ranked_members(rest, m);
        let s = seq![acc[0]] + insert_ranked(rest, m);
        assert(beats(acc[0], m));
        assert forall|i: int, j: int| 0 <= i < j < s.len() implies beats(s[i], s[j]) by {
            if i == 0 {
                let e = insert_ranked(rest, m)[j - 1];
                assert(s[j] == e);
                if e != m {
                    let w = choose|w: int| 0 <= w < rest.len() && rest[w] == e;
                    assert(e == acc[w + 1]);
                    assert(beats(acc[0], acc[w + 1]));
                }
            } else {
                assert(s[i] == insert_ranked(rest, m)[i - 1]);
                assert(s[j] == insert_ranked(rest, m)[j - 1]);
            }
        }
    }
}

/// Every entry of a ranking after `n` steps names a matching candidate
/// discovered before `n`, carries that candidate's score, and stands in
/// ranking order.
proof fn lemma_ranked_sel_sound(p: Seq<char>, cands: Seq<Seq<char>>, limit: int, n: int)
    requires
        limit >= 1,
        0 <= n <= cands.len(),
        cands.len() <= usize::MAX,
    ensures
        sorted_ranking(ranked_sel(p, cands, limit, n)),
        forall|k: int|
            0 <= k < ranked_sel(p, cands, limit, n).len() ==> {
                let e = #[trigger] ranked_sel(p, cands, limit, n)[k];
                &&& 0 <= e.1 < n
                &&& is_fuzzy_match(p, cands[e.1 as int])
                &&& e.0 == spec_score(cands[e.1 as int])
            },
    decreases n,
{
    if n > 0 {
        lemma_ranked_sel_sound(p, cands, limit, n - 1);
        let prev = ranked_sel(p, cands, limit, n - 1);
        if is_fuzzy_match(p, cands[n - 1]) {
            let m = (spec_score(cands[n - 1]), (n - 1) as usize);
            assert(m.1 == n - 1);
            assert forall|k: int| 0 <= k < prev.len() implies (#[trigger] prev[k]).1 != m.1 by {
                assert(prev[k].1 < n - 1);
            }
            lemma_insert_ranked_sorted(prev, m);
            lemma_insert_ranked_members(prev, m);
            let s = insert_ranked(prev, m);
            let b = bounded_insert(prev, m, limit);
            assert forall|k: int|
                0 <= k < b.len() implies {
                    let e = #[trigger] b[k];
                    &&& 0 <= e.1 < n
                    &&& is_fuzzy_match(p, cands[e.1 as int])
                    &&& e.0 == spec_score(cands[e.1 as int])
                } by {
                assert(b[k] == s[k]);
                if s[k] != m {
                    let w = choose|w: int| 0 <= w < prev.len() && prev[w] == s[k];
                    assert(prev[w] == s[k]);
                }
            }
            assert forall|i: int, j: int| 0 <= i < j < b.len() implies beats(b[i], b[j]) by {
                assert(b[i] == s[i]);
                assert(b[j] == s[j]);
            }
        }
    }
}

/// Match-order law: every returned path is a matching candidate, and
/// the results stand in descending score order — a later result never
/// scores higher than an earlier one.
pub proof fn lemma_search_ordered(p: Seq<char>, cands: Seq<Seq<char>>, limit: int)
    requires
        limit >= 1,
        cands.len() <= usize::MAX,
    ensures
        forall|k: int|
            0 <= k < search_spec(p, cands, limit).len() ==> is_fuzzy_match(
                p,
                #[trigger] search_spec(p, cands, limit)[k],
            ),
        forall|i: int, j: int|
            0 <= i < j < search_spec(p, cands, limit).len() ==> spec_score(
                search_spec(p, cands, limit)[i],
            ) >= spec_score(search_spec(p, cands, limit)[j]),
{
    let n = cands.len() as int;
    lemma_ranked_sel_sound(p, cands, limit, n);
    let sel = ranked_sel(p, cands, limit, n);
    let r = search_spec(p, cands, limit);
    assert forall|k: int| 0 <= k < r.len() implies is_fuzzy_match(p, #[trigger] r[k]) by {
        assert(r[k] == cands[sel[k].1 as int]);
    }
    assert forall|i: int, j: int| 0 <= i < j < r.len() implies spec_score(r[i]) >= spec_score(
        r[j],
    ) by {
        assert(r[i] == cands[sel[i].1 as int]);
        assert(r[j] == cands[sel[j].1 as int]);
        assert(beats(sel[i], sel[j]));
    }
}

/// Result-ordering law: the search is a function of the pattern, the
/// candidate snapshot, and the limit alone — two runs over the same
/// snapshot return identical ordered results.
pub proof fn lemma_search_deterministic(
    p: Seq<char>,
    cands: Seq<Seq<char>>,
    limit: int,
    r1: Seq<Seq<char>>,
    r2: Seq<Seq<char>>,
)
    requires
        r1 == search_spec(p, cands, limit),
        r2 == search_spec(p, cands, limit),
    ensures
        r1 == r2,
{
}

/// Where the entry ranked before the first it beats lands: at the index
/// of the first entry it beats.
proof fn lemma_insert_at(acc: Seq<(u64, usize)>, m: (u64, usize), j: int)
    requires
        0 <= j <= acc.len(),
        forall|k: int| 0 <= k < j ==> !beats(m, #[trigger] acc[k]),
        j < acc.len() ==> beats(m, acc[j]),
    ensures
        insert_ranked(acc, m) == acc.take(j) + seq![m] + acc.skip(j),
    decreases acc.len(),
{
    if acc.len() == 0 {
        assert(acc.take(0) + seq![m] + acc.skip(0) =~= seq![m]);
    } else if beats(m, acc[0]) {
        assert(j == 0);
        assert(acc.take(0) + seq![m] + acc.skip(0) =~= seq![m] + acc);
    } else {
        assert(j >= 1);
        let rest = acc.drop_first();
        assert forall|k: int| 0 <= k < j - 1 implies !beats(m, #[trigger] rest[k]) by {
            assert(rest[k] == acc[k + 1]);
        }
        assert(j - 1 < rest.len() ==> beats(m, rest[j - 1]));
        lemma_insert_at(rest, m, j - 1);
        assert(acc.take(j) + seq![m] + acc.skip(j) =~= seq![acc[0]] + (rest.take(j - 1) + seq![m]
            + rest.skip(j - 1)));
    }
}

/// Insert a scored entry into the ranking, keeping at most `limit`
/// entries.
fn insert_bounded(acc: &mut Vec<(u64, usize)>, m: (u64, usize), limit: usize)
    requires
        limit >= 1,
        old(acc)@.len() <= limit,
    ensures
        final(acc)@ == bounded_insert(old(acc)@, m, limit as int),
        final(acc)@.len() <= limit,
    {
    let mut j: usize = 0;
    while j < acc.len() && !(m.0 > acc[j].0 || (m.0 == acc[j].0 && m.1 < acc[j].1))
        invariant
            j <= acc@.len(),
            *acc == *old(acc),
            forall|k: int| 0 <= k < j ==> !beats(m, #[trigger] acc@[k]),
        decreases acc@.len() - j,
    {
        j = j + 1;
    }
    proof {
        lemma_insert_at(acc@, m, j as int);
        lemma_insert_ranked_len(acc@, m);
    }
    let ghost before = acc@;
    acc.insert(j, m);
    proof {
        assert(acc@ =~= before.take(j as int) + seq![m] + before.skip(j as int));
        assert(acc@ == insert_ranked(before, m));
    }
    if acc.len() > limit {
        let ghost s = acc@;
        acc.pop();
        proof {
            assert(acc@ =~= s.take(limit as int));
        }
    }
}

/// Copy the paths a ranking points at, in ranking order.
fn collect_paths(acc: &Vec<(u64, usize)>, candidates: &Vec<String>) -> (out: Vec<String>)
    requires
        forall|j: int| 0 <= j < acc@.len() ==> (#[trigger] acc@[j]).1 < candidates@.len(),
    ensures
        views_of(out@) == acc@.map_values(
            |m: (u64, usize)| views_of(candidates@)[m.1 as int],
        ),
        out@.len() == acc@.len(),
{
    let ghost cviews = views_of(candidates@);
    let mut out: Vec<String> = Vec::new();
    let mut k: usize = 0;
    proof {
        assert(views_of(out@) =~= Seq::<Seq<char>>::empty());
    }
    while k < acc.len()
        invariant
            k <= acc@.len(),
            cviews == views_of(candidates@),
            forall|j: int| 0 <= j < acc@.len() ==> (#[trigger] acc@[j]).1 < candidates@.len(),
            out@.len() == k,
            views_of(out@) == acc@.take(k as int).map_values(
                |m: (u64, usize)| cviews[m.1 as int],
            ),
        decreases acc@.len() - k,
    {
        let idx = acc[k].1;
        let ghost outv = views_of(out@);
        out.push(candidates[idx].clone());
        proof {
            assert(views_of(out@) =~= outv.push(cviews[idx as int]));
            assert(acc@.take(k as int + 1).map_values(|m: (u64, usize)| cviews[m.1 as int])
                =~= acc@.take(k as int).map_values(|m: (u64, usize)| cviews[m.1 as int]).push(
                cviews[acc@[k as int].1 as int],
            ));
        }
        k = k + 1;
    }
    proof {
        assert(acc@.take(acc@.len() as int) =~= acc@);
    }
    out
}

/// Rank every candidate against the pattern and return the best
/// matches' paths, by descending score with discovery order as the
/// tie-break: exactly what `search_spec` names.
pub fn search_ranked(pattern: &str, candidates: &Vec<String>, limit: usize) -> (r: Vec<String>)
    requires
        pattern@.len() > 0,
        limit >= 1,
    ensures
        views_of(r@) == search_spec(pattern@, views_of(candidates@), limit as int),
        r@.len() <= limit,
        r@.len() <= candidates@.len(),
{
    let ghost cviews = views_of(candidates@);
    let mut acc: Vec<(u64, usize)> = Vec::new();
    let mut i: usize = 0;
    while i < candidates.len()
        invariant
            i <= candidates@.len(),
            cviews == views_of(candidates@),
            acc@ == ranked_sel(pattern@, cviews, limit as int, i as int),
            acc@.len() <= limit,
            limit >= 1,
            forall|k: int| 0 <= k < acc@.len() ==> (#[trigger] acc@[k]).1 < i,
        decreases candidates@.len() - i,
    {
        let cand = &candidates[i];
        proof {
            assert(cviews[i as int] == cand@);
        }
        if fuzzy_match(pattern, cand.as_str()) {
            let sc = score_of(cand.as_str());
            let ghost accv = acc@;
            insert_bounded(&mut acc, (sc, i), limit);
            proof {
                lemma_bounded_insert_indices(accv, (sc, i), limit as int, i as int + 1);
            }
        }
        i = i + 1;
    }
    proof {
        lemma_ranked_sel_len(pattern@, cviews, limit as int, candidates@.len() as int);
    }
    let out = collect_paths(&acc, candidates);
    proof {
        assert(views_of(out@) == search_spec(pattern@, cviews, limit as int));
    }
    out
}

/// A cooperative cancellation flag: externally settable, checked by a
/// traversal at each step boundary. Another thread may set it at any
/// moment, so nothing is promised of what a read returns.
pub struct CancelFlag {
    inner: core::sync::atomic::AtomicBool,
}

impl CancelFlag {
    /// Relies on `core::sync::atomic::AtomicBool::new`: a fresh flag,
    /// initially unset.
    #[verifier::external_body]
    pub fn new() -> CancelFlag {
        CancelFlag { inner: core::sync::atomic::AtomicBool::new(false) }
    }

    /// Relies on `core::sync::atomic::AtomicBool::store` (sequentially
    /// consistent): sets the flag, for every later read to see.
    #[verifier::external_body]
    pub fn cancel(&self) {
        self.inner.store(true, core::sync::atomic::Ordering::SeqCst);
    }

    /// Relies on `core::sync::atomic::AtomicBool::load` (sequentially
    /// consistent): whether the flag is set at this moment. Another
    /// thread may set the flag between two reads, so nothing is
    /// promised of the value.
    #[verifier::external_body]
    pub fn is_cancelled(&self) -> bool {
        self.inner.load(core::sync::atomic::Ordering::SeqCst)
    }
}

/// A ranking examines only the candidates before `n`, so it is the same
/// over the whole snapshot and over the prefix alone.
proof fn lemma_ranked_sel_prefix(
    p: Seq<char>,
    cands: Seq<Seq<char>>,
    limit: int,
    k: int,
    n: int,
)
    requires
        0 <= k <= n <= cands.len(),
    ensures
        ranked_sel(p, cands, limit, k) == ranked_sel(p, cands.take(n), limit, k),
    decreases k,
{
    if k > 0 {
        lemma_ranked_sel_prefix(p, cands, limit, k - 1, n);
        assert(cands.take(n)[k - 1] == cands[k - 1]);
    }
}

/// Cancellation law, in the contract below: whatever moment the flag
/// was set at, the result is the exact search result over the prefix of
/// candidates discovered before the traversal stopped — a successful
/// partial result, never an error — with no more entries than the limit
/// nor than that prefix.
pub fn search_cancellable(
    pattern: &str,
    candidates: &Vec<String>,
    limit: usize,
    cancel: &CancelFlag,
) -> (r: Vec<String>)
    requires
        pattern@.len() > 0,
        limit >= 1,
    ensures
        exists|n: int|
            0 <= n <= candidates@.len() && views_of(r@) == search_spec(
                pattern@,
                #[trigger] views_of(candidates@).take(n),
                limit as int,
            ) && r@.len() <= limit && r@.len() <= n,
{
    let ghost cviews = views_of(candidates@);
    let mut acc: Vec<(u64, usize)> = Vec::new();
    let mut i: usize = 0;
    let mut cancelled = false;
    while i < candidates.len() && !cancelled
        invariant
            i <= candidates@.len(),
            cviews == views_of(candidates@),
            acc@ == ranked_sel(pattern@, cviews, limit as int, i as int),
            acc@.len() <= limit,
            limit >= 1,
            forall|k: int| 0 <= k < acc@.len() ==> (#[trigger] acc@[k]).1 < i,
        decreases candidates@.len() - i, (if cancelled { 0int } else { 1int }),
    {
        if cancel.is_cancelled() {
            cancelled = true;
        } else {
            let cand = &candidates[i];
            proof {
                assert(cviews[i as int] == cand@);
            }
            if fuzzy_match(pattern, cand.as_str()) {
                let sc = score_of(cand.as_str());
                let ghost accv = acc@;
                insert_bounded(&mut acc, (sc, i), limit);
                proof {
                    lemma_bounded_insert_indices(accv, (sc, i), limit as int, i as int + 1);
                }
            }
            i = i + 1;
        }
    }
    let ghost n = i as int;
    proof {
        lemma_ranked_sel_len(pattern@, cviews, limit as int, n);
        lemma_ranked_sel_prefix(pattern@, cviews, limit as int, n, n);
    }
    let out = collect_paths(&acc, candidates);
    proof {
        let pre = cviews.take(n);
        assert(ranked_sel(pattern@, pre, limit as int, pre.len() as int) == acc@);
        assert(views_of(out@) =~= ranked_sel(pattern@, pre, limit as int, n).map_values(
            |m: (u64, usize)| pre[m.1 as int],
        ));
        assert(views_of(out@) == search_spec(pattern@, pre, limit as int));
        assert(0 <= n <= candidates@.len() && views_of(out@) == search_spec(
            pattern@,
            views_of(candidates@).take(n),
            limit as int,
        ) && out@.len() <= limit && out@.len() <= n);
    }
    out
}

/// Every entry a bounded insert keeps points at an already-examined
/// candidate.
proof fn lemma_bounded_insert_indices(
    acc: Seq<(u64, usize)>,
    m: (u64, usize),
    limit: int,
    bound: int,
)
    requires
        limit >= 0,
        forall|k: int| 0 <= k < acc.len() ==> (#[trigger] acc[k]).1 < bound,
        m.1 < bound,
    ensures
        forall|k: int|
            0 <= k < bounded_insert(acc, m, limit).len() ==> (#[trigger] bounded_insert(
                acc,
                m,
                limit,
            )[k]).1 < bound,
{
    lemma_insert_ranked_members(acc, m);
    let s = insert_ranked(acc, m);
    assert forall|k: int| 0 <= k < s.len() implies (#[trigger] s[k]).1 < bound by {
        assert(s[k] == m || acc.contains(s[k]));
        if s[k] != m {
            let w = choose|w: int| 0 <= w < acc.len() && acc[w] == s[k];
            assert(acc[w].1 < bound);
        }
    }
    let b = bounded_insert(acc, m, limit);
    assert forall|k: int| 0 <= k < b.len() implies (#[trigger] b[k]).1 < bound by {
        assert(b[k] == s[k]);
    }
}

/// Everything an insert returns was already there, or is the new entry.
proof fn lemma_insert_ranked_members(acc: Seq<(u64, usize)>, m: (u64, usize))
    ensures
        forall|k: int|
            0 <= k < insert_ranked(acc, m).len() ==> (#[trigger] insert_ranked(acc, m)[k]) == m
                || acc.contains(insert_ranked(acc, m)[k]),
    decreases acc.len(),
{
    if acc.len() == 0 {
    } else if beats(m, acc[0]) {
        let s = insert_ranked(acc, m);
        assert forall|k: int| 0 <= k < s.len() implies (#[trigger] s[k]) == m || acc.contains(
            s[k],
        ) by {
            if k > 0 {
                assert(s[k] == acc[k - 1]);
            }
        }
    } else {
        lemma_insert_ranked_members(acc.drop_first(), m);
        let rest = acc.drop_first();
        let s = insert_ranked(acc, m);
        assert forall|k: int| 0 <= k < s.len() implies (#[trigger] s[k]) == m || acc.contains(
            s[k],
        ) by {
            if k == 0 {
                assert(s[0] == acc[0]);
                assert(acc.contains(acc[0]));
            } else {
                assert(s[k] == insert_ranked(rest, m)[k - 1]);
                if s[k] != m {
                    let w = choose|w: int| 0 <= w < rest.len() && rest[w] == s[k];
                    assert(acc[w + 1] == s[k]);
                    assert(acc.contains(acc[w + 1]));
                }
            }
        }
    }
}

} // verus!
