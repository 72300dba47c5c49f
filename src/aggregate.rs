use vstd::prelude::*;
use crate::simulate::MatchupResult;
use crate::strategies::Strategy;

verus! {

/// A strategy's score summed over every match it played.
#[derive(Clone, Copy, Debug, PartialEq, Eq, Structural)]
pub struct StrategyScore {
    pub strategy: Strategy,
    pub total_score: u32,
}

/// Each side of each result, in order: first side, then second side.
pub open spec fn entries(results: Seq<MatchupResult>) -> Seq<(Strategy, u32)>
    decreases results.len(),
{
    if results.len() == 0 {
        Seq::empty()
    } else {
        let r = results.last();
        entries(results.drop_last()) + seq![(r.s1.strategy, r.s1.score), (r.s2.strategy, r.s2.score)]
    }
}

/// The scores of `s` in `e`, summed.
pub open spec fn total_of(e: Seq<(Strategy, u32)>, s: Strategy) -> int
    decreases e.len(),
{
    if e.len() == 0 {
        0
    } else {
        total_of(e.drop_last(), s) + if e.last().0 == s {
            e.last().1 as int
        } else {
            0
        }
    }
}

/// All scores in `e`, summed.
pub open spec fn sum_scores(e: Seq<(Strategy, u32)>) -> int
    decreases e.len(),
{
    if e.len() == 0 {
        0
    } else {
        sum_scores(e.drop_last()) + e.last().1
    }
}

/// The total scores of a list of strategy scores, summed.
pub open spec fn sum_totals(t: Seq<StrategyScore>) -> int
    decreases t.len(),
{
    if t.len() == 0 {
        0
    } else {
        sum_totals(t.drop_last()) + t.last().total_score
    }
}

/// Where `s` first occurs in `e`; `e.len()` if it does not.
pub open spec fn first_pos(e: Seq<(Strategy, u32)>, s: Strategy) -> int
    decreases e.len(),
{
    if e.len() == 0 {
        0
    } else if first_pos(e.drop_last(), s) < e.len() - 1 {
        first_pos(e.drop_last(), s)
    } else if e.last().0 == s {
        e.len() - 1
    } else {
        e.len() as int
    }
}

pub open spec fn appears(e: Seq<(Strategy, u32)>, s: Strategy) -> bool {
    first_pos(e, s) < e.len()
}

/// `a` ranks above `b`: a higher total, or an equal one and an earlier first appearance in `e`.
pub open spec fn ranked_before(e: Seq<(Strategy, u32)>, a: StrategyScore, b: StrategyScore) -> bool {
    a.total_score > b.total_score || (a.total_score == b.total_score && first_pos(e, a.strategy)
        < first_pos(e, b.strategy))
}

/// `t` lists each strategy of `e` once, with its total, best first, ties in
/// order of first appearance.
pub open spec fn is_ranking(t: Seq<StrategyScore>, e: Seq<(Strategy, u32)>) -> bool {
    &&& forall|i: int|
        0 <= i < t.len() ==> #[trigger] t[i].total_score == total_of(e, t[i].strategy) && appears(
            e,
            t[i].strategy,
        )
    &&& forall|s: Strategy| appears(e, s) ==> exists|i: int| 0 <= i < t.len() && #[trigger] t[i].strategy == s
    &&& forall|i: int, j: int| 0 <= i < j < t.len() ==> ranked_before(e, #[trigger] t[i], #[trigger] t[j])
}

proof fn lemma_first_pos_bound(e: Seq<(Strategy, u32)>, s: Strategy)
    ensures
        0 <= first_pos(e, s) <= e.len(),
        first_pos(e, s) < e.len() ==> e[first_pos(e, s)].0 == s,
    decreases e.len(),
{
    if e.len() > 0 {
        lemma_first_pos_bound(e.drop_last(), s);
    }
}

proof fn lemma_sum_totals_concat(a: Seq<StrategyScore>, b: Seq<StrategyScore>)
    ensures
        sum_totals(a + b) == sum_totals(a) + sum_totals(b),
    decreases b.len(),
{
    if b.len() > 0 {
        lemma_sum_totals_concat(a, b.drop_last());
        assert((a + b).drop_last() =~= a + b.drop_last());
    }
}

proof fn lemma_sum_totals_insert(t: Seq<StrategyScore>, p: int, x: StrategyScore)
    requires
        0 <= p <= t.len(),
    ensures
        sum_totals(t.insert(p, x)) == sum_totals(t) + x.total_score,
{
    let a = t.subrange(0, p);
    let b = t.subrange(p, t.len() as int);
    assert(t =~= a + b);
    assert(t.insert(p, x) =~= (a + seq![x]) + b);
    lemma_sum_totals_concat(a, b);
    lemma_sum_totals_concat(a + seq![x], b);
    lemma_sum_totals_concat(a, seq![x]);
    lemma_sum_totals_single(x);
}

proof fn lemma_sum_totals_update(t: Seq<StrategyScore>, g: int, x: StrategyScore)
    requires
        0 <= g < t.len(),
    ensures
        sum_totals(t.update(g, x)) == sum_totals(t) - t[g].total_score + x.total_score,
{
    let a = t.subrange(0, g);
    let b = t.subrange(g + 1, t.len() as int);
    assert(t =~= (a + seq![t[g]]) + b);
    assert(t.update(g, x) =~= (a + seq![x]) + b);
    lemma_sum_totals_concat(a + seq![t[g]], b);
    lemma_sum_totals_concat(a + seq![x], b);
    lemma_sum_totals_concat(a, seq![t[g]]);
    lemma_sum_totals_concat(a, seq![x]);
    lemma_sum_totals_single(x);
    lemma_sum_totals_single(t[g]);
}

proof fn lemma_sum_totals_single(x: StrategyScore)
    ensures
        sum_totals(seq![x]) == x.total_score,
{
    assert(seq![x].drop_last() =~= Seq::<StrategyScore>::empty());
    assert(sum_totals(seq![x].drop_last()) == 0);
}

/// `t` holds each strategy seen in `e` once, with its total, in order of first appearance.
spec fn grouped(t: Seq<StrategyScore>, e: Seq<(Strategy, u32)>) -> bool {
    &&& forall|i: int|
        0 <= i < t.len() ==> #[trigger] t[i].total_score == total_of(e, t[i].strategy) && appears(
            e,
            t[i].strategy,
        )
    &&& forall|s: Strategy| appears(e, s) ==> exists|i: int| 0 <= i < t.len() && #[trigger] t[i].strategy == s
    &&& forall|i: int, j: int|
        0 <= i < j < t.len() ==> first_pos(e, #[trigger] t[i].strategy) < first_pos(e, #[trigger] t[j].strategy)
    &&& sum_totals(t) == sum_scores(e)
}

/// Counts one more entry `(s, x)` into the grouped totals.
fn add_entry(groups: &mut Vec<StrategyScore>, s: Strategy, x: u32, Ghost(e): Ghost<Seq<(Strategy, u32)>>)
    requires
        grouped(old(groups)@, e),
        total_of(e.push((s, x)), s) <= u32::MAX,
    ensures
        grouped(final(groups)@, e.push((s, x))),
{
    let ghost e2 = e.push((s, x));
    assert(e2.drop_last() =~= e);
    assert(sum_scores(e2) == sum_scores(e) + x);
    assert forall|t: Strategy| #[trigger] total_of(e2, t) == total_of(e, t) + if t == s {
        x as int
    } else {
        0
    } by {}
    assert forall|t: Strategy| #[trigger] first_pos(e2, t) == (if appears(e, t) {
        first_pos(e, t)
    } else if t == s {
        e.len() as int
    } else {
        e2.len() as int
    }) by {
        lemma_first_pos_bound(e, t);
    }
    let mut g: usize = 0;
    while g < groups.len() && groups[g].strategy != s
        invariant
            0 <= g <= groups.len(),
            forall|h: int| 0 <= h < g ==> (#[trigger] groups@[h]).strategy != s,
        decreases groups.len() - g,
    {
        g = g + 1;
    }
    let ghost before = groups@;
    if g < groups.len() {
        let old_total = groups[g].total_score;
        let updated = StrategyScore { strategy: s, total_score: old_total + x };
        groups.set(g, updated);
        proof {
            lemma_sum_totals_update(before, g as int, updated);
            assert forall|t: Strategy| appears(e2, t) implies exists|i: int|
                0 <= i < groups@.len() && #[trigger] groups@[i].strategy == t by {
                if appears(e, t) {
                    let i = choose|i: int| 0 <= i < before.len() && #[trigger] before[i].strategy == t;
                    assert(groups@[i].strategy == t);
                } else {
                    assert(groups@[g as int].strategy == t);
                }
            }
        }
    } else {
        proof {
            assert(!appears(e, s)) by {
                if appears(e, s) {
                    let i = choose|i: int| 0 <= i < before.len() && #[trigger] before[i].strategy == s;
                    assert(before[i].strategy != s);
                }
            }
            assert(total_of(e, s) == 0) by {
                lemma_total_absent(e, s);
            }
        }
        groups.push(StrategyScore { strategy: s, total_score: x });
        proof {
            assert(groups@.drop_last() =~= before);
            assert forall|t: Strategy| appears(e2, t) implies exists|i: int|
                0 <= i < groups@.len() && #[trigger] groups@[i].strategy == t by {
                if appears(e, t) {
                    let i = choose|i: int| 0 <= i < before.len() && #[trigger] before[i].strategy == t;
                    assert(groups@[i].strategy == t);
                } else {
                    assert(groups@[before.len() as int].strategy == t);
                }
            }
        }
    }
}

proof fn lemma_total_absent(e: Seq<(Strategy, u32)>, s: Strategy)
    requires
        !appears(e, s),
    ensures
        total_of(e, s) == 0,
    decreases e.len(),
{
    if e.len() > 0 {
        lemma_first_pos_bound(e.drop_last(), s);
        lemma_total_absent(e.drop_last(), s);
    }
}

/// `x` is one of the first `g` groups.
spec fn among(groups: Seq<StrategyScore>, g: int, x: StrategyScore) -> bool {
    exists|h: int| 0 <= h < g && #[trigger] groups[h] == x
}

/// `x` is somewhere in `t`.
spec fn listed(t: Seq<StrategyScore>, x: StrategyScore) -> bool {
    exists|k: int| 0 <= k < t.len() && #[trigger] t[k] == x
}

proof fn lemma_entries_prefix(results: Seq<MatchupResult>, i: int)
    requires
        0 <= i <= results.len(),
    ensures
        entries(results).len() == 2 * results.len(),
        entries(results.subrange(0, i)) == entries(results).subrange(0, 2 * i),
    decreases results.len(),
{
    if results.len() > 0 {
        lemma_entries_prefix(results.drop_last(), if i < results.len() { i } else { 0 });
        if i == results.len() {
            assert(results.subrange(0, i) =~= results);
            assert(entries(results).subrange(0, 2 * i) =~= entries(results));
        } else {
            assert(results.drop_last().subrange(0, i) =~= results.subrange(0, i));
            assert(entries(results).subrange(0, 2 * i) =~= entries(results.drop_last()).subrange(0, 2 * i));
        }
    }
}

proof fn lemma_total_prefix(e: Seq<(Strategy, u32)>, k: int, s: Strategy)
    requires
        0 <= k <= e.len(),
    ensures
        total_of(e.subrange(0, k), s) <= total_of(e, s),
    decreases e.len(),
{
    if k == e.len() {
        assert(e.subrange(0, k) =~= e);
    } else {
        assert(e.drop_last().subrange(0, k) =~= e.subrange(0, k));
        lemma_total_prefix(e.drop_last(), k, s);
    }
}

/// Places `groups[g]` into the ranking of the first `g` groups, after every
/// entry whose total is at least as high.
fn insert_ranked(
    ranked: &mut Vec<StrategyScore>,
    x: StrategyScore,
    Ghost(groups): Ghost<Seq<StrategyScore>>,
    Ghost(g): Ghost<int>,
    Ghost(e): Ghost<Seq<(Strategy, u32)>>,
)
    requires
        0 <= g < groups.len(),
        x == groups[g],
        grouped(groups, e),
        old(ranked)@.len() == g,
        forall|k: int| 0 <= k < old(ranked)@.len() ==> among(groups, g, #[trigger] old(ranked)@[k]),
        forall|h: int| 0 <= h < g ==> listed(old(ranked)@, #[trigger] groups[h]),
        forall|k: int, l: int|
            0 <= k < l < old(ranked)@.len() ==> ranked_before(e, #[trigger] old(ranked)@[k], #[trigger] old(ranked)@[l]),
    ensures
        final(ranked)@.len() == g + 1,
        forall|k: int| 0 <= k < final(ranked)@.len() ==> among(groups, g + 1, #[trigger] final(ranked)@[k]),
        forall|h: int| 0 <= h < g + 1 ==> listed(final(ranked)@, #[trigger] groups[h]),
        forall|k: int, l: int|
            0 <= k < l < final(ranked)@.len() ==> ranked_before(e, #[trigger] final(ranked)@[k], #[trigger] final(ranked)@[l]),
        sum_totals(final(ranked)@) == sum_totals(old(ranked)@) + x.total_score,
{
    let mut p: usize = 0;
    while p < ranked.len() && ranked[p].total_score >= x.total_score
        invariant
            p <= ranked@.len(),
            forall|q: int| 0 <= q < p ==> (#[trigger] ranked@[q]).total_score >= x.total_score,
        decreases ranked.len() - p,
    {
        p = p + 1;
    }
    let ghost before = ranked@;
    ranked.insert(p, x);
    proof {
        lemma_sum_totals_insert(before, p as int, x);
        lemma_ranked_insert(before, ranked@, p as int, groups, g, e);
    }
}

proof fn lemma_ranked_insert(
    before: Seq<StrategyScore>,
    n: Seq<StrategyScore>,
    p: int,
    groups: Seq<StrategyScore>,
    g: int,
    e: Seq<(Strategy, u32)>,
)
    requires
        0 <= g < groups.len(),
        grouped(groups, e),
        0 <= p <= before.len(),
        n == before.insert(p, groups[g]),
        forall|q: int| 0 <= q < p ==> (#[trigger] before[q]).total_score >= groups[g].total_score,
        p < before.len() ==> before[p].total_score < groups[g].total_score,
        forall|k: int| 0 <= k < before.len() ==> among(groups, g, #[trigger] before[k]),
        forall|h: int| 0 <= h < g ==> listed(before, #[trigger] groups[h]),
        forall|k: int, l: int|
            0 <= k < l < before.len() ==> ranked_before(e, #[trigger] before[k], #[trigger] before[l]),
    ensures
        forall|k: int| 0 <= k < n.len() ==> among(groups, g + 1, #[trigger] n[k]),
        forall|h: int| 0 <= h < g + 1 ==> listed(n, #[trigger] groups[h]),
        forall|k: int, l: int| 0 <= k < l < n.len() ==> ranked_before(e, #[trigger] n[k], #[trigger] n[l]),
{
    let x = groups[g];
    // Everything placed so far came from an earlier group, so it appeared earlier.
    assert forall|k: int| 0 <= k < before.len() implies first_pos(e, (#[trigger] before[k]).strategy)
        < first_pos(e, x.strategy) by {
        assert(among(groups, g, before[k]));
        let h = choose|h: int| 0 <= h < g && #[trigger] groups[h] == before[k];
    }
    assert forall|k: int, l: int| 0 <= k < l < n.len() implies ranked_before(e, #[trigger] n[k], #[trigger] n[l]) by {
        if l < p {
        } else if l == p {
        } else if k < p {
            assert(n[l] == before[l - 1]);
        } else if k == p {
            assert(n[l] == before[l - 1]);
            if l - 1 > p {
                assert(ranked_before(e, before[p], before[l - 1]));
            }
        } else {
            assert(n[k] == before[k - 1]);
            assert(n[l] == before[l - 1]);
        }
    }
    assert forall|k: int| 0 <= k < n.len() implies among(groups, g + 1, #[trigger] n[k]) by {
        if k < p {
            assert(among(groups, g, before[k]));
            let h = choose|h: int| 0 <= h < g && #[trigger] groups[h] == before[k];
            assert(groups[h] == n[k]);
        } else if k == p {
            assert(groups[g] == n[k]);
        } else {
            assert(n[k] == before[k - 1]);
            assert(among(groups, g, before[k - 1]));
            let h = choose|h: int| 0 <= h < g && #[trigger] groups[h] == before[k - 1];
            assert(groups[h] == n[k]);
        }
    }
    assert forall|h: int| 0 <= h < g + 1 implies listed(n, #[trigger] groups[h]) by {
        if h == g {
            assert(n[p] == groups[h]);
        } else {
            assert(listed(before, groups[h]));
            let k = choose|k: int| 0 <= k < before.len() && #[trigger] before[k] == groups[h];
            if k < p {
                assert(n[k] == groups[h]);
            } else {
                assert(n[k + 1] == groups[h]);
            }
        }
    }
}

/// Sums each strategy's scores over all results and ranks the strategies by
/// total, highest first; among equal totals, the one that appears first in
/// `results` comes first. The totals add up to all the scores in `results`.
pub fn aggregate_results(results: &[MatchupResult]) -> (r: Vec<StrategyScore>)
    requires
        forall|s: Strategy| total_of(entries(results@), s) <= u32::MAX,
    ensures
        is_ranking(r@, entries(results@)),
        sum_totals(r@) == sum_scores(entries(results@)),
        forall|i: int, j: int| 0 <= i < j < r.len() ==> r@[i].total_score >= r@[j].total_score,
{
    let ghost e_all = entries(results@);
    let mut groups: Vec<StrategyScore> = Vec::new();
    proof {
        assert(results@.subrange(0, 0) =~= Seq::<MatchupResult>::empty());
    }
    let mut i: usize = 0;
    while i < results.len()
        invariant
            i <= results@.len(),
            e_all == entries(results@),
            forall|s: Strategy| total_of(e_all, s) <= u32::MAX,
            grouped(groups@, entries(results@.subrange(0, i as int))),
        decreases results.len() - i,
    {
        let ghost e = entries(results@.subrange(0, i as int));
        let ghost e1 = e.push((results@[i as int].s1.strategy, results@[i as int].s1.score));
        let ghost e2 = e1.push((results@[i as int].s2.strategy, results@[i as int].s2.score));
        proof {
            assert(results@.subrange(0, i + 1).drop_last() =~= results@.subrange(0, i as int));
            assert(entries(results@.subrange(0, i + 1)) =~= e2);
            lemma_entries_prefix(results@, i + 1);
            assert(e2 =~= e_all.subrange(0, 2 * i + 2));
            assert(e1 =~= e_all.subrange(0, 2 * i + 1));
            lemma_total_prefix(e_all, 2 * i + 1, results@[i as int].s1.strategy);
            lemma_total_prefix(e_all, 2 * i + 2, results@[i as int].s2.strategy);
        }
        add_entry(&mut groups, results[i].s1.strategy, results[i].s1.score, Ghost(e));
        add_entry(&mut groups, results[i].s2.strategy, results[i].s2.score, Ghost(e1));
        i = i + 1;
    }
    proof {
        assert(results@.subrange(0, results@.len() as int) =~= results@);
        assert(groups@.subrange(0, 0) =~= Seq::<StrategyScore>::empty());
    }
    let mut ranked: Vec<StrategyScore> = Vec::new();
    let mut g: usize = 0;
    while g < groups.len()
        invariant
            g <= groups@.len(),
            grouped(groups@, e_all),
            ranked@.len() == g,
            forall|k: int| 0 <= k < ranked@.len() ==> among(groups@, g as int, #[trigger] ranked@[k]),
            forall|h: int| 0 <= h < g ==> listed(ranked@, #[trigger] groups@[h]),
            forall|k: int, l: int|
                0 <= k < l < ranked@.len() ==> ranked_before(e_all, #[trigger] ranked@[k], #[trigger] ranked@[l]),
            sum_totals(ranked@) == sum_totals(groups@.subrange(0, g as int)),
        decreases groups.len() - g,
    {
        insert_ranked(&mut ranked, groups[g], Ghost(groups@), Ghost(g as int), Ghost(e_all));
        proof {
            assert(groups@.subrange(0, g + 1).drop_last() =~= groups@.subrange(0, g as int));
        }
        g = g + 1;
    }
    proof {
        assert(groups@.subrange(0, groups@.len() as int) =~= groups@);
        assert forall|k: int| 0 <= k < ranked@.len() implies #[trigger] ranked@[k].total_score == total_of(
            e_all,
            ranked@[k].strategy,
        ) && appears(e_all, ranked@[k].strategy) by {
            assert(among(groups@, groups@.len() as int, ranked@[k]));
            let h = choose|h: int| 0 <= h < groups@.len() && #[trigger] groups@[h] == ranked@[k];
        }
        assert forall|s: Strategy| appears(e_all, s) implies exists|k: int|
            0 <= k < ranked@.len() && #[trigger] ranked@[k].strategy == s by {
            let h = choose|h: int| 0 <= h < groups@.len() && #[trigger] groups@[h].strategy == s;
            assert(listed(ranked@, groups@[h]));
            let k = choose|k: int| 0 <= k < ranked@.len() && #[trigger] ranked@[k] == groups@[h];
            assert(ranked@[k].strategy == s);
        }
        assert forall|k: int, l: int| 0 <= k < l < ranked@.len() implies (#[trigger] ranked@[k]).total_score
            >= (#[trigger] ranked@[l]).total_score by {
            assert(ranked_before(e_all, ranked@[k], ranked@[l]));
        }
    }
    ranked
}

} // verus!
