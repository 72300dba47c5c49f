use vstd::prelude::*;
use crate::game::{fits_u32, MatchConfig};
use crate::simulate::{is_matchup_of, play_strategy_pair, MatchupResult};
use crate::strategies::Strategy;

verus! {

/// The pairs `(i, j)` with `i < j < n`, for one first index `i`.
pub open spec fn pair_row(i: int, n: int) -> Seq<(int, int)> {
    Seq::new((n - i - 1) as nat, |t: int| (i, i + 1 + t))
}

/// The pairs `(i, j)` with `i < j < n` and `i < m`, ordered by `i`, then by `j`.
pub open spec fn pairs_before(m: nat, n: int) -> Seq<(int, int)>
    decreases m,
{
    if m == 0 {
        Seq::empty()
    } else {
        pairs_before((m - 1) as nat, n) + pair_row(m - 1, n)
    }
}

/// Every unordered pair of `n` strategies, each once, no strategy against itself.
pub open spec fn all_pairs(n: nat) -> Seq<(int, int)> {
    pairs_before(n, n as int)
}

proof fn lemma_pairs_before_len(m: int, n: int)
    requires
        0 <= m <= n,
    ensures
        2 * (pairs_before(m as nat, n).len() as int) == 2 * m * n - m * (m + 1),
    decreases m,
{
    if m > 0 {
        lemma_pairs_before_len(m - 1, n);
        let a = pairs_before((m - 1) as nat, n).len() as int;
        assert(pairs_before(m as nat, n).len() == a + (n - m));
        assert(2 * (a + (n - m)) == 2 * m * n - m * (m + 1)) by (nonlinear_arith)
            requires
                2 * a == 2 * (m - 1) * n - (m - 1) * (m - 1 + 1),
        ;
        assert(2 * (pairs_before(m as nat, n).len() as int) == 2 * m * n - m * (m + 1));
    } else {
        assert(pairs_before(m as nat, n).len() == 0);
        assert(2 * m * n - m * (m + 1) == 0) by (nonlinear_arith)
            requires
                m == 0,
        ;
    }
}

/// There are `n * (n - 1) / 2` pairs.
pub proof fn lemma_all_pairs_len(n: nat)
    ensures
        2 * all_pairs(n).len() == n * (n - 1),
{
    lemma_pairs_before_len(n as int, n as int);
    assert(2 * n * n - n * (n + 1) == n * (n - 1)) by (nonlinear_arith);
}

/// Plays every pair `(i, j)` with `i < j` of `strategies` once, in the order of `all_pairs`.
pub fn play_strategies(strategies: &[Strategy], config: &MatchConfig) -> (r: Vec<MatchupResult>)
    requires
        fits_u32(*config),
    ensures
        r.len() == all_pairs(strategies@.len()).len(),
        2 * r.len() == strategies@.len() * (strategies@.len() - 1),
        forall|k: int|
            0 <= k < r.len() ==> is_matchup_of(
                #[trigger] r@[k],
                strategies@[all_pairs(strategies@.len())[k].0],
                strategies@[all_pairs(strategies@.len())[k].1],
                *config,
            ),
{
    let n = strategies.len();
    let mut results: Vec<MatchupResult> = Vec::new();
    let mut i: usize = 0;
    while i < n
        invariant
            n == strategies@.len(),
            fits_u32(*config),
            i <= n,
            results.len() == pairs_before(i as nat, n as int).len(),
            forall|k: int|
                0 <= k < results.len() ==> is_matchup_of(
                    #[trigger] results@[k],
                    strategies@[pairs_before(i as nat, n as int)[k].0],
                    strategies@[pairs_before(i as nat, n as int)[k].1],
                    *config,
                ),
        decreases n - i,
    {
        let ghost done = pairs_before(i as nat, n as int);
        let ghost row = pair_row(i as int, n as int);
        let mut j: usize = i + 1;
        while j < n
            invariant
                n == strategies@.len(),
                fits_u32(*config),
                i < j <= n,
                done == pairs_before(i as nat, n as int),
                row == pair_row(i as int, n as int),
                results.len() == done.len() + (j - i - 1),
                forall|k: int|
                    0 <= k < results.len() ==> is_matchup_of(
                        #[trigger] results@[k],
                        strategies@[(done + row)[k].0],
                        strategies@[(done + row)[k].1],
                        *config,
                    ),
            decreases n - j,
        {
            let r = play_strategy_pair(&strategies[i], &strategies[j], config);
            results.push(r);
            j = j + 1;
        }
        proof {
            assert(pairs_before((i + 1) as nat, n as int) == done + row);
        }
        i = i + 1;
    }
    proof {
        lemma_all_pairs_len(n as nat);
    }
    results
}

} // verus!
