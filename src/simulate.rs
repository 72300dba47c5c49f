use vstd::prelude::*;
use crate::game::{evaluate_actions, fits_u32, lemma_payoff_bounded, max_payoff, payoff, Action, MatchConfig};
use crate::strategies::{PlayerModel, Strategy};
use crate::strategies::strategy_d::FORGIVENESS_SCALE;

verus! {

/// How many opening rounds of a match are kept for display.
pub const HISTORY_LEN: u32 = 10;

/// How many runs a match with a stochastic strategy is averaged over.
pub const MIXED_RUNS: u64 = 100;

/// The result of a match for one of its two sides.
pub struct StrategyMatchupResult {
    pub strategy: Strategy,
    /// Total points over a whole match, averaged over the runs.
    pub score: u32,
    /// This side's moves in the opening rounds of the last run.
    pub sample_match_history: Vec<Action>,
}

/// The result of a match between two strategies.
pub struct MatchupResult {
    pub s1: StrategyMatchupResult,
    pub s2: StrategyMatchupResult,
}

/// One run after `k` rounds: both decision-makers, the moves of round `k`, and
/// both scores. Round `j >= 2` reads the draws `draws[j - 2]` of the two sides.
pub open spec fn run_state(
    p1: PlayerModel,
    p2: PlayerModel,
    c: MatchConfig,
    draws: Seq<(u32, u32)>,
    k: nat,
) -> (PlayerModel, PlayerModel, Action, Action, int, int)
    decreases k,
{
    if k == 0 {
        (p1, p2, Action::Cooperate, Action::Cooperate, 0, 0)
    } else if k == 1 {
        let a1 = p1.first();
        let a2 = p2.first();
        (p1, p2, a1, a2, payoff(a1, a2, c).0 as int, payoff(a1, a2, c).1 as int)
    } else {
        let prev = run_state(p1, p2, c, draws, (k - 1) as nat);
        let n1 = prev.0.step(prev.3, draws[k - 2].0);
        let n2 = prev.1.step(prev.2, draws[k - 2].1);
        (
            n1.0,
            n2.0,
            n1.1,
            n2.1,
            prev.4 + payoff(n1.1, n2.1, c).0,
            prev.5 + payoff(n1.1, n2.1, c).1,
        )
    }
}

/// A whole run of `s1` against `s2`.
pub open spec fn run_of(s1: Strategy, s2: Strategy, c: MatchConfig, draws: Seq<(u32, u32)>) -> (
    PlayerModel,
    PlayerModel,
    Action,
    Action,
    int,
    int,
) {
    run_state(s1.initial(c), s2.initial(c), c, draws, c.num_rounds as nat)
}

pub open spec fn history_len(c: MatchConfig) -> nat {
    if c.num_rounds < HISTORY_LEN {
        c.num_rounds as nat
    } else {
        HISTORY_LEN as nat
    }
}

/// Both sides' moves in the opening rounds of a run.
pub open spec fn history(s1: Strategy, s2: Strategy, c: MatchConfig, draws: Seq<(u32, u32)>) -> (
    Seq<Action>,
    Seq<Action>,
) {
    (
        Seq::new(history_len(c), |i: int| run_state(s1.initial(c), s2.initial(c), c, draws, (i + 1) as nat).2),
        Seq::new(history_len(c), |i: int| run_state(s1.initial(c), s2.initial(c), c, draws, (i + 1) as nat).3),
    )
}

/// Draws for one run: one pair for each round after the first, each below the scale.
pub open spec fn valid_draws(draws: Seq<(u32, u32)>, c: MatchConfig) -> bool {
    &&& draws.len() == (if c.num_rounds == 0 { 0 } else { c.num_rounds - 1 })
    &&& forall|i: int| 0 <= i < draws.len() ==> draws[i].0 < FORGIVENESS_SCALE && draws[i].1 < FORGIVENESS_SCALE
}

/// The draws of a run between deterministic strategies, which read none of them.
pub open spec fn no_draws(c: MatchConfig) -> Seq<(u32, u32)> {
    Seq::new((if c.num_rounds == 0 { 0 } else { c.num_rounds - 1 }) as nat, |i: int| (0u32, 0u32))
}

pub open spec fn num_runs(s1: Strategy, s2: Strategy) -> nat {
    if s1.mixed() || s2.mixed() {
        MIXED_RUNS as nat
    } else {
        1
    }
}

/// Both sides' scores summed over the runs made with the given draws.
pub open spec fn runs_total(s1: Strategy, s2: Strategy, c: MatchConfig, runs: Seq<Seq<(u32, u32)>>) -> (
    int,
    int,
)
    decreases runs.len(),
{
    if runs.len() == 0 {
        (0, 0)
    } else {
        let prev = runs_total(s1, s2, c, runs.drop_last());
        let last = run_of(s1, s2, c, runs.last());
        (prev.0 + last.4, prev.1 + last.5)
    }
}

/// `r` is what a match of `s1` against `s2` gives when its runs draw `runs`:
/// the scores are the integer averages of the run totals, the histories those
/// of the last run.
pub open spec fn outcome_with(
    r: MatchupResult,
    s1: Strategy,
    s2: Strategy,
    c: MatchConfig,
    runs: Seq<Seq<(u32, u32)>>,
) -> bool {
    &&& r.s1.strategy == s1
    &&& r.s2.strategy == s2
    &&& runs.len() == num_runs(s1, s2)
    &&& forall|i: int| 0 <= i < runs.len() ==> valid_draws(#[trigger] runs[i], c)
    &&& r.s1.score as int == runs_total(s1, s2, c, runs).0 / num_runs(s1, s2) as int
    &&& r.s2.score as int == runs_total(s1, s2, c, runs).1 / num_runs(s1, s2) as int
    &&& r.s1.sample_match_history@ == history(s1, s2, c, runs.last()).0
    &&& r.s2.sample_match_history@ == history(s1, s2, c, runs.last()).1
}

/// `r` is what some outcome of the random draws makes of a match of `s1` against `s2`.
pub open spec fn is_matchup_of(r: MatchupResult, s1: Strategy, s2: Strategy, c: MatchConfig) -> bool {
    exists|runs: Seq<Seq<(u32, u32)>>| outcome_with(r, s1, s2, c, runs)
}

/// The decision-maker's counters stay within what `k` rounds can produce.
pub open spec fn bounded(p: PlayerModel, k: nat, c: MatchConfig) -> bool {
    match p {
        PlayerModel::A(a) => a.config == c && -(k * max_payoff(c)) <= a.points_plus_minus <= k
            * max_payoff(c),
        PlayerModel::B(b) => -k <= b.opponent_cooperate_plus_minus <= k,
        PlayerModel::C(_) => true,
        PlayerModel::D(x) => x <= FORGIVENESS_SCALE,
    }
}

proof fn lemma_step_bounded(p: PlayerModel, opp: Action, d: u32, k: nat, c: MatchConfig)
    requires
        bounded(p, k, c),
        p.ready(),
        d < FORGIVENESS_SCALE,
    ensures
        bounded(p.step(opp, d).0, k + 1, c),
{
    if let PlayerModel::A(a) = p {
        lemma_payoff_bounded(a.previous_action, opp, c);
        assert((k + 1) * max_payoff(c) == k * max_payoff(c) + max_payoff(c)) by (nonlinear_arith);
    }
}

proof fn lemma_bounded_ready(p: PlayerModel, k: nat, c: MatchConfig)
    requires
        bounded(p, k, c),
        k <= c.num_rounds,
        fits_u32(c),
    ensures
        p.ready(),
{
    assert(0 <= max_payoff(c));
    assert(k * max_payoff(c) <= c.num_rounds * max_payoff(c)) by (nonlinear_arith)
        requires
            k <= c.num_rounds,
            0 <= max_payoff(c),
    ;
}

/// A run's state after `k` rounds reads only the draws of its first `k - 1` rounds.
proof fn lemma_run_state_prefix(
    p1: PlayerModel,
    p2: PlayerModel,
    c: MatchConfig,
    d1: Seq<(u32, u32)>,
    d2: Seq<(u32, u32)>,
    k: nat,
)
    requires
        k <= d1.len() + 1,
        k <= d2.len() + 1,
        forall|i: int| 0 <= i < k - 1 ==> d1[i] == d2[i],
    ensures
        run_state(p1, p2, c, d1, k) == run_state(p1, p2, c, d2, k),
    decreases k,
{
    if k > 1 {
        lemma_run_state_prefix(p1, p2, c, d1, d2, (k - 1) as nat);
    }
}

/// Between decision-makers that draw nothing, a run does not depend on the draws.
proof fn lemma_run_state_deterministic(
    p1: PlayerModel,
    p2: PlayerModel,
    c: MatchConfig,
    d1: Seq<(u32, u32)>,
    d2: Seq<(u32, u32)>,
    k: nat,
)
    requires
        !(p1 is D),
        !(p2 is D),
    ensures
        run_state(p1, p2, c, d1, k) == run_state(p1, p2, c, d2, k),
        !(run_state(p1, p2, c, d1, k).0 is D),
        !(run_state(p1, p2, c, d1, k).1 is D),
    decreases k,
{
    if k > 1 {
        lemma_run_state_deterministic(p1, p2, c, d1, d2, (k - 1) as nat);
    }
}

/// Adds the scores of one round to both running totals.
fn update_scores(score1: &mut u32, score2: &mut u32, a1: &Action, a2: &Action, config: &MatchConfig)
    requires
        *old(score1) + payoff(*a1, *a2, *config).0 <= u32::MAX,
        *old(score2) + payoff(*a1, *a2, *config).1 <= u32::MAX,
    ensures
        *final(score1) == *old(score1) + payoff(*a1, *a2, *config).0,
        *final(score2) == *old(score2) + payoff(*a1, *a2, *config).1,
{
    let (x1, x2) = evaluate_actions(a1, a2, config);
    *score1 = *score1 + x1;
    *score2 = *score2 + x2;
}

/// Records the moves of a round while fewer than `match_hist_len` are kept.
fn update_match_history(
    actions1: &mut Vec<Action>,
    actions2: &mut Vec<Action>,
    a1: &Action,
    a2: &Action,
    match_hist_len: usize,
)
    requires
        old(actions1).len() == old(actions2).len(),
    ensures
        old(actions1).len() < match_hist_len ==> final(actions1)@ == old(actions1)@.push(*a1)
            && final(actions2)@ == old(actions2)@.push(*a2),
        old(actions1).len() >= match_hist_len ==> final(actions1)@ == old(actions1)@
            && final(actions2)@ == old(actions2)@,
{
    if actions1.len() < match_hist_len {
        actions1.push(*a1);
        actions2.push(*a2);
    }
}

/// The results of one run: both scores, both opening histories, and (as a
/// ghost) the draws that were made.
struct RunResult {
    score1: u32,
    score2: u32,
    actions1: Vec<Action>,
    actions2: Vec<Action>,
    draws: Ghost<Seq<(u32, u32)>>,
}

/// Plays one run of `s1` against `s2` with fresh decision-makers.
fn play_run(s1: &Strategy, s2: &Strategy, config: &MatchConfig) -> (r: RunResult)
    requires
        fits_u32(*config),
    ensures
        valid_draws(r.draws@, *config),
        r.score1 as int == run_of(*s1, *s2, *config, r.draws@).4,
        r.score2 as int == run_of(*s1, *s2, *config, r.draws@).5,
        r.actions1@ == history(*s1, *s2, *config, r.draws@).0,
        r.actions2@ == history(*s1, *s2, *config, r.draws@).1,
{
    let ghost c = *config;
    let ghost init1 = s1.initial(c);
    let ghost init2 = s2.initial(c);
    let n = config.num_rounds;
    let hist_len: usize = if n < HISTORY_LEN {
        n as usize
    } else {
        HISTORY_LEN as usize
    };
    let mut actions1: Vec<Action> = Vec::new();
    let mut actions2: Vec<Action> = Vec::new();
    let mut p1 = s1.create_player(config);
    let mut p2 = s2.create_player(config);
    if n == 0 {
        // No rounds are played: both scores stay zero.
        proof {
            assert(actions1@ =~= history(*s1, *s2, c, Seq::empty()).0);
            assert(actions2@ =~= history(*s1, *s2, c, Seq::empty()).1);
        }
        return RunResult { score1: 0, score2: 0, actions1, actions2, draws: Ghost(Seq::empty()) };
    }
    let mut a1 = p1.first_round();
    let mut a2 = p2.first_round();
    let mut score1: u32 = 0;
    let mut score2: u32 = 0;
    proof {
        lemma_payoff_bounded(a1, a2, c);
        assert(1 * max_payoff(c) <= n * max_payoff(c)) by (nonlinear_arith)
            requires
                1 <= n,
                0 <= max_payoff(c),
        ;
    }
    update_scores(&mut score1, &mut score2, &a1, &a2, config);
    update_match_history(&mut actions1, &mut actions2, &a1, &a2, hist_len);
    let ghost mut draws: Seq<(u32, u32)> = Seq::empty();
    let mut k: u32 = 1;
    while k < n
        invariant
            c == *config,
            n == c.num_rounds,
            fits_u32(c),
            init1 == s1.initial(c),
            init2 == s2.initial(c),
            hist_len == history_len(c),
            1 <= k <= n,
            draws.len() == k - 1,
            forall|i: int|
                0 <= i < draws.len() ==> draws[i].0 < FORGIVENESS_SCALE && draws[i].1 < FORGIVENESS_SCALE,
            (p1.model(), p2.model(), a1, a2, score1 as int, score2 as int) == run_state(
                init1,
                init2,
                c,
                draws,
                k as nat,
            ),
            bounded(p1.model(), k as nat, c),
            bounded(p2.model(), k as nat, c),
            score1 <= k * max_payoff(c),
            score2 <= k * max_payoff(c),
            actions1.len() == actions2.len(),
            actions1.len() == (if k < HISTORY_LEN { k as nat } else { HISTORY_LEN as nat }),
            forall|i: int|
                0 <= i < actions1.len() ==> actions1[i] == run_state(init1, init2, c, draws, (i + 1) as nat).2
                    && actions2[i] == run_state(init1, init2, c, draws, (i + 1) as nat).3,
        decreases n - k,
    {
        let ghost m1 = p1.model();
        let ghost m2 = p2.model();
        proof {
            lemma_bounded_ready(m1, k as nat, c);
            lemma_bounded_ready(m2, k as nat, c);
        }
        let next1 = p1.next_round(&a2);
        let next2 = p2.next_round(&a1);
        let ghost d1 = choose|d: u32| d < FORGIVENESS_SCALE && (p1.model(), next1) == m1.step(a2, d);
        let ghost d2 = choose|d: u32| d < FORGIVENESS_SCALE && (p2.model(), next2) == m2.step(a1, d);
        let ghost old_draws = draws;
        proof {
            draws = draws.push((d1, d2));
            lemma_run_state_prefix(init1, init2, c, old_draws, draws, k as nat);
            lemma_step_bounded(m1, a2, d1, k as nat, c);
            lemma_step_bounded(m2, a1, d2, k as nat, c);
            lemma_payoff_bounded(next1, next2, c);
            assert((k + 1) * max_payoff(c) == k * max_payoff(c) + max_payoff(c)) by (nonlinear_arith);
            assert((k + 1) * max_payoff(c) <= n * max_payoff(c)) by (nonlinear_arith)
                requires
                    k + 1 <= n,
                    0 <= max_payoff(c),
            ;
            assert forall|i: int| 0 <= i < actions1.len() implies #[trigger] run_state(init1, init2, c, draws, (i + 1) as nat)
                == run_state(init1, init2, c, old_draws, (i + 1) as nat) by {
                lemma_run_state_prefix(init1, init2, c, old_draws, draws, (i + 1) as nat);
            }
        }
        a1 = next1;
        a2 = next2;
        update_scores(&mut score1, &mut score2, &a1, &a2, config);
        update_match_history(&mut actions1, &mut actions2, &a1, &a2, hist_len);
        k = k + 1;
    }
    proof {
        assert(actions1@ =~= history(*s1, *s2, c, draws).0);
        assert(actions2@ =~= history(*s1, *s2, c, draws).1);
    }
    RunResult { score1, score2, actions1, actions2, draws: Ghost(draws) }
}

/// What a match between deterministic strategies gives, whatever the draws.
pub proof fn lemma_deterministic_outcome(r: MatchupResult, s1: Strategy, s2: Strategy, c: MatchConfig)
    requires
        is_matchup_of(r, s1, s2, c),
        !s1.mixed(),
        !s2.mixed(),
    ensures
        r.s1.score as int == run_of(s1, s2, c, no_draws(c)).4,
        r.s2.score as int == run_of(s1, s2, c, no_draws(c)).5,
        r.s1.sample_match_history@ == history(s1, s2, c, no_draws(c)).0,
        r.s2.sample_match_history@ == history(s1, s2, c, no_draws(c)).1,
{
    let runs = choose|runs: Seq<Seq<(u32, u32)>>| outcome_with(r, s1, s2, c, runs);
    let d = runs.last();
    assert(runs.drop_last().len() == 0);
    assert(runs_total(s1, s2, c, runs.drop_last()) == (0int, 0int));
    lemma_run_state_deterministic(s1.initial(c), s2.initial(c), c, d, no_draws(c), c.num_rounds as nat);
    assert forall|i: int| 0 <= i < history_len(c) implies #[trigger] run_state(
        s1.initial(c),
        s2.initial(c),
        c,
        d,
        (i + 1) as nat,
    ) == run_state(s1.initial(c), s2.initial(c), c, no_draws(c), (i + 1) as nat) by {
        lemma_run_state_deterministic(s1.initial(c), s2.initial(c), c, d, no_draws(c), (i + 1) as nat);
    }
    assert(history(s1, s2, c, d).0 =~= history(s1, s2, c, no_draws(c)).0);
    assert(history(s1, s2, c, d).1 =~= history(s1, s2, c, no_draws(c)).1);
}

/// A match between two deterministic strategies has a single outcome: played
/// twice on the same inputs it gives the same scores and histories.
pub proof fn lemma_deterministic_pair_repeats(
    r1: MatchupResult,
    r2: MatchupResult,
    s1: Strategy,
    s2: Strategy,
    c: MatchConfig,
)
    requires
        is_matchup_of(r1, s1, s2, c),
        is_matchup_of(r2, s1, s2, c),
        !s1.mixed(),
        !s2.mixed(),
    ensures
        r1.s1.score == r2.s1.score,
        r1.s2.score == r2.s2.score,
        r1.s1.sample_match_history@ == r2.s1.sample_match_history@,
        r1.s2.sample_match_history@ == r2.s2.sample_match_history@,
{
    lemma_deterministic_outcome(r1, s1, s2, c);
    lemma_deterministic_outcome(r2, s1, s2, c);
}

/// Plays a match of `s1` against `s2`: one run if both are deterministic,
/// `MIXED_RUNS` runs otherwise, with scores averaged by integer division.
pub fn play_strategy_pair(s1: &Strategy, s2: &Strategy, config: &MatchConfig) -> (r: MatchupResult)
    requires
        fits_u32(*config),
    ensures
        is_matchup_of(r, *s1, *s2, *config),
        !s1.mixed() && !s2.mixed() ==> {
            &&& r.s1.score as int == run_of(*s1, *s2, *config, no_draws(*config)).4
            &&& r.s2.score as int == run_of(*s1, *s2, *config, no_draws(*config)).5
            &&& r.s1.sample_match_history@ == history(*s1, *s2, *config, no_draws(*config)).0
            &&& r.s2.sample_match_history@ == history(*s1, *s2, *config, no_draws(*config)).1
        },
{
    let ghost c = *config;
    let runs_needed: u64 = if s1.is_mixed() || s2.is_mixed() {
        MIXED_RUNS
    } else {
        1
    };
    let first = play_run(s1, s2, config);
    let mut total1: u64 = first.score1 as u64;
    let mut total2: u64 = first.score2 as u64;
    let mut actions1 = first.actions1;
    let mut actions2 = first.actions2;
    let ghost mut runs: Seq<Seq<(u32, u32)>> = seq![first.draws@];
    proof {
        assert(runs.drop_last() =~= Seq::<Seq<(u32, u32)>>::empty());
        assert(runs_total(*s1, *s2, c, runs.drop_last()) == (0int, 0int));
    }
    let mut i: u64 = 1;
    while i < runs_needed
        invariant
            c == *config,
            fits_u32(c),
            runs_needed == num_runs(*s1, *s2),
            1 <= i <= runs_needed,
            runs.len() == i,
            forall|j: int| 0 <= j < runs.len() ==> valid_draws(#[trigger] runs[j], c),
            total1 as int == runs_total(*s1, *s2, c, runs).0,
            total2 as int == runs_total(*s1, *s2, c, runs).1,
            total1 <= i * u32::MAX,
            total2 <= i * u32::MAX,
            actions1@ == history(*s1, *s2, c, runs.last()).0,
            actions2@ == history(*s1, *s2, c, runs.last()).1,
        decreases runs_needed - i,
    {
        let run = play_run(s1, s2, config);
        total1 = total1 + run.score1 as u64;
        total2 = total2 + run.score2 as u64;
        actions1 = run.actions1;
        actions2 = run.actions2;
        proof {
            let prev = runs;
            runs = runs.push(run.draws@);
            assert(runs.drop_last() =~= prev);
        }
        i = i + 1;
    }
    proof {
        assert(total1 / runs_needed <= u32::MAX) by (nonlinear_arith)
            requires
                total1 <= runs_needed * u32::MAX,
                runs_needed >= 1,
        ;
        assert(total2 / runs_needed <= u32::MAX) by (nonlinear_arith)
            requires
                total2 <= runs_needed * u32::MAX,
                runs_needed >= 1,
        ;
    }
    let r = MatchupResult {
        s1: StrategyMatchupResult {
            strategy: *s1,
            score: (total1 / runs_needed) as u32,
            sample_match_history: actions1,
        },
        s2: StrategyMatchupResult {
            strategy: *s2,
            score: (total2 / runs_needed) as u32,
            sample_match_history: actions2,
        },
    };
    proof {
        assert(outcome_with(r, *s1, *s2, c, runs));
        if !s1.mixed() && !s2.mixed() {
            lemma_deterministic_outcome(r, *s1, *s2, c);
        }
    }
    r
}

} // verus!
