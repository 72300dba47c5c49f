use iterated_prisoners_dilemma::strategies::strategy_a::StrategyA;
use iterated_prisoners_dilemma::strategies::strategy_b::StrategyB;
use iterated_prisoners_dilemma::strategies::strategy_c::StrategyC;
use iterated_prisoners_dilemma::strategies::strategy_d::StrategyD;
use iterated_prisoners_dilemma::{
    aggregate_results, get_strategies, play_strategies, MatchConfig, MatchupResult, Strategy,
    StrategyMatchupResult,
};

fn side(strategy: Strategy, score: u32) -> StrategyMatchupResult {
    StrategyMatchupResult { strategy, score, sample_match_history: Vec::new() }
}

fn matchup(s1: Strategy, x1: u32, s2: Strategy, x2: u32) -> MatchupResult {
    MatchupResult { s1: side(s1, x1), s2: side(s2, x2) }
}

#[test]
fn aggregate_sums_and_ranks() {
    let a = Strategy::A(StrategyA::new());
    let b = Strategy::B(StrategyB::new());
    let c = Strategy::C(StrategyC::new());
    let results = vec![matchup(a, 10, b, 30), matchup(a, 5, c, 20), matchup(b, 1, c, 2)];
    let scores = aggregate_results(&results);
    let got: Vec<(Strategy, u32)> = scores.iter().map(|s| (s.strategy, s.total_score)).collect();
    assert_eq!(got, vec![(b, 31), (c, 22), (a, 15)]);
    let total: u32 = scores.iter().map(|s| s.total_score).sum();
    assert_eq!(total, 10 + 30 + 5 + 20 + 1 + 2);
}

#[test]
fn aggregate_ties_keep_first_appearance_order() {
    let a = Strategy::A(StrategyA::new());
    let b = Strategy::B(StrategyB::new());
    let c = Strategy::C(StrategyC::new());
    let d = Strategy::D(StrategyD::new());
    let results = vec![matchup(c, 4, a, 4), matchup(d, 9, b, 4)];
    let scores = aggregate_results(&results);
    let got: Vec<(Strategy, u32)> = scores.iter().map(|s| (s.strategy, s.total_score)).collect();
    assert_eq!(got, vec![(d, 9), (c, 4), (a, 4), (b, 4)]);
}

#[test]
fn aggregate_of_nothing_is_empty() {
    assert!(aggregate_results(&[]).is_empty());
}

#[test]
fn aggregate_of_a_tournament() {
    let config = MatchConfig {
        num_rounds: 50,
        both_coop_points: 4,
        defect_against_coop_points: 7,
        coop_against_defect_points: 0,
        both_defect_points: 1,
    };
    let strategies = get_strategies();
    let results = play_strategies(&strategies, &config);
    let scores = aggregate_results(&results);
    assert_eq!(scores.len(), 4);
    let sum_results: u32 = results.iter().map(|r| r.s1.score + r.s2.score).sum();
    let sum_scores: u32 = scores.iter().map(|s| s.total_score).sum();
    assert_eq!(sum_results, sum_scores);
    for w in scores.windows(2) {
        assert!(w[0].total_score >= w[1].total_score);
    }
}
