use iterated_prisoners_dilemma::strategies::strategy_a::StrategyA;
use iterated_prisoners_dilemma::strategies::strategy_b::StrategyB;
use iterated_prisoners_dilemma::strategies::strategy_c::StrategyC;
use iterated_prisoners_dilemma::strategies::strategy_d::StrategyD;
use iterated_prisoners_dilemma::{
    evaluate_actions, get_strategies, play_strategies, play_strategy_pair, Action, MatchConfig,
    Strategy,
};

fn standard_config(num_rounds: u32) -> MatchConfig {
    MatchConfig {
        num_rounds,
        both_coop_points: 4,
        defect_against_coop_points: 7,
        coop_against_defect_points: 0,
        both_defect_points: 1,
    }
}

#[test]
fn test_nice_strategies_mixed() {
    let config = MatchConfig {
        num_rounds: 200,
        both_coop_points: 4,
        defect_against_coop_points: 7,
        coop_against_defect_points: 0,
        both_defect_points: 1,
    };
    let strategies = [Strategy::A(StrategyA::new()), Strategy::D(StrategyD::new())];
    let results = play_strategies(&strategies, &config);
    assert_eq!(results.len(), 1);
    let result = &results[0];
    assert_eq!(result.s1.score, 800);
    assert_eq!(result.s2.score, 800);
    assert_eq!(
        result.s1.sample_match_history.iter().next(),
        Some(&Action::Cooperate)
    );
}

#[test]
fn evaluate_is_symmetric_under_swap() {
    let c = standard_config(1);
    let all = [Action::Cooperate, Action::Defect];
    for a1 in all.iter() {
        for a2 in all.iter() {
            let (x1, x2) = evaluate_actions(a1, a2, &c);
            let (y1, y2) = evaluate_actions(a2, a1, &c);
            assert_eq!((x1, x2), (y2, y1));
        }
    }
    assert_eq!(evaluate_actions(&Action::Cooperate, &Action::Cooperate, &c), (4, 4));
    assert_eq!(evaluate_actions(&Action::Cooperate, &Action::Defect, &c), (0, 7));
    assert_eq!(evaluate_actions(&Action::Defect, &Action::Cooperate, &c), (7, 0));
    assert_eq!(evaluate_actions(&Action::Defect, &Action::Defect, &c), (1, 1));
}

#[test]
fn action_symbols() {
    assert_eq!(Action::Cooperate.symbol(), "C");
    assert_eq!(Action::Defect.symbol(), "D");
}

#[test]
fn plus_minus_against_majority_exact_scores() {
    let config = standard_config(4);
    let r = play_strategy_pair(
        &Strategy::A(StrategyA::new()),
        &Strategy::B(StrategyB::new()),
        &config,
    );
    assert_eq!(r.s1.score, 6);
    assert_eq!(r.s2.score, 13);
    assert_eq!(r.s1.sample_match_history, vec![Action::Cooperate, Action::Cooperate, Action::Defect, Action::Defect]);
    assert_eq!(r.s2.sample_match_history, vec![Action::Cooperate, Action::Defect, Action::Defect, Action::Defect]);
}

#[test]
fn punisher_against_itself_exact_scores() {
    let config = standard_config(5);
    let s = Strategy::C(StrategyC::new());
    let r = play_strategy_pair(&s, &s, &config);
    assert_eq!(r.s1.score, 17);
    assert_eq!(r.s2.score, 17);
    assert_eq!(r.s1.sample_match_history, vec![
            Action::Cooperate,
            Action::Cooperate,
            Action::Defect,
            Action::Cooperate,
            Action::Cooperate,
        ]);
}

#[test]
fn deterministic_pair_repeats_exactly() {
    let config = standard_config(200);
    let s1 = Strategy::B(StrategyB::new());
    let s2 = Strategy::C(StrategyC::new());
    let r1 = play_strategy_pair(&s1, &s2, &config);
    let r2 = play_strategy_pair(&s1, &s2, &config);
    assert_eq!(r1.s1.score, r2.s1.score);
    assert_eq!(r1.s2.score, r2.s2.score);
    assert_eq!(r1.s1.sample_match_history, r2.s1.sample_match_history);
    assert_eq!(r1.s2.sample_match_history, r2.s2.sample_match_history);
}

#[test]
fn stochastic_pair_scores_stay_in_a_band() {
    let config = standard_config(200);
    let s1 = Strategy::B(StrategyB::new());
    let s2 = Strategy::D(StrategyD::new());
    let first = play_strategy_pair(&s1, &s2, &config);
    for _ in 0..4 {
        let r = play_strategy_pair(&s1, &s2, &config);
        for (a, b) in [(first.s1.score, r.s1.score), (first.s2.score, r.s2.score)] {
            let diff = if a > b { a - b } else { b - a };
            assert!(diff * 5 <= a.max(b), "scores {} and {} differ by more than a fifth", a, b);
        }
        assert!(r.s1.score <= 200 * 7 && r.s2.score <= 200 * 7);
    }
}

#[test]
fn zero_rounds_score_zero() {
    let config = standard_config(0);
    let r = play_strategy_pair(
        &Strategy::A(StrategyA::new()),
        &Strategy::D(StrategyD::new()),
        &config,
    );
    assert_eq!(r.s1.score, 0);
    assert_eq!(r.s2.score, 0);
    assert!(r.s1.sample_match_history.is_empty());
    assert!(r.s2.sample_match_history.is_empty());
}

#[test]
fn history_is_capped_at_ten_rounds() {
    let r = play_strategy_pair(
        &Strategy::A(StrategyA::new()),
        &Strategy::A(StrategyA::new()),
        &standard_config(200),
    );
    assert_eq!(r.s1.sample_match_history.len(), 10);
    assert_eq!(r.s2.sample_match_history.len(), 10);
    assert_eq!(r.s1.score, 800);
    let short = play_strategy_pair(
        &Strategy::A(StrategyA::new()),
        &Strategy::A(StrategyA::new()),
        &standard_config(3),
    );
    assert_eq!(short.s1.sample_match_history.len(), 3);
    assert_eq!(short.s1.score, 12);
}

#[test]
fn round_robin_covers_each_pair_once_in_order() {
    let strategies = get_strategies();
    assert_eq!(strategies.len(), 4);
    let results = play_strategies(&strategies, &standard_config(20));
    assert_eq!(results.len(), 6);
    let expected = [(0, 1), (0, 2), (0, 3), (1, 2), (1, 3), (2, 3)];
    for (r, (i, j)) in results.iter().zip(expected.iter()) {
        assert_eq!(r.s1.strategy, strategies[*i]);
        assert_eq!(r.s2.strategy, strategies[*j]);
    }
    assert!(play_strategies(&strategies[..1], &standard_config(20)).is_empty());
    assert!(play_strategies(&[], &standard_config(20)).is_empty());
}

#[test]
fn catalog_names_and_kinds() {
    let strategies = get_strategies();
    let names: Vec<&str> = strategies.iter().map(|s| s.name()).collect();
    assert_eq!(names, vec!["A", "B", "C", "D"]);
    let mixed: Vec<bool> = strategies.iter().map(|s| s.is_mixed()).collect();
    assert_eq!(mixed, vec![false, false, false, true]);
    assert!(strategies[0].description().starts_with("If I am losing"));
}
