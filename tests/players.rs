use iterated_prisoners_dilemma::strategies::strategy_a::StrategyA;
use iterated_prisoners_dilemma::strategies::strategy_b::StrategyB;
use iterated_prisoners_dilemma::strategies::strategy_c::{State, StrategyC};
use iterated_prisoners_dilemma::strategies::strategy_d::StrategyD;
use iterated_prisoners_dilemma::{Action, MatchConfig};

fn config() -> MatchConfig {
    MatchConfig {
        num_rounds: 200,
        both_coop_points: 4,
        defect_against_coop_points: 7,
        coop_against_defect_points: 0,
        both_defect_points: 1,
    }
}

#[test]
fn strategy_a_test_player() {
    let config = config();
    let mut p = StrategyA::new().create_player(&config);
    assert_eq!(p.first_round(), Action::Cooperate);
    // Round 1: (cooperate, defect). Player should defect next.
    assert_eq!(p.next_round(&Action::Defect), Action::Defect);
    // Round 2: (defect, defect).
    assert_eq!(p.next_round(&Action::Defect), Action::Defect);
    // Round 3: (defect, cooperate).
    assert_eq!(p.next_round(&Action::Cooperate), Action::Cooperate);
    // Round 4: (cooperate, cooperate).
    assert_eq!(p.next_round(&Action::Cooperate), Action::Cooperate);
}

#[test]
fn strategy_b_test_player() {
    let config = config();
    let mut p = StrategyB::new().create_player(&config);
    assert_eq!(p.first_round(), Action::Cooperate);
    // Round 1: (cooperate, defect). Player should cooperate next.
    assert_eq!(p.next_round(&Action::Defect), Action::Cooperate);
    // Round 2: (cooperate, cooperate).
    assert_eq!(p.next_round(&Action::Cooperate), Action::Cooperate);
    // Round 3: (cooperate, cooperate).
    assert_eq!(p.next_round(&Action::Cooperate), Action::Defect);
}

#[test]
fn test_two_round_punish() {
    let config = config();
    let mut p = StrategyC::new().create_player(&config);
    assert_eq!(p.first_round(), Action::Cooperate);
    // Round 1: (cooperate, defect). Punish defection for two rounds.
    assert_eq!(p.next_round(&Action::Defect), Action::Defect);
    // Round 2: (defect, defect).
    assert_eq!(p.next_round(&Action::Defect), Action::Defect);
    // Round 3: (cooperate, cooperate).
    assert_eq!(p.next_round(&Action::Cooperate), Action::Cooperate);
}

#[test]
fn test_defect_until_punished() {
    let config = config();
    let mut p = StrategyC::new().create_player(&config);
    // Round 1: (cooperate, cooperate).
    assert_eq!(p.next_round(&Action::Cooperate), Action::Cooperate);
    // Round 2: (cooperate, cooperate).
    assert_eq!(p.next_round(&Action::Cooperate), Action::Defect);
    // Round 3: (defect, cooperate).
    assert_eq!(p.next_round(&Action::Cooperate), Action::Defect);
    // Round 3: (defect, defect).
    assert_eq!(p.next_round(&Action::Defect), Action::Cooperate);
}

#[test]
fn test_always_cooperate_back() {
    let config = config();
    let mut p = StrategyD::new().create_player(&config);
    assert_eq!(p.first_round(), Action::Cooperate);
    for _i in 0..10 {
        assert_eq!(p.next_round(&Action::Cooperate), Action::Cooperate);
    }
}

#[test]
fn punisher_states_follow_the_automaton() {
    let mut p = StrategyC::new().create_player(&config());
    assert_eq!(p.state, State::DefaultState);
    p.next_round(&Action::Defect);
    assert_eq!(p.state, State::TwoRoundPunish);
    p.next_round(&Action::Defect);
    assert_eq!(p.state, State::DefaultState);
    // Mutual defection de-escalates.
    assert_eq!(p.next_round(&Action::Defect), Action::Cooperate);
    assert_eq!(p.state, State::DefaultState);
}

#[test]
fn plus_minus_tracks_the_differential() {
    let mut p = StrategyA::new().create_player(&config());
    p.next_round(&Action::Defect);
    assert_eq!(p.points_plus_minus, -7);
    p.next_round(&Action::Cooperate);
    assert_eq!(p.points_plus_minus, 0);
    assert_eq!(p.previous_action, Action::Cooperate);
}

#[test]
fn forgiver_with_injected_draws() {
    let mut p = StrategyD::new().create_player(&config());
    assert_eq!(p.x, 0);
    // With a zero counter a defection is always answered in kind.
    assert_eq!(p.next_round_with_draw(&Action::Defect, 0), Action::Defect);
    assert_eq!(p.x, 1);
    assert_eq!(p.next_round_with_draw(&Action::Defect, 1), Action::Defect);
    assert_eq!(p.x, 2);
    assert_eq!(p.next_round_with_draw(&Action::Defect, 2), Action::Defect);
    assert_eq!(p.x, 3);
    // A draw below the counter forgives and resets it.
    assert_eq!(p.next_round_with_draw(&Action::Defect, 2), Action::Cooperate);
    assert_eq!(p.x, 0);
    assert_eq!(p.next_round_with_draw(&Action::Cooperate, 0), Action::Cooperate);
    assert_eq!(p.x, 0);
}

#[test]
fn forgiver_at_full_counter_always_forgives() {
    let mut p = StrategyD::new().create_player(&config());
    p.x = 50;
    for _ in 0..20 {
        p.x = 50;
        assert_eq!(p.next_round(&Action::Defect), Action::Cooperate);
        assert_eq!(p.x, 0);
    }
    // From zero, the first defection is always returned.
    assert_eq!(p.next_round(&Action::Defect), Action::Defect);
    assert_eq!(p.x, 1);
}
