use vstd::prelude::*;
use crate::game::{Action, MatchConfig};

verus! {

/// Majority heuristic: defects while the opponent has cooperated more often than defected.
#[derive(Clone, Copy, Debug, PartialEq, Eq, Structural)]
pub struct StrategyB {}

impl StrategyB {
    pub fn new() -> (r: StrategyB)
        ensures
            r == (StrategyB {}),
    {
        StrategyB {}
    }

    pub fn name(&self) -> (r: &'static str)
        ensures
            r@ == "B"@,
    {
        "B"
    }

    pub fn description(&self) -> (r: &'static str)
        ensures
            r@ == "if opponent has answered cooperate > 50% so far, answer defect; else cooperate"@,
    {
        "if opponent has answered cooperate > 50% so far, answer defect; else cooperate"
    }

    pub fn is_mixed(&self) -> (r: bool)
        ensures
            !r,
    {
        false
    }

    /// A fresh decision-maker; the payoff table plays no part in its choices.
    pub fn create_player(&self, _config: &MatchConfig) -> (p: PlayerB)
        ensures
            p == PlayerB::fresh(),
    {
        PlayerB { opponent_cooperate_plus_minus: 0 }
    }
}

/// Per-match state of the majority heuristic.
#[derive(Clone, Copy, Debug, PartialEq, Eq, Structural)]
pub struct PlayerB {
    /// The opponent's cooperations minus its defections so far.
    pub opponent_cooperate_plus_minus: i64,
}

impl PlayerB {
    pub open spec fn fresh() -> PlayerB {
        PlayerB { opponent_cooperate_plus_minus: 0 }
    }

    /// One more round can be counted without leaving `i64`.
    pub open spec fn ready(self) -> bool {
        i64::MIN < self.opponent_cooperate_plus_minus < i64::MAX
    }

    pub open spec fn advanced(self, opp: Action) -> PlayerB {
        let delta: int = match opp {
            Action::Cooperate => 1,
            Action::Defect => -1,
        };
        PlayerB { opponent_cooperate_plus_minus: (self.opponent_cooperate_plus_minus + delta) as i64 }
    }

    /// The move that the tally calls for.
    pub open spec fn choice(self) -> Action {
        if self.opponent_cooperate_plus_minus > 0 {
            Action::Defect
        } else {
            Action::Cooperate
        }
    }

    pub fn first_round(&self) -> (r: Action)
        ensures
            r == Action::Cooperate,
    {
        Action::Cooperate
    }

    pub fn next_round(&mut self, opponent_previous: &Action) -> (r: Action)
        requires
            old(self).ready(),
        ensures
            *final(self) == old(self).advanced(*opponent_previous),
            r == final(self).choice(),
    {
        let delta: i64 = match opponent_previous {
            Action::Cooperate => 1,
            Action::Defect => -1,
        };
        self.opponent_cooperate_plus_minus = self.opponent_cooperate_plus_minus + delta;
        if self.opponent_cooperate_plus_minus > 0 {
            Action::Defect
        } else {
            Action::Cooperate
        }
    }
}

} // verus!
