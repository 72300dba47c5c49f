use vstd::prelude::*;
use crate::game::{evaluate_actions, payoff, Action, MatchConfig};

verus! {

/// Plus/minus: keeps its own score minus the opponent's, and defects only while behind.
#[derive(Clone, Copy, Debug, PartialEq, Eq, Structural)]
pub struct StrategyA {}

impl StrategyA {
    pub fn new() -> (r: StrategyA)
        ensures
            r == (StrategyA {}),
    {
        StrategyA {}
    }

    pub fn name(&self) -> (r: &'static str)
        ensures
            r@ == "A"@,
    {
        "A"
    }

    pub fn description(&self) -> (r: &'static str)
        ensures
            r@ == "If I am losing, defect. If I am winning or tied, cooperate."@,
    {
        "If I am losing, defect. If I am winning or tied, cooperate."
    }

    pub fn is_mixed(&self) -> (r: bool)
        ensures
            !r,
    {
        false
    }

    /// A fresh decision-maker for one match under `config`.
    pub fn create_player(&self, config: &MatchConfig) -> (p: PlayerA)
        ensures
            p == PlayerA::fresh(*config),
    {
        PlayerA { points_plus_minus: 0, previous_action: Action::Cooperate, config: *config }
    }
}

/// Per-match state of the plus/minus strategy.
#[derive(Clone, Copy, Debug, PartialEq, Eq, Structural)]
pub struct PlayerA {
    /// Own points minus the opponent's points, over the rounds seen so far.
    pub points_plus_minus: i64,
    /// The move this player made in the last round.
    pub previous_action: Action,
    pub config: MatchConfig,
}

impl PlayerA {
    pub open spec fn fresh(c: MatchConfig) -> PlayerA {
        PlayerA { points_plus_minus: 0, previous_action: Action::Cooperate, config: c }
    }

    /// One more round can be added to the differential without leaving `i64`.
    pub open spec fn ready(self) -> bool {
        i64::MIN + u32::MAX <= self.points_plus_minus <= i64::MAX - u32::MAX
    }

    /// The state after a round that this player played as `previous_action` and
    /// the opponent as `opp`; its new `previous_action` is the next move.
    pub open spec fn advanced(self, opp: Action) -> PlayerA {
        let own = payoff(self.previous_action, opp, self.config).0;
        let theirs = payoff(self.previous_action, opp, self.config).1;
        let d = self.points_plus_minus + own - theirs;
        PlayerA {
            points_plus_minus: d as i64,
            previous_action: if d >= 0 { Action::Cooperate } else { Action::Defect },
            config: self.config,
        }
    }

    pub fn first_round(&self) -> (r: Action)
        ensures
            r == Action::Cooperate,
    {
        Action::Cooperate
    }

    pub fn next_round(&mut self, opponent_previous: &Action) -> (r: Action)
        requires
            old(self).ready(),
        ensures
            *final(self) == old(self).advanced(*opponent_previous),
            r == final(self).previous_action,
    {
        let (x1, x2) = evaluate_actions(&self.previous_action, opponent_previous, &self.config);
        self.points_plus_minus = self.points_plus_minus + x1 as i64 - x2 as i64;
        let a = if self.points_plus_minus >= 0 {
            Action::Cooperate
        } else {
            Action::Defect
        };
        self.previous_action = a;
        a
    }
}

} // verus!
