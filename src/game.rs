use vstd::prelude::*;

verus! {

/// One player's choice in a single round.
#[derive(Clone, Copy, Debug, PartialEq, Eq, Structural)]
pub enum Action {
    Cooperate,
    Defect,
}

impl Action {
    /// The one-character form of an action: "C" or "D".
    pub fn symbol(&self) -> (r: &'static str)
        ensures
            r@ == (match *self {
                Action::Cooperate => "C"@,
                Action::Defect => "D"@,
            }),
    {
        match self {
            Action::Cooperate => "C",
            Action::Defect => "D",
        }
    }
}

/// Number of rounds per match and the payoff table.
#[derive(Clone, Copy, Debug, PartialEq, Eq, Structural)]
pub struct MatchConfig {
    pub num_rounds: u32,
    pub both_coop_points: u32,
    pub defect_against_coop_points: u32,
    pub coop_against_defect_points: u32,
    pub both_defect_points: u32,
}

/// The points that the two players earn in a round where they play `a1` and `a2`.
pub open spec fn payoff(a1: Action, a2: Action, c: MatchConfig) -> (u32, u32) {
    match (a1, a2) {
        (Action::Cooperate, Action::Cooperate) => (c.both_coop_points, c.both_coop_points),
        (Action::Cooperate, Action::Defect) => (c.coop_against_defect_points, c.defect_against_coop_points),
        (Action::Defect, Action::Cooperate) => (c.defect_against_coop_points, c.coop_against_defect_points),
        (Action::Defect, Action::Defect) => (c.both_defect_points, c.both_defect_points),
    }
}

/// The largest entry of the payoff table.
pub open spec fn max_payoff(c: MatchConfig) -> int {
    let m1 = if c.both_coop_points >= c.defect_against_coop_points {
        c.both_coop_points
    } else {
        c.defect_against_coop_points
    };
    let m2 = if c.coop_against_defect_points >= c.both_defect_points {
        c.coop_against_defect_points
    } else {
        c.both_defect_points
    };
    if m1 >= m2 { m1 as int } else { m2 as int }
}

/// A whole match, at the largest payoff in every round, still fits in a `u32` score.
pub open spec fn fits_u32(c: MatchConfig) -> bool {
    c.num_rounds as int * max_payoff(c) <= u32::MAX as int
}

pub proof fn lemma_payoff_bounded(a1: Action, a2: Action, c: MatchConfig)
    ensures
        payoff(a1, a2, c).0 <= max_payoff(c),
        payoff(a1, a2, c).1 <= max_payoff(c),
{
}

/// Swapping the two actions swaps the two scores: the payoff table favours neither seat.
pub proof fn lemma_payoff_symmetric(a1: Action, a2: Action, c: MatchConfig)
    ensures
        payoff(a1, a2, c).0 == payoff(a2, a1, c).1,
        payoff(a1, a2, c).1 == payoff(a2, a1, c).0,
{
}

/// Looks up the scores of one round in the payoff table.
pub fn evaluate_actions(a1: &Action, a2: &Action, c: &MatchConfig) -> (r: (u32, u32))
    ensures
        r == payoff(*a1, *a2, *c),
{
    match (a1, a2) {
        (Action::Cooperate, Action::Cooperate) => (c.both_coop_points, c.both_coop_points),
        (Action::Cooperate, Action::Defect) => (c.coop_against_defect_points, c.defect_against_coop_points),
        (Action::Defect, Action::Cooperate) => (c.defect_against_coop_points, c.coop_against_defect_points),
        (Action::Defect, Action::Defect) => (c.both_defect_points, c.both_defect_points),
    }
}

} // verus!
