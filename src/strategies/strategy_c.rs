use vstd::prelude::*;
use crate::game::{Action, MatchConfig};

verus! {

/// Three-state punisher, written as a finite automaton.
#[derive(Clone, Copy, Debug, PartialEq, Eq, Structural)]
pub struct StrategyC {}

impl StrategyC {
    pub fn new() -> (r: StrategyC)
        ensures
            r == (StrategyC {}),
    {
        StrategyC {}
    }

    pub fn name(&self) -> (r: &'static str)
        ensures
            r@ == "C"@,
    {
        "C"
    }

    pub fn description(&self) -> (r: &'static str)
        ensures
            r@ == "#1 Cooperate by default.\n\
            #2 If the opponent I'm playing has cooperated as well for two turn, start defecting. Continue defecting as long as the opponent is cooperating.\n\
            #3 If i'm defecting, and the opponent is defecting, resume #1 and cooperate until #2 criteria is met.\n\
            #4 if I'm cooperating and my opponent is defecting, defect for 2 rounds and resume #1"@,
    {
        "#1 Cooperate by default.\n\
        #2 If the opponent I'm playing has cooperated as well for two turn, start defecting. Continue defecting as long as the opponent is cooperating.\n\
        #3 If i'm defecting, and the opponent is defecting, resume #1 and cooperate until #2 criteria is met.\n\
        #4 if I'm cooperating and my opponent is defecting, defect for 2 rounds and resume #1"
    }

    pub fn is_mixed(&self) -> (r: bool)
        ensures
            !r,
    {
        false
    }

    /// A fresh decision-maker; the payoff table plays no part in its choices.
    pub fn create_player(&self, _config: &MatchConfig) -> (p: PlayerC)
        ensures
            p == PlayerC::fresh(),
    {
        PlayerC {
            state: State::DefaultState,
            previous_action: Action::Cooperate,
            opponent_previous_previous: Action::Defect,
        }
    }
}

/// The automaton's states.
#[derive(Clone, Copy, Debug, PartialEq, Eq, Structural)]
pub enum State {
    /// Cooperate, watching for sustained cooperation or a defection.
    DefaultState,
    /// Exploit the opponent until it retaliates.
    DefectUntilPunished,
    /// The second of two punishing defections is due.
    TwoRoundPunish,
}

/// Per-match state of the three-state punisher.
#[derive(Clone, Copy, Debug, PartialEq, Eq, Structural)]
pub struct PlayerC {
    pub state: State,
    /// The move this player made in the last round.
    pub previous_action: Action,
    /// The opponent's move two rounds ago.
    pub opponent_previous_previous: Action,
}

impl PlayerC {
    pub open spec fn fresh() -> PlayerC {
        PlayerC {
            state: State::DefaultState,
            previous_action: Action::Cooperate,
            opponent_previous_previous: Action::Defect,
        }
    }

    /// The automaton's transition: the next state and the move it plays.
    pub open spec fn transition(self, opp: Action) -> (State, Action) {
        match self.state {
            State::DefaultState => {
                if self.previous_action == Action::Cooperate && opp == Action::Cooperate
                    && self.opponent_previous_previous == Action::Cooperate {
                    (State::DefectUntilPunished, Action::Defect)
                } else if self.previous_action == Action::Defect && opp == Action::Defect {
                    (State::DefaultState, Action::Cooperate)
                } else if self.previous_action == Action::Cooperate && opp == Action::Defect {
                    (State::TwoRoundPunish, Action::Defect)
                } else {
                    (State::DefaultState, Action::Cooperate)
                }
            },
            State::TwoRoundPunish => (State::DefaultState, Action::Defect),
            State::DefectUntilPunished => match opp {
                Action::Cooperate => (State::DefectUntilPunished, Action::Defect),
                Action::Defect => (State::DefaultState, Action::Cooperate),
            },
        }
    }

    /// The state after the opponent played `opp`; its `previous_action` is the move made.
    pub open spec fn advanced(self, opp: Action) -> PlayerC {
        PlayerC {
            state: self.transition(opp).0,
            previous_action: self.transition(opp).1,
            opponent_previous_previous: opp,
        }
    }

    pub fn first_round(&self) -> (r: Action)
        ensures
            r == Action::Cooperate,
    {
        Action::Cooperate
    }

    pub fn next_round(&mut self, opponent_previous: &Action) -> (r: Action)
        ensures
            *final(self) == old(self).advanced(*opponent_previous),
            r == final(self).previous_action,
    {
        let action = match self.state {
            State::DefaultState => {
                match (self.previous_action, *opponent_previous, self.opponent_previous_previous) {
                    (Action::Cooperate, Action::Cooperate, Action::Cooperate) => {
                        // Sustained mutual cooperation: start exploiting.
                        self.state = State::DefectUntilPunished;
                        Action::Defect
                    },
                    (Action::Defect, Action::Defect, _) => {
                        // Both defecting: de-escalate.
                        Action::Cooperate
                    },
                    (Action::Cooperate, Action::Defect, _) => {
                        // A defection against cooperation: punish it twice.
                        self.state = State::TwoRoundPunish;
                        Action::Defect
                    },
                    _ => Action::Cooperate,
                }
            },
            State::TwoRoundPunish => {
                // The first punishment was played on entering this state.
                self.state = State::DefaultState;
                Action::Defect
            },
            State::DefectUntilPunished => match opponent_previous {
                Action::Cooperate => Action::Defect,
                Action::Defect => {
                    self.state = State::DefaultState;
                    Action::Cooperate
                },
            },
        };
        self.opponent_previous_previous = *opponent_previous;
        self.previous_action = action;
        action
    }
}

} // verus!
