pub mod strategy_a;
pub mod strategy_b;
pub mod strategy_c;
pub mod strategy_d;

use vstd::prelude::*;
use crate::game::{Action, MatchConfig};
use strategy_a::{PlayerA, StrategyA};
use strategy_b::{PlayerB, StrategyB};
use strategy_c::{PlayerC, StrategyC};
use strategy_d::{forgive_step, PlayerD, StrategyD, FORGIVENESS_SCALE};

verus! {

/// A strategy of the catalog. Two strategies are the same when they are the same variant.
#[derive(Clone, Copy, Debug, PartialEq, Eq, Structural)]
pub enum Strategy {
    A(StrategyA),
    B(StrategyB),
    C(StrategyC),
    D(StrategyD),
}

/// What a decision-maker remembers between rounds, as far as its choices depend on it.
pub enum PlayerModel {
    A(PlayerA),
    B(PlayerB),
    C(PlayerC),
    /// The forgiver's counter.
    D(u32),
}

impl PlayerModel {
    /// Every decision-maker opens with cooperation.
    pub open spec fn first(self) -> Action {
        Action::Cooperate
    }

    /// One more round can be taken without leaving the machine integers.
    pub open spec fn ready(self) -> bool {
        match self {
            PlayerModel::A(p) => p.ready(),
            PlayerModel::B(p) => p.ready(),
            PlayerModel::C(_) => true,
            PlayerModel::D(x) => x <= FORGIVENESS_SCALE,
        }
    }

    /// The next state and move after the opponent played `opp`; `draw` is the
    /// random draw from `0..FORGIVENESS_SCALE`, which only the forgiver reads.
    pub open spec fn step(self, opp: Action, draw: u32) -> (PlayerModel, Action) {
        match self {
            PlayerModel::A(p) => (PlayerModel::A(p.advanced(opp)), p.advanced(opp).previous_action),
            PlayerModel::B(p) => (PlayerModel::B(p.advanced(opp)), p.advanced(opp).choice()),
            PlayerModel::C(p) => (PlayerModel::C(p.advanced(opp)), p.advanced(opp).previous_action),
            PlayerModel::D(x) => (PlayerModel::D(forgive_step(x, opp, draw).0), forgive_step(x, opp, draw).1),
        }
    }
}

impl Strategy {
    pub open spec fn mixed(self) -> bool {
        self is D
    }

    /// The state of a decision-maker made fresh for a match under `c`.
    pub open spec fn initial(self, c: MatchConfig) -> PlayerModel {
        match self {
            Strategy::A(_) => PlayerModel::A(PlayerA::fresh(c)),
            Strategy::B(_) => PlayerModel::B(PlayerB::fresh()),
            Strategy::C(_) => PlayerModel::C(PlayerC::fresh()),
            Strategy::D(_) => PlayerModel::D(0),
        }
    }

    pub fn name(&self) -> (r: &'static str)
        ensures
            r@ == (match *self {
                Strategy::A(_) => "A"@,
                Strategy::B(_) => "B"@,
                Strategy::C(_) => "C"@,
                Strategy::D(_) => "D"@,
            }),
    {
        match self {
            Strategy::A(s) => s.name(),
            Strategy::B(s) => s.name(),
            Strategy::C(s) => s.name(),
            Strategy::D(s) => s.name(),
        }
    }

    pub fn description(&self) -> &'static str {
        match self {
            Strategy::A(s) => s.description(),
            Strategy::B(s) => s.description(),
            Strategy::C(s) => s.description(),
            Strategy::D(s) => s.description(),
        }
    }

    /// Whether the strategy draws random numbers, so that a match needs many runs.
    pub fn is_mixed(&self) -> (r: bool)
        ensures
            r == self.mixed(),
    {
        match self {
            Strategy::A(s) => s.is_mixed(),
            Strategy::B(s) => s.is_mixed(),
            Strategy::C(s) => s.is_mixed(),
            Strategy::D(s) => s.is_mixed(),
        }
    }

    pub fn create_player(&self, config: &MatchConfig) -> (p: Player)
        ensures
            p.model() == self.initial(*config),
    {
        match self {
            Strategy::A(s) => Player::A(s.create_player(config)),
            Strategy::B(s) => Player::B(s.create_player(config)),
            Strategy::C(s) => Player::C(s.create_player(config)),
            Strategy::D(s) => Player::D(s.create_player(config)),
        }
    }
}

/// A decision-maker: the state of one strategy during one run of a match.
pub enum Player {
    A(PlayerA),
    B(PlayerB),
    C(PlayerC),
    D(PlayerD),
}

impl Player {
    pub open spec fn model(&self) -> PlayerModel {
        match self {
            Player::A(p) => PlayerModel::A(*p),
            Player::B(p) => PlayerModel::B(*p),
            Player::C(p) => PlayerModel::C(*p),
            Player::D(p) => PlayerModel::D(p.x),
        }
    }

    pub fn first_round(&self) -> (r: Action)
        ensures
            r == self.model().first(),
    {
        match self {
            Player::A(p) => p.first_round(),
            Player::B(p) => p.first_round(),
            Player::C(p) => p.first_round(),
            Player::D(p) => p.first_round(),
        }
    }

    /// The move for the next round, given the opponent's move in the last one.
    /// Only the forgiver draws, and whatever it draws is some value below the scale.
    pub fn next_round(&mut self, opponent_previous: &Action) -> (r: Action)
        requires
            old(self).model().ready(),
        ensures
            exists|d: u32|
                d < FORGIVENESS_SCALE && (final(self).model(), r) == old(self).model().step(
                    *opponent_previous,
                    d,
                ),
            !(old(self).model() is D) ==> (final(self).model(), r) == old(self).model().step(
                *opponent_previous,
                0,
            ),
    {
        match self {
            Player::A(p) => {
                let r = p.next_round(opponent_previous);
                assert(old(self).model().step(*opponent_previous, 0) == (self.model(), r));
                r
            },
            Player::B(p) => {
                let r = p.next_round(opponent_previous);
                assert(old(self).model().step(*opponent_previous, 0) == (self.model(), r));
                r
            },
            Player::C(p) => {
                let r = p.next_round(opponent_previous);
                assert(old(self).model().step(*opponent_previous, 0) == (self.model(), r));
                r
            },
            Player::D(p) => {
                let r = p.next_round(opponent_previous);
                let ghost d = choose|d: u32|
                    d < FORGIVENESS_SCALE && (p.x, r) == forgive_step(
                        old(self).model()->D_0,
                        *opponent_previous,
                        d,
                    );
                assert(old(self).model().step(*opponent_previous, d) == (self.model(), r));
                r
            },
        }
    }
}

/// The catalog, in a fixed order.
pub fn get_strategies() -> (r: Vec<Strategy>)
    ensures
        r@ == seq![
            Strategy::A(StrategyA {}),
            Strategy::B(StrategyB {}),
            Strategy::C(StrategyC {}),
            Strategy::D(StrategyD {}),
        ],
{
    vec![
        Strategy::A(StrategyA::new()),
        Strategy::B(StrategyB::new()),
        Strategy::C(StrategyC::new()),
        Strategy::D(StrategyD::new()),
    ]
}

} // verus!
