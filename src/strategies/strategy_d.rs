use vstd::prelude::*;
use rand::Rng;
use crate::game::{Action, MatchConfig};

verus! {

/// Each unit of the forgiveness counter adds one chance in this many of forgiving.
pub const FORGIVENESS_SCALE: u32 = 50;

/// rand's per-thread generator handle, carried opaquely by the forgiver.
#[verifier::external_type_specification]
#[verifier::external_body]
pub struct ExThreadRng(rand::rngs::ThreadRng);

/// Relies on rand::thread_rng: a handle to the thread's generator, seeded from the system.
pub assume_specification[ rand::thread_rng ]() -> rand::rngs::ThreadRng;

/// Relies on rand::Rng::gen_range: a value drawn uniformly from `0..bound`
/// (it panics on an empty range).
#[verifier::external_body]
fn uniform_below(rng: &mut rand::rngs::ThreadRng, bound: u32) -> (r: u32)
    requires
        bound > 0,
    ensures
        r < bound,
{
    rng.gen_range(0..bound)
}

/// Stochastic forgiver: tit-for-tat that forgives a defection with a chance
/// that grows with the length of the current run of its own defections.
#[derive(Clone, Copy, Debug, PartialEq, Eq, Structural)]
pub struct StrategyD {}

impl StrategyD {
    pub fn new() -> (r: StrategyD)
        ensures
            r == (StrategyD {}),
    {
        StrategyD {}
    }

    pub fn name(&self) -> (r: &'static str)
        ensures
            r@ == "D"@,
    {
        "D"
    }

    pub fn description(&self) -> (r: &'static str)
        ensures
            r@ == "Round 1: Cooperate\n\
            Round 2 onward, copy what my opponent did in the previous round.\n\
            Whenever I defect, increase X by 1. Whenever I would defect, do a probability check with a 0.02*X probability of choosing to cooperate instead.\n\
            If I choose to cooperate instead of defect, reduce X to 0."@,
    {
        "Round 1: Cooperate\n\
        Round 2 onward, copy what my opponent did in the previous round.\n\
        Whenever I defect, increase X by 1. Whenever I would defect, do a probability check with a 0.02*X probability of choosing to cooperate instead.\n\
        If I choose to cooperate instead of defect, reduce X to 0."
    }

    pub fn is_mixed(&self) -> (r: bool)
        ensures
            r,
    {
        true
    }

    /// A fresh decision-maker with its own handle on a random source.
    pub fn create_player(&self, _config: &MatchConfig) -> (p: PlayerD)
        ensures
            p.x == 0,
    {
        PlayerD { x: 0, rng: rand::thread_rng() }
    }
}

/// One decision of the forgiver, given the counter `x`, the opponent's last
/// move and a draw from `0..FORGIVENESS_SCALE`: the new counter and the move.
/// The draw forgives with probability `x / FORGIVENESS_SCALE`.
pub open spec fn forgive_step(x: u32, opp: Action, draw: u32) -> (u32, Action) {
    match opp {
        Action::Cooperate => (x, Action::Cooperate),
        Action::Defect => if draw < x {
            (0, Action::Cooperate)
        } else {
            ((x + 1) as u32, Action::Defect)
        },
    }
}

/// Per-match state of the stochastic forgiver.
pub struct PlayerD {
    /// The forgiveness counter.
    pub x: u32,
    pub rng: rand::rngs::ThreadRng,
}

impl PlayerD {
    pub fn first_round(&self) -> (r: Action)
        ensures
            r == Action::Cooperate,
    {
        Action::Cooperate
    }

    /// The decision itself, with the random draw handed in.
    pub fn next_round_with_draw(&mut self, opponent_previous: &Action, draw: u32) -> (r: Action)
        requires
            old(self).x <= FORGIVENESS_SCALE,
            draw < FORGIVENESS_SCALE,
        ensures
            (final(self).x, r) == forgive_step(old(self).x, *opponent_previous, draw),
            final(self).x <= FORGIVENESS_SCALE,
    {
        match opponent_previous {
            Action::Cooperate => Action::Cooperate,
            Action::Defect => {
                if draw < self.x {
                    self.x = 0;
                    Action::Cooperate
                } else {
                    self.x = self.x + 1;
                    Action::Defect
                }
            },
        }
    }

    /// The decision with a fresh draw from this player's random source, made
    /// only when the opponent defected.
    pub fn next_round(&mut self, opponent_previous: &Action) -> (r: Action)
        requires
            old(self).x <= FORGIVENESS_SCALE,
        ensures
            exists|d: u32|
                d < FORGIVENESS_SCALE && (final(self).x, r) == forgive_step(
                    old(self).x,
                    *opponent_previous,
                    d,
                ),
            final(self).x <= FORGIVENESS_SCALE,
            *opponent_previous == Action::Cooperate ==> r == Action::Cooperate && final(self).x == old(self).x,
    {
        match opponent_previous {
            Action::Cooperate => {
                assert(forgive_step(self.x, *opponent_previous, 0).1 == Action::Cooperate);
                Action::Cooperate
            },
            Action::Defect => {
                let draw = uniform_below(&mut self.rng, FORGIVENESS_SCALE);
                self.next_round_with_draw(opponent_previous, draw)
            },
        }
    }
}

} // verus!
