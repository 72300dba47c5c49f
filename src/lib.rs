pub mod aggregate;
pub mod game;
pub mod simulate;
pub mod strategies;
pub mod tournament;

pub use aggregate::{aggregate_results, StrategyScore};
pub use game::{evaluate_actions, Action, MatchConfig};
pub use simulate::{play_strategy_pair, MatchupResult, StrategyMatchupResult};
pub use strategies::{get_strategies, Player, Strategy};
pub use tournament::play_strategies;
