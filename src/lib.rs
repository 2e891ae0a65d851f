//! Perfect-information Monte Carlo move selection for a trick-taking card
//! game with hidden hands: sample determinizations, encode them into
//! fixed-layout records, evaluate them in one batch and pick the move with
//! the best mean score.

pub mod deal;
pub mod game;
pub mod record;
pub mod solver;

pub use deal::{deal_hidden, holder_for_draw, HIDDEN, NUM_PLAYERS};
pub use game::{FakeMarjaState, MarjaPussiGameState, MarjaPussiMove, FINISHING_MOVE_ID};
pub use record::{encode_record, EncodeError, GpuMarjaState, CARD_SLOTS};
pub use solver::{
    aggregate, best_mean_index, choose_from_scores, BatchEvaluationFailure, PIMCSolver,
    PimcError, RolloutBatch, RolloutEvaluator,
};
