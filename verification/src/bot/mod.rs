pub mod bias;
pub mod laws;
pub mod machine;

pub use bias::{Bias, TakerState};
pub use machine::{Action, Bot, Draws, Event, Phase, TryStage, Work};
