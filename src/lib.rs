//! A client for chess engines that speak the Universal Chess Interface (UCI).
//!
//! The library holds the protocol: the text of each command sent to the engine, and
//! the rules that read the engine's reply lines into results (the best move, a
//! centipawn score, the output that comes before `readyok`). Running the engine
//! process and moving lines to and from it is left to the caller.
mod error;
pub mod engine;
pub mod reply;
pub mod text;

pub use error::{EngineError, Result};
pub use engine::Engine;
pub use reply::{bestmove_reply, option_result, score_of, EvaluationReply, ReadyReply};
