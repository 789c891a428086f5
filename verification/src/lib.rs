//! Per-title video encoding: the verified core.
//!
//! The library holds the decisions of a per-title encoding service: which
//! samples of the rate–quality plane are Pareto-optimal, which bitrate each
//! resolution tier gets, how a title compares with a fixed ladder, how the
//! analysis grid is planned, what the HLS master playlist says, and how a job
//! record moves through its phases.
//!
//! Scores and other real-valued quantities are carried as 64-bit order codes
//! (see `state::ScoreCode`): the code of `x` is below the code of `y` exactly
//! when `x < y`, so every comparison the logic makes is exact.

mod text;
pub mod ordering;
pub mod state;
pub mod optimizer;
pub mod insights;
pub mod pipeline;
pub mod ffmpeg;
pub mod probe;
pub mod api;
