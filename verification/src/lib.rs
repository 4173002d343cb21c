//! Statistics over completed matches of a two-sided team game: cumulative numbers per
//! player and per map, balanced team suggestions and a ranking from who killed whom.
//!
//! Every duration is a whole number of milliseconds and every quotient is kept as its two
//! parts, so that all arithmetic in this crate is arithmetic on integers.

pub mod aggregate;
pub mod aggregate_laws;
pub mod continuous;
pub mod error;
pub mod filter;
pub mod helpers;
pub mod input_types;
pub mod keyed;
pub mod names;
pub mod past_games;
pub mod position;
pub mod ranking;
pub mod ranking_order;
pub mod stat;
pub mod summary;
pub mod table;
pub mod teams;
pub mod teams_laws;

pub use crate::aggregate::{MapStats, NS2Stats, User};
pub use crate::error::Error;
pub use crate::stat::{Ratio, Stat};
pub use crate::summary::{summarize_game, GameSummary, PlayerSummary, TeamSummary, WinningTeam};
