//! The rules of the Rinha de Backend leaderboard: which issues count, how their
//! results are found, which result of a user is kept, how users are ranked, and
//! what the page shows.
//!
//! Reading the network, the cache database and the clock is left to the caller,
//! who performs the steps that this library decides on and hands the outcome back.

pub mod assemble;
pub mod block;
pub mod changes;
pub mod clock;
pub mod config;
pub mod digits;
pub mod double;
pub mod entry;
pub mod fetch;
pub mod figures;
pub mod issue_result;
pub mod markup;
pub mod metadata;
pub mod model;
pub mod nearest;
pub mod number;
pub mod pages;
pub mod ranking;
pub mod reading;
pub mod render;
pub mod rewalk;
pub mod showing;
pub mod standings;
pub mod state;
pub mod template;
pub mod text;
pub mod urls;
