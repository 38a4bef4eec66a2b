//! Points accrual for a staking contract: the position state machine, the
//! exact points arithmetic, the logical store and the resumable sync plan.

pub mod numeric;
pub mod position;
pub mod book;
pub mod points;
pub mod db;
pub mod tracker;
pub mod leaderboard;
pub mod api;
pub mod decimal;
pub mod text;
pub mod query;
pub mod sync;
