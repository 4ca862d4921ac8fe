pub mod ids;
pub mod names;
pub mod bot_role;
pub mod builds;
pub mod matches;
pub mod leaderboard;
