//! Solution ranking for a code-golf challenge platform: selection of each
//! account's best solution, leaderboard ordering, and tracking of solutions
//! whose validity was revoked.
pub mod solutions;
pub mod store;
pub mod ranking;
pub mod invalidation;
pub mod laws;
