//! A backgammon rules engine: board queries, legal-move generation under
//! dice constraints, move application and the turn state machine, together
//! with the text records that persist exact positions.

pub mod game;
pub mod moves;
pub mod apply;
pub mod dice;
pub mod engine;
pub mod text;
pub mod record;
pub mod messages;
pub mod screen;
pub mod input;
pub mod leaderboard;
