//! Turn-resolution core of a sliding-tile merging puzzle: the board, the
//! move resolver, the spawn policy, the score tracker, the end-condition
//! checker and the turn state machine that ties them to an outside
//! animation player.
pub mod board;
pub mod direction;
pub mod resolve;
pub mod laws;
pub mod counting;
pub mod end_check;
pub mod score;
pub mod spawn;
pub mod game;
