//! A turn-based, chess-like soccer match engine on an 8x8 grid.
//!
//! Two teams of seven pieces (one goalkeeper, two defenders, two midfielders,
//! two attackers) compete to move a ball into the opposing goal within a
//! bounded number of turns, or until a golden goal.  The crate provides the
//! board model, the per-action legality rules, the action executor, the
//! turn/action-budget scheduler, an advisory bot, and a session store that
//! maps opaque handles to live matches.

pub mod geometry;
pub mod types;
pub mod board;
pub mod rules;
pub mod game;
pub mod bot;
pub mod store;
pub mod laws;
