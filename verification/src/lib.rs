//! Adversarial game-tree search for two-sided, turn-based combat encounters.
//!
//! An initiating party and an opposing party take turns; each move is an
//! attack of one member on a member of the other party, or the retreat of
//! the whole party. [`solver::Solver::engage`] predicts the course that the
//! encounter takes when both sides play their best, by a minimax search
//! with alpha-beta pruning over an explicit stack.
//!
//! Health and damage are whole health points; scores are counted in tenths
//! of a health point, so that the tenth of a sum is exact.
//!
//! The modules, leaves first:
//! - [`weapon`], [`action`], [`party_member`], [`party`], [`conflict`]: the
//!   state of an encounter and how an action changes it;
//! - [`action_iterator`]: the moves of a party, in the order in which they
//!   are tried;
//! - [`value`], [`utility_value`]: scores, the values of nodes, and the
//!   utility of a state;
//! - [`game_tree`]: what a search comes to, as a recursive definition;
//! - [`solver`]: the search itself, proved to compute that definition;
//! - [`unwinding`], [`arena`]: the lemmas that carry the proof;
//! - [`pruning`], [`laws`]: what holds of every search.

pub mod action;
pub mod action_iterator;
pub mod arena;
pub mod conflict;
pub mod game_tree;
pub mod laws;
pub mod party;
pub mod party_member;
pub mod pruning;
pub mod solver;
pub mod unwinding;
pub mod utility_value;
pub mod value;
pub mod weapon;
