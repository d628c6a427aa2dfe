//! Core of a grid simulation of foraging, trading agents whose movement
//! policies are learned with tabular n-step SARSA.
//!
//! - [`board`]: the per-tick lifecycle over the fields, agents and model.
//! - [`grid`]: the double-buffered field of agent locations.
//! - [`trader`]: offers, their formation from inventories, and matching.
//! - [`routing`]: positions, distances and directions towards targets.
//! - [`agent_state`]: observations and their discretisation into levels.
//! - [`q_table`] and [`tabular_rl`]: Q tables and the n-step SARSA backup.
//! - [`history`]: per-agent trajectories.

pub mod action;
pub mod agent_state;
pub mod board;
pub mod board_generator;
pub mod config;
pub mod environment;
pub mod grid;
pub mod history;
pub mod inventory;
pub mod q_table;
pub mod random;
pub mod reward;
pub mod routing;
pub mod tabular_rl;
pub mod trader;
