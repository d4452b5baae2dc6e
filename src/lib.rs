//! Simulation core of a grid-based box-pushing puzzle: an entity store over
//! `hecs`, push-chain movement, a one-tick event router and the
//! Playing / Won / Lost state machine.

pub mod component;
pub mod store;
pub mod grid;
pub mod events;
pub mod level;
pub mod gameplay;
pub mod entity;
pub mod game;
pub mod rendering;
pub mod laws;
pub mod map;
