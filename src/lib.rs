//! Conway's Game of Life as a headless simulation core: a flat double-buffered
//! grid engine and an entity/relationship engine, both driven through the same
//! configure / reset / step / query interface.

pub mod config;
pub mod grid;
pub mod relation;
pub mod rules;
