//! Decision engine for an agent on a grid: it picks a goal cell, searches a
//! cheapest route to it over a grid weighted by hazards, and turns the first
//! step of that route into one of four moves.

pub mod engine;
pub mod geometry;
pub mod goal;
pub mod hazard;
pub mod moves;
pub mod route;
pub mod search;
