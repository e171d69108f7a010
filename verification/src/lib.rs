//! A road-network path planner: a navigable graph built from way/node data,
//! an A* shortest-path search over it, a nearest-way spatial picker, and the
//! pixel/geographic coordinate transforms that feed them.
//!
//! Geographic coordinates are kept in fixed point throughout: decimicro-degrees
//! (degrees times ten million), the unit the raw node data already uses.

pub mod app;
pub mod data;
pub mod geom;
pub mod graph;
pub mod highlight;
pub mod picker;
pub mod search;
pub mod viewport;
