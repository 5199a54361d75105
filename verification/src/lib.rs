//! Core of a 2D flocking ("boids") simulation: an adaptive quadtree spatial
//! index over axis-aligned rectangles, a force model that steers each agent
//! away from close neighbours and toward nearby groups, fixed-timestep
//! integrators, and the orchestrator that sequences one simulation tick.
//!
//! All geometry and kinematics work on integer coordinates (a fixed-point
//! convention chosen by the caller), so every rule of the simulation core is
//! stated and proved exactly.

pub mod agent;
pub mod forces;
pub mod kinematics;
pub mod num;
pub mod quadtree;
pub mod rect;
pub mod sim;
pub mod stats;
