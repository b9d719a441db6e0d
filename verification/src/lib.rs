//! A data-oriented store for a simulated celestial hierarchy: stars, the
//! bodies that orbit them, and the surface regions of those bodies.

pub mod allocator;
pub mod body;
pub mod component;
pub mod graph;
pub mod links;
pub mod naming;
pub mod region;
pub mod relations;
pub mod setup;
pub mod star;
pub mod state;
pub mod system;
