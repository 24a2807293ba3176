//! The simulation core of a swarm arena: a rectangular world of player-owned
//! swarms and the bullets they fire, advanced one tick at a time.

pub mod clock;
pub mod collision;
pub mod entity;
pub mod laws;
pub mod scene;
pub mod snapshot;
pub mod store;
pub mod tally;
pub mod tick;
pub mod world;
