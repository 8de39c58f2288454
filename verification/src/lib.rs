//! A small entity-component kernel for particle simulations: component
//! tables keyed by entity, a manager that owns one table per kind of
//! component and hands out entities, and the three update passes of a tick.

pub mod ecs;
pub mod manager;
