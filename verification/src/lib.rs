//! Online-presence tracking: a roster of entities currently considered
//! online, derived from presence-change notifications and an initial
//! snapshot, together with a query that reports how long each tracked
//! entity has been continuously online.

pub mod classify;
pub mod store;
pub mod tracker;
pub mod roster;
