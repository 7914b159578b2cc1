//! Hyperion flight-dynamics engine: the verified decision logic.

pub mod ids;
pub mod indices;
pub mod catalog;
pub mod clock;
pub mod models;
pub mod maneuver;
pub mod screening;
pub mod grid;
pub mod queue;
pub mod partition;
pub mod uplink;
