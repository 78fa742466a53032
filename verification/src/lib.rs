//! Synchronisation core of a telemetry bridge: readings of a metering device,
//! keyed by registry codes, are normalised and mirrored into an observable
//! entity whose properties carry the latest values.

pub mod code;
pub mod value;
pub mod normalize;
pub mod reading;
pub mod entity;
pub mod sync;
