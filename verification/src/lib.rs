//! A verified core for a two-body pursuit-and-intercept simulation in the
//! plane: a maneuvering target and an interceptor that steers toward it each
//! tick until they come within a collision radius or a tick budget runs out.
//!
//! All quantities are fixed-point integers: one spatial unit (one meter) is
//! `SCALE` (10^6) raw units, and angles are millidegrees. The guidance and
//! evasion arithmetic is therefore exact integer arithmetic, stated and
//! proved as such.

pub mod fixed;
pub mod trig;
pub mod geom;
pub mod entity;
pub mod evasion;
pub mod guidance;
pub mod driver;
pub mod rng;
