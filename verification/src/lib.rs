pub mod config;
pub mod particle;
pub mod property;
pub mod raw;
pub mod scalar;
pub mod sim;
pub mod stats;

pub use config::{Configuration, EulerMethodSolverConfig};
pub use particle::{EulerMethodObject, ParticleProto};
pub use property::{PropMap, Property, PropertyKind, SimError, Vec2, Vec3, Vec4};
pub use raw::RawValue;
pub use sim::{evaluate_interaction, EulerMethodSolver, InteractionLaw, ParticleSimulator};
pub use stats::Timeseries;
pub use scalar::{SaturatingOps, ScalarOps, SimScalar};
