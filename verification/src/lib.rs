//! Collecting, path-stamped conversion errors.
//!
//! Converting one data shape into another field by field can fail in many
//! places at once.  Instead of stopping at the first problem, this library
//! gathers every elementary failure into one aggregate error, and stamps each
//! failure with the structural location (field name, list index, map key)
//! where it occurred, so that a caller can report all problems in one pass.

pub mod error;
pub mod failure;
pub mod path;
pub mod pipeline;
pub mod util;

pub use error::Cause;
pub use error::MogrificationError;
pub use error::stamp_path;
pub use failure::MogrifyFailure;
pub use failure::OpaqueError;
pub use path::PathPart;
pub use util::Mogrify;
