//! What the loader and the firmware tell each other: status codes and errors.

pub mod error;
pub mod types;
