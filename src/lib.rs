//! Synthesises a fixed-cadence sequence of annotated frames from a directory
//! of timestamped camera photographs.
pub mod cli;
pub mod compose;
pub mod config;
pub mod cursor;
pub mod error;
pub mod locations;
pub mod raster;
pub mod timestamp;

pub use crate::config::{Config, RawConfig};
pub use crate::error::Error;
