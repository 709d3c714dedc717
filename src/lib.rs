//! Avrogant
//!
//! A toolkit to use avro schemas as rust types: a configuration model for the
//! code generator, a build-time compiler plan, and the argument parser of the
//! inclusion macro.

pub mod text;
pub mod config;
pub mod compiler;
pub mod args;
