//! Scaffolding generator for formal-specification templates of smart-contract
//! modules: scans source text for function declarations, infers display names
//! for unnamed parameters, and emits a fixed catalog of requires/ensures
//! clause stubs per function, wrapped in a rendered output buffer.

pub mod code_analysis;
pub mod error_analysis;
pub mod offsets;
pub mod params;
pub mod signatures;
pub mod text;
