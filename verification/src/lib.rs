//! A small build tool for native projects, as a library of decisions.
//!
//! Given what a project declares, the library resolves its shared
//! dependencies, infers where headers are found, and says which commands
//! compile the sources and link the one binary, in which order. It runs
//! nothing and touches no file: the caller walks the directories, reads the
//! manifests, runs the commands, and gives up at the first that fails.
//!
//! Each function carries a contract that Verus proves.

pub mod buildsteps;
pub mod compileutils;
pub mod incremental;
pub mod manifest;
pub mod paths;
pub mod pipeline;
pub mod types;
