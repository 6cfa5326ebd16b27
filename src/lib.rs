//! Detection of operator misuse in JavaScript functions.
//!
//! A source file is first flattened ("debloated") into an annotated
//! straight-line statement stream with scope-renamed identifiers, then an
//! abstract interpreter walks that stream over *kinds* (abstract value
//! classes) and records every operator application that the language
//! forbids or coerces.

pub mod kinds;
pub mod text;
pub mod annot;
pub mod env;
pub mod syntax;
pub mod report;
pub mod infer;
pub mod callgraph;
pub mod scope;
pub mod debloat;
pub mod instrument;
