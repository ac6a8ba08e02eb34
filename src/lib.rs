//! Decision logic of a shim that stands in for the deno runtime: it either
//! launches an application's own command inside a bubblewrap sandbox or hands
//! the invocation to the real runtime with a corrected search path.
pub mod text;
pub mod paths;
pub mod fsview;
pub mod json;
pub mod classifier;
pub mod sandbox;
pub mod readiness;
pub mod supervisor;
