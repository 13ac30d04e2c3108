//! Certificate-transparency log tooling with an embedded, versioned
//! schema-migration engine.

pub mod migration;
pub mod runner;
pub mod ct;
pub mod cli;
