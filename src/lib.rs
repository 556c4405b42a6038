//! Virtual branches over one working directory: which branch is the default
//! recipient of new changes, and which branch owns each changed hunk.
pub mod branch;
pub mod controller;
pub mod credentials;
pub mod hunk;
pub mod registry;
pub mod resolver;
