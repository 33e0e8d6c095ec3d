//! A project-scaffolding engine: placeholder substitution, conditional
//! template directives, and the decisions that shape the materialised tree.

pub mod builtin;
pub mod case;
pub mod config;
pub mod declare;
pub mod directive;
pub mod engine;
pub mod laws;
pub mod param;
pub mod path;
pub mod presence;
pub mod resolve;
pub mod substitute;
pub mod text;
pub mod tree;
pub mod util;
pub mod walk;
