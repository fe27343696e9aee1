//! A verified core for a command-aliasing runner: a declarative configuration
//! maps script names to shell commands, and the library turns a configuration
//! string plus an argument vector into a ready-to-run execution plan, honouring
//! per-target command variants, multi-stage sequences, argument and
//! environment-variable interpolation, and ordered subcommands driven by a
//! small exit-code directive language.
//!
//! Child processes themselves are spawned by the embedding program: the
//! execution engine here is a step machine that hands out one invocation at a
//! time and takes the observed exit code back.

pub mod bones;
pub mod default_shells;
pub mod directive;
pub mod ext;
pub mod help;
pub mod help_page;
pub mod interpolate;
pub mod logic;
pub mod ops;
pub mod raw_schema;
pub mod schema;
pub mod strutil;
pub mod version;

pub use raw_schema::Config;
pub use schema::Config as FinalConfig;
pub use version::BONNIE_VERSION;
