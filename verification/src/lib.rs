//! Core of a declarative command launcher: alias-chain resolution with cycle
//! detection, app-name lookup, recursive runner-definition resolution, the
//! `%!` argument sandwich merge, and bounded `%key%` variable expansion over a
//! dotted-path configuration namespace.

pub mod args;
pub mod config;
pub mod errors;
pub mod expand;
pub mod helpers;
pub mod launcher;
pub mod namespace;
pub mod resolve;
pub mod strmap;
pub mod text;

pub use args::sandwich_args;
pub use config::{default_interactive, Config};
pub use errors::LauncherError;
pub use helpers::{parse_bool, sanitize_app_name};
pub use launcher::{expand_vars, FindOutcome, Launcher, ResolvedParts};
pub use resolve::{App, DefResolver, Exec, Meta, ResolveStep};
pub use strmap::StrMap;
