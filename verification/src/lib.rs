//! Credential search-space engine with a concurrent attempt scheduler.
//!
//! The crate enumerates credential candidates from wordlists and
//! filesystem-pattern expansions, combines them into a cartesian product
//! with an exact, up-front size, and drives the product against
//! protocol plugins under a configurable stop policy with bounded
//! retries per credential.

mod pattern;
mod plugin;
mod redis;
mod registry;
mod scheduler;
mod session;
mod smtp;
mod space;
mod stomp;
mod target;
mod wordlist;

pub use pattern::Glob;
pub use plugin::Options;
pub use plugin::Plugin;
pub use redis::Redis;
pub use registry::builtin_registry;
pub use registry::PluginKind;
pub use registry::Registry;
pub use scheduler::run;
pub use scheduler::Attempt;
pub use scheduler::RunReport;
pub use scheduler::Scheduler;
pub use scheduler::StopPolicy;
pub use session::Error;
pub use session::Loot;
pub use smtp::Mechanism;
pub use smtp::SMTP;
pub use space::CredSpace;
pub use space::Credentials;
pub use stomp::STOMP;
pub use target::parse_target;
pub use wordlist::Wordlist;
