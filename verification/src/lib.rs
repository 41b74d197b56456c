//! Memoises the result of an expensive, deterministic command and
//! invalidates the memo when a file that the command read has changed.
//!
//! Two parties work together. The *coordinator* is the process that the
//! user starts: it derives a cache key from the command, decides whether a
//! stored entry is still valid, and otherwise runs the command and stores a
//! new entry. The *interception layer* is loaded into the command: it sees
//! every file that the command opens, records the source files among them,
//! and reports them to the coordinator when the command ends.
//!
//! The crate holds the rules of that scheme as verified functions on plain
//! values: which opened paths count as dependencies, how they are reported
//! and stored, how a cache key is derived, and when a stored entry may
//! still be trusted. Everything that touches the operating system is left
//! to the caller, who feeds in what it observed and carries out what is
//! decided here.
//!
//! For the interception layer:
//! - `filter`: which paths can be dependencies;
//! - `recorder`: the set of recorded dependencies and its report;
//! - `lifecycle`, `hooks`: the states of the layer, and what its load and
//!   unload hooks do;
//! - `intercept`: what to do with a call of one of the interposed
//!   functions.
//!
//! For the coordinator:
//! - `key`: the cache key of a command;
//! - `location`: where the cache and its entries lie;
//! - `validity`, `files`: when an entry is valid, as a check that asks about
//!   one path after the other;
//! - `coordinator`: one invocation, from its arguments to its exit.
//!
//! For both:
//! - `entry`: the format of reports and of cache entries;
//! - `channel`: how the descriptor of the report travels to the layer;
//! - `bytes`: byte strings.

pub mod bytes;
pub mod channel;
pub mod coordinator;
pub mod entry;
pub mod files;
pub mod filter;
pub mod hooks;
pub mod intercept;
pub mod key;
pub mod lifecycle;
pub mod location;
pub mod recorder;
pub mod validity;
