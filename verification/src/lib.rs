//! Version-history tracking and version-string resolution for a declarative
//! package manager front end.
//!
//! The crate turns a user-supplied version token (a channel number such as
//! "23.11", a commit hash, a semantic version such as "14.1.0", or nothing)
//! into a concrete flake reference, and keeps a persistent registry of what
//! was installed, when, and under which resolved reference.
//!
//! `registry` holds the persisted state and its mapping semantics, `resolve`
//! the token classification and the oracle-driven semantic resolution, and
//! `codec` the persisted text format with its proved round trip.

pub mod alist;
pub mod codec;
pub mod registry;
pub mod resolve;
pub mod text;
