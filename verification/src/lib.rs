//! Verified core of a minimal file-drop store.
//!
//! Clients upload files under a declared name and fetch them back by name
//! from a flat directory. The parts that need care live here, verified:
//!
//! - [`name`]: the name-safety grammar that decides which client-supplied
//!   names may ever reach the filesystem (the security boundary);
//! - [`resolve`]: the deterministic `_copyN` renaming that finds a free
//!   name when the desired one is taken;
//! - [`store`]: the store model tying the two together: validate, resolve,
//!   store, and look up, never overwriting an existing file.
//!
//! The surrounding process (argument parsing, the HTTP server, the static
//! file responder, the real directory) is ordinary unverified plumbing that
//! calls into this crate for every naming decision.

pub mod name;
pub mod resolve;
pub mod store;
