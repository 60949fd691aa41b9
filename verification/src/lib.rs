//! Batch execution of one ledger operation over a set of targets, with a
//! resumable progress cache.
//!
//! A run resolves its targets ([`resolve`], [`setup`]), works on each of them
//! with a bound on the attempts ([`runner`]), records how each ended in a
//! progress cache ([`cache`]) and keeps the cache on disk in a text form
//! ([`codec`]), so that a later run leaves alone what has succeeded.
//!
//! The one operation that this crate knows is the one that marks the primary
//! sale of a token as done ([`primary_sale`]). What it takes from the ledger's
//! client libraries is called in [`ledger`], behind contracts that are
//! assumed; everything else is proved.
//!
//! Nothing here reads or writes a file, talks to the network or starts a
//! thread: the caller does, and hands over what it read.

pub mod cache;
pub mod codec;
pub mod credential;
pub mod ledger;
pub mod number;
pub mod outcome;
pub mod primary_sale;
pub mod resolve;
pub mod runner;
pub mod setup;
pub mod text;
