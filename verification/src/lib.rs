//! A verified ledger for a creative-work licensing and royalty registry.
//!
//! Creators register works together with royalty terms, licensees purchase
//! licenses, usage payments are recorded, and aggregate statistics are kept
//! in step. The ledger is a purely synchronous state machine: every
//! operation maps the current state and plain-value arguments to a new
//! state and a result or a typed error, and either applies all of its
//! writes or none of them. Clocks, caller authentication, and the durable
//! record store are collaborators of the embedding; they hand the ledger
//! plain values (the current timestamp, the authenticated principal) and
//! persist whatever state the ledger produces.

pub mod amount;
pub mod records;
pub mod ledger;
