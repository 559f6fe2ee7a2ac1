//! Collaborative batch-transaction coordinator.
//!
//! A group of peers jointly builds one transaction: a request is routed
//! hop by hop while peers contribute inputs and outputs (the collecting
//! phase); once a participant quota is met the input and output pairs are
//! shuffled for privacy and the request retraces its path gathering
//! signatures (the signing phase), finishing with a fully signed
//! transaction ready for broadcast.

pub mod codec;
pub mod coordinator;
pub mod shuffle;
pub mod transaction;
