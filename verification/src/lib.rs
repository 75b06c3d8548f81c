//! A typed cast instruction and a ledger record privacy query for a
//! confidential-compute virtual machine.
//!
//! The cast instruction converts a list of program-register values into a
//! strongly typed aggregate — an interface value or an owned record —
//! under a program's static type definitions, with exact contracts for
//! every success and failure path. The ledger query enumerates the records
//! a key holder owns and decides, through derived tags or serial numbers,
//! whether each is spent; the cryptographic derivations call the network's
//! primitives and are specified by name.
pub mod model;
pub mod program;
pub mod stack;
pub mod cast;
pub mod crypto;
pub mod ledger;
pub mod codec;
pub mod text;
