//! Label derivation for the layered encoding of a storage sector.
//!
//! A sector is encoded as a stack of layers. Every layer holds one 32-byte
//! label per node; a label is a SHA-256 digest over the replica identifier,
//! the position of the node and the labels of the node's parents.
//!
//! The crate performs no input or output. Whatever must be read from or
//! written to a backing file is handed to the caller as a plain value.
//!
//! - [`hasher`]: the boundary to the SHA-256 implementation.
//! - [`buffer`]: the node buffer of one layer, flushed block by block.
//! - [`label`]: the label of one node.
//! - [`pipeline`]: all layers of a sector, with resumption.
//! - [`sector`]: the sizes of supported sectors.
//! - [`report`]: the report of a benchmark run.
//! - [`error`]: the failures reported.

pub mod buffer;
pub mod error;
pub mod hasher;
pub mod label;
pub mod pipeline;
pub mod report;
pub mod sector;
