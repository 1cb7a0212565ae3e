//! The failures that label generation reports.

use vstd::prelude::*;

verus! {

/// Why a request was refused. Every failure is final for the pipeline run
/// that met it: nothing is retried.
#[derive(Clone, Copy, Debug, PartialEq, Eq, Structural)]
pub enum Error {
    /// The block size of a node buffer is zero or no multiple of the node size.
    BlockSize,
    /// A node was asked for that has not been appended yet.
    NotWritten,
    /// A node other than the first was to be labelled without its parents.
    MissingParents,
    /// The list of parents does not have the length that the layer calls for.
    ParentCount,
    /// An expander parent lies outside the previous layer.
    ParentOutOfLayer,
    /// A layer handed in as sealed does not hold one label per node.
    LayerSize,
    /// The sector has more nodes than can be indexed or addressed.
    SectorSize,
    /// The number of layer states differs from the number of layers.
    LayerCount,
    /// The event does not answer the action that the pipeline asked for.
    UnexpectedEvent,
    /// The text is no byte count, or not the size of a supported sector.
    UnsupportedSize,
}

} // verus!
