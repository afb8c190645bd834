//! Error taxonomy of the transfer-line library.
//!
//! Construction-time structural errors (`IndexError`) propagate to the caller
//! immediately; runtime mutation errors reject the mutation, leave the
//! resource unchanged and are returned, never swallowed.

use vstd::prelude::*;

verus! {

/// The errors that the library's operations can return.
#[derive(Clone, Copy, Debug, PartialEq, Eq, Structural)]
pub enum LineError {
    /// A state or transition index was out of range.
    IndexError,
    /// A buffer-item mutation would drive a stored quantity below zero.
    NegativeQuantityError,
    /// No buffer with the requested identity is attached or stored.
    BufferNotFoundError,
    /// No machine with the requested identity is stored.
    MachineNotFoundError,
    /// No recipe with the requested identity is stored.
    RecipeNotFoundError,
    /// No item with the requested identity is stored.
    ItemNotFoundError,
    /// A coordinator is no longer accepting requests.
    ChannelClosedError,
}

} // verus!
