use vstd::prelude::*;

verus! {

/// What can go wrong while decoding a block.
#[derive(Debug, Clone, Copy, PartialEq, Eq)]
pub enum BlockError {
    /// The input ended before a fixed-size field was complete.
    UnexpectedEof,
}

} // verus!
