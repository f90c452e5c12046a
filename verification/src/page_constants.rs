//! Sizes and identifier types shared by every module.

use vstd::prelude::*;

verus! {

/// Size of one page in bytes.
pub const PAGE_SIZE: usize = 8192;

/// Size of the header that opens every page.
pub const HEADER_SIZE: usize = 32;

/// Default number of frames in a pool.
pub const BUFFER_SIZE: usize = 128;

/// Identifier of a page, stable for the page's lifetime.
pub type PageId = u64;

/// Index of a frame in the pool.
pub type FrameId = usize;

} // verus!
