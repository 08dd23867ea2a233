//! A cooperative tile/catalog processing pipeline for streaming survey
//! imagery into texture atlases:
//!
//! * a header-prefixed binary image decoder producing typed pixel data
//!   together with header-derived scaling metadata,
//! * an owned 2D pixel buffer with verified sub-rectangle copy and the
//!   decomposition of an all-sky mosaic into atlas tiles,
//! * the pure placement geometry mapping a tile cell to its texture-array
//!   slice and pixel offset,
//! * a time-boxed cooperative task scheduler, and
//! * an incremental, chunked sort + merge catalog indexer.

use vstd::prelude::*;

pub mod allsky;
pub mod blend;
pub mod clock;
pub mod fits;
pub mod image;
pub mod indexer;
pub mod morton;
pub mod request;
pub mod rng;
pub mod place;
pub mod scheduler;

verus! {

} // verus!
