//! A windowed prefetching image cache for a paginated image-sequence viewer.
//!
//! The library models the ordered collection of page images (parsing and
//! ordering of page tokens), the windowed cache that decides which pages are
//! decoded, prefetched or evicted, the splitting of oversized bitmaps into
//! display-safe chunks, and the navigation / position-persistence decisions.
//! Platform concerns (file reading, texture upload, input polling) stay with
//! the caller; the library works on plain values and states exactly what each
//! operation does.

use vstd::prelude::*;

pub mod cache;
pub mod chunk;
pub mod cursor;
pub mod decode;
pub mod digits;
pub mod index;
pub mod page;

verus! {

} // verus!
