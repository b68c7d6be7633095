//! A verified document-rendering pipeline.
//!
//! Uploaded documents are filtered by media type, keyed by an identifier
//! derived from the file name, rasterized page by page through a rendering
//! backend, re-encoded into the requested image formats, and — for multi-page
//! documents — packed into one archive per format. Completed results are
//! appended to an ordered result store, with a task registry guaranteeing at
//! most one in-flight render per identifier.

pub mod backend;
pub mod formats;
pub mod ids;
pub mod names;
pub mod pipeline;
pub mod registry;
pub mod render;
pub mod store;

use vstd::prelude::*;

verus! {

/// Decodes a byte buffer as UTF-8, replacement characters for invalid
/// sequences, and upper-cases the result.
pub fn process_file(data: &[u8]) -> (r: String)
    ensures
        r@ == backend::uppercase(backend::lossy_utf8(data@)),
{
    let s = backend::utf8_lossy(data);
    backend::to_uppercase_string(s.as_str())
}

} // verus!
