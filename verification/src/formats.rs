//! Output image formats.

use vstd::prelude::*;

verus! {

/// A target image codec for rendered pages.
#[derive(Clone, Copy, PartialEq, Eq, Structural, Debug)]
pub enum Format {
    /// Lossless raster output.
    Png,
    /// Lossy raster output.
    Jpeg,
}

/// The file extension of `f`.
pub open spec fn spec_ext(f: Format) -> Seq<char> {
    match f {
        Format::Png => "png"@,
        Format::Jpeg => "jpeg"@,
    }
}

/// The file extension of `f`.
pub fn ext_str(f: Format) -> (r: &'static str)
    ensures
        r@ == spec_ext(f),
{
    match f {
        Format::Png => "png",
        Format::Jpeg => "jpeg",
    }
}

/// An extension is at most four characters long.
pub proof fn lemma_ext_len(f: Format)
    ensures
        spec_ext(f).len() <= 4,
{
    reveal_strlit("png");
    reveal_strlit("jpeg");
}

} // verus!
