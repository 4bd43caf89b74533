//! The window icon and header logo: a PNG decoded to RGBA pixels.

use vstd::prelude::*;

verus! {

/// What `image::load_from_memory` decodes from `bytes`, taken as 8-bit RGBA
/// pixels (`into_rgba8`): width, height and the pixel bytes row by row;
/// `None` when the bytes are not an image the crate can decode.
pub uninterp spec fn decoded_rgba8(bytes: Seq<u8>) -> Option<(u32, u32, Seq<u8>)>;

/// Calls `image::load_from_memory` and converts the decoded image to its
/// RGBA8 width, height and pixel bytes. The contract claims only that the
/// outcome is a function of the bytes; which bytes decode, and to what, is
/// left to the `image` crate.
#[verifier::external_body]
fn decode_rgba8(bytes: &[u8]) -> (r: Option<(u32, u32, Vec<u8>)>)
    ensures
        match r {
            Some((w, h, px)) => decoded_rgba8(bytes@) == Some((w, h, px@)),
            None => decoded_rgba8(bytes@) is None,
        },
{
    match image::load_from_memory(bytes) {
        Ok(img) => {
            let rgba = img.into_rgba8();
            let (w, h) = rgba.dimensions();
            Some((w, h, rgba.into_raw()))
        },
        Err(_) => None,
    }
}

/// An image as RGBA pixels.
pub struct IconImage {
    pub rgba: Vec<u8>,
    pub width: u32,
    pub height: u32,
}

/// The icon that a PNG file holds, or `None` when it does not decode.
pub fn load_icon(png: &[u8]) -> (r: Option<IconImage>)
    ensures
        match r {
            Some(i) => decoded_rgba8(png@) == Some((i.width, i.height, i.rgba@)),
            None => decoded_rgba8(png@) is None,
        },
{
    match decode_rgba8(png) {
        Some((width, height, rgba)) => Some(IconImage { rgba, width, height }),
        None => None,
    }
}

impl IconImage {
    /// The size as `[width, height]` in pixels, as texture sizes are given.
    pub fn size(&self) -> (s: [usize; 2])
        ensures
            s@ == seq![self.width as usize, self.height as usize],
    {
        let s = [self.width as usize, self.height as usize];
        assert(s@ =~= seq![self.width as usize, self.height as usize]);
        s
    }
}

} // verus!
