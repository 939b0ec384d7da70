//! The picture of an image entry, ready to be drawn.

use vstd::prelude::*;

verus! {

/// A picture: four bytes for each pixel, row by row.
#[derive(Debug, Clone)]
pub struct Picture {
    pub width: u32,
    pub height: u32,
    /// Red, green, blue and opacity of each pixel.
    pub rgba: Vec<u8>,
}

/// Whether a picture has as many pixels as its size says.
pub open spec fn is_whole(p: Picture) -> bool {
    p.rgba@.len() == 4 * p.width * p.height
}

/// The width, the height and the pixels of the picture that
/// `image::load_from_memory` reads from some bytes: `None` where it reads none.
pub uninterp spec fn picture_of(bytes: Seq<u8>) -> Option<(u32, u32, Seq<u8>)>;

/// `image::load_from_memory` with the error dropped, and
/// `DynamicImage::to_rgba8`: the picture is a function of the bytes, named
/// `picture_of`, and has as many pixels as its size says. The decoders of PNG, JPEG
/// and WebP compute the same bytes on every processor, with vector instructions or
/// without. That they do not panic on damaged files is taken from the crate. No
/// decoding hooks are registered.
#[verifier::external_body]
fn decode(bytes: &[u8]) -> (r: Option<Picture>)
    ensures
        match r {
            Some(p) => picture_of(bytes@) == Some((p.width, p.height, p.rgba@)) && is_whole(p),
            None => picture_of(bytes@) is None,
        },
{
    let img = image::load_from_memory(bytes).ok()?;
    let rgba = img.to_rgba8();
    Some(Picture { width: rgba.width(), height: rgba.height(), rgba: rgba.into_raw() })
}

/// The picture that a data file holds: none where the file could not be read or
/// is no image.
pub fn picture(file: &Option<Vec<u8>>) -> (r: Option<Picture>)
    ensures
        match file {
            Some(bytes) => match r {
                Some(p) => picture_of(bytes@) == Some((p.width, p.height, p.rgba@)) && is_whole(p),
                None => picture_of(bytes@) is None,
            },
            None => r is None,
        },
{
    match file {
        Some(bytes) => decode(bytes.as_slice()),
        None => None,
    }
}

} // verus!
