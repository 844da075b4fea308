//! The pixel dimensions of an image, read from its raw bytes.

use vstd::prelude::*;

verus! {

/// The dimensions that an image header parses to, as width and height in
/// pixels, or `None` where the bytes are not a decodable image. Parsing a
/// header is a function of the bytes alone.
pub uninterp spec fn image_dims(data: Seq<u8>) -> Option<(usize, usize)>;

/// Relies on imagesize::blob_size: it parses the image header of a byte
/// blob, deterministically, and returns the width and height in pixels
/// exactly when the blob decodes; the error case carries the decoder's
/// message.
#[verifier::external_body]
pub(crate) fn blob_dims(data: &Vec<u8>) -> (r: Result<(usize, usize), String>)
    ensures
        match r {
            Ok(d) => image_dims(data@) == Some(d),
            Err(_) => image_dims(data@) is None,
        },
{
    match imagesize::blob_size(data) {
        Ok(dim) => Ok((dim.width, dim.height)),
        Err(err) => Err(format!("{}", err)),
    }
}

} // verus!
