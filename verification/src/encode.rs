//! Inline encoding of image files as data URIs.
//!
//! An image handed back to the presentation layer travels as a
//! `data:image/<ext>;base64,<payload>` string. The payload is the image
//! re-encoded into the format implied by the filename's own extension (JPEG
//! for `jpg`/`jpeg`, PNG otherwise) and then base64-encoded.

use vstd::prelude::*;

verus! {

use crate::errors::StoreError;
use crate::filename::{file_extension, spec_extension};
use crate::text::str_eq;

#[verifier::external_type_specification]
#[verifier::external_body]
pub struct ExDynamicImage(image::DynamicImage);

/// The base64 encoding (standard alphabet, padded) of a byte sequence.
pub uninterp spec fn b64_of(data: Seq<u8>) -> Seq<char>;

/// Relies on base64's `Engine::encode` with the `STANDARD` engine: the
/// standard-alphabet, padded base64 encoding of the input, four output
/// characters for every three input bytes begun.
#[verifier::external_body]
fn base64_encode(data: &Vec<u8>) -> (r: String)
    ensures
        r@ == b64_of(data@),
        r@.len() == 4 * ((data@.len() + 2) / 3),
{
    base64::Engine::encode(&base64::engine::general_purpose::STANDARD, data)
}

/// Relies on image's `DynamicImage::write_to`: encodes the image into a byte
/// buffer in the requested format (JPEG when `jpeg` is set, PNG otherwise).
#[verifier::external_body]
fn encode_image(img: &image::DynamicImage, jpeg: bool) -> (r: Result<Vec<u8>, StoreError>)
    ensures
        r matches Err(e) ==> e == StoreError::DecodeError,
{
    let format = if jpeg {
        image::ImageFormat::Jpeg
    } else {
        image::ImageFormat::Png
    };
    let mut data: Vec<u8> = Vec::new();
    match img.write_to(&mut std::io::Cursor::new(&mut data), format) {
        Ok(()) => Ok(data),
        Err(_) => Err(StoreError::DecodeError),
    }
}

/// Whether an extension selects JPEG re-encoding; every other extension
/// falls back to PNG.
pub open spec fn is_jpeg_ext(ext: Seq<char>) -> bool {
    ext == "jpg"@ || ext == "jpeg"@
}

/// The re-encoding format a filename extension implies.
pub fn jpeg_for_ext(ext: &str) -> (r: bool)
    ensures
        r == is_jpeg_ext(ext@),
{
    str_eq(ext, "jpg") || str_eq(ext, "jpeg")
}

/// The data-URI form of an image payload with the given extension.
pub open spec fn spec_data_uri(ext: Seq<char>, data: Seq<u8>) -> Seq<char> {
    "data:image/"@ + ext + ";base64,"@ + b64_of(data)
}

/// Frame an already re-encoded image payload as a data URI naming the given
/// extension.
pub fn image_data_uri(ext: &str, data: &Vec<u8>) -> (r: String)
    ensures
        r@ == spec_data_uri(ext@, data@),
{
    let mut out = String::new();
    out.append("data:image/");
    out.append(ext);
    out.append(";base64,");
    let payload = base64_encode(data);
    out.append(payload.as_str());
    proof {
        assert(out@ =~= spec_data_uri(ext@, data@));
    }
    out
}

/// Re-encode a loaded image into the format implied by its filename's
/// extension and frame it as a data URI. The caller loads the file; a
/// filename without a determinable extension is an `IoError`, an image that
/// cannot be re-encoded a `DecodeError`.
pub fn get_entry_image_b64(img: &image::DynamicImage, image: &str) -> (r: Result<
    String,
    StoreError,
>)
    ensures
        spec_extension(image@) is None ==> (r matches Err(e) && e == StoreError::IoError),
        r matches Ok(s) ==> spec_extension(image@) is Some && (exists|data: Seq<u8>|
            s@ == #[trigger] spec_data_uri(spec_extension(image@)->0, data)),
        r matches Err(e) ==> e == StoreError::IoError || e == StoreError::DecodeError,
        spec_extension(image@) is Some ==> (r matches Err(e) ==> e == StoreError::DecodeError),
{
    let ext = match file_extension(image) {
        Ok(e) => e,
        Err(e) => {
            return Err(e);
        },
    };
    let jpeg = jpeg_for_ext(ext.as_str());
    match encode_image(img, jpeg) {
        Ok(data) => {
            let uri = image_data_uri(ext.as_str(), &data);
            proof {
                assert(spec_extension(image@) == Some(ext@));
                assert(spec_extension(image@)->0 == ext@);
                assert(uri@ == spec_data_uri(spec_extension(image@)->0, data@));
            }
            Ok(uri)
        },
        Err(e) => Err(e),
    }
}

} // verus!
