//! Choosing how to decode a remote image from its file name.

use vstd::prelude::*;
use vstd::string::StrSliceExecFns;

verus! {

#[verifier::external_type_specification]
pub struct ExImageFormat(image::ImageFormat);

#[verifier::external_type_specification]
#[verifier::external_body]
pub struct ExImageError(image::ImageError);

#[verifier::external_type_specification]
#[verifier::external_body]
pub struct ExHttpError(reqwest::Error);

/// Why an image could not be had.
pub enum ClientError {
    /// The image data could not be decoded.
    Image(image::ImageError),
    /// The request for the image failed.
    Http(reqwest::Error),
    /// The file name has no extension of a supported format.
    NotSupported,
}

impl From<image::ImageError> for ClientError {
    fn from(error: image::ImageError) -> (r: ClientError)
        ensures
            r == ClientError::Image(error),
    {
        ClientError::Image(error)
    }
}

impl vstd::std_specs::convert::FromSpecImpl<image::ImageError> for ClientError {
    open spec fn obeys_from_spec() -> bool {
        true
    }

    open spec fn from_spec(error: image::ImageError) -> ClientError {
        ClientError::Image(error)
    }
}

impl From<reqwest::Error> for ClientError {
    fn from(error: reqwest::Error) -> (r: ClientError)
        ensures
            r == ClientError::Http(error),
    {
        ClientError::Http(error)
    }
}

impl vstd::std_specs::convert::FromSpecImpl<reqwest::Error> for ClientError {
    open spec fn obeys_from_spec() -> bool {
        true
    }

    open spec fn from_spec(error: reqwest::Error) -> ClientError {
        ClientError::Http(error)
    }
}

/// Whether `s` ends with `suffix`.
pub open spec fn has_suffix(s: Seq<char>, suffix: Seq<char>) -> bool {
    suffix.len() <= s.len() && s.subrange(s.len() - suffix.len(), s.len() as int) == suffix
}

/// Whether `suffix` is a suffix of `s`.
fn ends_with(s: &str, suffix: &str) -> (r: bool)
    ensures
        r == has_suffix(s@, suffix@),
{
    let n = s.unicode_len();
    let m = suffix.unicode_len();
    if m > n {
        return false;
    }
    let start = n - m;
    let mut i: usize = 0;
    while i < m
        invariant
            n == s@.len(),
            m == suffix@.len(),
            start == n - m,
            i <= m,
            forall|j: int| 0 <= j < i ==> s@[start + j] == suffix@[j],
        decreases m - i,
    {
        if s.get_char(start + i) != suffix.get_char(i) {
            assert(s@.subrange(start as int, n as int)[i as int] != suffix@[i as int]);
            return false;
        }
        i = i + 1;
    }
    assert(s@.subrange(start as int, n as int) =~= suffix@);
    true
}

/// The image format that the extension of `name` stands for, if it is a
/// supported one.
pub open spec fn format_of(name: Seq<char>) -> Option<image::ImageFormat> {
    if has_suffix(name, ".png"@) {
        Some(image::ImageFormat::PNG)
    } else if has_suffix(name, ".jpg"@) {
        Some(image::ImageFormat::JPEG)
    } else if has_suffix(name, ".gif"@) {
        Some(image::ImageFormat::GIF)
    } else if has_suffix(name, ".webp"@) {
        Some(image::ImageFormat::WEBP)
    } else if has_suffix(name, ".tiff"@) {
        Some(image::ImageFormat::TIFF)
    } else if has_suffix(name, ".bmp"@) {
        Some(image::ImageFormat::BMP)
    } else {
        None
    }
}

/// The format in which to decode the image called `name`, chosen by its
/// extension.
pub fn guess_format(name: &str) -> (r: Result<image::ImageFormat, ClientError>)
    ensures
        match format_of(name@) {
            Some(f) => r == Ok::<image::ImageFormat, ClientError>(f),
            None => r is Err && r->Err_0 is NotSupported,
        },
{
    if ends_with(name, ".png") {
        Ok(image::ImageFormat::PNG)
    } else if ends_with(name, ".jpg") {
        Ok(image::ImageFormat::JPEG)
    } else if ends_with(name, ".gif") {
        Ok(image::ImageFormat::GIF)
    } else if ends_with(name, ".webp") {
        Ok(image::ImageFormat::WEBP)
    } else if ends_with(name, ".tiff") {
        Ok(image::ImageFormat::TIFF)
    } else if ends_with(name, ".bmp") {
        Ok(image::ImageFormat::BMP)
    } else {
        Err(ClientError::NotSupported)
    }
}

} // verus!
