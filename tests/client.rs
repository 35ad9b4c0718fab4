use image::ImageFormat;
use termdown::client::{guess_format, ClientError};

fn format(name: &str) -> Option<ImageFormat> {
    match guess_format(name) {
        Ok(f) => Some(f),
        Err(ClientError::NotSupported) => None,
        Err(_) => panic!("unexpected error"),
    }
}

#[test]
fn formats_by_extension() {
    assert_eq!(format("a.png"), Some(ImageFormat::PNG));
    assert_eq!(format("Ferris.jpg"), Some(ImageFormat::JPEG));
    assert_eq!(format("x.gif"), Some(ImageFormat::GIF));
    assert_eq!(format("x.webp"), Some(ImageFormat::WEBP));
    assert_eq!(format("x.tiff"), Some(ImageFormat::TIFF));
    assert_eq!(format("x.bmp"), Some(ImageFormat::BMP));
}

#[test]
fn unknown_extension_is_not_supported() {
    assert_eq!(format("x.jpeg"), None);
    assert_eq!(format("png"), None);
    assert_eq!(format(""), None);
    assert_eq!(format("x.png.txt"), None);
}

#[test]
fn extension_alone_is_enough() {
    assert_eq!(format(".png"), Some(ImageFormat::PNG));
}
