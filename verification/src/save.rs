//! Encoding rasters to image formats.
//!
//! Three output formats are supported: lossy JPEG with a quality setting,
//! lossless PNG, and WebP with a quality/effort pair that the encoder in
//! use does not act on (it encodes losslessly) but that the options still
//! carry. Encoding works on in-memory bytes; writing them anywhere is the
//! caller's business.

use vstd::prelude::*;

use crate::error::{StreetViewError, SvResult};
use crate::raster::Raster;

verus! {

/// Image output format.
#[derive(Debug, Clone, Copy, PartialEq, Eq, Structural)]
pub enum ImageFormat {
    /// JPEG format
    Jpeg,
    /// PNG format
    Png,
    /// WebP format
    WebP,
}

/// Options for saving panorama images.
#[derive(Debug, Clone)]
pub struct SaveOptions {
    /// Image format
    pub format: ImageFormat,
    /// JPEG quality (1-100, default 90)
    pub jpeg_quality: u8,
    /// WebP quality (1-100, default 85)
    pub webp_quality: u8,
    /// WebP compression effort (0-6, default 4)
    pub webp_method: u8,
}

impl SaveOptions {
    /// Default save options: WebP format.
    pub fn new() -> (o: SaveOptions)
        ensures
            o.format == ImageFormat::WebP,
            o.jpeg_quality == 90,
            o.webp_quality == 85,
            o.webp_method == 4,
    {
        SaveOptions { format: ImageFormat::WebP, jpeg_quality: 90, webp_quality: 85, webp_method: 4 }
    }

    /// Set the output format.
    pub fn format(self, format: ImageFormat) -> (o: SaveOptions)
        ensures
            o.format == format,
            o.jpeg_quality == self.jpeg_quality,
            o.webp_quality == self.webp_quality,
            o.webp_method == self.webp_method,
    {
        SaveOptions { format, ..self }
    }

    /// Set JPEG quality, clamped to [1, 100].
    pub fn jpeg_quality(self, quality: u8) -> (o: SaveOptions)
        ensures
            o.jpeg_quality == if quality < 1 {
                1u8
            } else if quality > 100 {
                100u8
            } else {
                quality
            },
            o.format == self.format,
            o.webp_quality == self.webp_quality,
            o.webp_method == self.webp_method,
    {
        let clamped: u8 = if quality < 1 {
            1
        } else if quality > 100 {
            100
        } else {
            quality
        };
        SaveOptions { jpeg_quality: clamped, ..self }
    }

    /// Set WebP quality, clamped to [1, 100].
    pub fn webp_quality(self, quality: u8) -> (o: SaveOptions)
        ensures
            o.webp_quality == if quality < 1 {
                1u8
            } else if quality > 100 {
                100u8
            } else {
                quality
            },
            o.format == self.format,
            o.jpeg_quality == self.jpeg_quality,
            o.webp_method == self.webp_method,
    {
        let clamped: u8 = if quality < 1 {
            1
        } else if quality > 100 {
            100
        } else {
            quality
        };
        SaveOptions { webp_quality: clamped, ..self }
    }

    /// Set WebP compression effort, capped at 6.
    pub fn webp_method(self, method: u8) -> (o: SaveOptions)
        ensures
            o.webp_method == if method > 6 {
                6u8
            } else {
                method
            },
            o.format == self.format,
            o.jpeg_quality == self.jpeg_quality,
            o.webp_quality == self.webp_quality,
    {
        let capped: u8 = if method > 6 {
            6
        } else {
            method
        };
        SaveOptions { webp_method: capped, ..self }
    }
}

impl Default for SaveOptions {
    /// The same options as `SaveOptions::new`.
    fn default() -> (o: SaveOptions)
        ensures
            o.format == ImageFormat::WebP,
            o.jpeg_quality == 90,
            o.webp_quality == 85,
            o.webp_method == 4,
    {
        SaveOptions::new()
    }
}

/// What the JPEG encoder makes of a packed RGB raster at a quality setting,
/// or `None` when it refuses the input (for one, a side over 65535 pixels).
/// A function of the arguments alone.
pub uninterp spec fn jpeg_encoding(quality: u8, width: nat, height: nat, data: Seq<u8>) -> Option<
    Seq<u8>,
>;

/// What the PNG encoder makes of a packed RGB raster, or `None` when it
/// refuses the input. A function of the arguments alone.
pub uninterp spec fn png_encoding(width: nat, height: nat, data: Seq<u8>) -> Option<Seq<u8>>;

/// What the WebP encoder makes of a packed RGB raster, or `None` when it
/// refuses the input (for one, a side over 16384 pixels). A function of the
/// arguments alone.
pub uninterp spec fn webp_encoding(width: nat, height: nat, data: Seq<u8>) -> Option<Seq<u8>>;

/// Relies on `image::codecs::jpeg::JpegEncoder::new_with_quality` and
/// `encode`: encoding to an in-memory buffer is deterministic in the
/// quality and the RGB8 raster, and reports failure instead of panicking.
#[verifier::external_body]
fn encode_jpeg(img: &Raster, quality: u8) -> (r: Option<Vec<u8>>)
    requires
        img.wf(),
    ensures
        match r {
            Some(b) => jpeg_encoding(quality, img.width as nat, img.height as nat, img.data@)
                == Some(b@),
            None => jpeg_encoding(quality, img.width as nat, img.height as nat, img.data@)
                is None,
        },
{
    let mut buffer = std::io::Cursor::new(Vec::new());
    let mut encoder = image::codecs::jpeg::JpegEncoder::new_with_quality(&mut buffer, quality);
    match encoder.encode(
        img.data.as_slice(),
        img.width,
        img.height,
        image::ExtendedColorType::Rgb8,
    ) {
        Ok(()) => Some(buffer.into_inner()),
        Err(_) => None,
    }
}

/// Relies on `image::codecs::png::PngEncoder::write_image`: encoding to an
/// in-memory buffer is deterministic in the RGB8 raster, and reports
/// failure instead of panicking.
#[verifier::external_body]
fn encode_png(img: &Raster) -> (r: Option<Vec<u8>>)
    requires
        img.wf(),
    ensures
        match r {
            Some(b) => png_encoding(img.width as nat, img.height as nat, img.data@) == Some(b@),
            None => png_encoding(img.width as nat, img.height as nat, img.data@) is None,
        },
{
    let mut buffer = std::io::Cursor::new(Vec::new());
    let encoder = image::codecs::png::PngEncoder::new(&mut buffer);
    match image::ImageEncoder::write_image(
        encoder,
        img.data.as_slice(),
        img.width,
        img.height,
        image::ExtendedColorType::Rgb8,
    ) {
        Ok(()) => Some(buffer.into_inner()),
        Err(_) => None,
    }
}

/// Relies on `image::DynamicImage::write_to` with the WebP format: encoding
/// to an in-memory buffer is deterministic in the RGB8 raster, and reports
/// failure instead of panicking.
#[verifier::external_body]
fn encode_webp(img: &Raster) -> (r: Option<Vec<u8>>)
    requires
        img.wf(),
    ensures
        match r {
            Some(b) => webp_encoding(img.width as nat, img.height as nat, img.data@) == Some(b@),
            None => webp_encoding(img.width as nat, img.height as nat, img.data@) is None,
        },
{
    let buf = image::RgbImage::from_raw(img.width, img.height, img.data.clone()).expect(
        "buffer length matches dimensions",
    );
    let dynamic = image::DynamicImage::ImageRgb8(buf);
    let mut buffer = std::io::Cursor::new(Vec::new());
    match dynamic.write_to(&mut buffer, image::ImageFormat::WebP) {
        Ok(()) => Some(buffer.into_inner()),
        Err(_) => None,
    }
}

/// The bytes a raster encodes to under the given options. The WebP encoder
/// in use takes no quality or effort setting, so those two options do not
/// show in its output.
pub open spec fn spec_encode(img: Raster, options: SaveOptions) -> Option<Seq<u8>> {
    match options.format {
        ImageFormat::Jpeg => jpeg_encoding(
            options.jpeg_quality,
            img.width as nat,
            img.height as nat,
            img.data@,
        ),
        ImageFormat::Png => png_encoding(img.width as nat, img.height as nat, img.data@),
        ImageFormat::WebP => webp_encoding(img.width as nat, img.height as nat, img.data@),
    }
}

/// Encode a raster to bytes with specific format and quality settings.
pub fn encode_panorama(img: &Raster, options: &SaveOptions) -> (r: SvResult<Vec<u8>>)
    requires
        img.wf(),
    ensures
        match r {
            Ok(bytes) => spec_encode(*img, *options) == Some(bytes@),
            Err(e) => spec_encode(*img, *options) is None && e is EncodeFailure,
        },
{
    let encoded: Option<Vec<u8>> = match options.format {
        ImageFormat::Jpeg => encode_jpeg(img, options.jpeg_quality),
        ImageFormat::Png => encode_png(img),
        ImageFormat::WebP => encode_webp(img),
    };
    match encoded {
        Some(bytes) => Ok(bytes),
        None => Err(StreetViewError::EncodeFailure),
    }
}

/// Convenient byte-encoding methods for raster types.
pub trait PanoramaSaveExt: Sized {
    /// The raster this value encodes as.
    spec fn raster(&self) -> Raster;

    /// Encode as WebP with the given effort (0-6) and quality (1-100); the
    /// encoder in use acts on neither, encoding losslessly.
    fn to_webp_bytes(&self, effort: u8, quality: u8) -> (r: SvResult<Vec<u8>>)
        requires
            self.raster().wf(),
        ensures
            match r {
                Ok(b) => webp_encoding(
                    self.raster().width as nat,
                    self.raster().height as nat,
                    self.raster().data@,
                ) == Some(b@),
                Err(e) => webp_encoding(
                    self.raster().width as nat,
                    self.raster().height as nat,
                    self.raster().data@,
                ) is None && e is EncodeFailure,
            },
    ;

    /// Encode as JPEG with the given quality (1-100).
    fn to_jpeg_bytes(&self, quality: u8) -> (r: SvResult<Vec<u8>>)
        requires
            self.raster().wf(),
        ensures
            match r {
                Ok(b) => jpeg_encoding(
                    if quality < 1 {
                        1u8
                    } else if quality > 100 {
                        100u8
                    } else {
                        quality
                    },
                    self.raster().width as nat,
                    self.raster().height as nat,
                    self.raster().data@,
                ) == Some(b@),
                Err(e) => jpeg_encoding(
                    if quality < 1 {
                        1u8
                    } else if quality > 100 {
                        100u8
                    } else {
                        quality
                    },
                    self.raster().width as nat,
                    self.raster().height as nat,
                    self.raster().data@,
                ) is None && e is EncodeFailure,
            },
    ;

    /// Encode as PNG.
    fn to_png_bytes(&self) -> (r: SvResult<Vec<u8>>)
        requires
            self.raster().wf(),
        ensures
            match r {
                Ok(b) => png_encoding(
                    self.raster().width as nat,
                    self.raster().height as nat,
                    self.raster().data@,
                ) == Some(b@),
                Err(e) => png_encoding(
                    self.raster().width as nat,
                    self.raster().height as nat,
                    self.raster().data@,
                ) is None && e is EncodeFailure,
            },
    ;
}

impl PanoramaSaveExt for Raster {
    open spec fn raster(&self) -> Raster {
        *self
    }

    fn to_webp_bytes(&self, effort: u8, quality: u8) -> (r: SvResult<Vec<u8>>) {
        let options = SaveOptions::new().format(ImageFormat::WebP).webp_quality(
            quality,
        ).webp_method(effort);
        encode_panorama(self, &options)
    }

    fn to_jpeg_bytes(&self, quality: u8) -> (r: SvResult<Vec<u8>>) {
        let options = SaveOptions::new().format(ImageFormat::Jpeg).jpeg_quality(quality);
        encode_panorama(self, &options)
    }

    fn to_png_bytes(&self) -> (r: SvResult<Vec<u8>>) {
        let options = SaveOptions::new().format(ImageFormat::Png);
        encode_panorama(self, &options)
    }
}

} // verus!
