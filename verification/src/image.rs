//! Images as the builder reads and writes them: extent, format and tightly
//! packed row-major bytes.

use vstd::prelude::*;
use bevy_render::render_resource::{Extent3d, TextureFormat};
use crate::geometry::Extent;

verus! {

/// A pixel buffer with its extent and format.
#[derive(Debug)]
pub struct Image {
    pub width: u32,
    pub height: u32,
    pub format: TextureFormat,
    pub data: Vec<u8>,
}

/// What an `Image` is to contracts.
pub ghost struct ImageView {
    pub width: u32,
    pub height: u32,
    pub format: TextureFormat,
    pub data: Seq<u8>,
}

impl View for Image {
    type V = ImageView;

    open spec fn view(&self) -> ImageView {
        ImageView { width: self.width, height: self.height, format: self.format, data: self.data@ }
    }
}

/// The index of byte `b` of the pixel in column `cx` and row `cy` of an image
/// `width` pixels wide, at `pixel` bytes per pixel.
pub open spec fn byte_at(width: int, pixel: int, cx: int, cy: int, b: int) -> int {
    (cy * width + cx) * pixel + b
}

impl ImageView {
    /// Byte `b` of the pixel in column `cx` and row `cy`, at `pixel` bytes
    /// per pixel.
    pub open spec fn byte(self, pixel: nat, cx: int, cy: int, b: int) -> u8 {
        self.data[byte_at(self.width as int, pixel as int, cx, cy, b)]
    }

    /// The extent of the image.
    pub open spec fn extent(self) -> Extent {
        Extent { width: self.width, height: self.height }
    }

    /// The data is one dense row-major buffer of `pixel` bytes per pixel, with
    /// no padding.
    pub open spec fn tight(self, pixel: nat) -> bool {
        self.data.len() == self.width * self.height * pixel
    }
}

/// A page of the given extent and format with every byte zero.
pub open spec fn blank_page(size: Extent, format: TextureFormat, pixel: nat) -> ImageView {
    ImageView {
        width: size.width,
        height: size.height,
        format,
        data: Seq::new((size.width * size.height * pixel) as nat, |i: int| 0u8),
    }
}

/// What `bevy_render`'s `Image::convert` makes of an image and a target
/// format: the converted image, or `None` where it does not support the
/// conversion.
pub uninterp spec fn converted(image: ImageView, target: TextureFormat) -> Option<ImageView>;

/// `Image::convert` of `bevy_render`, on an image with the given data, extent
/// and format; it reads nothing else of an image. `requires` leaves out
/// where the outside code panics: the bound keeps the byte count of the
/// outcome, at four bytes per pixel, within `u32`; and a conversion to the
/// format the image has already hands on data of any length, over which
/// `Image::new` panics.
#[verifier::external_body]
pub(crate) fn convert(image: &Image, target: TextureFormat) -> (out: Option<Image>)
    requires
        image.format != target,
        4 * image.data@.len() <= u32::MAX,
    ensures
        out matches Some(made) ==> converted(image@, target) == Some(made@),
        out is None ==> converted(image@, target) is None,
{
    let mut source = bevy_render::texture::Image::default();
    source.data = image.data.clone();
    source.texture_descriptor.size =
        Extent3d { width: image.width, height: image.height, depth_or_array_layers: 1 };
    source.texture_descriptor.format = image.format;
    source.convert(target).map(
        |made|
            Image {
                width: made.texture_descriptor.size.width,
                height: made.texture_descriptor.size.height,
                format: made.texture_descriptor.format,
                data: made.data,
            },
    )
}

} // verus!
