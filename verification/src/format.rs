//! The pixel format of a page: an outside type that the library carries
//! through, asks for its pixel size and compares.

use vstd::prelude::*;
use bevy_render::render_resource::TextureFormat;
use bevy_render::texture::TextureFormatPixelInfo;

verus! {

/// `wgpu`'s `TextureFormat`, as `bevy_render` hands it on. Nothing is known of
/// a value but what the items below state.
#[verifier::external_type_specification]
#[verifier::external_body]
pub struct ExTextureFormat(TextureFormat);

/// Bytes per pixel of a format, as `TextureFormatPixelInfo::pixel_size` gives
/// them; `None` for the formats it has no pixel information for.
pub uninterp spec fn pixel_size_of(format: TextureFormat) -> Option<nat>;

/// `TextureFormatPixelInfo::pixel_size`. It panics on formats without pixel
/// information, which `requires` leaves out.
#[verifier::external_body]
pub(crate) fn pixel_size(format: TextureFormat) -> (size: usize)
    requires
        pixel_size_of(format) is Some,
    ensures
        pixel_size_of(format) == Some(size as nat),
{
    format.pixel_size()
}

/// `==` on `TextureFormat`, which is derived: two formats are equal exactly
/// when they are the same variant with the same fields.
#[verifier::external_body]
pub(crate) fn same_format(a: TextureFormat, b: TextureFormat) -> (same: bool)
    ensures
        same == (a == b),
{
    a == b
}

/// `TextureFormat::Rgba8UnormSrgb`: four channels of one byte each.
#[verifier::external_body]
pub(crate) fn default_format() -> (format: TextureFormat)
    ensures
        pixel_size_of(format) == Some(4nat),
{
    TextureFormat::Rgba8UnormSrgb
}

} // verus!
