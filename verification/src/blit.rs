//! Copying a source image into its rectangle of a page, row by row.

use vstd::prelude::*;
use vstd::arithmetic::div_mod::{
    lemma_fundamental_div_mod, lemma_fundamental_div_mod_converse, lemma_mod_bound,
};
use bevy_render::render_resource::TextureFormat;
use crate::format::{pixel_size, pixel_size_of, same_format};
use crate::geometry::Placement;
use crate::image::{byte_at, convert, converted, Image, ImageView};
use crate::texture_atlas_builder::TextureAtlasBuilder;

verus! {

/// The page bytes after `source`, an image of `at.width` by `at.height`
/// pixels, is copied to the rectangle of `at` in a page `page_width` pixels
/// wide, at `pixel` bytes per pixel. Byte `i` of the page lies in row
/// `i / stride` at byte column `i % stride`, where `stride` is the length of
/// a page row in bytes. Within the rectangle it holds the source byte of the
/// same row and byte column of the rectangle; elsewhere it is as it was.
pub open spec fn blitted(
    page: Seq<u8>,
    page_width: int,
    pixel: int,
    source: Seq<u8>,
    at: Placement,
) -> Seq<u8> {
    let stride = page_width * pixel;
    let left = at.x * pixel;
    let span = at.width * pixel;
    Seq::new(
        page.len(),
        |i: int|
            if at.y <= i / stride < at.y + at.height && left <= i % stride < left + span {
                source[(i / stride - at.y) * span + (i % stride - left)]
            } else {
                page[i]
            },
    )
}

/// The byte in row `row` and byte column `col` of a page has been written
/// once `rows` rows of the rectangle are complete and `extra` bytes of the
/// next one.
spec fn copied(row: int, col: int, left: int, top: int, span: int, rows: int, extra: int) -> bool {
    ||| top <= row < top + rows && left <= col < left + span
    ||| row == top + rows && left <= col < left + extra
}

/// The page bytes once `rows` rows of `source` and `extra` bytes of the next
/// row are copied.
spec fn blit_progress(
    page: Seq<u8>,
    stride: int,
    source: Seq<u8>,
    left: int,
    top: int,
    span: int,
    rows: int,
    extra: int,
) -> Seq<u8> {
    Seq::new(
        page.len(),
        |i: int|
            if copied(i / stride, i % stride, left, top, span, rows, extra) {
                source[(i / stride - top) * span + (i % stride - left)]
            } else {
                page[i]
            },
    )
}

/// Index `i` is the byte in row `row`, byte column `col`, exactly when it is
/// `row * stride + col`.
proof fn lemma_cell(i: int, stride: int, row: int, col: int)
    requires
        0 <= col < stride,
    ensures
        (i == row * stride + col) <==> (i / stride == row && i % stride == col),
{
    lemma_fundamental_div_mod(i, stride);
    lemma_mod_bound(i, stride);
    if i == row * stride + col {
        lemma_fundamental_div_mod_converse(i, stride, row, col);
    }
    if i / stride == row && i % stride == col {
        assert(stride * (i / stride) == row * stride) by (nonlinear_arith)
            requires
                i / stride == row,
        ;
    }
}

/// Byte `b` of a pixel of an image lies within its data, in the row and at
/// the byte column that the pixel's coordinates give.
pub proof fn lemma_byte_at(width: int, height: int, pixel: int, cx: int, cy: int, b: int)
    by (nonlinear_arith)
    requires
        0 <= cx < width,
        0 <= cy < height,
        0 <= b < pixel,
    ensures
        byte_at(width, pixel, cx, cy, b) == cy * (width * pixel) + (cx * pixel + b),
        0 <= cx * pixel + b < width * pixel,
        0 <= byte_at(width, pixel, cx, cy, b) < width * height * pixel,
{
}

proof fn lemma_pixel_column(pixel: int, cx: int, b: int, x: int)
    by (nonlinear_arith)
    requires
        0 <= b < pixel,
    ensures
        x <= cx <==> x * pixel <= cx * pixel + b,
{
}

/// What a blit leaves at byte `b` of the pixel in column `cx` and row `cy` of
/// the page: the matching byte of the source where the rectangle covers the
/// pixel, and what the page held elsewhere.
pub proof fn lemma_blitted_byte(
    page: Seq<u8>,
    page_width: int,
    page_height: int,
    pixel: int,
    source: Seq<u8>,
    at: Placement,
    cx: int,
    cy: int,
    b: int,
)
    requires
        page.len() == page_width * page_height * pixel,
        0 <= cx < page_width,
        0 <= cy < page_height,
        0 <= b < pixel,
    ensures
        blitted(page, page_width, pixel, source, at).len() == page.len(),
        0 <= byte_at(page_width, pixel, cx, cy, b) < page.len(),
        blitted(page, page_width, pixel, source, at)[byte_at(page_width, pixel, cx, cy, b)] == (
        if at.covers(cx, cy) {
            source[byte_at(at.width as int, pixel, cx - at.x, cy - at.y, b)]
        } else {
            page[byte_at(page_width, pixel, cx, cy, b)]
        }),
{
    let i = byte_at(page_width, pixel, cx, cy, b);
    let stride = page_width * pixel;
    let col = cx * pixel + b;
    lemma_byte_at(page_width, page_height, pixel, cx, cy, b);
    lemma_cell(i, stride, cy, col);
    lemma_pixel_column(pixel, cx, b, at.x as int);
    lemma_pixel_column(pixel, cx, b, at.x + at.width);
    assert((at.x + at.width) * pixel == at.x * pixel + at.width * pixel) by (nonlinear_arith);
    if at.covers(cx, cy) {
        assert((cy - at.y) * (at.width * pixel) + (col - at.x * pixel) == byte_at(
            at.width as int,
            pixel,
            cx - at.x,
            cy - at.y,
            b,
        )) by (nonlinear_arith)
            requires
                col == cx * pixel + b,
        ;
    }
}

/// The offsets of row `r` of a rectangle lie within the page and the source.
proof fn lemma_row_bounds(
    page_width: int,
    page_height: int,
    pixel: int,
    x: int,
    y: int,
    width: int,
    height: int,
    r: int,
)
    by (nonlinear_arith)
    requires
        0 <= pixel,
        0 <= x,
        0 <= y,
        0 <= width,
        x + width <= page_width,
        y + height <= page_height,
        0 <= r < height,
    ensures
        0 <= x * pixel,
        0 <= width * pixel,
        x * pixel + width * pixel <= page_width * pixel,
        0 <= (y + r) * (page_width * pixel),
        (y + r) * (page_width * pixel) + page_width * pixel <= page_width * page_height * pixel,
        0 <= r * (width * pixel),
        r * (width * pixel) + width * pixel <= width * height * pixel,
{
}

/// The image that is copied for `texture` into a page of format `format`:
/// the texture itself where the formats agree, else what the conversion
/// gives, if anything.
pub open spec fn source_for(texture: ImageView, format: TextureFormat) -> Option<ImageView> {
    if texture.format == format {
        Some(texture)
    } else {
        converted(texture, format)
    }
}

/// `source` is an image of the page's format and of the rectangle's width and
/// height, with tight data: it can be copied to `at`.
pub open spec fn fits(source: ImageView, format: TextureFormat, at: Placement) -> bool {
    &&& source.format == format
    &&& source.width == at.width
    &&& source.height == at.height
    &&& pixel_size_of(format) is Some
    &&& source.tight(pixel_size_of(format).unwrap())
}

/// The page bytes after `texture` is pasted at `at`: its source is copied
/// where it fits, and the page is left as it was where the conversion is not
/// supported or gives no image that fits.
pub open spec fn pasted(page: ImageView, texture: ImageView, at: Placement) -> Seq<u8> {
    match source_for(texture, page.format) {
        Some(source) => if fits(source, page.format, at) {
            blitted(
                page.data,
                page.width as int,
                pixel_size_of(page.format).unwrap() as int,
                source.data,
                at,
            )
        } else {
            page.data
        },
        None => page.data,
    }
}

/// Whether `image` can be copied to `at` in a page of `format`.
pub fn image_fits(image: &Image, format: TextureFormat, at: &Placement) -> (ok: bool)
    requires
        pixel_size_of(format) is Some,
    ensures
        ok == fits(image@, format, *at),
{
    if !same_format(image.format, format) || image.width != at.width || image.height
        != at.height {
        return false;
    }
    let format_size = pixel_size(format);
    assert(at.width * at.height * format_size <= u128::MAX) by (nonlinear_arith)
        requires
            at.width <= u32::MAX,
            at.height <= u32::MAX,
            format_size <= u64::MAX,
    ;
    assert(at.width * at.height <= u128::MAX) by (nonlinear_arith)
        requires
            at.width <= u32::MAX,
            at.height <= u32::MAX,
    ;
    let needed: u128 = at.width as u128 * at.height as u128 * format_size as u128;
    image.data.len() as u128 == needed
}

impl TextureAtlasBuilder {
    /// Pastes `texture` at `loc` in `page`, whose format is `format`: the
    /// texture itself where it has that format, else its conversion to it.
    /// Where the conversion is not supported, or what there is to copy is no
    /// image that fits the rectangle, the page stays as it is.
    pub fn copy_texture(page: &mut Image, texture: &Image, format: TextureFormat, loc: &Placement)
        requires
            old(page).format == format,
            pixel_size_of(format) is Some,
            old(page)@.tight(pixel_size_of(format).unwrap()),
            loc.inside(old(page)@.extent()),
            texture.format == format || 4 * texture.data@.len() <= u32::MAX,
        ensures
            final(page).width == old(page).width,
            final(page).height == old(page).height,
            final(page).format == old(page).format,
            final(page).data@ == pasted(old(page)@, texture@, *loc),
    {
        if same_format(format, texture.format) {
            if image_fits(texture, format, loc) {
                Self::copy_texture_impl(page, texture, loc);
            }
        } else {
            match convert(texture, format) {
                Some(conv) => {
                    if image_fits(&conv, format, loc) {
                        Self::copy_texture_impl(page, &conv, loc);
                    }
                },
                None => {},
            }
        }
    }

    /// Copies `texture`, row by row, to the rectangle of `loc` in `page`: row
    /// `r` of the source goes to byte offset
    /// `((loc.y + r) * page.width + loc.x)` times the pixel size. Both
    /// buffers are tight, and the rectangle lies within the page.
    pub fn copy_texture_impl(page: &mut Image, texture: &Image, loc: &Placement)
        requires
            pixel_size_of(old(page).format) is Some,
            old(page)@.tight(pixel_size_of(old(page).format).unwrap()),
            loc.inside(old(page)@.extent()),
            texture.data@.len() == loc.width * loc.height * pixel_size_of(
                old(page).format,
            ).unwrap(),
        ensures
            final(page).width == old(page).width,
            final(page).height == old(page).height,
            final(page).format == old(page).format,
            final(page).data@ == blitted(
                old(page).data@,
                old(page).width as int,
                pixel_size_of(old(page).format).unwrap() as int,
                texture.data@,
                *loc,
            ),
    {
        let format_size = pixel_size(page.format);
        let rect_height = loc.height as usize;
        let ghost before = page.data@;
        let ghost stride = page.width * format_size;
        let ghost left = loc.x * format_size;
        let ghost span = loc.width * format_size;
        let ghost top = loc.y as int;
        assert(page.data@ =~= blit_progress(before, stride, texture.data@, left, top, span, 0, 0));
        if rect_height == 0 {
            assert(page.data@ =~= blitted(
                before,
                page.width as int,
                format_size as int,
                texture.data@,
                *loc,
            ));
            return ;
        }
        proof {
            lemma_row_bounds(
                page.width as int,
                page.height as int,
                format_size as int,
                loc.x as int,
                loc.y as int,
                loc.width as int,
                loc.height as int,
                0,
            );
            assert(before.len() == page.data.len());
        }
        let row_bytes = page.width as usize * format_size;
        let rect_bytes = loc.width as usize * format_size;
        let rect_left = loc.x as usize * format_size;
        let rect_top = loc.y as usize;
        let mut texture_y: usize = 0;
        while texture_y < rect_height
            invariant
                texture_y <= rect_height,
                rect_height == loc.height,
                row_bytes == stride,
                rect_bytes == span,
                rect_left == left,
                rect_top == top,
                stride == page.width * format_size,
                left == loc.x * format_size,
                span == loc.width * format_size,
                top == loc.y,
                page.width == old(page).width,
                page.height == old(page).height,
                page.format == old(page).format,
                loc.inside(page@.extent()),
                before.len() == page.width * page.height * format_size,
                before.len() == page.data.len(),
                texture.data@.len() == loc.width * loc.height * format_size,
                texture.data@.len() == texture.data.len(),
                page.data@ == blit_progress(
                    before,
                    stride,
                    texture.data@,
                    left,
                    top,
                    span,
                    texture_y as int,
                    0,
                ),
            decreases rect_height - texture_y,
        {
            proof {
                lemma_row_bounds(
                    page.width as int,
                    page.height as int,
                    format_size as int,
                    loc.x as int,
                    loc.y as int,
                    loc.width as int,
                    loc.height as int,
                    texture_y as int,
                );
            }
            let begin = (rect_top + texture_y) * row_bytes + rect_left;
            let texture_begin = texture_y * rect_bytes;
            let mut offset: usize = 0;
            while offset < rect_bytes
                invariant
                    offset <= rect_bytes,
                    texture_y < rect_height,
                    row_bytes == stride,
                    rect_bytes == span,
                    0 <= left,
                    left + span <= stride,
                    begin == (top + texture_y) * stride + left,
                    begin + span <= before.len(),
                    texture_begin == texture_y * span,
                    texture_begin + span <= texture.data@.len(),
                    before.len() == page.data.len(),
                    texture.data@.len() == texture.data.len(),
                    page.width == old(page).width,
                    page.height == old(page).height,
                    page.format == old(page).format,
                    page.data@ == blit_progress(
                        before,
                        stride,
                        texture.data@,
                        left,
                        top,
                        span,
                        texture_y as int,
                        offset as int,
                    ),
                decreases rect_bytes - offset,
            {
                let byte = texture.data[texture_begin + offset];
                page.data.set(begin + offset, byte);
                proof {
                    let later = blit_progress(
                        before,
                        stride,
                        texture.data@,
                        left,
                        top,
                        span,
                        texture_y as int,
                        offset + 1,
                    );
                    assert forall|i: int| 0 <= i < before.len() implies page.data@[i]
                        == later[i] by {
                        lemma_cell(i, stride, top + texture_y, left + offset);
                    }
                    assert(page.data@ =~= later);
                }
                offset += 1;
            }
            proof {
                assert(page.data@ =~= blit_progress(
                    before,
                    stride,
                    texture.data@,
                    left,
                    top,
                    span,
                    texture_y + 1,
                    0,
                ));
            }
            texture_y += 1;
        }
        assert(page.data@ =~= blitted(
            before,
            page.width as int,
            format_size as int,
            texture.data@,
            *loc,
        ));
    }
}

} // verus!
