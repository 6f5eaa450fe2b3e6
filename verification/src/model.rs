//! The model of a build: what the packer is asked, what the mapping and the
//! page hold in the end, all over the queue of requests.

use vstd::prelude::*;
use bevy_asset::HandleId;
use bevy_render::render_resource::TextureFormat;
use crate::area::{lemma_tiled_area, placed_area, tiled};
use crate::blit::{pasted, source_for};
use crate::format::pixel_size_of;
use crate::geometry::{apart, Extent, Placement};
use crate::image::ImageView;
use crate::packer::arranged;
use crate::texture_atlas_builder::PendingRequest;

verus! {

/// The rectangles of the first `count` requests, by request index.
pub open spec fn rect_map(requests: Seq<PendingRequest>, count: nat) -> Map<usize, (u32, u32)> {
    Map::new(
        |i: usize| i < count,
        |i: usize| (requests[i as int].width, requests[i as int].height),
    )
}

/// The mapping after the first `count` requests are entered in order: each
/// identity leads to the index of the last request under it.
pub open spec fn index_upto(requests: Seq<PendingRequest>, count: nat) -> Map<HandleId, usize>
    decreases count,
{
    if count == 0 {
        Map::empty()
    } else {
        index_upto(requests, (count - 1) as nat).insert(
            requests[count - 1].id,
            (count - 1) as usize,
        )
    }
}

/// The page after the images of the first `done` requests are pasted, in
/// order, each at its slot.
pub open spec fn painted(
    page: ImageView,
    sources: Map<HandleId, ImageView>,
    requests: Seq<PendingRequest>,
    slots: Seq<Placement>,
    done: nat,
) -> ImageView
    decreases done,
{
    if done == 0 {
        page
    } else {
        let before = painted(page, sources, requests, slots, (done - 1) as nat);
        ImageView {
            data: pasted(before, sources[requests[done - 1].id], slots[done - 1]),
            ..before
        }
    }
}

/// The image that is pasted for a request: the stored image, or its
/// conversion where it has another format than the page, provided that it
/// has the page's format and the request's width and height, with tight
/// data. Where there is none, the request's region stays blank.
pub open spec fn request_source(
    sources: Map<HandleId, ImageView>,
    request: PendingRequest,
    format: TextureFormat,
) -> Option<ImageView> {
    match source_for(sources[request.id], format) {
        Some(source) => if source.format == format && source.width == request.width
            && source.height == request.height && pixel_size_of(format) is Some && source.tight(
            pixel_size_of(format).unwrap(),
        ) {
            Some(source)
        } else {
            None
        },
        None => None,
    }
}

/// The pixel counts of the first `count` requests, added up.
pub open spec fn requested_area(requests: Seq<PendingRequest>, count: nat) -> int
    decreases count,
{
    if count == 0 {
        0
    } else {
        requested_area(requests, (count - 1) as nat) + requests[count - 1].width * requests[count
            - 1].height
    }
}

/// `slots` is a layout of `requests` on one page of `size`: slot `i` is for
/// request `i`, has its width and height and lies within the page, and no
/// two slots share a pixel.
pub open spec fn laid_out(
    requests: Seq<PendingRequest>,
    slots: Seq<Placement>,
    size: Extent,
) -> bool {
    &&& slots.len() == requests.len()
    &&& forall|i: int|
        0 <= i < slots.len() ==> {
            let at = #[trigger] slots[i];
            &&& at.request == i
            &&& at.page_index == 0
            &&& at.width == requests[i].width
            &&& at.height == requests[i].height
            &&& at.inside(size)
        }
    &&& forall|i: int, j: int|
        0 <= i < j < slots.len() ==> apart(#[trigger] slots[i], #[trigger] slots[j])
}

/// The pixel counts of the requests add up to the pixel counts of their
/// slots.
pub proof fn lemma_requested_is_placed(
    requests: Seq<PendingRequest>,
    slots: Seq<Placement>,
    size: Extent,
    count: nat,
)
    requires
        laid_out(requests, slots, size),
        count <= requests.len(),
    ensures
        requested_area(requests, count) == placed_area(slots, count),
    decreases count,
{
    if count > 0 {
        lemma_requested_is_placed(requests, slots, size, (count - 1) as nat);
        assert(slots[count - 1].width == requests[count - 1].width);
    }
}

/// Requests that are laid out on a page have, together, no more pixels than
/// the page.
pub proof fn lemma_requests_fit(requests: Seq<PendingRequest>, layout: Set<Placement>, size: Extent)
    requires
        laid_out(requests, arranged(layout, requests.len()), size),
    ensures
        requested_area(requests, requests.len()) <= size.area(),
{
    let slots = arranged(layout, requests.len());
    assert(tiled(slots, size));
    lemma_tiled_area(slots, size);
    lemma_requested_is_placed(requests, slots, size, requests.len());
}

/// Pasting changes neither the extent nor the format of a page.
pub proof fn lemma_painted_extent(
    page: ImageView,
    sources: Map<HandleId, ImageView>,
    requests: Seq<PendingRequest>,
    slots: Seq<Placement>,
    done: nat,
)
    ensures
        painted(page, sources, requests, slots, done).width == page.width,
        painted(page, sources, requests, slots, done).height == page.height,
        painted(page, sources, requests, slots, done).format == page.format,
    decreases done,
{
    if done > 0 {
        lemma_painted_extent(page, sources, requests, slots, (done - 1) as nat);
    }
}

/// Pasting keeps the page's data as long as it was.
pub proof fn lemma_painted_tight(
    page: ImageView,
    sources: Map<HandleId, ImageView>,
    requests: Seq<PendingRequest>,
    slots: Seq<Placement>,
    done: nat,
)
    ensures
        painted(page, sources, requests, slots, done).data.len() == page.data.len(),
    decreases done,
{
    if done > 0 {
        lemma_painted_tight(page, sources, requests, slots, (done - 1) as nat);
        lemma_painted_extent(page, sources, requests, slots, (done - 1) as nat);
    }
}

} // verus!
