//! What holds of every atlas the builder makes, proved from the contracts of
//! the functions that make it.

use vstd::prelude::*;
use bevy_asset::HandleId;
use bevy_render::render_resource::TextureFormat;
use crate::blit::{lemma_blitted_byte, lemma_byte_at, source_for};
use crate::format::pixel_size_of;
use crate::geometry::{apart, Extent, Placement};
use crate::growth::{
    attempt_size, grown, lemma_area_within, lemma_attempts_within, lemma_growth_settles,
    lemma_stalled, within,
};
use crate::image::{blank_page, ImageView};
use crate::model::{
    index_upto, laid_out, lemma_painted_extent, lemma_painted_tight, lemma_requests_fit, painted,
    request_source,
};
use crate::packer::arranged;
use crate::texture_atlas::{table_entries, TextureAtlas};
use crate::texture_atlas_builder::{PendingRequest, TextureAtlasBuilder};

verus! {

/// The page never shrinks from one attempt to the next, from the second
/// attempt on; nor from the first, where the initial size is within the
/// maximum.
pub proof fn law_pages_never_shrink(initial: Extent, max: Extent, k: nat)
    requires
        k >= 1 || within(initial, max),
    ensures
        within(attempt_size(initial, max, k), attempt_size(initial, max, k + 1)),
{
    if k >= 1 {
        lemma_attempts_within(initial, max, k);
    }
    assert(attempt_size(initial, max, k + 1) == grown(attempt_size(initial, max, k), max));
}

/// The search for a page size is bounded: after 32 growth steps the page
/// changes no more, so the first attempt that the packer finds a layout at
/// is among the first 33.
pub proof fn law_search_is_bounded(builder: TextureAtlasBuilder, k: nat)
    requires
        builder.first_fit(k),
    ensures
        k <= 32,
{
    if k > 32 {
        lemma_growth_settles(builder.initial_size, builder.max_size);
        lemma_stalled(builder.initial_size, builder.max_size, 32, k);
        assert(builder.layout_at(32) is None);
    }
}

/// An atlas has one region for every request that was queued, in the order
/// of the queue, each of the width and height that was requested.
pub proof fn law_one_region_per_request(
    builder: TextureAtlasBuilder,
    atlas: TextureAtlas,
    before: Map<HandleId, ImageView>,
    after: Map<HandleId, ImageView>,
)
    requires
        builder.built(atlas, before, after),
    ensures
        atlas.regions@.len() == builder.rects_to_place@.len(),
        forall|i: int|
            0 <= i < atlas.regions@.len() ==> {
                let rect = (#[trigger] atlas.regions@[i]).rect;
                &&& rect.max_x - rect.min_x == builder.rects_to_place@[i].width
                &&& rect.max_y - rect.min_y == builder.rects_to_place@[i].height
            },
{
    let k = builder.built_at(atlas, before, after);
    let slots = arranged(builder.layout_at(k).unwrap(), builder.rects_to_place@.len());
    assert forall|i: int| 0 <= i < atlas.regions@.len() implies {
        let rect = (#[trigger] atlas.regions@[i]).rect;
        &&& rect.max_x - rect.min_x == builder.rects_to_place@[i].width
        &&& rect.max_y - rect.min_y == builder.rects_to_place@[i].height
    } by {
        assert(slots[i].inside(builder.attempt(k)));
    }
}

/// The mapping holds exactly the identities that were queued, and each leads
/// to the last request that was queued under it.
pub proof fn law_mapping_keeps_last(requests: Seq<PendingRequest>, count: nat, id: HandleId)
    requires
        count <= requests.len() <= usize::MAX,
    ensures
        index_upto(requests, count).contains_key(id) <==> exists|i: int|
            0 <= i < count && (#[trigger] requests[i]).id == id,
        index_upto(requests, count).contains_key(id) ==> {
            let last = index_upto(requests, count)[id];
            &&& last < count
            &&& requests[last as int].id == id
            &&& forall|j: int| last < j < count ==> (#[trigger] requests[j]).id != id
        },
    decreases count,
{
    if count > 0 {
        law_mapping_keeps_last(requests, (count - 1) as nat, id);
        if requests[count - 1].id != id && index_upto(requests, (count - 1) as nat).contains_key(
            id,
        ) {
            let i = choose|i: int| 0 <= i < count - 1 && (#[trigger] requests[i]).id == id;
            assert(0 <= i < count && requests[i].id == id);
        }
    }
}

/// Looking up an identity in a built atlas gives a value exactly when a
/// request was queued under it, and then the index of the region of the last
/// such request.
pub proof fn law_lookup_finds_last(
    builder: TextureAtlasBuilder,
    atlas: TextureAtlas,
    before: Map<HandleId, ImageView>,
    after: Map<HandleId, ImageView>,
    id: HandleId,
)
    requires
        builder.built(atlas, before, after),
    ensures
        table_entries(atlas.mappings).contains_key(id) <==> exists|i: int|
            0 <= i < builder.rects_to_place@.len() && (#[trigger] builder.rects_to_place@[i]).id
                == id,
        table_entries(atlas.mappings).contains_key(id) ==> {
            let last = table_entries(atlas.mappings)[id];
            &&& last < atlas.regions@.len()
            &&& builder.rects_to_place@[last as int].id == id
            &&& forall|j: int|
                last < j < builder.rects_to_place@.len() ==> (
                #[trigger] builder.rects_to_place@[j]).id != id
        },
{
    assert(builder.rects_to_place@.len() == builder.rects_to_place.len());
    law_mapping_keeps_last(builder.rects_to_place@, builder.rects_to_place@.len(), id);
}

/// Every region of an atlas lies on one of its pages, and its rectangle lies
/// within `[0, 0]..[width, height]` of that page as the store holds it.
pub proof fn law_regions_within_pages(
    builder: TextureAtlasBuilder,
    atlas: TextureAtlas,
    before: Map<HandleId, ImageView>,
    after: Map<HandleId, ImageView>,
)
    requires
        builder.built(atlas, before, after),
    ensures
        forall|i: int|
            0 <= i < atlas.regions@.len() ==> {
                let region = #[trigger] atlas.regions@[i];
                &&& region.page_index < atlas.pages@.len()
                &&& after.contains_key(atlas.pages@[region.page_index as int])
                &&& region.rect.within(after[atlas.pages@[region.page_index as int]].extent())
            },
{
    let k = builder.built_at(atlas, before, after);
    let count = builder.rects_to_place@.len();
    let slots = arranged(builder.layout_at(k).unwrap(), count);
    let size = builder.attempt(k);
    lemma_painted_extent(
        blank_page(size, builder.format, pixel_size_of(builder.format).unwrap()),
        before,
        builder.rects_to_place@,
        slots,
        count,
    );
    assert forall|i: int| 0 <= i < atlas.regions@.len() implies {
        let region = #[trigger] atlas.regions@[i];
        &&& region.page_index < atlas.pages@.len()
        &&& after.contains_key(atlas.pages@[region.page_index as int])
        &&& region.rect.within(after[atlas.pages@[region.page_index as int]].extent())
    } by {
        assert(slots[i].inside(size));
    }
}

/// The images of an atlas have, together, no more pixels than its page; and
/// where the initial size is within the maximum, no more than a page of the
/// maximum size.
pub proof fn law_requests_fit_the_page(
    builder: TextureAtlasBuilder,
    atlas: TextureAtlas,
    before: Map<HandleId, ImageView>,
    after: Map<HandleId, ImageView>,
)
    requires
        builder.built(atlas, before, after),
    ensures
        builder.requested() <= after[atlas.pages@[0]].extent().area(),
        within(builder.initial_size, builder.max_size) ==> builder.requested()
            <= builder.max_size.area(),
{
    let k = builder.built_at(atlas, before, after);
    let count = builder.rects_to_place@.len();
    let size = builder.attempt(k);
    lemma_painted_extent(
        blank_page(size, builder.format, pixel_size_of(builder.format).unwrap()),
        before,
        builder.rects_to_place@,
        arranged(builder.layout_at(k).unwrap(), count),
        count,
    );
    lemma_requests_fit(builder.rects_to_place@, builder.layout_at(k).unwrap(), size);
    if within(builder.initial_size, builder.max_size) {
        if k >= 1 {
            lemma_attempts_within(builder.initial_size, builder.max_size, k);
        }
        lemma_area_within(size, builder.max_size);
    }
}

/// A byte of a pixel that none of the slots from `from` on covers is, after
/// all `done` pastes, what it was after the first `from`.
proof fn lemma_later_pastes_keep(
    page: ImageView,
    sources: Map<HandleId, ImageView>,
    requests: Seq<PendingRequest>,
    slots: Seq<Placement>,
    pixel: nat,
    from: nat,
    done: nat,
    cx: int,
    cy: int,
    b: int,
)
    requires
        from <= done <= slots.len(),
        pixel_size_of(page.format) == Some(pixel),
        page.tight(pixel),
        0 <= cx < page.width,
        0 <= cy < page.height,
        0 <= b < pixel,
        forall|j: int| from <= j < done ==> !(#[trigger] slots[j]).covers(cx, cy),
    ensures
        painted(page, sources, requests, slots, done).byte(pixel, cx, cy, b) == painted(
            page,
            sources,
            requests,
            slots,
            from,
        ).byte(pixel, cx, cy, b),
    decreases done,
{
    if done > from {
        let before = painted(page, sources, requests, slots, (done - 1) as nat);
        lemma_later_pastes_keep(
            page,
            sources,
            requests,
            slots,
            pixel,
            from,
            (done - 1) as nat,
            cx,
            cy,
            b,
        );
        lemma_painted_tight(page, sources, requests, slots, (done - 1) as nat);
        lemma_painted_extent(page, sources, requests, slots, (done - 1) as nat);
        lemma_painted_extent(page, sources, requests, slots, done);
        assert(!slots[done - 1].covers(cx, cy));
        match source_for(sources[requests[done - 1].id], before.format) {
            Some(source) => {
                lemma_blitted_byte(
                    before.data,
                    before.width as int,
                    before.height as int,
                    pixel as int,
                    source.data,
                    slots[done - 1],
                    cx,
                    cy,
                    b,
                );
            },
            None => {},
        }
    }
}

/// Reading a page at a request's slot gives back the bytes of its source:
/// after all requests are pasted on a blank page, byte `b` of the page's
/// pixel in column `cx` and row `cy`, within slot `i`, is byte `b` of the
/// pixel in the same column and row of the slot in the image that is pasted
/// for request `i`.
pub proof fn law_pixels_read_back(
    sources: Map<HandleId, ImageView>,
    requests: Seq<PendingRequest>,
    slots: Seq<Placement>,
    size: Extent,
    format: TextureFormat,
    i: int,
    cx: int,
    cy: int,
    b: int,
)
    requires
        laid_out(requests, slots, size),
        pixel_size_of(format) is Some,
        0 <= i < requests.len(),
        request_source(sources, requests[i], format) is Some,
        slots[i].covers(cx, cy),
        0 <= b < pixel_size_of(format).unwrap(),
    ensures
        ({
            let pixel = pixel_size_of(format).unwrap();
            let page = painted(
                blank_page(size, format, pixel),
                sources,
                requests,
                slots,
                requests.len(),
            );
            let source = request_source(sources, requests[i], format).unwrap();
            page.byte(pixel, cx, cy, b) == source.byte(pixel, cx - slots[i].x, cy - slots[i].y, b)
        }),
{
    let pixel = pixel_size_of(format).unwrap();
    let blank = blank_page(size, format, pixel);
    let before = painted(blank, sources, requests, slots, i as nat);
    let source = request_source(sources, requests[i], format).unwrap();
    assert(slots[i].inside(size));
    lemma_painted_tight(blank, sources, requests, slots, i as nat);
    lemma_painted_extent(blank, sources, requests, slots, i as nat);
    lemma_painted_extent(blank, sources, requests, slots, (i + 1) as nat);
    lemma_painted_extent(blank, sources, requests, slots, requests.len());
    lemma_blitted_byte(
        before.data,
        before.width as int,
        before.height as int,
        pixel as int,
        source.data,
        slots[i],
        cx,
        cy,
        b,
    );
    assert forall|j: int| i + 1 <= j < requests.len() implies !(#[trigger] slots[j]).covers(
        cx,
        cy,
    ) by {
        assert(apart(slots[i], slots[j]));
    }
    lemma_later_pastes_keep(
        blank,
        sources,
        requests,
        slots,
        pixel,
        (i + 1) as nat,
        requests.len(),
        cx,
        cy,
        b,
    );
}

/// Bytes outside every slot stay zero: after all requests are pasted on a
/// blank page, byte `b` of a pixel of the page that no slot covers is 0.
pub proof fn law_bytes_outside_stay_zero(
    sources: Map<HandleId, ImageView>,
    requests: Seq<PendingRequest>,
    slots: Seq<Placement>,
    size: Extent,
    format: TextureFormat,
    cx: int,
    cy: int,
    b: int,
)
    requires
        slots.len() == requests.len(),
        pixel_size_of(format) is Some,
        0 <= cx < size.width,
        0 <= cy < size.height,
        0 <= b < pixel_size_of(format).unwrap(),
        forall|j: int| 0 <= j < slots.len() ==> !(#[trigger] slots[j]).covers(cx, cy),
    ensures
        painted(
            blank_page(size, format, pixel_size_of(format).unwrap()),
            sources,
            requests,
            slots,
            requests.len(),
        ).byte(pixel_size_of(format).unwrap(), cx, cy, b) == 0,
{
    let pixel = pixel_size_of(format).unwrap();
    let blank = blank_page(size, format, pixel);
    lemma_later_pastes_keep(blank, sources, requests, slots, pixel, 0, requests.len(), cx, cy, b);
    lemma_byte_at(size.width as int, size.height as int, pixel as int, cx, cy, b);
}

/// Pixel round trip through a built atlas: where the store held, for request
/// `i`, an image that is pasted, the page, as the store holds it after the
/// build, has at each pixel of region `i` the bytes of the source's pixel in
/// the same column and row of the rectangle.
pub proof fn law_atlas_reads_back(
    builder: TextureAtlasBuilder,
    atlas: TextureAtlas,
    before: Map<HandleId, ImageView>,
    after: Map<HandleId, ImageView>,
    i: int,
    cx: int,
    cy: int,
    b: int,
)
    requires
        builder.built(atlas, before, after),
        pixel_size_of(builder.format) is Some,
        0 <= i < builder.rects_to_place@.len(),
        request_source(before, builder.rects_to_place@[i], builder.format) is Some,
        atlas.regions@[i].rect.holds(cx, cy),
        0 <= b < pixel_size_of(builder.format).unwrap(),
    ensures
        ({
            let pixel = pixel_size_of(builder.format).unwrap();
            let rect = atlas.regions@[i].rect;
            let page = after[atlas.pages@[atlas.regions@[i].page_index as int]];
            let source = request_source(
                before,
                builder.rects_to_place@[i],
                builder.format,
            ).unwrap();
            page.byte(pixel, cx, cy, b) == source.byte(pixel, cx - rect.min_x, cy - rect.min_y, b)
        }),
{
    let k = builder.built_at(atlas, before, after);
    let slots = arranged(builder.layout_at(k).unwrap(), builder.rects_to_place@.len());
    let size = builder.attempt(k);
    assert(slots[i].inside(size));
    law_pixels_read_back(
        before,
        builder.rects_to_place@,
        slots,
        size,
        builder.format,
        i,
        cx,
        cy,
        b,
    );
}

/// Bytes of the page outside every region are zero after the build.
pub proof fn law_atlas_blank_outside(
    builder: TextureAtlasBuilder,
    atlas: TextureAtlas,
    before: Map<HandleId, ImageView>,
    after: Map<HandleId, ImageView>,
    cx: int,
    cy: int,
    b: int,
)
    requires
        builder.built(atlas, before, after),
        pixel_size_of(builder.format) is Some,
        0 <= cx < after[atlas.pages@[0]].width,
        0 <= cy < after[atlas.pages@[0]].height,
        0 <= b < pixel_size_of(builder.format).unwrap(),
        forall|i: int|
            0 <= i < atlas.regions@.len() ==> !(#[trigger] atlas.regions@[i]).rect.holds(cx, cy),
    ensures
        after[atlas.pages@[0]].byte(pixel_size_of(builder.format).unwrap(), cx, cy, b) == 0,
{
    let k = builder.built_at(atlas, before, after);
    let count = builder.rects_to_place@.len();
    let slots = arranged(builder.layout_at(k).unwrap(), count);
    let size = builder.attempt(k);
    let pixel = pixel_size_of(builder.format).unwrap();
    lemma_painted_extent(
        blank_page(size, builder.format, pixel),
        before,
        builder.rects_to_place@,
        slots,
        count,
    );
    assert forall|j: int| 0 <= j < slots.len() implies !(#[trigger] slots[j]).covers(cx, cy) by {
        assert(slots[j].inside(size));
        assert(!atlas.regions@[j].rect.holds(cx, cy));
    }
    law_bytes_outside_stay_zero(
        before,
        builder.rects_to_place@,
        slots,
        size,
        builder.format,
        cx,
        cy,
        b,
    );
}

} // verus!
