//! The builder: it queues requests, asks the packer for a layout at growing
//! page sizes, and assembles the atlas from the layout it gets.

use vstd::prelude::*;
use bevy_asset::HandleId;
use bevy_render::render_resource::TextureFormat;
use rectangle_pack::GroupedRectsToPlace;
use crate::format::{default_format, pixel_size, pixel_size_of, same_format};
use crate::geometry::{apart, Extent, Placement, Rect};
use crate::growth::{attempt_size, grow, headroom, lemma_area_within, lemma_stalled, within};
use crate::blit::image_fits;
use crate::image::{blank_page, convert, Image, ImageView};
use crate::model::{
    index_upto, laid_out, lemma_requests_fit, painted, rect_map, request_source, requested_area,
};
use crate::packer::{
    arrange, arranged, new_queue, one_per_request, pack_queue, packed_layout, places, queue_rect,
    queued_rects, sound_layout,
};
use crate::store::{store_image, store_open, stored_image, stored_images, ImageStore};
use crate::texture_atlas::{
    new_table, region_of, table_entries, table_insert, AtlasRegion, TextureAtlas,
};

verus! {

/// Why no atlas was built.
#[derive(Clone, Copy, Debug, PartialEq, Eq, Structural)]
pub enum TextureAtlasBuilderError {
    /// The packer found no room for the requests at any page size up to the
    /// maximum.
    NotEnoughSpace,
}

impl TextureAtlasBuilderError {
    /// The error in words.
    pub fn message(&self) -> (text: String)
        ensures
            text@ == "could not pack textures into an atlas within the given bounds"@,
    {
        "could not pack textures into an atlas within the given bounds".to_owned()
    }
}

/// What `finish` returns.
pub type TextureAtlasBuilderResult = Result<TextureAtlas, TextureAtlasBuilderError>;

/// One image waiting to be packed: its identity and its size in pixels.
#[derive(Clone, Copy, Debug)]
pub struct PendingRequest {
    pub id: HandleId,
    pub width: u32,
    pub height: u32,
}

/// Collects the images to pack and the bounds of the search for a page size.
#[derive(Debug)]
pub struct TextureAtlasBuilder {
    pub rects_to_place: Vec<PendingRequest>,
    pub initial_size: Extent,
    pub max_size: Extent,
    pub format: TextureFormat,
}

impl Default for TextureAtlasBuilder {
    fn default() -> (builder: TextureAtlasBuilder)
        ensures
            builder.rects_to_place@.len() == 0,
            builder.initial_size == (Extent { width: 256, height: 256 }),
            builder.max_size == (Extent { width: 2048, height: 2048 }),
            pixel_size_of(builder.format) == Some(4nat),
    {
        TextureAtlasBuilder {
            rects_to_place: Vec::new(),
            initial_size: Extent { width: 256, height: 256 },
            max_size: Extent { width: 2048, height: 2048 },
            format: default_format(),
        }
    }
}

impl TextureAtlasBuilder {
    /// The rectangles handed to the packer, by request index.
    pub open spec fn rects(&self) -> Map<usize, (u32, u32)> {
        rect_map(self.rects_to_place@, self.rects_to_place@.len())
    }

    /// The pixel counts of all requests, added up.
    pub open spec fn requested(&self) -> int {
        requested_area(self.rects_to_place@, self.rects_to_place@.len())
    }

    /// The page size of attempt `k`.
    pub open spec fn attempt(&self, k: nat) -> Extent {
        attempt_size(self.initial_size, self.max_size, k)
    }

    /// The packer's answer at attempt `k`.
    pub open spec fn layout_at(&self, k: nat) -> Option<Set<Placement>> {
        packed_layout(self.rects(), seq![self.attempt(k)])
    }

    /// Attempt `k` is the first at which the packer finds a layout.
    pub open spec fn first_fit(&self, k: nat) -> bool {
        self.layout_at(k) is Some && forall|j: nat| j < k ==> self.layout_at(j) is None
    }

    /// A page of this size can be allocated and stored: its pixel count fits
    /// `u32` and its byte count `usize`.
    pub open spec fn page_allowed(&self, size: Extent) -> bool {
        &&& pixel_size_of(self.format) is Some
        &&& size.area() <= u32::MAX
        &&& size.area() * pixel_size_of(self.format).unwrap() <= usize::MAX
    }

    /// The store holds an image for every request, and those that need
    /// conversion are small enough to be converted.
    pub open spec fn sources_present(&self, images: Map<HandleId, ImageView>) -> bool {
        forall|i: int|
            0 <= i < self.rects_to_place@.len() ==> {
                let id = (#[trigger] self.rects_to_place@[i]).id;
                &&& images.contains_key(id)
                &&& images[id].format == self.format || 4 * images[id].data.len() <= u32::MAX
            }
    }

    /// The page of an atlas assembled from `layout` on a page of `size`, with
    /// source images `images`.
    pub open spec fn page_image(
        &self,
        images: Map<HandleId, ImageView>,
        layout: Set<Placement>,
        size: Extent,
    ) -> ImageView {
        painted(
            blank_page(size, self.format, pixel_size_of(self.format).unwrap()),
            images,
            self.rects_to_place@,
            arranged(layout, self.rects_to_place@.len()),
            self.rects_to_place@.len(),
        )
    }

    /// `atlas` is what is assembled from `layout` on one page of `size`, and
    /// `after` is the store `before` with that page added.
    pub open spec fn assembled(
        &self,
        atlas: TextureAtlas,
        before: Map<HandleId, ImageView>,
        after: Map<HandleId, ImageView>,
        layout: Set<Placement>,
        size: Extent,
    ) -> bool {
        let count = self.rects_to_place@.len();
        &&& laid_out(self.rects_to_place@, arranged(layout, count), size)
        &&& atlas.pages@.len() == 1
        &&& atlas.regions@ == Seq::new(count, |i: int| region_of(arranged(layout, count)[i]))
        &&& table_entries(atlas.mappings) == index_upto(self.rects_to_place@, count)
        &&& after == before.insert(atlas.pages@[0], self.page_image(before, layout, size))
    }

    /// `atlas` is assembled from the layout of the first attempt at which the
    /// packer finds one, on one page of that attempt's size.
    pub open spec fn built(
        &self,
        atlas: TextureAtlas,
        before: Map<HandleId, ImageView>,
        after: Map<HandleId, ImageView>,
    ) -> bool {
        exists|k: nat|
            self.first_fit(k) && #[trigger] self.assembled(
                atlas,
                before,
                after,
                self.layout_at(k).unwrap(),
                self.attempt(k),
            )
    }

    /// The attempt that a built atlas is assembled at.
    pub open spec fn built_at(
        &self,
        atlas: TextureAtlas,
        before: Map<HandleId, ImageView>,
        after: Map<HandleId, ImageView>,
    ) -> nat {
        choose|k: nat|
            self.first_fit(k) && #[trigger] self.assembled(
                atlas,
                before,
                after,
                self.layout_at(k).unwrap(),
                self.attempt(k),
            )
    }

    /// The packer finds no layout at any attempt.
    pub open spec fn never_fits(&self) -> bool {
        forall|k: nat| (#[trigger] self.layout_at(k)) is None
    }

    /// Queues a request for `texture` under the identity `handle`. Requests
    /// under one identity are all kept.
    pub fn add(&mut self, handle: HandleId, texture: &Image)
        ensures
            final(self).rects_to_place@ == old(self).rects_to_place@.push(
                PendingRequest { id: handle, width: texture.width, height: texture.height },
            ),
            final(self).initial_size == old(self).initial_size,
            final(self).max_size == old(self).max_size,
            final(self).format == old(self).format,
    {
        self.rects_to_place.push(
            PendingRequest { id: handle, width: texture.width, height: texture.height },
        );
    }

    /// The packer's queue of the requests, each under its index.
    fn queue(&self) -> (queue: GroupedRectsToPlace<usize, ()>)
        ensures
            queued_rects(queue) == self.rects(),
    {
        let mut queue = new_queue();
        let mut i: usize = 0;
        assert(queued_rects(queue) =~= rect_map(self.rects_to_place@, 0));
        while i < self.rects_to_place.len()
            invariant
                i <= self.rects_to_place.len(),
                queued_rects(queue) == rect_map(self.rects_to_place@, i as nat),
            decreases self.rects_to_place.len() - i,
        {
            let request = &self.rects_to_place[i];
            queue_rect(&mut queue, i, request.width, request.height);
            assert(queued_rects(queue) =~= rect_map(self.rects_to_place@, (i + 1) as nat));
            i += 1;
        }
        queue
    }

    /// Whether a page of `size` can be allocated and stored.
    fn page_fits(&self, size: Extent) -> (ok: bool)
        requires
            pixel_size_of(self.format) is Some,
        ensures
            ok == self.page_allowed(size),
    {
        let format_size = pixel_size(self.format);
        assert(size.width * size.height <= u64::MAX) by (nonlinear_arith)
            requires
                size.width <= u32::MAX,
                size.height <= u32::MAX,
        ;
        let area: u64 = size.width as u64 * size.height as u64;
        if area > u32::MAX as u64 {
            return false;
        }
        assert(area * format_size <= u128::MAX) by (nonlinear_arith)
            requires
                area <= u32::MAX,
                format_size <= u64::MAX,
        ;
        area as u128 * format_size as u128 <= usize::MAX as u128
    }

    /// Whether `finish` can go to work on this store: the pages of the
    /// initial and of the maximum size can be allocated, and the store holds
    /// an image for every request, small enough to be converted where it has
    /// another format than the page.
    pub fn ready(&self, textures: &ImageStore) -> (ok: bool)
        requires
            pixel_size_of(self.format) is Some,
        ensures
            ok == (self.page_allowed(self.initial_size) && self.page_allowed(self.max_size)
                && self.sources_present(stored_images(*textures))),
    {
        if !self.page_fits(self.initial_size) || !self.page_fits(self.max_size) {
            return false;
        }
        let mut i: usize = 0;
        while i < self.rects_to_place.len()
            invariant
                i <= self.rects_to_place.len(),
                forall|j: int|
                    0 <= j < i ==> {
                        let id = (#[trigger] self.rects_to_place@[j]).id;
                        &&& stored_images(*textures).contains_key(id)
                        &&& stored_images(*textures)[id].format == self.format || 4
                            * stored_images(*textures)[id].data.len() <= u32::MAX
                    },
            decreases self.rects_to_place.len() - i,
        {
            match stored_image(textures, self.rects_to_place[i].id) {
                Some(texture) => {
                    if !same_format(texture.format, self.format) && texture.data.len() > (u32::MAX
                        / 4) as usize {
                        return false;
                    }
                },
                None => {
                    return false;
                },
            }
            i += 1;
        }
        true
    }

    /// Whether the image of request `index` is pasted into the page when the
    /// atlas is built: the store holds an image for it that fits, as it is or
    /// converted. Where it does not, the region of the request stays blank,
    /// and whoever builds the atlas may want to say so.
    pub fn pastes(&self, textures: &ImageStore, index: usize) -> (ok: bool)
        requires
            index < self.rects_to_place@.len(),
            pixel_size_of(self.format) is Some,
            self.sources_present(stored_images(*textures)),
        ensures
            ok == (request_source(
                stored_images(*textures),
                self.rects_to_place@[index as int],
                self.format,
            ) is Some),
    {
        let request = &self.rects_to_place[index];
        let slot = Placement::new(index, 0, 0, 0, request.width, request.height);
        let texture = stored_image(textures, request.id).unwrap();
        if same_format(self.format, texture.format) {
            image_fits(&texture, self.format, &slot)
        } else {
            match convert(&texture, self.format) {
                Some(made) => image_fits(&made, self.format, &slot),
                None => false,
            }
        }
    }

    /// Assembles the atlas from a layout of the requests on one page of
    /// `size`: allocates the zeroed page, and for each request, in the order
    /// of the queue, enters its identity in the mapping, records its region
    /// and pastes its image into the page; then puts the page into the store.
    pub fn assemble(
        &self,
        placed: &Vec<Placement>,
        size: Extent,
        textures: &mut ImageStore,
    ) -> (atlas: TextureAtlas)
        requires
            sound_layout(self.rects(), seq![size], placed@),
            self.page_allowed(size),
            self.sources_present(stored_images(*old(textures))),
            store_open(*old(textures)),
        ensures
            store_open(*final(textures)),
            self.assembled(
                atlas,
                stored_images(*old(textures)),
                stored_images(*final(textures)),
                placed@.to_set(),
                size,
            ),
            atlas.well_formed(),
    {
        let count = self.rects_to_place.len();
        let ghost requests = self.rects_to_place@;
        let ghost images = stored_images(*textures);
        assert(one_per_request(placed@, count as nat)) by {
            assert forall|request: usize| request < count implies #[trigger] places(
                placed@,
                request,
            ) by {
                assert(self.rects().contains_key(request));
            }
        }
        let slots = arrange(placed, count);
        proof {
            assert forall|i: int| 0 <= i < count implies {
                let at = #[trigger] slots@[i];
                &&& at.page_index == 0
                &&& at.width == requests[i].width
                &&& at.height == requests[i].height
                &&& at.inside(size)
            } by {
                let at = slots@[i];
                let j = choose|j: int| 0 <= j < placed@.len() && placed@[j] == at;
                assert(placed@[j].page_index < 1);
                assert(seq![size][0] == size);
            }
            assert forall|i: int, j: int| 0 <= i < j < count implies apart(
                #[trigger] slots@[i],
                #[trigger] slots@[j],
            ) by {
                let a = choose|a: int| 0 <= a < placed@.len() && placed@[a] == slots@[i];
                let b = choose|b: int| 0 <= b < placed@.len() && placed@[b] == slots@[j];
                if a < b {
                    assert(apart(placed@[a], placed@[b]));
                } else {
                    assert(apart(placed@[b], placed@[a]));
                }
            }
            assert(laid_out(requests, slots@, size));
        }
        let format_size = pixel_size(self.format);
        let page_bytes = size.width as usize * size.height as usize * format_size;
        let mut page = Image {
            width: size.width,
            height: size.height,
            format: self.format,
            data: vec![0u8; page_bytes],
        };
        assert(page@ =~= blank_page(size, self.format, format_size as nat)) by {
            assert(page@.data =~= blank_page(size, self.format, format_size as nat).data);
        }
        let mut regions: Vec<AtlasRegion> = Vec::new();
        let mut mappings = new_table();
        let mut i: usize = 0;
        while i < count
            invariant
                i <= count,
                count == self.rects_to_place.len(),
                requests == self.rects_to_place@,
                images == stored_images(*textures),
                store_open(*textures),
                self.sources_present(images),
                pixel_size_of(self.format) == Some(format_size as nat),
                slots@ == arranged(placed@.to_set(), count as nat),
                laid_out(requests, slots@, size),
                page.format == self.format,
                page@.extent() == size,
                page@.tight(format_size as nat),
                page@ == painted(
                    blank_page(size, self.format, format_size as nat),
                    images,
                    requests,
                    slots@,
                    i as nat,
                ),
                regions@ == Seq::new(i as nat, |j: int| region_of(slots@[j])),
                table_entries(mappings) == index_upto(requests, i as nat),
                forall|id: HandleId| #[trigger]
                    table_entries(mappings).contains_key(id) ==> table_entries(mappings)[id] < i,
            decreases count - i,
        {
            let request = &self.rects_to_place[i];
            let at = slots[i];
            let texture = stored_image(textures, request.id).unwrap();
            table_insert(&mut mappings, request.id, regions.len());
            regions.push(
                AtlasRegion {
                    page_index: at.page_index,
                    rect: Rect {
                        min_x: at.x,
                        min_y: at.y,
                        max_x: at.x + at.width,
                        max_y: at.y + at.height,
                    },
                },
            );
            Self::copy_texture(&mut page, &texture, self.format, &at);
            assert(regions@ =~= Seq::new((i + 1) as nat, |j: int| region_of(slots@[j])));
            i += 1;
        }
        let mut pages: Vec<HandleId> = Vec::new();
        pages.push(store_image(textures, page));
        TextureAtlas { pages, regions, mappings }
    }

    /// Packs the queued requests and builds the atlas. Packing is attempted
    /// at the initial page size first; each time the packer finds no room,
    /// both sides of the page are doubled, each clamped to the maximum, and
    /// the attempt that first succeeds gives the layout. When a doubling
    /// changes nothing any more, because both sides are at the maximum or a
    /// side of zero cannot grow, and the packer still finds no room, there
    /// is not enough space, and the store is left untouched.
    ///
    /// The store has to hold an image for every request, and the pages of
    /// the initial and of the maximum size have to fit the machine: `ready`
    /// tells whether they do.
    pub fn finish(&self, textures: &mut ImageStore) -> (result: TextureAtlasBuilderResult)
        requires
            self.page_allowed(self.initial_size),
            self.page_allowed(self.max_size),
            self.sources_present(stored_images(*old(textures))),
            store_open(*old(textures)),
        ensures
            store_open(*final(textures)),
            result is Err <==> self.never_fits(),
            match result {
                Ok(atlas) => atlas.well_formed() && self.built(
                    atlas,
                    stored_images(*old(textures)),
                    stored_images(*final(textures)),
                ),
                Err(error) => error == TextureAtlasBuilderError::NotEnoughSpace && stored_images(
                    *final(textures),
                ) == stored_images(*old(textures)),
            },
            within(self.initial_size, self.max_size) && self.requested() > self.max_size.area()
                ==> result is Err,
    {
        let queue = self.queue();
        let mut current = self.initial_size;
        let ghost mut k: nat = 0;
        loop
            invariant
                current == self.attempt(k),
                forall|j: nat| j < k ==> (#[trigger] self.layout_at(j)) is None,
                queued_rects(queue) == self.rects(),
                k >= 1 ==> within(current, self.max_size),
                self.page_allowed(self.initial_size),
                self.page_allowed(self.max_size),
                self.sources_present(stored_images(*textures)),
                stored_images(*textures) == stored_images(*old(textures)),
                store_open(*textures),
            decreases (if k == 0 { 1int } else { 0int }), headroom(current, self.max_size),
        {
            let mut pages: Vec<Extent> = Vec::new();
            pages.push(current);
            assert(pages@ =~= seq![current]);
            match pack_queue(&queue, &pages) {
                Some(placed) => {
                    proof {
                        if within(current, self.max_size) {
                            lemma_area_within(current, self.max_size);
                        }
                    }
                    let atlas = self.assemble(&placed, current, textures);
                    proof {
                        assert(self.first_fit(k));
                        assert(self.assembled(
                            atlas,
                            stored_images(*old(textures)),
                            stored_images(*textures),
                            self.layout_at(k).unwrap(),
                            self.attempt(k),
                        ));
                        lemma_requests_fit(self.rects_to_place@, placed@.to_set(), current);
                    }
                    return Ok(atlas);
                },
                None => {
                    let next = grow(current, self.max_size);
                    if next == current {
                        proof {
                            assert forall|j: nat| (#[trigger] self.layout_at(j)) is None by {
                                if j >= k {
                                    lemma_stalled(self.initial_size, self.max_size, k, j);
                                }
                            }
                            assert(self.never_fits());
                        }
                        return Err(TextureAtlasBuilderError::NotEnoughSpace);
                    }
                    current = next;
                    proof {
                        k = k + 1;
                    }
                },
            }
        }
    }
}

} // verus!
