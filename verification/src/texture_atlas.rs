//! The finished atlas: its pages, the region of every packed image, and the
//! way from an image's identity to its region.

use vstd::prelude::*;
use bevy_asset::HandleId;
use bevy_utils::HashMap;
use crate::geometry::{Placement, Rect};

verus! {

/// The hash map of `bevy_utils` from an image's identity to the index of its
/// region.
#[verifier::external_body]
#[derive(Debug)]
pub struct IndexTable {
    inner: HashMap<HandleId, usize>,
}

/// The entries of a table.
pub uninterp spec fn table_entries(table: IndexTable) -> Map<HandleId, usize>;

/// `HashMap::default`: a table without entries.
#[verifier::external_body]
pub(crate) fn new_table() -> (table: IndexTable)
    ensures
        table_entries(table) == (Map::<HandleId, usize>::empty()),
{
    IndexTable { inner: HashMap::default() }
}

/// `HashMap::insert`: the entry for `id` is `index` afterwards, whether or
/// not there was one before; the other entries stay.
#[verifier::external_body]
pub(crate) fn table_insert(table: &mut IndexTable, id: HandleId, index: usize)
    ensures
        table_entries(*final(table)) == table_entries(*old(table)).insert(id, index),
{
    table.inner.insert(id, index);
}

/// `HashMap::get`, copied: the index entered for `id`, if there is an entry.
#[verifier::external_body]
pub(crate) fn table_get(table: &IndexTable, id: &HandleId) -> (index: Option<usize>)
    ensures
        index == (if table_entries(*table).contains_key(*id) {
            Some(table_entries(*table)[*id])
        } else {
            None
        }),
{
    table.inner.get(id).copied()
}

/// The page and the rectangle in it that one packed image occupies.
#[derive(Clone, Copy, Debug, PartialEq, Eq, Structural)]
pub struct AtlasRegion {
    pub page_index: usize,
    pub rect: Rect,
}

impl Default for AtlasRegion {
    fn default() -> (region: AtlasRegion)
        ensures
            region == (AtlasRegion {
                page_index: 0,
                rect: Rect { min_x: 0, min_y: 0, max_x: 0, max_y: 0 },
            }),
    {
        AtlasRegion { page_index: 0, rect: Rect { min_x: 0, min_y: 0, max_x: 0, max_y: 0 } }
    }
}

/// The region that a placement becomes.
pub open spec fn region_of(at: Placement) -> AtlasRegion {
    AtlasRegion { page_index: at.page_index, rect: at.rect() }
}

/// Pages, regions, and the mapping from identities to region indices.
#[derive(Debug)]
pub struct TextureAtlas {
    pub pages: Vec<HandleId>,
    pub regions: Vec<AtlasRegion>,
    pub mappings: IndexTable,
}

impl TextureAtlas {
    /// Every mapped index is the index of a region, and every region lies on
    /// one of the pages.
    pub open spec fn well_formed(&self) -> bool {
        &&& forall|id: HandleId| #[trigger]
            table_entries(self.mappings).contains_key(id) ==> table_entries(self.mappings)[id]
                < self.regions@.len()
        &&& forall|i: int|
            0 <= i < self.regions@.len() ==> (#[trigger] self.regions@[i]).page_index
                < self.pages@.len()
    }

    /// The region at `index`, if there is one.
    pub fn get_region(&self, index: usize) -> (region: Option<AtlasRegion>)
        ensures
            region == (if index < self.regions@.len() {
                Some(self.regions@[index as int])
            } else {
                None
            }),
    {
        if index >= self.regions.len() {
            None
        } else {
            Some(self.regions[index])
        }
    }

    /// The index of the region of the image with identity `key`, if the atlas
    /// holds that image.
    pub fn get_texture_index(&self, key: &HandleId) -> (index: Option<usize>)
        ensures
            index == (if table_entries(self.mappings).contains_key(*key) {
                Some(table_entries(self.mappings)[*key])
            } else {
                None
            }),
            self.well_formed() && index is Some ==> index.unwrap() < self.regions@.len(),
    {
        table_get(&self.mappings, key)
    }
}

} // verus!
