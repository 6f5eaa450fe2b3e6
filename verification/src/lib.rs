//! Packs independently sized images into one atlas page and records, for each
//! image, the pixel rectangle it occupies.
//!
//! A [`TextureAtlasBuilder`] queues images by identity and size. Its `finish`
//! asks the rectangle packer for a layout on a page of the initial size and
//! doubles the page, up to the maximum size, until the packer finds one. It
//! then allocates the page, pastes every image at its place, converting it
//! to the page's format where it has another, puts the page into the image
//! store and returns the [`TextureAtlas`].
//!
//! The packer (`rectangle_pack`), the pixel formats and the conversion
//! (`bevy_render`), the image store (`bevy_asset`) and the hash map of the
//! mapping (`bevy_utils`) are outside code. Each is reached through a few
//! small functions whose contracts are stated without proof, in the modules
//! `packer`, `format`, `image`, `store` and `texture_atlas`. Everything else
//! is proved against those contracts; `laws` holds what follows for every
//! atlas.

pub mod area;
pub mod blit;
pub mod format;
pub mod geometry;
pub mod growth;
pub mod image;
pub mod laws;
pub mod model;
pub mod packer;
pub mod store;
pub mod texture_atlas;
pub mod texture_atlas_builder;

pub use geometry::{Extent, Placement, Rect};
pub use image::Image;
pub use store::ImageStore;
pub use texture_atlas::{AtlasRegion, IndexTable, TextureAtlas};
pub use texture_atlas_builder::{
    PendingRequest, TextureAtlasBuilder, TextureAtlasBuilderError, TextureAtlasBuilderResult,
};
