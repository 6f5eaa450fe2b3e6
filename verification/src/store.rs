//! The image store that source images are read from and finished pages are
//! put into: `bevy_asset`'s `Assets` of images, behind the two calls the
//! builder makes.

use vstd::prelude::*;
use bevy_asset::{Assets, Handle, HandleId};
use bevy_render::render_resource::{Extent3d, TextureDimension};
use crate::format::pixel_size_of;
use crate::image::{Image, ImageView};

verus! {

/// `bevy_asset::HandleId`, the identity of an image. Nothing is known of a
/// value but that it can be compared with another.
#[verifier::external_type_specification]
#[verifier::external_body]
pub struct ExHandleId(HandleId);

/// Exclusive access to the `Assets` collection of images, for as long as an
/// atlas is built from it. Who owns the collection lends it by writing the
/// field.
#[verifier::external_body]
pub struct ImageStore<'a> {
    pub inner: &'a mut Assets<bevy_render::texture::Image>,
}

/// The images a store holds, by identity, each as the library reads it: its
/// width, height, format and data.
pub uninterp spec fn stored_images(store: ImageStore) -> Map<HandleId, ImageView>;

/// The asset server that the store belongs to is alive, so that the store
/// can hand out the strong handle of a new image. Nothing the library does
/// ends that.
pub uninterp spec fn store_open(store: ImageStore) -> bool;

/// `Assets::get` with a weak handle of the given identity: a copy of the
/// image stored under it, if there is one.
#[verifier::external_body]
pub(crate) fn stored_image(store: &ImageStore, id: HandleId) -> (found: Option<Image>)
    ensures
        found matches Some(image) ==> stored_images(*store).contains_key(id) && stored_images(
            *store,
        )[id] == image@,
        found is None ==> !stored_images(*store).contains_key(id),
{
    store.inner.get(&Handle::weak(id)).map(
        |texture|
            Image {
                width: texture.texture_descriptor.size.width,
                height: texture.texture_descriptor.size.height,
                format: texture.texture_descriptor.format,
                data: texture.data.clone(),
            },
    )
}

/// `Assets::add` of an `Image::new` with the given data, extent and format,
/// of dimension `D2` and depth 1. The store then holds the image under the
/// identity that comes back, which `Assets` draws at random; everything else
/// in the store is as before, but for what was stored under that very
/// identity. `Image::new` panics where data, extent and format do not
/// match, and `Assets::add` where the asset server is gone; `requires`
/// leaves both out.
#[verifier::external_body]
pub(crate) fn store_image(store: &mut ImageStore, image: Image) -> (id: HandleId)
    requires
        store_open(*old(store)),
        image.width * image.height <= u32::MAX,
        pixel_size_of(image.format) is Some,
        image@.tight(pixel_size_of(image.format).unwrap()),
    ensures
        stored_images(*final(store)) == stored_images(*old(store)).insert(id, image@),
        store_open(*final(store)),
{
    let size = Extent3d { width: image.width, height: image.height, depth_or_array_layers: 1 };
    let page =
        bevy_render::texture::Image::new(size, TextureDimension::D2, image.data, image.format);
    store.inner.add(page).id
}

} // verus!
