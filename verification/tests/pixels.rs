use bevy_app::App;
use bevy_asset::{AddAsset, AssetPlugin, Assets, Handle, HandleId};
use bevy_render::render_resource::{Extent3d, TextureDimension, TextureFormat};
use bevy_render::texture::Image as StoredImage;
use bevy_sprite_alt::{Extent, Image, ImageStore, Placement, TextureAtlasBuilder};

fn store_app() -> App {
    let mut app = App::new();
    app.add_plugin(AssetPlugin);
    app.add_asset::<StoredImage>();
    app
}

fn stored(width: u32, height: u32, format: TextureFormat, data: Vec<u8>) -> StoredImage {
    StoredImage::new(
        Extent3d { width, height, depth_or_array_layers: 1 },
        TextureDimension::D2,
        data,
        format,
    )
}

fn counting(width: u32, height: u32, pixel: usize, seed: u8) -> Vec<u8> {
    let len = width as usize * height as usize * pixel;
    (0..len).map(|i| seed.wrapping_add((i % 253) as u8)).collect()
}

fn request(
    builder: &mut TextureAtlasBuilder,
    textures: &mut Assets<StoredImage>,
    image: StoredImage,
) -> HandleId {
    let header = Image {
        width: image.texture_descriptor.size.width,
        height: image.texture_descriptor.size.height,
        format: image.texture_descriptor.format,
        data: image.data.clone(),
    };
    let id = textures.add(image).id;
    builder.add(id, &header);
    id
}

fn blank(width: u32, height: u32, format: TextureFormat, pixel: usize) -> Image {
    Image { width, height, format, data: vec![0; width as usize * height as usize * pixel] }
}

#[test]
fn rows_go_to_their_offsets_in_the_page() {
    let mut page = blank(4, 3, TextureFormat::Rgba8UnormSrgb, 4);
    let texture = Image {
        width: 2,
        height: 2,
        format: TextureFormat::Rgba8UnormSrgb,
        data: (1..=16).collect(),
    };
    TextureAtlasBuilder::copy_texture_impl(&mut page, &texture, &Placement::new(0, 0, 1, 1, 2, 2));
    let mut expected = vec![0u8; 48];
    // row r of the source starts at ((y + r) * page width + x) * pixel size
    expected[20..28].copy_from_slice(&[1, 2, 3, 4, 5, 6, 7, 8]);
    expected[36..44].copy_from_slice(&[9, 10, 11, 12, 13, 14, 15, 16]);
    assert_eq!(page.data, expected);
    assert_eq!((page.width, page.height), (4, 3));
}

#[test]
fn a_second_copy_leaves_the_first_alone() {
    let mut page = blank(3, 1, TextureFormat::R8Unorm, 1);
    let left = Image { width: 1, height: 1, format: TextureFormat::R8Unorm, data: vec![7] };
    let right = Image { width: 1, height: 1, format: TextureFormat::R8Unorm, data: vec![9] };
    TextureAtlasBuilder::copy_texture_impl(&mut page, &left, &Placement::new(0, 0, 0, 0, 1, 1));
    TextureAtlasBuilder::copy_texture_impl(&mut page, &right, &Placement::new(1, 0, 2, 0, 1, 1));
    assert_eq!(page.data, vec![7, 0, 9]);
}

#[test]
fn an_empty_rectangle_copies_nothing() {
    let mut page = blank(2, 2, TextureFormat::Rg8Unorm, 2);
    let none = Image { width: 0, height: 0, format: TextureFormat::Rg8Unorm, data: Vec::new() };
    TextureAtlasBuilder::copy_texture_impl(&mut page, &none, &Placement::new(0, 0, 2, 2, 0, 0));
    assert_eq!(page.data, vec![0u8; 8]);
    let flat = Image { width: 2, height: 0, format: TextureFormat::Rg8Unorm, data: Vec::new() };
    TextureAtlasBuilder::copy_texture_impl(&mut page, &flat, &Placement::new(0, 0, 0, 1, 2, 0));
    assert_eq!(page.data, vec![0u8; 8]);
}

#[test]
fn same_format_is_copied_as_it_is() {
    let mut page = blank(2, 2, TextureFormat::Rgba8UnormSrgb, 4);
    let texture = Image {
        width: 1,
        height: 2,
        format: TextureFormat::Rgba8UnormSrgb,
        data: vec![1, 2, 3, 4, 5, 6, 7, 8],
    };
    TextureAtlasBuilder::copy_texture(
        &mut page,
        &texture,
        TextureFormat::Rgba8UnormSrgb,
        &Placement::new(0, 0, 1, 0, 1, 2),
    );
    assert_eq!(page.data, vec![0, 0, 0, 0, 1, 2, 3, 4, 0, 0, 0, 0, 5, 6, 7, 8]);
}

#[test]
fn another_format_is_converted_before_the_copy() {
    let mut page = blank(2, 1, TextureFormat::Rgba8UnormSrgb, 4);
    let grey = Image { width: 2, height: 1, format: TextureFormat::R8Unorm, data: vec![40, 200] };
    TextureAtlasBuilder::copy_texture(
        &mut page,
        &grey,
        TextureFormat::Rgba8UnormSrgb,
        &Placement::new(0, 0, 0, 0, 2, 1),
    );
    assert_eq!(page.data, vec![40, 40, 40, 255, 200, 200, 200, 255]);
}

#[test]
fn an_unsupported_conversion_leaves_the_page_blank() {
    let mut page = blank(2, 1, TextureFormat::Rgba8UnormSrgb, 4);
    let linear = Image {
        width: 2,
        height: 1,
        format: TextureFormat::Rgba8Unorm,
        data: vec![1, 2, 3, 4, 5, 6, 7, 8],
    };
    TextureAtlasBuilder::copy_texture(
        &mut page,
        &linear,
        TextureFormat::Rgba8UnormSrgb,
        &Placement::new(0, 0, 0, 0, 2, 1),
    );
    assert_eq!(page.data, vec![0u8; 8]);
}

#[test]
fn a_conversion_to_another_format_than_the_page_has_is_not_copied() {
    // converting to one channel still gives four bytes per pixel
    let mut page = blank(2, 1, TextureFormat::R8Unorm, 1);
    let colour = Image {
        width: 2,
        height: 1,
        format: TextureFormat::Rgba8UnormSrgb,
        data: vec![10, 20, 30, 255, 40, 50, 60, 255],
    };
    TextureAtlasBuilder::copy_texture(
        &mut page,
        &colour,
        TextureFormat::R8Unorm,
        &Placement::new(0, 0, 0, 0, 2, 1),
    );
    assert_eq!(page.data, vec![0u8; 2]);
}

#[test]
fn an_image_of_another_size_than_its_rectangle_is_not_copied() {
    let mut page = blank(2, 2, TextureFormat::R8Unorm, 1);
    let texture =
        Image { width: 2, height: 2, format: TextureFormat::R8Unorm, data: vec![1, 2, 3, 4] };
    TextureAtlasBuilder::copy_texture(
        &mut page,
        &texture,
        TextureFormat::R8Unorm,
        &Placement::new(0, 0, 0, 0, 1, 1),
    );
    assert_eq!(page.data, vec![0u8; 4]);
}

#[test]
fn regions_read_back_their_sources_and_the_rest_is_zero() {
    let mut app = store_app();
    let mut textures = app.world.resource_mut::<Assets<StoredImage>>();
    let mut builder = TextureAtlasBuilder::default();
    builder.initial_size = Extent { width: 64, height: 64 };
    let sizes = [(20u32, 30u32), (7, 5), (33, 12), (1, 1)];
    let mut sources = Vec::new();
    for (n, (w, h)) in sizes.iter().enumerate() {
        let data = counting(*w, *h, 4, 1 + 50 * n as u8);
        sources.push(data.clone());
        request(&mut builder, &mut textures, stored(*w, *h, TextureFormat::Rgba8UnormSrgb, data));
    }
    let atlas = {
        let mut store = ImageStore { inner: &mut *textures };
        builder.finish(&mut store).unwrap()
    };
    let page = textures.get(&Handle::weak(atlas.pages[0])).unwrap();
    let page_width = page.texture_descriptor.size.width as usize;
    let page_height = page.texture_descriptor.size.height as usize;
    let mut expected = vec![0u8; page_width * page_height * 4];
    for (i, source) in sources.iter().enumerate() {
        let rect = atlas.get_region(i).unwrap().rect;
        let width = (rect.max_x - rect.min_x) as usize;
        for cy in rect.min_y as usize..rect.max_y as usize {
            for cx in rect.min_x as usize..rect.max_x as usize {
                for b in 0..4 {
                    let row = cy - rect.min_y as usize;
                    let from = (row * width + cx - rect.min_x as usize) * 4 + b;
                    let to = (cy * page_width + cx) * 4 + b;
                    assert_eq!(page.data[to], source[from]);
                    expected[to] = source[from];
                }
            }
        }
    }
    assert_eq!(page.data, expected);
}

#[test]
fn a_source_of_another_format_is_converted_into_the_page() {
    let mut app = store_app();
    let mut textures = app.world.resource_mut::<Assets<StoredImage>>();
    let mut builder = TextureAtlasBuilder::default();
    builder.initial_size = Extent { width: 2, height: 2 };
    request(&mut builder, &mut textures, stored(2, 2, TextureFormat::R8Unorm, vec![1, 2, 3, 4]));
    let atlas = {
        let mut store = ImageStore { inner: &mut *textures };
        builder.finish(&mut store).unwrap()
    };
    let page = textures.get(&Handle::weak(atlas.pages[0])).unwrap();
    assert_eq!(page.data, vec![1, 1, 1, 255, 2, 2, 2, 255, 3, 3, 3, 255, 4, 4, 4, 255]);
}

#[test]
fn a_source_that_cannot_be_converted_keeps_its_region_but_stays_blank() {
    let mut app = store_app();
    let mut textures = app.world.resource_mut::<Assets<StoredImage>>();
    let mut builder = TextureAtlasBuilder::default();
    builder.initial_size = Extent { width: 4, height: 4 };
    let strange =
        request(&mut builder, &mut textures, stored(2, 2, TextureFormat::Rgba8Unorm, vec![9; 16]));
    let atlas = {
        let mut store = ImageStore { inner: &mut *textures };
        builder.finish(&mut store).unwrap()
    };
    assert_eq!(atlas.get_texture_index(&strange), Some(0));
    let region = atlas.get_region(0).unwrap();
    assert_eq!(region.rect.max_x - region.rect.min_x, 2);
    assert_eq!(region.rect.max_y - region.rect.min_y, 2);
    let page = textures.get(&Handle::weak(atlas.pages[0])).unwrap();
    assert_eq!(page.data, vec![0u8; 4 * 4 * 4]);
}

#[test]
fn one_byte_pixels_on_a_page_that_grew_on_one_side_only() {
    let mut app = store_app();
    let mut textures = app.world.resource_mut::<Assets<StoredImage>>();
    let mut builder = TextureAtlasBuilder::default();
    builder.format = TextureFormat::R8Unorm;
    builder.initial_size = Extent { width: 5, height: 2 };
    builder.max_size = Extent { width: 7, height: 16 };
    let first = counting(3, 4, 1, 10);
    let second = counting(4, 3, 1, 100);
    request(&mut builder, &mut textures, stored(3, 4, TextureFormat::R8Unorm, first.clone()));
    request(&mut builder, &mut textures, stored(4, 3, TextureFormat::R8Unorm, second.clone()));
    let atlas = {
        let mut store = ImageStore { inner: &mut *textures };
        builder.finish(&mut store).unwrap()
    };
    let page = textures.get(&Handle::weak(atlas.pages[0])).unwrap();
    assert_eq!(page.texture_descriptor.size.width, 7);
    assert_eq!(page.texture_descriptor.size.height, 4);
    let mut expected = vec![0u8; 7 * 4];
    for (i, source) in [first, second].iter().enumerate() {
        let rect = atlas.get_region(i).unwrap().rect;
        let width = (rect.max_x - rect.min_x) as usize;
        for cy in rect.min_y as usize..rect.max_y as usize {
            for cx in rect.min_x as usize..rect.max_x as usize {
                expected[cy * 7 + cx] =
                    source[(cy - rect.min_y as usize) * width + cx - rect.min_x as usize];
            }
        }
    }
    assert_eq!(page.data, expected);
    assert_eq!(page.data.iter().filter(|byte| **byte != 0).count(), 24);
}

#[test]
fn eight_byte_pixels_are_copied_whole() {
    let mut app = store_app();
    let mut textures = app.world.resource_mut::<Assets<StoredImage>>();
    let mut builder = TextureAtlasBuilder::default();
    builder.format = TextureFormat::Rgba16Float;
    builder.initial_size = Extent { width: 2, height: 1 };
    let data = counting(2, 1, 8, 1);
    request(&mut builder, &mut textures, stored(2, 1, TextureFormat::Rgba16Float, data.clone()));
    let atlas = {
        let mut store = ImageStore { inner: &mut *textures };
        builder.finish(&mut store).unwrap()
    };
    let page = textures.get(&Handle::weak(atlas.pages[0])).unwrap();
    assert_eq!(page.data, data);
}

#[test]
fn an_image_without_pixels_gets_an_empty_region() {
    let mut app = store_app();
    let mut textures = app.world.resource_mut::<Assets<StoredImage>>();
    let mut builder = TextureAtlasBuilder::default();
    builder.initial_size = Extent { width: 2, height: 2 };
    let empty =
        request(&mut builder, &mut textures, stored(0, 0, TextureFormat::Rgba8UnormSrgb, vec![]));
    let full = request(
        &mut builder,
        &mut textures,
        stored(2, 2, TextureFormat::Rgba8UnormSrgb, counting(2, 2, 4, 1)),
    );
    let atlas = {
        let mut store = ImageStore { inner: &mut *textures };
        builder.finish(&mut store).unwrap()
    };
    assert_eq!(atlas.get_texture_index(&empty), Some(0));
    assert_eq!(atlas.get_texture_index(&full), Some(1));
    let region = atlas.get_region(0).unwrap();
    assert_eq!(region.rect.max_x, region.rect.min_x);
    assert_eq!(region.rect.max_y, region.rect.min_y);
    // the packer wants free room even for nothing: the page has to grow once
    let page = textures.get(&Handle::weak(atlas.pages[0])).unwrap();
    assert_eq!(page.texture_descriptor.size.width, 4);
    assert_eq!(page.texture_descriptor.size.height, 4);
    let rect = atlas.get_region(1).unwrap().rect;
    assert_eq!((rect.min_x, rect.min_y, rect.max_x, rect.max_y), (0, 0, 2, 2));
    let mut expected = vec![0u8; 4 * 4 * 4];
    expected[0..8].copy_from_slice(&[1, 2, 3, 4, 5, 6, 7, 8]);
    expected[16..24].copy_from_slice(&[9, 10, 11, 12, 13, 14, 15, 16]);
    assert_eq!(page.data, expected);
}

#[test]
fn an_image_that_changed_its_size_after_it_was_queued_is_left_out() {
    let mut app = store_app();
    let mut textures = app.world.resource_mut::<Assets<StoredImage>>();
    let mut builder = TextureAtlasBuilder::default();
    builder.initial_size = Extent { width: 4, height: 4 };
    let id = request(
        &mut builder,
        &mut textures,
        stored(2, 2, TextureFormat::Rgba8UnormSrgb, vec![7; 16]),
    );
    let _ = textures.set(id, stored(1, 1, TextureFormat::Rgba8UnormSrgb, vec![9; 4]));
    let atlas = {
        let mut store = ImageStore { inner: &mut *textures };
        builder.finish(&mut store).unwrap()
    };
    let region = atlas.get_region(0).unwrap();
    assert_eq!(region.rect.max_x - region.rect.min_x, 2);
    assert_eq!(region.rect.max_y - region.rect.min_y, 2);
    let page = textures.get(&Handle::weak(atlas.pages[0])).unwrap();
    assert_eq!(page.data, vec![0u8; 4 * 4 * 4]);
}
