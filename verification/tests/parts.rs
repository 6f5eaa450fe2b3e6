use bevy_sprite_alt::growth::grow;
use bevy_sprite_alt::packer::arrange;
use bevy_sprite_alt::{
    AtlasRegion, Extent, Placement, Rect, TextureAtlasBuilder, TextureAtlasBuilderError,
};

#[test]
fn growth_doubles_both_sides() {
    let max = Extent { width: 2048, height: 2048 };
    assert_eq!(grow(Extent { width: 256, height: 256 }, max), Extent { width: 512, height: 512 });
    assert_eq!(grow(Extent { width: 1024, height: 1024 }, max), max);
    assert_eq!(grow(Extent { width: 1, height: 3 }, max), Extent { width: 2, height: 6 });
}

#[test]
fn growth_stops_at_the_maximum() {
    let max = Extent { width: 100, height: 40 };
    assert_eq!(grow(Extent { width: 60, height: 10 }, max), Extent { width: 100, height: 20 });
    assert_eq!(grow(Extent { width: 50, height: 20 }, max), Extent { width: 100, height: 40 });
    assert_eq!(grow(max, max), max);
    assert_eq!(grow(Extent { width: 500, height: 500 }, max), max);
}

#[test]
fn growth_does_not_overflow() {
    let max = Extent { width: u32::MAX, height: u32::MAX };
    assert_eq!(
        grow(Extent { width: u32::MAX - 1, height: 1 << 31 }, max),
        Extent { width: u32::MAX, height: u32::MAX }
    );
    assert_eq!(
        grow(Extent { width: (1 << 31) - 1, height: 0 }, max),
        Extent { width: u32::MAX - 1, height: 0 }
    );
}

#[test]
fn a_side_of_zero_stays_zero() {
    let max = Extent { width: 64, height: 64 };
    assert_eq!(grow(Extent { width: 0, height: 16 }, max), Extent { width: 0, height: 32 });
    assert_eq!(grow(Extent { width: 0, height: 64 }, max), Extent { width: 0, height: 64 });
}

#[test]
fn placements_are_ordered_by_request() {
    let placed = vec![
        Placement::new(2, 0, 20, 0, 1, 1),
        Placement::new(0, 0, 0, 0, 4, 4),
        Placement::new(1, 0, 10, 0, 2, 2),
    ];
    let slots = arrange(&placed, 3);
    assert_eq!(slots, vec![placed[1], placed[2], placed[0]]);
    assert_eq!(arrange(&Vec::new(), 0), Vec::new());
}

#[test]
fn a_placement_holds_its_fields() {
    let at = Placement::new(3, 1, 10, 20, 30, 40);
    assert_eq!((at.request, at.page_index), (3, 1));
    assert_eq!((at.x, at.y, at.width, at.height), (10, 20, 30, 40));
}

#[test]
fn the_default_builder_has_the_usual_bounds() {
    let builder = TextureAtlasBuilder::default();
    assert!(builder.rects_to_place.is_empty());
    assert_eq!(builder.initial_size, Extent { width: 256, height: 256 });
    assert_eq!(builder.max_size, Extent { width: 2048, height: 2048 });
    assert_eq!(builder.format, bevy_render::render_resource::TextureFormat::Rgba8UnormSrgb);
}

#[test]
fn the_default_region_is_empty() {
    let region = AtlasRegion::default();
    assert_eq!(region.page_index, 0);
    assert_eq!(region.rect, Rect { min_x: 0, min_y: 0, max_x: 0, max_y: 0 });
}

#[test]
fn the_error_says_what_went_wrong() {
    assert_eq!(
        TextureAtlasBuilderError::NotEnoughSpace.message(),
        "could not pack textures into an atlas within the given bounds"
    );
}
