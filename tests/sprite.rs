use beetle_wander::sprite::{place_pixel, sprite_pixels};

#[test]
fn sprite_is_centred_on_coordinate() {
    let bitmap = vec![(0u8, 0u8), (16, 16), (31, 31), (3, 30)];
    let px = sprite_pixels(&bitmap, 20, 40);
    assert_eq!(px, vec![(4, 24), (20, 40), (35, 55), (7, 54)]);
}

#[test]
fn empty_bitmap_sets_nothing() {
    assert!(sprite_pixels(&Vec::new(), 16, 16).is_empty());
}

#[test]
fn pixels_off_screen_are_kept_for_the_driver_to_clip() {
    let px = sprite_pixels(&vec![(0, 0), (31, 0)], 0, 0);
    assert_eq!(px, vec![(-16, -16), (15, -16)]);
}

#[test]
fn single_pixel_placement() {
    assert_eq!(place_pixel(16, 16, 0, 0), (0, 0));
    assert_eq!(place_pixel(100, 30, 31, 5), (115, 19));
}
