use winassoc::icon::{finish_icon, is_fully_transparent, premultiply_rgba, unpremultiply_bgra};

#[test]
fn premultiplied_bgra_becomes_straight_rgba() {
    // blue 0x10, green 0x20, red 0x40 at alpha 0x80, then an opaque and a transparent pixel
    let mut px = vec![0x10, 0x20, 0x40, 0x80, 1, 2, 3, 255, 9, 9, 9, 0];
    unpremultiply_bgra(&mut px);
    assert_eq!(px, vec![0x7F, 0x3F, 0x1F, 0x80, 3, 2, 1, 255, 9, 9, 9, 0]);
}

#[test]
fn straight_rgba_is_premultiplied_again() {
    let mut px = vec![255, 128, 0, 128, 10, 20, 30, 255];
    premultiply_rgba(&mut px);
    assert_eq!(px, vec![128, 64, 0, 128, 10, 20, 30, 255]);
}

#[test]
fn transparent_icons_are_refused() {
    assert!(is_fully_transparent(&vec![1, 2, 3, 0, 4, 5, 6, 0]));
    assert!(finish_icon(vec![1, 2, 3, 0], 1).is_none());
    let img = finish_icon(vec![0, 0, 255, 255], 1).unwrap();
    assert_eq!((img.width, img.height), (1, 1));
    assert_eq!(img.pixels, vec![255, 0, 0, 255]);
}
