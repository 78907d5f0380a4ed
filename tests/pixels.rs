use mozjpeg_rs::pixels::{expand_to_rgb, PixelLayout};

#[test]
fn rgb_is_copied() {
    assert_eq!(expand_to_rgb(&[1, 2, 3, 4, 5, 6], PixelLayout::Rgb), Some(vec![1, 2, 3, 4, 5, 6]));
}

#[test]
fn alpha_is_dropped() {
    assert_eq!(
        expand_to_rgb(&[1, 2, 3, 255, 4, 5, 6, 0], PixelLayout::Rgba),
        Some(vec![1, 2, 3, 4, 5, 6])
    );
}

#[test]
fn gray_is_repeated() {
    assert_eq!(expand_to_rgb(&[7, 9], PixelLayout::Grayscale), Some(vec![7, 7, 7, 9, 9, 9]));
    assert_eq!(
        expand_to_rgb(&[7, 100, 9, 200], PixelLayout::GrayscaleAlpha),
        Some(vec![7, 7, 7, 9, 9, 9])
    );
}

#[test]
fn other_layouts_are_refused_and_partial_pixels_ignored() {
    assert_eq!(expand_to_rgb(&[1, 2, 3], PixelLayout::Other), None);
    assert_eq!(expand_to_rgb(&[1, 2, 3, 4], PixelLayout::Rgb), Some(vec![1, 2, 3]));
    assert_eq!(expand_to_rgb(&[], PixelLayout::Rgba), Some(vec![]));
}
