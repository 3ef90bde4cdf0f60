use image::RgbaImage;
use tinted_scheme_extractor::color::{PureColor, Rgb};
use tinted_scheme_extractor::scan::find_closest_palette;

fn red_green_image() -> Vec<u8> {
    let img = RgbaImage::from_fn(100, 100, |x, _y| {
        if x < 50 {
            image::Rgba([255, 0, 0, 255]) // Red
        } else {
            image::Rgba([0, 255, 0, 255]) // Green
        }
    });
    img.into_raw()
}

#[test]
fn test_find_closest_palette() {
    let closest_palette = find_closest_palette(&red_green_image());

    assert_eq!(closest_palette.len(), 12);
}

#[test]
fn scan_finds_exact_red_and_green() {
    let palette = find_closest_palette(&red_green_image());
    assert_eq!(palette[0].associated_pure_color, PureColor::Red);
    assert_eq!(palette[0].value, Rgb::new(255, 0, 0));
    assert_eq!(palette[0].distance, 0);
    assert_eq!(palette[3].associated_pure_color, PureColor::Green);
    assert_eq!(palette[3].value, Rgb::new(0, 255, 0));
    assert_eq!(palette[3].distance, 0);
    // Cyan (0, 255, 255) is nearer to green than to red.
    assert_eq!(palette[4].value, Rgb::new(0, 255, 0));
    assert_eq!(palette[4].distance, 255 * 255);
}

#[test]
fn scan_breaks_ties_by_scan_order() {
    // Two pixels equally far from red: the first one wins.
    let pixels = vec![255, 10, 0, 255, 255, 0, 10, 255];
    let palette = find_closest_palette(&pixels);
    assert_eq!(palette[0].value, Rgb::new(255, 10, 0));
    assert_eq!(palette[0].distance, 100);
}

#[test]
fn scan_of_no_pixels_keeps_the_anchors() {
    let palette = find_closest_palette(&vec![1, 2, 3]);
    assert_eq!(palette.len(), 12);
    assert_eq!(palette[7].associated_pure_color, PureColor::Brown);
    assert_eq!(palette[7].value, Rgb::new(165, 42, 42));
    assert_eq!(palette[7].distance, 0);
}

#[test]
fn scan_ignores_alpha() {
    let pixels = vec![250, 0, 0, 0, 0, 0, 250, 7];
    let palette = find_closest_palette(&pixels);
    assert_eq!(palette[0].value, Rgb::new(250, 0, 0));
    assert_eq!(palette[5].value, Rgb::new(0, 0, 250));
    assert_eq!(palette[5].distance, 25);
}
