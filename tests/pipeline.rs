use image::RgbaImage;
use tinted_scheme_extractor::color::{PureColor, Rgb};
use tinted_scheme_extractor::curate::{curate_image_palette, MAX_COLOR_DISTANCE};
use tinted_scheme_extractor::quantize::MAX_PIXEL_BYTES;
use tinted_scheme_extractor::scan::find_closest_palette;
use tinted_scheme_extractor::scheme::{create_scheme, Accent, SchemeParams};
use tinted_scheme_extractor::{Error, SchemeSystem, SchemeVariant};

fn red_green_image() -> Vec<u8> {
    RgbaImage::from_fn(100, 100, |x, _y| {
        if x < 50 {
            image::Rgba([255, 0, 0, 255])
        } else {
            image::Rgba([0, 255, 0, 255])
        }
    })
    .into_raw()
}

fn params(system: SchemeSystem) -> SchemeParams {
    SchemeParams {
        author: "someone".to_string(),
        description: Some("red and green".to_string()),
        name: "Halves".to_string(),
        slug: "halves".to_string(),
        system,
        variant: SchemeVariant::Dark,
    }
}

#[test]
fn half_red_half_green_image() {
    let pixels = red_green_image();
    let scanned = find_closest_palette(&pixels);
    let red = scanned.iter().find(|c| c.associated_pure_color == PureColor::Red).unwrap();
    let green = scanned.iter().find(|c| c.associated_pure_color == PureColor::Green).unwrap();
    assert_eq!(red.distance, 0);
    assert_eq!(green.distance, 0);

    let curated = curate_image_palette(&pixels).unwrap();
    assert!(!curated.dominant.is_empty());
    assert!(curated.dominant.len() <= 15);
    assert_eq!(curated.palette.len(), 12);
    let red = curated.palette.iter().find(|c| c.associated_pure_color == PureColor::Red).unwrap();
    let green =
        curated.palette.iter().find(|c| c.associated_pure_color == PureColor::Green).unwrap();
    // Both come from dominant colors of the image.
    assert!(red.distance < MAX_COLOR_DISTANCE);
    assert!(green.distance < MAX_COLOR_DISTANCE);
    assert!(curated.dominant.contains(&red.value));
    assert!(curated.dominant.contains(&green.value));

    let accents: Vec<Accent> = curated
        .palette
        .iter()
        .map(|c| Accent { hue: c.associated_pure_color, value: c.value, muted: c.value })
        .collect();
    for system in [SchemeSystem::Base16, SchemeSystem::Base24] {
        let scheme =
            create_scheme(params(system), Rgb::new(0, 0, 0), Rgb::new(255, 255, 255), &accents)
                .unwrap();
        assert_eq!(scheme.palette.get(8), Some(red.value));
        assert_eq!(scheme.palette.get(11), Some(green.value));
        assert_eq!(scheme.palette.get(16).is_some(), system == SchemeSystem::Base24);
    }
    let refused =
        create_scheme(params(SchemeSystem::Tinted8), Rgb::new(0, 0, 0), Rgb::new(9, 9, 9), &accents);
    assert!(matches!(refused, Err(Error::UnsupportedSchemeVariant(_))));
}

#[test]
fn dominant_colors_are_close_to_the_image_colors() {
    let curated = curate_image_palette(&red_green_image()).unwrap();
    let near = |target: Rgb| {
        curated.dominant.iter().any(|c| {
            let dr = c.red as i32 - target.red as i32;
            let dg = c.green as i32 - target.green as i32;
            let db = c.blue as i32 - target.blue as i32;
            dr * dr + dg * dg + db * db < 100
        })
    };
    assert!(near(Rgb::new(255, 0, 0)));
    assert!(near(Rgb::new(0, 255, 0)));
}

#[test]
fn an_image_too_large_for_the_quantizer_is_refused() {
    let pixels = vec![255u8; MAX_PIXEL_BYTES + 4];
    assert!(matches!(curate_image_palette(&pixels), Err(Error::Other(_))));
}
