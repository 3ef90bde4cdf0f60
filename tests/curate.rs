use tinted_scheme_extractor::color::{Color, PureColor, Rgb};
use tinted_scheme_extractor::Error;
use tinted_scheme_extractor::curate::{
    create_palette_with_color_thief_colors, create_palette_with_inverse_colors,
};

#[test]
fn inverse_curation_keeps_a_poor_direct_match_closer_than_its_inverse() {
    let direct = Color::new(PureColor::Red, Rgb::new(150, 0, 0)); // 105^2 = 11025
    let inverse = Color::new(PureColor::Red, Rgb::new(100, 0, 0)); // 155^2 = 24025
    let curated = create_palette_with_inverse_colors(&vec![direct], &vec![inverse]);
    assert_eq!(curated, vec![direct]);
}

#[test]
fn inverse_curation_prefers_the_inverse_for_a_good_direct_match() {
    let direct = Color::new(PureColor::Red, Rgb::new(200, 0, 0)); // 3025
    let inverse = Color::new(PureColor::Red, Rgb::new(100, 0, 0));
    let curated = create_palette_with_inverse_colors(&vec![direct], &vec![inverse]);
    assert_eq!(curated, vec![inverse]);
}

#[test]
fn inverse_curation_prefers_a_closer_inverse() {
    let direct = Color::new(PureColor::Red, Rgb::new(100, 0, 0));
    let inverse = Color::new(PureColor::Red, Rgb::new(150, 0, 0));
    let curated = create_palette_with_inverse_colors(&vec![direct], &vec![inverse]);
    assert_eq!(curated, vec![inverse]);
}

#[test]
fn inverse_curation_without_a_counterpart_keeps_the_direct_color() {
    let direct = Color::new(PureColor::Red, Rgb::new(200, 0, 0));
    let other = Color::new(PureColor::Blue, Rgb::new(0, 0, 200));
    let curated = create_palette_with_inverse_colors(&vec![direct], &vec![other]);
    assert_eq!(curated, vec![direct]);
}

fn red_green_blue() -> Vec<Color> {
    vec![
        Color::from(PureColor::Red),
        Color::from(PureColor::Green),
        Color::from(PureColor::Blue),
    ]
}

#[test]
fn reconciliation_takes_the_closest_dominant_color_per_anchor() {
    let dominant = vec![
        Rgb::new(245, 0, 0),
        Rgb::new(250, 0, 0),
        Rgb::new(0, 240, 0),
        Rgb::new(128, 128, 128),
    ];
    let result = create_palette_with_color_thief_colors(&red_green_blue(), &dominant).unwrap();
    assert_eq!(result.len(), 3);
    assert_eq!(result[0], Color::new(PureColor::Red, Rgb::new(250, 0, 0)));
    assert_eq!(result[0].distance, 25);
    assert_eq!(result[1], Color::new(PureColor::Green, Rgb::new(0, 240, 0)));
    // No dominant color matched blue.
    assert_eq!(result[2], Color::from(PureColor::Blue));
}

#[test]
fn reconciliation_keeps_the_earlier_dominant_color_on_a_tie() {
    let dominant = vec![Rgb::new(250, 0, 0), Rgb::new(255, 5, 0)];
    let result = create_palette_with_color_thief_colors(&red_green_blue(), &dominant).unwrap();
    assert_eq!(result[0].value, Rgb::new(250, 0, 0));
}

#[test]
fn reconciliation_matches_a_dominant_color_to_one_anchor_only() {
    // Closer to red (distance 20^2 * 2) than to yellow (235^2 + 20^2).
    let palette = vec![Color::from(PureColor::Yellow), Color::from(PureColor::Red)];
    let result = create_palette_with_color_thief_colors(&palette, &vec![Rgb::new(255, 20, 20)]).unwrap();
    assert_eq!(result[0], Color::from(PureColor::Yellow));
    assert_eq!(result[1].value, Rgb::new(255, 20, 20));
    assert_eq!(result[1].distance, 800);
}

#[test]
fn reconciliation_ignores_dominant_colors_too_far_from_every_anchor() {
    let result =
        create_palette_with_color_thief_colors(&red_green_blue(), &vec![Rgb::new(128, 128, 128)]).unwrap();
    assert_eq!(result, red_green_blue());
}

#[test]
fn reconciling_twice_changes_nothing() {
    let palette = vec![
        Color::new(PureColor::Red, Rgb::new(180, 40, 40)),
        Color::new(PureColor::Green, Rgb::new(30, 200, 30)),
        Color::new(PureColor::Blue, Rgb::new(10, 10, 90)),
    ];
    let dominant = vec![
        Rgb::new(240, 10, 0),
        Rgb::new(0, 230, 30),
        Rgb::new(20, 20, 240),
        Rgb::new(60, 60, 60),
    ];
    let once = create_palette_with_color_thief_colors(&palette, &dominant).unwrap();
    let twice = create_palette_with_color_thief_colors(&once, &dominant).unwrap();
    assert_eq!(once, twice);
    assert_ne!(once, palette);
}

#[test]
fn reconciliation_without_dominant_colors_is_no_colors() {
    let result = create_palette_with_color_thief_colors(&red_green_blue(), &vec![]);
    assert!(matches!(result, Err(Error::NoColors(_))));
}
