use tinted_scheme_extractor::color::{rgb_to_hex, Color, PureColor, Rgb};

#[test]
fn color_test_get_distance() {
    let color1 = Rgb::new(255, 0, 0);
    let color2 = Rgb::new(0, 255, 0);

    // The distance is squared; its root is the Euclidean distance.
    assert_eq!((Color::get_distance(&color1, &color2) as f64).sqrt(), 360.62445840513925);
}

#[test]
fn test_get_inverse() {
    let color = Color::new(PureColor::Red, Rgb::new(255, 0, 0));
    let color = color.get_inverse();

    assert_eq!(color.associated_pure_color, PureColor::Cyan);
    assert_eq!(color.value, Rgb::new(0, 255, 255));
}

#[test]
fn test_to_hex() {
    let color = Color::new(PureColor::Red, Rgb::new(255, 0, 0));

    assert_eq!(color.to_hex(), "FF0000");
}

#[test]
fn main_test_get_distance() {
    let color1 = Rgb::new(255, 0, 0);
    let color2 = Rgb::new(0, 255, 0);

    let distance = Color::get_distance(&color1, &color2);

    assert_eq!(distance, (255 * 255 * 2) as u32);
}

#[test]
fn test_color_new() {
    let pure_color = PureColor::Red;
    let value = Rgb::new(255, 0, 0);

    let color = Color::new(pure_color, value);

    assert_eq!(color.associated_pure_color.get_rgb(), pure_color.get_rgb());
    assert_eq!(color.value, value);
    assert_eq!(color.distance, 0);
}

#[test]
fn test_color_get_inverse() {
    let color = Color::from(PureColor::Red);

    let inverse_color = color.get_inverse();

    assert_eq!(
        inverse_color.associated_pure_color.get_rgb(),
        PureColor::Cyan.get_rgb()
    );
    assert_eq!(inverse_color.value, Rgb::new(0, 255, 255));
}

const ALL: [PureColor; 12] = [
    PureColor::Red,
    PureColor::Yellow,
    PureColor::Orange,
    PureColor::Green,
    PureColor::Cyan,
    PureColor::Blue,
    PureColor::Purple,
    PureColor::Brown,
    PureColor::Magenta,
    PureColor::Azure,
    PureColor::SpringGreen,
    PureColor::LightCyan,
];

#[test]
fn distance_is_symmetric_and_zero_on_equal_colors() {
    let samples = [
        Rgb::new(0, 0, 0),
        Rgb::new(255, 255, 255),
        Rgb::new(12, 200, 99),
        Rgb::new(255, 0, 128),
    ];
    for a in samples {
        assert_eq!(Color::get_distance(&a, &a), 0);
        for b in samples {
            assert_eq!(Color::get_distance(&a, &b), Color::get_distance(&b, &a));
        }
    }
    assert_eq!(Color::get_distance(&Rgb::new(10, 20, 30), &Rgb::new(13, 16, 30)), 25);
}

#[test]
fn pure_color_inverse_is_an_involution() {
    for p in ALL {
        assert_eq!(p.get_inverse().get_inverse(), p);
        assert_ne!(p.get_inverse(), p);
    }
}

#[test]
fn color_inverse_twice_gives_the_color_back() {
    let c = Color::new(PureColor::Brown, Rgb::new(150, 60, 20));
    assert_eq!(c.get_inverse().get_inverse(), c);
    assert_eq!(c.get_inverse().associated_pure_color, PureColor::LightCyan);
    assert_eq!(c.get_inverse().value, Rgb::new(105, 195, 235));
    // Recomputed against the light cyan anchor (90, 213, 213).
    assert_eq!(c.get_inverse().distance, 15 * 15 + 18 * 18 + 22 * 22);
}

#[test]
fn red_hex_and_red_green_distance() {
    assert_eq!(Color::from(PureColor::Red).to_hex(), "FF0000");
    assert_eq!(
        Color::get_distance(&Rgb::new(255, 0, 0), &Rgb::new(0, 255, 0)),
        130050
    );
}

#[test]
fn inverse_of_pure_red_is_pure_cyan() {
    let inverse = Color::from(PureColor::Red).get_inverse();
    assert_eq!(inverse.associated_pure_color, PureColor::Cyan);
    assert_eq!(inverse.value, Rgb::new(0, 255, 255));
    assert_eq!(inverse.distance, 0);
}

#[test]
fn hex_is_upper_case_and_zero_padded() {
    assert_eq!(rgb_to_hex(Rgb::new(0, 10, 171)), "000AAB");
    assert_eq!(rgb_to_hex(Rgb::new(255, 255, 255)), "FFFFFF");
}

#[test]
fn anchor_names_and_colors() {
    assert_eq!(PureColor::SpringGreen.as_str(), "spring_green");
    assert_eq!(PureColor::LightCyan.as_str(), "light_cyan");
    assert_eq!(PureColor::Azure.get_rgb(), Rgb::new(0, 90, 255));
    assert_eq!(Color::from(PureColor::Orange).distance, 0);
    assert_eq!(Color::new(PureColor::Purple, Rgb::new(128, 0, 130)).distance, 4);
}
