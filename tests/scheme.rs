use tinted_scheme_extractor::color::{rgb_to_hex, PureColor, Rgb};
use tinted_scheme_extractor::scheme::{
    assemble_palette, create_scheme, generate_gradient, interpolate_color, slot_name, Accent,
    SchemePalette, SchemeParams,
};
use tinted_scheme_extractor::{Error, SchemeSystem, SchemeVariant};

#[test]
fn gradient_from_black_to_white() {
    let steps = generate_gradient(Rgb::new(0, 0, 0), Rgb::new(255, 255, 255), 8);
    assert_eq!(steps.len(), 8);
    assert_eq!(format!("#{}", rgb_to_hex(steps[0])), "#000000");
    assert_eq!(format!("#{}", rgb_to_hex(steps[7])), "#FFFFFF");
    for i in 1..8 {
        assert!(steps[i - 1].red < steps[i].red);
        assert!(steps[i - 1].green < steps[i].green);
        assert!(steps[i - 1].blue < steps[i].blue);
    }
    let reds: Vec<u8> = steps.iter().map(|c| c.red).collect();
    assert_eq!(reds, vec![0, 36, 72, 109, 145, 182, 218, 255]);
}

#[test]
fn gradient_runs_downwards_too() {
    let steps = generate_gradient(Rgb::new(200, 100, 7), Rgb::new(60, 100, 0), 8);
    assert_eq!(steps[0], Rgb::new(200, 100, 7));
    assert_eq!(steps[7], Rgb::new(60, 100, 0));
    assert_eq!(steps[1], Rgb::new(180, 100, 6));
}

#[test]
fn gradient_edge_sizes() {
    assert!(generate_gradient(Rgb::new(1, 2, 3), Rgb::new(4, 5, 6), 0).is_empty());
    assert_eq!(
        generate_gradient(Rgb::new(1, 2, 3), Rgb::new(4, 5, 6), 1),
        vec![Rgb::new(1, 2, 3)]
    );
    assert_eq!(interpolate_color(Rgb::new(0, 0, 0), Rgb::new(10, 20, 30), 1, 2), Rgb::new(5, 10, 15));
}

#[test]
fn slot_names() {
    assert_eq!(slot_name(0), "base00");
    assert_eq!(slot_name(10), "base0A");
    assert_eq!(slot_name(15), "base0F");
    assert_eq!(slot_name(23), "base17");
}

#[test]
fn first_write_wins_on_a_slot() {
    let mut p = SchemePalette::new();
    assert_eq!(p.get(9), None);
    p.insert_if_absent(9, Rgb::new(1, 2, 3));
    p.insert_if_absent(9, Rgb::new(4, 5, 6));
    assert_eq!(p.get(9), Some(Rgb::new(1, 2, 3)));
    assert_eq!(p.slot_hex(9), Some("010203".to_string()));
    assert_eq!(p.slot_hex(10), None);
}

fn accent(hue: PureColor, v: u8) -> Accent {
    Accent { hue, value: Rgb::new(v, 0, 0), muted: Rgb::new(0, v, 0) }
}

#[test]
fn two_accents_for_one_slot_keep_the_first() {
    let accents = vec![
        accent(PureColor::Red, 10),
        accent(PureColor::Red, 20),
        accent(PureColor::Magenta, 30),
        accent(PureColor::Brown, 40),
    ];
    let p = assemble_palette(
        SchemeSystem::Base24,
        Rgb::new(0, 0, 0),
        Rgb::new(255, 255, 255),
        &accents,
    );
    assert_eq!(p.get(8), Some(Rgb::new(10, 0, 0)));
    assert_eq!(p.get(16), Some(Rgb::new(0, 10, 0)));
    assert_eq!(p.get(15), Some(Rgb::new(40, 0, 0)));
    assert_eq!(p.get(23), Some(Rgb::new(0, 40, 0)));
    assert_eq!(p.get(9), None);
    assert_eq!(p.get(0), Some(Rgb::new(0, 0, 0)));
    assert_eq!(p.get(7), Some(Rgb::new(255, 255, 255)));
}

#[test]
fn base16_leaves_the_companion_slots_empty() {
    let accents = vec![accent(PureColor::Blue, 50)];
    let p = assemble_palette(
        SchemeSystem::Base16,
        Rgb::new(0, 0, 0),
        Rgb::new(255, 255, 255),
        &accents,
    );
    assert_eq!(p.get(13), Some(Rgb::new(50, 0, 0)));
    for s in 16..24 {
        assert_eq!(p.get(s), None);
    }
}

fn params(system: SchemeSystem) -> SchemeParams {
    SchemeParams {
        author: "someone".to_string(),
        description: None,
        name: "Sample".to_string(),
        slug: "sample".to_string(),
        system,
        variant: SchemeVariant::Dark,
    }
}

#[test]
fn create_scheme_copies_the_metadata() {
    let s = create_scheme(
        params(SchemeSystem::Base16),
        Rgb::new(1, 1, 1),
        Rgb::new(250, 250, 250),
        &vec![],
    )
    .unwrap();
    assert_eq!(s.author, "someone");
    assert_eq!(s.slug, "sample");
    assert_eq!(s.system, SchemeSystem::Base16);
    assert_eq!(s.palette.slot_hex(0), Some("010101".to_string()));
    assert_eq!(s.palette.slot_hex(7), Some("FAFAFA".to_string()));
}

#[test]
fn create_scheme_refuses_the_tinted8_system() {
    let r = create_scheme(
        params(SchemeSystem::Tinted8),
        Rgb::new(1, 1, 1),
        Rgb::new(250, 250, 250),
        &vec![accent(PureColor::Red, 1)],
    );
    match r {
        Err(Error::UnsupportedSchemeVariant(what)) => assert_eq!(what, "tinted8"),
        _ => panic!("expected the tinted8 system to be refused"),
    }
}

#[test]
fn system_and_variant_names() {
    assert_eq!(SchemeSystem::Base24.as_str(), "base24");
    assert_eq!(SchemeVariant::Light.as_str(), "light");
}
