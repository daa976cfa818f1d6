use qzmk_drawer::keymap::layer::LayerNames;
use qzmk_drawer::keymap::Key;
use qzmk_drawer::keymap::Keymap;
use qzmk_drawer::qmk::parser::RawKeymap;
use qzmk_drawer::usize_to_string;
use qzmk_drawer::Config;

fn roster(names: &[&str]) -> LayerNames {
    LayerNames::new(names.iter().map(|s| s.to_string()).collect())
}

#[test]
fn key_rendering_per_variant() {
    assert_eq!(Key::NoOp.to_yaml(), "null");
    assert_eq!(Key::Transparent.to_yaml(), "{t: \u{25bd}, type: trans}");
    assert_eq!(Key::Basic("A".to_string()).to_yaml(), "A");
    assert_eq!(Key::Special("QK_BOOT".to_string()).to_yaml(), "QK_BOOT");
    assert_eq!(Key::UnicodeSingle("acute".to_string()).to_yaml(), "UM(acute)");
    assert_eq!(
        Key::UnicodeCased("e_grave".to_string(), "e_grave_cap".to_string()).to_yaml(),
        "'UP(e_grave, e_grave_cap)'"
    );
    assert_eq!(
        Key::LayerTap { layer: "Lower".to_string(), key: "SPC".to_string() }.to_yaml(),
        "{t: SPC, h: Lower}"
    );
    assert_eq!(
        Key::ModTap { modifier: "LSFT".to_string(), key: "A".to_string() }.to_yaml(),
        "{t: A, h: LSFT}"
    );
    assert_eq!(
        Key::ModKey { modifier: "LALT".to_string(), key: "A".to_string() }.to_yaml(),
        "LALT(A)"
    );
    assert_eq!(
        Key::LayerChange { action: "MO".to_string(), layer: "Raise".to_string() }.to_yaml(),
        "Raise"
    );
    assert_eq!(Key::Unrecognized("XYZZY_FOO".to_string()).to_yaml(), "XYZZY_FOO");
}

#[test]
fn one_layer_two_key_round_trip() {
    let raw = RawKeymap {
        keymap: "demo".to_string(),
        keyboard: "planck/rev7".to_string(),
        layout: "LAYOUT_ortho_4x12".to_string(),
        layers: vec![vec!["KC_TRNS".to_string(), "KC_NO".to_string()]],
    };
    let names = roster(&["Base"]);
    let keymap = raw.to_keymap(4, &names).expect("assembly never fails");
    let yaml = keymap.to_yaml(&names).expect("rendering never fails");
    let expected = "layout: {qmk_keyboard: planck/rev7, layout_name: LAYOUT_ortho_4x12}\n\
                    layers:\n\
                    \x20 Base\n\
                    \x20 - {t: \u{25bd}, type: trans}\n\
                    \x20 - null\n";
    assert_eq!(yaml, expected);
}

#[test]
fn layer_name_fallback_past_roster() {
    let names = roster(&["Base"]);
    assert_eq!(names.get(0), "Base");
    assert_eq!(names.get(1), "layer1");
    assert_eq!(names.get(12), "layer12");
}

#[test]
fn pretty_name_accepts_case_insensitive_and_underscore_aliases() {
    let names = roster(&["Lower", "Raise"]);
    assert_eq!(names.pretty_name("lower"), Some("Lower".to_string()));
    assert_eq!(names.pretty_name("_LOWER"), Some("Lower".to_string()));
    assert_eq!(names.pretty_name("RAISE"), Some("Raise".to_string()));
    assert_eq!(names.pretty_name("__LOWER"), None);
    assert_eq!(names.pretty_name("Adjust"), None);
}

#[test]
fn unknown_token_renders_verbatim_in_document() {
    let raw = RawKeymap {
        keymap: "demo".to_string(),
        keyboard: "kb".to_string(),
        layout: "LAYOUT".to_string(),
        layers: vec![vec!["XYZZY_FOO".to_string()]],
    };
    let names = roster(&["Base"]);
    let keymap = raw.to_keymap(1, &names).expect("assembly never fails");
    let yaml = keymap.to_yaml(&names).expect("rendering never fails");
    assert!(yaml.contains("  - XYZZY_FOO\n"));
}

#[test]
fn run_substitutes_layout_alias() {
    let mut config = Config::new("in.json".to_string(), "out.yaml".to_string(), 4);
    config.custom.aliases.push((
        "LAYOUT_planck_grid".to_string(),
        "LAYOUT_ortho_4x12".to_string(),
    ));
    config.custom.layer_names = vec!["Base".to_string()];
    let raw = RawKeymap {
        keymap: "demo".to_string(),
        keyboard: "planck/rev7".to_string(),
        layout: "LAYOUT_planck_grid".to_string(),
        layers: vec![vec!["KC_Q".to_string()]],
    };
    let yaml = qzmk_drawer::run(&config, raw).expect("conversion never fails");
    assert!(yaml.starts_with(
        "layout: {qmk_keyboard: planck/rev7, layout_name: LAYOUT_ortho_4x12}\n"
    ));
    assert!(yaml.contains("  Base\n  - Q\n"));
}

#[test]
fn run_keeps_layout_without_alias() {
    let config = Config::new("in.json".to_string(), "out.yaml".to_string(), 4);
    let raw = RawKeymap {
        keymap: "demo".to_string(),
        keyboard: "kb".to_string(),
        layout: "LAYOUT_mine".to_string(),
        layers: vec![],
    };
    let yaml = qzmk_drawer::run(&config, raw).expect("conversion never fails");
    assert_eq!(yaml, "layout: {qmk_keyboard: kb, layout_name: LAYOUT_mine}\nlayers:\n");
}

#[test]
fn decimal_rendering() {
    assert_eq!(usize_to_string(0), "0");
    assert_eq!(usize_to_string(7), "7");
    assert_eq!(usize_to_string(10), "10");
    assert_eq!(usize_to_string(90210), "90210");
}

#[test]
fn keymap_builds_from_parts() {
    let keymap = Keymap {
        keymap: "m".to_string(),
        keyboard: "kb".to_string(),
        layout: "l".to_string(),
        num_rows: 4,
        layers: vec![vec![Key::NoOp]],
    };
    let names = roster(&[]);
    let yaml = keymap.to_yaml(&names).expect("rendering never fails");
    assert_eq!(yaml, "layout: {qmk_keyboard: kb, layout_name: l}\nlayers:\n  layer0\n  - null\n");
}
