use qzmk_drawer::keymap::layer::LayerNames;
use qzmk_drawer::keymap::Key;
use qzmk_drawer::qmk::parser::from_str;
use qzmk_drawer::qmk::parser::RawKeymap;

fn roster(names: &[&str]) -> LayerNames {
    LayerNames::new(names.iter().map(|s| s.to_string()).collect())
}

fn classify(token: &str, names: &LayerNames) -> Key {
    from_str(token, names).expect("classification is total")
}

#[test]
fn literal_no_op() {
    let names = roster(&[]);
    assert!(matches!(classify("KC_NO", &names), Key::NoOp));
}

#[test]
fn literal_transparent() {
    let names = roster(&[]);
    assert!(matches!(classify("KC_TRNS", &names), Key::Transparent));
}

#[test]
fn prefix_stripping() {
    let names = roster(&[]);
    match classify("KC_A", &names) {
        Key::Basic(name) => assert_eq!(name, "A"),
        other => panic!("expected Basic, got {:?}", other),
    }
}

#[test]
fn special_token_kept_verbatim() {
    let names = roster(&[]);
    match classify("QK_BOOT", &names) {
        Key::Special(name) => assert_eq!(name, "QK_BOOT"),
        other => panic!("expected Special, got {:?}", other),
    }
    match classify("UG_TOGG2", &names) {
        Key::Special(name) => assert_eq!(name, "UG_TOGG2"),
        other => panic!("expected Special, got {:?}", other),
    }
}

// The first segment of the multi-segment pattern is exactly two uppercase
// letters, so a three-letter head does not match it.
#[test]
fn three_letter_head_is_not_special() {
    let names = roster(&[]);
    match classify("RGB_TOG", &names) {
        Key::Unrecognized(token) => assert_eq!(token, "RGB_TOG"),
        other => panic!("expected Unrecognized, got {:?}", other),
    }
}

#[test]
fn unicode_single() {
    let names = roster(&[]);
    match classify("UM(abc123)", &names) {
        Key::UnicodeSingle(cp) => assert_eq!(cp, "abc123"),
        other => panic!("expected UnicodeSingle, got {:?}", other),
    }
}

#[test]
fn unicode_single_rendered_as_call() {
    let names = roster(&[]);
    let key = classify("UM(abc123)", &names);
    assert_eq!(key.to_yaml(), "UM(abc123)");
}

#[test]
fn unicode_cased() {
    let names = roster(&[]);
    match classify("UP(e_grave, e_grave_cap)", &names) {
        Key::UnicodeCased(lower, upper) => {
            assert_eq!(lower, "e_grave");
            assert_eq!(upper, "e_grave_cap");
        },
        other => panic!("expected UnicodeCased, got {:?}", other),
    }
}

#[test]
fn layer_tap_with_underscore_alias() {
    let names = roster(&["Lower"]);
    match classify("LT(_LOWER, KC_SPC)", &names) {
        Key::LayerTap { layer, key } => {
            assert_eq!(layer, "Lower");
            assert_eq!(key, "SPC");
        },
        other => panic!("expected LayerTap, got {:?}", other),
    }
}

#[test]
fn two_argument_calls_accept_any_comma_spacing() {
    let names = roster(&["Lower"]);
    match classify("UP(a,b)", &names) {
        Key::UnicodeCased(lower, upper) => {
            assert_eq!(lower, "a");
            assert_eq!(upper, "b");
        },
        other => panic!("expected UnicodeCased, got {:?}", other),
    }
    match classify("UP(a,   b)", &names) {
        Key::UnicodeCased(lower, upper) => {
            assert_eq!(lower, "a");
            assert_eq!(upper, "b");
        },
        other => panic!("expected UnicodeCased, got {:?}", other),
    }
    // a space before the comma breaks the argument shape
    assert!(matches!(classify("UP(a , b)", &names), Key::Unrecognized(_)));
    match classify("LT(_LOWER,KC_A)", &names) {
        Key::LayerTap { layer, key } => {
            assert_eq!(layer, "Lower");
            assert_eq!(key, "A");
        },
        other => panic!("expected LayerTap, got {:?}", other),
    }
}

#[test]
fn layer_change_accepts_case_insensitive_layer() {
    let names = roster(&["Qwerty"]);
    match classify("MO(QWERTY)", &names) {
        Key::LayerChange { action, layer } => {
            assert_eq!(action, "MO");
            assert_eq!(layer, "Qwerty");
        },
        other => panic!("expected LayerChange, got {:?}", other),
    }
}

#[test]
fn layer_tap_unknown_layer_falls_through() {
    let names = roster(&["Lower"]);
    match classify("LT(_NAV, KC_SPC)", &names) {
        Key::Unrecognized(token) => assert_eq!(token, "LT(_NAV, KC_SPC)"),
        other => panic!("expected Unrecognized, got {:?}", other),
    }
}

#[test]
fn mod_tap() {
    let names = roster(&[]);
    match classify("LSFT_T(KC_A)", &names) {
        Key::ModTap { modifier, key } => {
            assert_eq!(modifier, "LSFT");
            assert_eq!(key, "A");
        },
        other => panic!("expected ModTap, got {:?}", other),
    }
}

#[test]
fn layer_change_beats_mod_key() {
    let names = roster(&["Raise"]);
    match classify("MO(_RAISE)", &names) {
        Key::LayerChange { action, layer } => {
            assert_eq!(action, "MO");
            assert_eq!(layer, "Raise");
        },
        other => panic!("expected LayerChange, got {:?}", other),
    }
}

#[test]
fn persistent_layer_change() {
    let names = roster(&["Dvorak"]);
    match classify("PDF(DVORAK)", &names) {
        Key::LayerChange { action, layer } => {
            assert_eq!(action, "PDF");
            assert_eq!(layer, "Dvorak");
        },
        other => panic!("expected LayerChange, got {:?}", other),
    }
}

#[test]
fn mod_key_when_not_a_layer_change() {
    let names = roster(&["Raise"]);
    match classify("LALT(KC_A)", &names) {
        Key::ModKey { modifier, key } => {
            assert_eq!(modifier, "LALT");
            assert_eq!(key, "A");
        },
        other => panic!("expected ModKey, got {:?}", other),
    }
}

#[test]
fn unknown_token_falls_back_verbatim() {
    let names = roster(&[]);
    match classify("XYZZY_FOO", &names) {
        Key::Unrecognized(token) => assert_eq!(token, "XYZZY_FOO"),
        other => panic!("expected Unrecognized, got {:?}", other),
    }
}

// XYZZY_FOO matches the multi-segment uppercase pattern, so pick a token
// that matches nothing at all for the pure fallback path.
#[test]
fn garbage_tokens_classify_without_failing() {
    let names = roster(&[]);
    for token in ["", "kc_a", "LT(", "A(B(KC_C))", "1234", "UM()", "UP(a,)", "??"] {
        let key = from_str(token, &names);
        assert!(key.is_some());
    }
}

#[test]
fn unrecognized_tokens_are_reported_in_order() {
    let raw = RawKeymap {
        keymap: "demo".to_string(),
        keyboard: "kb".to_string(),
        layout: "LAYOUT".to_string(),
        layers: vec![
            vec!["KC_A".to_string(), "XYZZY_FOO".to_string()],
            vec!["LCTL(LALT(KC_DEL))".to_string(), "KC_NO".to_string()],
        ],
    };
    let names = roster(&[]);
    assert_eq!(
        raw.unrecognized_tokens(&names),
        vec!["XYZZY_FOO".to_string(), "LCTL(LALT(KC_DEL))".to_string()]
    );
}

#[test]
fn nested_modifier_wrapping_is_unsupported() {
    let names = roster(&[]);
    match classify("LCTL(LALT(KC_DEL))", &names) {
        Key::Unrecognized(token) => assert_eq!(token, "LCTL(LALT(KC_DEL))"),
        other => panic!("expected Unrecognized, got {:?}", other),
    }
}
