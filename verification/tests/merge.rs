use qzmk_drawer::qmk::constants::merge_category;
use qzmk_drawer::qmk::constants::parse_categories;
use qzmk_drawer::qmk::constants::Keycode;
use qzmk_drawer::qmk::constants::KeycodeEnum;
use qzmk_drawer::qmk::constants::Keycodes;
use qzmk_drawer::qmk::constants::KeycodesEnum;
use qzmk_drawer::qmk::constants::MergeError;
use qzmk_drawer::qmk::constants::Range;
use qzmk_drawer::qmk::constants::RangeEnum;
use qzmk_drawer::qmk::constants::Ranges;

fn record(group: &str, key: &str) -> Keycode {
    Keycode {
        group: group.to_string(),
        key: key.to_string(),
        label: None,
        aliases: Vec::new(),
    }
}

fn table(entries: Vec<(&str, KeycodeEnum)>) -> Keycodes {
    Keycodes { keycodes: entries.into_iter().map(|(k, v)| (k.to_string(), v)).collect() }
}

fn keys_of(t: &Keycodes) -> Vec<String> {
    t.keycodes.iter().map(|(k, _)| k.clone()).collect()
}

#[test]
fn merge_insert_then_delete_leaves_no_entry() {
    let mut base = table(vec![]);
    let overlay_a = table(vec![("0x01", KeycodeEnum::Detailed(record("basic", "KC_A")))]);
    let overlay_b = table(vec![("0x01", KeycodeEnum::Delete)]);
    assert!(base.merge(overlay_a).is_ok());
    assert_eq!(keys_of(&base), vec!["0x01".to_string()]);
    assert!(base.merge(overlay_b).is_ok());
    assert!(keys_of(&base).is_empty());
}

#[test]
fn merge_delete_without_prior_insert_is_rejected() {
    let mut base = table(vec![]);
    let overlay = table(vec![("0x01", KeycodeEnum::Delete)]);
    match base.merge(overlay) {
        Err(MergeError::DeleteMissing(key)) => assert_eq!(key, "0x01"),
        other => panic!("expected the delete to be rejected, got {:?}", other.is_ok()),
    }
    assert!(keys_of(&base).is_empty());
}

#[test]
fn merge_replaces_whole_record() {
    let mut base = table(vec![("0x01", KeycodeEnum::Detailed(record("basic", "KC_A")))]);
    let overlay = table(vec![("0x01", KeycodeEnum::Detailed(record("quantum", "QK_A")))]);
    assert!(base.merge(overlay).is_ok());
    assert_eq!(base.keycodes.len(), 1);
    match &base.keycodes[0].1 {
        KeycodeEnum::Detailed(k) => {
            assert_eq!(k.group, "quantum");
            assert_eq!(k.key, "QK_A");
        },
        _ => panic!("expected a detailed record"),
    }
}

#[test]
fn merge_reset_marker_is_a_no_op() {
    let mut base = table(vec![("0x01", KeycodeEnum::Detailed(record("basic", "KC_A")))]);
    let overlay = table(vec![("!reset!", KeycodeEnum::Reset)]);
    assert!(base.merge(overlay).is_ok());
    assert_eq!(keys_of(&base), vec!["0x01".to_string()]);
}

#[test]
fn merge_failure_leaves_base_untouched() {
    let mut base = table(vec![("0x01", KeycodeEnum::Detailed(record("basic", "KC_A")))]);
    let overlay = table(vec![
        ("0x02", KeycodeEnum::Detailed(record("basic", "KC_B"))),
        ("0x09", KeycodeEnum::Delete),
    ]);
    assert!(base.merge(overlay).is_err());
    assert_eq!(keys_of(&base), vec!["0x01".to_string()]);
}

#[test]
fn range_merge_inserts_and_deletes() {
    let mut base = Ranges { ranges: vec![] };
    let overlay_a = Ranges {
        ranges: vec![(
            "0x0100/0x00ff".to_string(),
            RangeEnum::Detailed(Range { define: Some("QK_BASIC".to_string()) }),
        )],
    };
    let overlay_b = Ranges {
        ranges: vec![("0x0100/0x00ff".to_string(), RangeEnum::Delete)],
    };
    assert!(base.merge(overlay_a).is_ok());
    assert_eq!(base.ranges.len(), 1);
    assert!(base.merge(overlay_b).is_ok());
    assert!(base.ranges.is_empty());
}

#[test]
fn kind_mismatch_is_rejected() {
    let mut base = KeycodesEnum::Keycodes(table(vec![]));
    let overlay = KeycodesEnum::Ranges(Ranges { ranges: vec![] });
    match base.merge(overlay) {
        Err(MergeError::KindMismatch) => {},
        _ => panic!("expected a kind mismatch"),
    }
}

#[test]
fn record_level_merge_replaces() {
    let mut old = record("basic", "KC_A");
    old.merge(record("quantum", "QK_A"));
    assert_eq!(old.group, "quantum");
    let mut value = KeycodeEnum::Detailed(record("basic", "KC_A"));
    value.merge(record("quantum", "QK_A"));
    match value {
        KeycodeEnum::Detailed(k) => assert_eq!(k.key, "QK_A"),
        _ => panic!("expected a detailed record"),
    }
    let mut range_value = RangeEnum::Detailed(Range { define: None });
    range_value.merge(Range { define: Some("QK_TOP".to_string()) });
    match range_value {
        RangeEnum::Detailed(r) => assert_eq!(r.define, Some("QK_TOP".to_string())),
        _ => panic!("expected a detailed record"),
    }
}

#[test]
fn category_fold_starts_empty_and_applies_in_order() {
    let docs = vec![
        KeycodesEnum::Keycodes(table(vec![(
            "0x01",
            KeycodeEnum::Detailed(record("basic", "KC_A")),
        )])),
        KeycodesEnum::Keycodes(table(vec![("0x01", KeycodeEnum::Delete)])),
    ];
    match merge_category(docs) {
        Ok(KeycodesEnum::Keycodes(t)) => assert!(t.keycodes.is_empty()),
        _ => panic!("expected an empty keycode table"),
    }
}

#[test]
fn category_fold_rejects_mixed_kinds() {
    let docs = vec![
        KeycodesEnum::Keycodes(table(vec![])),
        KeycodesEnum::Ranges(Ranges { ranges: vec![] }),
    ];
    match merge_category(docs) {
        Err(MergeError::KindMismatch) => {},
        _ => panic!("expected a kind mismatch"),
    }
}

#[test]
fn categories_fold_independently() {
    let categories = vec![
        (
            "-".to_string(),
            vec![KeycodesEnum::Keycodes(table(vec![(
                "0x01",
                KeycodeEnum::Detailed(record("basic", "KC_A")),
            )]))],
        ),
        (
            "media".to_string(),
            vec![KeycodesEnum::Keycodes(table(vec![("0x02", KeycodeEnum::Delete)]))],
        ),
    ];
    let results = parse_categories(categories);
    assert_eq!(results.len(), 2);
    assert_eq!(results[0].0, "-");
    assert!(results[0].1.is_ok());
    assert_eq!(results[1].0, "media");
    assert!(matches!(results[1].1, Err(MergeError::DeleteMissing(_))));
}

#[test]
fn summary_names_kind_and_count() {
    let doc = KeycodesEnum::Keycodes(table(vec![
        ("0x01", KeycodeEnum::Detailed(record("basic", "KC_A"))),
        ("0x02", KeycodeEnum::Detailed(record("basic", "KC_B"))),
    ]));
    assert_eq!(doc.summary(), "keycodes, 2 items");
    let ranges = KeycodesEnum::Ranges(Ranges { ranges: vec![] });
    assert_eq!(ranges.summary(), "range, 0 items");
}
