use qzmk_drawer::qmk::constants::gen_file_list;
use qzmk_drawer::qmk::constants::qmk_keycodes_path;
use qzmk_drawer::qmk::keycodes::display_name;
use qzmk_drawer::qmk::keycodes::init_hashmap;
use qzmk_drawer::str_eq;

#[test]
fn category_partitioning_preserves_version_order() {
    let versions = vec!["0.0.1".to_string(), "0.0.2".to_string()];
    let found = vec![
        vec!["keycodes_0.0.1_basic.hjson".to_string()],
        vec![
            "keycodes_0.0.2_basic.hjson".to_string(),
            "keycodes_0.0.2_media.hjson".to_string(),
        ],
    ];
    let files = gen_file_list(&versions, &found);
    assert_eq!(files.len(), 3);
    assert_eq!(files[0].0, "-");
    assert_eq!(
        files[0].1,
        vec!["keycodes_0.0.1.hjson".to_string(), "keycodes_0.0.2.hjson".to_string()]
    );
    assert_eq!(files[1].0, "basic");
    assert_eq!(
        files[1].1,
        vec![
            "keycodes_0.0.1_basic.hjson".to_string(),
            "keycodes_0.0.2_basic.hjson".to_string(),
        ]
    );
    assert_eq!(files[2].0, "media");
    assert_eq!(files[2].1, vec!["keycodes_0.0.2_media.hjson".to_string()]);
}

#[test]
fn default_category_alone_without_candidates() {
    let versions = vec!["0.0.6".to_string()];
    let found = vec![vec![]];
    let files = gen_file_list(&versions, &found);
    assert_eq!(files.len(), 1);
    assert_eq!(files[0].0, "-");
    assert_eq!(files[0].1, vec!["keycodes_0.0.6.hjson".to_string()]);
}

#[test]
fn keycodes_path_layout() {
    assert_eq!(
        qmk_keycodes_path("/qmk", "basic", "0.0.1"),
        "/qmk/data/constants/keycodes/keycodes_0.0.1_basic.hjson"
    );
}

#[test]
fn display_name_finds_known_keycodes() {
    assert_eq!(display_name("KC_C"), Some("C"));
    assert_eq!(display_name("KC_SPACE"), Some(" "));
    assert_eq!(display_name("KC_BACKSLASH"), Some("\\"));
    assert_eq!(display_name("KC_F11"), Some("F11"));
    assert_eq!(display_name("KC_ENTER"), Some(""));
}

#[test]
fn display_name_misses_unknown_keycodes() {
    assert_eq!(display_name("KC_A"), None);
    assert_eq!(display_name("QK_BOOT"), None);
    assert_eq!(display_name(""), None);
}

#[test]
fn display_table_holds_the_full_fixed_mapping() {
    let table = init_hashmap();
    assert_eq!(table.len(), 189);
    assert!(table.iter().all(|(k, _)| k.starts_with("KC_")));
}

#[test]
fn string_equality_is_exact() {
    assert!(str_eq("abc", "abc"));
    assert!(!str_eq("abc", "abd"));
    assert!(!str_eq("abc", "ab"));
    assert!(str_eq("", ""));
}
