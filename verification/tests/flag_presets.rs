use recolor::console::Color;
use recolor::presets::{
    default_flag_preset, eq_ignore_case, flag_by_name, hex_sequence, iter_flag_presets,
};

#[test]
fn presets_in_order() {
    let names: Vec<&str> = iter_flag_presets().iter().map(|p| p.name).collect();
    assert_eq!(names, vec!["Pride", "Progress", "Lesbian", "Gay", "Bi", "Trans"]);
}

#[test]
fn preset_stripes() {
    let presets = iter_flag_presets();
    assert_eq!(presets[0].stripes.len(), 6);
    assert_eq!(presets[0].stripes[0], Color(0xE4, 0x03, 0x03));
    assert_eq!(presets[1].stripes.len(), 11);
    assert_eq!(presets[1].stripes[7], Color(0x7c, 0x3f, 0x00));
    assert_eq!(presets[5].stripes[2], Color(255, 255, 255));
    assert_eq!(presets[4].aliases, vec!["Bisexual"]);
    assert!(presets[3].aliases.is_empty());
}

#[test]
fn lookup_by_name_ignores_case() {
    assert_eq!(flag_by_name("pride").unwrap().name, "Pride");
    assert_eq!(flag_by_name("PROGRESS").unwrap().name, "Progress");
    assert_eq!(flag_by_name("Trans").unwrap().name, "Trans");
}

#[test]
fn lookup_by_alias() {
    assert_eq!(flag_by_name("rainbow").unwrap().name, "Pride");
    assert_eq!(flag_by_name("BiSexual").unwrap().name, "Bi");
    assert_eq!(flag_by_name("transgender").unwrap().name, "Trans");
}

#[test]
fn unknown_name() {
    assert!(flag_by_name("").is_none());
    assert!(flag_by_name("prid").is_none());
    assert!(flag_by_name("pride ").is_none());
}

#[test]
fn default_preset() {
    let p = default_flag_preset();
    assert_eq!(p.name, "Lesbian");
    assert_eq!(p.stripes, flag_by_name("lesbian").unwrap().stripes);
    assert_eq!(p.stripes[0], Color(0xD5, 0x2D, 0x00));
    assert_eq!(p.stripes.len(), 7);
}

#[test]
fn hex_sequence_splits_channels() {
    assert_eq!(
        hex_sequence(&[0xABCDEF, 0x000001, 0xFFFFFF]),
        vec![Color(0xAB, 0xCD, 0xEF), Color(0, 0, 1), Color(255, 255, 255)]
    );
    assert_eq!(hex_sequence(&[]), vec![]);
}

#[test]
fn case_is_folded_for_ascii_letters_only() {
    assert!(eq_ignore_case(b"AbC", b"aBc"));
    assert!(!eq_ignore_case(b"abc", b"abcd"));
    assert!(!eq_ignore_case(b"@", b"`"));
    assert!(!eq_ignore_case(b"[", b"{"));
    assert!(eq_ignore_case(b"", b""));
}
