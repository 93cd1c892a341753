//! Names: UTF-16, case folding, and splitting.

use vsmb::text::{encode_utf16_le, last_component, split_path, utf16_to_string};

#[test]
fn utf16_round_trips() {
    for s in ["", "a", "layer.txt", "\u{e9}\u{4e2d}", "x\u{1F600}y"] {
        let bytes = encode_utf16_le(s);
        let expected: Vec<u8> = s.encode_utf16().flat_map(|u| u.to_le_bytes()).collect();
        assert_eq!(bytes, expected);
        assert_eq!(utf16_to_string(&bytes).unwrap(), s);
    }
}

#[test]
fn malformed_utf16_is_rejected() {
    assert!(utf16_to_string(&[0x61]).is_none());
    assert!(utf16_to_string(&[0x00, 0xD8]).is_none());
    assert!(utf16_to_string(&[0x00, 0xDC, 0x61, 0x00]).is_none());
    assert_eq!(utf16_to_string(&[0x61, 0x00]).unwrap(), "a");
}

#[test]
fn last_components_follow_the_last_backslash() {
    assert_eq!(last_component("\\\\server\\share"), "share");
    assert_eq!(last_component("share"), "share");
    assert_eq!(last_component("\\\\server\\"), "");
    assert_eq!(last_component(""), "");
    assert_eq!(last_component("a/b"), "a/b");
}

#[test]
fn paths_split_at_every_separator() {
    assert_eq!(split_path("", true), vec![""]);
    assert_eq!(split_path("a\\b/c", true), vec!["a", "b", "c"]);
    assert_eq!(split_path("a\\b/c", false), vec!["a\\b", "c"]);
    assert_eq!(split_path("//", true), vec!["", "", ""]);
}
