use live_image::glob::GlobMatcher;
use live_image::input::filename;
use live_image::error::LiveError;
use live_image::order::{bytes_at_most, same_bytes};
use live_image::text::{
    component_start, decimal_text, four_digits, has_prefix, split_ascii_whitespace, stem, trim,
    trim_end_matches,
};

#[test]
fn white_space_is_trimmed_at_both_ends() {
    for s in ["", " ", "a", " a ", "\t\na b\r\n", "\u{3000}x\u{a0}", "\u{200b}x", "\u{85}y\u{2028}"] {
        assert_eq!(trim(s), s.trim());
    }
}

#[test]
fn every_white_space_character_is_known() {
    for n in 0..0x11000u32 {
        if let Some(c) = char::from_u32(n) {
            let s = format!("{}x", c);
            assert_eq!(trim(&s), s.trim());
        }
    }
}

#[test]
fn trailing_characters_are_cut() {
    assert_eq!(trim_end_matches("a##", '#'), "a");
    assert_eq!(trim_end_matches("##", '#'), "");
    assert_eq!(trim_end_matches("#a", '#'), "#a");
}

#[test]
fn words_are_split_at_ascii_white_space() {
    for s in ["", " ", "a", " a  b\tc\n", "a\u{a0}b c", "x\u{c}y\rz", "\u{b}v"] {
        let expected: Vec<String> = s.split_ascii_whitespace().map(|w| w.to_string()).collect();
        assert_eq!(split_ascii_whitespace(s), expected);
    }
}

#[test]
fn prefixes_are_recognised() {
    assert!(has_prefix("coreos.liveiso=x", "coreos.liveiso="));
    assert!(has_prefix("abc", ""));
    assert!(!has_prefix("coreos.liveis", "coreos.liveiso="));
    assert!(!has_prefix("Coreos", "c"));
}

#[test]
fn filename_is_the_final_component() {
    for path in [
        "a", "/a", "a/", "a//", "a/b", "a/b/", "a/.", "a/./", "a/b/.", "a/..", "..", ".", "", "/",
        "//", "/.", "./a", "a/../b", "...", "a/...", "x y/z w", "\u{e4}/\u{f6}",
    ] {
        let expected = std::path::Path::new(path)
            .file_name()
            .map(|s| s.to_string_lossy().into_owned());
        match (filename(path), expected) {
            (Ok(name), Some(want)) => assert_eq!(name, want),
            (Err(LiveError::MissingFilename { path: p }), None) => assert_eq!(p, path),
            (got, want) => panic!("{}: {:?} {:?}", path, got, want),
        }
    }
}

#[test]
fn stem_is_the_name_without_extension() {
    for name in ["a", "a.b", "a.b.c", ".a", ".a.b", "..b", "a.", "...", "fedora-coreos-34.iso"] {
        let expected = std::path::Path::new(name).file_stem().unwrap().to_str().unwrap();
        assert_eq!(stem(name), expected);
    }
}

#[test]
fn components_start_behind_separators() {
    assert_eq!(component_start("a/b"), 2);
    assert_eq!(component_start("ab"), 0);
    assert_eq!(component_start("ab/"), 3);
}

#[test]
fn numbers_are_written_in_decimal() {
    for n in [0, 1, 9, 10, 42, 999, 1000, 9999, 10000, 123456, u32::MAX] {
        assert_eq!(decimal_text(n), format!("{}", n));
        assert_eq!(four_digits(n), format!("{:04}", n));
    }
}

#[test]
fn patterns_match_paths() {
    let m = GlobMatcher::new(vec!["config.ign".to_string(), "etc/net/*".to_string()]);
    assert!(m.matches("config.ign"));
    assert!(m.matches("etc/net/a"));
    assert!(m.matches("etc/net/"));
    assert!(m.matches("etc/net/a/b"));
    assert!(!m.matches("etc/net"));
    assert!(!m.matches("config.ign2"));
    assert!(!m.matches("/config.ign"));
    let m = GlobMatcher::new(vec!["a*b*c".to_string()]);
    assert!(m.matches("abc"));
    assert!(m.matches("axxbyybc"));
    assert!(!m.matches("acb"));
    assert!(!GlobMatcher::new(vec![]).matches(""));
    assert!(GlobMatcher::new(vec!["".to_string()]).matches(""));
}

#[test]
fn bytes_are_ordered() {
    assert!(bytes_at_most(b"", b"a"));
    assert!(bytes_at_most(b"a", b"a"));
    assert!(bytes_at_most(b"a", b"ab"));
    assert!(bytes_at_most(b"ab", b"b"));
    assert!(!bytes_at_most(b"b", b"ab"));
    assert!(same_bytes(b"x", b"x"));
    assert!(!same_bytes(b"x", b"xy"));
}
