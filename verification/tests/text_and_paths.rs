use minilauncher::path::{has_extension, name_extension, path_file_name, path_join};
use minilauncher::paths::{colors_file_in, config_dir_in};
use minilauncher::string_map::StringMap;
use minilauncher::text::{
    contains_chars, first_piece_of, join_strings, split_str, strip_bom, to_chars, Separator,
};

fn strings(v: &[&str]) -> Vec<String> {
    v.iter().map(|s| s.to_string()).collect()
}

#[test]
fn split_whitespace_drops_empty_pieces() {
    let r = split_str("  firefox \t--new-window\n%U  ", Separator::WhiteSpace, false);
    assert_eq!(r, strings(&["firefox", "--new-window", "%U"]));
    assert!(split_str("   ", Separator::WhiteSpace, false).is_empty());
    // non-breaking space and ideographic space are white space too
    let r = split_str("a\u{a0}b\u{3000}c", Separator::WhiteSpace, false);
    assert_eq!(r, strings(&["a", "b", "c"]));
}

#[test]
fn split_char_keeps_empty_pieces() {
    assert_eq!(split_str("a::b", Separator::Char(':'), true), strings(&["a", "", "b"]));
    assert_eq!(split_str("", Separator::Char(':'), true), strings(&[""]));
    assert_eq!(split_str(":", Separator::Char(':'), true), strings(&["", ""]));
    assert_eq!(split_str("a;;b;", Separator::Char(';'), false), strings(&["a", "b"]));
}

#[test]
fn first_piece_is_language_code() {
    assert_eq!(first_piece_of("en-US", '-'), "en");
    assert_eq!(first_piece_of("fr", '-'), "fr");
    assert_eq!(first_piece_of("-x", '-'), "");
}

#[test]
fn substring_search() {
    let h = to_chars("web browser");
    assert!(contains_chars(&h, &to_chars("brow")));
    assert!(contains_chars(&h, &to_chars("")));
    assert!(contains_chars(&h, &to_chars("web browser")));
    assert!(!contains_chars(&h, &to_chars("browsers")));
    assert!(!contains_chars(&to_chars(""), &to_chars("a")));
}

#[test]
fn join_with_separator() {
    assert_eq!(join_strings(&strings(&["a", "b", "c"]), " "), "a b c");
    assert_eq!(join_strings(&strings(&["a"]), " "), "a");
    assert_eq!(join_strings(&strings(&[]), " "), "");
}

#[test]
fn byte_order_mark_is_dropped() {
    assert_eq!(strip_bom("\u{feff}[Desktop Entry]"), "[Desktop Entry]");
    assert_eq!(strip_bom("plain"), "plain");
}

#[test]
fn path_join_follows_pathbuf_push() {
    assert_eq!(path_join("/usr/share", "applications/"), "/usr/share/applications/");
    assert_eq!(path_join("/usr/share/", "applications/"), "/usr/share/applications/");
    assert_eq!(path_join("", "applications/"), "applications/");
    assert_eq!(path_join("/usr", "/etc"), "/etc");
    for (base, comp) in [("/usr/share", "applications/"), ("", "a"), ("x/", "y"), ("/a", "/b")] {
        let expected = std::path::PathBuf::from(base).join(comp);
        assert_eq!(path_join(base, comp), expected.to_str().unwrap());
    }
}

#[test]
fn file_names_follow_std() {
    for p in ["a/b.txt", "a/..", "/", "a/./", "a//b", ".", "./x", "x/.", "", "a/b/"] {
        let expected = std::path::Path::new(p).file_name().map(|s| s.to_str().unwrap().to_string());
        assert_eq!(path_file_name(p), expected, "path {:?}", p);
    }
}

#[test]
fn extensions_follow_std() {
    for n in [".desktop", "a.desktop", "a.b.desktop", "a.", "..", "noext", "a..b"] {
        let expected = std::path::Path::new(n).extension().map(|s| s.to_str().unwrap().to_string());
        assert_eq!(name_extension(n), expected, "name {:?}", n);
    }
    assert!(has_extension("/usr/share/applications/firefox.desktop", "desktop"));
    assert!(!has_extension("/usr/share/applications/.desktop", "desktop"));
    assert!(!has_extension("/tmp/x.desktop/..", "desktop"));
}

#[test]
fn configuration_paths() {
    assert_eq!(config_dir_in("/home/a/.config"), "/home/a/.config/minilauncher");
    assert_eq!(colors_file_in("/home/a/.config"), "/home/a/.config/minilauncher/colors.toml");
    assert_eq!(colors_file_in("/home/a/.config/"), "/home/a/.config/minilauncher/colors.toml");
}

#[test]
fn string_map_insert_replaces_in_place() {
    let mut m: StringMap<u32> = StringMap::new();
    m.insert("a".to_string(), 1);
    m.insert("b".to_string(), 2);
    m.insert("a".to_string(), 3);
    assert_eq!(m.len(), 2);
    assert_eq!(m.get("a"), Some(&3));
    assert_eq!(m.get("b"), Some(&2));
    assert_eq!(m.get("c"), None);
    assert_eq!(m.entry_at(0).0, "a");
    assert_eq!(m.into_values(), vec![3, 2]);
}
