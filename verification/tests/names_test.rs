use savebutton_sync::collection::Collection;
use savebutton_sync::names::{
    ends_with, is_hidden_name, is_safe_path_component, mime_type_for,
};
use savebutton_sync::text::{is_whitespace_char, strip_trailing_char, text_equals};

#[test]
fn mime_types_by_extension() {
    assert_eq!(mime_type_for("note.md"), "text/markdown");
    assert_eq!(mime_type_for("link.url"), "text/plain");
    assert_eq!(mime_type_for("a.txt"), "text/plain");
    assert_eq!(mime_type_for("a.json"), "application/json");
    assert_eq!(mime_type_for("a.toml"), "application/toml");
    assert_eq!(mime_type_for("a.pdf"), "application/pdf");
    assert_eq!(mime_type_for("a.png"), "image/png");
    assert_eq!(mime_type_for("a.jpg"), "image/jpeg");
    assert_eq!(mime_type_for("a.jpeg"), "image/jpeg");
    assert_eq!(mime_type_for("a.gif"), "image/gif");
    assert_eq!(mime_type_for("a.webp"), "image/webp");
    assert_eq!(mime_type_for("a.svg"), "image/svg+xml");
    assert_eq!(mime_type_for("a.html"), "text/html");
    assert_eq!(mime_type_for("a.htm"), "text/html");
    assert_eq!(mime_type_for("a.bin"), "application/octet-stream");
}

#[test]
fn mime_type_edge_cases() {
    assert_eq!(mime_type_for("PHOTO.JPG"), "image/jpeg");
    assert_eq!(mime_type_for("a.b.Pdf"), "application/pdf");
    assert_eq!(mime_type_for(""), "application/octet-stream");
    assert_eq!(mime_type_for("a."), "application/octet-stream");
    assert_eq!(mime_type_for("README"), "application/octet-stream");
    assert_eq!(mime_type_for("md"), "text/markdown");
    assert_eq!(mime_type_for(".toml"), "application/toml");
    assert_eq!(mime_type_for("a.md "), "application/octet-stream");
}

#[test]
fn hidden_names() {
    assert!(is_hidden_name(".config"));
    assert!(is_hidden_name("."));
    assert!(!is_hidden_name("a.b"));
    assert!(!is_hidden_name(""));
}

#[test]
fn suffixes_and_equal_texts() {
    assert!(ends_with("a.toml", ".toml"));
    assert!(ends_with(".toml", ".toml"));
    assert!(!ends_with("toml", ".toml"));
    assert!(!ends_with("a.TOML", ".toml"));
    assert!(ends_with("x", ""));
    assert!(text_equals("abc", "abc"));
    assert!(!text_equals("abc", "abd"));
    assert!(!text_equals("abc", "ab"));
}

#[test]
fn safe_path_components() {
    assert!(is_safe_path_component("a.txt"));
    assert!(is_safe_path_component("a.b.c"));
    assert!(is_safe_path_component(".hidden"));
    assert!(!is_safe_path_component(""));
    assert!(!is_safe_path_component("a/b"));
    assert!(!is_safe_path_component("/"));
    assert!(!is_safe_path_component(".."));
    assert!(!is_safe_path_component("a..b"));
    assert!(!is_safe_path_component("../x"));
}

#[test]
fn whitespace_is_what_std_says() {
    let mut code: u32 = 0;
    while code < 0x3100 {
        if let Some(c) = char::from_u32(code) {
            assert_eq!(is_whitespace_char(c), c.is_whitespace(), "U+{:04X}", code);
        }
        code += 1;
    }
    assert!(!is_whitespace_char('\u{180e}'));
    assert!(!is_whitespace_char('\u{feff}'));
}

#[test]
fn trailing_slashes_are_stripped() {
    assert_eq!(strip_trailing_char("https://h/", '/'), "https://h");
    assert_eq!(strip_trailing_char("https://h///", '/'), "https://h");
    assert_eq!(strip_trailing_char("https://h", '/'), "https://h");
    assert_eq!(strip_trailing_char("///", '/'), "");
    assert_eq!(strip_trailing_char("", '/'), "");
}

#[test]
fn collection_filters() {
    assert!(Collection::Anga.accepts_name("a.pdf"));
    assert!(!Collection::Anga.accepts_name(".DS_Store"));
    assert!(Collection::Meta.accepts_name("a.toml"));
    assert!(!Collection::Meta.accepts_name("a.txt"));
    assert!(!Collection::Meta.accepts_name(".a.toml"));
    assert!(Collection::Words("x".to_string()).accepts_name(".anything"));
    assert!(Collection::Anga.allows_upload());
    assert!(Collection::Meta.allows_upload());
    assert!(!Collection::Words("x".to_string()).allows_upload());
    assert_eq!(Collection::Anga.remote_segment(), "anga");
    assert_eq!(Collection::Meta.remote_segment(), "meta");
    assert_eq!(Collection::Words("x".to_string()).remote_segment(), "words");
    assert_eq!(Collection::Anga.local_directory(), vec!["anga".to_string()]);
    assert_eq!(
        Collection::Words("doc".to_string()).local_directory(),
        vec!["words".to_string(), "doc".to_string()]
    );
}
