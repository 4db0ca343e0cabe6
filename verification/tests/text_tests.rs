use organizarr::name_map::NameMap;
use organizarr::paths::{
    components_of, file_name_of, has_prefix, push_path, render_path, PathStyle,
};
use organizarr::text;

#[test]
fn trimming_follows_unicode() {
    for s in ["", " ", "a", " a ", "\u{a0}a\u{3000}", "\n\ta b\u{2028}", "\u{200b}a"] {
        assert_eq!(text::trim(s), s.trim());
    }
}

#[test]
fn joining_and_splitting() {
    let parts = vec![String::from("a"), String::new(), String::from("b")];
    assert_eq!(text::join_with(&parts, "; "), "a; ; b");
    assert_eq!(text::join_with(&vec![], ","), "");
    assert_eq!(text::split("a,,b", ','), vec!["a", "", "b"]);
    assert_eq!(text::split("", ','), vec![""]);
}

#[test]
fn decimal_texts() {
    for n in [0, 7, 10, 409, u64::MAX] {
        assert_eq!(text::decimal_text(n), n.to_string());
    }
}

#[test]
fn map_keeps_the_last_value() {
    let mut map: NameMap<u8> = NameMap::new();
    assert!(map.is_empty());
    map.insert(String::from("a"), 1);
    map.insert(String::from("b"), 2);
    map.insert(String::from("a"), 3);
    assert_eq!(map.get("a"), Some(&3));
    assert_eq!(map.get("b"), Some(&2));
    assert_eq!(map.get("c"), None);
    assert_eq!(map.keys(), vec!["a", "b"]);
    let copy = map.clone();
    assert_eq!((copy.get("a"), copy.keys()), (Some(&3), map.keys()));
    assert!(map.contains_key("b") && !map.contains_key("c") && !map.is_empty());
}

#[test]
fn paths_follow_the_machine() {
    for (base, tail) in [
        ("/a", "b"), ("/a/", "b/c"), ("", "b"), ("a", "/b"), ("/", "b"), ("a", ""), ("", ""),
        ("./a", "b"), ("a//b", "./c"), ("a/../b", "c"), (".", "c"), (r"G:\x", "y"), ("a", r"C:\b"),
    ] {
        let expected = std::path::PathBuf::from(base).join(tail);
        assert_eq!(push_path(PathStyle::Unix, base, tail), expected.to_str().unwrap());
    }
}

#[test]
fn file_names_follow_the_machine() {
    for path in ["/a/b", "/a/b/", "a", "/", "", "a/..", "a/.", ".", "..", r"C:\a\b", "C:"] {
        let expected = std::path::Path::new(path).file_name().map(|n| n.to_str().unwrap());
        assert_eq!(file_name_of(PathStyle::Unix, path).as_deref(), expected);
    }
}

#[test]
fn components_follow_the_machine() {
    for path in ["/a/b", "a//b/", "./a/./b", ".", "", "/", "../a", "a/../b", r"C:\a/b"] {
        let expected: Vec<&str> = std::path::Path::new(path)
            .components()
            .map(|c| if c == std::path::Component::RootDir { "" } else { c.as_os_str().to_str().unwrap() })
            .collect();
        assert_eq!(components_of(PathStyle::Unix, path), expected);
    }
}

#[test]
fn windows_components() {
    // The root is the component without a name.
    let cases: [(&str, &[&str]); 22] = [
        (r"D:\dl\film.mkv", &["D:", "", "dl", "film.mkv"]),
        ("D:/dl/film.mkv", &["D:", "", "dl", "film.mkv"]),
        (r"D:dl\x", &["D:", "dl", "x"]),
        (r"D:.\x", &["D:", ".", "x"]),
        ("D:", &["D:"]),
        (r"\dl\.\x\", &["", "dl", "x"]),
        (r".\a", &[".", "a"]),
        (r"\\nas\share\x", &["//nas/share", "", "x"]),
        ("//nas/share/x", &["//nas/share", "", "x"]),
        (r"\\nas\share", &["//nas/share", ""]),
        (r"\\nas", &["", "nas"]),
        (r"\\.\COM1\x", &["//./COM1", "", "x"]),
        (r"\\?\C:\dl\x", &[r"\\?\C:", "", "dl", "x"]),
        (r"\\?\C:", &[r"\\?\C:"]),
        (r"\\?\C:/dl", &[r"\\?\C:", "", "dl"]),
        (r"\\?\C:\a/b\.\..\", &[r"\\?\C:", "", "a/b", ".", ".."]),
        (r"\\?\C:\\x", &[r"\\?\C:", "", "x"]),
        (r"\\?\C:x\y", &[r"\\?\C:x", "", "y"]),
        (r"\\?\UNC\nas\share\x", &[r"\\?\UNC\nas\share", "", "x"]),
        (r"\\?\UNC\nas", &[r"\\?\UNC\nas"]),
        (r"\\?\pictures\kittens", &[r"\\?\pictures", "", "kittens"]),
        ("//?/C:/x", &["//?/C:", "", "x"]),
    ];
    for (path, expected) in cases {
        assert_eq!(components_of(PathStyle::Windows, path), expected);
    }
}

#[test]
fn windows_paths_are_pushed() {
    for (base, tail, expected) in [
        (r"G:\data", "Anime/x", r"G:\data\Anime/x"),
        (r"G:\data\", "x", r"G:\data\x"),
        ("G:/data/", "x", "G:/data/x"),
        ("G:", "x", "G:x"),
        (r"G:\data", r"D:\x", r"D:\x"),
        (r"G:\data", "D:x", "D:x"),
        (r"G:\data", "/x", "G:/x"),
        (r"\\nas\share\a", r"\x", r"\\nas\share\x"),
        (r"\\nas\share", "x", r"\\nas\share\x"),
        (r"G:\data", r"\\nas\share\x", r"\\nas\share\x"),
        ("", r"a\b", r"a\b"),
        (r"a\b", r"\x", r"\x"),
        (r"\\?\C:\a", "b/c", r"\\?\C:\a\b\c"),
        (r"\\?\C:\a", r"..\.\b", r"\\?\C:\b"),
        (r"\\?\C:\a", r"..\..\b", r"\\?\C:\b"),
        (r"\\?\C:\a", r"\b", r"\\?\C:\b"),
        (r"\\?\C:\a\", "", r"\\?\C:\a\"),
        (r"\\?\C:\a", "", r"\\?\C:\a\"),
        (r"\\?\C:", "b", r"\\?\C:\b"),
        (r"\\?\UNC\nas\share", "b", r"\\?\UNC\nas\share\b"),
        (r"\\?\C:\a", r"D:\b", r"D:\b"),
    ] {
        assert_eq!(push_path(PathStyle::Windows, base, tail), expected);
    }
}

#[test]
fn windows_drives_ignore_case() {
    let path = components_of(PathStyle::Windows, r"D:\dl\x");
    assert!(has_prefix(PathStyle::Windows, &path, &components_of(PathStyle::Windows, r"d:\dl")));
    assert!(!has_prefix(PathStyle::Windows, &path, &components_of(PathStyle::Windows, r"d:\DL")));
    assert!(!has_prefix(PathStyle::Windows, &path, &components_of(PathStyle::Windows, r"e:\dl")));
    let path = components_of(PathStyle::Windows, r"\\?\D:\dl\x");
    let outer = components_of(PathStyle::Windows, r"\\?\d:\dl");
    assert!(has_prefix(PathStyle::Windows, &path, &outer));
    assert!(!has_prefix(PathStyle::Windows, &path, &components_of(PathStyle::Windows, r"D:\dl")));
    // Only a drive in front is a drive.
    let path = components_of(PathStyle::Windows, r"a\D:");
    assert!(!has_prefix(PathStyle::Windows, &path, &components_of(PathStyle::Windows, r"a\d:")));
}

#[test]
fn rendered_paths_read_back() {
    for style in [PathStyle::Unix, PathStyle::Windows] {
        for path in ["/a/b", "a//b/", "./a", "", "/"] {
            let parts = components_of(style, path);
            assert_eq!(components_of(style, &render_path(style, &parts)), parts);
        }
    }
}
