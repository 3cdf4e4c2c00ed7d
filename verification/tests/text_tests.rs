use archtree::config::trim_text;
use archtree::paths::{
    count_separators, depth, file_name, find_last_separator, is_absolute_path, normalize_path,
    parent_dir, to_absolute_path,
};
use archtree::text::{
    chars_of, is_space_char, range_contains, range_starts_with, replace_char, string_of,
    string_of_range, trim_range,
};
use std::path::{Path, PathBuf};

fn chars(s: &str) -> Vec<char> {
    s.chars().collect()
}

#[test]
fn white_space_is_what_the_standard_library_takes_for_it() {
    let mut count = 0;
    for n in 0..=0x10FFFFu32 {
        if let Some(c) = char::from_u32(n) {
            assert_eq!(is_space_char(c), c.is_whitespace(), "U+{:04X}", n);
            if c.is_whitespace() {
                count += 1;
            }
        }
    }
    assert_eq!(count, 25);
}

#[test]
fn trimming_agrees_with_the_standard_library() {
    let samples = [
        "",
        " ",
        "a",
        " a",
        "a ",
        "  a b  ",
        "\t\r\n x \u{85}\u{a0}",
        "\u{1680}\u{2000}\u{200a}x\u{2028}\u{2029}\u{202f}\u{205f}\u{3000}",
        "\u{200b}x\u{feff}",
        "\u{b}\u{c}",
        "x\u{0}  ",
    ];
    for sample in samples {
        assert_eq!(trim_text(sample), sample.trim(), "{:?}", sample);
    }
    let v = chars("ab  cd  ");
    assert_eq!(trim_range(&v, 2, 8), (4, 6));
    assert_eq!(trim_range(&v, 2, 4), (4, 4));
    assert_eq!(trim_range(&v, 0, 0), (0, 0));
}

#[test]
fn strings_and_characters_convert_both_ways() {
    for sample in ["", "a", "héllo wörld", "日本語\n", "😀x"] {
        assert_eq!(chars_of(sample), chars(sample));
        assert_eq!(string_of(&chars(sample)), sample);
    }
    assert_eq!(string_of_range(&chars("héllo"), 1, 4), "éll");
    assert_eq!(string_of_range(&chars("héllo"), 2, 2), "");
}

#[test]
fn scans_of_ranges() {
    let v = chars("Path = a/b");
    assert!(range_starts_with(&v, 0, v.len(), &chars("Path = ")));
    assert!(range_starts_with(&v, 0, v.len(), &chars("")));
    assert!(!range_starts_with(&v, 0, 6, &chars("Path = ")));
    assert!(!range_starts_with(&v, 1, v.len(), &chars("Path")));
    assert!(range_starts_with(&v, 7, v.len(), &chars("a/")));
    assert!(range_contains(&v, 0, v.len(), '/'));
    assert!(!range_contains(&v, 0, 8, '/'));
    assert!(!range_contains(&v, 3, 3, 'h'));
}

#[test]
fn separators_are_both_kinds_of_slashes() {
    assert_eq!(count_separators(&chars("/a//b/")), 4);
    assert_eq!(count_separators(&chars("C:\\a/b\\c")), 3);
    assert_eq!(count_separators(&chars("")), 0);
    assert_eq!(find_last_separator(&chars("/a/b")), Some(2));
    assert_eq!(find_last_separator(&chars("a/b\\c")), Some(3));
    assert_eq!(find_last_separator(&chars("a\\b/c")), Some(3));
    assert_eq!(find_last_separator(&chars("/")), Some(0));
    assert_eq!(find_last_separator(&chars("ab")), None);
    assert!(is_absolute_path(&chars("/a")));
    assert!(is_absolute_path(&chars("\\\\server\\share")));
    assert!(is_absolute_path(&chars("C:\\Windows")));
    assert!(is_absolute_path(&chars("c:/x")));
    assert!(!is_absolute_path(&chars("C:")));
    assert!(!is_absolute_path(&chars("C:x")));
    assert!(!is_absolute_path(&chars("a/b")));
    assert!(!is_absolute_path(&chars("")));
}

#[test]
fn paths_with_backward_slashes_are_split_too() {
    assert_eq!(parent_dir("C:\\data\\sub\\a.txt").unwrap(), "C:\\data\\sub");
    assert_eq!(parent_dir("C:\\data/sub\\a.txt").unwrap(), "C:\\data/sub");
    assert_eq!(parent_dir("\\a.txt").unwrap(), "\\");
    assert!(parent_dir("\\").is_none());
    assert_eq!(file_name("C:\\data\\a.txt"), "a.txt");
    assert_eq!(file_name("data\\sub/a.txt"), "a.txt");
    assert_eq!(depth("C:\\data\\sub"), 2);
    assert_eq!(to_absolute_path("C:\\Windows\\System32", "D:\\work"), "C:\\Windows\\System32");
    assert_eq!(to_absolute_path("\\x", "/home"), "\\x");
    assert_eq!(to_absolute_path("a.txt", "D:\\work"), "D:\\work/a.txt");
    assert_eq!(to_absolute_path("a.txt", "D:\\work\\"), "D:\\work\\a.txt");
}

#[test]
fn replacing_agrees_with_the_standard_library() {
    for sample in ["", "a", "a\\b\\c", "\\\\", "a/b", "ä\\ö"] {
        assert_eq!(replace_char(sample, '\\', '/'), sample.replace('\\', "/"));
    }
    assert_eq!(replace_char("aXbX", 'X', 'Y'), "aYbY");
}

#[test]
fn normalizing_agrees_with_the_standard_library() {
    for sample in ["", "A\\B", "ΑΣ\\ΟΣ", "İstanbul\\X", "ß/ẞ", "mixed/Case\\Path.TXT"] {
        assert_eq!(normalize_path(sample), sample.to_lowercase().replace('\\', "/"));
    }
}

#[test]
fn clean_paths_split_as_in_the_standard_library() {
    for sample in [
        "/data/sub/a.txt",
        "/a.txt",
        "a.txt",
        "data/a",
        "/a/b/c/d.e.f",
        "/",
        "",
        "rel/dir/file with space",
        "/data/.hidden",
    ] {
        let parent = Path::new(sample).parent().map(|p| p.to_string_lossy().to_string());
        assert_eq!(parent_dir(sample), parent, "{:?}", sample);
        let name = Path::new(sample)
            .file_name()
            .map(|n| n.to_string_lossy().to_string())
            .unwrap_or_default();
        assert_eq!(file_name(sample), name, "{:?}", sample);
        assert_eq!(depth(sample), sample.matches(std::path::MAIN_SEPARATOR).count());
    }
}

#[test]
fn paths_resolve_as_in_the_standard_library() {
    for (path, dir) in [
        ("/usr/bin", "/home"),
        ("test_file.txt", "/home/user"),
        ("a/b", "/home/user/"),
        ("a", "/"),
        ("a", ""),
        ("", "/home"),
        ("./a", "/home"),
    ] {
        let joined = PathBuf::from(dir).join(path).to_string_lossy().to_string();
        assert_eq!(to_absolute_path(path, dir), joined, "{:?} in {:?}", path, dir);
    }
}
