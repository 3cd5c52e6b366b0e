use cpuguard::paths::{extension, file_name, file_name_or_empty, file_name_or_self, join_path};
use cpuguard::text::{
    contains, number_list, parse_u32, parse_u64, parse_usize, split_at_char, split_lines,
    split_once, split_words, starts_with, to_decimal, to_hex8, trim,
};

#[test]
fn decimals_round_trip() {
    for n in [0u64, 7, 10, 4321, u64::MAX] {
        assert_eq!(to_decimal(n), n.to_string());
        assert_eq!(parse_u64(&to_decimal(n)), Some(n));
    }
}

#[test]
fn numbers_are_read_as_rust_reads_them() {
    for s in ["", "0", "+7", "-7", "007", "4294967295", "4294967296", " 7", "7x", "+", "1_0"] {
        assert_eq!(parse_u32(s), s.parse::<u32>().ok(), "{s:?}");
        assert_eq!(parse_usize(s), s.parse::<usize>().ok(), "{s:?}");
    }
}

#[test]
fn texts_are_split_as_rust_splits_them() {
    for s in ["", " a  b\tc\n", "a\r\nb\n\nc", "\n", "\u{3000}x\u{85}y", "a:b::c", ":"] {
        assert_eq!(split_words(s), s.split_whitespace().collect::<Vec<_>>(), "{s:?}");
        assert_eq!(split_lines(s), s.lines().collect::<Vec<_>>(), "{s:?}");
        assert_eq!(split_at_char(s, ':'), s.split(':').collect::<Vec<_>>(), "{s:?}");
        assert_eq!(trim(s), s.trim(), "{s:?}");
    }
}

#[test]
fn parts_are_found() {
    assert!(contains("abcabc", "cab") && !contains("abc", "x") && contains("abc", ""));
    assert!(starts_with("abc", "ab") && !starts_with("abc", "b"));
    assert_eq!(split_once("k=v=w", "="), Some(("k".to_string(), "v=w".to_string())));
    assert_eq!(split_once("kvw", "="), None);
}

#[test]
fn numbers_are_written() {
    assert_eq!(to_hex8(0xab), "000000ab");
    assert_eq!(to_hex8(u32::MAX), "ffffffff");
    assert_eq!(number_list(&vec![1, 22, 333]), "1, 22, 333");
    assert_eq!(number_list(&vec![]), "");
}

#[test]
fn paths_are_taken_apart_as_rust_does() {
    for s in ["/usr/bin/node", "node", "/", "", "a/..", "a/.", "a//b/", "..", "/a/./"] {
        let own = std::path::Path::new(s).file_name().map(|n| n.to_string_lossy().to_string());
        assert_eq!(file_name(s), own, "{s:?}");
        assert_eq!(file_name_or_empty(s), own.clone().unwrap_or_default());
        assert_eq!(file_name_or_self(s), own.unwrap_or(s.to_string()));
    }
    for s in ["a.plist", ".plist", "a.b.plist", "a", "dir.x/a", "a.", "/x/.hidden.txt", ".."] {
        let own = std::path::Path::new(s).extension().map(|n| n.to_string_lossy().to_string());
        assert_eq!(extension(s), own, "{s:?}");
    }
    for (dir, tail) in [("/a", "b"), ("/a/", "b"), ("", "b"), ("/a", "/b"), ("a", "")] {
        let own = std::path::Path::new(dir).join(tail).to_string_lossy().to_string();
        assert_eq!(join_path(dir, tail), own, "{dir:?} {tail:?}");
    }
}
