use remote_executor::bytes::{position_of_bytes, utf8_of};
use remote_executor::diff::{apply_unified_diff, count_diff_lines, diff_text};
use remote_executor::edits::{edit_bytes, edit_lines, Edit};
use remote_executor::hash::{format_digest, hash_bytes, normalize_hash_code};
use remote_executor::hex::{bytes_hex, decode_hex};
use remote_executor::order::{order_by_time, sort_texts};
use remote_executor::paths::{file_name, is_absolute, join, parent, same_path, title};
use remote_executor::shape::{join_text_lines, split_text_lines, TextShape};
use remote_executor::table::NameTable;
use remote_executor::text::number::{decimal, parse_u64};
use remote_executor::text::split::{
    split_at_text, split_lines, split_words, trimmed, with_all_replaced,
};
use remote_executor::text::width::cut;
use remote_executor::shell_manager::ConnectedClient;
use std::path::Path;

fn chars(s: &str) -> Vec<char> {
    s.chars().collect()
}

fn text(s: &[char]) -> String {
    s.iter().collect()
}

#[test]
fn paths_agree_with_std() {
    let all = [
        "", "/", "a", "a/", "/a", "/a/b", "a/b/c", "./a", "a/./b", "a//b", "/a/../b", ".", "..",
        "a/..", "//a", "/.", "./", "a/b/", ".hidden", "a.b/c.d",
    ];
    for p in all {
        assert_eq!(is_absolute(false, p), Path::new(p).is_absolute(), "{p}");
        assert_eq!(
            parent(false, p),
            Path::new(p).parent().map(|d| d.to_string_lossy().into_owned()),
            "{p}"
        );
        assert_eq!(
            file_name(false, p),
            Path::new(p).file_name().map(|d| d.to_string_lossy().into_owned()),
            "{p}"
        );
        for q in all {
            assert_eq!(join(false, p, q), Path::new(p).join(q).to_string_lossy(), "{p} {q}");
            assert_eq!(same_path(false, p, q), Path::new(p) == Path::new(q), "{p} {q}");
            let stripped = Path::new(p)
                .strip_prefix(q)
                .unwrap_or(Path::new(p))
                .to_string_lossy()
                .replace('\\', "/");
            assert_eq!(title(false, q, p), stripped, "{p} below {q}");
        }
    }
}

#[test]
fn texts_split_as_std_does() {
    for s in ["", "a", "a\n", "a\nb", "\n", "a\r\nb\r\n", "a\rb", " x  y ", "\u{a0}x\u{3000}y"] {
        let c = chars(s);
        let lines: Vec<String> = split_lines(&c).iter().map(|l| text(l)).collect();
        assert_eq!(lines, s.lines().collect::<Vec<_>>());
        let words: Vec<String> = split_words(&c).iter().map(|l| text(l)).collect();
        assert_eq!(words, s.split_whitespace().collect::<Vec<_>>());
        assert_eq!(text(trimmed(&c)), s.trim());
        let parts: Vec<String> = split_at_text(&c, "\r\n").iter().map(|l| text(l)).collect();
        assert_eq!(parts, s.split("\r\n").collect::<Vec<_>>());
        assert_eq!(with_all_replaced(&c, "a", "bb"), s.replace("a", "bb"));
    }
}

#[test]
fn numbers_parse_as_std_does() {
    for s in ["0", "+7", "18446744073709551615", "18446744073709551616", "", "+", "-1", "1x", "007"] {
        assert_eq!(parse_u64(&chars(s)), s.parse::<u64>().ok(), "{s}");
    }
    assert_eq!(decimal(0), "0");
    assert_eq!(decimal(u64::MAX), u64::MAX.to_string());
}

#[test]
fn hashes_are_those_of_the_standard() {
    let empty = "sha256:e3b0c44298fc1c149afbf4c8996fb92427ae41e4649b934ca495991b7852b855";
    assert_eq!(hash_bytes(b""), empty);
    assert_eq!(
        hash_bytes(b"abc"),
        "sha256:ba7816bf8f01cfea414140de5dae2223b00361a396177a9cb410ff61f20015ad"
    );
    assert_eq!(format_digest(&[0, 255]), "sha256:00ff");
    assert_eq!(normalize_hash_code(&empty.to_uppercase().replace("SHA", "sha")).unwrap(), empty);
    assert_eq!(normalize_hash_code(&empty[7..]).unwrap(), empty);
    assert!(normalize_hash_code("sha256:12").is_err());
}

#[test]
fn hex_goes_both_ways() {
    assert_eq!(decode_hex(&chars("AA bb 0f")).unwrap(), vec![0xaa, 0xbb, 0x0f]);
    assert!(decode_hex(&chars("A")).is_err());
    assert!(decode_hex(&chars("zz")).is_err());
    assert_eq!(bytes_hex(&[0xaa, 0x0f]), "AA 0F");
}

#[test]
fn diffs_are_made_and_applied() {
    let diff = diff_text("f.txt", "a\nb\n", "a\nB\n");
    assert!(diff.contains("-b\n+B\n"), "{diff}");
    assert_eq!(count_diff_lines(&diff, '+'), 1);
    assert_eq!(count_diff_lines(&diff, '-'), 1);
    assert_eq!(apply_unified_diff("a\nb\n", &diff).unwrap(), "a\nB\n");
    assert!(apply_unified_diff("x\n", &diff).is_err());
    assert!(apply_unified_diff("x\n", "@@ nonsense").is_err());
}

fn edit(start: usize, end: usize, with: &[u8], order: usize) -> Edit<u8> {
    Edit { start, end, replacement: with.to_vec(), order }
}

#[test]
fn edits_speak_of_the_original() {
    let edits = vec![edit(3, 4, b"D", 1), edit(0, 0, b"^", 0), edit(1, 2, b"", 2)];
    assert_eq!(edit_bytes(b"abcd", edits).unwrap(), b"^acD".to_vec());
    let overlap = vec![edit(0, 2, b"", 0), edit(1, 3, b"", 1)];
    assert!(edit_bytes(b"abcd", overlap).is_none());
    let lines = vec!["x".to_string(), "y".to_string()];
    let out = edit_lines(
        &lines,
        vec![Edit { start: 2, end: 2, replacement: vec!["z".to_string()], order: 0 }],
    );
    assert_eq!(out.unwrap(), ["x", "y", "z"]);
}

#[test]
fn the_shape_of_a_text_survives() {
    for bytes in [
        b"a\nb\n".to_vec(),
        b"a\r\nb\r\n".to_vec(),
        b"\xEF\xBB\xBFa\nb".to_vec(),
        b"".to_vec(),
    ] {
        let shape = TextShape::from_bytes(bytes.clone()).unwrap();
        assert_eq!(shape.encode(&shape.text), bytes);
    }
    assert!(TextShape::from_bytes(vec![0xff]).is_err());
    let (lines, end) = split_text_lines("a\nb\n");
    assert_eq!(join_text_lines(&lines, end), "a\nb\n");
}

#[test]
fn order_is_that_of_std() {
    let mut words: Vec<String> =
        ["b", "", "a", "ab", "é", "Z", "a"].iter().map(|s| s.to_string()).collect();
    let sorted = sort_texts(words.clone());
    words.sort();
    assert_eq!(sorted, words);
    assert_eq!(order_by_time(&[3, 9, 3, 1]), vec![1, 0, 2, 3]);
}

#[test]
fn texts_are_cut_at_characters() {
    assert_eq!(cut(&chars("héllo"), 2, "~"), "h~");
    assert_eq!(cut(&chars("héllo"), 3, "~"), "hé~");
    assert_eq!(cut(&chars("héllo"), 6, "~"), "héllo");
    assert_eq!(position_of_bytes(&utf8_of("a\r\nb"), b"\r\n"), Some(1));
    assert_eq!(position_of_bytes(b"ab", b"c"), None);
}

fn client(token: u64) -> ConnectedClient {
    ConnectedClient { token, peer_addr: String::new() }
}

#[test]
fn tables_keep_their_names_in_order() {
    let t = NameTable::new()
        .with("b".to_string(), client(1))
        .with("a".to_string(), client(2))
        .with("c".to_string(), client(3))
        .with("b".to_string(), client(4));
    assert_eq!(t.len(), 3);
    let names: Vec<&str> = (0..3).map(|i| t.name_at(i)).collect();
    assert_eq!(names, ["a", "b", "c"]);
    assert_eq!(t.get("b").unwrap().token, 4);
    assert!(t.get("d").is_none());
    let (t, gone) = t.pop("a");
    assert_eq!(gone.unwrap().token, 2);
    assert_eq!(t.len(), 2);
    let (t, gone) = t.pop("a");
    assert!(gone.is_none());
    assert!(!t.is_empty());
    assert!(NameTable::<ConnectedClient>::new().is_empty());
}

#[test]
fn newest_comes_first_and_ties_keep_their_order() {
    assert_eq!(order_by_time(&[5, 9, 5, 7, 9]), vec![1, 4, 3, 0, 2]);
}

#[test]
fn written_bytes_and_numbers_read_back() {
    for bytes in [vec![], vec![0u8], vec![0x00, 0xFE, 0x10, 0xAB], (0..=127u8).collect()] {
        let shown = chars(&bytes_hex(&bytes));
        assert_eq!(decode_hex(&shown).unwrap(), bytes);
    }
    for n in [0u64, 7, 10, 65_536, u64::MAX] {
        assert_eq!(parse_u64(&chars(&decimal(n))), Some(n));
    }
}

#[test]
fn windows_paths_have_prefixes_and_two_separators() {
    for p in [r"C:\a", "c:/", r"\\server\share", r"\\server\share\a", r"\\.\COM42", r"\\?\C:\a"] {
        assert!(is_absolute(true, p), "{p}");
    }
    for p in ["", "a", r"a\b", "C:", "C:a", r"\a", "/a", r"\\server", r"\\server\"] {
        assert!(!is_absolute(true, p), "{p}");
    }
    assert_eq!(join(true, r"C:\a", "b"), r"C:\a\b");
    assert_eq!(join(true, r"C:\a\", "b"), r"C:\a\b");
    assert_eq!(join(true, "C:/a", "b/c"), r"C:/a\b/c");
    assert_eq!(join(true, r"C:\a", r"D:\b"), r"D:\b");
    assert_eq!(join(true, r"C:\a", "D:b"), "D:b");
    assert_eq!(join(true, r"C:\a", r"\b"), r"C:\b");
    assert_eq!(join(true, r"\\server\share\a", r"\b"), r"\\server\share\b");
    assert_eq!(join(true, "C:", "a"), "C:a");
    assert_eq!(join(true, r"\\?\C:\a\b", r"..\.\c"), r"\\?\C:\a\c");
    assert_eq!(join(true, r"\\?\C:\a", "/b/c"), r"\\?\C:\b\c");
    for p in ["a", r"\a", "/a", "D:a", r"D:\a", ""] {
        for base in [r"C:\work", r"\\server\share", "C:/"] {
            let once = join(true, base, p);
            assert_eq!(join(true, base, &once), once, "{base} {p}");
        }
    }
    assert!(same_path(true, "c:/a//b/.", r"C:\a\b"));
    assert!(same_path(true, "//server/share/a", r"\\server\share\a"));
    assert!(same_path(true, r"\\server\share", r"\\server\share\"));
    assert!(!same_path(true, r"C:\a", "C:a"));
    assert!(!same_path(true, r"C:\a", r"C:\A"));
    assert_eq!(parent(true, r"C:\a\b").as_deref(), Some(r"C:\a"));
    assert_eq!(parent(true, r"C:\a").as_deref(), Some(r"C:\"));
    assert_eq!(parent(true, "C:a").as_deref(), Some("C:"));
    assert_eq!(parent(true, r"C:\"), None);
    assert_eq!(parent(true, r"\\server\share"), None);
    assert_eq!(parent(true, "a").as_deref(), Some(""));
    assert_eq!(file_name(true, r"C:\a\b.txt").as_deref(), Some("b.txt"));
    assert_eq!(file_name(true, "C:"), None);
    assert_eq!(title(true, r"C:\work", r"c:\work\src\a.rs"), "src/a.rs");
    assert_eq!(title(true, r"C:\work", r"D:\a.rs"), "D:/a.rs");
}

#[test]
fn unified_diffs_with_huge_numbers_are_taken_where_they_can_be() {
    let huge = usize::MAX;
    let one = format!("--- a\n+++ b\n@@ -{huge} +{huge} @@\n-x\n+y\n");
    assert_eq!(apply_unified_diff("x\n", &one).unwrap(), "y\n");
    let two = format!("{one}@@ -1 +1 @@\n-x\n+y\n");
    assert_eq!(
        apply_unified_diff("x\n", &two).unwrap_err().to_string(),
        "error parsing patch: Hunks not in order or overlap"
    );
    let more = format!("--- a\n+++ b\n@@ -{huge}0 +1 @@\n-x\n+y\n");
    assert_eq!(
        apply_unified_diff("x\n", &more).unwrap_err().to_string(),
        "error parsing patch: can't parse range"
    );
}

#[test]
fn what_was_joined_stays() {
    for base in [r"\\?\C:\work", r"\\?\UNC\server\share", r"C:\work", r"\\server\share"] {
        for path in ["", "f", "a/../f", r"\f"] {
            let once = join(true, base, path);
            assert_eq!(join(true, base, once.as_str()), once, "{base} {path}");
        }
    }
    assert_eq!(join(true, r"\\?\C:\work", "a/../f"), r"\\?\C:\work\f");
    let nameless = join(true, r"\\?\\\\b/c", "f");
    assert_eq!(nameless, r"\\?\\b/c\f");
    assert!(join(true, r"\\?\\\\b/c", nameless.as_str()) != nameless);
}
