use remote_executor::context::ToolContext;
use remote_executor::fs_ops;
use remote_executor::hash::hash_bytes;
use remote_executor::json::Json;
use remote_executor::protocol::ToolResult;
use remote_executor::tools::fs::glob::{GlobOptions, GlobSearch};
use remote_executor::tools::fs::read::{
    hexdump, plan_read, read_binary_file, read_dir, read_file, truncate_line, window_end, ReadMode,
    ReadOptions, ReadPlan,
};
use remote_executor::tools::fs::stamp::{
    file_stamp, format_file_stamp, stat_path, FileFacts, FileKind, FileStamp,
};

fn ctx() -> ToolContext {
    ToolContext::new(Some("/work".to_string()), None, false)
}

fn facts(path: &str, len: u64, id: &str) -> FileFacts {
    FileFacts {
        is_file: true,
        is_dir: false,
        len,
        mtime_ms: Some(1_700_000_000_123),
        canonical: Some(path.to_string()),
        file_id: Some(id.to_string()),
    }
}

fn stamp(path: &str, len: u64) -> FileStamp {
    file_stamp(path, Some(facts(path, len, "Inode { device_id: 1, inode_number: 2 }")))
}

fn read_options(mode: Option<ReadMode>, offset: Option<usize>, limit: Option<usize>) -> ReadOptions {
    ReadOptions {
        file_path: "sample.txt".to_string(),
        mode,
        offset,
        limit,
        hash_check_mode: false,
    }
}

fn text<'a>(r: &'a ToolResult, key: &str) -> &'a str {
    r.output.get_text(key).unwrap()
}

#[test]
fn test_glob_paths_uses_pattern_matching() {
    let options =
        GlobOptions { pattern: "*.rs".to_string(), path: Some("/work".to_string()) };
    let mut search = GlobSearch::start(&options, &ctx()).unwrap();
    assert_eq!(search.root(), "/work");
    for path in ["/work/a.rs", "/work/b.txt"] {
        if search.matches(path) {
            assert!(search.offer(path, 1));
        }
    }
    let result = search.finish();
    assert_eq!(text(&result, "text").lines().count(), 1);
    assert!(text(&result, "text").contains("a.rs"));
    assert_eq!(result.metadata.get("count").unwrap().as_u64(), Some(1));
}

#[test]
fn glob_shows_the_newest_first_and_knows_of_more() {
    let options = GlobOptions { pattern: "**/*.rs".to_string(), path: None };
    let mut search = GlobSearch::start(&options, &ctx()).unwrap();
    for i in 0..100u128 {
        assert!(search.offer(&format!("/work/{i}.rs"), i));
    }
    search.offer("/work/late.rs", 500);
    let result = search.finish();
    let shown = text(&result, "text");
    assert!(shown.starts_with("/work/99.rs\n/work/98.rs\n"));
    assert!(shown.contains("Results are truncated: showing first 100 results"));
    assert!(!shown.contains("late.rs"));
    assert!(matches!(result.metadata.get("truncated"), Some(Json::Bool(true))));
}

#[test]
fn glob_needs_a_pattern_that_is_one() {
    let empty = GlobOptions { pattern: String::new(), path: None };
    assert_eq!(
        GlobSearch::start(&empty, &ctx()).err().unwrap().to_string(),
        "pattern is required"
    );
    let broken = GlobOptions { pattern: "[".to_string(), path: None };
    assert!(GlobSearch::start(&broken, &ctx()).is_err());
    let none = GlobOptions { pattern: "*.rs".to_string(), path: Some("sub".to_string()) };
    let search = GlobSearch::start(&none, &ctx()).unwrap();
    assert_eq!(search.root(), "/work/sub");
    assert_eq!(text(&search.finish(), "text"), "No files found");
}

#[test]
fn test_read_path_reports_binary_offset_and_byte() {
    let bytes = [0x41u8, 0x42, 0x00, 0x43];
    let err = read_file("/work/binary.dat", &stamp("/work/binary.dat", 4), &bytes, 1, 2000, None)
        .unwrap_err()
        .to_string();
    assert!(err.contains("offset 2"), "{err}");
    assert!(err.contains("0x00"), "{err}");
}

#[test]
fn test_read_path_binary_mode_returns_limited_hexdump() {
    let bytes: Vec<u8> = (0u8..=200).collect();
    let o = read_options(Some(ReadMode::Binary), Some(1), Some(999));
    let plan = plan_read(&o, "/work/binary.dat", true, false).unwrap();
    let (offset, limit) = match plan {
        ReadPlan::Binary { offset, limit } => (offset, limit),
        _ => panic!("expected a binary read"),
    };
    let output =
        read_binary_file(&stamp("/work/binary.dat", 201), &bytes, offset, limit, None).unwrap();
    assert!(text(&output, "info").contains("Use offset=129"));
    assert!(text(&output, "text").contains("00000001"));
    assert_eq!(text(&output, "message"), "");
}

#[test]
fn test_read_path_reads_file_with_lines() {
    let bytes = b"one\ntwo\nthree\n";
    let output =
        read_file("/work/sample.txt", &stamp("/work/sample.txt", 14), bytes, 2, 1, None).unwrap();
    assert!(text(&output, "text").contains("2: two"));
    assert!(text(&output, "info").contains("Use offset=3"));
    let file = output.metadata.get("file").unwrap();
    assert_eq!(file.get_text("kind"), Some("file"));
    assert!(file.get_text("fileKey").unwrap().contains(':'));
    assert!(file.get_text("canonicalPath").unwrap().ends_with("sample.txt"));
    assert_eq!(file.get("size").unwrap().as_u64(), Some(14));
    assert!(file.get("mtimeMs").unwrap().as_u64().is_some());
}

#[test]
fn reading_in_windows_shows_every_line_once() {
    let bytes = b"a\nb\nc\nd\ne";
    let file = stamp("/work/sample.txt", 9);
    let mut shown = Vec::new();
    let mut offset = 1;
    while offset <= 5 {
        let out = read_file("/work/sample.txt", &file, bytes, offset, 2, None).unwrap();
        shown.extend(text(&out, "text").lines().map(|l| l.to_string()));
        offset += 2;
    }
    assert_eq!(shown, ["1: a", "2: b", "3: c", "4: d", "5: e"]);
    let whole = read_file("/work/sample.txt", &file, bytes, 1, 2000, None).unwrap();
    assert_eq!(text(&whole, "info"), "total 5 lines");
    assert!(read_file("/work/sample.txt", &file, bytes, 6, 1, None).is_err());
    assert_eq!(
        read_file("/work/sample.txt", &file, bytes, 0, 1, None).unwrap_err().to_string(),
        "offset must be greater than or equal to 1"
    );
}

#[test]
fn long_lines_are_cut_at_a_character() {
    let line: Vec<char> = "é".repeat(1001).chars().collect();
    let cut = truncate_line(&line);
    assert_eq!(cut, format!("{}... (line truncated to 2000 chars)", "é".repeat(1000)));
    let short: Vec<char> = "x".repeat(2000).chars().collect();
    assert_eq!(truncate_line(&short), "x".repeat(2000));
}

#[test]
fn directories_are_listed_in_order() {
    let entries = vec![("b".to_string(), true), ("a.txt".to_string(), false)];
    let out = read_dir(&stamp("/work", 0), entries, 1, 2000).unwrap();
    assert_eq!(text(&out, "text"), "a.txt\nb/");
    assert_eq!(text(&out, "info"), "total 2 entries");
}

#[test]
fn read_plans_follow_the_kind_of_path() {
    let o = read_options(None, None, None);
    assert!(matches!(
        plan_read(&o, "/work", false, true).unwrap(),
        ReadPlan::Directory { offset: 1, limit: 2000 }
    ));
    assert!(matches!(
        plan_read(&o, "/work/f", true, false).unwrap(),
        ReadPlan::Text { offset: 1, limit: 2000 }
    ));
    let b = read_options(Some(ReadMode::Binary), None, None);
    assert_eq!(
        plan_read(&b, "/work", false, true).unwrap_err().to_string(),
        "binary read mode only supports files: /work"
    );
    let mut h = read_options(None, None, None);
    h.hash_check_mode = true;
    assert_eq!(
        plan_read(&h, "/work", false, true).unwrap_err().to_string(),
        "hashCheckMode only supports files: /work"
    );
}

#[test]
fn hexdump_shows_offset_bytes_and_text() {
    assert_eq!(
        hexdump(b"AB\x00", 16),
        format!("00000010  41 42 00{}  |AB.|", "   ".repeat(13))
    );
    assert!(hexdump(b"x", 0xAB).starts_with("000000AB  78 "));
}

#[test]
fn windows_stay_inside() {
    assert_eq!(window_end(10, 3, 4), (2, 6));
    assert_eq!(window_end(10, 9, 4), (8, 10));
}

#[test]
fn test_stat_path_returns_file_stamp_for_files_and_missing_paths() {
    let file = stamp("/work/sample.txt", 4);
    let read = read_file("/work/sample.txt", &file, b"one\n", 1, 2000, None).unwrap();
    let stat = stat_path(&file);
    for key in ["fileKey", "canonicalPath", "kind"] {
        assert_eq!(
            read.metadata.get("file").unwrap().get_text(key),
            stat.metadata.get("file").unwrap().get_text(key)
        );
    }
    let missing = stat_path(&file_stamp("/work/missing.txt", None));
    let file = missing.metadata.get("file").unwrap();
    assert_eq!(file.get_text("kind"), Some("missing"));
    assert!(file.get_text("fileKey").unwrap().starts_with("missing:"));
}

#[test]
fn test_file_stamp_uses_physical_identity_for_hard_links() {
    let first = stamp("/work/first.txt", 11);
    let second = stamp("/work/second.txt", 11);
    assert_eq!(first.file_key, second.file_key);
    assert_ne!(first.canonical_path, second.canonical_path);
    assert_eq!(first.file_key, "file-id:Inode { device_id: 1, inode_number: 2 }");
    assert!(matches!(first.kind, FileKind::File));
    assert!(format_file_stamp(&first).starts_with("kind: file\ncanonicalPath: /work/first.txt\n"));
}

#[test]
fn test_read_path_returns_hash_code_when_requested() {
    let bytes = b"one\ntwo\n";
    let output = read_file(
        "/work/sample.txt",
        &stamp("/work/sample.txt", 8),
        bytes,
        1,
        1,
        Some(hash_bytes(bytes)),
    )
    .unwrap();
    let hash_code = output.metadata.get_text("hashCode").unwrap();
    assert!(hash_code.starts_with("sha256:"));
    assert_eq!(hash_code.len(), "sha256:".len() + 64);
}

#[test]
fn fs_ops_read_path_reports_binary_offset_and_byte() {
    let bytes = [0x41u8, 0x42, 0x00, 0x43];
    let err = fs_ops::read_file(
        "/work/binary.dat",
        &ctx(),
        &stamp("/work/binary.dat", 4),
        &bytes,
        1,
        2000,
    )
    .unwrap_err()
    .to_string();
    assert!(err.contains("offset 2"), "{err}");
    assert!(err.contains("0x00"), "{err}");
}

#[test]
fn fs_ops_read_path_binary_mode_returns_limited_hexdump() {
    let bytes: Vec<u8> = (0u8..=200).collect();
    let output = fs_ops::read_binary_file(
        "/work/binary.dat",
        &ctx(),
        &stamp("/work/binary.dat", 201),
        &bytes,
        1,
        999,
    )
    .unwrap();
    assert!(output.output.contains("Use offset=129"), "{}", output.output);
    assert!(output.output.contains("00000001"));
}

#[test]
fn fs_ops_read_path_reads_file_with_lines() {
    let output = fs_ops::read_file(
        "/work/sample.txt",
        &ctx(),
        &stamp("/work/sample.txt", 14),
        b"one\ntwo\nthree\n",
        2,
        1,
    )
    .unwrap();
    assert!(output.output.contains("2: two"));
    assert!(output.output.contains("Use offset=3"));
    assert_eq!(output.metadata.get("file").unwrap().get_text("kind"), Some("file"));
}

#[test]
fn titled_results_name_what_they_are_about() {
    let options = GlobOptions { pattern: "*.rs".to_string(), path: Some("src".to_string()) };
    let mut search = GlobSearch::start(&options, &ctx()).unwrap();
    assert!(search.offer("/work/src/a.rs", 1));
    assert!(search.offer("/work/src/b.rs", 2));
    let found = fs_ops::glob_output(&search, &ctx());
    assert_eq!(found.title, "src");
    assert_eq!(found.output, "/work/src/b.rs\n/work/src/a.rs");
    assert_eq!(found.metadata.get("count").unwrap().as_u64(), Some(2));
    let told = fs_ops::stat_output("/work/a.rs", &ctx(), &stamp("/work/a.rs", 3), "text".to_string());
    assert_eq!(told.title, "a.rs");
    assert_eq!(told.output, "text");
    assert_eq!(told.metadata.get("file").unwrap().get_text("kind"), Some("file"));
}
