use remote_executor::context::ToolContext;
use remote_executor::hash::hash_bytes;
use remote_executor::json::Json;
use remote_executor::protocol::ToolResult;
use remote_executor::patch::apply::PatchMode;
use remote_executor::tools::file_action::{
    apply_text_patch, create_file_action, delete_file_action, guard_hash, patch_file_action,
    rename_destination, rename_file_action, required_patch_text, FileActionMode,
    FileActionOptions,
};

fn ctx() -> ToolContext {
    ToolContext::new(Some("/work".to_string()), None, false)
}

fn patch_action(patch: &str, mode: PatchMode, hash: Option<String>) -> FileActionOptions {
    FileActionOptions {
        mode: FileActionMode::Patch,
        file_path: "file.txt".to_string(),
        new_file_path: None,
        patch_text: Some(patch.to_string()),
        content: None,
        patch_mode: mode,
        hash_check_mode: hash.is_some(),
        hash_code: hash,
    }
}

fn other_action(mode: FileActionMode, hash: Option<String>) -> FileActionOptions {
    FileActionOptions {
        mode,
        file_path: "file.txt".to_string(),
        new_file_path: None,
        patch_text: None,
        content: None,
        patch_mode: PatchMode::Text,
        hash_check_mode: hash.is_some(),
        hash_code: hash,
    }
}

fn patched(before: &[u8], o: &FileActionOptions) -> Result<(Vec<u8>, ToolResult), String> {
    let text = required_patch_text(o).map_err(|e| e.to_string())?;
    guard_hash("/work/file.txt", o, before).map_err(|e| e.to_string())?;
    patch_file_action(&ctx(), "/work/file.txt", o, text, before.to_vec())
        .map_err(|e| e.to_string())
}

fn contains_text(j: &Json, needle: &str) -> bool {
    match j {
        Json::Text(s) => s.contains(needle),
        Json::Array(v) => v.iter().any(|x| contains_text(x, needle)),
        Json::Object(v) => v.iter().any(|(k, x)| k.contains(needle) || contains_text(x, needle)),
        _ => false,
    }
}

fn output_text(r: &ToolResult) -> &str {
    r.output.get_text("text").unwrap()
}

fn file(r: &ToolResult) -> &Json {
    r.metadata.get("file").unwrap()
}

#[test]
fn file_action_rejects_non_patch_text_without_writing() {
    let o = patch_action("this is not a unified diff", PatchMode::Text, None);
    assert!(patched(b"base\n", &o).is_err(), "plain text patch should fail");
}

#[test]
fn file_action_applies_unified_diff_patch_with_hash_check() {
    let before = b"one\ntwo\nthree\n";
    let o = patch_action(
        "@@ -1,3 +1,4 @@\n one\n-two\n+TWO\n three\n+four\n",
        PatchMode::Text,
        Some(hash_bytes(before)),
    );
    let (after, result) = patched(before, &o).unwrap();
    assert_eq!(after, b"one\nTWO\nthree\nfour\n".to_vec());
    let new_hash = result.metadata.get_text("hashCode").unwrap();
    assert!(new_hash.starts_with("sha256:"));
    assert!(output_text(&result).contains(new_hash));
    assert!(file(&result).get("before").is_none());
    assert!(file(&result).get("after").is_none());
}

#[test]
fn file_action_patch_result_does_not_return_full_file_contents() {
    let tail = "secret-tail-line-that-should-not-be-returned";
    let mut content = String::from("one\n");
    for idx in 0..40 {
        content.push_str(&format!("middle-{idx}\n"));
    }
    content.push_str(tail);
    content.push('\n');
    let o = patch_action("@@ -1 +1 @@\n-one\n+ONE\n", PatchMode::Text, None);
    let (_, result) = patched(content.as_bytes(), &o).unwrap();
    assert!(file(&result).get("before").is_none());
    assert!(file(&result).get("after").is_none());
    assert!(!contains_text(&result.metadata, tail), "metadata returned full file content");
}

#[test]
fn file_action_applies_binary_offset_patch_with_hash_check() {
    let before = [0x00u8, 0x01, 0x02, 0x03, 0x04];
    let o = patch_action(
        "insert 0\n+FE\nreplace 1 2\n+AA BB\ndelete 4 1\ninsert -1\n+CC\n+DD",
        PatchMode::Binary,
        Some(hash_bytes(&before)),
    );
    let (after, result) = patched(&before, &o).unwrap();
    assert_eq!(after, vec![0xFEu8, 0x00, 0xAA, 0xBB, 0x03, 0xCC, 0xDD]);
    assert!(result.metadata.get_text("hashCode").unwrap().starts_with("sha256:"));
    assert_eq!(file(&result).get_text("type"), Some("binary-update"));
    assert!(file(&result).get("before").is_none());
    assert!(file(&result).get("after").is_none());
}

#[test]
fn file_action_binary_rejects_copy_body_lines() {
    let o = patch_action("replace 0 1\ncopy 0 1", PatchMode::Binary, None);
    let err = patched(&[0x00, 0x01], &o).err().unwrap();
    assert!(err.contains("copy body lines are not supported"), "{err}");
}

#[test]
fn file_action_rejects_stale_hash_without_writing() {
    let o = patch_action(
        "@@ -1,2 +1,2 @@\n one\n-two\n+TWO\n",
        PatchMode::Text,
        Some(format!("sha256:{}", "0".repeat(64))),
    );
    let err = patched(b"one\ntwo\n", &o).err().unwrap();
    assert!(err.contains("hash mismatch"), "{err}");
}

#[test]
fn file_action_rejects_old_patch_envelope_format() {
    let o = patch_action(
        "*** Begin Patch\n*** Update File: file.txt\n@@\n-before\n+after\n*** End Patch",
        PatchMode::Text,
        None,
    );
    let err = patched(b"before\n", &o).err().unwrap();
    assert!(err.contains("old patch envelope"), "{err}");
}

#[test]
fn file_action_creates_text_file() {
    let mut o = other_action(FileActionMode::Create, None);
    o.content = Some("hello\n".to_string());
    o.hash_check_mode = true;
    let (bytes, result) = create_file_action(&ctx(), "/work/created.txt", &o, false).unwrap();
    assert_eq!(bytes, b"hello\n".to_vec());
    assert_eq!(file(&result).get_text("type"), Some("create"));
    assert!(result.metadata.get_text("hashCode").unwrap().starts_with("sha256:"));
    assert!(file(&result).get("before").is_none());
    assert!(file(&result).get("after").is_none());
}

#[test]
fn file_action_create_needs_content_and_a_free_place() {
    let mut o = other_action(FileActionMode::Create, None);
    let err = create_file_action(&ctx(), "/work/new.txt", &o, false).err().unwrap();
    assert_eq!(err.to_string(), "content is required for mode=create");
    o.content = Some(String::new());
    let err = create_file_action(&ctx(), "/work/new.txt", &o, true).err().unwrap();
    assert_eq!(err.to_string(), "cannot create existing file: /work/new.txt");
}

#[test]
fn file_action_deletes_file_with_hash_check() {
    let before = b"remove me\n";
    let o = other_action(FileActionMode::Delete, Some(hash_bytes(before)));
    let result = delete_file_action(&ctx(), "/work/delete.txt", &o, before).unwrap();
    assert_eq!(file(&result).get_text("type"), Some("delete"));
    assert!(result.metadata.get("hashCode").is_none());
    assert!(file(&result).get("before").is_none());
    assert!(file(&result).get("after").is_none());
    assert_eq!(output_text(&result), "Success. Deleted file:\nD delete.txt");
}

#[test]
fn file_action_renames_file_with_hash_check() {
    let before = b"move me\n";
    let mut o = other_action(FileActionMode::Rename, Some(hash_bytes(before)));
    o.new_file_path = Some("new.txt".to_string());
    let to = rename_destination(&ctx(), "/work/old.txt", &o, before).unwrap();
    assert_eq!(to, "/work/new.txt");
    let result = rename_file_action(&ctx(), "/work/old.txt", &to, false, &o, before).unwrap();
    assert_eq!(file(&result).get_text("type"), Some("rename"));
    assert!(file(&result).get_text("newFilePath").unwrap().ends_with("new.txt"));
    assert!(result.metadata.get_text("hashCode").unwrap().starts_with("sha256:"));
    assert!(output_text(&result).starts_with("Success. Renamed file:\nR old.txt -> new.txt"));
    assert!(rename_file_action(&ctx(), "/work/old.txt", &to, true, &o, before).is_err());
    o.new_file_path = None;
    assert_eq!(
        rename_destination(&ctx(), "/work/old.txt", &o, before).unwrap_err().to_string(),
        "newFilePath is required for mode=rename"
    );
}

#[test]
fn file_action_applies_unified_diff_patch_with_diffy() {
    let output = apply_text_patch(
        "hello\nworld\n",
        "--- file.txt\n+++ file.txt\n@@ -1,2 +1,2 @@\n-hello\n+HELLO\n world\n",
    )
    .unwrap();
    assert_eq!(output, "HELLO\nworld\n");
}

#[test]
fn file_action_applies_hunk_only_unified_diff_patch() {
    let output =
        apply_text_patch("hello\nworld\n", "@@ -1,2 +1,2 @@\n-hello\n+HELLO\n world\n").unwrap();
    assert_eq!(output, "HELLO\nworld\n");
}

#[test]
fn line_instructions_use_the_lines_of_the_snapshot() {
    let text = "1\n2\n3\n4\n5\n";
    assert_eq!(apply_text_patch(text, "***DELETE*** 2-3").unwrap(), "1\n4\n5\n");
    assert_eq!(apply_text_patch(text, "***MOVE*** 1-2,4").unwrap(), "3\n4\n1\n2\n5\n");
    assert_eq!(apply_text_patch(text, "***MOVE*** 4-5,0").unwrap(), "4\n5\n1\n2\n3\n");
    assert_eq!(apply_text_patch(text, "***MOVE*** 1-1,-1").unwrap(), "2\n3\n4\n5\n1\n");
    assert_eq!(
        apply_text_patch(text, "***APPEND_HEAD*** 1\nx\ny\n***APPEND_END***").unwrap(),
        "1\nx\ny\n2\n3\n4\n5\n"
    );
    assert_eq!(
        apply_text_patch(text, "5:FIVE\n***APPEND_HEAD*** 5\nextra\n***APPEND_END***").unwrap(),
        "1\n2\n3\n4\nFIVE\nextra\n"
    );
}

#[test]
fn moving_keeps_every_line() {
    let text = "a\nb\nc\nd\n";
    for (from, to) in [("1-2", "3"), ("2-4", "0"), ("3-3", "-1"), ("1-1", "4")] {
        let out = apply_text_patch(text, &format!("***MOVE*** {from},{to}")).unwrap();
        let mut lines: Vec<&str> = out.lines().collect();
        lines.sort();
        assert_eq!(lines, ["a", "b", "c", "d"]);
    }
}

#[test]
fn line_instructions_that_do_not_fit_are_refused() {
    let text = "1\n2\n3\n";
    for patch in [
        "***DELETE*** 4-4",
        "***DELETE*** 2-1",
        "***MOVE*** 1-2,1",
        "***DELETE*** 1-2\n2:x",
        "9:x",
        "***APPEND_HEAD*** 1\nx",
        "0:x",
        "",
    ] {
        assert!(apply_text_patch(text, patch).is_err(), "{patch}");
    }
}

#[test]
fn patch_text_is_required() {
    let mut o = patch_action("x", PatchMode::Text, None);
    o.patch_text = None;
    assert_eq!(
        required_patch_text(&o).unwrap_err().to_string(),
        "patchText is required for mode=patch"
    );
}

#[test]
fn a_told_hash_opens_the_file_for_the_next_change() {
    let before = b"one\n";
    let o = patch_action("1:two", PatchMode::Text, Some(hash_bytes(before)));
    let (after, result) = patched(before, &o).unwrap();
    assert_eq!(after, b"two\n".to_vec());
    let told = result.metadata.get_text("hashCode").unwrap().to_string();
    assert_eq!(told, hash_bytes(b"two\n"));
    let next = patch_action("1:three", PatchMode::Text, Some(told.clone()));
    assert_eq!(patched(&after, &next).unwrap().0, b"three\n".to_vec());
    let stale = patch_action("1:four", PatchMode::Text, Some(told));
    assert!(patched(b"three\n", &stale).unwrap_err().contains("hash mismatch"));
}

#[test]
fn results_name_files_as_requests_do() {
    for path in ["a.txt", "src/lib.rs", ".hidden/x", "a/b/c"] {
        assert_eq!(ctx().title(&ctx().resolve(path)), path);
    }
    assert_eq!(ctx().title("/elsewhere/a"), "/elsewhere/a");
}
