use remote_executor::context::ToolContext;
use remote_executor::hash::hash_bytes;
use remote_executor::json::Json;
use remote_executor::patch::apply::{apply_patch, check_request, ApplyOptions, PatchMode};

fn ctx() -> ToolContext {
    ToolContext::new(Some("/work".to_string()), None, false)
}

fn options(patch: &str, mode: PatchMode, hash: Option<String>) -> ApplyOptions {
    ApplyOptions {
        file_path: "file.txt".to_string(),
        patch_text: patch.to_string(),
        patch_mode: mode,
        hash_check_mode: hash.is_some(),
        hash_code: hash,
    }
}

fn text_under<'a>(j: &'a Json, key: &str) -> &'a str {
    j.get_text(key).unwrap()
}

#[test]
fn apply_patch_applies_line_number_patch_with_hash_check() {
    let before = b"one\ntwo\nthree\n".to_vec();
    let hash = hash_bytes(&before);
    let o = options("replace 2 2\n+TWO\ninsert -1\n+four", PatchMode::Text, Some(hash));
    let (after, result) = apply_patch(&o, &ctx(), "/work/file.txt", before).unwrap();
    assert_eq!(after, b"one\nTWO\nthree\nfour\n".to_vec());
    let new_hash = text_under(&result.metadata, "hashCode");
    assert!(new_hash.starts_with("sha256:"));
    assert!(result.output.contains(new_hash));
    assert_eq!(new_hash, hash_bytes(&after));
}

#[test]
fn apply_patch_applies_binary_offset_patch_with_hash_check() {
    let before = vec![0x00u8, 0x01, 0x02, 0x03, 0x04];
    let hash = hash_bytes(&before);
    let o = options(
        "insert 0\n+FE\nreplace 1 2\n+AA BB\ndelete 4 1\ninsert -1\n+CC\n+DD",
        PatchMode::Binary,
        Some(hash),
    );
    let (after, result) = apply_patch(&o, &ctx(), "/work/file.bin", before).unwrap();
    assert_eq!(after, vec![0xFEu8, 0x00, 0xAA, 0xBB, 0x03, 0xCC, 0xDD]);
    assert!(text_under(&result.metadata, "hashCode").starts_with("sha256:"));
    assert_eq!(result.metadata.get("file").unwrap().get_text("type"), Some("binary-update"));
}

#[test]
fn apply_patch_binary_rejects_copy_body_lines() {
    let o = options("replace 0 1\ncopy 0 1", PatchMode::Binary, None);
    let err = apply_patch(&o, &ctx(), "/work/file.bin", vec![0, 1]).unwrap_err().to_string();
    assert!(err.contains("copy body lines are not supported"), "{err}");
}

#[test]
fn apply_patch_rejects_stale_hash_without_writing() {
    let o = options(
        "replace 2 2\n+TWO",
        PatchMode::Text,
        Some(format!("sha256:{}", "0".repeat(64))),
    );
    let err = apply_patch(&o, &ctx(), "/work/file.txt", b"one\ntwo\n".to_vec())
        .unwrap_err()
        .to_string();
    assert!(err.contains("hash mismatch"), "{err}");
}

#[test]
fn apply_patch_rejects_old_envelope_format() {
    let o = options(
        "*** Begin Patch\n*** Update File: file.txt\n@@\n-before\n+after\n*** End Patch",
        PatchMode::Text,
        None,
    );
    let err = apply_patch(&o, &ctx(), "/work/file.txt", b"before\n".to_vec())
        .unwrap_err()
        .to_string();
    assert!(err.contains("old apply_patch envelope"), "{err}");
}

#[test]
fn apply_patch_needs_a_patch_and_a_hash_to_check() {
    let err = check_request(&options("  ", PatchMode::Text, None)).unwrap_err();
    assert_eq!(err.to_string(), "patchText is required");
    let mut o = options("delete 1 1", PatchMode::Text, None);
    assert!(check_request(&o).is_ok());
    o.hash_check_mode = true;
    assert!(check_request(&o).is_err());
}

#[test]
fn apply_patch_keeps_crlf_and_bom() {
    let before = b"\xEF\xBB\xBFone\r\ntwo\r\n".to_vec();
    let o = options("replace 2 2\n+TWO", PatchMode::Text, None);
    let (after, result) = apply_patch(&o, &ctx(), "/work/file.txt", before).unwrap();
    assert_eq!(after, b"\xEF\xBB\xBFone\r\nTWO\r\n".to_vec());
    assert!(result.metadata.get("hashCode").is_none());
}

#[test]
fn binary_patches_outside_the_file_are_refused() {
    for patch in ["replace 1 2\n+00", "delete 2 1", "insert 3\n+00", "replace 0 1\n+0"] {
        let o = options(patch, PatchMode::Binary, None);
        assert!(apply_patch(&o, &ctx(), "/work/file.bin", vec![0, 1]).is_err(), "{patch}");
    }
}

fn long_file(secret: &str) -> String {
    let mut content = String::from("one\n");
    for idx in 0..40 {
        content.push_str(&format!("middle-{idx}\n"));
    }
    content.push_str(secret);
    content.push('\n');
    content
}

#[test]
fn executor_apply_patch_result_omits_full_file_contents() {
    let secret = "secret-line-that-should-not-be-returned-by-re";
    let before = long_file(secret).into_bytes();
    let o = options("replace 1 1\n+ONE", PatchMode::Text, None);
    let (after, result) = apply_patch(&o, &ctx(), "/work/file.txt", before).unwrap();
    assert!(after.starts_with(b"ONE\nmiddle-0\n"));
    let file = result.metadata.get("file").unwrap();
    assert!(file.get("before").is_none());
    assert!(file.get("after").is_none());
    let encoded = format!("{:?}", result);
    assert!(!encoded.contains(secret), "patch result returned full file content");
}
