use remote_executor::patch::bytes::{apply_binary_hunks, parse_binary_patch};
use remote_executor::patch::lines::{apply_hunks, parse_line_patch};

#[test]
fn line_patch_replaces_and_reuses_original_lines() {
    let text = "a\nb\nc\n";
    let hunks = parse_line_patch("replace 1 3\ncopy 1 1\n+B\ncopy 3 3").unwrap();
    assert_eq!(apply_hunks(text, &hunks).unwrap(), "a\nB\nc\n");
}

#[test]
fn line_patch_deletes_empty_body_range() {
    let text = "a\nb\nc\n";
    let hunks = parse_line_patch("delete 2 2").unwrap();
    assert_eq!(apply_hunks(text, &hunks).unwrap(), "a\nc\n");
}

#[test]
fn line_patch_preserves_missing_final_newline() {
    let text = "a\nb";
    let hunks = parse_line_patch("replace 2 2\n+B").unwrap();
    assert_eq!(apply_hunks(text, &hunks).unwrap(), "a\nB");
}

#[test]
fn insert_minus_one_appends() {
    let text = "a\nb\n";
    let hunks = parse_line_patch("insert -1\n+c").unwrap();
    assert_eq!(apply_hunks(text, &hunks).unwrap(), "a\nb\nc\n");
}

#[test]
fn insert_minus_one_appends_multiple_lines() {
    let text = "a\nb\n";
    let hunks = parse_line_patch("insert -1\n+c\n+d").unwrap();
    assert_eq!(apply_hunks(text, &hunks).unwrap(), "a\nb\nc\nd\n");
}

#[test]
fn insert_zero_before_replaced_line_is_allowed() {
    let text = "a\nb\n";
    let hunks = parse_line_patch("replace 1 1\n+A\ninsert 0\n+top").unwrap();
    assert_eq!(apply_hunks(text, &hunks).unwrap(), "top\nA\nb\n");
}

fn fault(patch: &str) -> String {
    parse_line_patch(patch).unwrap_err().to_string()
}

#[test]
fn line_patch_parse_errors_name_the_line() {
    assert!(fault("+orphan").contains("1"), "{}", fault("+orphan"));
    assert!(parse_line_patch("replace 0 1\n+x").is_err());
    assert!(parse_line_patch("nonsense").is_err());
}

#[test]
fn line_patch_outside_the_file_is_refused() {
    let hunks = parse_line_patch("delete 5 6").unwrap();
    assert!(apply_hunks("a\nb\n", &hunks).is_err());
}

#[test]
fn line_ranges_that_run_backwards_are_refused() {
    let hunks = parse_line_patch("replace 3 2\n+x").unwrap();
    assert!(apply_hunks("a\nb\nc\n", &hunks).is_err());
}

#[test]
fn overlapping_line_hunks_are_refused() {
    let hunks = parse_line_patch("delete 1 2\ndelete 2 3").unwrap();
    assert!(apply_hunks("a\nb\nc\n", &hunks).is_err());
}

#[test]
fn hunks_may_be_listed_in_any_sequence() {
    let text = "a\nb\nc\n";
    let patch = "replace 1 1\n+A\ninsert 1\n+first\ninsert 1\n+second\ndelete 3 3";
    let mut hunks = parse_line_patch(patch).unwrap();
    let expected = "A\nfirst\nsecond\nb\n";
    assert_eq!(apply_hunks(text, &hunks).unwrap(), expected);
    hunks.reverse();
    assert_eq!(apply_hunks(text, &hunks).unwrap(), expected);
    hunks.swap(0, 2);
    assert_eq!(apply_hunks(text, &hunks).unwrap(), expected);
}

#[test]
fn byte_hunks_may_be_listed_in_any_sequence() {
    let mut hunks = parse_binary_patch("replace 0 1\n+AA\ninsert 1\n+BB\ninsert 1\n+CC\ndelete 2 1").unwrap();
    let expected = [0xAA, 0xBB, 0xCC, 2];
    assert_eq!(apply_binary_hunks(&[1, 2, 3], &hunks).unwrap(), expected);
    hunks.reverse();
    assert_eq!(apply_binary_hunks(&[1, 2, 3], &hunks).unwrap(), expected);
    hunks.swap(1, 2);
    assert_eq!(apply_binary_hunks(&[1, 2, 3], &hunks).unwrap(), expected);
}
