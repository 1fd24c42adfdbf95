use remote_executor::context::ToolContext;
use remote_executor::fs_ops::{grep_output, grep_request, GrepOptions};
use remote_executor::globs::{build_globset, finds};
use remote_executor::tools::rg::{
    make_hit, tool_result, RgExecutor, RgOptions, RgOutput, RgSearch, RgStep,
};

fn options() -> RgOptions {
    RgOptions::new("needle".to_string()).root("/work".to_string())
}

#[test]
fn a_search_keeps_the_hits_and_counts_the_files() {
    let mut s = RgSearch::begin(options(), "/elsewhere".to_string(), 0, false).unwrap();
    assert_eq!(s.walk_start(), "/work/.");
    assert_eq!(s.visit("/work", false), RgStep::Skip);
    assert_eq!(s.visit("/work/a.txt", true), RgStep::Search);
    assert!(s.wants_more(0));
    s.record("/work/a.txt", 3, "a needle here\n", 7);
    let out = s.finish();
    assert_eq!(out.stdout, "/work/a.txt:3:3:a needle here\n");
    assert_eq!(out.matches, 1);
    assert_eq!(out.files_walked, 1);
    assert_eq!(out.code, 0);
    assert!(!out.timed_out);
    let result = tool_result(out);
    assert_eq!(result.metadata.get("matches").unwrap().as_u64(), Some(1));
}

#[test]
fn columns_count_bytes_and_case_can_be_ignored() {
    let mut s =
        RgSearch::begin(options().ignore_case(), "/".to_string(), 0, false).unwrap();
    s.record("/work/a.txt", 1, "é NEEDLE", 0);
    assert_eq!(s.into_matches()[0].column, 4);
    let mut strict = RgSearch::begin(options(), "/".to_string(), 0, false).unwrap();
    strict.record("/work/a.txt", 1, "x NEEDLE", 0);
    assert_eq!(strict.into_matches()[0].column, 1);
}

#[test]
fn a_search_stops_at_its_limits() {
    let mut s = RgSearch::begin(options().max_count(1), "/".to_string(), 0, false).unwrap();
    s.record("/work/a.txt", 1, "needle", 0);
    assert!(!s.wants_more(0));
    assert_eq!(s.visit("/work/b.txt", true), RgStep::Stop);
    let mut late = RgSearch::begin(options().timeout(0), "/".to_string(), 5, false).unwrap();
    assert!(late.out_of_time(5));
    let out = late.finish();
    assert!(out.timed_out);
    assert_eq!(out.code, 1);
    let mut endless = RgSearch::begin(options().timeout(-1), "/".to_string(), 5, false).unwrap();
    assert!(!endless.out_of_time(1_000_000));
}

#[test]
fn a_search_needs_a_pattern_a_limit_and_globs_that_are_ones() {
    let empty = RgOptions::new(String::new());
    assert_eq!(
        RgSearch::begin(empty, "/".to_string(), 0, false).err().unwrap().to_string(),
        "rg pattern must not be empty"
    );
    assert!(RgSearch::begin(options().timeout(-2), "/".to_string(), 0, false).is_err());
    let broken = RgOptions::new("(".to_string());
    assert!(RgSearch::begin(broken, "/".to_string(), 0, false).is_err());
    assert!(RgSearch::begin(options().glob("[".to_string()), "/".to_string(), 0, false).is_err());
}

#[test]
fn globs_choose_the_files() {
    let mut s =
        RgSearch::begin(options().glob("*.rs".to_string()), "/".to_string(), 0, false).unwrap();
    assert_eq!(s.visit("/work/a.rs", true), RgStep::Search);
    assert_eq!(s.visit("/work/a.txt", true), RgStep::Skip);
}

#[test]
fn an_executor_gives_searches_its_root() {
    let e = RgExecutor::new("/base".to_string());
    assert_eq!(e.root(), "/base");
    let rooted = e.rooted(RgOptions::new("x".to_string()).path("sub".to_string()));
    let s = RgSearch::begin(rooted, "/".to_string(), 0, false).unwrap();
    assert_eq!(s.walk_start(), "/base/sub");
    let own = e.rooted(options());
    let s = RgSearch::begin(own, "/".to_string(), 0, false).unwrap();
    assert_eq!(s.walk_start(), "/work/.");
}

#[test]
fn sets_match_the_relative_or_the_whole_path() {
    let set = build_globset(&["src/*.rs".to_string(), "/etc/*".to_string()]).unwrap();
    assert!(finds(false, &set, "/work", "/work/src/a.rs"));
    assert!(!finds(false, &set, "/work", "/work/a.rs"));
    assert!(finds(false, &set, "/work", "/etc/hosts"));
    assert!(build_globset(&["{".to_string()]).is_err());
}

#[test]
fn grep_lists_hits_by_file() {
    let ctx = ToolContext::new(Some("/work".to_string()), None, false);
    let request = grep_request(
        &GrepOptions { pattern: "needle".to_string(), path: None, include_glob: None },
        &ctx,
    )
    .unwrap();
    let mut s = RgSearch::begin(request, "/work".to_string(), 0, false).unwrap();
    s.record("/work/a.txt", 2, "needle", 1);
    let hits = s.into_matches();
    let out = grep_output("needle", &hits);
    assert_eq!(out.title, "needle");
    assert!(out.output.contains("/work/a.txt"));
    let none = grep_output("needle", &Vec::new());
    assert!(none.output.contains("No files found"), "{}", none.output);
    assert!(grep_request(
        &GrepOptions { pattern: String::new(), path: None, include_glob: None },
        &ctx
    )
    .is_err());
}

#[test]
fn a_hit_counts_columns_from_one_and_drops_line_ends() {
    let hit = make_hit("/work/a.txt", 4, "x needle\n\n", 9, Some(2));
    assert_eq!(hit.column, 3);
    assert_eq!(hit.line, "x needle");
    assert_eq!(hit.line_number, 4);
    assert_eq!(hit.mod_time, 9);
    assert_eq!(make_hit("/work/a.txt", 1, "", 0, None).column, 1);
}

#[test]
fn a_search_with_a_bad_expression_does_not_start() {
    let fault = Some("bad expression".to_string());
    let begun = RgSearch::begin_checked(options(), "/".to_string(), 0, false, fault);
    assert_eq!(begun.err().unwrap().message, "bad expression");
    assert!(RgSearch::begin_checked(options(), "/".to_string(), 0, false, None).is_ok());
    assert!(RgSearch::begin(RgOptions::new("(".to_string()), "/".to_string(), 0, false).is_err());
}

#[test]
fn a_negative_code_stays_negative() {
    let result = tool_result(RgOutput {
        code: -2,
        stdout: String::new(),
        stderr: String::new(),
        matches: 0,
        files_walked: 0,
        timed_out: false,
    });
    assert_eq!(result.metadata.get("code").unwrap().as_i64(), Some(-2));
}

#[test]
fn globs_that_make_no_set_together_are_refused() {
    let deep = |end: &str| format!("{}a{}{end}", "{".repeat(300), "}".repeat(300));
    assert!(build_globset(&[deep(".rs")]).is_err());
    assert!(build_globset(&[deep(".rs"), deep(".js")]).is_err());
    assert!(build_globset(&[]).is_ok());
}
