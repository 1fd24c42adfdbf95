use remote_executor::context::ToolContext;
use remote_executor::exec::{
    self, check_attach, check_removal, detached_value, exec_mode, finished_result, listed_result,
    removed_result, removed_value, sent_result, shell_command_spec, started_result, stopped_result,
    wait_ms, ExecMode,
};
use remote_executor::json::Json;
use remote_executor::tools::exbash::attach::{
    attach_result, attach_target, check_control, check_file_input, control_lost, controller_name,
    input_data, input_source, next_attach_step, stopped_attach_result, AttachInput,
};
use remote_executor::tools::exbash::run::{
    completed_result, detached_result, direct_command, exbash_run_detail, find_exit, is_listed,
    list_result, next_id, next_watch, remove_result, run_detail, stop_result, Exit, ExitLabels,
    RunDetail, SessionFacts, Watch,
};
use remote_executor::tools::exbash::{exbash, run_not_found, ExbashMode, ExbashOptions};

fn options(mode: &str) -> ExbashOptions {
    ExbashOptions {
        mode: Some(mode.to_string()),
        shell_profile: None,
        command: None,
        description: None,
        timeout: None,
        read_timeout: None,
        async_id: None,
        text: None,
        file_path: None,
        workdir: None,
        show_raw_pretty: false,
    }
}

fn session(exit_code: Option<u32>) -> SessionFacts {
    SessionFacts {
        pty: "rex-7-1".to_string(),
        command: vec!["sleep".to_string(), "10".to_string()],
        cwd: Some("/work".to_string()),
        process_id: Some(42),
        created_at: 1000,
        output_history_bytes: 13,
        exit_code,
    }
}

fn detail(exit_code: Option<u32>, label: Option<&str>) -> RunDetail {
    run_detail(&session(exit_code), label, None, None, 2000)
}

#[test]
fn test_exbash_rejects_oversized_inputs() {
    let refused = |o: &ExbashOptions| exbash(o).unwrap_err().to_string();
    let mut o = options("run");
    o.command = Some("x".repeat(4097));
    assert!(refused(&o).contains("command exceeds 4096"));
    let mut o = options("run");
    o.command = Some("echo hi".to_string());
    o.description = Some("x".repeat(101));
    assert_eq!(refused(&o), "description exceeds 100 bytes (101 bytes)");
    let mut o = options("attach");
    o.async_id = Some("x".repeat(31));
    assert!(refused(&o).contains("asyncID exceeds 30"));
    let mut o = options("attach");
    o.text = Some("x".repeat(4097));
    assert!(refused(&o).contains("text exceeds 4096"));
    let mut o = options("attach");
    o.file_path = Some("x".repeat(4097));
    assert!(refused(&o).contains("filePath exceeds 4096"));
    let mut o = options("run");
    o.workdir = Some("é".repeat(2049));
    assert!(refused(&o).contains("workdir exceeds 4096"));
    let mut o = options("shell");
    o.shell_profile = Some("x".repeat(4097));
    assert!(refused(&o).contains("shell exceeds 4096"));
    let mut o = options("run");
    o.command = Some("x".repeat(4096));
    assert_eq!(exbash(&o).unwrap(), ExbashMode::Run);
}

#[test]
fn modes_are_found_by_name() {
    for (name, mode) in [
        ("run", ExbashMode::Run),
        ("shell", ExbashMode::Shell),
        ("attach", ExbashMode::Attach),
        ("list", ExbashMode::List),
        ("stop", ExbashMode::Stop),
        ("remove", ExbashMode::Remove),
    ] {
        assert_eq!(exbash(&options(name)).unwrap(), mode);
    }
    assert_eq!(exbash(&options("kill")).unwrap_err().to_string(), "unknown exbash mode: kill");
    let mut o = options("run");
    o.mode = None;
    assert_eq!(exbash(&o).unwrap_err().to_string(), "exbash mode is required");
}

#[test]
fn test_exbash_total_timeout_accepts_minus_one() {
    let mut o = options("run");
    o.timeout = Some(-1);
    assert_eq!(o.timeout_ms().unwrap(), None);
    let d = run_detail(&session(None), None, None, o.timeout, 0);
    assert_eq!(exbash_run_detail(&d).get("timeout").unwrap().as_i64(), Some(-1));
}

#[test]
fn test_exbash_total_timeout_accepts_zero_as_unlimited() {
    let mut o = options("run");
    o.timeout = Some(0);
    assert_eq!(o.timeout_ms().unwrap(), None);
    let d = run_detail(&session(None), None, None, o.timeout, 0);
    assert_eq!(exbash_run_detail(&d).get("timeout").unwrap().as_i64(), Some(0));
    o.timeout = Some(30);
    assert_eq!(o.timeout_ms().unwrap(), Some(30));
}

#[test]
fn test_exbash_rejects_other_negative_total_timeouts() {
    let mut o = options("run");
    o.timeout = Some(-2);
    assert!(o.timeout_ms().unwrap_err().to_string().contains("timeout must be -1"));
}

#[test]
fn test_exbash_direct_does_not_use_shell_syntax() {
    let c = direct_command("echo direct-a; echo 'direct b' \"c\\\"d\"", "/w").unwrap();
    assert_eq!(c.program, "echo");
    assert_eq!(c.args, ["direct-a;", "echo", "direct b", "c\"d"]);
    assert_eq!(c.cwd.as_deref(), Some("/w"));
    assert_eq!(
        direct_command("echo 'x", "/w").unwrap_err().to_string(),
        "failed to parse command arguments: missing closing quote"
    );
    assert_eq!(direct_command("  ", "/w").unwrap_err().to_string(), "command is required");
}

#[test]
fn exbash_mode_run_uses_workdir_param() {
    let mut o = options("run");
    o.workdir = Some("subdir".to_string());
    let base = ToolContext::new(Some("/base".to_string()), None, false);
    assert_eq!(o.cwd(&base), "/base/subdir");
    o.workdir = Some(String::new());
    assert_eq!(o.cwd(&base), "/base");
    assert_eq!(o.read_timeout_ms(), 10_000);
    assert_eq!(o.shown_description(), "run");
}

#[test]
fn test_exbash_detach_returns_current_snapshot() {
    let d = detail(None, None);
    let result = detached_result(&d, "before-detach".to_string());
    assert!(matches!(result.metadata.get("detached"), Some(Json::Bool(true))));
    assert_eq!(result.metadata.get_text("asyncID"), Some("rex-7-1"));
    assert_eq!(result.metadata.get_text("state"), Some("running"));
    assert!(result.metadata.get("output").is_none());
    assert!(result.metadata.get("exitCode").is_none());
    assert!(result.metadata.get("endedAt").is_none());
    assert_eq!(result.output.get_text("text"), Some("before-detach"));
    assert_eq!(result.output.get_text("message"), Some("rex-7-1 detached"));
}

#[test]
fn exbash_total_timeout_sets_exit_code_to_timeout() {
    let mut labels = ExitLabels::new();
    labels.set("rex-7-1", "timeout");
    let d = detail(Some(9), labels.get("rex-7-1"));
    let result = completed_result(b"out", &d);
    assert_eq!(result.metadata.get_text("exitCode"), Some("timeout"));
    labels.clear("rex-7-1");
    assert!(labels.get("rex-7-1").is_none());
    let plain = completed_result(b"out\xff", &detail(Some(9), None));
    assert_eq!(plain.metadata.get("exitCode").unwrap().as_u64(), Some(9));
    assert_eq!(plain.output.get_text("text"), Some("out\u{fffd}"));
}

#[test]
fn exbash_mode_stop_sets_exit_code_to_stopped() {
    let result = stop_result(&detail(Some(130), Some("stopped")), "snap".to_string());
    assert_eq!(result.metadata.get_text("exitCode"), Some("stopped"));
    assert_eq!(result.metadata.get("endedAt").unwrap().as_u64(), Some(2000));
    assert_eq!(result.output.get_text("text"), Some("snap"));
}

#[test]
fn exbash_mode_remove_stops_running_process_before_removal() {
    let result = remove_result();
    assert!(matches!(result.metadata.get("ok"), Some(Json::Bool(true))));
    assert_eq!(result.output.get_text("text"), Some("ok"));
    assert_eq!(run_not_found("rex-1").to_string(), "Async run not found: rex-1");
}

#[test]
fn long_outputs_are_clipped_in_the_metadata() {
    let long = "é".repeat(15_001);
    let result = completed_result(long.as_bytes(), &detail(Some(0), None));
    let clipped = result.metadata.get_text("output").unwrap();
    assert_eq!(clipped, format!("{}\n\n...", "é".repeat(15_000)));
    assert_eq!(result.output.get_text("text"), Some(long.as_str()));
}

#[test]
fn runs_are_listed_one_to_a_line() {
    assert!(is_listed("rex-1", None));
    assert!(!is_listed("main", None));
    assert!(is_listed("rex-1", Some("rex-1")));
    assert!(!is_listed("rex-1", Some("rex-2")));
    assert_eq!(next_id(1780467386041, 1), "rex-1780467386041-1");
    let result = list_result(&[detail(None, None), detail(Some(3), None)]);
    assert_eq!(
        result.output.get_text("text"),
        Some(
            "rex-7-1 running totalOutput=13 command=sleep 10\nrex-7-1 stopped exit=3 totalOutput=13 command=sleep 10"
        )
    );
    assert_eq!(list_result(&[]).output.get_text("text"), Some("No async runs"));
}

#[test]
fn watching_ends_in_time() {
    assert_eq!(next_watch(true, 0, 100), Watch::Ended);
    assert_eq!(next_watch(false, 100, 100), Watch::TimeIsUp);
    assert_eq!(next_watch(false, 95, 100), Watch::Sleep(5));
    assert_eq!(next_watch(false, 0, 100), Watch::Sleep(20));
}

#[test]
fn exbash_mode_attach_rejects_oversized_file_input() {
    assert!(check_file_input(4097).unwrap_err().to_string().contains("file input exceeds 4096"));
    assert!(check_file_input(4096).is_ok());
}

#[test]
fn attached_text_has_its_escapes_written_out() {
    let mut o = options("attach");
    o.text = Some("hello\\n\\x41".to_string());
    let input = input_data(&o).unwrap();
    assert!(matches!(&input, AttachInput::Text(b) if b == b"hello\nA"));
    assert_eq!(input_source(&input), "text");
    o.text = Some("bad\\q".to_string());
    assert!(input_data(&o)
        .unwrap_err()
        .to_string()
        .starts_with("failed to parse attach text escapes: "));
    o.text = Some("x".to_string());
    o.file_path = Some("f".to_string());
    assert_eq!(
        input_data(&o).unwrap_err().to_string(),
        "Provide only one of text or filePath for attach."
    );
    o.text = None;
    assert!(matches!(input_data(&o).unwrap(), AttachInput::File(p) if p == "f"));
    o.file_path = None;
    assert!(matches!(input_data(&o).unwrap(), AttachInput::Nothing));
}

#[test]
fn exbash_mode_attach_waits_read_timeout_and_returns_snapshot() {
    let mut o = options("attach");
    o.timeout = Some(100);
    o.async_id = Some("rex-1".to_string());
    assert!(attach_target(&o).unwrap_err().to_string().contains("read_timeout"));
    o.timeout = None;
    assert_eq!(attach_target(&o).unwrap(), "rex-1");
    o.async_id = None;
    assert_eq!(attach_target(&o).unwrap_err().to_string(), "asyncID is required");
    let result = attach_result("rex-1", 5, "text", 10, 32, &None, "snap".to_string(), None);
    assert_eq!(result.metadata.get("outputBytes").unwrap().as_u64(), Some(22));
    assert_eq!(result.metadata.get("wrote").unwrap().as_u64(), Some(5));
    assert!(result.metadata.get("rawPretty").is_none());
    assert!(result.metadata.get("state").is_none());
    let raw =
        attach_result("rex-1", 0, "attach", 40, 32, &None, String::new(), Some(b"\x1b[m\xff"));
    assert_eq!(raw.metadata.get_text("rawPretty"), Some("\u{1b}[m\u{fffd}"));
    assert_eq!(raw.metadata.get("outputBytes").unwrap().as_u64(), Some(0));
}

#[test]
fn exbash_mode_attach_returns_stopped_metadata_when_process_exits_during_wait() {
    let exit = Some(Exit::Code(0));
    let result = attach_result("rex-1", 0, "attach", 0, 5, &exit, "done".to_string(), None);
    assert_eq!(result.metadata.get_text("state"), Some("stopped"));
    assert_eq!(result.metadata.get("exitCode").unwrap().as_u64(), Some(0));
    assert!(result.output.get_text("message").unwrap().contains("task exited with code 0"));
    assert!(result.metadata.get("message").is_none());
    assert!(result.output.get_text("text").unwrap().contains("done"));
}

#[test]
fn exbash_mode_attach_errors_with_controller_id_when_control_is_stolen() {
    let own = controller_name("rex-1");
    assert_eq!(own, "rec:rex-1");
    assert!(check_control(Some("rec:rex-1"), &own).is_ok());
    assert_eq!(
        check_control(Some("ptyt"), &own).unwrap_err().to_string(),
        "control lost: someone attached: ptyt"
    );
    assert_eq!(
        check_control(None, &own).unwrap_err().to_string(),
        "control lost: someone attached: unknown"
    );
}

#[test]
fn exbash_mode_attach_returns_snapshot_for_stopped_run() {
    let exit = find_exit(None, Some(7)).unwrap();
    let mut o = options("attach");
    let result =
        stopped_attach_result(&o, "rex-1", &exit, 14, "stopped-output".to_string(), None);
    assert_eq!(result.metadata.get_text("state"), Some("stopped"));
    assert_eq!(result.metadata.get("wrote").unwrap().as_u64(), Some(0));
    assert_eq!(result.metadata.get_text("source"), Some("attach"));
    assert_eq!(
        result.output.get_text("message"),
        Some("task already exited with code 7")
    );
    assert!(result.metadata.get("message").is_none());
    o.text = Some("ignored\n".to_string());
    let result =
        stopped_attach_result(&o, "rex-1", &exit, 14, "stopped-output".to_string(), None);
    assert_eq!(result.metadata.get_text("source"), Some("text"));
    assert!(result
        .output
        .get_text("message")
        .unwrap()
        .starts_with("input failed: task already exited"));
    assert_eq!(result.output.get_text("text"), Some("stopped-output"));
}

#[test]
fn titled_control_knows_its_modes() {
    assert_eq!(exec_mode(None).unwrap(), ExecMode::TimeoutAsync);
    assert_eq!(exec_mode(Some("exec_async")).unwrap(), ExecMode::Async);
    assert_eq!(exec_mode(Some("exbash_stop")).unwrap(), ExecMode::Stop);
    assert_eq!(exec_mode(Some("exbasp_remove")).unwrap(), ExecMode::Remove);
    assert_eq!(
        exec_mode(Some("x")).unwrap_err().to_string(),
        "unknown exbash mode: x"
    );
    let unix = shell_command_spec("ls", "/w", false);
    assert_eq!(unix.program, "sh");
    assert_eq!(unix.args, ["-c", "ls"]);
    let other = shell_command_spec("ls", "/w", true);
    assert_eq!(other.program, "powershell.exe");
    assert_eq!(other.args.last().unwrap(), "ls");
}

#[test]
fn titled_control_removes_only_what_has_stopped() {
    let running = detail(None, None);
    let stopped = detail(Some(0), None);
    assert_eq!(
        check_removal(&running).unwrap_err().to_string(),
        "Async run rex-7-1 must be stopped before removal"
    );
    assert!(check_removal(&stopped).is_ok());
    assert!(check_attach(&running).is_ok());
    assert_eq!(
        check_attach(&stopped).unwrap_err().to_string(),
        "Async run rex-7-1 is not running"
    );
    let done = finished_result(&stopped, b"out");
    assert_eq!(done.title, "sleep 10");
    assert_eq!(done.metadata.get("exit").unwrap().as_u64(), Some(0));
    let on = detached_value(&running, 250);
    assert_eq!(on.get("asyncTimeout").unwrap().as_u64(), Some(250));
    assert_eq!(removed_value("rex-1").get_text("asyncID"), Some("rex-1"));
}

#[test]
fn an_attached_request_fails_once_it_loses_control() {
    let own = Some("rec:rex-1");
    assert_eq!(next_attach_step(own, own, false, 5, 100).unwrap(), Watch::Sleep(20));
    assert_eq!(next_attach_step(own, own, false, 90, 100).unwrap(), Watch::Sleep(10));
    assert_eq!(next_attach_step(own, own, false, 100, 100).unwrap(), Watch::TimeIsUp);
    assert_eq!(next_attach_step(own, own, true, 5, 100).unwrap(), Watch::Ended);
    let err = next_attach_step(own, Some("bob"), false, 5, 100).unwrap_err();
    assert_eq!(err.message, "control lost: someone attached: bob");
    let err = next_attach_step(own, None, true, 200, 100).unwrap_err();
    assert_eq!(err.message, "control lost: someone attached: unknown");
    // One that typed nothing does not care who is in control.
    assert_eq!(next_attach_step(None, Some("bob"), false, 5, 100).unwrap(), Watch::Sleep(20));
    assert_eq!(control_lost(Some("eve")).message, "control lost: someone attached: eve");
}

#[test]
fn a_run_needs_a_command() {
    let mut o = options("run");
    assert_eq!(o.required_command().unwrap_err().message, "command is required");
    o.command = Some("ls -l".to_string());
    assert_eq!(o.required_command().unwrap(), "ls -l");
}

#[test]
fn titled_answers_have_their_titles() {
    assert_eq!(wait_ms(None), 10_000);
    assert_eq!(wait_ms(Some(7)), 7);
    let running = detail(None, None);
    let started = started_result(&running, "text".to_string());
    assert_eq!(started.title, "sleep 10");
    assert_eq!(started.output, "text");
    assert_eq!(started.metadata.get_text("asyncID"), Some("rex-7-1"));
    let on = exec::detached_result(&running, 250);
    assert_eq!(on.title, "sleep 10");
    assert_eq!(on.metadata.get("asyncTimeout").unwrap().as_u64(), Some(250));
    let list = listed_result(&[detail(None, None)]);
    assert_eq!(list.title, "Async runs listed");
    match list.metadata.get("runs").unwrap() {
        Json::Array(runs) => assert_eq!(runs.len(), 1),
        _ => panic!("runs are a list"),
    }
    let stopped = stopped_result(&detail(Some(1), Some("stopped")), "text".to_string());
    assert_eq!(stopped.title, "Async run stopped");
    assert_eq!(stopped.metadata.get_text("exitCode"), Some("stopped"));
    assert_eq!(removed_result("rex-1").title, "Async run removed");
    let sent = sent_result("rex-1", 3, "text", 10, 25, "shot".to_string());
    assert_eq!(sent.title, "Async input sent");
    assert_eq!(sent.metadata.get("outputBytes").unwrap().as_u64(), Some(15));
    assert_eq!(sent.metadata.get("wrote").unwrap().as_u64(), Some(3));
    assert_eq!(sent.output, "shot");
    let shrunk = sent_result("rex-1", 0, "attach", 10, 5, String::new());
    assert_eq!(shrunk.metadata.get("outputBytes").unwrap().as_u64(), Some(0));
}
