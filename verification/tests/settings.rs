use remote_executor::error::Error;
use remote_executor::json::{json_merge, Json, Number};
use remote_executor::settings::shell::{executable_names, resolve_profile_name, Probe};
use remote_executor::settings::store::{
    layer_paths, list_shells, set_default_shell, ListShellsOptions, LoadedSettings,
    SetDefaultShellOptions, SettingsStamp, SettingsStore,
};
use remote_executor::settings::{
    read_layer, settings_layers, settings_value, with_default_profiles, ReSettings, ShellProfile,
    ShellSettings,
};
use remote_executor::table::NameTable;

fn profile(marker: &str) -> ShellProfile {
    ShellProfile {
        candidates: vec!["sh".to_string()],
        command_args: vec!["-c".to_string(), format!("echo {marker}; {{command}}")],
        interactive_args: Vec::new(),
    }
}

fn settings(default: &str) -> ReSettings {
    ReSettings {
        version: 1,
        shells: ShellSettings {
            default: default.to_string(),
            interactive: "one".to_string(),
            profiles: NameTable::new()
                .with("one".to_string(), profile("one-marker"))
                .with("two".to_string(), profile("two-marker-extra")),
        },
    }
}

fn loaded(default: &str) -> LoadedSettings {
    LoadedSettings { settings: settings(default), base_stamp: None, stamp: None }
}

fn store(default: &str) -> SettingsStore {
    SettingsStore::load(false, Some("/work/.re-setting.json"), "/start", loaded(default))
}

#[test]
fn the_settings_file_of_the_startup_directory_counts() {
    let s = SettingsStore::load(false, None, "/start", loaded("one"));
    assert_eq!(s.path(), "/start/.re-setting.json");
    assert_eq!(s.base_path(), None);
    let named = SettingsStore::load(false, Some("conf/x.json"), "/start", loaded("one"));
    assert_eq!(named.path(), "/start/conf/x.json");
}

#[test]
fn directories_are_layered_over_the_program() {
    let s = store("one").for_directory(false, "/proj", "/start", loaded("two"));
    assert_eq!(s.path(), "/proj/.re-setting.json");
    assert_eq!(s.base_path(), Some("/work/.re-setting.json"));
    let same = store("one").for_directory(false, "/work", "/start", loaded("two"));
    assert_eq!(same.base_path(), None);
    let (base, path) = layer_paths(false, Some("a"), "b", "/start");
    assert_eq!(base.as_deref(), Some("/start/a"));
    assert_eq!(path, "/start/b");
    assert_eq!(layer_paths(false, Some("/start//b"), "b", "/start").0, None);
    let dir = SettingsStore::load_for_directory(false, "/proj", "/start", loaded("one"));
    assert_eq!(dir.base_path(), Some("/start/.re-setting.json"));
}

#[test]
fn settings_that_cannot_be_read_are_the_built_in_ones() {
    let s = SettingsStore::load_default_lossy(false, Some("/start"), None);
    assert_eq!(s.path(), "/start/.re-setting.json");
    assert_eq!(s.settings().shells.default, "auto");
    let lost = SettingsStore::load_default_lossy(false, None, None);
    assert_eq!(lost.path(), ".re-setting.json");
    let given = SettingsStore::from_settings(false, "x.json", Some("/start"), settings("two"));
    assert_eq!(given.path(), "/start/x.json");
    assert_eq!(given.settings().shells.default, "two");
}

#[test]
fn built_in_shells_are_filled_in() {
    let full = with_default_profiles(settings(" "));
    assert_eq!(full.shells.default, "auto");
    for name in ["bash", "python", "node", "powershell", "one", "two"] {
        assert!(full.shells.profiles.get(name).is_some(), "{name}");
    }
    let again = with_default_profiles(full);
    assert_eq!(again.shells.profiles.len(), 6);
}

#[test]
fn set_default_shell_saves_settings_and_updates_default() {
    let mut held = Some(store("one"));
    let options = SetDefaultShellOptions { shell: " two ".to_string() };
    let probes = held.as_ref().unwrap().probes("two", false, false);
    assert!(matches!(&probes[0], Probe::Program(p) if p == "sh"));
    let result = set_default_shell(&options, &mut held, false, &[true]).unwrap();
    let text = result.output.get_text("text").unwrap();
    assert!(text.starts_with("defaultShell:two\nsettingsPath:/work/.re-setting.json"));
    assert!(text.contains("\nresolution: requested=two profile=two program=sh"));
    let store = held.unwrap();
    assert_eq!(store.settings().shells.default, "two");
    let written = settings_value(store.settings());
    assert_eq!(written.get("shells").unwrap().get_text("default"), Some("two"));
    let line = store.command_spec(None, "echo run", "/cwd", false, &[true]).unwrap();
    assert_eq!(line.program, "sh");
    assert_eq!(line.args, ["-c", "echo two-marker-extra; echo run"]);
    assert_eq!(line.cwd.as_deref(), Some("/cwd"));
}

#[test]
fn exbash_mode_shell_uses_hot_reloaded_default_shell() {
    let stamp = Some(SettingsStamp { size: 10, mtime_ms: 1 });
    let newer = Some(SettingsStamp { size: 10, mtime_ms: 2 });
    let mut s = store("one");
    s.note_written(stamp);
    assert!(s.is_current(stamp, None));
    assert!(!s.is_current(newer, None));
    assert!(!s.is_current(stamp, stamp));
    let first = s.command_spec(None, "echo run", "/", false, &[true]).unwrap();
    assert!(first.args[1].contains("one-marker"));
    s.reload(Ok(LoadedSettings { settings: settings("two"), base_stamp: None, stamp: newer })).unwrap();
    assert!(s.is_current(newer, None));
    let second = s.command_spec(Some(""), "echo run", "/", false, &[true]).unwrap();
    assert!(second.args[1].contains("two-marker-extra"));
}

#[test]
fn list_shells_returns_executor_settings() {
    let held = Some(store("one"));
    let result = list_shells(&ListShellsOptions {}, &held).unwrap();
    let output = result.output.get_text("text").unwrap();
    assert!(output.starts_with("default:one\ninteractive:one\nsettingsPath:"));
    assert!(output.contains("profiles:\n- "));
    assert!(output.contains(
        "- one: candidates=sh commandArgs=-c echo one-marker; {command} interactiveArgs=<none>"
    ));
    assert_eq!(result.metadata.get_text("default"), Some("one"));
    let one = result.metadata.get("profiles").unwrap().get("one").unwrap();
    match one.get("commandArgs").unwrap() {
        Json::Array(v) => assert!(matches!(&v[1], Json::Text(s) if s.contains("one-marker"))),
        _ => panic!("expected a list"),
    }
    assert_eq!(result.metadata.get_text("settingsPath"), Some("/work/.re-setting.json"));
    let names: Vec<usize> = ["- bash:", "- node:", "- one:", "- powershell:", "- python:", "- two:"]
        .iter()
        .map(|n| output.find(n).unwrap())
        .collect();
    let mut sorted = names.clone();
    sorted.sort();
    assert_eq!(names, sorted);
}

#[test]
fn shells_that_cannot_be_found_are_named() {
    let mut held = Some(store("one"));
    let unknown = SetDefaultShellOptions { shell: "zsh".to_string() };
    assert_eq!(
        set_default_shell(&unknown, &mut held, false, &[]).unwrap_err().to_string(),
        "shell profile `zsh` is not configured in /work/.re-setting.json"
    );
    let absent = SetDefaultShellOptions { shell: "node".to_string() };
    assert_eq!(
        set_default_shell(&absent, &mut held, false, &[false]).unwrap_err().to_string(),
        "no candidate found for shell profile `node`; checked: node, nodejs"
    );
    let blank = SetDefaultShellOptions { shell: "  ".to_string() };
    assert_eq!(
        set_default_shell(&blank, &mut held, false, &[]).unwrap_err().to_string(),
        "shell is required"
    );
    assert_eq!(held.as_ref().unwrap().settings().shells.default, "one");
    let mut none = None;
    assert_eq!(
        set_default_shell(&blank, &mut none, false, &[]).unwrap_err().to_string(),
        "settings store is not available"
    );
    assert_eq!(
        list_shells(&ListShellsOptions {}, &none).unwrap_err().to_string(),
        "settings store is not available"
    );
}

#[test]
fn candidates_are_tried_in_order_from_both_roots() {
    let s = store("bash").for_directory(false, "/proj", "/start", loaded("auto"));
    let probes = s.probes("python", false, false);
    assert_eq!(probes.len(), 12);
    assert!(matches!(&probes[0], Probe::File(p) if p == "/proj/.venv/bin/python"));
    assert!(matches!(&probes[1], Probe::File(p) if p == "/work/.venv/bin/python"));
    assert!(matches!(&probes[8], Probe::Program(p) if p == "python3"));
    let mut found = [false; 12];
    found[1] = true;
    found[8] = true;
    let line = s.command_spec(Some("python"), "print(1)", "/", false, &found).unwrap();
    assert_eq!(line.program, "/work/.venv/bin/python");
    assert_eq!(line.args, ["-c", "print(1)"]);
}

#[test]
fn the_shell_of_the_system_is_meant_by_auto() {
    assert_eq!(resolve_profile_name("AUTO", false), "bash");
    assert_eq!(resolve_profile_name("", true), "powershell");
    assert_eq!(resolve_profile_name("fish", false), "fish");
    let s = SettingsStore::load_default_lossy(false, Some("/start"), None);
    let line = s.interactive_command_spec(false, &[false, true]).unwrap();
    assert_eq!(line.program, "bash");
    assert_eq!(line.args, ["-l"]);
    assert_eq!(line.cwd, None);
}

#[test]
fn commands_go_last_where_no_argument_takes_them() {
    let mut held = settings("plain");
    held.shells.profiles = held.shells.profiles.with(
        "plain".to_string(),
        ShellProfile {
            candidates: vec![" ".to_string(), "/bin/plain".to_string()],
            command_args: vec!["-x".to_string()],
            interactive_args: Vec::new(),
        },
    );
    let s = SettingsStore::from_settings(false, "/s.json", None, held);
    let line = s.command_spec(None, "do it", "/", false, &[true, true]).unwrap();
    assert_eq!(line.program, "/bin/plain");
    assert_eq!(line.args, ["-x", "do it"]);
}

#[test]
fn programs_have_extensions_on_windows() {
    assert_eq!(executable_names("node", false, None), ["node"]);
    assert_eq!(
        executable_names("node", true, None),
        ["node", "node.COM", "node.EXE", "node.BAT", "node.CMD"]
    );
    assert_eq!(executable_names("node", true, Some(".A;;.B")), ["node", "node.A", "node.B"]);
    assert_eq!(executable_names("node.exe", true, None), ["node.exe"]);
}

fn object(entries: Vec<(&str, Json)>) -> Json {
    Json::Object(entries.into_iter().map(|(k, v)| (k.to_string(), v)).collect())
}

fn number(n: u64) -> Json {
    Json::Number(Number::Unsigned(n))
}

#[test]
fn objects_are_merged_entry_by_entry() {
    let base = object(vec![
        ("a", object(vec![("x", number(1)), ("y", number(2))])),
        ("b", number(3)),
    ]);
    let over = object(vec![("a", object(vec![("y", number(5))])), ("c", number(6))]);
    let out = json_merge(&base, &over);
    assert_eq!(out.get("a").unwrap().get("x").unwrap().as_u64(), Some(1));
    assert_eq!(out.get("a").unwrap().get("y").unwrap().as_u64(), Some(5));
    assert_eq!(out.get("b").unwrap().as_u64(), Some(3));
    assert_eq!(out.get("c").unwrap().as_u64(), Some(6));
    let twice = json_merge(&out, &over);
    assert_eq!(twice.get("a").unwrap().get("y").unwrap().as_u64(), Some(5));
    let whole = settings_layers(None, Some(&object(vec![("version", number(7))])));
    assert_eq!(whole.get("version").unwrap().as_u64(), Some(7));
    assert_eq!(whole.get("shells").unwrap().get_text("default"), Some("auto"));
}

fn same(a: &Json, b: &Json) -> bool {
    match (a, b) {
        (Json::Object(x), Json::Object(y)) => {
            x.len() == y.len()
                && x.iter().all(|(key, value)| match b.get(key) {
                    Some(other) => same(value, other),
                    None => false,
                })
        }
        (Json::Array(x), Json::Array(y)) => {
            x.len() == y.len() && x.iter().zip(y).all(|(p, q)| same(p, q))
        }
        _ => format!("{a:?}") == format!("{b:?}"),
    }
}

#[test]
fn written_settings_are_read_back() {
    let written = settings_value(&with_default_profiles(settings("two")));
    assert!(same(&settings_layers(None, Some(&written)), &written));
    assert!(!same(&settings_layers(None, None), &written));
}

#[test]
fn settings_files_are_read_as_layers() {
    assert!(read_layer("/s.json", None).unwrap().is_none());
    let base = read_layer("/b.json", Some(b"{\"shells\":{\"default\":\"bash\",\"interactive\":\"node\"}}"));
    let file = read_layer("/s.json", Some(b"{\"shells\":{\"default\":\"python\"}}"));
    let all = settings_layers(base.unwrap().as_ref(), file.unwrap().as_ref());
    let shells = all.get("shells").unwrap();
    assert_eq!(shells.get_text("default"), Some("python"));
    assert_eq!(shells.get_text("interactive"), Some("node"));
    for name in ["bash", "python", "node", "powershell"] {
        assert!(shells.get("profiles").unwrap().get(name).is_some(), "{name}");
    }
    let replaced = settings_layers(Some(&Json::Array(Vec::new())), None);
    assert!(replaced.get("shells").is_none());
    assert!(matches!(replaced, Json::Object(_)));
    assert_eq!(
        read_layer("/s.json", Some(b"{")).unwrap_err().to_string(),
        "failed to parse settings file /s.json"
    );
}

#[test]
fn settings_stay_while_their_files_cannot_be_read() {
    let mut s = store("one");
    let before = s.settings().shells.default.clone();
    let err = s.reload(Err(Error::of("failed to parse settings file /s"))).unwrap_err();
    assert_eq!(err.to_string(), "failed to parse settings file /s");
    assert_eq!(s.settings().shells.default, before);
}

#[test]
fn directories_do_not_inherit_from_each_other() {
    let s = store("one");
    let a = s.for_directory(false, "/a", "/start", loaded("two"));
    let after = a.for_directory(false, "/b", "/start", loaded("three"));
    let at_once = s.for_directory(false, "/b", "/start", loaded("three"));
    assert_eq!(after.path(), "/b/.re-setting.json");
    assert_eq!(after.path(), at_once.path());
    assert_eq!(after.base_path(), Some("/work/.re-setting.json"));
    assert_eq!(after.base_path(), at_once.base_path());
    assert_eq!(after.settings().shells.default, at_once.settings().shells.default);
    let twice = SettingsStore::load_layered(false, Some("x.json"), "x.json", "/start", loaded("two"));
    let once = SettingsStore::load_layered(false, None, "x.json", "/start", loaded("two"));
    assert_eq!(twice.path(), once.path());
    assert_eq!(twice.base_path(), None);
}

#[test]
fn directories_do_not_inherit_on_verbatim_drives_and_shares() {
    for root in ["\\\\?\\C:\\work", "\\\\?\\UNC\\server\\share\\work"] {
        let s = SettingsStore::load(true, Some("conf/x.json"), root, loaded("one"));
        assert_eq!(s.path(), format!("{root}\\conf\\x.json"));
        let a = s.for_directory(true, "a", root, loaded("two"));
        assert_eq!(a.path(), format!("{root}\\a\\.re-setting.json"));
        let after = a.for_directory(true, "b", root, loaded("three"));
        let at_once = s.for_directory(true, "b", root, loaded("three"));
        assert_eq!(after.path(), at_once.path());
        assert_eq!(after.base_path(), at_once.base_path());
        assert_eq!(after.base_path(), Some(s.path()));
    }
}

#[test]
fn a_layer_may_name_a_part_of_a_shell() {
    let base = read_layer(
        "/b.json",
        Some(b"{\"shells\":{\"profiles\":{\"bash\":{\"candidates\":[\"/x/bash\"]}}}}"),
    );
    let file = read_layer(
        "/s.json",
        Some(b"{\"more\":1,\"shells\":{\"profiles\":{\"own\":{\"commandArgs\":[\"-c\"]}}}}"),
    );
    let all = settings_layers(base.unwrap().as_ref(), file.unwrap().as_ref());
    let profiles = all.get("shells").unwrap().get("profiles").unwrap();
    let bash = profiles.get("bash").unwrap();
    let built_in = settings_layers(None, None);
    let before = built_in.get("shells").unwrap().get("profiles").unwrap().get("bash").unwrap();
    assert!(same(bash.get("candidates").unwrap(), &Json::Array(vec![Json::text("/x/bash")])));
    assert!(same(bash.get("commandArgs").unwrap(), before.get("commandArgs").unwrap()));
    let own = profiles.get("own").unwrap();
    assert!(same(own.get("commandArgs").unwrap(), &Json::Array(vec![Json::text("-c")])));
    assert!(own.get("candidates").is_none());
}
