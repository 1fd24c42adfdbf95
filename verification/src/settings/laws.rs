//! Which shell a call gets, and what is told of the settings.

use crate::json::value::json_read;
use crate::json::{field, text_at, JsonView, NumberView};
use crate::paths::{components, is_rooted, join_path, parent_of};
use crate::protocol::lemma_output_shows;
use crate::settings::shell::{
    command_args_for, configured_shell, extended_names, first_found, lemma_first_found,
    needed_probes, probe_of, probes_of, profile_name, program_files, program_of, resolution_json,
    resolved, takes_command, ProbeView, ResolutionView, RootsView,
};
use crate::settings::store::{
    base_beside, default_shell_result, directory_of, layered_store, made_default, roots_of,
    settings_path_of, shells_result, with_default_shell, LoadedSettings, StoreView,
};
use crate::settings::{
    bash_profile, default_settings, file_layer, node_profile, powershell_profile, profile_line,
    profile_lines, python_profile, settings_json, shells_text, shown_args, texts_json,
    with_defaults, ProfileView, ReSettingsView, ShellSettingsView,
};
use crate::table::in_name_order;
use crate::text::laws::{has_bare_ends, is_all_blank, lemma_split_undoes_join, lemma_trim_takes};
use crate::text::more_laws::{
    lemma_cutting_undoes_joining, lemma_part_is_found, lemma_replacing_all, lemma_text_is_found,
    stands_at,
};
use crate::text::split::{find_text, has_char, has_text, join, replace_all, split, split_text};
use crate::text::lower;
use vstd::prelude::*;

verus! {

// ---------------------------------------------------------------------------
// Look-ups
// ---------------------------------------------------------------------------
/// A candidate that is a path is a file seen from the directory, a bare name is a program
/// of the search path, and a blank is nothing; blanks around it do not count.
pub proof fn lemma_candidates_are_looked_for(
    windows: bool,
    front: Seq<char>,
    c: Seq<char>,
    back: Seq<char>,
    root: Seq<char>,
)
    requires
        is_all_blank(front),
        is_all_blank(back),
        has_bare_ends(c),
    ensures
        ({
            let probe = probe_of(windows, front + c + back, root);
            let is_path = is_rooted(windows, c) || has_char(c, '/') || has_char(c, '\\');
            &&& c.len() == 0 ==> probe is Nothing
            &&& c.len() > 0 && is_path ==> probe == ProbeView::File(join_path(windows, root, c))
            &&& c.len() > 0 && !is_path ==> probe == ProbeView::Program(c)
        }),
{
    lemma_trim_takes(front, c, back);
}

/// All candidates are looked for in their order, each from the directory of the settings
/// and then from that of the base settings, where there are any.
pub proof fn lemma_candidates_keep_their_order(
    windows: bool,
    candidates: Seq<Seq<char>>,
    root: Seq<char>,
    base: Seq<char>,
    i: int,
)
    requires
        0 <= i < candidates.len(),
    ensures
        probes_of(windows, candidates, root, None).len() == candidates.len(),
        probes_of(windows, candidates, root, None)[i] == probe_of(windows, candidates[i], root),
        probes_of(windows, candidates, root, Some(base)).len() == 2 * candidates.len(),
        probes_of(windows, candidates, root, Some(base))[2 * i] == probe_of(
            windows,
            candidates[i],
            root,
        ),
        probes_of(windows, candidates, root, Some(base))[2 * i + 1] == probe_of(
            windows,
            candidates[i],
            base,
        ),
    decreases candidates.len(),
{
    let before = candidates.drop_last();
    if before.len() == 0 {
        assert(probes_of(windows, before, root, None).len() == 0);
        assert(probes_of(windows, before, root, Some(base)).len() == 0);
    } else if i < before.len() {
        lemma_candidates_keep_their_order(windows, before, root, base, i);
    } else {
        lemma_candidates_keep_their_order(windows, before, root, base, 0);
    }
}

/// Looking for one thing after the other finds the first that is there.
pub proof fn lemma_first_that_is_there(probes: Seq<ProbeView>, found: Seq<bool>, k: int)
    requires
        0 <= k < probes.len(),
        k < found.len(),
        found[k],
        !(probes[k] is Nothing),
        forall|j: int| 0 <= j < k ==> !found[j],
    ensures
        probes[k] matches ProbeView::File(p) ==> first_found(probes, found, 0) == Some(p),
        probes[k] matches ProbeView::Program(p) ==> first_found(probes, found, 0) == Some(p),
{
    lemma_found_from(probes, found, 0, k);
}

proof fn lemma_found_from(probes: Seq<ProbeView>, found: Seq<bool>, i: int, k: int)
    requires
        0 <= i <= k < probes.len(),
        k < found.len(),
        found[k],
        !(probes[k] is Nothing),
        forall|j: int| 0 <= j < k ==> !found[j],
    ensures
        first_found(probes, found, i) == program_of(probes[k]),
    decreases k - i,
{
    if i < k {
        lemma_found_from(probes, found, i + 1, k);
    }
}

/// The names of a program: its own, and its own with each extension behind it.
pub proof fn lemma_names_of_programs(program: Seq<char>, extensions: Seq<Seq<char>>, i: int)
    requires
        0 <= i < extensions.len(),
        forall|k: int| 0 <= k < extensions.len() ==> (#[trigger] extensions[k]).len() > 0,
    ensures
        extended_names(program, extensions).len() == extensions.len() + 1,
        extended_names(program, extensions)[0] == program,
        extended_names(program, extensions)[i + 1] == program + extensions[i],
    decreases extensions.len(),
{
    let before = extensions.drop_last();
    assert(extensions.last() == extensions[extensions.len() - 1]);
    assert forall|k: int| 0 <= k < before.len() implies (#[trigger] before[k]).len() > 0 by {
        assert(before[k] == extensions[k]);
    }
    if before.len() == 0 {
        assert(extended_names(program, before) == seq![program]);
    } else if i < before.len() {
        lemma_names_of_programs(program, before, i);
    } else {
        lemma_names_of_programs(program, before, 0);
    }
}

/// A program is looked for under its own name alone in the plain style and where the name
/// has an extension; in the Windows style also with each extension of the list.
pub proof fn lemma_program_has_its_files(
    program: Seq<char>,
    extensions: Seq<Seq<char>>,
    i: int,
)
    requires
        0 <= i < extensions.len(),
        !program.contains('.'),
        forall|k: int|
            0 <= k < extensions.len() ==> (#[trigger] extensions[k]).len() > 0
                && !extensions[k].contains(';'),
    ensures
        program_files(program, false, Some(join(extensions, seq![';']))) == seq![program],
        program_files(program, true, Some(join(extensions, seq![';']))).len() == extensions.len() + 1,
        program_files(program, true, Some(join(extensions, seq![';'])))[0] == program,
        program_files(program, true, Some(join(extensions, seq![';'])))[i + 1] == program
            + extensions[i],
        program_files(program + seq!['.', 'x'], true, Some(join(extensions, seq![';'])))
            == seq![program + seq!['.', 'x']] || program.len() == 0,
{
    lemma_cutting_undoes_joining(extensions, ';');
    lemma_names_of_programs(program, extensions, i);
    let dotted = program + seq!['.', 'x'];
    if program.len() > 0 {
        reveal_strlit("..");
        assert(dotted[program.len() as int] == '.');
        assert(dotted.last() == 'x');
    }
    if crate::settings::shell::has_extension(program) {
        let k = choose|k: int| 0 < k < program.len() && #[trigger] program[k] == '.';
        assert(program.contains(program[k]));
    }
}

// ---------------------------------------------------------------------------
// Shells
// ---------------------------------------------------------------------------
/// A shell is the one that is named; a blank name and `auto`, in any case, mean that of the
/// system.
pub proof fn lemma_shell_is_the_named(name: Seq<char>)
    ensures
        is_all_blank(name) || lower(name) == "auto"@ ==> profile_name(name, true) == "powershell"@
            && profile_name(name, false) == "bash"@,
        name.len() > 0 && has_bare_ends(name) && lower(name) != "auto"@ ==> profile_name(name, true)
            == name && profile_name(name, false) == name,
{
    reveal_strlit("auto");
    assert(lower("auto"@) =~= "auto"@);
    let no = Seq::<char>::empty();
    if is_all_blank(name) {
        lemma_trim_takes(name, no, no);
        assert(name + no + no =~= name);
    }
    if has_bare_ends(name) {
        lemma_trim_takes(no, name, no);
        assert(no + name + no =~= name);
    }
}

/// A call gets the shell that it asks for; where it asks for none, the interactive one of
/// the settings for a terminal, where they name one, and else the default one.
pub proof fn lemma_shell_is_chosen(
    shells: ShellSettingsView,
    front: Seq<char>,
    requested: Seq<char>,
    back: Seq<char>,
    interactive: bool,
)
    requires
        is_all_blank(front),
        is_all_blank(back),
        has_bare_ends(requested),
    ensures
        ({
            let r = configured_shell(shells, front + requested + back, interactive);
            &&& requested.len() > 0 ==> r == requested
            &&& requested.len() == 0 && !interactive ==> r == shells.default
            &&& requested.len() == 0 && interactive && is_all_blank(shells.interactive) ==> r
                == shells.default
            &&& requested.len() == 0 && interactive && shells.interactive.len() > 0 && has_bare_ends(
                shells.interactive,
            ) ==> r == shells.interactive
        }),
{
    lemma_trim_takes(front, requested, back);
    let no = Seq::<char>::empty();
    let s = shells.interactive;
    if is_all_blank(s) {
        lemma_trim_takes(s, no, no);
        assert(s + no + no =~= s);
    }
    if has_bare_ends(s) {
        lemma_trim_takes(no, s, no);
        assert(no + s + no =~= s);
    }
}

/// A command takes the place of `{command}` in the arguments, and stands behind them where
/// that is nowhere; nothing else of them changes.
pub proof fn lemma_command_takes_its_place(
    args: Seq<Seq<char>>,
    i: int,
    front: Seq<char>,
    back: Seq<char>,
    command: Seq<char>,
    j: int,
)
    requires
        0 <= i < args.len(),
        0 <= j < args.len(),
        args[i] == front + "{command}"@ + back,
        !front.contains('{'),
        !back.contains('{'),
        !args[j].contains('{'),
    ensures
        command_args_for(args, command).len() == args.len(),
        command_args_for(args, command)[i] == front + command + back,
        command_args_for(args, command)[j] == args[j],
{
    let hole = "{command}"@;
    reveal_strlit("{command}");
    lemma_part_is_found(front, hole, back);
    assert(takes_command(args));
    lemma_hole_is_filled(front, back, command);
    lemma_nothing_is_filled(args[j], command);
}

proof fn lemma_nothing_is_filled(arg: Seq<char>, command: Seq<char>)
    requires
        !arg.contains('{'),
    ensures
        !has_text(arg, "{command}"@),
        replace_all(arg, "{command}"@, command) == arg,
{
    let hole = "{command}"@;
    reveal_strlit("{command}");
    lemma_text_is_found(arg, hole);
    if has_text(arg, hole) {
        let k = choose|k: int| #[trigger] stands_at(arg, hole, k);
        assert(arg.subrange(k, k + hole.len())[0] == arg[k]);
        assert(arg.contains(arg[k]));
    }
    crate::text::more_laws::lemma_nothing_is_replaced(arg, hole, command);
}

proof fn lemma_hole_is_filled(front: Seq<char>, back: Seq<char>, command: Seq<char>)
    requires
        !front.contains('{'),
        !back.contains('{'),
    ensures
        replace_all(front + "{command}"@ + back, "{command}"@, command) == front + command + back,
{
    let hole = "{command}"@;
    reveal_strlit("{command}");
    let s = front + hole + back;
    lemma_replacing_all(s, hole, command);
    lemma_text_is_found(s, hole);
    let n = front.len() as int;
    assert(s.subrange(n, n + 9) =~= hole);
    assert(stands_at(s, hole, n));
    let k = find_text(s, hole);
    if k < n {
        assert(s.subrange(k, k + 9)[0] == s[k]);
        assert(front.contains(s[k]));
    }
    assert(k == n);
    assert(s.take(n) =~= front);
    assert(s.skip(n + 9) =~= back);
    lemma_text_is_found(back, hole);
    let m = find_text(back, hole);
    if m <= back.len() {
        assert(back.subrange(m, m + 9)[0] == back[m]);
        assert(back.contains(back[m]));
    }
    assert(split_text(back, hole) == seq![back]);
    let parts = split_text(s, hole);
    assert(parts =~= seq![front, back]);
    assert(parts.drop_last() =~= seq![front]);
    reveal_with_fuel(join, 2);
    assert(join(seq![front], command) =~= front);
}

/// Arguments that have no place for a command get it behind them.
pub proof fn lemma_command_comes_last(args: Seq<Seq<char>>, command: Seq<char>)
    requires
        forall|i: int| 0 <= i < args.len() ==> !(#[trigger] args[i]).contains('{'),
    ensures
        command_args_for(args, command) == args + seq![command],
{
    assert forall|i: int| 0 <= i < args.len() implies !has_text(#[trigger] args[i], "{command}"@) by {
        lemma_nothing_is_filled(args[i], command);
    }
    assert(args.push(command) =~= args + seq![command]);
}

proof fn lemma_one_flag(flag: Seq<char>, command: Seq<char>)
    requires
        !flag.contains('{'),
    ensures
        command_args_for(seq![flag, "{command}"@], command) == seq![flag, command],
{
    let no = Seq::<char>::empty();
    let args = seq![flag, "{command}"@];
    assert(no + "{command}"@ + no =~= "{command}"@);
    assert(no + command + no =~= command);
    lemma_command_takes_its_place(args, 1, no, no, command, 0);
    assert(command_args_for(args, command) =~= seq![flag, command]);
}

/// The shells that are known without any settings run a command: each gets it whole, as
/// its last argument, behind what tells the shell to run it.
pub proof fn lemma_known_shells_run_commands(command: Seq<char>)
    ensures
        command_args_for(bash_profile().command_args, command) == seq!["-lc"@, command],
        command_args_for(python_profile().command_args, command) == seq!["-c"@, command],
        command_args_for(node_profile().command_args, command) == seq!["-e"@, command],
        command_args_for(powershell_profile().command_args, command) == seq![
            "-NoLogo"@,
            "-NoProfile"@,
            "-NonInteractive"@,
            "-Command"@,
            command,
        ],
{
    reveal_strlit("-lc");
    reveal_strlit("-c");
    reveal_strlit("-e");
    reveal_strlit("-NoLogo");
    reveal_strlit("-NoProfile");
    reveal_strlit("-NonInteractive");
    reveal_strlit("-Command");
    lemma_one_flag("-lc"@, command);
    lemma_one_flag("-c"@, command);
    lemma_one_flag("-e"@, command);
    let no = Seq::<char>::empty();
    let args = powershell_profile().command_args;
    assert(no + "{command}"@ + no =~= "{command}"@);
    assert(no + command + no =~= command);
    lemma_command_takes_its_place(args, 4, no, no, command, 0);
    lemma_command_takes_its_place(args, 4, no, no, command, 1);
    lemma_command_takes_its_place(args, 4, no, no, command, 2);
    lemma_command_takes_its_place(args, 4, no, no, command, 3);
    assert(command_args_for(args, command) =~= seq![
        "-NoLogo"@,
        "-NoProfile"@,
        "-NonInteractive"@,
        "-Command"@,
        command,
    ]);
}

/// A call gets the shell of its name: the first candidate of it that is there, with the
/// arguments for a terminal or for the command. A name that is not in the settings, and a
/// shell of which nothing is there, are refused.
pub proof fn lemma_call_gets_its_shell(
    shells: ShellSettingsView,
    roots: RootsView,
    name: Seq<char>,
    command: Seq<char>,
    interactive: bool,
    windows: bool,
    found: Seq<bool>,
    k: int,
)
    requires
        name.len() > 0,
        has_bare_ends(name),
        lower(name) != "auto"@,
    ensures
        ({
            let r = resolved(shells, roots, name, Some(command), interactive, windows, found);
            let p = shells.profiles[name];
            let probes = needed_probes(shells, roots, name, interactive, windows);
            &&& !shells.profiles.dom().contains(name) ==> r is Err
            &&& shells.profiles.dom().contains(name) ==> probes == probes_of(
                windows,
                p.candidates,
                roots.root,
                roots.base_root,
            )
            &&& shells.profiles.dom().contains(name) && 0 <= k < probes.len() && k < found.len()
                && found[k] && !(probes[k] is Nothing) && (forall|j: int| 0 <= j < k ==> !found[j])
                ==> {
                &&& r matches Ok(s)
                &&& s.requested == name
                &&& s.profile == name
                &&& s.settings_path == roots.path
                &&& probes[k] matches ProbeView::File(f) ==> s.program == f
                &&& probes[k] matches ProbeView::Program(f) ==> s.program == f
                &&& interactive ==> s.args == p.interactive_args
                &&& !interactive ==> s.args == command_args_for(p.command_args, command)
            }
            &&& shells.profiles.dom().contains(name) && (forall|j: int|
                0 <= j < found.len() ==> !found[j]) ==> r is Err
        }),
{
    let no = Seq::<char>::empty();
    lemma_shell_is_the_named(name);
    lemma_trim_takes(no, name, no);
    assert(no + name + no =~= name);
    let probes = needed_probes(shells, roots, name, interactive, windows);
    if shells.profiles.dom().contains(name) {
        if 0 <= k < probes.len() && k < found.len() && found[k] && !(probes[k] is Nothing) && (forall|
            j: int,
        |
            0 <= j < k ==> !found[j]) {
            lemma_found_from(probes, found, 0, k);
        }
        lemma_first_found(probes, found, 0);
    }
}

// ---------------------------------------------------------------------------
// Files
// ---------------------------------------------------------------------------
/// The settings file is the one that is named, seen from the current directory, or the
/// one of that directory; a base file that is the same one is none.
pub proof fn lemma_settings_file_is_found(
    windows: bool,
    path: Seq<char>,
    current: Seq<char>,
    base: Seq<char>,
)
    ensures
        settings_path_of(windows, Some(path), current) == join_path(windows, current, path),
        settings_path_of(windows, None, current) == join_path(windows, current, ".re-setting.json"@),
        base_beside(windows, None, path) is None,
        base_beside(windows, Some(base), path) == (if components(windows, base) == components(
            windows,
            path,
        ) {
            None
        } else {
            Some(base)
        }),
        parent_of(windows, path) matches Some(d) ==> directory_of(windows, path) == d,
        parent_of(windows, path) is None ==> directory_of(windows, path) == "."@,
{
}

/// Settings that were read are those of their file, with the file's stamps; look-ups start
/// in the directories of the file and of the base file.
pub proof fn lemma_store_is_of_its_file(
    windows: bool,
    base: Option<Seq<char>>,
    path: Seq<char>,
    current: Seq<char>,
    loaded: LoadedSettings,
)
    ensures
        ({
            let s = layered_store(windows, base, path, current, loaded);
            &&& s.path == join_path(windows, current, path)
            &&& s.root == directory_of(windows, s.path)
            &&& s.stamp == loaded.stamp
            &&& s.base_stamp == loaded.base_stamp
            &&& s.settings.version == loaded.settings@.version
            &&& base is None ==> s.base_path is None
            &&& s.base_path matches Some(b) ==> Some(b) == Some(
                join_path(windows, current, base->Some_0),
            ) && s.base_root == parent_of(windows, b)
            &&& s.base_path is None ==> s.base_root is None
            &&& roots_of(s).path == s.path && roots_of(s).root == s.root && roots_of(s).base_root
                == s.base_root
        }),
{
}

/// Another default shell changes that one setting alone; it has to be a shell that can be
/// started, and a blank is none.
pub proof fn lemma_default_shell_is_changed(
    store: StoreView,
    shell: Seq<char>,
    windows: bool,
    found: Seq<bool>,
)
    ensures
        with_default_shell(store, shell).settings.shells.default == shell,
        with_default_shell(store, shell).settings.shells.interactive
            == store.settings.shells.interactive,
        with_default_shell(store, shell).settings.shells.profiles == store.settings.shells.profiles,
        with_default_shell(store, shell).settings.version == store.settings.version,
        with_default_shell(store, shell).path == store.path,
        roots_of(with_default_shell(store, shell)) == roots_of(store),
        is_all_blank(shell) ==> made_default(store, shell, windows, found) is Err,
        shell.len() > 0 && has_bare_ends(shell) ==> made_default(store, shell, windows, found)
            == resolved(
            store.settings.shells,
            roots_of(store),
            shell,
            None,
            false,
            windows,
            found,
        ),
{
    let no = Seq::<char>::empty();
    if is_all_blank(shell) {
        lemma_trim_takes(shell, no, no);
        assert(shell + no + no =~= shell);
    }
    if has_bare_ends(shell) {
        lemma_trim_takes(no, shell, no);
        assert(no + shell + no =~= shell);
    }
}

// ---------------------------------------------------------------------------
// What is told
// ---------------------------------------------------------------------------
proof fn lemma_setting_fields_differ()
    ensures
        "requested"@.len() == 9,
        "profile"@.len() == 7,
        "program"@.len() == 7,
        "args"@.len() == 4,
        "settingsPath"@.len() == 12,
        "defaultShell"@.len() == 12,
        "resolution"@.len() == 10,
        "default"@.len() == 7,
        "interactive"@.len() == 11,
        "profiles"@.len() == 8,
        "candidates"@.len() == 10,
        "commandArgs"@.len() == 11,
        "interactiveArgs"@.len() == 15,
        "version"@.len() == 7,
        "shells"@.len() == 6,
        "profile"@[0] == 'p',
        "profile"@[3] == 'f',
        "program"@[0] == 'p',
        "program"@[3] == 'g',
        "settingsPath"@[0] == 's',
        "defaultShell"@[0] == 'd',
        "resolution"@[0] == 'r',
        "default"@[0] == 'd',
        "interactive"@[0] == 'i',
        "candidates"@[0] == 'c',
        "commandArgs"@[0] == 'c',
        "version"@[0] == 'v',
{
    reveal_strlit("requested");
    reveal_strlit("profile");
    reveal_strlit("program");
    reveal_strlit("args");
    reveal_strlit("settingsPath");
    reveal_strlit("defaultShell");
    reveal_strlit("resolution");
    reveal_strlit("default");
    reveal_strlit("interactive");
    reveal_strlit("profiles");
    reveal_strlit("candidates");
    reveal_strlit("commandArgs");
    reveal_strlit("interactiveArgs");
    reveal_strlit("version");
    reveal_strlit("shells");
}

/// Texts are told one for one.
pub proof fn lemma_texts_are_told(texts: Seq<Seq<char>>, i: int)
    requires
        0 <= i < texts.len(),
    ensures
        texts_json(texts) matches JsonView::Array(items) && items.len() == texts.len() && items[i]
            == JsonView::Text(texts[i]),
{
}

/// A shell that was found is told with what was asked for, its name, its program, its
/// arguments and the settings file.
pub proof fn lemma_shell_is_told(r: ResolutionView, shell: Seq<char>, path: Seq<char>)
    requires
        has_bare_ends(shell),
    ensures
        ({
            let j = resolution_json(r);
            &&& text_at(j, "requested"@) == Some(r.requested)
            &&& text_at(j, "profile"@) == Some(r.profile)
            &&& text_at(j, "program"@) == Some(r.program)
            &&& field(j, "args"@) == Some(texts_json(r.args))
            &&& text_at(j, "settingsPath"@) == Some(r.settings_path)
            &&& text_at(default_shell_result(shell, path, r).metadata, "defaultShell"@) == Some(
                shell,
            )
            &&& field(default_shell_result(shell, path, r).metadata, "resolution"@) == Some(j)
            &&& text_at(default_shell_result(shell, path, r).metadata, "settingsPath"@) == Some(
                path,
            )
        }),
{
    let no = Seq::<char>::empty();
    lemma_trim_takes(no, shell, no);
    assert(no + shell + no =~= shell);
    lemma_setting_fields_differ();
}

/// Settings are told with all of their shells, each with its candidates and its arguments
/// under its name.
pub proof fn lemma_settings_are_told(
    shells: ShellSettingsView,
    path: Seq<char>,
    version: u32,
    name: Seq<char>,
)
    requires
        shells.profiles.dom().contains(name),
    ensures
        ({
            let m = shells_result(shells, path).metadata;
            let p = shells.profiles[name];
            let written = settings_json(ReSettingsView { version, shells });
            &&& text_at(m, "default"@) == Some(shells.default)
            &&& text_at(m, "interactive"@) == Some(shells.interactive)
            &&& text_at(m, "settingsPath"@) == Some(path)
            &&& field(m, "profiles"@) matches Some(JsonView::Object(all))
            &&& all.dom() == shells.profiles.dom()
            &&& field(all[name], "candidates"@) == Some(texts_json(p.candidates))
            &&& field(all[name], "commandArgs"@) == Some(texts_json(p.command_args))
            &&& field(all[name], "interactiveArgs"@) == Some(texts_json(p.interactive_args))
            &&& field(written, "version"@) == Some(
                JsonView::Number(NumberView::Unsigned(version as u64)),
            )
            &&& field(written, "shells"@) matches Some(s)
            &&& text_at(s, "default"@) == Some(shells.default)
            &&& text_at(s, "interactive"@) == Some(shells.interactive)
            &&& field(s, "profiles"@) == field(m, "profiles"@)
        }),
{
    lemma_setting_fields_differ();
}

/// People see arguments with blanks between them, and see where there are none and where
/// one is empty.
pub proof fn lemma_args_are_shown(args: Seq<Seq<char>>)
    requires
        args.len() > 0,
        forall|i: int|
            0 <= i < args.len() ==> (#[trigger] args[i]).len() > 0 && !args[i].contains(' '),
    ensures
        shown_args(seq![]) == "<none>"@,
        shown_args(seq![seq![]]) == "<empty>"@,
        split(shown_args(args), ' ') == args,
{
    reveal_strlit(" ");
    assert(" "@ =~= seq![' ']);
    let shown = Seq::new(
        args.len(),
        |i: int|
            if args[i].len() == 0 {
                "<empty>"@
            } else {
                args[i]
            },
    );
    assert(shown =~= args);
    lemma_cutting_undoes_joining(args, ' ');
    let empty: Seq<Seq<char>> = seq![seq![]];
    let one = Seq::new(
        empty.len(),
        |i: int|
            if empty[i].len() == 0 {
                "<empty>"@
            } else {
                empty[i]
            },
    );
    assert(one =~= seq!["<empty>"@]);
    reveal_with_fuel(join, 2);
    assert(join(seq!["<empty>"@], " "@) =~= "<empty>"@);
}

/// The line about a shell.
pub open spec fn shell_row(name: Seq<char>, p: ProfileView) -> Seq<char> {
    "- "@ + name + ": candidates="@ + shown_args(p.candidates) + " commandArgs="@ + shown_args(
        p.command_args,
    ) + " interactiveArgs="@ + shown_args(p.interactive_args)
}

/// The lines about the settings of shells, the last ones about the shells themselves.
pub open spec fn shell_rows(
    s: ShellSettingsView,
    path: Seq<char>,
    shells: Seq<(Seq<char>, ProfileView)>,
) -> Seq<Seq<char>> {
    seq![
        "default:"@ + s.default,
        "interactive:"@ + s.interactive,
        "settingsPath:"@ + path,
        "profiles:"@,
    ] + (if shells.len() == 0 {
        seq!["- none"@]
    } else {
        Seq::new(shells.len(), |i: int| shell_row(shells[i].0, shells[i].1))
    })
}

proof fn lemma_rows_behind(head: Seq<Seq<char>>, pairs: Seq<(Seq<char>, ProfileView)>)
    requires
        head.len() > 0,
    ensures
        join(head + Seq::new(pairs.len(), |i: int| shell_row(pairs[i].0, pairs[i].1)), "\n"@)
            == join(head, "\n"@) + profile_lines(pairs),
    decreases pairs.len(),
{
    let nl = "\n"@;
    let rows = Seq::new(pairs.len(), |i: int| shell_row(pairs[i].0, pairs[i].1));
    if pairs.len() == 0 {
        assert(head + rows =~= head);
        assert(join(head, nl) + profile_lines(pairs) =~= join(head, nl));
    } else {
        let before = pairs.drop_last();
        let rows_before = Seq::new(before.len(), |i: int| shell_row(before[i].0, before[i].1));
        lemma_rows_behind(head, before);
        assert((head + rows).drop_last() =~= head + rows_before);
        let (name, p) = pairs.last();
        reveal_strlit("\n- ");
        reveal_strlit("\n");
        reveal_strlit("- ");
        assert("\n- "@ =~= nl + "- "@);
        assert(profile_line(name, p) =~= nl + shell_row(name, p));
        assert((head + rows).last() == shell_row(name, p));
        assert(join(head + rows, nl) =~= join(head, nl) + profile_lines(pairs));
    }
}

proof fn lemma_four_rows(a: Seq<char>, b: Seq<char>, c: Seq<char>, d: Seq<char>)
    ensures
        join(seq![a, b, c, d], "\n"@) == a + "\n"@ + b + "\n"@ + c + "\n"@ + d,
{
    let nl = "\n"@;
    assert(seq![a, b, c, d].drop_last() =~= seq![a, b, c]);
    assert(seq![a, b, c].drop_last() =~= seq![a, b]);
    assert(seq![a, b].drop_last() =~= seq![a]);
    reveal_with_fuel(join, 2);
    assert(join(seq![a], nl) =~= a);
    assert(join(seq![a, b], nl) =~= a + nl + b);
    assert(join(seq![a, b, c], nl) =~= a + nl + b + nl + c);
}

/// People see the settings of shells on a line each, and below them each shell on a line of
/// its own, in the order of their names, with its candidates and arguments.
pub proof fn lemma_shells_are_shown(s: ShellSettingsView, path: Seq<char>)
    requires
        forall|i: int|
            0 <= i < shell_rows(s, path, in_name_order(s.profiles)).len() ==> !(#[trigger] shell_rows(
                s,
                path,
                in_name_order(s.profiles),
            )[i]).contains('\n'),
    ensures
        text_at(shells_result(s, path).output, "text"@) matches Some(text) && split(text, '\n')
            == shell_rows(s, path, in_name_order(s.profiles)),
{
    let nl = "\n"@;
    let pairs = in_name_order(s.profiles);
    let rows = shell_rows(s, path, pairs);
    reveal_strlit("\n");
    reveal_strlit("\ninteractive:");
    reveal_strlit("\nsettingsPath:");
    reveal_strlit("\nprofiles:");
    reveal_strlit("interactive:");
    reveal_strlit("settingsPath:");
    reveal_strlit("profiles:");
    reveal_strlit("\n- none");
    reveal_strlit("- none");
    assert("\ninteractive:"@ =~= nl + "interactive:"@);
    assert("\nsettingsPath:"@ =~= nl + "settingsPath:"@);
    assert("\nprofiles:"@ =~= nl + "profiles:"@);
    assert("\n- none"@ =~= nl + "- none"@);
    let a = "default:"@ + s.default;
    let b = "interactive:"@ + s.interactive;
    let c = "settingsPath:"@ + path;
    let d = "profiles:"@;
    let head = seq![a, b, c, d];
    lemma_four_rows(a, b, c, d);
    let front = "default:"@ + s.default + "\ninteractive:"@ + s.interactive + "\nsettingsPath:"@
        + path + "\nprofiles:"@;
    assert(join(head, nl) =~= front);
    if pairs.len() == 0 {
        assert(rows =~= head.push("- none"@));
        assert(rows.drop_last() =~= head);
        assert(join(rows, nl) =~= front + "\n- none"@);
    } else {
        lemma_rows_behind(head, pairs);
    }
    assert(shells_text(s, path) == join(rows, nl));
    lemma_split_undoes_join(rows);
    lemma_output_shows(""@, shells_text(s, path), ""@);
}

/// A settings file that is not there says nothing, and one that cannot be read is refused
/// with its path.
pub proof fn lemma_settings_files_are_read(path: Seq<char>, bytes: Seq<u8>)
    ensures
        file_layer(path, None) == Ok::<Option<JsonView>, Seq<char>>(None),
        json_read(bytes) matches Ok(j) ==> file_layer(path, Some(bytes)) == Ok::<
            Option<JsonView>,
            Seq<char>,
        >(Some(j)),
        json_read(bytes) is Err ==> file_layer(path, Some(bytes)) == Err::<
            Option<JsonView>,
            Seq<char>,
        >("failed to parse settings file "@ + path),
{
}

proof fn lemma_shell_names_differ()
    ensures
        "bash"@.len() == 4,
        "python"@.len() == 6,
        "node"@.len() == 4,
        "powershell"@.len() == 10,
        "bash"@[0] == 'b',
        "node"@[0] == 'n',
{
    reveal_strlit("bash");
    reveal_strlit("python");
    reveal_strlit("node");
    reveal_strlit("powershell");
}

/// Four shells are known without any settings; where the settings have one of their names,
/// theirs counts, and every shell of theirs is kept.
pub proof fn lemma_known_shells(s: ReSettingsView, name: Seq<char>)
    ensures
        ({
            let all = with_defaults(s).shells.profiles;
            let own = s.shells.profiles;
            &&& all.dom().contains(name) <==> own.dom().contains(name) || name == "bash"@ || name
                == "python"@ || name == "node"@ || name == "powershell"@
            &&& own.dom().contains(name) ==> all[name] == own[name]
            &&& !own.dom().contains("bash"@) ==> all["bash"@].candidates == seq![
                ".venv/bin/bash"@,
                "bash"@,
                "/bin/bash"@,
                "sh"@,
            ] && all["bash"@].interactive_args == seq!["-l"@]
            &&& !own.dom().contains("python"@) ==> all["python"@].candidates == seq![
                ".venv/bin/python"@,
                ".venv/Scripts/python.exe"@,
                "venv/bin/python"@,
                "venv/Scripts/python.exe"@,
                "python3"@,
                "python"@,
            ]
            &&& !own.dom().contains("node"@) ==> all["node"@].candidates == seq![
                "node"@,
                "nodejs"@,
            ]
            &&& !own.dom().contains("powershell"@) ==> all["powershell"@].candidates == seq![
                "pwsh"@,
                "powershell.exe"@,
            ] && all["powershell"@].interactive_args == seq!["-NoLogo"@]
            &&& with_defaults(s).version == s.version
        }),
{
    lemma_shell_names_differ();
}

/// Without any settings the shell of the system is used, for commands and for terminals.
pub proof fn lemma_system_shell_is_used(windows: bool, interactive: bool)
    ensures
        default_settings().version == 1,
        profile_name(configured_shell(default_settings().shells, ""@, interactive), windows) == (
        if windows {
            "powershell"@
        } else {
            "bash"@
        }),
{
    let s = default_settings().shells;
    let no = Seq::<char>::empty();
    reveal_strlit("");
    assert(""@ =~= no);
    lemma_shell_is_chosen(s, no, no, no, interactive);
    assert(no + no + no =~= no);
    reveal_strlit("auto");
    assert(lower("auto"@) =~= "auto"@);
    lemma_shell_is_the_named("auto"@);
}

} // verus!
