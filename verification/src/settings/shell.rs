//! Which program a call means when it names a shell, or none.

use crate::error::Error;
use crate::json::{put, Json, JsonView};
use crate::paths::{is_absolute, is_rooted, join, join_path};
use crate::protocol::opt_text;
use crate::settings::{texts_json, texts_value, ShellProfile, ShellSettings, ShellSettingsView};
use crate::text::split::{
    copy_texts, has_char, has_text, index_of, is_blank, join as join_texts, joined, position_of,
    replace_all, same_ignoring_case, split, split_at_char, trim, trimmed, with_all_replaced,
};
use crate::text::{chars_of, lemma_views_push, lower, owned, string_of, views};
use vstd::prelude::*;

verus! {

broadcast use lemma_views_push;

/// A shell that was found, and what is handed to its program.
#[derive(Debug)]
pub struct ShellResolution {
    pub requested: String,
    pub profile: String,
    pub program: String,
    pub args: Vec<String>,
    pub settings_path: String,
}

#[verifier::ext_equal]
pub struct ResolutionView {
    pub requested: Seq<char>,
    pub profile: Seq<char>,
    pub program: Seq<char>,
    pub args: Seq<Seq<char>>,
    pub settings_path: Seq<char>,
}

impl View for ShellResolution {
    type V = ResolutionView;

    open spec fn view(&self) -> ResolutionView {
        ResolutionView {
            requested: self.requested@,
            profile: self.profile@,
            program: self.program@,
            args: views(self.args@),
            settings_path: self.settings_path@,
        }
    }
}

pub open spec fn resolution_json(r: ResolutionView) -> JsonView {
    JsonView::Object(
        Map::empty().insert("requested"@, JsonView::Text(r.requested)).insert(
            "profile"@,
            JsonView::Text(r.profile),
        ).insert("program"@, JsonView::Text(r.program)).insert("args"@, texts_json(r.args)).insert(
            "settingsPath"@,
            JsonView::Text(r.settings_path),
        ),
    )
}

pub fn resolution_value(r: &ShellResolution) -> (j: Json)
    ensures
        j@ == resolution_json(r@),
{
    let mut e: Vec<(String, Json)> = Vec::new();
    put(&mut e, "requested", Json::text(r.requested.as_str()));
    put(&mut e, "profile", Json::text(r.profile.as_str()));
    put(&mut e, "program", Json::text(r.program.as_str()));
    put(&mut e, "args", texts_value(r.args.as_slice()));
    put(&mut e, "settingsPath", Json::text(r.settings_path.as_str()));
    Json::Object(e)
}

/// What has to be looked up to know whether a candidate is there: a file, a
/// program on the search path, or nothing at all.
#[derive(Debug)]
pub enum Probe {
    Nothing,
    File(String),
    Program(String),
}

pub enum ProbeView {
    Nothing,
    File(Seq<char>),
    Program(Seq<char>),
}

impl View for Probe {
    type V = ProbeView;

    open spec fn view(&self) -> ProbeView {
        match self {
            Probe::Nothing => ProbeView::Nothing,
            Probe::File(p) => ProbeView::File(p@),
            Probe::Program(p) => ProbeView::Program(p@),
        }
    }
}

pub open spec fn names_a_path(candidate: Seq<char>) -> bool {
    has_char(candidate, '/') || has_char(candidate, '\\')
}

/// Where a candidate is looked for: a path from `root` on, a bare name on the
/// search path, and a blank one nowhere.
pub open spec fn probe_of(windows: bool, candidate: Seq<char>, root: Seq<char>) -> ProbeView {
    let c = trim(candidate);
    if c.len() == 0 {
        ProbeView::Nothing
    } else if is_rooted(windows, c) || names_a_path(c) {
        ProbeView::File(join_path(windows, root, c))
    } else {
        ProbeView::Program(c)
    }
}

pub fn has_path_separator(value: &[char]) -> (r: bool)
    ensures
        r == names_a_path(value@),
{
    let slash = index_of(value, '/');
    let backslash = index_of(value, '\\');
    proof {
        if slash < value.len() {
            assert(value@[slash as int] == '/');
        }
        if backslash < value.len() {
            assert(value@[backslash as int] == '\\');
        }
    }
    slash < value.len() || backslash < value.len()
}

fn make_probe(windows: bool, candidate: &str, root: &str) -> (r: Probe)
    ensures
        r@ == probe_of(windows, candidate@, root@),
{
    let all = chars_of(candidate);
    let c = trimmed(all.as_slice());
    if c.len() == 0 {
        return Probe::Nothing;
    }
    let name = string_of(c);
    if is_absolute(windows, name.as_str()) || has_path_separator(c) {
        Probe::File(join(windows, root, name.as_str()))
    } else {
        Probe::Program(name)
    }
}

/// The look-ups for one candidate: from the directory of the settings file,
/// then from that of the base file.
pub open spec fn candidate_probes(
    windows: bool,
    candidate: Seq<char>,
    root: Seq<char>,
    base_root: Option<Seq<char>>,
) -> Seq<ProbeView> {
    match base_root {
        Some(base) => seq![probe_of(windows, candidate, root), probe_of(windows, candidate, base)],
        None => seq![probe_of(windows, candidate, root)],
    }
}

/// The look-ups for all candidates, in their order.
pub open spec fn probes_of(
    windows: bool,
    candidates: Seq<Seq<char>>,
    root: Seq<char>,
    base_root: Option<Seq<char>>,
) -> Seq<ProbeView>
    decreases candidates.len(),
{
    if candidates.len() == 0 {
        seq![]
    } else {
        probes_of(windows, candidates.drop_last(), root, base_root) + candidate_probes(
            windows,
            candidates.last(),
            root,
            base_root,
        )
    }
}

fn make_probes(windows: bool, candidates: &[String], root: &str, base_root: &Option<String>) -> (r: Vec<Probe>)
    ensures
        views(r@) == probes_of(windows, views(candidates@), root@, opt_text(*base_root)),
{
    let ghost all = views(candidates@);
    let mut out: Vec<Probe> = Vec::new();
    let mut i: usize = 0;
    proof {
        assert(all.take(0) =~= seq![]);
    }
    while i < candidates.len()
        invariant
            i <= candidates@.len(),
            all == views(candidates@),
            views(out@) == probes_of(windows, all.take(i as int), root@, opt_text(*base_root)),
        decreases candidates@.len() - i,
    {
        let ghost before = views(out@);
        let candidate = candidates[i].as_str();
        out.push(make_probe(windows, candidate, root));
        proof {
            assert(views(out@) == before.push(probe_of(windows, candidate@, root@)));
        }
        if let Some(base) = base_root {
            let ghost between = out@;
            out.push(make_probe(windows, candidate, base.as_str()));
            proof {
                assert(views(out@) == views(between).push(probe_of(windows, candidate@, base@)));
            }
        }
        proof {
            assert(all[i as int] == candidate@);
            assert(all.take(i + 1).drop_last() =~= all.take(i as int));
            assert(views(out@) =~= before + candidate_probes(
                windows,
                candidate@,
                root@,
                opt_text(*base_root),
            ));
        }
        i = i + 1;
    }
    proof {
        assert(all.take(all.len() as int) =~= all);
    }
    out
}

/// What is started where a look-up succeeds.
pub open spec fn program_of(probe: ProbeView) -> Option<Seq<char>> {
    match probe {
        ProbeView::Nothing => None,
        ProbeView::File(p) => Some(p),
        ProbeView::Program(p) => Some(p),
    }
}

pub open spec fn was_found(found: Seq<bool>, i: int) -> bool {
    0 <= i < found.len() && found[i]
}

/// The program of the first look-up from the `i`-th on that succeeded. An
/// answer that is missing counts as a failure.
pub open spec fn first_found(probes: Seq<ProbeView>, found: Seq<bool>, i: int) -> Option<Seq<char>>
    decreases probes.len() - i,
{
    if i < 0 || i >= probes.len() {
        None
    } else if was_found(found, i) && probes[i] !is Nothing {
        program_of(probes[i])
    } else {
        first_found(probes, found, i + 1)
    }
}

fn pick_found(probes: &[Probe], found: &[bool]) -> (r: Option<String>)
    ensures
        opt_text(r) == first_found(views(probes@), found@, 0),
{
    let ghost all = views(probes@);
    let mut i: usize = 0;
    while i < probes.len()
        invariant
            i <= probes@.len(),
            all == views(probes@),
            first_found(all, found@, 0) == first_found(all, found@, i as int),
        decreases probes@.len() - i,
    {
        proof {
            assert(all[i as int] == probes@[i as int]@);
        }
        if i < found.len() && found[i] {
            match &probes[i] {
                Probe::Nothing => {},
                Probe::File(p) => {
                    return Some(p.clone());
                },
                Probe::Program(p) => {
                    return Some(p.clone());
                },
            }
        }
        i = i + 1;
    }
    None
}

/// A program that was found is that of a look-up that succeeded, and none
/// before it succeeded.
pub proof fn lemma_first_found(probes: Seq<ProbeView>, found: Seq<bool>, i: int)
    requires
        i >= 0,
    ensures
        match first_found(probes, found, i) {
            Some(program) => exists|k: int|
                #![trigger probes[k]]
                i <= k < probes.len() && was_found(found, k) && program_of(probes[k]) == Some(
                    program,
                ) && (forall|j: int|
                    i <= j < k ==> !was_found(found, j) || (#[trigger] probes[j]) is Nothing),
            None => forall|k: int|
                i <= k < probes.len() ==> !was_found(found, k) || (#[trigger] probes[k]) is Nothing,
        },
    decreases probes.len() - i,
{
    if i < probes.len() && !(was_found(found, i) && probes[i] !is Nothing) {
        lemma_first_found(probes, found, i + 1);
        if first_found(probes, found, i) is Some {
            let k = choose|k: int|
                #![trigger probes[k]]
                i + 1 <= k < probes.len() && was_found(found, k) && program_of(probes[k])
                    == first_found(probes, found, i + 1) && (forall|j: int|
                    i + 1 <= j < k ==> !was_found(found, j) || (#[trigger] probes[j]) is Nothing);
            assert(program_of(probes[k]) == first_found(probes, found, i));
        }
    }
}

/// The shell that a name means; a blank one and `auto` mean that of the system.
pub open spec fn profile_name(name: Seq<char>, windows: bool) -> Seq<char> {
    if trim(name).len() == 0 || lower(name) == lower("auto"@) {
        if windows {
            "powershell"@
        } else {
            "bash"@
        }
    } else {
        name
    }
}

pub fn resolve_profile_name(name: &str, windows: bool) -> (r: String)
    ensures
        r@ == profile_name(name@, windows),
{
    let all = chars_of(name);
    if is_blank(all.as_slice()) || same_ignoring_case(all.as_slice(), "auto") {
        if windows {
            owned("powershell")
        } else {
            owned("bash")
        }
    } else {
        owned(name)
    }
}

pub open spec fn takes_command(args: Seq<Seq<char>>) -> bool {
    exists|i: int| 0 <= i < args.len() && has_text(#[trigger] args[i], "{command}"@)
}

/// The arguments for a command: it stands wherever `{command}` stands, or behind
/// all where that stands nowhere.
pub open spec fn command_args_for(args: Seq<Seq<char>>, command: Seq<char>) -> Seq<Seq<char>> {
    if takes_command(args) {
        Seq::new(args.len(), |i: int| replace_all(args[i], "{command}"@, command))
    } else {
        args.push(command)
    }
}

fn has_placeholder(args: &[String]) -> (r: bool)
    ensures
        r == takes_command(views(args@)),
{
    let ghost all = views(args@);
    let mut i: usize = 0;
    while i < args.len()
        invariant
            i <= args@.len(),
            all == views(args@),
            forall|k: int| 0 <= k < i ==> !has_text(#[trigger] all[k], "{command}"@),
        decreases args@.len() - i,
    {
        let arg = chars_of(args[i].as_str());
        proof {
            assert(all[i as int] == arg@);
        }
        if position_of(arg.as_slice(), "{command}").is_some() {
            return true;
        }
        i = i + 1;
    }
    false
}

pub fn expand_command_args(args: &[String], command: &str) -> (r: Vec<String>)
    ensures
        views(r@) == command_args_for(views(args@), command@),
{
    let ghost all = views(args@);
    if !has_placeholder(args) {
        let mut out = copy_texts(args);
        out.push(owned(command));
        return out;
    }
    let ghost placed = |i: int| replace_all(all[i], "{command}"@, command@);
    let mut out: Vec<String> = Vec::new();
    let mut i: usize = 0;
    while i < args.len()
        invariant
            i <= args@.len(),
            all == views(args@),
            placed == (|k: int| replace_all(all[k], "{command}"@, command@)),
            views(out@) == Seq::new(i as nat, placed),
        decreases args@.len() - i,
    {
        let ghost before = out@;
        let arg = chars_of(args[i].as_str());
        proof {
            reveal_strlit("{command}");
        }
        out.push(with_all_replaced(arg.as_slice(), "{command}", command));
        proof {
            assert(all[i as int] == arg@);
            assert(views(out@) == views(before).push(placed(i as int)));
            assert(views(out@) =~= Seq::new((i + 1) as nat, placed));
        }
        i = i + 1;
    }
    out
}

/// The name that a call means: its own, else the one in the settings.
pub open spec fn configured_shell(
    shells: ShellSettingsView,
    requested: Seq<char>,
    interactive: bool,
) -> Seq<char> {
    if trim(requested).len() > 0 {
        trim(requested)
    } else if interactive && trim(shells.interactive).len() > 0 {
        shells.interactive
    } else {
        shells.default
    }
}

fn choose_shell(shells: &ShellSettings, requested: &str, interactive: bool) -> (r: String)
    ensures
        r@ == configured_shell(shells@, requested@, interactive),
{
    let all = chars_of(requested);
    let own = trimmed(all.as_slice());
    if own.len() > 0 {
        return string_of(own);
    }
    let usual = chars_of(shells.interactive.as_str());
    if interactive && !is_blank(usual.as_slice()) {
        shells.interactive.clone()
    } else {
        shells.default.clone()
    }
}

/// Where shells are looked for.
pub struct Roots {
    pub path: String,
    pub root: String,
    pub base_root: Option<String>,
}

#[verifier::ext_equal]
pub struct RootsView {
    pub path: Seq<char>,
    pub root: Seq<char>,
    pub base_root: Option<Seq<char>>,
}

impl View for Roots {
    type V = RootsView;

    open spec fn view(&self) -> RootsView {
        RootsView { path: self.path@, root: self.root@, base_root: opt_text(self.base_root) }
    }
}

pub open spec fn unknown_profile(name: Seq<char>, path: Seq<char>) -> Seq<char> {
    "shell profile `"@ + name + "` is not configured in "@ + path
}

pub open spec fn no_candidate(name: Seq<char>, candidates: Seq<Seq<char>>) -> Seq<char> {
    "no candidate found for shell profile `"@ + name + "`; checked: "@ + join_texts(
        candidates,
        ", "@,
    )
}

/// What a call gets that asks for a shell.
pub open spec fn resolved(
    shells: ShellSettingsView,
    roots: RootsView,
    requested: Seq<char>,
    command: Option<Seq<char>>,
    interactive: bool,
    windows: bool,
    found: Seq<bool>,
) -> Result<ResolutionView, Seq<char>> {
    let configured = configured_shell(shells, requested, interactive);
    let name = profile_name(configured, windows);
    if !shells.profiles.dom().contains(name) {
        Err(unknown_profile(name, roots.path))
    } else {
        let profile = shells.profiles[name];
        match first_found(probes_of(windows, profile.candidates, roots.root, roots.base_root), found, 0) {
            None => Err(no_candidate(name, profile.candidates)),
            Some(program) => Ok(
                ResolutionView {
                    requested: configured,
                    profile: name,
                    program,
                    args: if interactive {
                        profile.interactive_args
                    } else {
                        command_args_for(
                            profile.command_args,
                            match command {
                                Some(c) => c,
                                None => seq![],
                            },
                        )
                    },
                    settings_path: roots.path,
                },
            ),
        }
    }
}

/// The look-ups that have to be made before a call can get a shell.
pub open spec fn needed_probes(
    shells: ShellSettingsView,
    roots: RootsView,
    requested: Seq<char>,
    interactive: bool,
    windows: bool,
) -> Seq<ProbeView> {
    let name = profile_name(configured_shell(shells, requested, interactive), windows);
    if shells.profiles.dom().contains(name) {
        probes_of(windows, shells.profiles[name].candidates, roots.root, roots.base_root)
    } else {
        seq![]
    }
}

pub fn shell_probes(
    shells: &ShellSettings,
    roots: &Roots,
    requested: &str,
    interactive: bool,
    windows: bool,
) -> (r: Vec<Probe>)
    ensures
        views(r@) == needed_probes(shells@, roots@, requested@, interactive, windows),
{
    let configured = choose_shell(shells, requested, interactive);
    let name = resolve_profile_name(configured.as_str(), windows);
    match shells.profiles.get(name.as_str()) {
        Some(profile) => make_probes(
            windows,
            profile.candidates.as_slice(),
            roots.root.as_str(),
            &roots.base_root,
        ),
        None => {
            let out: Vec<Probe> = Vec::new();
            proof {
                assert(views(out@) =~= seq![]);
            }
            out
        },
    }
}

fn find_candidate(
    windows: bool,
    name: &str,
    profile: &ShellProfile,
    roots: &Roots,
    found: &[bool],
) -> (r: Result<String, Error>)
    ensures
        match first_found(
            probes_of(windows, profile@.candidates, roots@.root, roots@.base_root),
            found@,
            0,
        ) {
            Some(program) => r matches Ok(p) && p@ == program,
            None => r matches Err(e) && e@ == no_candidate(name@, profile@.candidates),
        },
{
    let probes = make_probes(windows, profile.candidates.as_slice(), roots.root.as_str(), &roots.base_root);
    match pick_found(probes.as_slice(), found) {
        Some(program) => Ok(program),
        None => {
            let mut m = owned("no candidate found for shell profile `");
            m.append(name);
            m.append("`; checked: ");
            let names = joined(profile.candidates.as_slice(), ", ");
            m.append(names.as_str());
            Err(Error::new(m))
        },
    }
}

/// Finds the shell that a call asks for; `found` answers the look-ups of
/// `shell_probes`.
pub fn resolve_shell(
    shells: &ShellSettings,
    roots: &Roots,
    requested: &str,
    command: Option<&str>,
    interactive: bool,
    windows: bool,
    found: &[bool],
) -> (r: Result<ShellResolution, Error>)
    ensures
        match r {
            Ok(s) => resolved(
                shells@,
                roots@,
                requested@,
                match command {
                    Some(c) => Some(c@),
                    None => None,
                },
                interactive,
                windows,
                found@,
            ) == Ok::<ResolutionView, Seq<char>>(s@),
            Err(e) => resolved(
                shells@,
                roots@,
                requested@,
                match command {
                    Some(c) => Some(c@),
                    None => None,
                },
                interactive,
                windows,
                found@,
            ) == Err::<ResolutionView, Seq<char>>(e@),
        },
{
    let configured = choose_shell(shells, requested, interactive);
    let name = resolve_profile_name(configured.as_str(), windows);
    match shells.profiles.get(name.as_str()) {
        None => {
            let mut m = owned("shell profile `");
            m.append(name.as_str());
            m.append("` is not configured in ");
            m.append(roots.path.as_str());
            Err(Error::new(m))
        },
        Some(profile) => {
            let program = match find_candidate(windows, name.as_str(), profile, roots, found) {
                Ok(p) => p,
                Err(e) => {
                    return Err(e);
                },
            };
            let args = if interactive {
                copy_texts(profile.interactive_args.as_slice())
            } else {
                let text = match command {
                    Some(c) => owned(c),
                    None => String::new(),
                };
                expand_command_args(profile.command_args.as_slice(), text.as_str())
            };
            Ok(
                ShellResolution {
                    requested: configured,
                    profile: name,
                    program,
                    args,
                    settings_path: roots.path.clone(),
                },
            )
        },
    }
}

/// Whether a file name has an extension: a dot that is not its first character.
pub open spec fn has_extension(name: Seq<char>) -> bool {
    name != ".."@ && exists|i: int| 0 < i < name.len() && #[trigger] name[i] == '.'
}

fn extension_is_there(name: &[char]) -> (r: bool)
    ensures
        r == has_extension(name@),
{
    if crate::text::split::is_text(name, "..") {
        return false;
    }
    let mut i: usize = 1;
    while i < name.len()
        invariant
            1 <= i,
            name@ != ".."@,
            forall|k: int| 0 < k < i && k < name@.len() ==> #[trigger] name@[k] != '.',
        decreases name@.len() - i,
    {
        if name[i] == '.' {
            assert(name@[i as int] == '.');
            return true;
        }
        i = i + 1;
    }
    false
}

/// The program's name with each extension that the system lists behind it.
pub open spec fn extended_names(program: Seq<char>, extensions: Seq<Seq<char>>) -> Seq<Seq<char>>
    decreases extensions.len(),
{
    if extensions.len() == 0 {
        seq![program]
    } else if extensions.last().len() == 0 {
        extended_names(program, extensions.drop_last())
    } else {
        extended_names(program, extensions.drop_last()).push(program + extensions.last())
    }
}

/// The file names under which a program is looked for in a directory.
pub open spec fn program_files(
    program: Seq<char>,
    windows: bool,
    pathext: Option<Seq<char>>,
) -> Seq<Seq<char>> {
    if !windows || has_extension(program) {
        seq![program]
    } else {
        extended_names(
            program,
            split(
                match pathext {
                    Some(list) => list,
                    None => ".COM;.EXE;.BAT;.CMD"@,
                },
                ';',
            ),
        )
    }
}

pub fn executable_names(program: &str, windows: bool, pathext: Option<&str>) -> (r: Vec<String>)
    ensures
        views(r@) == program_files(
            program@,
            windows,
            match pathext {
                Some(list) => Some(list@),
                None => None,
            },
        ),
{
    let name = chars_of(program);
    let mut out: Vec<String> = Vec::new();
    let ghost start = out@;
    out.push(owned(program));
    proof {
        assert(views(out@) == views(start).push(program@));
        assert(views(out@) =~= seq![program@]);
    }
    if !windows || extension_is_there(name.as_slice()) {
        return out;
    }
    let list = match pathext {
        Some(list) => chars_of(list),
        None => chars_of(".COM;.EXE;.BAT;.CMD"),
    };
    let parts = split_at_char(list.as_slice(), ';');
    let ghost all = views(parts@);
    let mut i: usize = 0;
    proof {
        assert(all.take(0) =~= seq![]);
    }
    while i < parts.len()
        invariant
            i <= parts@.len(),
            all == views(parts@),
            views(out@) == extended_names(program@, all.take(i as int)),
        decreases parts@.len() - i,
    {
        proof {
            assert(all[i as int] == parts@[i as int]@);
            assert(all.take(i + 1).drop_last() =~= all.take(i as int));
        }
        if parts[i].len() > 0 {
            let ghost before = out@;
            let mut file = owned(program);
            crate::text::append_chars(&mut file, parts[i]);
            out.push(file);
            proof {
                assert(views(out@) == views(before).push(program@ + all[i as int]));
            }
        }
        i = i + 1;
    }
    proof {
        assert(all.take(all.len() as int) =~= all);
    }
    out
}

} // verus!
