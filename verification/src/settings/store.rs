//! Settings that were read from files, and when they were read.
//!
//! Reading and writing the files is up to the caller: it is told which files
//! count, and hands over what it found there.

use crate::error::Error;
use crate::json::{put, Json, JsonView, NumberView};
use crate::paths::{
    components, is_absolute, is_rooted, join, join_path, lemma_joined_stays, lends_prefix, parent,
    parent_of, same_path,
};
use crate::protocol::{
    copy_opt, opt_text, output_of, str_text, tool_output, ToolResult, ToolResultView,
};
use crate::settings::shell::{
    needed_probes, resolution_json, resolution_value, resolve_shell, resolved, shell_probes, Probe,
    ResolutionView, Roots, RootsView, ShellResolution,
};
use crate::settings::{
    all_layers, built_in, default_settings, display_args, format_shell_settings, is_set_to,
    lemma_layers_become_settings, or_auto, profile_keys, profiles_json, profiles_value, reads_as,
    shell_keys, shells_text, shown_args, texts_json, version_keys, with_default_profiles,
    with_defaults, ReSettings, ReSettingsView, ShellSettingsView,
};
use crate::text::split::{trim, trimmed};
use crate::text::{chars_of, owned, string_of, views};
use vstd::prelude::*;

verus! {

/// A file at one moment: how large it is and when it was last written.
#[derive(Clone, Copy, Debug, PartialEq, Eq, Structural)]
pub struct SettingsStamp {
    pub size: u64,
    pub mtime_ms: u128,
}

/// What was read from the settings files; a file that does not exist has no
/// stamp.
#[derive(Debug)]
pub struct LoadedSettings {
    pub settings: ReSettings,
    pub base_stamp: Option<SettingsStamp>,
    pub stamp: Option<SettingsStamp>,
}

/// The settings of a directory: where they come from and what they say.
#[derive(Debug)]
pub struct SettingsStore {
    path: String,
    root: String,
    base_path: Option<String>,
    base_root: Option<String>,
    settings: ReSettings,
    stamp: Option<SettingsStamp>,
    base_stamp: Option<SettingsStamp>,
}

#[verifier::ext_equal]
pub struct StoreView {
    pub path: Seq<char>,
    pub root: Seq<char>,
    pub base_path: Option<Seq<char>>,
    pub base_root: Option<Seq<char>>,
    pub settings: ReSettingsView,
    pub stamp: Option<SettingsStamp>,
    pub base_stamp: Option<SettingsStamp>,
}

impl View for SettingsStore {
    type V = StoreView;

    closed spec fn view(&self) -> StoreView {
        StoreView {
            path: self.path@,
            root: self.root@,
            base_path: opt_text(self.base_path),
            base_root: opt_text(self.base_root),
            settings: self.settings@,
            stamp: self.stamp,
            base_stamp: self.base_stamp,
        }
    }
}

pub open spec fn roots_of(s: StoreView) -> RootsView {
    RootsView { path: s.path, root: s.root, base_root: s.base_root }
}

/// The name of a settings file.
pub open spec fn settings_file() -> Seq<char> {
    ".re-setting.json"@
}

/// The settings file that counts: the one that is named, else that of the
/// directory in which the program was started.
pub open spec fn settings_path_of(windows: bool, path: Option<Seq<char>>, current: Seq<char>) -> Seq<char> {
    join_path(
        windows,
        current,
        match path {
            Some(p) => p,
            None => settings_file(),
        },
    )
}

pub fn settings_path(windows: bool, path: Option<&str>, current: &str) -> (r: String)
    ensures
        r@ == settings_path_of(
            windows,
            match path {
                Some(p) => Some(p@),
                None => None,
            },
            current@,
        ),
{
    match path {
        Some(p) => join(windows, current, p),
        None => join(windows, current, ".re-setting.json"),
    }
}

/// The base file, where there is one that is not the file itself.
pub open spec fn base_beside(windows: bool, base: Option<Seq<char>>, path: Seq<char>) -> Option<Seq<char>> {
    match base {
        Some(b) => if components(windows, b) == components(windows, path) {
            None
        } else {
            Some(b)
        },
        None => None,
    }
}

/// The directory of a file.
pub open spec fn directory_of(windows: bool, path: Seq<char>) -> Seq<char> {
    match parent_of(windows, path) {
        Some(dir) => dir,
        None => "."@,
    }
}

/// The files that settings are read from: the base file and the file itself.
pub fn layer_paths(windows: bool, base: Option<&str>, path: &str, current: &str) -> (r: (Option<String>, String))
    ensures
        r.1@ == join_path(windows, current@, path@),
        opt_text(r.0) == base_beside(
            windows,
            match base {
                Some(b) => Some(join_path(windows, current@, b@)),
                None => None,
            },
            join_path(windows, current@, path@),
        ),
{
    let path = join(windows, current, path);
    let base = match base {
        Some(b) => {
            let b = join(windows, current, b);
            if same_path(windows, b.as_str(), path.as_str()) {
                None
            } else {
                Some(b)
            }
        },
        None => None,
    };
    (base, path)
}

/// Settings that were read for a file and the base file beside it.
pub open spec fn store_of(
    windows: bool,
    base: Option<Seq<char>>,
    path: Seq<char>,
    settings: ReSettingsView,
    base_stamp: Option<SettingsStamp>,
    stamp: Option<SettingsStamp>,
) -> StoreView {
    StoreView {
        path,
        root: directory_of(windows, path),
        base_path: base,
        base_root: match base {
            Some(b) => parent_of(windows, b),
            None => None,
        },
        settings: with_defaults(settings),
        stamp,
        base_stamp,
    }
}

pub open spec fn layered_store(
    windows: bool,
    base: Option<Seq<char>>,
    path: Seq<char>,
    current: Seq<char>,
    loaded: LoadedSettings,
) -> StoreView {
    let whole = join_path(windows, current, path);
    store_of(
        windows,
        base_beside(
            windows,
            match base {
                Some(b) => Some(join_path(windows, current, b)),
                None => None,
            },
            whole,
        ),
        whole,
        loaded.settings@,
        loaded.base_stamp,
        loaded.stamp,
    )
}

/// The settings files at one moment: their stamps, and what they say together, or why
/// they cannot be read.
pub struct FilesView {
    pub stamp: Option<SettingsStamp>,
    pub base_stamp: Option<SettingsStamp>,
    pub says: Result<ReSettingsView, Seq<char>>,
}

pub open spec fn files_read(loaded: Result<LoadedSettings, Error>) -> FilesView {
    match loaded {
        Ok(l) => FilesView { stamp: l.stamp, base_stamp: l.base_stamp, says: Ok(l.settings@) },
        Err(e) => FilesView { stamp: None, base_stamp: None, says: Err(e@) },
    }
}

/// Whether the files have the stamps that they had when they were read.
pub open spec fn is_as_read(
    s: StoreView,
    stamp: Option<SettingsStamp>,
    base_stamp: Option<SettingsStamp>,
) -> bool {
    s.stamp == stamp && s.base_stamp == base_stamp
}

/// Settings after the files were read again.
pub open spec fn reloaded(s: StoreView, files: FilesView) -> Result<StoreView, Seq<char>> {
    match files.says {
        Ok(settings) => Ok(
            StoreView {
                settings: with_defaults(settings),
                stamp: files.stamp,
                base_stamp: files.base_stamp,
                ..s
            },
        ),
        Err(m) => Err(m),
    }
}

/// Settings as they are used: as they were read while the files have the same
/// stamps, else read again.
pub open spec fn refreshed(s: StoreView, files: FilesView) -> Result<StoreView, Seq<char>> {
    if is_as_read(s, files.stamp, files.base_stamp) {
        Ok(s)
    } else {
        reloaded(s, files)
    }
}

/// Settings follow their files. As long as every change of a file changes its size or
/// its time, settings that were loaded once are those that loading the files now would
/// give; files that cannot be read are an error; and while no stamp changes, nothing
/// does.
pub proof fn lemma_settings_follow_their_files(
    windows: bool,
    base: Option<Seq<char>>,
    path: Seq<char>,
    before: FilesView,
    now: FilesView,
)
    requires
        before.says is Ok,
        before.stamp == now.stamp && before.base_stamp == now.base_stamp ==> before.says
            == now.says,
    ensures
        ({
            let s = store_of(windows, base, path, before.says->Ok_0, before.base_stamp, before.stamp);
            &&& now.says matches Ok(settings) ==> refreshed(s, now) == Ok::<StoreView, Seq<char>>(
                store_of(windows, base, path, settings, now.base_stamp, now.stamp),
            )
            &&& now.says matches Err(m) ==> refreshed(s, now) == Err::<StoreView, Seq<char>>(m)
            &&& before.stamp == now.stamp && before.base_stamp == now.base_stamp ==> refreshed(
                s,
                now,
            ) == Ok::<StoreView, Seq<char>>(s)
        }),
{
}

/// A file is no base of its own: naming it twice is naming it once.
pub proof fn lemma_file_is_not_its_own_base(
    windows: bool,
    path: Seq<char>,
    current: Seq<char>,
    loaded: LoadedSettings,
)
    ensures
        layered_store(windows, Some(path), path, current, loaded) == layered_store(
            windows,
            None,
            path,
            current,
            loaded,
        ),
{
}

/// The settings of a store that was read from the layers are what the topmost layer sets
/// them to that says anything of them. A blank name of a shell stands for `auto`, and the
/// built-in shells are there, whatever the files say.
pub proof fn lemma_store_has_its_layers(
    windows: bool,
    base_path: Option<Seq<char>>,
    path: Seq<char>,
    current: Seq<char>,
    loaded: LoadedSettings,
    base: Option<JsonView>,
    overlay: Option<JsonView>,
    name: Seq<char>,
    texts: Seq<Seq<char>>,
    text: Seq<char>,
)
    requires
        reads_as(all_layers(base, overlay), loaded.settings@),
    ensures
        ({
            let s = layered_store(windows, base_path, path, current, loaded).settings;
            let p = s.shells.profiles[name];
            let known = s.shells.profiles.dom().contains(name);
            let list = texts_json(texts);
            &&& forall|v: JsonView| #[trigger]
                is_set_to(base, overlay, version_keys(), v) ==> v == JsonView::Number(
                    NumberView::Unsigned(s.version as u64),
                )
            &&& is_set_to(base, overlay, shell_keys("default"@), JsonView::Text(text))
                ==> s.shells.default == or_auto(text)
            &&& is_set_to(base, overlay, shell_keys("interactive"@), JsonView::Text(text))
                ==> s.shells.interactive == or_auto(text)
            &&& is_set_to(base, overlay, profile_keys(name, "candidates"@), list) ==> known
                && p.candidates == texts
            &&& is_set_to(base, overlay, profile_keys(name, "commandArgs"@), list) ==> known
                && p.command_args == texts
            &&& is_set_to(base, overlay, profile_keys(name, "interactiveArgs"@), list) ==> known
                && p.interactive_args == texts
            &&& built_in().dom().subset_of(s.shells.profiles.dom())
        }),
{
    let read = loaded.settings@;
    lemma_layers_become_settings(base, overlay, read, name, texts, JsonView::Text(text));
    assert forall|v: JsonView| #[trigger]
        is_set_to(base, overlay, version_keys(), v) implies v == JsonView::Number(
        NumberView::Unsigned(read.version as u64),
    ) by {
        lemma_layers_become_settings(base, overlay, read, name, texts, v);
    }
}

/// Two base files are one: both are missing, or their paths have the same components.
pub open spec fn same_base(windows: bool, a: Option<Seq<char>>, b: Option<Seq<char>>) -> bool {
    match (a, b) {
        (None, None) => true,
        (Some(x), Some(y)) => components(windows, x) == components(windows, y),
        _ => false,
    }
}

/// The settings of a directory are not inherited by another: going on from the settings
/// of directory `a` to directory `b` leads to the same file over the same base, and so to
/// the same settings, as going to `b` at once. The current directory is absolute, as
/// the system gives it, and lends its prefix to the files, as any does that names
/// something behind `\\?\`.
pub proof fn lemma_directories_do_not_inherit(
    windows: bool,
    s: StoreView,
    a: Seq<char>,
    b: Seq<char>,
    current: Seq<char>,
    first: LoadedSettings,
    loaded: LoadedSettings,
)
    requires
        is_rooted(windows, current),
        lends_prefix(windows, current, SettingsStore::base_for_directory(s)),
        lends_prefix(windows, current, join_path(windows, a, settings_file())),
    ensures
        ({
            let t = layered_store(
                windows,
                Some(SettingsStore::base_for_directory(s)),
                join_path(windows, a, settings_file()),
                current,
                first,
            );
            let path = join_path(windows, b, settings_file());
            let after = layered_store(
                windows,
                Some(SettingsStore::base_for_directory(t)),
                path,
                current,
                loaded,
            );
            let at_once = layered_store(
                windows,
                Some(SettingsStore::base_for_directory(s)),
                path,
                current,
                loaded,
            );
            &&& after.path == at_once.path
            &&& after.path == join_path(windows, current, path)
            &&& same_base(windows, after.base_path, at_once.base_path)
            &&& after.settings == at_once.settings
        }),
{
    lemma_joined_stays(windows, current, SettingsStore::base_for_directory(s));
    lemma_joined_stays(windows, current, join_path(windows, a, settings_file()));
}

/// How a program is started.
#[derive(Debug)]
pub struct CommandLine {
    pub program: String,
    pub args: Vec<String>,
    pub cwd: Option<String>,
}

#[verifier::ext_equal]
pub struct CommandView {
    pub program: Seq<char>,
    pub args: Seq<Seq<char>>,
    pub cwd: Option<Seq<char>>,
}

impl View for CommandLine {
    type V = CommandView;

    open spec fn view(&self) -> CommandView {
        CommandView {
            program: self.program@,
            args: views(self.args@),
            cwd: opt_text(self.cwd),
        }
    }
}

fn make_store(
    windows: bool,
    base_path: Option<String>,
    path: String,
    settings: ReSettings,
    base_stamp: Option<SettingsStamp>,
    stamp: Option<SettingsStamp>,
) -> (r: SettingsStore)
    ensures
        r@ == store_of(windows, opt_text(base_path), path@, settings@, base_stamp, stamp),
{
    let root = match parent(windows, path.as_str()) {
        Some(dir) => dir,
        None => owned("."),
    };
    let base_root = match &base_path {
        Some(b) => parent(windows, b.as_str()),
        None => None,
    };
    let settings = with_default_profiles(settings);
    SettingsStore { path, root, base_path, base_root, settings, stamp, base_stamp }
}

impl SettingsStore {
    /// The settings of a program that was started in `current`.
    pub fn load(windows: bool, path: Option<&str>, current: &str, loaded: LoadedSettings) -> (r: SettingsStore)
        ensures
            r@ == store_of(
                windows,
                None,
                settings_path_of(windows, str_text(path), current@),
                loaded.settings@,
                loaded.base_stamp,
                loaded.stamp,
            ),
    {
        let path = settings_path(windows, path, current);
        make_store(windows, None, path, loaded.settings, loaded.base_stamp, loaded.stamp)
    }

    /// The settings of a file that is laid over a base file.
    pub fn load_layered(
        windows: bool,
        base_path: Option<&str>,
        path: &str,
        current: &str,
        loaded: LoadedSettings,
    ) -> (r: SettingsStore)
        ensures
            r@ == layered_store(windows, str_text(base_path), path@, current@, loaded),
    {
        let (base, path) = layer_paths(windows, base_path, path, current);
        make_store(windows, base, path, loaded.settings, loaded.base_stamp, loaded.stamp)
    }

    /// The settings of a directory, over those of the program.
    pub fn load_for_directory(
        windows: bool,
        directory: &str,
        current: &str,
        loaded: LoadedSettings,
    ) -> (r: SettingsStore)
        ensures
            r@ == layered_store(
                windows,
                Some(settings_path_of(windows, None, current@)),
                join_path(windows, directory@, settings_file()),
                current@,
                loaded,
            ),
    {
        let base = settings_path(windows, None, current);
        let path = join(windows, directory, ".re-setting.json");
        SettingsStore::load_layered(windows, Some(base.as_str()), path.as_str(), current, loaded)
    }

    /// The file that the settings of a directory are laid over.
    pub open spec fn base_for_directory(s: StoreView) -> Seq<char> {
        match s.base_path {
            Some(b) => b,
            None => s.path,
        }
    }

    /// The files that the settings of a directory are read from.
    pub fn paths_for_directory(&self, windows: bool, directory: &str, current: &str) -> (r: (
        Option<String>,
        String,
    ))
        ensures
            r.1@ == join_path(windows, current@, join_path(windows, directory@, settings_file())),
            opt_text(r.0) == base_beside(
                windows,
                Some(join_path(windows, current@, SettingsStore::base_for_directory(self@))),
                r.1@,
            ),
    {
        let path = join(windows, directory, ".re-setting.json");
        let base = match &self.base_path {
            Some(b) => b.as_str(),
            None => self.path.as_str(),
        };
        layer_paths(windows, Some(base), path.as_str(), current)
    }

    /// The settings of a directory, over the file that these come from.
    pub fn for_directory(
        &self,
        windows: bool,
        directory: &str,
        current: &str,
        loaded: LoadedSettings,
    ) -> (r: SettingsStore)
        ensures
            r@ == layered_store(
                windows,
                Some(SettingsStore::base_for_directory(self@)),
                join_path(windows, directory@, settings_file()),
                current@,
                loaded,
            ),
    {
        let path = join(windows, directory, ".re-setting.json");
        let base = match &self.base_path {
            Some(b) => b.as_str(),
            None => self.path.as_str(),
        };
        SettingsStore::load_layered(windows, Some(base), path.as_str(), current, loaded)
    }

    /// The settings of a program, the built-in ones where its file cannot be
    /// read. `current` is `None` where the system does not tell it.
    pub fn load_default_lossy(
        windows: bool,
        current: Option<&str>,
        loaded: Option<LoadedSettings>,
    ) -> (r: SettingsStore)
        ensures
            r@ == match (current, loaded) {
                (Some(c), Some(l)) => store_of(
                    windows,
                    None,
                    settings_path_of(windows, None, c@),
                    l.settings@,
                    l.base_stamp,
                    l.stamp,
                ),
                (Some(c), None) => store_of(
                    windows,
                    None,
                    settings_path_of(windows, None, c@),
                    default_settings(),
                    None,
                    None,
                ),
                (None, _) => store_of(windows, None, settings_file(), default_settings(), None, None),
            },
    {
        match current {
            Some(c) => match loaded {
                Some(l) => SettingsStore::load(windows, None, c, l),
                None => {
                    let path = settings_path(windows, None, c);
                    make_store(windows, None, path, ReSettings::default(), None, None)
                },
            },
            None => SettingsStore::from_settings(windows, ".re-setting.json", None, ReSettings::default()),
        }
    }

    /// Settings that come from no file.
    pub fn from_settings(windows: bool, path: &str, current: Option<&str>, settings: ReSettings) -> (r:
        SettingsStore)
        ensures
            r@ == store_of(
                windows,
                None,
                match current {
                    Some(c) => join_path(windows, c@, path@),
                    None => if is_rooted(windows, path@) {
                        path@
                    } else {
                        settings_file()
                    },
                },
                settings@,
                None,
                None,
            ),
    {
        let path = match current {
            Some(c) => join(windows, c, path),
            None => if is_absolute(windows, path) {
                owned(path)
            } else {
                owned(".re-setting.json")
            },
        };
        make_store(windows, None, path, settings, None, None)
    }

    pub fn path(&self) -> (r: &str)
        ensures
            r@ == self@.path,
    {
        self.path.as_str()
    }

    /// The base file, where the settings have one.
    pub fn base_path(&self) -> (r: Option<&str>)
        ensures
            str_text(r) == self@.base_path,
    {
        match &self.base_path {
            Some(b) => Some(b.as_str()),
            None => None,
        }
    }

    /// What the settings say.
    pub fn settings(&self) -> (r: &ReSettings)
        ensures
            r@ == self@.settings,
    {
        &self.settings
    }

    /// Whether the files are still as they were when they were read.
    pub fn is_current(&self, stamp: Option<SettingsStamp>, base_stamp: Option<SettingsStamp>) -> (r:
        bool)
        ensures
            r == is_as_read(self@, stamp, base_stamp),
    {
        same_stamp(self.stamp, stamp) && same_stamp(self.base_stamp, base_stamp)
    }

    /// Takes over what the files say now, or keeps what they said where they cannot
    /// be read.
    pub fn reload(&mut self, loaded: Result<LoadedSettings, Error>) -> (r: Result<(), Error>)
        ensures
            match reloaded(old(self)@, files_read(loaded)) {
                Ok(s) => r is Ok && final(self)@ == s,
                Err(m) => r matches Err(e) && e@ == m && final(self)@ == old(self)@,
            },
    {
        match loaded {
            Ok(l) => {
                self.settings = with_default_profiles(l.settings);
                self.stamp = l.stamp;
                self.base_stamp = l.base_stamp;
                Ok(())
            },
            Err(e) => Err(e),
        }
    }

    /// Notes that the file was written.
    pub fn note_written(&mut self, stamp: Option<SettingsStamp>)
        ensures
            final(self)@ == (StoreView { stamp, ..old(self)@ }),
    {
        self.stamp = stamp;
    }

    fn roots(&self) -> (r: Roots)
        ensures
            r@ == roots_of(self@),
    {
        Roots {
            path: self.path.clone(),
            root: self.root.clone(),
            base_root: copy_opt(&self.base_root),
        }
    }

    /// The look-ups that have to be made before a shell can be found.
    pub fn probes(&self, requested: &str, interactive: bool, windows: bool) -> (r: Vec<Probe>)
        ensures
            views(r@) == needed_probes(
                self@.settings.shells,
                roots_of(self@),
                requested@,
                interactive,
                windows,
            ),
    {
        let roots = self.roots();
        shell_probes(&self.settings.shells, &roots, requested, interactive, windows)
    }

    /// Makes a shell the one that is used where a call names none. The file is
    /// still to be written.
    pub fn set_default_shell(&mut self, shell: &str, windows: bool, found: &[bool]) -> (r: Result<
        ShellResolution,
        Error,
    >)
        ensures
            match r {
                Ok(s) => made_default(old(self)@, shell@, windows, found@) == Ok::<
                    ResolutionView,
                    Seq<char>,
                >(s@) && final(self)@ == with_default_shell(old(self)@, trim(shell@)),
                Err(e) => made_default(old(self)@, shell@, windows, found@) == Err::<
                    ResolutionView,
                    Seq<char>,
                >(e@) && final(self)@ == old(self)@,
            },
    {
        let all = chars_of(shell);
        let name = trimmed(all.as_slice());
        if name.len() == 0 {
            return Err(Error::of("shell is required"));
        }
        let name = string_of(name);
        let roots = self.roots();
        match resolve_shell(
            &self.settings.shells,
            &roots,
            name.as_str(),
            None,
            false,
            windows,
            found,
        ) {
            Ok(s) => {
                self.settings.shells.default = name;
                Ok(s)
            },
            Err(e) => Err(e),
        }
    }

    /// How a command is started through a shell.
    pub fn command_spec(
        &self,
        shell: Option<&str>,
        command: &str,
        cwd: &str,
        windows: bool,
        found: &[bool],
    ) -> (r: Result<CommandLine, Error>)
        ensures
            match resolved(
                self@.settings.shells,
                roots_of(self@),
                match shell {
                    Some(s) => s@,
                    None => seq![],
                },
                Some(command@),
                false,
                windows,
                found@,
            ) {
                Ok(s) => r matches Ok(c) && c.program@ == s.program && views(c.args@) == s.args
                    && opt_text(c.cwd) == Some(cwd@),
                Err(m) => r matches Err(e) && e@ == m,
            },
    {
        let roots = self.roots();
        let name = match shell {
            Some(s) => owned(s),
            None => String::new(),
        };
        match resolve_shell(
            &self.settings.shells,
            &roots,
            name.as_str(),
            Some(command),
            false,
            windows,
            found,
        ) {
            Ok(s) => Ok(CommandLine { program: s.program, args: s.args, cwd: Some(owned(cwd)) }),
            Err(e) => Err(e),
        }
    }

    /// How a shell is started for a person to type into.
    pub fn interactive_command_spec(&self, windows: bool, found: &[bool]) -> (r: Result<
        CommandLine,
        Error,
    >)
        ensures
            match resolved(
                self@.settings.shells,
                roots_of(self@),
                ""@,
                None,
                true,
                windows,
                found@,
            ) {
                Ok(s) => r matches Ok(c) && c.program@ == s.program && views(c.args@) == s.args
                    && c.cwd is None,
                Err(m) => r matches Err(e) && e@ == m,
            },
    {
        let roots = self.roots();
        match resolve_shell(&self.settings.shells, &roots, "", None, true, windows, found) {
            Ok(s) => Ok(CommandLine { program: s.program, args: s.args, cwd: None }),
            Err(e) => Err(e),
        }
    }
}

fn same_stamp(a: Option<SettingsStamp>, b: Option<SettingsStamp>) -> (r: bool)
    ensures
        r == (a == b),
{
    match (a, b) {
        (Some(x), Some(y)) => x == y,
        (None, None) => true,
        _ => false,
    }
}

/// What comes of making a shell the default one.
pub open spec fn made_default(
    store: StoreView,
    shell: Seq<char>,
    windows: bool,
    found: Seq<bool>,
) -> Result<ResolutionView, Seq<char>> {
    if trim(shell).len() == 0 {
        Err("shell is required"@)
    } else {
        resolved(
            store.settings.shells,
            roots_of(store),
            trim(shell),
            None,
            false,
            windows,
            found,
        )
    }
}

/// A store whose default shell is another one.
pub open spec fn with_default_shell(store: StoreView, shell: Seq<char>) -> StoreView {
    StoreView {
        settings: ReSettingsView {
            shells: ShellSettingsView { default: shell, ..store.settings.shells },
            ..store.settings
        },
        ..store
    }
}

/// Once a shell is the default one, a call that names none gets what a call
/// gets that names it.
pub proof fn lemma_default_shell_is_used(
    store: StoreView,
    shell: Seq<char>,
    command: Option<Seq<char>>,
    windows: bool,
    found: Seq<bool>,
)
    requires
        trim(shell).len() > 0,
    ensures
        ({
            let after = with_default_shell(store, trim(shell));
            resolved(after.settings.shells, roots_of(after), ""@, command, false, windows, found)
                == resolved(
                store.settings.shells,
                roots_of(store),
                shell,
                command,
                false,
                windows,
                found,
            )
        }),
{
    reveal_strlit("");
    assert(trim(""@).len() == 0);
}

/// A request to make a shell the default one.
#[derive(Debug)]
pub struct SetDefaultShellOptions {
    pub shell: String,
}

/// A request for the shells that there are.
#[derive(Debug)]
pub struct ListShellsOptions {}

pub open spec fn default_shell_result(
    shell: Seq<char>,
    path: Seq<char>,
    r: ResolutionView,
) -> ToolResultView {
    ToolResultView {
        metadata: JsonView::Object(
            Map::empty().insert("defaultShell"@, JsonView::Text(trim(shell))).insert(
                "resolution"@,
                resolution_json(r),
            ).insert("settingsPath"@, JsonView::Text(path)),
        ),
        output: output_of(
            ""@,
            "defaultShell:"@ + trim(shell) + "\nsettingsPath:"@ + path + "\nresolution: requested="@
                + r.requested + " profile="@ + r.profile + " program="@ + r.program + " args="@
                + shown_args(r.args) + " settingsPath="@ + r.settings_path,
            ""@,
        ),
    }
}

/// Makes a shell the default one and says which program that is.
pub fn set_default_shell(
    options: &SetDefaultShellOptions,
    store: &mut Option<SettingsStore>,
    windows: bool,
    found: &[bool],
) -> (r: Result<ToolResult, Error>)
    ensures
        match *old(store) {
            None => r matches Err(e) && e@ == "settings store is not available"@ && *final(store)
                is None,
            Some(s) => *final(store) matches Some(after) && match made_default(
                s@,
                options.shell@,
                windows,
                found@,
            ) {
                Err(m) => r matches Err(e) && e@ == m && after@ == s@,
                Ok(res) => r matches Ok(t) && t@ == default_shell_result(
                    options.shell@,
                    s@.path,
                    res,
                ) && after@ == with_default_shell(s@, trim(options.shell@)),
            },
        },
{
    match store {
        None => Err(Error::of("settings store is not available")),
        Some(s) => {
            let path = owned(s.path());
            match s.set_default_shell(options.shell.as_str(), windows, found) {
                Err(e) => Err(e),
                Ok(res) => Ok(describe_default(options.shell.as_str(), path.as_str(), &res)),
            }
        },
    }
}

fn describe_default(shell: &str, path: &str, res: &ShellResolution) -> (r: ToolResult)
    ensures
        r@ == default_shell_result(shell@, path@, res@),
{
    let all = chars_of(shell);
    let name = string_of(trimmed(all.as_slice()));
    let mut m = owned("defaultShell:");
    m.append(name.as_str());
    m.append("\nsettingsPath:");
    m.append(path);
    m.append("\nresolution: requested=");
    m.append(res.requested.as_str());
    m.append(" profile=");
    m.append(res.profile.as_str());
    m.append(" program=");
    m.append(res.program.as_str());
    m.append(" args=");
    let args = display_args(res.args.as_slice());
    m.append(args.as_str());
    m.append(" settingsPath=");
    m.append(res.settings_path.as_str());
    let mut e: Vec<(String, Json)> = Vec::new();
    put(&mut e, "defaultShell", Json::Text(name));
    put(&mut e, "resolution", resolution_value(res));
    put(&mut e, "settingsPath", Json::text(path));
    ToolResult { metadata: Json::Object(e), output: tool_output(m) }
}

pub open spec fn shells_result(shells: ShellSettingsView, path: Seq<char>) -> ToolResultView {
    ToolResultView {
        metadata: JsonView::Object(
            Map::empty().insert("default"@, JsonView::Text(shells.default)).insert(
                "interactive"@,
                JsonView::Text(shells.interactive),
            ).insert("profiles"@, profiles_json(shells.profiles)).insert(
                "settingsPath"@,
                JsonView::Text(path),
            ),
        ),
        output: output_of(""@, shells_text(shells, path), ""@),
    }
}

/// Lists the shells that there are.
pub fn list_shells(_options: &ListShellsOptions, store: &Option<SettingsStore>) -> (r: Result<
    ToolResult,
    Error,
>)
    ensures
        match *store {
            None => r matches Err(e) && e@ == "settings store is not available"@,
            Some(s) => r matches Ok(t) && t@ == shells_result(s@.settings.shells, s@.path),
        },
{
    match store {
        None => Err(Error::of("settings store is not available")),
        Some(s) => {
            let shells = &s.settings.shells;
            let mut e: Vec<(String, Json)> = Vec::new();
            put(&mut e, "default", Json::text(shells.default.as_str()));
            put(&mut e, "interactive", Json::text(shells.interactive.as_str()));
            put(&mut e, "profiles", profiles_value(&shells.profiles));
            put(&mut e, "settingsPath", Json::text(s.path.as_str()));
            let text = format_shell_settings(shells, s.path.as_str());
            Ok(ToolResult { metadata: Json::Object(e), output: tool_output(text) })
        },
    }
}

} // verus!
