//! The settings of a program: which shells there are and which one is meant
//! where a call names none.

pub mod laws;
pub mod shell;
pub mod store;

use crate::error::Error;
use crate::json::value::{json_read, parse_json};
use crate::json::{
    add_item, covers, entries_view, entry_or_null, field, fields_of, is_silent_on, items_view,
    json_merge, lemma_merge_at, lemma_merge_covering, lemma_merge_empty, merged, put, value_at,
    Json, JsonView, NumberView,
};
use crate::table::{in_name_order, named, NameTable};
use crate::text::split::{is_blank, join, joined, trim};
use crate::text::{chars_of, lemma_views_push, owned, views};
use vstd::prelude::*;

verus! {

broadcast use lemma_views_push;

/// A shell: where its program may be found and how it is started.
#[derive(Debug)]
pub struct ShellProfile {
    pub candidates: Vec<String>,
    pub command_args: Vec<String>,
    pub interactive_args: Vec<String>,
}

#[verifier::ext_equal]
pub struct ProfileView {
    pub candidates: Seq<Seq<char>>,
    pub command_args: Seq<Seq<char>>,
    pub interactive_args: Seq<Seq<char>>,
}

impl View for ShellProfile {
    type V = ProfileView;

    open spec fn view(&self) -> ProfileView {
        ProfileView {
            candidates: views(self.candidates@),
            command_args: views(self.command_args@),
            interactive_args: views(self.interactive_args@),
        }
    }
}

/// The shells, and the names of those that are used where a call names none.
#[derive(Debug)]
pub struct ShellSettings {
    pub default: String,
    pub interactive: String,
    pub profiles: NameTable<ShellProfile>,
}

#[verifier::ext_equal]
pub struct ShellSettingsView {
    pub default: Seq<char>,
    pub interactive: Seq<char>,
    pub profiles: Map<Seq<char>, ProfileView>,
}

impl View for ShellSettings {
    type V = ShellSettingsView;

    open spec fn view(&self) -> ShellSettingsView {
        ShellSettingsView {
            default: self.default@,
            interactive: self.interactive@,
            profiles: self.profiles@,
        }
    }
}

/// What a settings file says.
#[derive(Debug)]
pub struct ReSettings {
    pub version: u32,
    pub shells: ShellSettings,
}

#[verifier::ext_equal]
pub struct ReSettingsView {
    pub version: u32,
    pub shells: ShellSettingsView,
}

impl View for ReSettings {
    type V = ReSettingsView;

    open spec fn view(&self) -> ReSettingsView {
        ReSettingsView { version: self.version, shells: self.shells@ }
    }
}

fn add_text(out: &mut Vec<String>, s: &str)
    ensures
        views(final(out)@) == views(old(out)@).push(s@),
{
    out.push(owned(s));
}

pub open spec fn bash_profile() -> ProfileView {
    ProfileView {
        candidates: seq![".venv/bin/bash"@, "bash"@, "/bin/bash"@, "sh"@],
        command_args: seq!["-lc"@, "{command}"@],
        interactive_args: seq!["-l"@],
    }
}

pub open spec fn python_profile() -> ProfileView {
    ProfileView {
        candidates: seq![
            ".venv/bin/python"@,
            ".venv/Scripts/python.exe"@,
            "venv/bin/python"@,
            "venv/Scripts/python.exe"@,
            "python3"@,
            "python"@,
        ],
        command_args: seq!["-c"@, "{command}"@],
        interactive_args: seq![],
    }
}

pub open spec fn node_profile() -> ProfileView {
    ProfileView {
        candidates: seq!["node"@, "nodejs"@],
        command_args: seq!["-e"@, "{command}"@],
        interactive_args: seq![],
    }
}

pub open spec fn powershell_profile() -> ProfileView {
    ProfileView {
        candidates: seq!["pwsh"@, "powershell.exe"@],
        command_args: seq![
            "-NoLogo"@,
            "-NoProfile"@,
            "-NonInteractive"@,
            "-Command"@,
            "{command}"@,
        ],
        interactive_args: seq!["-NoLogo"@],
    }
}

/// The shells that are known without any settings.
pub open spec fn built_in() -> Map<Seq<char>, ProfileView> {
    Map::empty().insert("bash"@, bash_profile()).insert("python"@, python_profile()).insert(
        "node"@,
        node_profile(),
    ).insert("powershell"@, powershell_profile())
}

fn make_bash() -> (r: ShellProfile)
    ensures
        r@ == bash_profile(),
{
    let mut candidates: Vec<String> = Vec::new();
    add_text(&mut candidates, ".venv/bin/bash");
    add_text(&mut candidates, "bash");
    add_text(&mut candidates, "/bin/bash");
    add_text(&mut candidates, "sh");
    let mut command_args: Vec<String> = Vec::new();
    add_text(&mut command_args, "-lc");
    add_text(&mut command_args, "{command}");
    let mut interactive_args: Vec<String> = Vec::new();
    add_text(&mut interactive_args, "-l");
    ShellProfile { candidates, command_args, interactive_args }
}

fn make_python() -> (r: ShellProfile)
    ensures
        r@ == python_profile(),
{
    let mut candidates: Vec<String> = Vec::new();
    add_text(&mut candidates, ".venv/bin/python");
    add_text(&mut candidates, ".venv/Scripts/python.exe");
    add_text(&mut candidates, "venv/bin/python");
    add_text(&mut candidates, "venv/Scripts/python.exe");
    add_text(&mut candidates, "python3");
    add_text(&mut candidates, "python");
    let mut command_args: Vec<String> = Vec::new();
    add_text(&mut command_args, "-c");
    add_text(&mut command_args, "{command}");
    ShellProfile { candidates, command_args, interactive_args: Vec::new() }
}

fn make_node() -> (r: ShellProfile)
    ensures
        r@ == node_profile(),
{
    let mut candidates: Vec<String> = Vec::new();
    add_text(&mut candidates, "node");
    add_text(&mut candidates, "nodejs");
    let mut command_args: Vec<String> = Vec::new();
    add_text(&mut command_args, "-e");
    add_text(&mut command_args, "{command}");
    ShellProfile { candidates, command_args, interactive_args: Vec::new() }
}

fn make_powershell() -> (r: ShellProfile)
    ensures
        r@ == powershell_profile(),
{
    let mut candidates: Vec<String> = Vec::new();
    add_text(&mut candidates, "pwsh");
    add_text(&mut candidates, "powershell.exe");
    let mut command_args: Vec<String> = Vec::new();
    add_text(&mut command_args, "-NoLogo");
    add_text(&mut command_args, "-NoProfile");
    add_text(&mut command_args, "-NonInteractive");
    add_text(&mut command_args, "-Command");
    add_text(&mut command_args, "{command}");
    let mut interactive_args: Vec<String> = Vec::new();
    add_text(&mut interactive_args, "-NoLogo");
    ShellProfile { candidates, command_args, interactive_args }
}

pub fn default_profiles() -> (r: NameTable<ShellProfile>)
    ensures
        r@ == built_in(),
{
    NameTable::new().with(owned("bash"), make_bash()).with(owned("python"), make_python()).with(
        owned("node"),
        make_node(),
    ).with(owned("powershell"), make_powershell())
}

pub open spec fn default_shells() -> ShellSettingsView {
    ShellSettingsView { default: "auto"@, interactive: "auto"@, profiles: built_in() }
}

pub open spec fn default_settings() -> ReSettingsView {
    ReSettingsView { version: 1, shells: default_shells() }
}

impl Default for ShellSettings {
    fn default() -> (r: ShellSettings)
        ensures
            r@ == default_shells(),
    {
        ShellSettings {
            default: owned("auto"),
            interactive: owned("auto"),
            profiles: default_profiles(),
        }
    }
}

impl Default for ReSettings {
    fn default() -> (r: ReSettings)
        ensures
            r@ == default_settings(),
    {
        ReSettings { version: 1, shells: ShellSettings::default() }
    }
}

/// A shell name, `auto` where it is blank.
pub open spec fn or_auto(name: Seq<char>) -> Seq<char> {
    if trim(name).len() == 0 {
        "auto"@
    } else {
        name
    }
}

/// Settings with the built-in shells beside their own.
pub open spec fn with_defaults(settings: ReSettingsView) -> ReSettingsView {
    ReSettingsView {
        version: settings.version,
        shells: ShellSettingsView {
            default: or_auto(settings.shells.default),
            interactive: or_auto(settings.shells.interactive),
            profiles: built_in().union_prefer_right(settings.shells.profiles),
        },
    }
}

fn filled(name: String) -> (r: String)
    ensures
        r@ == or_auto(name@),
{
    let all = chars_of(name.as_str());
    if is_blank(all.as_slice()) {
        owned("auto")
    } else {
        name
    }
}

pub open spec fn with_fallback(
    profiles: Map<Seq<char>, ProfileView>,
    name: Seq<char>,
    profile: ProfileView,
) -> Map<Seq<char>, ProfileView> {
    if profiles.dom().contains(name) {
        profiles
    } else {
        profiles.insert(name, profile)
    }
}

fn add_missing(
    profiles: NameTable<ShellProfile>,
    name: &str,
    profile: ShellProfile,
) -> (r: NameTable<ShellProfile>)
    ensures
        r@ == with_fallback(profiles@, name@, profile@),
{
    let missing = profiles.get(name).is_none();
    if missing {
        profiles.with(owned(name), profile)
    } else {
        profiles
    }
}

/// Adds the built-in shells that settings do not describe themselves.
pub fn with_default_profiles(settings: ReSettings) -> (r: ReSettings)
    ensures
        r@ == with_defaults(settings@),
{
    let ghost given = settings.shells.profiles@;
    let shells = settings.shells;
    let profiles = add_missing(shells.profiles, "powershell", make_powershell());
    let profiles = add_missing(profiles, "node", make_node());
    let profiles = add_missing(profiles, "python", make_python());
    let profiles = add_missing(profiles, "bash", make_bash());
    proof {
        lemma_names_differ();
        assert(profiles@ =~= built_in().union_prefer_right(given));
    }
    ReSettings {
        version: settings.version,
        shells: ShellSettings {
            default: filled(shells.default),
            interactive: filled(shells.interactive),
            profiles,
        },
    }
}

proof fn lemma_names_differ()
    ensures
        "bash"@ != "python"@,
        "bash"@ != "node"@,
        "bash"@ != "powershell"@,
        "python"@ != "node"@,
        "python"@ != "powershell"@,
        "node"@ != "powershell"@,
{
    reveal_strlit("bash");
    reveal_strlit("python");
    reveal_strlit("node");
    reveal_strlit("powershell");
    assert("bash"@[0] != "node"@[0]);
    assert("python"@[1] != "powershell"@[1]);
}

/// Filling in the built-in shells keeps every shell that settings describe,
/// makes each built-in one known, leaves no name of a shell blank, and changes
/// nothing the second time.
pub proof fn lemma_defaults_fill(settings: ReSettingsView)
    ensures
        ({
            let full = with_defaults(settings);
            &&& forall|name: Seq<char>| #[trigger]
                settings.shells.profiles.dom().contains(name)
                    ==> full.shells.profiles.dom().contains(name)
                    && full.shells.profiles[name] == settings.shells.profiles[name]
            &&& forall|name: Seq<char>| #[trigger]
                built_in().dom().contains(name) ==> full.shells.profiles.dom().contains(name)
            &&& trim(full.shells.default).len() > 0
            &&& trim(full.shells.interactive).len() > 0
            &&& with_defaults(full) == full
        }),
{
    let full = with_defaults(settings);
    reveal_strlit("auto");
    reveal_with_fuel(crate::text::split::trim_start, 2);
    reveal_with_fuel(crate::text::split::trim_end, 2);
    assert(trim("auto"@) == "auto"@);
    assert(built_in().union_prefer_right(full.shells.profiles) =~= full.shells.profiles);
}

/// The texts as a JSON array.
pub open spec fn texts_json(texts: Seq<Seq<char>>) -> JsonView {
    JsonView::Array(Seq::new(texts.len(), |i: int| JsonView::Text(texts[i])))
}

pub fn texts_value(texts: &[String]) -> (r: Json)
    ensures
        r@ == texts_json(views(texts@)),
{
    let mut items: Vec<Json> = Vec::new();
    let mut i: usize = 0;
    let ghost all = views(texts@);
    while i < texts.len()
        invariant
            i <= texts@.len(),
            all == views(texts@),
            items_view(items@) == Seq::new(i as nat, |k: int| JsonView::Text(all[k])),
        decreases texts@.len() - i,
    {
        let ghost before = items_view(items@);
        add_item(&mut items, Json::text(texts[i].as_str()));
        proof {
            assert(all[i as int] == texts@[i as int]@);
            assert(items_view(items@) =~= Seq::new(
                (i + 1) as nat,
                |k: int| JsonView::Text(all[k]),
            ));
        }
        i = i + 1;
    }
    Json::Array(items)
}

pub open spec fn profile_json(p: ProfileView) -> JsonView {
    JsonView::Object(
        Map::empty().insert("candidates"@, texts_json(p.candidates)).insert(
            "commandArgs"@,
            texts_json(p.command_args),
        ).insert("interactiveArgs"@, texts_json(p.interactive_args)),
    )
}

fn profile_value(p: &ShellProfile) -> (r: Json)
    ensures
        r@ == profile_json(p@),
{
    let mut e: Vec<(String, Json)> = Vec::new();
    put(&mut e, "candidates", texts_value(p.candidates.as_slice()));
    put(&mut e, "commandArgs", texts_value(p.command_args.as_slice()));
    put(&mut e, "interactiveArgs", texts_value(p.interactive_args.as_slice()));
    Json::Object(e)
}

pub open spec fn profiles_json(profiles: Map<Seq<char>, ProfileView>) -> JsonView {
    JsonView::Object(profiles.map_values(|p: ProfileView| profile_json(p)))
}

pub fn profiles_value(profiles: &NameTable<ShellProfile>) -> (r: Json)
    ensures
        r@ == profiles_json(profiles@),
{
    let mut e: Vec<(String, Json)> = Vec::new();
    let n: usize = profiles.len();
    let mut i: usize = 0;
    let ghost pairs = profiles.pairs();
    let ghost shown = |p: ProfileView| profile_json(p);
    proof {
        assert(pairs.take(0) =~= seq![]);
        assert(Map::<Seq<char>, ProfileView>::empty().map_values(shown) =~= Map::empty());
    }
    while i < n
        invariant
            i <= n,
            n == pairs.len(),
            pairs == profiles.pairs(),
            shown == (|p: ProfileView| profile_json(p)),
            entries_view(e@) == named(pairs.take(i as int)).map_values(shown),
        decreases n - i,
    {
        put(&mut e, profiles.name_at(i), profile_value(profiles.value_at(i)));
        proof {
            let next = pairs.take(i + 1);
            assert(next.drop_last() =~= pairs.take(i as int));
            assert(named(next).map_values(shown) =~= named(pairs.take(i as int)).map_values(
                shown,
            ).insert(pairs[i as int].0, shown(pairs[i as int].1)));
        }
        i = i + 1;
    }
    proof {
        assert(pairs.take(n as int) =~= pairs);
    }
    Json::Object(e)
}

/// Settings as a settings file holds them.
pub open spec fn settings_json(s: ReSettingsView) -> JsonView {
    JsonView::Object(
        Map::empty().insert("version"@, JsonView::Number(NumberView::Unsigned(s.version as u64))).insert(
            "shells"@,
            JsonView::Object(
                Map::empty().insert("default"@, JsonView::Text(s.shells.default)).insert(
                    "interactive"@,
                    JsonView::Text(s.shells.interactive),
                ).insert("profiles"@, profiles_json(s.shells.profiles)),
            ),
        ),
    )
}

pub fn settings_value(s: &ReSettings) -> (r: Json)
    ensures
        r@ == settings_json(s@),
{
    let mut shells: Vec<(String, Json)> = Vec::new();
    put(&mut shells, "default", Json::text(s.shells.default.as_str()));
    put(&mut shells, "interactive", Json::text(s.shells.interactive.as_str()));
    put(&mut shells, "profiles", profiles_value(&s.shells.profiles));
    let mut e: Vec<(String, Json)> = Vec::new();
    put(&mut e, "version", Json::count(s.version as u64));
    put(&mut e, "shells", Json::Object(shells));
    Json::Object(e)
}

/// What a settings file says; one that does not exist counts as an empty object.
pub open spec fn layer_of(layer: Option<JsonView>) -> JsonView {
    match layer {
        Some(j) => j,
        None => JsonView::Object(Map::empty()),
    }
}

/// One layer of settings over another.
pub open spec fn layered(below: JsonView, layer: Option<JsonView>) -> JsonView {
    merged(below, layer_of(layer))
}

/// What the files of a program say together: the built-in settings, over them
/// the base file, over both the file at hand.
pub fn settings_layers(base: Option<&Json>, overlay: Option<&Json>) -> (r: Json)
    ensures
        r@ == all_layers(
            match base {
                Some(j) => Some(j@),
                None => None,
            },
            match overlay {
                Some(j) => Some(j@),
                None => None,
            },
        ),
{
    let empty = Json::empty();
    let defaults = settings_value(&ReSettings::default());
    let below = match base {
        Some(j) => json_merge(&defaults, j),
        None => json_merge(&defaults, &empty),
    };
    match overlay {
        Some(j) => json_merge(&below, j),
        None => json_merge(&below, &empty),
    }
}

/// What a settings file says that holds `bytes`, or nothing where it does not exist.
pub open spec fn file_layer(path: Seq<char>, bytes: Option<Seq<u8>>) -> Result<
    Option<JsonView>,
    Seq<char>,
> {
    match bytes {
        None => Ok(None),
        Some(b) => match json_read(b) {
            Ok(j) => Ok(Some(j)),
            Err(_) => Err("failed to parse settings file "@ + path),
        },
    }
}

/// Reads a settings file; `bytes` is what it holds, where it exists.
pub fn read_layer(path: &str, bytes: Option<&[u8]>) -> (r: Result<Option<Json>, Error>)
    ensures
        ({
            let layer = file_layer(
                path@,
                match bytes {
                    Some(b) => Some(b@),
                    None => None,
                },
            );
            match r {
                Ok(None) => layer == Ok::<Option<JsonView>, Seq<char>>(None),
                Ok(Some(j)) => layer == Ok::<Option<JsonView>, Seq<char>>(Some(j@)),
                Err(e) => layer == Err::<Option<JsonView>, Seq<char>>(e@),
            }
        }),
{
    match bytes {
        None => Ok(None),
        Some(b) => match parse_json(b) {
            Ok(j) => Ok(Some(j)),
            Err(_) => {
                let mut m = owned("failed to parse settings file ");
                m.append(path);
                Err(Error::new(m))
            },
        },
    }
}

/// A settings file with an empty object says no more than one that does not
/// exist.
pub proof fn lemma_empty_layer(below: JsonView)
    ensures
        layered(below, Some(JsonView::Object(Map::empty()))) == layered(below, None),
        below is Object ==> layered(below, None) == below,
{
    if below is Object {
        lemma_merge_empty(below->Object_0);
    }
}

/// What the built-in settings, the base file and the file at hand say together.
pub open spec fn all_layers(base: Option<JsonView>, overlay: Option<JsonView>) -> JsonView {
    layered(layered(settings_json(default_settings()), base), overlay)
}

/// Whether the topmost layer that says anything of a setting sets it to `v`: the file at
/// hand, else the base file, else the built-in settings.
pub open spec fn is_set_to(
    base: Option<JsonView>,
    overlay: Option<JsonView>,
    keys: Seq<Seq<char>>,
    v: JsonView,
) -> bool {
    let (b, o) = (layer_of(base), layer_of(overlay));
    !(v is Object) && (value_at(o, keys) == Some(v) || (is_silent_on(o, keys) && (value_at(b, keys)
        == Some(v) || (is_silent_on(b, keys) && value_at(settings_json(default_settings()), keys)
        == Some(v)))))
}

/// Every setting is what the topmost layer sets it to that says anything of it, however
/// deep it stands. Anything but an object is taken over whole.
pub proof fn lemma_layer_that_counts(
    base: Option<JsonView>,
    overlay: Option<JsonView>,
    keys: Seq<Seq<char>>,
    v: JsonView,
)
    requires
        is_set_to(base, overlay, keys, v),
    ensures
        value_at(all_layers(base, overlay), keys) == Some(v),
{
    let defaults = settings_json(default_settings());
    lemma_merge_at(defaults, layer_of(base), keys);
    lemma_merge_at(layered(defaults, base), layer_of(overlay), keys);
}

/// Where the version stands in a settings file.
pub open spec fn version_keys() -> Seq<Seq<char>> {
    seq!["version"@]
}

/// Where the name of a shell stands that is used where a call names none.
pub open spec fn shell_keys(which: Seq<char>) -> Seq<Seq<char>> {
    seq!["shells"@, which]
}

/// Where a list of the shell with that name stands.
pub open spec fn profile_keys(name: Seq<char>, list: Seq<char>) -> Seq<Seq<char>> {
    seq!["shells"@, "profiles"@, name, list]
}

proof fn lemma_value_below(j: JsonView, key: Seq<char>, keys: Seq<Seq<char>>)
    requires
        keys.len() > 0,
        keys[0] == key,
    ensures
        value_at(j, keys) == match field(j, key) {
            Some(v) => value_at(v, keys.drop_first()),
            None => None,
        },
{
}

proof fn lemma_texts_differ(a: Seq<Seq<char>>, b: Seq<Seq<char>>)
    requires
        texts_json(a) == texts_json(b),
    ensures
        a == b,
{
    let (x, y) = (texts_json(a)->Array_0, texts_json(b)->Array_0);
    assert(x.len() == a.len() && y.len() == b.len());
    assert forall|i: int| 0 <= i < a.len() implies a[i] == b[i] by {
        assert(x[i] == JsonView::Text(a[i]) && y[i] == JsonView::Text(b[i]));
    }
    assert(a =~= b);
}

/// Whether `text` is read at a key: it stands there, or it is `other` and nothing does.
pub open spec fn reads_text(j: JsonView, key: Seq<char>, text: Seq<char>, other: Seq<char>) -> bool {
    match field(j, key) {
        Some(v) => v == JsonView::Text(text),
        None => text == other,
    }
}

/// Whether `texts` are read at a key: they stand there, or there are none and nothing does.
pub open spec fn reads_texts(j: JsonView, key: Seq<char>, texts: Seq<Seq<char>>) -> bool {
    match field(j, key) {
        Some(v) => v == texts_json(texts),
        None => texts.len() == 0,
    }
}

/// Whether a shell is read from an object. Keys that say nothing of a shell do not count.
pub open spec fn reads_profile(j: JsonView, p: ProfileView) -> bool {
    &&& j is Object
    &&& reads_texts(j, "candidates"@, p.candidates)
    &&& reads_texts(j, "commandArgs"@, p.command_args)
    &&& reads_texts(j, "interactiveArgs"@, p.interactive_args)
}

/// Whether shells are read from an object that has each under its name.
pub open spec fn reads_profiles(j: JsonView, profiles: Map<Seq<char>, ProfileView>) -> bool {
    &&& j is Object
    &&& profiles.dom() == fields_of(j).dom()
    &&& forall|name: Seq<char>| #[trigger]
        profiles.dom().contains(name) ==> reads_profile(fields_of(j)[name], profiles[name])
}

/// Whether the settings of shells are read from an object.
pub open spec fn reads_shells(j: JsonView, s: ShellSettingsView) -> bool {
    &&& j is Object
    &&& reads_text(j, "default"@, s.default, "auto"@)
    &&& reads_text(j, "interactive"@, s.interactive, "auto"@)
    &&& match field(j, "profiles"@) {
        Some(v) => reads_profiles(v, s.profiles),
        None => s.profiles == Map::<Seq<char>, ProfileView>::empty(),
    }
}

/// Whether settings are read from a value: each stands there under its key, or has its
/// default and nothing stands there. Other keys do not count.
pub open spec fn reads_as(j: JsonView, s: ReSettingsView) -> bool {
    &&& j is Object
    &&& match field(j, "version"@) {
        Some(v) => v == JsonView::Number(NumberView::Unsigned(s.version as u64)),
        None => s.version == default_settings().version,
    }
    &&& match field(j, "shells"@) {
        Some(v) => reads_shells(v, s.shells),
        None => s.shells == default_shells(),
    }
}

/// Settings are read from what a settings file holds of them.
pub proof fn lemma_written_is_read(s: ReSettingsView)
    ensures
        reads_as(settings_json(s), s),
{
    lemma_keys_differ();
    let j = profiles_json(s.shells.profiles);
    assert(s.shells.profiles.dom() =~= fields_of(j).dom());
    assert forall|name: Seq<char>| #[trigger]
        s.shells.profiles.dom().contains(name) implies reads_profile(
        fields_of(j)[name],
        s.shells.profiles[name],
    ) by {
        assert(fields_of(j)[name] == profile_json(s.shells.profiles[name]));
    }
}

proof fn lemma_read_at(j: JsonView, s: ReSettingsView, name: Seq<char>, list: Seq<char>)
    requires
        reads_as(j, s),
    ensures
        ({
            let shells = field(j, "shells"@)->Some_0;
            let profiles = field(shells, "profiles"@)->Some_0;
            &&& value_at(j, version_keys()) == field(j, "version"@)
            &&& value_at(j, shell_keys("default"@)) matches Some(v) ==> v == JsonView::Text(
                s.shells.default,
            )
            &&& value_at(j, shell_keys("interactive"@)) matches Some(v) ==> v == JsonView::Text(
                s.shells.interactive,
            )
            &&& value_at(j, profile_keys(name, list)) matches Some(v)
                ==> s.shells.profiles.dom().contains(name) && reads_profile(
                fields_of(profiles)[name],
                s.shells.profiles[name],
            ) && field(fields_of(profiles)[name], list) == Some(v)
        }),
{
    let shells = field(j, "shells"@)->Some_0;
    let profiles = field(shells, "profiles"@)->Some_0;
    reveal_with_fuel(value_at, 5);
    assert(version_keys().drop_first() =~= seq![]);
    assert(shell_keys("default"@).drop_first() =~= seq!["default"@]);
    assert(shell_keys("interactive"@).drop_first() =~= seq!["interactive"@]);
    assert(seq!["default"@].drop_first() =~= Seq::<Seq<char>>::empty());
    assert(seq!["interactive"@].drop_first() =~= Seq::<Seq<char>>::empty());
    let keys = profile_keys(name, list);
    let (two, one) = (seq![name, list], seq![list]);
    assert(keys.drop_first() =~= seq!["profiles"@, name, list]);
    assert(seq!["profiles"@, name, list].drop_first() =~= two);
    assert(two.drop_first() =~= one);
    assert(one.drop_first() =~= Seq::<Seq<char>>::empty());
    lemma_value_below(j, "shells"@, keys);
    lemma_value_below(shells, "profiles"@, seq!["profiles"@, name, list]);
    lemma_value_below(profiles, name, two);
    lemma_value_below(fields_of(profiles)[name], list, one);
}

/// Settings that are read from the layers have every value from the topmost layer that
/// sets it: the version, the names of the shells that are used where a call names none,
/// and of each shell its lists. With the built-in shells beside their own, they have each
/// of these.
pub proof fn lemma_layers_become_settings(
    base: Option<JsonView>,
    overlay: Option<JsonView>,
    s: ReSettingsView,
    name: Seq<char>,
    texts: Seq<Seq<char>>,
    v: JsonView,
)
    requires
        reads_as(all_layers(base, overlay), s),
    ensures
        ({
            let p = s.shells.profiles[name];
            let known = s.shells.profiles.dom().contains(name);
            let list = texts_json(texts);
            &&& is_set_to(base, overlay, version_keys(), v) ==> v == JsonView::Number(
                NumberView::Unsigned(s.version as u64),
            )
            &&& is_set_to(base, overlay, shell_keys("default"@), v) ==> v == JsonView::Text(
                s.shells.default,
            )
            &&& is_set_to(base, overlay, shell_keys("interactive"@), v) ==> v == JsonView::Text(
                s.shells.interactive,
            )
            &&& is_set_to(base, overlay, profile_keys(name, "candidates"@), list) ==> known
                && p.candidates == texts
            &&& is_set_to(base, overlay, profile_keys(name, "commandArgs"@), list) ==> known
                && p.command_args == texts
            &&& is_set_to(base, overlay, profile_keys(name, "interactiveArgs"@), list) ==> known
                && p.interactive_args == texts
            &&& built_in().dom().subset_of(with_defaults(s).shells.profiles.dom())
        }),
{
    let j = all_layers(base, overlay);
    let p = s.shells.profiles[name];
    let list = texts_json(texts);
    lemma_read_at(j, s, name, "candidates"@);
    lemma_read_at(j, s, name, "commandArgs"@);
    lemma_read_at(j, s, name, "interactiveArgs"@);
    if is_set_to(base, overlay, version_keys(), v) {
        lemma_layer_that_counts(base, overlay, version_keys(), v);
    }
    if is_set_to(base, overlay, shell_keys("default"@), v) {
        lemma_layer_that_counts(base, overlay, shell_keys("default"@), v);
    }
    if is_set_to(base, overlay, shell_keys("interactive"@), v) {
        lemma_layer_that_counts(base, overlay, shell_keys("interactive"@), v);
    }
    if is_set_to(base, overlay, profile_keys(name, "candidates"@), list) {
        lemma_layer_that_counts(base, overlay, profile_keys(name, "candidates"@), list);
        lemma_texts_differ(p.candidates, texts);
    }
    if is_set_to(base, overlay, profile_keys(name, "commandArgs"@), list) {
        lemma_layer_that_counts(base, overlay, profile_keys(name, "commandArgs"@), list);
        lemma_texts_differ(p.command_args, texts);
    }
    if is_set_to(base, overlay, profile_keys(name, "interactiveArgs"@), list) {
        lemma_layer_that_counts(base, overlay, profile_keys(name, "interactiveArgs"@), list);
        lemma_texts_differ(p.interactive_args, texts);
    }
}

proof fn lemma_keys_differ()
    ensures
        "version"@ != "shells"@,
        "default"@ != "interactive"@,
        "default"@ != "profiles"@,
        "interactive"@ != "profiles"@,
        "candidates"@ != "commandArgs"@,
        "candidates"@ != "interactiveArgs"@,
        "commandArgs"@ != "interactiveArgs"@,
{
    reveal_strlit("version");
    reveal_strlit("shells");
    reveal_strlit("default");
    reveal_strlit("interactive");
    reveal_strlit("profiles");
    reveal_strlit("candidates");
    reveal_strlit("commandArgs");
    reveal_strlit("interactiveArgs");
    assert("version"@.len() == 7 && "shells"@.len() == 6);
    assert("default"@.len() == 7 && "interactive"@.len() == 11 && "profiles"@.len() == 8);
    assert("candidates"@.len() == 10 && "commandArgs"@.len() == 11 && "interactiveArgs"@.len()
        == 15);
}

proof fn lemma_profile_covers(p: ProfileView, below: JsonView)
    requires
        below is Null || exists|q: ProfileView| below == #[trigger] profile_json(q),
    ensures
        covers(profile_json(p), below),
{
    if !(below is Null) {
        let q = choose|q: ProfileView| below == #[trigger] profile_json(q);
        let over = fields_of(profile_json(p));
        let under = fields_of(profile_json(q));
        lemma_keys_differ();
        assert forall|k: Seq<char>| #[trigger] over.dom().contains(k) implies covers(
            over[k],
            entry_or_null(under, k),
        ) by {
            assert(over[k] is Array);
        }
    }
}

proof fn lemma_settings_cover(s: ReSettingsView, below: ReSettingsView)
    requires
        below.shells.profiles.dom().subset_of(s.shells.profiles.dom()),
    ensures
        covers(settings_json(s), settings_json(below)),
{
    lemma_keys_differ();
    let over = fields_of(profiles_json(s.shells.profiles));
    let under = fields_of(profiles_json(below.shells.profiles));
    assert forall|k: Seq<char>| #[trigger] over.dom().contains(k) implies covers(
        over[k],
        entry_or_null(under, k),
    ) by {
        assert(over[k] == profile_json(s.shells.profiles[k]));
        if under.dom().contains(k) {
            assert(under[k] == profile_json(below.shells.profiles[k]));
        }
        lemma_profile_covers(s.shells.profiles[k], entry_or_null(under, k));
    }
    assert forall|k: Seq<char>| #[trigger] under.dom().contains(k) implies over.dom().contains(
        k,
    ) by {
        assert(below.shells.profiles.dom().contains(k));
    }
    assert(covers(profiles_json(s.shells.profiles), profiles_json(below.shells.profiles)));
    let shells = fields_of(settings_json(s))["shells"@];
    let shells_below = fields_of(settings_json(below))["shells"@];
    assert forall|k: Seq<char>| #[trigger] fields_of(shells).dom().contains(k) implies covers(
        fields_of(shells)[k],
        entry_or_null(fields_of(shells_below), k),
    ) by {
        if k != "profiles"@ {
            assert(fields_of(shells)[k] is Text);
        }
    }
    assert(covers(shells, shells_below));
    assert forall|k: Seq<char>|
        #[trigger] fields_of(settings_json(s)).dom().contains(k) implies covers(
        fields_of(settings_json(s))[k],
        entry_or_null(fields_of(settings_json(below)), k),
    ) by {
        if k != "shells"@ {
            assert(fields_of(settings_json(s))[k] is Number);
        }
    }
}

/// Settings that were written to a file are what is read from it again.
pub proof fn lemma_written_settings_read_back(s: ReSettingsView)
    ensures
        ({
            let written = settings_json(with_defaults(s));
            layered(layered(settings_json(default_settings()), None), Some(written)) == written
        }),
{
    let full = with_defaults(s);
    lemma_empty_layer(settings_json(default_settings()));
    assert(default_settings().shells.profiles.dom().subset_of(full.shells.profiles.dom()));
    lemma_settings_cover(full, default_settings());
    lemma_merge_covering(settings_json(default_settings()), settings_json(full));
}

/// Arguments on one line for people to read.
pub open spec fn shown_args(args: Seq<Seq<char>>) -> Seq<char> {
    if args.len() == 0 {
        "<none>"@
    } else {
        join(
            Seq::new(
                args.len(),
                |i: int|
                    if args[i].len() == 0 {
                        "<empty>"@
                    } else {
                        args[i]
                    },
            ),
            " "@,
        )
    }
}

pub fn display_args(args: &[String]) -> (r: String)
    ensures
        r@ == shown_args(views(args@)),
{
    if args.len() == 0 {
        return owned("<none>");
    }
    let ghost all = views(args@);
    let ghost shown = |i: int|
        if all[i].len() == 0 {
            "<empty>"@
        } else {
            all[i]
        };
    let mut parts: Vec<String> = Vec::new();
    let mut i: usize = 0;
    while i < args.len()
        invariant
            i <= args@.len(),
            all == views(args@),
            shown == (|k: int|
                if all[k].len() == 0 {
                    "<empty>"@
                } else {
                    all[k]
                }),
            views(parts@) == Seq::new(i as nat, shown),
        decreases args@.len() - i,
    {
        let ghost before = parts@;
        let one = chars_of(args[i].as_str());
        if one.len() == 0 {
            parts.push(owned("<empty>"));
        } else {
            parts.push(args[i].clone());
        }
        proof {
            assert(all[i as int] == args@[i as int]@);
            assert(views(parts@) == views(before).push(shown(i as int)));
            assert(views(parts@) =~= Seq::new((i + 1) as nat, shown));
        }
        i = i + 1;
    }
    joined(parts.as_slice(), " ")
}

pub open spec fn profile_line(name: Seq<char>, p: ProfileView) -> Seq<char> {
    "\n- "@ + name + ": candidates="@ + shown_args(p.candidates) + " commandArgs="@ + shown_args(
        p.command_args,
    ) + " interactiveArgs="@ + shown_args(p.interactive_args)
}

pub open spec fn profile_lines(pairs: Seq<(Seq<char>, ProfileView)>) -> Seq<char>
    decreases pairs.len(),
{
    if pairs.len() == 0 {
        seq![]
    } else {
        profile_lines(pairs.drop_last()) + profile_line(pairs.last().0, pairs.last().1)
    }
}

/// The shells as people read them: a line for each setting, and below them a
/// line for each shell in the order of the names.
pub open spec fn shells_text(s: ShellSettingsView, path: Seq<char>) -> Seq<char> {
    "default:"@ + s.default + "\ninteractive:"@ + s.interactive + "\nsettingsPath:"@ + path
        + "\nprofiles:"@ + (if in_name_order(s.profiles).len() == 0 {
        "\n- none"@
    } else {
        profile_lines(in_name_order(s.profiles))
    })
}

fn append_profile(out: &mut String, name: &str, p: &ShellProfile)
    ensures
        final(out)@ == old(out)@ + profile_line(name@, p@),
{
    let ghost before = out@;
    let candidates = display_args(p.candidates.as_slice());
    let command_args = display_args(p.command_args.as_slice());
    let interactive_args = display_args(p.interactive_args.as_slice());
    let mut line = owned("\n- ");
    line.append(name);
    line.append(": candidates=");
    line.append(candidates.as_str());
    line.append(" commandArgs=");
    line.append(command_args.as_str());
    line.append(" interactiveArgs=");
    line.append(interactive_args.as_str());
    out.append(line.as_str());
}

pub fn format_shell_settings(s: &ShellSettings, path: &str) -> (r: String)
    ensures
        r@ == shells_text(s@, path@),
{
    let mut out = owned("default:");
    out.append(s.default.as_str());
    out.append("\ninteractive:");
    out.append(s.interactive.as_str());
    out.append("\nsettingsPath:");
    out.append(path);
    out.append("\nprofiles:");
    let n: usize = s.profiles.len();
    if n == 0 {
        out.append("\n- none");
        return out;
    }
    let ghost head = out@;
    let ghost pairs = s.profiles.pairs();
    let mut i: usize = 0;
    proof {
        assert(pairs.take(0) =~= seq![]);
        assert(head + profile_lines(pairs.take(0)) =~= head);
    }
    while i < n
        invariant
            i <= n,
            n == pairs.len(),
            pairs == s.profiles.pairs(),
            out@ == head + profile_lines(pairs.take(i as int)),
        decreases n - i,
    {
        append_profile(&mut out, s.profiles.name_at(i), s.profiles.value_at(i));
        proof {
            let next = pairs.take(i + 1);
            assert(next.drop_last() =~= pairs.take(i as int));
            let line = profile_line(pairs[i as int].0, pairs[i as int].1);
            assert(head + profile_lines(pairs.take(i as int)) + line =~= head + (profile_lines(
                pairs.take(i as int),
            ) + line));
        }
        i = i + 1;
    }
    proof {
        assert(pairs.take(n as int) =~= pairs);
    }
    out
}

} // verus!
