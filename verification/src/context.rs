//! Where a tool call takes place.

use crate::paths::{join, join_path, title, title_of};
use crate::text::owned;
use crate::protocol::opt_text;
use vstd::prelude::*;

verus! {

/// The surroundings of one tool call: the directory it works in, and whether paths
/// are in the Windows style.
pub struct ToolContext {
    pub directory: String,
    pub windows: bool,
}

#[verifier::ext_equal]
pub struct PlaceView {
    pub directory: Seq<char>,
    pub windows: bool,
}

impl View for ToolContext {
    type V = PlaceView;

    open spec fn view(&self) -> PlaceView {
        PlaceView { directory: self.directory@, windows: self.windows }
    }
}

/// The path that a call means: as it is where it is absolute, else below the directory.
pub open spec fn resolved_in(place: PlaceView, path: Seq<char>) -> Seq<char> {
    join_path(place.windows, place.directory, path)
}

/// How results name the file at `path`.
pub open spec fn titled_in(place: PlaceView, path: Seq<char>) -> Seq<char> {
    title_of(place.windows, place.directory, path)
}

/// The directory that a call works in: the one it names, else the current one
/// of the process, else `.`.
pub open spec fn call_directory(
    directory: Option<Seq<char>>,
    current: Option<Seq<char>>,
) -> Seq<char> {
    match directory {
        Some(d) => d,
        None => match current {
            Some(c) => c,
            None => "."@,
        },
    }
}

impl ToolContext {
    /// A context in `directory`, or in `current` where the call names none.
    pub fn new(directory: Option<String>, current: Option<String>, windows: bool) -> (r:
        ToolContext)
        ensures
            r@ == (PlaceView {
                directory: call_directory(opt_text(directory), opt_text(current)),
                windows,
            }),
    {
        let directory = match directory {
            Some(d) => d,
            None => match current {
                Some(c) => c,
                None => owned("."),
            },
        };
        ToolContext { directory, windows }
    }

    /// The path that a call means.
    pub fn resolve(&self, path: &str) -> (r: String)
        ensures
            r@ == resolved_in(self@, path@),
    {
        join(self.windows, self.directory.as_str(), path)
    }

    /// How results name the file at `path`.
    pub fn title(&self, path: &str) -> (r: String)
        ensures
            r@ == titled_in(self@, path@),
    {
        title(self.windows, self.directory.as_str(), path)
    }
}

/// A call works in the directory that it names; where it names none, in the current one of
/// the process, and in `.` where there is none.
pub proof fn lemma_call_has_its_directory(directory: Seq<char>, current: Seq<char>)
    ensures
        call_directory(Some(directory), Some(current)) == directory,
        call_directory(Some(directory), None) == directory,
        call_directory(None, Some(current)) == current,
        call_directory(None, None) == "."@,
{
}

/// What a call means lies below its directory, and results name it from there.
pub proof fn lemma_call_means_what_is_below(place: PlaceView, p: Seq<char>)
    requires
        !place.windows,
        crate::paths::is_plain(p),
        !p.contains('\\'),
    ensures
        titled_in(place, resolved_in(place, p)) == p,
{
    crate::paths::lemma_title_of_resolved(place.directory, p);
    crate::text::more_laws::lemma_replace_char_keeps(p, '\\', "/"@);
}

} // verus!
