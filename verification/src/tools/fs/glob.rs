//! Finding files by a glob pattern.

use crate::context::{resolved_in, PlaceView, ToolContext};
use crate::error::Error;
use crate::globs::{
    build_globset, finds, first_pattern_fault, found_below, lone_complaint, pattern_fault,
    patterns_refused, set_patterns,
};
use crate::json::{field, put, text_at, Json, JsonView, NumberView};
use crate::order::{
    lemma_newest_come_first, lemma_newest_places, newest_first, newest_places, order_by_time,
};
use crate::protocol::{
    lemma_output_shows, opt_text, output_of, tool_output, ToolResult, ToolResultView,
};
use crate::text::laws::lemma_split_undoes_join;
use crate::text::split::{join, joined, split};
use crate::text::{owned, views};
use vstd::prelude::*;

verus! {

/// How many files a search shows.
pub const GLOB_LIMIT: usize = 100;

/// A request to find files.
#[derive(Debug)]
pub struct GlobOptions {
    pub pattern: String,
    pub path: Option<String>,
}

/// A search under way: the files found so far, with their ages, and whether
/// there were more than it shows.
pub struct GlobSearch {
    windows: bool,
    search: String,
    set: globset::GlobSet,
    files: Vec<(String, u128)>,
    truncated: bool,
}

#[verifier::ext_equal]
pub struct GlobSearchView {
    pub windows: bool,
    pub search: Seq<char>,
    pub patterns: Seq<Seq<char>>,
    pub paths: Seq<Seq<char>>,
    pub times: Seq<u128>,
    pub truncated: bool,
}

impl View for GlobSearch {
    type V = GlobSearchView;

    closed spec fn view(&self) -> GlobSearchView {
        GlobSearchView {
            windows: self.windows,
            search: self.search@,
            patterns: set_patterns(self.set),
            paths: file_paths(self.files@),
            times: file_times(self.files@),
            truncated: self.truncated,
        }
    }
}

pub open spec fn file_paths(files: Seq<(String, u128)>) -> Seq<Seq<char>> {
    Seq::new(files.len(), |i: int| files[i].0@)
}

pub open spec fn file_times(files: Seq<(String, u128)>) -> Seq<u128> {
    Seq::new(files.len(), |i: int| files[i].1)
}

/// Where a search starts.
pub open spec fn search_root(place: PlaceView, path: Option<Seq<char>>) -> Seq<char> {
    match path {
        Some(p) => resolved_in(place, p),
        None => place.directory,
    }
}

/// Why a search cannot start.
pub open spec fn search_fault(pattern: Seq<char>) -> Option<Seq<char>> {
    if pattern.len() == 0 {
        Some("pattern is required"@)
    } else if pattern_fault(pattern) is Some {
        pattern_fault(pattern)
    } else if patterns_refused(seq![pattern]) {
        Some(lone_complaint(pattern))
    } else {
        None
    }
}

/// A search that takes one more file that its pattern finds: the file is kept
/// while there is room, and after that it is only known that there were more.
pub open spec fn offered(s: GlobSearchView, path: Seq<char>, time: u128) -> GlobSearchView {
    if s.paths.len() >= GLOB_LIMIT {
        GlobSearchView { truncated: true, ..s }
    } else {
        GlobSearchView { paths: s.paths.push(path), times: s.times.push(time), ..s }
    }
}

/// What a search found, a line for each file, newest first.
pub open spec fn search_text(s: GlobSearchView) -> Seq<char> {
    let shown = newest_first(s.paths, s.times);
    let lines = if s.paths.len() == 0 {
        seq!["No files found"@]
    } else if s.truncated {
        shown.push(""@).push(
            "(Results are truncated: showing first 100 results. Consider using a more specific path or pattern.)"@,
        )
    } else {
        shown
    };
    join(lines, "\n"@)
}

/// How much a search found.
pub open spec fn search_metadata(s: GlobSearchView) -> JsonView {
    JsonView::Object(
        Map::empty().insert(
            "count"@,
            JsonView::Number(NumberView::Unsigned(s.paths.len() as u64)),
        ).insert("truncated"@, JsonView::Bool(s.truncated)),
    )
}

/// What a search returns.
pub open spec fn search_result(s: GlobSearchView) -> ToolResultView {
    ToolResultView {
        metadata: search_metadata(s),
        output: output_of(""@, search_text(s), ""@),
    }
}

impl GlobSearch {
    /// Starts a search.
    pub fn start(options: &GlobOptions, ctx: &ToolContext) -> (r: Result<GlobSearch, Error>)
        ensures
            match r {
                Ok(s) => search_fault(options.pattern@) is None && s@ == (GlobSearchView {
                    windows: ctx.windows,
                    search: search_root(ctx@, opt_text(options.path)),
                    patterns: seq![options.pattern@],
                    paths: seq![],
                    times: seq![],
                    truncated: false,
                }),
                Err(e) => search_fault(options.pattern@) == Some(e@),
            },
    {
        if options.pattern.as_str().is_empty() {
            return Err(Error::of("pattern is required"));
        }
        let search = match &options.path {
            Some(p) => ctx.resolve(p.as_str()),
            None => ctx.directory.clone(),
        };
        let mut globs: Vec<String> = Vec::new();
        globs.push(options.pattern.clone());
        proof {
            assert(views(globs@) =~= seq![options.pattern@]);
            reveal_with_fuel(first_pattern_fault, 2);
        }
        match build_globset(globs.as_slice()) {
            Ok(set) => {
                let files: Vec<(String, u128)> = Vec::new();
                proof {
                    assert(file_paths(files@) =~= seq![]);
                    assert(file_times(files@) =~= seq![]);
                }
                Ok(GlobSearch { windows: ctx.windows, search, set, files, truncated: false })
            },
            Err(e) => Err(e),
        }
    }

    /// Where to look for files.
    pub fn root(&self) -> (r: &str)
        ensures
            r@ == self@.search,
    {
        self.search.as_str()
    }

    /// Whether the pattern finds the file at `path`.
    pub fn matches(&self, path: &str) -> (r: bool)
        ensures
            r == found_below(self@.windows, self@.patterns, self@.search, path@),
    {
        finds(self.windows, &self.set, self.search.as_str(), path)
    }

    /// Takes a file that the pattern finds, and says whether to look for more.
    pub fn offer(&mut self, path: &str, time: u128) -> (r: bool)
        ensures
            final(self)@ == offered(old(self)@, path@, time),
            r == (old(self)@.paths.len() < GLOB_LIMIT),
    {
        proof {
            assert(file_paths(self.files@).len() == self.files@.len());
        }
        if self.files.len() >= GLOB_LIMIT {
            self.truncated = true;
            return false;
        }
        let ghost before = self.files@;
        self.files.push((owned(path), time));
        proof {
            assert(file_paths(self.files@) =~= file_paths(before).push(path@));
            assert(file_times(self.files@) =~= file_times(before).push(time));
        }
        true
    }

    /// Tells what was found, newest first.
    pub fn finish(self) -> (r: ToolResult)
        ensures
            r@ == search_result(self@),
    {
        let (metadata, text) = self.told();
        ToolResult { metadata, output: tool_output(text) }
    }

    /// How much was found, and what.
    pub fn told(&self) -> (r: (Json, String))
        ensures
            r.0@ == search_metadata(self@),
            r.1@ == search_text(self@),
    {
        let mut times: Vec<u128> = Vec::new();
        let mut n: usize = 0;
        while n < self.files.len()
            invariant
                n <= self.files@.len(),
                times@.len() == n,
                forall|j: int| 0 <= j < n ==> (#[trigger] times@[j]) == self.files@[j].1,
            decreases self.files@.len() - n,
        {
            times.push(self.files[n].1);
            n = n + 1;
        }
        proof {
            assert(times@ =~= file_times(self.files@));
        }
        let order = order_by_time(times.as_slice());
        let mut lines: Vec<String> = Vec::new();
        if self.files.len() == 0 {
            lines.push(owned("No files found"));
            proof {
                assert(views(lines@) =~= seq!["No files found"@]);
            }
        } else {
            let mut i: usize = 0;
            while i < order.len()
                invariant
                    i <= order@.len(),
                    order@.len() == self.files@.len(),
                    forall|j: int| 0 <= j < order@.len() ==> (#[trigger] order@[j]) < self.files@.len(),
                    lines@.len() == i,
                    forall|j: int|
                        0 <= j < i ==> (#[trigger] lines@[j])@ == self.files@[order@[j] as int].0@,
                decreases order@.len() - i,
            {
                lines.push(self.files[order[i]].0.clone());
                i = i + 1;
            }
            proof {
                assert(views(lines@) =~= newest_first(
                    file_paths(self.files@),
                    file_times(self.files@),
                ));
            }
            if self.truncated {
                let ghost shown = lines@;
                lines.push(owned(""));
                let ghost one = lines@;
                lines.push(
                    owned(
                        "(Results are truncated: showing first 100 results. Consider using a more specific path or pattern.)",
                    ),
                );
                proof {
                    assert(views(one) =~= views(shown).push(""@));
                    assert(views(lines@) =~= views(one).push(
                        "(Results are truncated: showing first 100 results. Consider using a more specific path or pattern.)"@,
                    ));
                }
            }
        }
        let mut e: Vec<(String, Json)> = Vec::new();
        put(&mut e, "count", Json::count(self.files.len() as u64));
        put(&mut e, "truncated", Json::Bool(self.truncated));
        (Json::Object(e), joined(lines.as_slice(), "\n"))
    }
}

/// A search that takes several files, one after the other.
pub open spec fn offered_all(s: GlobSearchView, files: Seq<(Seq<char>, u128)>) -> GlobSearchView
    decreases files.len(),
{
    if files.len() == 0 {
        s
    } else {
        offered(offered_all(s, files.drop_last()), files.last().0, files.last().1)
    }
}

/// A search keeps the first files that it finds, as many as the limit allows, and
/// says that there were more just where there were.
pub proof fn lemma_first_files_are_kept(s: GlobSearchView, files: Seq<(Seq<char>, u128)>)
    requires
        s.paths.len() == 0,
        s.times.len() == 0,
        !s.truncated,
    ensures
        ({
            let end = offered_all(s, files);
            let kept: int = if files.len() < GLOB_LIMIT {
                files.len() as int
            } else {
                GLOB_LIMIT as int
            };
            &&& end.paths == Seq::new(kept as nat, |i: int| files[i].0)
            &&& end.times == Seq::new(kept as nat, |i: int| files[i].1)
            &&& end.truncated == (files.len() > GLOB_LIMIT)
        }),
    decreases files.len(),
{
    if files.len() > 0 {
        lemma_first_files_are_kept(s, files.drop_last());
    }
    let end = offered_all(s, files);
    let kept: int = if files.len() < GLOB_LIMIT {
        files.len() as int
    } else {
        GLOB_LIMIT as int
    };
    assert(end.paths =~= Seq::new(kept as nat, |i: int| files[i].0));
    assert(end.times =~= Seq::new(kept as nat, |i: int| files[i].1));
}

proof fn lemma_count_fields_differ()
    ensures
        "count"@.len() == 5,
        "truncated"@.len() == 9,
{
    reveal_strlit("count");
    reveal_strlit("truncated");
}

/// A search shows each file that it kept on a line of its own, newest first, and after
/// them that there were more where there were; it counts those that it shows.
pub proof fn lemma_found_files_are_shown(s: GlobSearchView, i: int)
    requires
        s.paths.len() == s.times.len(),
        0 <= i < s.paths.len(),
        s.paths.len() <= 100,
        forall|k: int| 0 <= k < s.paths.len() ==> !(#[trigger] s.paths[k]).contains('\n'),
    ensures
        ({
            let r = search_result(s);
            &&& text_at(r.output, "text"@) matches Some(text)
            &&& split(text, '\n').len() == s.paths.len() + (if s.truncated {
                2int
            } else {
                0
            })
            &&& split(text, '\n').take(s.paths.len() as int) == newest_first(s.paths, s.times)
            &&& split(text, '\n').contains(s.paths[i])
            &&& field(r.metadata, "count"@) == Some(
                JsonView::Number(NumberView::Unsigned(s.paths.len() as u64)),
            )
            &&& field(r.metadata, "truncated"@) == Some(JsonView::Bool(s.truncated))
        }),
{
    let note =
        "(Results are truncated: showing first 100 results. Consider using a more specific path or pattern.)"@;
    reveal_strlit("");
    reveal_strlit(
        "(Results are truncated: showing first 100 results. Consider using a more specific path or pattern.)",
    );
    lemma_count_fields_differ();
    lemma_newest_places(s.times);
    let shown = newest_first(s.paths, s.times);
    let rows = if s.truncated {
        shown.push(""@).push(note)
    } else {
        shown
    };
    assert forall|k: int| 0 <= k < rows.len() implies !(#[trigger] rows[k]).contains('\n') by {
        if k < shown.len() {
            assert(rows[k] == s.paths[newest_places(s.times)[k]]);
        }
    }
    lemma_split_undoes_join(rows);
    lemma_output_shows(""@, search_text(s), ""@);
    assert(rows.take(s.paths.len() as int) =~= shown);
    if s.paths.len() > 1 {
        let j: int = if i == 0 {
            1
        } else {
            0
        };
        lemma_newest_come_first(s.paths, s.times, i, j);
        let a = choose|a: int| 0 <= a < shown.len() && #[trigger] shown[a] == s.paths[i];
        assert(rows[a] == s.paths[i]);
    } else {
        assert(shown[0] == s.paths[newest_places(s.times)[0]]);
        assert(rows[0] == s.paths[i]);
    }
}

/// A search that found nothing says so.
pub proof fn lemma_nothing_found_is_told(s: GlobSearchView)
    requires
        s.paths.len() == 0,
    ensures
        text_at(search_result(s).output, "text"@) == Some("No files found"@),
        field(search_result(s).metadata, "count"@) == Some(
            JsonView::Number(NumberView::Unsigned(0)),
        ),
{
    lemma_count_fields_differ();
    reveal_with_fuel(join, 2);
    lemma_output_shows(""@, "No files found"@, ""@);
    assert(search_text(s) =~= "No files found"@);
}

/// A search starts where it is asked to, seen from the directory of the tools, or there;
/// without a pattern it does not start.
pub proof fn lemma_search_has_its_root(place: PlaceView, path: Seq<char>)
    ensures
        search_root(place, None) == place.directory,
        search_root(place, Some(path)) == crate::paths::join_path(
            place.windows,
            place.directory,
            path,
        ),
        search_fault(seq![]) is Some,
{
}

} // verus!
