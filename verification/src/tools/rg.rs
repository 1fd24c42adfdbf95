//! Searching the contents of files.
//!
//! The walk over the files and the reading of their lines is up to the caller;
//! a search says which files and lines it wants, keeps the hits and knows when
//! to stop.

use crate::error::Error;
use crate::globs::{build_globset, finds, found_below, make_a_set, says_why_no_set, set_patterns};
use crate::json::{put, Json, JsonView, Number, NumberView};
use crate::paths::{join, join_path};
use crate::protocol::{opt_text, output_of, tool_output, ToolResult, ToolResultView};
use crate::text::number::{append_dec, dec};
use crate::text::split::join as join_texts;
use crate::text::split::joined;
use crate::text::{chars_of, owned, string_of, views};
use crate::tools::soft_timeout::{deadline_of, is_past, SoftTimeout};
use vstd::prelude::*;
use vstd::slice::slice_subrange;
use vstd::utf8::encode_utf8;

verus! {

/// The complaint about a text that is no regular expression.
pub uninterp spec fn regex_fault(pattern: Seq<char>, ignore_case: bool) -> Option<Seq<char>>;

/// `grep_regex::RegexMatcherBuilder::build`: whether a text is a regular
/// expression, and the complaint where it is none.
#[verifier::external_body]
fn find_regex_fault(pattern: &str, ignore_case: bool) -> (r: Option<String>)
    ensures
        opt_text(r) == regex_fault(pattern@, ignore_case),
{
    let built = grep_regex::RegexMatcherBuilder::new().case_insensitive(ignore_case).build(pattern);
    match built {
        Ok(_) => None,
        Err(err) => Some(err.to_string()),
    }
}

/// Where the first match of a regular expression starts in a line, in bytes. A
/// text that is no regular expression matches nowhere.
pub uninterp spec fn match_start(
    pattern: Seq<char>,
    ignore_case: bool,
    line: Seq<char>,
) -> Option<usize>;

/// `grep_matcher::Matcher::find` of a `grep_regex::RegexMatcher`: the byte at
/// which the first match starts, which lies within the line or at its end. It is
/// a function of the expression, the case rule and the line.
#[verifier::external_body]
fn find_match_start(pattern: &str, ignore_case: bool, line: &str) -> (r: Option<usize>)
    ensures
        r == match_start(pattern@, ignore_case, line@),
        r is Some ==> r->Some_0 <= encode_utf8(line@).len(),
        r is Some ==> r->Some_0 < usize::MAX,
{
    let built = grep_regex::RegexMatcherBuilder::new().case_insensitive(ignore_case).build(pattern);
    match built {
        Ok(matcher) => {
            let found = grep_matcher::Matcher::find(&matcher, line.as_bytes());
            found.ok().flatten().map(|hit| hit.start())
        },
        Err(_) => None,
    }
}

/// A request to search files.
#[derive(Debug)]
pub struct RgOptions {
    pub pattern: String,
    pub root: Option<String>,
    pub path: Option<String>,
    pub globs: Vec<String>,
    pub case_sensitive: bool,
    pub max_count: Option<usize>,
    pub timeout: Option<i64>,
}

#[verifier::ext_equal]
pub struct RgOptionsView {
    pub pattern: Seq<char>,
    pub root: Option<Seq<char>>,
    pub path: Option<Seq<char>>,
    pub globs: Seq<Seq<char>>,
    pub case_sensitive: bool,
    pub max_count: Option<usize>,
    pub timeout: Option<i64>,
}

impl View for RgOptions {
    type V = RgOptionsView;

    open spec fn view(&self) -> RgOptionsView {
        RgOptionsView {
            pattern: self.pattern@,
            root: opt_text(self.root),
            path: opt_text(self.path),
            globs: views(self.globs@),
            case_sensitive: self.case_sensitive,
            max_count: self.max_count,
            timeout: self.timeout,
        }
    }
}

impl RgOptions {
    /// A search for `pattern` everywhere, with no limit but the usual time.
    pub fn new(pattern: String) -> (r: RgOptions)
        ensures
            r@ == (RgOptionsView {
                pattern: pattern@,
                root: None,
                path: None,
                globs: seq![],
                case_sensitive: true,
                max_count: None,
                timeout: None,
            }),
    {
        let globs: Vec<String> = Vec::new();
        proof {
            assert(views(globs@) =~= seq![]);
        }
        RgOptions {
            pattern,
            root: None,
            path: None,
            globs,
            case_sensitive: true,
            max_count: None,
            timeout: None,
        }
    }

    pub fn root(self, root: String) -> (r: RgOptions)
        ensures
            r@ == (RgOptionsView { root: Some(root@), ..self@ }),
    {
        RgOptions { root: Some(root), ..self }
    }

    pub fn path(self, path: String) -> (r: RgOptions)
        ensures
            r@ == (RgOptionsView { path: Some(path@), ..self@ }),
    {
        RgOptions { path: Some(path), ..self }
    }

    pub fn glob(self, glob: String) -> (r: RgOptions)
        ensures
            r@ == (RgOptionsView { globs: self@.globs.push(glob@), ..self@ }),
    {
        let mut globs = self.globs;
        let ghost before = globs@;
        globs.push(glob);
        proof {
            assert(views(globs@) =~= views(before).push(glob@));
        }
        RgOptions {
            pattern: self.pattern,
            root: self.root,
            path: self.path,
            globs,
            case_sensitive: self.case_sensitive,
            max_count: self.max_count,
            timeout: self.timeout,
        }
    }

    pub fn ignore_case(self) -> (r: RgOptions)
        ensures
            r@ == (RgOptionsView { case_sensitive: false, ..self@ }),
    {
        RgOptions { case_sensitive: false, ..self }
    }

    pub fn max_count(self, max_count: usize) -> (r: RgOptions)
        ensures
            r@ == (RgOptionsView { max_count: Some(max_count), ..self@ }),
    {
        RgOptions { max_count: Some(max_count), ..self }
    }

    pub fn timeout(self, timeout: i64) -> (r: RgOptions)
        ensures
            r@ == (RgOptionsView { timeout: Some(timeout), ..self@ }),
    {
        RgOptions { timeout: Some(timeout), ..self }
    }
}

/// Searches below one directory unless a request names another.
#[derive(Debug)]
pub struct RgExecutor {
    root: String,
}

impl View for RgExecutor {
    type V = Seq<char>;

    closed spec fn view(&self) -> Seq<char> {
        self.root@
    }
}

impl RgExecutor {
    pub fn new(root: String) -> (r: RgExecutor)
        ensures
            r@ == root@,
    {
        RgExecutor { root }
    }

    pub fn root(&self) -> (r: &String)
        ensures
            r@ == self@,
    {
        &self.root
    }

    /// The request as it is searched for: with this directory where it names none.
    pub fn rooted(&self, options: RgOptions) -> (r: RgOptions)
        ensures
            r@ == (RgOptionsView {
                root: match options@.root {
                    Some(root) => Some(root),
                    None => Some(self@),
                },
                ..options@
            }),
    {
        if options.root.is_none() {
            RgOptions { root: Some(self.root.clone()), ..options }
        } else {
            options
        }
    }
}

/// One line that matched.
#[derive(Debug)]
pub struct RgMatch {
    pub path: String,
    pub line_number: u64,
    pub column: usize,
    pub line: String,
    pub mod_time: u128,
}

#[verifier::ext_equal]
pub struct RgMatchView {
    pub path: Seq<char>,
    pub line_number: u64,
    pub column: usize,
    pub line: Seq<char>,
    pub mod_time: u128,
}

impl View for RgMatch {
    type V = RgMatchView;

    open spec fn view(&self) -> RgMatchView {
        RgMatchView {
            path: self.path@,
            line_number: self.line_number,
            column: self.column,
            line: self.line@,
            mod_time: self.mod_time,
        }
    }
}

/// What a search returns.
#[derive(Debug)]
pub struct RgOutput {
    pub code: i32,
    pub stdout: String,
    pub stderr: String,
    pub matches: usize,
    pub files_walked: usize,
    pub timed_out: bool,
}

/// A search under way.
pub struct RgSearch {
    windows: bool,
    root: String,
    start: String,
    pattern: String,
    ignore_case: bool,
    set: Option<globset::GlobSet>,
    max_count: usize,
    matches: Vec<RgMatch>,
    files_walked: usize,
    deadline: SoftTimeout,
}

#[verifier::ext_equal]
pub struct RgSearchView {
    pub windows: bool,
    pub root: Seq<char>,
    pub start: Seq<char>,
    pub pattern: Seq<char>,
    pub ignore_case: bool,
    pub globs: Option<Seq<Seq<char>>>,
    pub max_count: usize,
    pub matches: Seq<RgMatchView>,
    pub files_walked: int,
    pub deadline: Option<int>,
    pub timed_out: bool,
}

/// What a caller does next with an entry of the walk.
#[derive(Clone, Copy, Debug, PartialEq, Eq, Structural)]
pub enum RgStep {
    Stop,
    Skip,
    Search,
}

/// Why a search cannot start, its globs aside, given what is wrong with its
/// expression.
pub open spec fn start_fault(o: RgOptionsView, now: u64, expression: Option<Seq<char>>) -> Option<
    Seq<char>,
> {
    if o.pattern.len() == 0 {
        Some("rg pattern must not be empty"@)
    } else if deadline_of(o.timeout, now) is Err {
        Some(deadline_of(o.timeout, now)->Err_0)
    } else {
        expression
    }
}

/// Whether a search can start.
pub open spec fn can_start(o: RgOptionsView, now: u64, expression: Option<Seq<char>>) -> bool {
    start_fault(o, now, expression) is None && (o.globs.len() == 0 || make_a_set(o.globs))
}

/// Whether `m` says why a search cannot start.
pub open spec fn says_why_not(
    o: RgOptionsView,
    now: u64,
    expression: Option<Seq<char>>,
    m: Seq<char>,
) -> bool {
    match start_fault(o, now, expression) {
        Some(fault) => m == fault,
        None => o.globs.len() > 0 && says_why_no_set(o.globs, m),
    }
}

/// The root of a search.
pub open spec fn root_of(o: RgOptionsView, current: Seq<char>) -> Seq<char> {
    match o.root {
        Some(root) => root,
        None => current,
    }
}

/// A search that has just started.
pub open spec fn started(o: RgOptionsView, current: Seq<char>, now: u64, windows: bool) -> RgSearchView {
    RgSearchView {
        windows,
        root: root_of(o, current),
        start: join_path(
            windows,
            root_of(o, current),
            match o.path {
                Some(p) => p,
                None => "."@,
            },
        ),
        pattern: o.pattern,
        ignore_case: !o.case_sensitive,
        globs: if o.globs.len() == 0 {
            None
        } else {
            Some(o.globs)
        },
        max_count: match o.max_count {
            Some(n) => n,
            None => usize::MAX,
        },
        matches: seq![],
        files_walked: 0,
        deadline: deadline_of(o.timeout, now)->Ok_0,
        timed_out: false,
    }
}

/// Whether a search looks into the file at `path`.
pub open spec fn looks_into(s: RgSearchView, path: Seq<char>) -> bool {
    match s.globs {
        Some(globs) => found_below(s.windows, globs, s.root, path),
        None => true,
    }
}

/// What becomes of an entry of the walk.
pub open spec fn entry_step(s: RgSearchView, path: Seq<char>, is_file: bool) -> RgStep {
    if s.matches.len() >= s.max_count {
        RgStep::Stop
    } else if !is_file || !looks_into(s, path) {
        RgStep::Skip
    } else {
        RgStep::Search
    }
}

/// A line without the line ends behind it.
pub open spec fn without_newlines(line: Seq<char>) -> Seq<char>
    decreases line.len(),
{
    if line.len() > 0 && line.last() == '\n' {
        without_newlines(line.drop_last())
    } else {
        line
    }
}

/// The hit that a line of a file is, given the byte at which the match starts.
pub open spec fn hit_of(
    path: Seq<char>,
    line_number: u64,
    line: Seq<char>,
    mod_time: u128,
    start: Option<usize>,
) -> RgMatchView {
    RgMatchView {
        path,
        line_number,
        column: match start {
            Some(k) => (k + 1) as usize,
            None => 1,
        },
        line: without_newlines(line),
        mod_time,
    }
}

fn strip_newlines(line: &[char]) -> (r: &[char])
    ensures
        r@ == without_newlines(line@),
{
    let mut n: usize = line.len();
    proof {
        assert(line@.take(line@.len() as int) =~= line@);
    }
    while n > 0 && line[n - 1] == '\n'
        invariant
            n <= line@.len(),
            without_newlines(line@) == without_newlines(line@.take(n as int)),
        decreases n,
    {
        proof {
            assert(line@.take(n as int).drop_last() =~= line@.take(n - 1));
        }
        n = n - 1;
    }
    slice_subrange(line, 0, n)
}

/// Makes the hit that a line of a file is.
pub fn make_hit(path: &str, line_number: u64, line: &str, mod_time: u128, start: Option<usize>) -> (r:
    RgMatch)
    requires
        start is Some ==> start->Some_0 < usize::MAX,
    ensures
        r@ == hit_of(path@, line_number, line@, mod_time, start),
{
    let column: usize = match start {
        Some(k) => k + 1,
        None => 1,
    };
    let all = chars_of(line);
    let text = string_of(strip_newlines(all.as_slice()));
    RgMatch { path: owned(path), line_number, column, line: text, mod_time }
}

impl RgSearch {
    pub closed spec fn view(&self) -> RgSearchView {
        RgSearchView {
            windows: self.windows,
            root: self.root@,
            start: self.start@,
            pattern: self.pattern@,
            ignore_case: self.ignore_case,
            globs: match self.set {
                Some(set) => Some(set_patterns(set)),
                None => None,
            },
            max_count: self.max_count,
            matches: views(self.matches@),
            files_walked: self.files_walked as int,
            deadline: self.deadline.deadline(),
            timed_out: self.deadline.ran_out(),
        }
    }

    /// Starts a search at the time `now`. Its root is `current` unless the
    /// request names one.
    pub fn begin(options: RgOptions, current: String, now: u64, windows: bool) -> (r: Result<
        RgSearch,
        Error,
    >)
        requires
            now <= i64::MAX,
        ensures
            ({
                let expression = regex_fault(options@.pattern, !options@.case_sensitive);
                match r {
                    Ok(s) => can_start(options@, now, expression) && s@ == started(
                        options@,
                        current@,
                        now,
                        windows,
                    ),
                    Err(e) => says_why_not(options@, now, expression, e@),
                }
            }),
            r is Ok <==> can_start(
                options@,
                now,
                regex_fault(options@.pattern, !options@.case_sensitive),
            ),
    {
        let fault = find_regex_fault(options.pattern.as_str(), !options.case_sensitive);
        RgSearch::begin_checked(options, current, now, windows, fault)
    }

    /// Starts a search, given what is wrong with its expression.
    pub fn begin_checked(
        options: RgOptions,
        current: String,
        now: u64,
        windows: bool,
        fault: Option<String>,
    ) -> (r: Result<RgSearch, Error>)
        requires
            now <= i64::MAX,
        ensures
            match r {
                Ok(s) => can_start(options@, now, opt_text(fault)) && s@ == started(
                    options@,
                    current@,
                    now,
                    windows,
                ),
                Err(e) => says_why_not(options@, now, opt_text(fault), e@),
            },
            r is Ok <==> can_start(options@, now, opt_text(fault)),
    {
        if options.pattern.as_str().is_empty() {
            return Err(Error::of("rg pattern must not be empty"));
        }
        let deadline = match SoftTimeout::from_millis(options.timeout, now) {
            Ok(d) => d,
            Err(e) => {
                return Err(e);
            },
        };
        let ignore_case: bool = !options.case_sensitive;
        match fault {
            Some(m) => {
                return Err(Error::new(m));
            },
            None => {},
        }
        proof {
            assert(views(options.globs@).len() == options.globs@.len());
        }
        let set = if options.globs.len() == 0 {
            None
        } else {
            match build_globset(options.globs.as_slice()) {
                Ok(set) => Some(set),
                Err(e) => {
                    return Err(e);
                },
            }
        };
        let root = match options.root {
            Some(root) => root,
            None => current,
        };
        let start = match options.path {
            Some(p) => join(windows, root.as_str(), p.as_str()),
            None => join(windows, root.as_str(), "."),
        };
        let max_count: usize = match options.max_count {
            Some(n) => n,
            None => usize::MAX,
        };
        let matches: Vec<RgMatch> = Vec::new();
        proof {
            assert(views(matches@) =~= seq![]);
        }
        Ok(
            RgSearch {
                windows,
                root,
                start,
                pattern: options.pattern,
                ignore_case,
                set,
                max_count,
                matches,
                files_walked: 0,
                deadline,
            },
        )
    }

    /// Where the walk starts.
    pub fn walk_start(&self) -> (r: &str)
        ensures
            r@ == self@.start,
    {
        self.start.as_str()
    }

    /// Whether the time is up; it is asked for each entry of the walk and before
    /// each file.
    pub fn out_of_time(&mut self, now: u64) -> (r: bool)
        ensures
            r == is_past(old(self)@.deadline, now),
            final(self)@ == (RgSearchView { timed_out: old(self)@.timed_out || r, ..old(self)@ }),
    {
        self.deadline.expired(now)
    }

    /// Takes an entry of the walk, and says what to do with it.
    pub fn visit(&mut self, path: &str, is_file: bool) -> (r: RgStep)
        requires
            old(self)@.files_walked < usize::MAX,
        ensures
            r == entry_step(old(self)@, path@, is_file),
            final(self)@ == (RgSearchView {
                files_walked: if r != RgStep::Stop && is_file {
                    old(self)@.files_walked + 1
                } else {
                    old(self)@.files_walked
                },
                ..old(self)@
            }),
    {
        proof {
            assert(views(self.matches@).len() == self.matches@.len());
        }
        if self.matches.len() >= self.max_count {
            return RgStep::Stop;
        }
        if !is_file {
            return RgStep::Skip;
        }
        self.files_walked = self.files_walked + 1;
        let wanted: bool = match &self.set {
            Some(set) => finds(self.windows, set, self.root.as_str(), path),
            None => true,
        };
        if wanted {
            RgStep::Search
        } else {
            RgStep::Skip
        }
    }

    /// Whether the search takes another hit: there is room, and time.
    pub fn wants_more(&mut self, now: u64) -> (r: bool)
        ensures
            ({
                let room = old(self)@.matches.len() < old(self)@.max_count;
                let late = is_past(old(self)@.deadline, now);
                &&& r == (room && !late)
                &&& final(self)@ == (RgSearchView {
                    timed_out: old(self)@.timed_out || (room && late),
                    ..old(self)@
                })
            }),
    {
        proof {
            assert(views(self.matches@).len() == self.matches@.len());
        }
        if self.matches.len() >= self.max_count {
            return false;
        }
        !self.deadline.expired(now)
    }

    /// Keeps a line that matched, of which there is room for one more.
    pub fn record(&mut self, path: &str, line_number: u64, line: &str, mod_time: u128)
        requires
            old(self)@.matches.len() < old(self)@.max_count,
        ensures
            final(self)@.matches.len() <= final(self)@.max_count,
            final(self)@ == (RgSearchView {
                matches: old(self)@.matches.push(
                    hit_of(
                        path@,
                        line_number,
                        line@,
                        mod_time,
                        match_start(old(self)@.pattern, old(self)@.ignore_case, line@),
                    ),
                ),
                ..old(self)@
            }),
    {
        let start = find_match_start(self.pattern.as_str(), self.ignore_case, line);
        let hit = make_hit(path, line_number, line, mod_time, start);
        let ghost before = self.matches@;
        let ghost seen = hit@;
        self.matches.push(hit);
        proof {
            assert(views(self.matches@) =~= views(before).push(seen));
        }
    }

    /// The hits, in the order in which they were found.
    pub fn into_matches(self) -> (r: Vec<RgMatch>)
        ensures
            views(r@) == self@.matches,
    {
        self.matches
    }

    /// What the search returns.
    pub fn finish(self) -> (r: RgOutput)
        ensures
            r.code == if self@.matches.len() == 0 {
                1i32
            } else {
                0i32
            },
            r.stdout@ == hits_text(self@.matches),
            r.stderr@ == ""@,
            r.matches == self@.matches.len(),
            r.files_walked == self@.files_walked,
            r.timed_out == self@.timed_out,
    {
        proof {
            assert(views(self.matches@).len() == self.matches@.len());
        }
        RgOutput {
            code: if self.matches.len() == 0 {
                1
            } else {
                0
            },
            stdout: format_hits(&self.matches),
            stderr: owned(""),
            matches: self.matches.len(),
            files_walked: self.files_walked,
            timed_out: self.deadline.timed_out(),
        }
    }
}

/// A hit as it is printed.
pub open spec fn hit_text(hit: RgMatchView) -> Seq<char> {
    hit.path + ":"@ + dec(hit.line_number as nat) + ":"@ + dec(hit.column as nat) + ":"@ + hit.line
}

pub open spec fn hit_lines(hits: Seq<RgMatchView>) -> Seq<Seq<char>> {
    Seq::new(hits.len(), |i: int| hit_text(hits[i]))
}

/// The hits as they are printed, each on a line of its own.
pub open spec fn hits_text(hits: Seq<RgMatchView>) -> Seq<char> {
    if hits.len() == 0 {
        ""@
    } else {
        join_texts(hit_lines(hits), "\n"@) + "\n"@
    }
}

fn format_hits(hits: &Vec<RgMatch>) -> (r: String)
    ensures
        r@ == hits_text(views(hits@)),
{
    let ghost all = views(hits@);
    if hits.len() == 0 {
        return owned("");
    }
    let mut lines: Vec<String> = Vec::new();
    let mut i: usize = 0;
    while i < hits.len()
        invariant
            i <= hits@.len(),
            lines@.len() == i,
            forall|j: int| 0 <= j < i ==> (#[trigger] lines@[j])@ == hit_text(hits@[j]@),
        decreases hits@.len() - i,
    {
        let hit = &hits[i];
        let mut line = hit.path.clone();
        line.append(":");
        append_dec(&mut line, hit.line_number);
        line.append(":");
        append_dec(&mut line, hit.column as u64);
        line.append(":");
        line.append(hit.line.as_str());
        lines.push(line);
        i = i + 1;
    }
    proof {
        assert(views(lines@) =~= hit_lines(all));
    }
    let mut out = joined(lines.as_slice(), "\n");
    out.append("\n");
    out
}

/// An exit code as a number.
pub open spec fn code_json(code: i32) -> JsonView {
    JsonView::Number(
        if code < 0 {
            NumberView::Negative(code as i64)
        } else {
            NumberView::Unsigned(code as u64)
        },
    )
}

/// What the tool returns of a search.
pub open spec fn rg_result(
    stdout: Seq<char>,
    matches: int,
    files_walked: int,
    code: i32,
    timed_out: bool,
) -> ToolResultView {
    ToolResultView {
        metadata: JsonView::Object(
            Map::empty().insert(
                "matches"@,
                JsonView::Number(NumberView::Unsigned(matches as u64)),
            ).insert(
                "filesWalked"@,
                JsonView::Number(NumberView::Unsigned(files_walked as u64)),
            ).insert("code"@, code_json(code)).insert("timedOut"@, JsonView::Bool(timed_out)),
        ),
        output: output_of(""@, stdout, ""@),
    }
}

/// The result of the tool.
pub fn tool_result(output: RgOutput) -> (r: ToolResult)
    ensures
        r@ == rg_result(
            output.stdout@,
            output.matches as int,
            output.files_walked as int,
            output.code,
            output.timed_out,
        ),
{
    let mut e: Vec<(String, Json)> = Vec::new();
    put(&mut e, "matches", Json::count(output.matches as u64));
    put(&mut e, "filesWalked", Json::count(output.files_walked as u64));
    let code = if output.code < 0 {
        Number::Negative(output.code as i64)
    } else {
        Number::Unsigned(output.code as u64)
    };
    put(&mut e, "code", Json::Number(code));
    put(&mut e, "timedOut", Json::Bool(output.timed_out));
    ToolResult { metadata: Json::Object(e), output: tool_output(output.stdout) }
}

} // verus!
