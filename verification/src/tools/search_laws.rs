//! What a search tells: every hit on a line of its own, in the order in which the hits
//! were found, and all that is known of it.

use crate::globs::{found_below, pattern_matches};
use crate::json::{field, JsonView, NumberView};
use crate::paths::{below, is_plain, join_path, lemma_below_joined};
use crate::protocol::lemma_output_shows;
use crate::text::laws::{
    lemma_cut_at, lemma_dec_is_digits, lemma_dec_tells_apart, lemma_split_undoes_join,
};
use crate::text::number::dec;
use crate::text::split::{join as join_texts, split};
use crate::tools::rg::{
    entry_step, hit_lines, hit_of, hit_text, hits_text, rg_result, started, without_newlines,
    RgMatchView, RgOptionsView, RgSearchView, RgStep,
};
use crate::tools::soft_timeout::{deadline_of, is_past};
use vstd::prelude::*;

verus! {

/// Whether a hit can be printed on one line.
pub open spec fn is_one_line(hit: RgMatchView) -> bool {
    !hit.path.contains('\n') && !hit.line.contains('\n')
}

pub open spec fn are_one_line(hits: Seq<RgMatchView>) -> bool {
    forall|i: int| 0 <= i < hits.len() ==> is_one_line(#[trigger] hits[i])
}

proof fn lemma_hit_text_is_one_line(hit: RgMatchView)
    requires
        is_one_line(hit),
    ensures
        !hit_text(hit).contains('\n'),
{
    reveal_strlit(":");
    let (n, c) = (dec(hit.line_number as nat), dec(hit.column as nat));
    lemma_dec_is_digits(hit.line_number as nat);
    lemma_dec_is_digits(hit.column as nat);
    let s = hit_text(hit);
    let p = hit.path.len() as int;
    let q = p + 1 + n.len();
    let r = q + 1 + c.len();
    assert forall|i: int| 0 <= i < s.len() implies s[i] != '\n' by {
        if i < p {
            assert(s[i] == hit.path[i]);
            assert(hit.path.contains(hit.path[i]));
        } else if p < i < q {
            assert(s[i] == n[i - p - 1]);
        } else if q < i < r {
            assert(s[i] == c[i - q - 1]);
        } else if i > r {
            assert(s[i] == hit.line[i - r - 1]);
            assert(hit.line.contains(hit.line[i - r - 1]));
        }
    }
}

/// The output of a search has a line for each hit, in the order of the hits, with the
/// path, the number of the line, the column and the text of that hit, and nothing else.
pub proof fn lemma_hits_are_printed_in_order(hits: Seq<RgMatchView>)
    requires
        are_one_line(hits),
        hits.len() > 0,
    ensures
        ({
            let shown = split(hits_text(hits), '\n');
            &&& shown.len() == hits.len() + 1
            &&& shown.last().len() == 0
            &&& forall|i: int|
                0 <= i < hits.len() ==> #[trigger] shown[i] == hits[i].path + ":"@ + dec(
                    hits[i].line_number as nat,
                ) + ":"@ + dec(hits[i].column as nat) + ":"@ + hits[i].line
        }),
{
    reveal_strlit("\n");
    let rows = hit_lines(hits);
    let more = rows.push(seq![]);
    assert(more.drop_last() =~= rows);
    assert(join_texts(more, "\n"@) =~= hits_text(hits));
    assert forall|i: int| 0 <= i < more.len() implies !(#[trigger] more[i]).contains('\n') by {
        if i < hits.len() {
            assert(is_one_line(hits[i]));
            lemma_hit_text_is_one_line(hits[i]);
            assert(more[i] == hit_text(hits[i]));
        }
    }
    lemma_split_undoes_join(more);
    assert forall|i: int| 0 <= i < hits.len() implies #[trigger] more[i] == hits[i].path + ":"@
        + dec(hits[i].line_number as nat) + ":"@ + dec(hits[i].column as nat) + ":"@
        + hits[i].line by {
        assert(more[i] == hit_text(hits[i]));
    }
}

/// Hits that differ in anything that is told of them are printed differently, and so are
/// searches that found different hits at some place.
pub proof fn lemma_printed_hits_tell_apart(
    one: Seq<RgMatchView>,
    other: Seq<RgMatchView>,
    i: int,
)
    requires
        are_one_line(one),
        are_one_line(other),
        0 <= i < one.len(),
        i < other.len(),
        !one[i].path.contains(':'),
        !other[i].path.contains(':'),
        split(hits_text(one), '\n')[i] == split(hits_text(other), '\n')[i],
    ensures
        one[i].path == other[i].path,
        one[i].line_number == other[i].line_number,
        one[i].column == other[i].column,
        one[i].line == other[i].line,
{
    reveal_strlit(":");
    lemma_hits_are_printed_in_order(one);
    lemma_hits_are_printed_in_order(other);
    let (a, b) = (one[i], other[i]);
    let (an, bn) = (dec(a.line_number as nat), dec(b.line_number as nat));
    let (ac, bc) = (dec(a.column as nat), dec(b.column as nat));
    lemma_dec_is_digits(a.line_number as nat);
    lemma_dec_is_digits(b.line_number as nat);
    lemma_dec_is_digits(a.column as nat);
    lemma_dec_is_digits(b.column as nat);
    let (a3, b3) = (a.line, b.line);
    let (a2, b2) = (ac + seq![':'] + a3, bc + seq![':'] + b3);
    let (a1, b1) = (an + seq![':'] + a2, bn + seq![':'] + b2);
    let (ls, rs) = (split(hits_text(one), '\n')[i], split(hits_text(other), '\n')[i]);
    assert(ls =~= a.path + seq![':'] + a1);
    assert(rs =~= b.path + seq![':'] + b1);
    lemma_cut_at(a.path, ':', a1, b.path, b1);
    lemma_cut_at(an, ':', a2, bn, b2);
    lemma_cut_at(ac, ':', a3, bc, b3);
    lemma_dec_tells_apart(a.line_number as nat, b.line_number as nat);
    lemma_dec_tells_apart(a.column as nat, b.column as nat);
}

/// A search that found nothing prints nothing.
pub proof fn lemma_nothing_is_printed_of_nothing()
    ensures
        hits_text(seq![]).len() == 0,
{
    reveal_strlit("");
}

proof fn lemma_newlines_are_taken(body: Seq<char>, ends: Seq<char>)
    requires
        body.len() > 0 ==> body.last() != '\n',
        forall|i: int| 0 <= i < ends.len() ==> #[trigger] ends[i] == '\n',
    ensures
        without_newlines(body + ends) == body,
    decreases ends.len(),
{
    let s = body + ends;
    if ends.len() > 0 {
        assert(ends[ends.len() - 1] == '\n');
        assert(s.last() == '\n');
        assert(s.drop_last() =~= body + ends.drop_last());
        lemma_newlines_are_taken(body, ends.drop_last());
    } else {
        assert(s =~= body);
    }
}

/// A hit has the path, the number and the whole text of its line without the line end,
/// and its column is one more than the number of bytes before the match.
pub proof fn lemma_hit_is_its_line(
    path: Seq<char>,
    line_number: u64,
    body: Seq<char>,
    ends: Seq<char>,
    mod_time: u128,
    start: Option<usize>,
)
    requires
        body.len() > 0 ==> body.last() != '\n',
        forall|i: int| 0 <= i < ends.len() ==> #[trigger] ends[i] == '\n',
        start matches Some(k) ==> k < usize::MAX,
    ensures
        ({
            let hit = hit_of(path, line_number, body + ends, mod_time, start);
            &&& hit.path == path
            &&& hit.line_number == line_number
            &&& hit.line == body
            &&& hit.mod_time == mod_time
            &&& start matches Some(k) ==> hit.column - 1 == k
            &&& start is None ==> hit.column == 1
        }),
{
    lemma_newlines_are_taken(body, ends);
}

/// A search starts as it was asked for: with its expression and its rule for letters, at
/// the path below its root, for as many hits as were asked for, and with none.
pub proof fn lemma_search_starts_as_asked(
    o: RgOptionsView,
    current: Seq<char>,
    now: u64,
    windows: bool,
)
    ensures
        ({
            let s = started(o, current, now, windows);
            let root = if o.root is Some {
                o.root->Some_0
            } else {
                current
            };
            &&& s.windows == windows
            &&& s.pattern == o.pattern
            &&& s.ignore_case != o.case_sensitive
            &&& s.root == root
            &&& o.path matches Some(p) ==> s.start == join_path(windows, root, p)
            &&& o.path is None ==> s.start == join_path(windows, root, "."@)
            &&& o.max_count matches Some(n) ==> s.max_count == n
            &&& o.max_count is None ==> s.max_count == usize::MAX
            &&& s.globs is None <==> o.globs.len() == 0
            &&& s.globs matches Some(globs) ==> globs == o.globs
            &&& s.matches.len() == 0
            &&& s.files_walked == 0
            &&& !s.timed_out
        }),
{
}

/// A search without a limit never is out of time; one with a limit is out of time once
/// the limit has passed, and not before. A limit that is not told is ten seconds.
pub proof fn lemma_limit_is_kept(timeout: Option<i64>, now: u64, later: u64)
    requires
        later >= now,
    ensures
        ({
            let limit = if timeout is Some {
                timeout->Some_0 as int
            } else {
                10_000
            };
            &&& deadline_of(timeout, now) is Err <==> limit < -1
            &&& limit == -1 ==> !is_past(deadline_of(timeout, now)->Ok_0, later)
            &&& limit >= 0 ==> (is_past(deadline_of(timeout, now)->Ok_0, later) <==> later - now
                >= limit)
        }),
{
}

/// A search takes no entry once it has the hits that it was asked for; before that it
/// looks into every file that its globs find, and into nothing that is no file.
pub proof fn lemma_entries_are_taken(s: RgSearchView, path: Seq<char>, is_file: bool)
    ensures
        entry_step(s, path, is_file) == RgStep::Stop <==> s.matches.len() >= s.max_count,
        entry_step(s, path, is_file) == RgStep::Search <==> s.matches.len() < s.max_count
            && is_file && (s.globs matches Some(globs) ==> found_below(
            s.windows,
            globs,
            s.root,
            path,
        )),
{
}

/// A file below a directory is found by a glob that matches its path from there, or its
/// whole path, and by no other.
pub proof fn lemma_globs_see_both_paths(
    globs: Seq<Seq<char>>,
    root: Seq<char>,
    path: Seq<char>,
)
    requires
        is_plain(path),
    ensures
        found_below(false, globs, root, join_path(false, root, path)) <==> exists|i: int|
            0 <= i < globs.len() && (pattern_matches(#[trigger] globs[i], path) || pattern_matches(
                globs[i],
                join_path(false, root, path),
            )),
{
    lemma_below_joined(root, path);
    let whole = join_path(false, root, path);
    if found_below(false, globs, root, whole) {
        if exists|i: int| 0 <= i < globs.len() && pattern_matches(#[trigger] globs[i], path) {
            let i = choose|i: int| 0 <= i < globs.len() && pattern_matches(#[trigger] globs[i], path);
            assert(pattern_matches(globs[i], path));
        } else {
            let i = choose|i: int| 0 <= i < globs.len() && pattern_matches(#[trigger] globs[i], whole);
            assert(pattern_matches(globs[i], whole));
        }
    }
}

/// The result of a search shows what was printed, and tells how many hits there were,
/// how many files were walked, the exit code, and whether time ran out.
pub proof fn lemma_search_result_tells(
    stdout: Seq<char>,
    matches: u64,
    files_walked: u64,
    code: i32,
    timed_out: bool,
)
    ensures
        ({
            let r = rg_result(stdout, matches as int, files_walked as int, code, timed_out);
            &&& field(r.output, "text"@) == Some(JsonView::Text(stdout))
            &&& field(r.metadata, "matches"@) == Some(
                JsonView::Number(NumberView::Unsigned(matches)),
            )
            &&& field(r.metadata, "filesWalked"@) == Some(
                JsonView::Number(NumberView::Unsigned(files_walked)),
            )
            &&& field(r.metadata, "timedOut"@) == Some(JsonView::Bool(timed_out))
            &&& code >= 0 ==> field(r.metadata, "code"@) == Some(
                JsonView::Number(NumberView::Unsigned(code as u64)),
            )
            &&& code < 0 ==> field(r.metadata, "code"@) == Some(
                JsonView::Number(NumberView::Negative(code as i64)),
            )
        }),
{
    reveal_strlit("");
    lemma_output_shows(""@, stdout, ""@);
    reveal_strlit("matches");
    reveal_strlit("filesWalked");
    reveal_strlit("timedOut");
    reveal_strlit("code");
    assert("matches"@.len() == 7 && "filesWalked"@.len() == 11 && "timedOut"@.len() == 8
        && "code"@.len() == 4);
}

} // verus!
