//! Unified diffs, made and applied by `diffy`.

use crate::error::Error;
use crate::protocol::opt_text;
use crate::text::laws::lemma_dec_is_digits;
use crate::text::more_laws::{lemma_first_is_replaced, lemma_text_is_found, stands_at};
use crate::text::number::{dec, lemma_dec_reads_back, parse_unsigned, parse_usize};
use crate::text::split::{
    after_prefix, find_char, find_text, has_text, index_of, lines as lines_of, position_of,
    replace_first, split, split_at_char, split_lines, starts, starts_with, with_first_replaced,
};
use crate::text::{chars_of, is_space, owned, views};
use vstd::prelude::*;
use vstd::slice::slice_subrange;

verus! {

/// The unified diff from one text to another, as `diffy` writes it.
pub uninterp spec fn unified_diff(before: Seq<char>, after: Seq<char>) -> Seq<char>;

/// `diffy::create_patch`, written out: the unified diff from `before` to
/// `after` with three lines of context, between files named `original` and
/// `modified`. It is a function of the two texts.
#[verifier::external_body]
fn create_patch(before: &str, after: &str) -> (r: String)
    ensures
        r@ == unified_diff(before@, after@),
{
    diffy::create_patch(before, after).to_string()
}

/// The complaint of `diffy` about a text that is no unified diff.
pub uninterp spec fn diff_fault(patch: Seq<char>) -> Option<Seq<char>>;

/// `diffy::Patch::from_str`: whether a text reads as a unified diff, and the
/// complaint where it does not. A hunk that ends beyond the machine's range and has
/// another behind it is left out, since `diffy` adds up where it ends.
#[verifier::external_body]
fn find_diff_fault(patch: &str) -> (r: Option<String>)
    requires
        !leaves_range(patch@),
    ensures
        opt_text(r) == diff_fault(patch@),
{
    match diffy::Patch::from_str(patch) {
        Ok(_) => None,
        Err(err) => Some(err.to_string()),
    }
}

/// What `diffy` makes of a text and a unified diff for it, or its complaint.
pub uninterp spec fn diff_applied(base: Seq<char>, patch: Seq<char>) -> Result<
    Seq<char>,
    Seq<char>,
>;

/// `diffy::apply`: the text with the hunks of the diff applied, or which hunk
/// has no place in it. It is a function of the text and the diff.
#[verifier::external_body]
fn apply_diff(base: &str, patch: &str) -> (r: Result<String, String>)
    requires
        !leaves_range(patch@),
        diff_fault(patch@) is None,
    ensures
        match r {
            Ok(out) => diff_applied(base@, patch@) == Ok::<Seq<char>, Seq<char>>(out@),
            Err(m) => diff_applied(base@, patch@) == Err::<Seq<char>, Seq<char>>(m@),
        },
{
    let parsed = diffy::Patch::from_str(patch).unwrap();
    diffy::apply(base, &parsed).map_err(|err| err.to_string())
}

// ---------------------------------------------------------------------------
// Hunks that end beyond the machine's range
// ---------------------------------------------------------------------------
/// The part of a hunk header that holds line numbers.
pub open spec fn header_ranges(line: Seq<char>) -> Seq<char> {
    let rest = line.skip("@@ "@.len() as int);
    let k = find_text(rest, " @@"@);
    if k <= rest.len() {
        rest.take(k)
    } else {
        rest
    }
}

/// Whether a range, a start and a length or a start alone, ends beyond the machine's
/// range.
pub open spec fn range_leaves(range: Seq<char>) -> bool {
    let k = find_char(range, ',');
    if k < range.len() {
        match (
            parse_unsigned(range.take(k), usize::MAX as nat),
            parse_unsigned(range.skip(k + 1), usize::MAX as nat),
        ) {
            (Some(start), Some(len)) => start + len > usize::MAX,
            _ => false,
        }
    } else {
        parse_unsigned(range, usize::MAX as nat) == Some(usize::MAX as nat)
    }
}

/// Whether the old or the new range of a hunk header ends beyond the machine's range.
pub open spec fn header_leaves(line: Seq<char>) -> bool {
    let ranges = header_ranges(line);
    let k = find_char(ranges, ' ');
    k < ranges.len() && {
        let (before, after) = (ranges.take(k), ranges.skip(k + 1));
        ||| starts(before, "-"@) && range_leaves(before.skip("-"@.len() as int))
        ||| starts(after, "+"@) && range_leaves(after.skip("+"@.len() as int))
    }
}

/// Whether a hunk ends beyond the machine's range and has another behind it.
pub open spec fn leaves_range(patch: Seq<char>) -> bool {
    let rows = split(patch, '\n');
    exists|i: int, j: int|
        0 <= i < j < rows.len() && starts(#[trigger] rows[i], "@@ "@) && header_leaves(rows[i])
            && starts(#[trigger] rows[j], "@@ "@)
}

fn finds_range_leaving(range: &[char]) -> (r: bool)
    ensures
        r == range_leaves(range@),
{
    let k: usize = index_of(range, ',');
    if k < range.len() {
        let first = slice_subrange(range, 0, k);
        let second = slice_subrange(range, k + 1, range.len());
        proof {
            assert(first@ =~= range@.take(k as int));
            assert(second@ =~= range@.skip(k + 1));
        }
        match (parse_usize(first), parse_usize(second)) {
            (Some(start), Some(len)) => start > usize::MAX - len,
            _ => false,
        }
    } else {
        match parse_usize(range) {
            Some(start) => start == usize::MAX,
            None => false,
        }
    }
}

/// Whether a header leaves the machine's range; `rest` is what follows its `@@ `.
fn finds_header_leaving(rest: &[char]) -> (r: bool)
    ensures
        forall|line: Seq<char>|
            #![trigger header_leaves(line)]
            line.skip("@@ "@.len() as int) == rest@ ==> r == header_leaves(line),
{
    let ranges = match position_of(rest, " @@") {
        Some(k) => slice_subrange(rest, 0, k),
        None => rest,
    };
    let k: usize = index_of(ranges, ' ');
    if k >= ranges.len() {
        proof {
            assert forall|line: Seq<char>|
                #![trigger header_leaves(line)]
                line.skip("@@ "@.len() as int) == rest@ implies !header_leaves(line) by {
                assert(ranges@ =~= header_ranges(line));
            }
        }
        return false;
    }
    let before = slice_subrange(ranges, 0, k);
    let after = slice_subrange(ranges, k + 1, ranges.len());
    let old_leaves: bool = match after_prefix(before, "-") {
        Some(range) => finds_range_leaving(range),
        None => false,
    };
    let new_leaves: bool = match after_prefix(after, "+") {
        Some(range) => finds_range_leaving(range),
        None => false,
    };
    proof {
        assert forall|line: Seq<char>|
            #![trigger header_leaves(line)]
            line.skip("@@ "@.len() as int) == rest@ implies (old_leaves || new_leaves)
            == header_leaves(line) by {
            assert(ranges@ =~= header_ranges(line));
            assert(before@ =~= ranges@.take(k as int));
            assert(after@ =~= ranges@.skip(k + 1));
        }
    }
    old_leaves || new_leaves
}

fn finds_leaving_range(patch: &[char]) -> (r: bool)
    ensures
        r == leaves_range(patch@),
{
    let all = split_at_char(patch, '\n');
    let ghost rows = split(patch@, '\n');
    let mut leaving: bool = false;
    let mut i: usize = 0;
    while i < all.len()
        invariant
            i <= all@.len(),
            rows == views(all@),
            rows == split(patch@, '\n'),
            leaving == exists|k: int|
                0 <= k < i && starts(#[trigger] rows[k], "@@ "@) && header_leaves(rows[k]),
            forall|k: int, j: int|
                0 <= k < j < i && starts(#[trigger] rows[k], "@@ "@) && header_leaves(rows[k])
                    ==> !starts(#[trigger] rows[j], "@@ "@),
        decreases all@.len() - i,
    {
        proof {
            assert(rows[i as int] == all@[i as int]@);
        }
        match after_prefix(all[i], "@@ ") {
            Some(rest) => {
                if leaving {
                    return true;
                }
                leaving = finds_header_leaving(rest);
                proof {
                    assert(leaving == header_leaves(rows[i as int]));
                }
            },
            None => {},
        }
        i = i + 1;
    }
    proof {
        assert(i == rows.len());
    }
    false
}

// ---------------------------------------------------------------------------
// Using diffs
// ---------------------------------------------------------------------------
/// A text with a unified diff applied, or why that cannot be done.
pub open spec fn patched_by_diff(base: Seq<char>, patch: Seq<char>) -> Result<
    Seq<char>,
    Seq<char>,
> {
    if leaves_range(patch) {
        Err("error parsing patch: Hunks not in order or overlap"@)
    } else {
        match diff_fault(patch) {
            Some(m) => Err(m),
            None => diff_applied(base, patch),
        }
    }
}

/// Applies a unified diff to a text.
pub fn apply_unified_diff(base: &str, patch: &str) -> (r: Result<String, Error>)
    ensures
        match r {
            Ok(out) => patched_by_diff(base@, patch@) == Ok::<Seq<char>, Seq<char>>(out@),
            Err(e) => patched_by_diff(base@, patch@) == Err::<Seq<char>, Seq<char>>(e@),
        },
{
    let all = chars_of(patch);
    if finds_leaving_range(all.as_slice()) {
        return Err(Error::of("error parsing patch: Hunks not in order or overlap"));
    }
    match find_diff_fault(patch) {
        Some(m) => Err(Error::new(m)),
        None => match apply_diff(base, patch) {
            Ok(out) => Ok(out),
            Err(m) => Err(Error::new(m)),
        },
    }
}

/// A diff whose headers name the file at `path`.
pub open spec fn named_diff(diff: Seq<char>, path: Seq<char>) -> Seq<char> {
    replace_first(
        replace_first(diff, "--- original"@, "--- "@ + path),
        "+++ modified"@,
        "+++ "@ + path,
    )
}

/// Names the file at `path` in the headers of a diff.
pub fn name_diff(diff: &str, path: &str) -> (r: String)
    ensures
        r@ == named_diff(diff@, path@),
{
    let mut old_name = owned("--- ");
    old_name.append(path);
    let mut new_name = owned("+++ ");
    new_name.append(path);
    let given = chars_of(diff);
    let once = with_first_replaced(given.as_slice(), "--- original", old_name.as_str());
    let once_chars = chars_of(once.as_str());
    with_first_replaced(once_chars.as_slice(), "+++ modified", new_name.as_str())
}

/// The diff between two texts of the file at `path`.
pub fn diff_text(path: &str, before: &str, after: &str) -> (r: String)
    ensures
        r@ == named_diff(unified_diff(before@, after@), path@),
{
    let diff = create_patch(before, after);
    name_diff(diff.as_str(), path)
}

/// A line of a diff that adds or takes away, told by its first character.
pub open spec fn is_marked(line: Seq<char>, marker: char) -> bool {
    line.len() > 0 && line[0] == marker && !starts(line, "+++"@) && !starts(line, "---"@)
}

pub open spec fn count_marked(lines: Seq<Seq<char>>, marker: char) -> nat
    decreases lines.len(),
{
    if lines.len() == 0 {
        0
    } else {
        count_marked(lines.drop_last(), marker) + (if is_marked(lines.last(), marker) {
            1nat
        } else {
            0nat
        })
    }
}

/// How many lines of a diff start with `marker`, file headers aside.
pub fn count_diff_lines(diff: &str, marker: char) -> (r: usize)
    ensures
        r == count_marked(lines_of(diff@), marker),
{
    let text = chars_of(diff);
    let all = split_lines(text.as_slice());
    let ghost rows = lines_of(diff@);
    let mut n: usize = 0;
    let mut i: usize = 0;
    proof {
        assert(rows.take(0) =~= seq![]);
    }
    while i < all.len()
        invariant
            i <= all@.len(),
            n <= i,
            rows == views(all@),
            n == count_marked(rows.take(i as int), marker),
        decreases all@.len() - i,
    {
        let line = all[i];
        proof {
            assert(rows.take(i + 1).drop_last() =~= rows.take(i as int));
            assert(rows[i as int] == line@);
        }
        if line.len() > 0 && line[0] == marker && !starts_with(line, "+++") && !starts_with(
            line,
            "---",
        ) {
            n = n + 1;
        }
        i = i + 1;
    }
    proof {
        assert(rows.take(rows.len() as int) =~= rows);
    }
    n
}

/// A diff names the file it is about: its two headers get the path, and all that follows
/// stays as it is.
pub proof fn lemma_diff_is_named(path: Seq<char>, rest: Seq<char>)
    requires
        !has_text(path, "+++ modified"@),
    ensures
        named_diff("--- original\n+++ modified\n"@ + rest, path) == "--- "@ + path + "\n+++ "@ + path
            + "\n"@ + rest,
{
    let old_name = "--- original"@;
    let new_name = "+++ modified"@;
    reveal_strlit("--- original\n+++ modified\n");
    reveal_strlit("--- original");
    reveal_strlit("+++ modified");
    reveal_strlit("--- ");
    reveal_strlit("+++ ");
    reveal_strlit("\n+++ ");
    reveal_strlit("\n");
    let no = Seq::<char>::empty();
    let diff = "--- original\n+++ modified\n"@ + rest;
    let behind = "\n"@ + new_name + "\n"@ + rest;
    assert(diff =~= no + old_name + behind);
    lemma_first_is_replaced(no, old_name, behind, "--- "@ + path);
    let front = "--- "@ + path + "\n"@;
    let tail = "\n"@ + rest;
    let s = front + new_name + tail;
    assert(no + ("--- "@ + path) + behind =~= s);
    lemma_text_is_found(path, new_name);
    assert forall|i: int| 0 <= i < front.len() implies !#[trigger] stands_at(s, new_name, i) by {
        if stands_at(s, new_name, i) {
            let there = s.subrange(i, i + 12);
            let n = path.len() as int;
            assert(there[0] == s[i]);
            if i >= 4 && i + 12 <= 4 + n {
                assert(path.subrange(i - 4, i - 4 + 12) =~= there);
                assert(stands_at(path, new_name, i - 4));
            } else if i >= 4 {
                assert(s[4 + n] == '\n');
                assert(there[4 + n - i] == '\n');
            }
        }
    }
    lemma_first_is_replaced(front, new_name, tail, "+++ "@ + path);
    assert(front + ("+++ "@ + path) + tail =~= "--- "@ + path + "\n+++ "@ + path + "\n"@ + rest);
}

proof fn lemma_header_has_ranges(x: Seq<char>, y: Seq<char>)
    requires
        forall|i: int| 0 <= i < x.len() ==> #[trigger] x[i] != ' ',
        forall|i: int| 0 <= i < y.len() ==> #[trigger] y[i] != ' ',
        y.len() > 0,
        y[0] != '@',
    ensures
        header_ranges("@@ "@ + x + " "@ + y + " @@"@) == x + " "@ + y,
{
    reveal_strlit("@@ ");
    reveal_strlit(" ");
    reveal_strlit(" @@");
    let line = "@@ "@ + x + " "@ + y + " @@"@;
    let rest = line.skip(3);
    let ranges = x + " "@ + y;
    let n = x.len() as int;
    let m = ranges.len() as int;
    assert(rest =~= ranges + " @@"@);
    lemma_text_is_found(rest, " @@"@);
    assert(rest.subrange(m, m + 3) =~= " @@"@);
    assert(stands_at(rest, " @@"@, m));
    let k = find_text(rest, " @@"@);
    if k < m {
        let there = rest.subrange(k, k + 3);
        assert(there[0] == rest[k]);
        assert(there[1] == rest[k + 1]);
        if k < n {
            assert(rest[k] == x[k]);
        } else if k == n {
            assert(rest[k + 1] == y[0]);
        } else {
            assert(rest[k] == y[k - n - 1]);
        }
    }
    assert(rest.take(m) =~= ranges);
}

proof fn lemma_ranges_are_cut(x: Seq<char>, y: Seq<char>)
    requires
        forall|i: int| 0 <= i < x.len() ==> #[trigger] x[i] != ' ',
    ensures
        find_char(x + " "@ + y, ' ') == x.len(),
        (x + " "@ + y).take(x.len() as int) == x,
        (x + " "@ + y).skip(x.len() as int + 1) == y,
{
    reveal_strlit(" ");
    let ranges = x + " "@ + y;
    let n = x.len() as int;
    crate::text::split::lemma_find_char(ranges, ' ');
    assert(ranges[n] == ' ');
    assert forall|i: int| 0 <= i < n implies ranges[i] != ' ' by {
        assert(ranges[i] == x[i]);
    }
    assert(ranges.take(n) =~= x);
    assert(ranges.skip(n + 1) =~= y);
}

/// A hunk leaves the range of line numbers exactly where one of its two places ends behind
/// the last number that there is.
#[verifier::spinoff_prover]
pub proof fn lemma_hunks_that_leave(a: usize, b: usize, c: usize, d: usize)
    ensures
        header_leaves(
            "@@ "@ + ("-"@ + (dec(a as nat) + ","@ + dec(b as nat))) + " "@ + ("+"@ + (dec(c as nat)
                + ","@ + dec(d as nat))) + " @@"@,
        ) <==> a + b > usize::MAX || c + d > usize::MAX,
{
    reveal_strlit("-");
    reveal_strlit("+");
    let one = dec(a as nat) + ","@ + dec(b as nat);
    let two = dec(c as nat) + ","@ + dec(d as nat);
    lemma_range_that_leaves(a, b);
    lemma_range_that_leaves(c, d);
    let x = "-"@ + one;
    let y = "+"@ + two;
    assert forall|i: int| 0 <= i < x.len() implies #[trigger] x[i] != ' ' by {
        if i > 0 {
            assert(x[i] == one[i - 1]);
        }
    }
    assert forall|i: int| 0 <= i < y.len() implies #[trigger] y[i] != ' ' by {
        if i > 0 {
            assert(y[i] == two[i - 1]);
        }
    }
    assert(y[0] == '+');
    lemma_header_has_ranges(x, y);
    lemma_ranges_are_cut(x, y);
    assert(x.take(1) =~= "-"@ && x.skip(1) =~= one);
    assert(y.take(1) =~= "+"@ && y.skip(1) =~= two);
}

proof fn lemma_range_that_leaves(start: usize, len: usize)
    ensures
        ({
            let range = dec(start as nat) + ","@ + dec(len as nat);
            &&& range_leaves(range) <==> start + len > usize::MAX
            &&& forall|i: int| 0 <= i < range.len() ==> #[trigger] range[i] != ' '
        }),
{
    reveal_strlit(",");
    lemma_dec_is_digits(start as nat);
    lemma_dec_is_digits(len as nat);
    lemma_dec_reads_back(start as nat, usize::MAX as nat);
    lemma_dec_reads_back(len as nat, usize::MAX as nat);
    let (a, b) = (dec(start as nat), dec(len as nat));
    let range = a + ","@ + b;
    let n = a.len() as int;
    assert(range[n] == ',');
    assert forall|i: int| 0 <= i < n implies range[i] != ',' by {
        assert(range[i] == a[i]);
    }
    crate::text::split::lemma_find_char(range, ',');
    assert(find_char(range, ',') == n);
    assert(range.take(n) =~= a);
    assert(range.skip(n + 1) =~= b);
    assert forall|i: int| 0 <= i < range.len() implies #[trigger] range[i] != ' ' by {
        if i < n {
            assert(range[i] == a[i] && !is_space(a[i]));
        } else if i > n {
            assert(range[i] == b[i - n - 1] && !is_space(b[i - n - 1]));
        }
    }
}

/// A diff that is one, and of which no hunk leaves the range of line numbers, does what
/// it says, or does not fit.
pub proof fn lemma_diff_does_what_it_says(base: Seq<char>, patch: Seq<char>)
    requires
        diff_fault(patch) is None,
        forall|i: int|
            0 <= i < split(patch, '\n').len() && starts(split(patch, '\n')[i], "@@ "@)
                ==> !header_leaves(#[trigger] split(patch, '\n')[i]),
    ensures
        patched_by_diff(base, patch) == diff_applied(base, patch),
{
}

} // verus!
