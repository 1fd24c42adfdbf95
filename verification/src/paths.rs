//! Paths as text, in two styles.
//!
//! In the plain style `/` separates the components and a leading `/` is the root. In
//! the Windows style `\` separates too, and a path may start with a prefix that names
//! a drive, a share or a device. Repeated separators and inner `.` components count for
//! nothing.

use crate::text::split::join as join_texts;
use crate::text::split::{is_text, joined, replace_char, same, with_char_replaced};
use crate::text::{chars_of, owned, same_text, string_of, views};
use vstd::prelude::*;
use vstd::slice::slice_subrange;

verus! {

// ---------------------------------------------------------------------------
// Separators and prefixes
// ---------------------------------------------------------------------------
/// The characters that separate components.
#[derive(Clone, Copy, Debug, PartialEq, Eq, Structural)]
pub enum Separators {
    Slash,
    Both,
    Backslash,
}

pub open spec fn parts_at(s: Separators, c: char) -> bool {
    match s {
        Separators::Slash => c == '/',
        Separators::Both => c == '/' || c == '\\',
        Separators::Backslash => c == '\\',
    }
}

fn is_separator(s: Separators, c: char) -> (r: bool)
    ensures
        r == parts_at(s, c),
{
    match s {
        Separators::Slash => c == '/',
        Separators::Both => c == '/' || c == '\\',
        Separators::Backslash => c == '\\',
    }
}

/// Where the component ends that starts at index `i`.
pub open spec fn part_end(s: Separators, p: Seq<char>, i: int) -> int
    decreases p.len() - i,
{
    if i >= p.len() || parts_at(s, p[i]) {
        i
    } else {
        part_end(s, p, i + 1)
    }
}

pub proof fn lemma_part_end(s: Separators, p: Seq<char>, i: int)
    requires
        0 <= i <= p.len(),
    ensures
        i <= part_end(s, p, i) <= p.len(),
        part_end(s, p, i) < p.len() ==> parts_at(s, p[part_end(s, p, i)]),
        forall|k: int| i <= k < part_end(s, p, i) ==> !parts_at(s, #[trigger] p[k]),
    decreases p.len() - i,
{
    if i < p.len() && !parts_at(s, p[i]) {
        lemma_part_end(s, p, i + 1);
    }
}

proof fn lemma_part_end_is(s: Separators, p: Seq<char>, i: int, j: int)
    requires
        0 <= i <= j <= p.len(),
        j < p.len() ==> parts_at(s, p[j]),
        forall|k: int| i <= k < j ==> !parts_at(s, #[trigger] p[k]),
    ensures
        part_end(s, p, i) == j,
    decreases j - i,
{
    if i < j {
        assert(!parts_at(s, p[i]));
        lemma_part_end_is(s, p, i + 1, j);
    }
}

fn find_part_end(s: Separators, p: &[char], from: usize) -> (r: usize)
    requires
        from <= p@.len(),
    ensures
        r == part_end(s, p@, from as int),
        from <= r <= p@.len(),
        r < p@.len() ==> parts_at(s, p@[r as int]),
        r > from ==> !parts_at(s, p@[from as int]),
{
    let mut i: usize = from;
    while i < p.len() && !is_separator(s, p[i])
        invariant
            from <= i <= p@.len(),
            part_end(s, p@, from as int) == part_end(s, p@, i as int),
            forall|k: int| from <= k < i ==> !parts_at(s, #[trigger] p@[k]),
        decreases p@.len() - i,
    {
        i = i + 1;
    }
    i
}

/// Whether a path starts with `\\?\`, behind which `\` alone separates and nothing is
/// left out. A `/` close behind means that it does not.
pub open spec fn is_verbatim(p: Seq<char>) -> bool {
    &&& p.len() >= 4
    &&& p[0] == '\\' && p[1] == '\\' && p[2] == '?' && p[3] == '\\'
    &&& forall|i: int| 4 <= i < 8 && i < p.len() ==> #[trigger] p[i] != '/'
}

/// What separates the components of `p`.
pub open spec fn separators_of(windows: bool, p: Seq<char>) -> Separators {
    if !windows {
        Separators::Slash
    } else if is_verbatim(p) {
        Separators::Backslash
    } else {
        Separators::Both
    }
}

pub open spec fn is_letter(c: char) -> bool {
    'a' <= c <= 'z' || 'A' <= c <= 'Z'
}

/// Where a server and a share behind it end, the first of which starts at index `i`.
pub open spec fn share_end(s: Separators, p: Seq<char>, i: int) -> int {
    let server = part_end(s, p, i);
    if server + 1 < p.len() && !parts_at(s, p[server + 1]) {
        part_end(s, p, server + 1)
    } else {
        server
    }
}

/// Where the prefix of a path in the Windows style ends: `C:`, `\\server\share`,
/// `\\.\device`, `\\?\name` or `\\?\UNC\server\share`.
pub open spec fn windows_prefix_end(p: Seq<char>) -> int {
    let both = Separators::Both;
    if is_verbatim(p) {
        if p.len() >= 8 && p[4] == 'U' && p[5] == 'N' && p[6] == 'C' && p[7] == '\\' {
            share_end(Separators::Backslash, p, 8)
        } else {
            part_end(Separators::Backslash, p, 4)
        }
    } else if p.len() >= 2 && parts_at(both, p[0]) && parts_at(both, p[1]) {
        if p.len() >= 4 && p[2] == '.' && parts_at(both, p[3]) {
            part_end(both, p, 4)
        } else {
            let server = part_end(both, p, 2);
            if server > 2 && server + 1 < p.len() && !parts_at(both, p[server + 1]) {
                part_end(both, p, server + 1)
            } else {
                0
            }
        }
    } else if p.len() >= 2 && is_letter(p[0]) && p[1] == ':' {
        2
    } else {
        0
    }
}

/// Where the prefix of `p` ends; only the Windows style has any.
pub open spec fn prefix_end(windows: bool, p: Seq<char>) -> int {
    if windows {
        windows_prefix_end(p)
    } else {
        0
    }
}

proof fn lemma_prefix_end(windows: bool, p: Seq<char>)
    ensures
        0 <= prefix_end(windows, p) <= p.len(),
{
    if windows {
        if is_verbatim(p) {
            lemma_part_end(Separators::Backslash, p, 4);
            if p.len() >= 8 {
                lemma_part_end(Separators::Backslash, p, 8);
                let server = part_end(Separators::Backslash, p, 8);
                if server + 1 < p.len() {
                    lemma_part_end(Separators::Backslash, p, server + 1);
                }
            }
        } else if p.len() >= 2 {
            lemma_part_end(Separators::Both, p, 2);
            let server = part_end(Separators::Both, p, 2);
            if server + 1 < p.len() {
                lemma_part_end(Separators::Both, p, server + 1);
            }
            if p.len() >= 4 {
                lemma_part_end(Separators::Both, p, 4);
            }
        }
    }
}

fn finds_verbatim(p: &[char]) -> (r: bool)
    ensures
        r == is_verbatim(p@),
{
    if p.len() < 4 || p[0] != '\\' || p[1] != '\\' || p[2] != '?' || p[3] != '\\' {
        return false;
    }
    let mut i: usize = 4;
    while i < 8 && i < p.len()
        invariant
            4 <= i <= 8,
            i <= p@.len() || i == 4,
            forall|k: int| 4 <= k < i && k < p@.len() ==> #[trigger] p@[k] != '/',
        decreases 8 - i,
    {
        if p[i] == '/' {
            return false;
        }
        i = i + 1;
    }
    true
}

fn find_separators(windows: bool, p: &[char]) -> (r: Separators)
    ensures
        r == separators_of(windows, p@),
{
    if !windows {
        Separators::Slash
    } else if finds_verbatim(p) {
        Separators::Backslash
    } else {
        Separators::Both
    }
}

fn find_prefix_end(windows: bool, p: &[char]) -> (r: usize)
    ensures
        r == prefix_end(windows, p@),
        r <= p@.len(),
{
    proof {
        lemma_prefix_end(windows, p@);
    }
    if !windows {
        return 0;
    }
    let n: usize = p.len();
    let both = Separators::Both;
    if finds_verbatim(p) {
        let back = Separators::Backslash;
        if n >= 8 && p[4] == 'U' && p[5] == 'N' && p[6] == 'C' && p[7] == '\\' {
            let server: usize = find_part_end(back, p, 8);
            if server < n && server + 1 < n && !is_separator(back, p[server + 1]) {
                find_part_end(back, p, server + 1)
            } else {
                server
            }
        } else {
            find_part_end(back, p, 4)
        }
    } else if n >= 2 && is_separator(both, p[0]) && is_separator(both, p[1]) {
        if n >= 4 && p[2] == '.' && is_separator(both, p[3]) {
            find_part_end(both, p, 4)
        } else {
            let server: usize = find_part_end(both, p, 2);
            if server > 2 && server < n && server + 1 < n && !is_separator(both, p[server + 1]) {
                find_part_end(both, p, server + 1)
            } else {
                0
            }
        }
    } else if n >= 2 && (('a' <= p[0] && p[0] <= 'z') || ('A' <= p[0] && p[0] <= 'Z')) && p[1] == ':' {
        2
    } else {
        0
    }
}

// ---------------------------------------------------------------------------
// Roots
// ---------------------------------------------------------------------------
/// Whether a separator stands behind the prefix of `p`.
pub open spec fn has_root_separator(windows: bool, p: Seq<char>) -> bool {
    let k = prefix_end(windows, p);
    k < p.len() && parts_at(separators_of(windows, p), p[k])
}

/// Whether `p` starts at a root: at the separator behind its prefix, or at a prefix that
/// is no drive.
pub open spec fn has_root(windows: bool, p: Seq<char>) -> bool {
    has_root_separator(windows, p) || prefix_end(windows, p) > 2
}

/// Whether `p` leads to the same place wherever it is seen from.
pub open spec fn is_rooted(windows: bool, p: Seq<char>) -> bool {
    has_root(windows, p) && (windows ==> prefix_end(windows, p) > 0)
}

fn finds_root_separator(windows: bool, p: &[char]) -> (r: bool)
    ensures
        r == has_root_separator(windows, p@),
{
    let k: usize = find_prefix_end(windows, p);
    k < p.len() && is_separator(find_separators(windows, p), p[k])
}

fn finds_root(windows: bool, p: &[char]) -> (r: bool)
    ensures
        r == has_root(windows, p@),
{
    finds_root_separator(windows, p) || find_prefix_end(windows, p) > 2
}

/// Whether a path is absolute.
pub fn is_absolute(windows: bool, p: &str) -> (r: bool)
    ensures
        r == is_rooted(windows, p@),
{
    let all = chars_of(p);
    finds_root(windows, all.as_slice()) && (!windows || find_prefix_end(windows, all.as_slice()) > 0)
}

// ---------------------------------------------------------------------------
// Joining
// ---------------------------------------------------------------------------
/// Whether a separator has to be put behind `base` before a component: it does not
/// end in one, and is neither empty nor a drive alone.
pub open spec fn needs_separator(windows: bool, base: Seq<char>) -> bool {
    let s = if windows {
        Separators::Both
    } else {
        Separators::Slash
    };
    &&& base.len() > 0
    &&& !parts_at(s, base.last())
    &&& !(prefix_end(windows, base) == 2 && base.len() == 2)
}

/// Names, one below the other, after some more steps: `..` leaves the last name, `.`
/// stays, and any other goes down.
pub open spec fn walked(names: Seq<Seq<char>>, steps: Seq<Seq<char>>) -> Seq<Seq<char>>
    decreases steps.len(),
{
    if steps.len() == 0 {
        names
    } else {
        let before = walked(names, steps.drop_last());
        if steps.last() == "."@ {
            before
        } else if steps.last() == ".."@ {
            if before.len() > 0 && before.last() != "."@ && before.last() != ".."@ {
                before.drop_last()
            } else {
                before
            }
        } else {
            before.push(steps.last())
        }
    }
}

/// The components of `p` behind its prefix and its root.
pub open spec fn names_of(windows: bool, p: Seq<char>) -> Seq<Seq<char>> {
    components(windows, p).skip(head_spans(windows, p).len() as int)
}

/// `p` seen from `base`: below it; `p` itself where it is absolute or has a prefix; at
/// the root of what the prefix of `base` names where `p` has a root alone. Behind `\\?\`
/// no `.` and no `..` of `p` is left.
pub open spec fn join_path(windows: bool, base: Seq<char>, p: Seq<char>) -> Seq<char> {
    if is_rooted(windows, p) || prefix_end(windows, p) > 0 {
        p
    } else if windows && is_verbatim(base) && p.len() > 0 {
        base.take(prefix_end(windows, base)) + "\\"@ + join_texts(
            walked(
                if has_root(windows, p) {
                    seq![]
                } else {
                    names_of(windows, base)
                },
                names_of(windows, p),
            ),
            "\\"@,
        )
    } else if has_root(windows, p) {
        base.take(prefix_end(windows, base)) + p
    } else if needs_separator(windows, base) {
        base + (if windows {
            "\\"@
        } else {
            "/"@
        }) + p
    } else {
        base + p
    }
}

/// The names of `p`, behind those that there are.
fn walk(names: Vec<String>, steps: &[String]) -> (r: Vec<String>)
    ensures
        views(r@) == walked(views(names@), views(steps@)),
{
    let ghost start = views(names@);
    let ghost all = views(steps@);
    let mut out = names;
    let mut i: usize = 0;
    proof {
        assert(all.take(0) =~= seq![]);
    }
    while i < steps.len()
        invariant
            i <= steps@.len(),
            all == views(steps@),
            views(out@) == walked(start, all.take(i as int)),
        decreases steps@.len() - i,
    {
        let ghost before = out@;
        proof {
            assert(all.take(i + 1).drop_last() =~= all.take(i as int));
            assert(all.take(i + 1).last() == steps@[i as int]@);
            assert(views(before).len() == before.len());
        }
        let step = steps[i].as_str();
        if same_text(step, ".") {
        } else if same_text(step, "..") {
            let n: usize = out.len();
            if n > 0 {
                proof {
                    assert(views(before).last() == before[n - 1]@);
                }
                if !same_text(out[n - 1].as_str(), ".") && !same_text(out[n - 1].as_str(), "..") {
                    let _ = out.pop();
                    proof {
                        assert(views(out@) =~= views(before).drop_last());
                    }
                }
            }
        } else {
            out.push(owned(step));
            proof {
                assert(views(out@) =~= views(before).push(step@));
            }
        }
        i = i + 1;
    }
    proof {
        assert(all.take(all.len() as int) =~= all);
    }
    out
}

fn find_names(windows: bool, p: &[char]) -> (r: Vec<String>)
    ensures
        views(r@) == names_of(windows, p@),
{
    let found = find_spans(windows, p);
    let head: usize = count_head(windows, p);
    proof {
        assert(spans(windows, p@).len() == found@.len());
    }
    let mut out: Vec<String> = Vec::new();
    let mut i: usize = head;
    while i < found.len()
        invariant
            head <= i,
            head == head_spans(windows, p@).len(),
            i <= found@.len() || i == head,
            span_ints(found@) == spans(windows, p@),
            components(windows, p@).len() == found@.len(),
            forall|k: int|
                0 <= k < found@.len() ==> (#[trigger] found@[k]).0 <= found@[k].1 <= p@.len(),
            out@.len() == i - head,
            forall|k: int|
                0 <= k < out@.len() ==> (#[trigger] out@[k])@ == components(windows, p@)[head + k],
        decreases found@.len() - i,
    {
        let name = take_component(windows, p, &found, i);
        out.push(string_of(name.as_slice()));
        i = i + 1;
    }
    proof {
        assert(head <= spans(windows, p@).len());
        assert(views(out@) =~= names_of(windows, p@));
    }
    out
}

pub fn join(windows: bool, base: &str, p: &str) -> (r: String)
    ensures
        r@ == join_path(windows, base@, p@),
{
    let b = chars_of(base);
    let all = chars_of(p);
    if is_absolute(windows, p) || find_prefix_end(windows, all.as_slice()) > 0 {
        return owned(p);
    }
    let k: usize = find_prefix_end(windows, b.as_slice());
    let rooted: bool = finds_root(windows, all.as_slice());
    if windows && all.len() > 0 && finds_verbatim(b.as_slice()) {
        let names: Vec<String> = if rooted {
            Vec::new()
        } else {
            find_names(windows, b.as_slice())
        };
        proof {
            if rooted {
                assert(views(names@) =~= seq![]);
            }
        }
        let steps = find_names(windows, all.as_slice());
        let names = walk(names, steps.as_slice());
        let mut out = string_of(slice_subrange(b.as_slice(), 0, k));
        out.append("\\");
        let rest = joined(names.as_slice(), "\\");
        out.append(rest.as_str());
        return out;
    }
    if rooted {
        let mut out = string_of(slice_subrange(b.as_slice(), 0, k));
        out.append(p);
        return out;
    }
    let mut out = owned(base);
    let n: usize = b.len();
    let s = if windows {
        Separators::Both
    } else {
        Separators::Slash
    };
    if n > 0 && !is_separator(s, b[n - 1]) && !(n == 2 && k == 2) {
        if windows {
            out.append("\\");
        } else {
            out.append("/");
        }
    }
    out.append(p);
    out
}

proof fn lemma_prefix_stays(windows: bool, p: Seq<char>, tail: Seq<char>)
    requires
        prefix_end(windows, p) > 0,
        is_verbatim(p) ==> p.len() > 4 && !parts_at(Separators::Both, p[4]),
    ensures
        prefix_end(windows, p + tail) > 0,
{
    let whole = p + tail;
    let both = Separators::Both;
    assert forall|i: int| 0 <= i < p.len() implies whole[i] == #[trigger] p[i] by {}
    if p.len() >= 2 && parts_at(both, p[0]) && parts_at(both, p[1]) {
        lemma_part_end(both, p, 2);
        if p.len() >= 4 {
            lemma_part_end(both, whole, 4);
            lemma_part_end(Separators::Backslash, whole, 4);
        }
        if whole.len() >= 8 {
            lemma_part_end(Separators::Backslash, whole, 8);
            let server = part_end(Separators::Backslash, whole, 8);
            if server + 1 < whole.len() {
                lemma_part_end(Separators::Backslash, whole, server + 1);
            }
        }
        if is_verbatim(p) {
            lemma_part_end_is(both, whole, 2, 3);
            lemma_part_end(both, whole, 4);
        } else if !(p.len() >= 4 && p[2] == '.' && parts_at(both, p[3])) {
            let server = part_end(both, p, 2);
            lemma_part_end_is(both, whole, 2, server);
            lemma_part_end(both, whole, server + 1);
        }
    }
}

/// Whether a path without a prefix has one once it is seen from `base`.
pub open spec fn lends_prefix(windows: bool, base: Seq<char>, p: Seq<char>) -> bool {
    windows && prefix_end(windows, p) == 0 ==> prefix_end(windows, join_path(windows, base, p)) > 0
}

/// An absolute path lends its prefix to what is seen from it. The one exception is a path
/// with nothing between `\\?\` and the `\` behind it: `\\?\\\\b/c` and `f` make
/// `\\?\\b/c\f`, which has no prefix.
pub proof fn lemma_absolute_lends_prefix(windows: bool, base: Seq<char>, p: Seq<char>)
    requires
        is_rooted(windows, base),
        windows && is_verbatim(base) ==> prefix_end(windows, base) > 4,
    ensures
        lends_prefix(windows, base, p),
{
    if windows && prefix_end(windows, p) == 0 {
        lemma_prefix_end(windows, base);
        let k = prefix_end(windows, base);
        let head = base.take(k);
        if is_verbatim(base) {
            let back = Separators::Backslash;
            lemma_part_end(back, base, 4);
            assert(base[4] != '/');
            assert(!parts_at(Separators::Both, base[4]));
            assert forall|i: int| 0 <= i < k implies head[i] == #[trigger] base[i] by {}
            assert(is_verbatim(head));
            lemma_part_end(back, head, 4);
            if head.len() >= 8 {
                lemma_part_end(back, head, 8);
                let server = part_end(back, head, 8);
                if server + 1 < head.len() {
                    lemma_part_end(back, head, server + 1);
                }
            }
            if p.len() > 0 {
                let names = walked(
                    if has_root(windows, p) {
                        seq![]
                    } else {
                        names_of(windows, base)
                    },
                    names_of(windows, p),
                );
                let tail = "\\"@ + join_texts(names, "\\"@);
                lemma_prefix_stays(windows, head, tail);
                assert(join_path(windows, base, p) =~= head + tail);
            } else {
                assert(!has_root(windows, p));
                lemma_prefix_stays(windows, base, "\\"@);
                assert(base + "\\"@ + p =~= base + "\\"@);
                assert(base + p =~= base);
            }
        } else if has_root(windows, p) {
            lemma_prefix_of_prefix(base);
            lemma_prefix_stays(windows, head, p);
        } else if needs_separator(windows, base) {
            lemma_prefix_stays(windows, base, "\\"@ + p);
            assert(base + "\\"@ + p =~= base + ("\\"@ + p));
        } else {
            lemma_prefix_stays(windows, base, p);
        }
    }
}

/// Seen from an absolute path that lends it a prefix, what was seen from it once stays as
/// it is.
pub proof fn lemma_joined_stays(windows: bool, base: Seq<char>, p: Seq<char>)
    requires
        is_rooted(windows, base),
        lends_prefix(windows, base, p),
    ensures
        join_path(windows, base, join_path(windows, base, p)) == join_path(windows, base, p),
{
    lemma_prefix_end(windows, p);
    let r = join_path(windows, base, p);
    if !windows && !is_rooted(windows, p) {
        assert(r[0] == base[0]);
        assert(has_root(windows, r));
    }
}

proof fn lemma_prefix_of_prefix(p: Seq<char>)
    requires
        windows_prefix_end(p) > 0,
        !is_verbatim(p),
    ensures
        windows_prefix_end(p.take(windows_prefix_end(p))) > 0,
        is_verbatim(p.take(windows_prefix_end(p))) ==> windows_prefix_end(p) > 4 && !parts_at(
            Separators::Both,
            p[4],
        ),
{
    let both = Separators::Both;
    lemma_prefix_end(true, p);
    let k = windows_prefix_end(p);
    let head = p.take(k);
    assert forall|i: int| 0 <= i < k implies head[i] == #[trigger] p[i] by {}
    if parts_at(both, p[0]) && parts_at(both, p[1]) {
        lemma_part_end(both, p, 2);
        if p.len() >= 4 && p[2] == '.' && parts_at(both, p[3]) {
            lemma_part_end(both, p, 4);
            lemma_part_end(both, head, 4);
        } else {
            let server = part_end(both, p, 2);
            lemma_part_end(both, p, server + 1);
            lemma_part_end_is(both, head, 2, server);
            lemma_part_end(both, head, server + 1);
            if is_verbatim(head) {
                lemma_part_end_is(both, p, 2, 3);
                lemma_part_end(Separators::Backslash, head, 4);
                if head.len() >= 8 {
                    lemma_part_end(Separators::Backslash, head, 8);
                }
            }
        }
    }
}

// ---------------------------------------------------------------------------
// Components
// ---------------------------------------------------------------------------
/// Where the components from index `i` on stand in `p`. A `.` counts only at `first`,
/// and everywhere where nothing is left out.
pub open spec fn body_spans(s: Separators, p: Seq<char>, first: int, i: int) -> Seq<(int, int)>
    decreases p.len() - i,
{
    if i < 0 || i >= p.len() {
        seq![]
    } else if parts_at(s, p[i]) {
        body_spans(s, p, first, i + 1)
    } else {
        let j = part_end(s, p, i);
        proof {
            lemma_part_end(s, p, i);
            lemma_part_end(s, p, i + 1);
        }
        if j == i + 1 && p[i] == '.' && i > first && s != Separators::Backslash {
            body_spans(s, p, first, j)
        } else {
            seq![(i, j)] + body_spans(s, p, first, j)
        }
    }
}

/// Where the prefix and the root of `p` stand in it. A root without a separator takes
/// no place.
pub open spec fn head_spans(windows: bool, p: Seq<char>) -> Seq<(int, int)> {
    let k = prefix_end(windows, p);
    (if k > 0 {
        seq![(0int, k)]
    } else {
        seq![]
    }) + (if has_root_separator(windows, p) {
        seq![(k, k + 1)]
    } else if has_root(windows, p) {
        seq![(k, k)]
    } else {
        seq![]
    })
}

/// Where the components behind the prefix and the root start.
pub open spec fn body_start(windows: bool, p: Seq<char>) -> int {
    if has_root_separator(windows, p) {
        prefix_end(windows, p) + 1
    } else {
        prefix_end(windows, p)
    }
}

/// Where the components of `p` stand in it, the prefix and the root among them.
pub open spec fn spans(windows: bool, p: Seq<char>) -> Seq<(int, int)> {
    head_spans(windows, p) + body_spans(
        separators_of(windows, p),
        p,
        prefix_end(windows, p),
        body_start(windows, p),
    )
}

pub open spec fn upper(c: char) -> char {
    if 'a' <= c <= 'z' {
        (c as int - 32) as char
    } else {
        c
    }
}

/// A prefix in the form in which two that name the same are the same: with the letter
/// of its drive in upper case, and with `\` for `/`.
pub open spec fn normal_prefix(prefix: Seq<char>) -> Seq<char> {
    Seq::new(
        prefix.len(),
        |i: int|
            if prefix[i] == '/' && !is_verbatim(prefix) {
                '\\'
            } else if (prefix.len() == 2 && i == 0) || (is_verbatim(prefix) && prefix.len() == 6
                && prefix[5] == ':' && i == 4) {
                upper(prefix[i])
            } else {
                prefix[i]
            },
    )
}

/// The component with index `i`: the prefix in its normal form, the root as `/`, any
/// other as it stands.
pub open spec fn component_at(windows: bool, p: Seq<char>, i: int) -> Seq<char> {
    if i == 0 && prefix_end(windows, p) > 0 {
        normal_prefix(p.take(prefix_end(windows, p)))
    } else if i < head_spans(windows, p).len() {
        "/"@
    } else {
        p.subrange(spans(windows, p)[i].0, spans(windows, p)[i].1)
    }
}

/// The components of `p`.
pub open spec fn components(windows: bool, p: Seq<char>) -> Seq<Seq<char>> {
    Seq::new(spans(windows, p).len(), |i: int| component_at(windows, p, i))
}

pub open spec fn span_ints(v: Seq<(usize, usize)>) -> Seq<(int, int)> {
    Seq::new(v.len(), |i: int| (v[i].0 as int, v[i].1 as int))
}

fn find_spans(windows: bool, p: &[char]) -> (r: Vec<(usize, usize)>)
    ensures
        span_ints(r@) == spans(windows, p@),
        forall|i: int| 0 <= i < r@.len() ==> (#[trigger] r@[i]).0 <= r@[i].1 <= p@.len(),
        forall|i: int|
            head_spans(windows, p@).len() <= i < r@.len() ==> (#[trigger] r@[i]).0 < r@[i].1,
        forall|i: int, j: int| 0 <= i < j < r@.len() ==> (#[trigger] r@[i]).1 <= (#[trigger] r@[j]).0,
{
    let s = find_separators(windows, p);
    let first: usize = find_prefix_end(windows, p);
    let mut out: Vec<(usize, usize)> = Vec::new();
    let mut i: usize = first;
    if first > 0 {
        out.push((0, first));
    }
    if first < p.len() && finds_root_separator(windows, p) {
        out.push((first, first + 1));
        i = first + 1;
    } else if finds_root(windows, p) {
        out.push((first, first));
    }
    let ghost head = head_spans(windows, p@);
    proof {
        assert(span_ints(out@) =~= head);
        assert(i == body_start(windows, p@));
    }
    while i < p.len()
        invariant
            i <= p@.len(),
            s == separators_of(windows, p@),
            first == prefix_end(windows, p@),
            head == head_spans(windows, p@),
            out@.len() >= head.len(),
            span_ints(out@) + body_spans(s, p@, first as int, i as int) == spans(windows, p@),
            forall|k: int| 0 <= k < out@.len() ==> (#[trigger] out@[k]).0 <= out@[k].1 <= i,
            forall|k: int| head.len() <= k < out@.len() ==> (#[trigger] out@[k]).0 < out@[k].1,
            forall|k: int, l: int|
                0 <= k < l < out@.len() ==> (#[trigger] out@[k]).1 <= (#[trigger] out@[l]).0,
        decreases p@.len() - i,
    {
        if is_separator(s, p[i]) {
            i = i + 1;
            continue;
        }
        let j: usize = find_part_end(s, p, i);
        proof {
            lemma_part_end(s, p@, i + 1);
        }
        let ghost before = span_ints(out@);
        let left_out: bool = match s {
            Separators::Backslash => false,
            _ => j == i + 1 && p[i] == '.' && i > first,
        };
        if left_out {
            i = j;
            continue;
        }
        out.push((i, j));
        proof {
            let tail = body_spans(s, p@, first as int, j as int);
            assert(span_ints(out@) =~= before.push((i as int, j as int)));
            assert(before.push((i as int, j as int)) + tail =~= before + (seq![(i as int, j as int)]
                + tail));
        }
        i = j;
    }
    proof {
        assert(span_ints(out@) + body_spans(s, p@, first as int, i as int) =~= span_ints(out@));
    }
    out
}

fn upper_letter(c: char) -> (r: char)
    ensures
        r == upper(c),
{
    let n: u32 = c as u32;
    if 97 <= n && n <= 122 {
        ((n - 32) as u8) as char
    } else {
        c
    }
}

fn normal_prefix_of(prefix: &[char]) -> (r: Vec<char>)
    ensures
        r@ == normal_prefix(prefix@),
{
    let verbatim: bool = finds_verbatim(prefix);
    let n: usize = prefix.len();
    let letter: usize = if n == 2 {
        0
    } else if verbatim && n == 6 && prefix[5] == ':' {
        4
    } else {
        n
    };
    let mut out: Vec<char> = Vec::new();
    let mut i: usize = 0;
    while i < n
        invariant
            i <= n,
            n == prefix@.len(),
            out@.len() == i,
            verbatim == is_verbatim(prefix@),
            letter == if n == 2 {
                0
            } else if verbatim && n == 6 && prefix@[5] == ':' {
                4
            } else {
                n as int
            },
            forall|k: int| 0 <= k < i ==> #[trigger] out@[k] == normal_prefix(prefix@)[k],
        decreases n - i,
    {
        let c = if prefix[i] == '/' && !verbatim {
            '\\'
        } else if i == letter {
            upper_letter(prefix[i])
        } else {
            prefix[i]
        };
        out.push(c);
        i = i + 1;
    }
    proof {
        assert(out@ =~= normal_prefix(prefix@));
    }
    out
}

/// The component of `p` with index `i`; `found` is where all of them stand.
fn take_component(windows: bool, p: &[char], found: &Vec<(usize, usize)>, i: usize) -> (r: Vec<char>)
    requires
        span_ints(found@) == spans(windows, p@),
        forall|k: int| 0 <= k < found@.len() ==> (#[trigger] found@[k]).0 <= found@[k].1 <= p@.len(),
        i < found@.len(),
    ensures
        r@ == components(windows, p@)[i as int],
{
    let k: usize = find_prefix_end(windows, p);
    let mut head: usize = 0;
    if k > 0 {
        head = 1;
    }
    if finds_root(windows, p) {
        head = head + 1;
    }
    proof {
        assert(span_ints(found@)[i as int] == spans(windows, p@)[i as int]);
        assert(head == head_spans(windows, p@).len());
    }
    if i == 0 && k > 0 {
        let prefix = slice_subrange(p, 0, k);
        proof {
            assert(prefix@ =~= p@.take(k as int));
        }
        normal_prefix_of(prefix)
    } else if i < head {
        chars_of("/")
    } else {
        vstd::slice::slice_to_vec(slice_subrange(p, found[i].0, found[i].1))
    }
}

/// The first components of `p` are those of `base`.
pub open spec fn lies_below(windows: bool, p: Seq<char>, base: Seq<char>) -> bool {
    components(windows, base).len() <= components(windows, p).len() && components(windows, p).take(
        components(windows, base).len() as int,
    ) == components(windows, base)
}

/// What is left of `p` behind the components of `base`.
pub open spec fn below(windows: bool, p: Seq<char>, base: Seq<char>) -> Option<Seq<char>> {
    let n = components(windows, base).len() as int;
    if !lies_below(windows, p, base) {
        None
    } else if spans(windows, p).len() == n {
        Some(seq![])
    } else {
        Some(p.subrange(spans(windows, p)[n].0, spans(windows, p).last().1))
    }
}

/// Whether the first components of `p` are those of `base`, given where they stand.
fn starts_with_components(
    windows: bool,
    p: &[char],
    ps: &Vec<(usize, usize)>,
    base: &[char],
    bs: &Vec<(usize, usize)>,
) -> (r: bool)
    requires
        span_ints(ps@) == spans(windows, p@),
        span_ints(bs@) == spans(windows, base@),
        forall|k: int| 0 <= k < ps@.len() ==> (#[trigger] ps@[k]).0 <= ps@[k].1 <= p@.len(),
        forall|k: int| 0 <= k < bs@.len() ==> (#[trigger] bs@[k]).0 <= bs@[k].1 <= base@.len(),
    ensures
        r == lies_below(windows, p@, base@),
{
    proof {
        assert(spans(windows, p@).len() == ps@.len() && spans(windows, base@).len() == bs@.len());
    }
    if bs.len() > ps.len() {
        return false;
    }
    let mut i: usize = 0;
    while i < bs.len()
        invariant
            i <= bs@.len() <= ps@.len(),
            span_ints(ps@) == spans(windows, p@),
            span_ints(bs@) == spans(windows, base@),
            components(windows, p@).len() == ps@.len(),
            components(windows, base@).len() == bs@.len(),
            forall|k: int| 0 <= k < ps@.len() ==> (#[trigger] ps@[k]).0 <= ps@[k].1 <= p@.len(),
            forall|k: int| 0 <= k < bs@.len() ==> (#[trigger] bs@[k]).0 <= bs@[k].1 <= base@.len(),
            forall|k: int|
                0 <= k < i ==> #[trigger] components(windows, p@)[k] == components(windows, base@)[k],
        decreases bs@.len() - i,
    {
        let a = take_component(windows, p, ps, i);
        let b = take_component(windows, base, bs, i);
        if !same(a.as_slice(), b.as_slice()) {
            proof {
                if lies_below(windows, p@, base@) {
                    assert(components(windows, p@).take(
                        components(windows, base@).len() as int,
                    )[i as int] == components(windows, base@)[i as int]);
                }
            }
            return false;
        }
        i = i + 1;
    }
    proof {
        assert(components(windows, p@).take(components(windows, base@).len() as int)
            =~= components(windows, base@));
    }
    true
}

/// What is left of a path behind the directory it lies in.
pub fn strip_prefix(windows: bool, p: &[char], base: &[char]) -> (r: Option<String>)
    ensures
        match r {
            Some(rest) => below(windows, p@, base@) == Some(rest@),
            None => below(windows, p@, base@) is None,
        },
{
    let ps = find_spans(windows, p);
    let bs = find_spans(windows, base);
    proof {
        assert(spans(windows, p@).len() == ps@.len() && spans(windows, base@).len() == bs@.len());
    }
    if !starts_with_components(windows, p, &ps, base, &bs) {
        return None;
    }
    let n: usize = bs.len();
    let m: usize = ps.len();
    if m == n {
        return Some(String::new());
    }
    proof {
        assert(span_ints(ps@)[n as int] == spans(windows, p@)[n as int]);
        assert(span_ints(ps@)[m - 1] == spans(windows, p@)[m - 1]);
        if n < m - 1 {
            assert(ps@[n as int].1 <= ps@[m - 1].0);
        }
    }
    Some(string_of(slice_subrange(p, ps[n].0, ps[m - 1].1)))
}

/// Whether two paths have the same components.
pub fn same_path(windows: bool, p: &str, q: &str) -> (r: bool)
    ensures
        r == (components(windows, p@) == components(windows, q@)),
{
    let a = chars_of(p);
    let b = chars_of(q);
    let ps = find_spans(windows, a.as_slice());
    let qs = find_spans(windows, b.as_slice());
    proof {
        assert(spans(windows, p@).len() == ps@.len() && spans(windows, q@).len() == qs@.len());
        let n = components(windows, q@).len() as int;
        if components(windows, p@).len() == n {
            assert(components(windows, p@).take(n) =~= components(windows, p@));
        }
    }
    ps.len() == qs.len() && starts_with_components(windows, a.as_slice(), &ps, b.as_slice(), &qs)
}

/// The directory that holds the last component of `p`.
pub open spec fn parent_of(windows: bool, p: Seq<char>) -> Option<Seq<char>> {
    let n = spans(windows, p).len();
    if n <= head_spans(windows, p).len() {
        None
    } else if n == 1 {
        Some(seq![])
    } else {
        Some(p.take(spans(windows, p)[n - 2].1))
    }
}

fn count_head(windows: bool, p: &[char]) -> (r: usize)
    ensures
        r == head_spans(windows, p@).len(),
{
    let mut head: usize = 0;
    if find_prefix_end(windows, p) > 0 {
        head = 1;
    }
    if finds_root(windows, p) {
        head = head + 1;
    }
    head
}

pub fn parent(windows: bool, p: &str) -> (r: Option<String>)
    ensures
        match r {
            Some(dir) => parent_of(windows, p@) == Some(dir@),
            None => parent_of(windows, p@) is None,
        },
{
    let all = chars_of(p);
    let ps = find_spans(windows, all.as_slice());
    proof {
        assert(spans(windows, p@).len() == ps@.len());
    }
    let n: usize = ps.len();
    if n <= count_head(windows, all.as_slice()) {
        return None;
    }
    if n == 1 {
        return Some(String::new());
    }
    proof {
        assert(span_ints(ps@)[n - 2] == spans(windows, p@)[n - 2]);
    }
    Some(string_of(slice_subrange(all.as_slice(), 0, ps[n - 2].1)))
}

/// The last component of `p`, where it is a name.
pub open spec fn file_name_of(windows: bool, p: Seq<char>) -> Option<Seq<char>> {
    let c = components(windows, p);
    if c.len() <= head_spans(windows, p).len() || c.last() == "."@ || c.last() == ".."@ {
        None
    } else {
        Some(c.last())
    }
}

pub fn file_name(windows: bool, p: &str) -> (r: Option<String>)
    ensures
        match r {
            Some(name) => file_name_of(windows, p@) == Some(name@),
            None => file_name_of(windows, p@) is None,
        },
{
    let all = chars_of(p);
    let ps = find_spans(windows, all.as_slice());
    proof {
        assert(spans(windows, p@).len() == ps@.len());
    }
    let n: usize = ps.len();
    if n <= count_head(windows, all.as_slice()) {
        return None;
    }
    let last = take_component(windows, all.as_slice(), &ps, n - 1);
    if is_text(last.as_slice(), ".") || is_text(last.as_slice(), "..") {
        None
    } else {
        Some(string_of(last.as_slice()))
    }
}

/// How results name a file: by its path below the directory where it lies
/// there, and with `/` for `\`.
pub open spec fn title_of(windows: bool, directory: Seq<char>, p: Seq<char>) -> Seq<char> {
    replace_char(
        match below(windows, p, directory) {
            Some(rest) => rest,
            None => p,
        },
        '\\',
        "/"@,
    )
}

pub fn title(windows: bool, directory: &str, p: &str) -> (r: String)
    ensures
        r@ == title_of(windows, directory@, p@),
{
    let all = chars_of(p);
    let dir = chars_of(directory);
    match strip_prefix(windows, all.as_slice(), dir.as_slice()) {
        Some(rest) => {
            let shown = chars_of(rest.as_str());
            with_char_replaced(shown.as_slice(), '\\', "/")
        },
        None => with_char_replaced(all.as_slice(), '\\', "/"),
    }
}

// ---------------------------------------------------------------------------
// Naming what was resolved
// ---------------------------------------------------------------------------
/// Whether a path in the plain style is relative and both starts and ends with a
/// component that counts: not with a `/`, and not with a `.`.
pub open spec fn is_plain(p: Seq<char>) -> bool {
    &&& p.len() > 0
    &&& !is_rooted(false, p)
    &&& components(false, p)[0] != "."@
    &&& spans(false, p).last().1 == p.len()
}

spec fn moved(s: Seq<(int, int)>, by: int) -> Seq<(int, int)> {
    Seq::new(s.len(), |i: int| (s[i].0 + by, s[i].1 + by))
}

/// The components of a path in the plain style, from index `i` on.
spec fn plain_body(p: Seq<char>, i: int) -> Seq<(int, int)> {
    body_spans(Separators::Slash, p, 0, i)
}

proof fn lemma_spans_behind(whole: Seq<char>, p: Seq<char>, i: int)
    requires
        0 <= i <= p.len() < whole.len(),
        whole.skip(whole.len() - p.len()) == p,
        i > 0 || p.len() == 0 || p[0] != '.' || (p.len() > 1 && p[1] != '/'),
    ensures
        plain_body(whole, whole.len() - p.len() + i) == moved(
            plain_body(p, i),
            whole.len() - p.len(),
        ),
    decreases p.len() - i,
{
    let s = Separators::Slash;
    let o = whole.len() - p.len();
    if i < p.len() {
        assert forall|k: int| 0 <= k < p.len() implies whole[o + k] == #[trigger] p[k] by {
            assert(whole.skip(o)[k] == p[k]);
        }
        assert(whole[o + i] == p[i]);
        if parts_at(s, p[i]) {
            lemma_spans_behind(whole, p, i + 1);
        } else {
            lemma_part_end(s, p, i);
            lemma_part_end(s, p, i + 1);
            let j = part_end(s, p, i);
            if j < p.len() {
                assert(whole[o + j] == p[j]);
            }
            assert forall|k: int| o + i <= k < o + j implies !parts_at(s, #[trigger] whole[k]) by {
                assert(whole[o + (k - o)] == p[k - o]);
            }
            lemma_part_end_is(s, whole, o + i, o + j);
            lemma_spans_behind(whole, p, j);
            let rest = plain_body(p, j);
            assert(moved(seq![(i, j)] + rest, o) =~= seq![(o + i, o + j)] + moved(rest, o));
        }
    } else {
        assert(moved(plain_body(p, i), o) =~= seq![]);
    }
}

proof fn lemma_spans_before(whole: Seq<char>, d: Seq<char>, i: int)
    requires
        0 <= i <= d.len() < whole.len(),
        whole.take(d.len() as int) == d,
        whole[d.len() as int] == '/' || (d.len() > 0 && d.last() == '/'),
    ensures
        plain_body(whole, i) == plain_body(d, i) + plain_body(whole, d.len() as int),
    decreases d.len() - i,
{
    let s = Separators::Slash;
    if i < d.len() {
        assert forall|k: int| 0 <= k < d.len() implies whole[k] == #[trigger] d[k] by {
            assert(whole.take(d.len() as int)[k] == d[k]);
        }
        assert(whole[i] == d[i]);
        if parts_at(s, d[i]) {
            lemma_spans_before(whole, d, i + 1);
        } else {
            lemma_part_end(s, d, i);
            lemma_part_end(s, d, i + 1);
            let j = part_end(s, d, i);
            if j < d.len() {
                assert(whole[j] == d[j]);
            } else {
                assert(!parts_at(s, d[d.len() - 1]));
            }
            assert forall|k: int| i <= k < j implies !parts_at(s, #[trigger] whole[k]) by {
                assert(whole[k] == d[k]);
            }
            lemma_part_end_is(s, whole, i, j);
            lemma_spans_before(whole, d, j);
            let behind = plain_body(whole, d.len() as int);
            assert(seq![(i, j)] + (plain_body(d, j) + behind) =~= (seq![(i, j)] + plain_body(d, j))
                + behind);
        }
    } else {
        assert(plain_body(d, i) + plain_body(whole, i) =~= plain_body(whole, i));
    }
}

proof fn lemma_spans_fit(p: Seq<char>, i: int)
    requires
        0 <= i,
    ensures
        forall|k: int|
            0 <= k < plain_body(p, i).len() ==> 0 <= (#[trigger] plain_body(p, i)[k]).0
                <= plain_body(p, i)[k].1 <= p.len(),
    decreases p.len() - i,
{
    let s = Separators::Slash;
    if i < p.len() {
        if parts_at(s, p[i]) {
            lemma_spans_fit(p, i + 1);
            assert(plain_body(p, i) == plain_body(p, i + 1));
        } else {
            lemma_part_end(s, p, i);
            lemma_part_end(s, p, i + 1);
            let j = part_end(s, p, i);
            lemma_spans_fit(p, j);
            assert forall|k: int| 0 <= k < plain_body(p, i).len() implies 0 <= (
            #[trigger] plain_body(p, i)[k]).0 <= plain_body(p, i)[k].1 <= p.len() by {
                if !(j == i + 1 && p[i] == '.' && i > 0) && k > 0 {
                    assert(plain_body(p, i)[k] == plain_body(p, j)[k - 1]);
                }
            }
        }
    } else {
        assert(plain_body(p, i).len() == 0);
    }
}

#[verifier::spinoff_prover]
#[verifier::rlimit(40)]
proof fn lemma_joined_spans(d: Seq<char>, p: Seq<char>)
    requires
        is_plain(p),
    ensures
        ({
            let whole = join_path(false, d, p);
            &&& spans(false, whole) == spans(false, d) + moved(
                spans(false, p),
                whole.len() - p.len(),
            )
            &&& head_spans(false, whole) == head_spans(false, d)
            &&& whole.len() >= d.len() + p.len()
            &&& whole.take(d.len() as int) == d
            &&& whole.skip(whole.len() - p.len()) == p
            &&& spans(false, p)[0].0 == 0
        }),
{
    reveal_strlit("/");
    reveal_strlit(".");
    let s = Separators::Slash;
    let whole = join_path(false, d, p);
    let o = whole.len() - p.len();
    lemma_part_end(s, p, 0);
    lemma_part_end(s, p, 1);
    assert(head_spans(false, p) =~= seq![]);
    assert(spans(false, p) =~= plain_body(p, 0));
    assert(spans(false, p)[0] == (0int, part_end(s, p, 0)));
    assert(components(false, p)[0] == p.subrange(0, part_end(s, p, 0)));
    if p[0] == '.' && (p.len() == 1 || p[1] == '/') {
        lemma_part_end_is(s, p, 0, 1);
        assert(components(false, p)[0] =~= "."@);
    }
    assert(whole.take(d.len() as int) =~= d);
    assert(whole.skip(o) =~= p);
    if d.len() == 0 {
        assert(whole =~= p);
        assert(head_spans(false, d) =~= seq![]);
        assert(spans(false, d) =~= seq![]);
        assert(spans(false, d) + moved(spans(false, p), 0) =~= spans(false, p));
    } else {
        assert(whole[0] == whole.take(d.len() as int)[0]);
        lemma_spans_behind(whole, p, 0);
        lemma_spans_before(whole, d, body_start(false, d));
        if o > d.len() {
            assert(whole[d.len() as int] == '/');
            assert(plain_body(whole, d.len() as int) == plain_body(whole, o));
        }
        assert(head_spans(false, whole) =~= head_spans(false, d));
        assert(spans(false, whole) =~= spans(false, d) + moved(spans(false, p), o));
    }
}

/// In the plain style, what is seen of a path from a directory is what was joined to it.
pub proof fn lemma_below_joined(directory: Seq<char>, p: Seq<char>)
    requires
        is_plain(p),
    ensures
        below(false, join_path(false, directory, p), directory) == Some(p),
{
    let whole = join_path(false, directory, p);
    let o = whole.len() - p.len();
    let n = spans(false, directory).len() as int;
    let h = head_spans(false, directory).len() as int;
    lemma_joined_spans(directory, p);
    lemma_spans_fit(directory, body_start(false, directory));
    assert(spans(false, whole)[n] == (spans(false, p)[0].0 + o, spans(false, p)[0].1 + o));
    assert(spans(false, whole).last() == (
        spans(false, p).last().0 + o,
        spans(false, p).last().1 + o,
    ));
    assert forall|k: int| 0 <= k < n implies #[trigger] components(false, whole)[k] == components(
        false,
        directory,
    )[k] by {
        if k >= h {
            let (a, b) = spans(false, directory)[k];
            assert(spans(false, whole)[k] == (a, b));
            assert(spans(false, directory)[k] == plain_body(
                directory,
                body_start(false, directory),
            )[k - h]);
            assert(0 <= a <= b <= directory.len());
            assert(whole.subrange(a, b) =~= directory.subrange(a, b));
        }
    }
    assert(components(false, whole).take(n) =~= components(false, directory));
    assert(whole.subrange(o, whole.len() as int) =~= p);
    assert(below(false, whole, directory) == Some(p));
}

/// In the plain style, a file that a request names by a plain relative path is named by
/// that path in results, with `/` for `\`.
pub proof fn lemma_title_of_resolved(directory: Seq<char>, p: Seq<char>)
    requires
        is_plain(p),
    ensures
        title_of(false, directory, join_path(false, directory, p)) == replace_char(p, '\\', "/"@),
{
    lemma_below_joined(directory, p);
}

/// Joining in the plain style: an absolute path is itself wherever it is seen from, and any
/// other stands below the directory, behind one `/`.
pub proof fn lemma_joining(base: Seq<char>, p: Seq<char>)
    ensures
        p.len() > 0 && p[0] == '/' ==> join_path(false, base, p) == p,
        p.len() > 0 && p[0] != '/' && base.len() > 0 && base.last() != '/' ==> join_path(
            false,
            base,
            p,
        ) == base + seq!['/'] + p,
        p.len() > 0 && p[0] != '/' && base.len() > 0 && base.last() == '/' ==> join_path(
            false,
            base,
            p,
        ) == base + p,
        join_path(false, seq![], p) == p,
{
    reveal_strlit("/");
    assert("/"@ =~= seq!['/']);
    assert(base.take(0) + p =~= p);
    assert(Seq::<char>::empty() + p =~= p);
    assert(Seq::<char>::empty().take(0) + p =~= p);
}

/// Joining in the Windows style: a path with a drive and a root is itself, and any other
/// that has neither stands below the directory, behind one `\`.
pub proof fn lemma_joining_drives(base: Seq<char>, p: Seq<char>)
    ensures
        p.len() > 2 && is_letter(p[0]) && p[1] == ':' && (p[2] == '\\' || p[2] == '/')
            ==> is_rooted(true, p) && join_path(true, base, p) == p,
        p.len() > 1 && p[0] != '\\' && p[0] != '/' && p[1] != ':' && base.len() > 2 && is_letter(
            base[0],
        ) && base[1] == ':' && base.last() != '\\' && base.last() != '/' ==> join_path(
            true,
            base,
            p,
        ) == base + seq!['\\'] + p,
{
    reveal_strlit("\\");
    assert("\\"@ =~= seq!['\\']);
}

proof fn lemma_last_span_ends(p: Seq<char>, i: int)
    requires
        0 <= i < p.len(),
        p.last() != '/',
        p.last() != '.',
    ensures
        plain_body(p, i).len() > 0,
        plain_body(p, i).last().1 == p.len(),
    decreases p.len() - i,
{
    if p[i] == '/' {
        lemma_last_span_ends(p, i + 1);
    } else {
        let j = part_end(Separators::Slash, p, i);
        lemma_part_end(Separators::Slash, p, i);
        lemma_part_end(Separators::Slash, p, i + 1);
        if j < p.len() {
            lemma_last_span_ends(p, j);
        } else {
            assert(plain_body(p, j) =~= seq![]);
        }
    }
}

/// A file in a directory has that directory as its parent, and its own name.
pub proof fn lemma_file_is_in_its_directory(directory: Seq<char>, name: Seq<char>)
    requires
        directory.len() > 0,
        directory.last() != '/',
        directory.last() != '.',
        name.len() > 0,
        !name.contains('/'),
        name != "."@,
        name != ".."@,
    ensures
        parent_of(false, join_path(false, directory, name)) == Some(directory),
        file_name_of(false, join_path(false, directory, name)) == Some(name),
{
    reveal_strlit(".");
    let n = name.len() as int;
    assert(name[0] != '/');
    lemma_part_end_is(Separators::Slash, name, 0, n);
    assert(plain_body(name, n) =~= seq![]);
    assert(name.len() == 1 ==> name =~= seq![name[0]]);
    assert("."@ =~= seq!['.']);
    assert(plain_body(name, 0) =~= seq![(0int, n)]);
    assert(spans(false, name) =~= seq![(0int, n)]);
    assert(name.subrange(0, n) =~= name);
    assert(component_at(false, name, 0) == name);
    lemma_joined_spans(directory, name);
    let whole = join_path(false, directory, name);
    let d = spans(false, directory);
    let k = whole.len() - n;
    assert(spans(false, whole) =~= d.push((k, k + n)));
    if directory[0] == '/' {
        if directory.len() > 1 {
            lemma_last_span_ends(directory, 1);
        }
    } else {
        lemma_last_span_ends(directory, 0);
    }
    assert(d.last().1 == directory.len());
    assert(spans(false, whole)[d.len() - 1] == d[d.len() - 1]);
    let c = components(false, whole);
    assert(c.last() == component_at(false, whole, d.len() as int));
    assert(whole.subrange(k, k + n) =~= whole.skip(k));
    assert(head_spans(false, whole).len() <= d.len());
}

/// Every path lies below itself, with nothing left behind.
pub proof fn lemma_path_is_below_itself(windows: bool, p: Seq<char>)
    ensures
        lies_below(windows, p, p),
        below(windows, p, p) == Some(Seq::<char>::empty()),
{
    let c = components(windows, p);
    assert(c.take(c.len() as int) =~= c);
}

proof fn lemma_part_end_agrees(s: Separators, p: Seq<char>, q: Seq<char>, i: int)
    requires
        p.len() == q.len(),
        0 <= i <= p.len(),
        forall|k: int| i <= k < p.len() ==> p[k] == q[k],
    ensures
        part_end(s, p, i) == part_end(s, q, i),
    decreases p.len() - i,
{
    if i < p.len() && !parts_at(s, p[i]) {
        lemma_part_end_agrees(s, p, q, i + 1);
    }
}

proof fn lemma_spans_agree(s: Separators, p: Seq<char>, q: Seq<char>, first: int, i: int)
    requires
        p.len() == q.len(),
        0 <= i <= p.len(),
        forall|k: int| i <= k < p.len() ==> p[k] == q[k],
    ensures
        body_spans(s, p, first, i) == body_spans(s, q, first, i),
        forall|k: int|
            0 <= k < body_spans(s, p, first, i).len() ==> i <= (#[trigger] body_spans(
                s,
                p,
                first,
                i,
            )[k]).0 <= body_spans(s, p, first, i)[k].1 <= p.len(),
    decreases p.len() - i,
{
    if i < p.len() {
        if parts_at(s, p[i]) {
            lemma_spans_agree(s, p, q, first, i + 1);
        } else {
            lemma_part_end_agrees(s, p, q, i);
            let j = part_end(s, p, i);
            lemma_part_end(s, p, i);
            lemma_part_end(s, p, i + 1);
            assert(j > i);
            lemma_spans_agree(s, p, q, first, j);
        }
    }
}

/// In the Windows style the letter of a drive means the same in either case.
pub proof fn lemma_drives_in_either_case(small: char, rest: Seq<char>)
    requires
        'a' <= small <= 'z',
    ensures
        components(true, seq![small, ':'] + rest) == components(
            true,
            seq![(small as int - 32) as char, ':'] + rest,
        ),
{
    let big = (small as int - 32) as char;
    let p = seq![small, ':'] + rest;
    let q = seq![big, ':'] + rest;
    assert(is_letter(small) && is_letter(big));
    assert(prefix_end(true, p) == 2 && prefix_end(true, q) == 2);
    assert forall|k: int| 2 <= k < p.len() implies p[k] == q[k] by {
        assert(p[k] == rest[k - 2] && q[k] == rest[k - 2]);
    }
    let at = body_start(true, p);
    lemma_spans_agree(Separators::Both, p, q, 2, at);
    assert(spans(true, p) =~= spans(true, q));
    assert(normal_prefix(p.take(2)) =~= normal_prefix(q.take(2)));
    let n = spans(true, p).len();
    let h = head_spans(true, p).len();
    assert forall|i: int| 0 <= i < n implies component_at(true, p, i) == component_at(true, q, i) by {
        if i >= h {
            let (a, b) = spans(true, p)[i];
            assert(spans(true, p)[i] == body_spans(Separators::Both, p, 2, at)[i - h]);
            assert(p.subrange(a, b) =~= q.subrange(a, b));
        }
    }
    assert(components(true, p) =~= components(true, q));
}

/// In the Windows style a drive with a separator behind it leads to the same place
/// wherever it is seen from, and a drive with a name behind it does not; nor does a
/// separator without a drive.
pub proof fn lemma_drives_and_roots(letter: char, rest: Seq<char>)
    requires
        is_letter(letter),
    ensures
        is_rooted(true, seq![letter, ':', '\\'] + rest),
        is_rooted(true, seq![letter, ':', '/'] + rest),
        rest.len() > 0 && rest[0] != '\\' && rest[0] != '/' ==> !is_rooted(
            true,
            seq![letter, ':'] + rest,
        ),
        rest.len() > 0 && rest[0] != '\\' && rest[0] != '/' ==> !is_rooted(true, seq!['\\'] + rest),
        is_rooted(false, seq!['/'] + rest),
        rest.len() > 0 && rest[0] != '/' ==> !is_rooted(false, rest),
{
    let named = seq![letter, ':'] + rest;
    let bare = seq!['\\'] + rest;
    if rest.len() > 0 {
        assert(named[2] == rest[0]);
        assert(bare[1] == rest[0]);
    }
}

} // verus!
