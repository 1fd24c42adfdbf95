//! Sets of glob patterns, kept by `globset`.

use crate::error::Error;
use crate::paths::{below, strip_prefix};
use crate::text::{chars_of, views};
use vstd::prelude::*;

verus! {

#[verifier::external_type_specification]
#[verifier::external_body]
pub struct ExGlobSet(globset::GlobSet);

#[verifier::external_type_specification]
#[verifier::external_body]
pub struct ExGlobSetBuilder(globset::GlobSetBuilder);

/// The patterns of a set.
pub uninterp spec fn set_patterns(set: globset::GlobSet) -> Seq<Seq<char>>;

/// The patterns that a set is going to have.
pub uninterp spec fn builder_patterns(builder: globset::GlobSetBuilder) -> Seq<Seq<char>>;

/// The complaint of `globset` about a text that is no glob pattern.
pub uninterp spec fn pattern_fault(pattern: Seq<char>) -> Option<Seq<char>>;

/// Whether `globset` makes no set of patterns that are each a glob.
pub uninterp spec fn patterns_refused(patterns: Seq<Seq<char>>) -> bool;

/// The complaint of `globset` about a glob that makes no set of its own.
pub uninterp spec fn lone_complaint(pattern: Seq<char>) -> Seq<char>;

/// Whether a glob pattern matches a path.
pub uninterp spec fn pattern_matches(pattern: Seq<char>, path: Seq<char>) -> bool;

/// `globset::GlobSetBuilder::new`: a builder without patterns.
#[verifier::external_body]
fn new_builder() -> (r: globset::GlobSetBuilder)
    ensures
        builder_patterns(r) == Seq::<Seq<char>>::empty(),
{
    globset::GlobSetBuilder::new()
}

/// `globset::Glob::new` and `globset::GlobSetBuilder::add`: a text that is a
/// glob pattern goes behind the patterns that the builder has; any other is
/// refused with the complaint of `globset` and changes nothing.
#[verifier::external_body]
fn add_pattern(builder: &mut globset::GlobSetBuilder, pattern: &str) -> (r: Result<(), String>)
    ensures
        match r {
            Ok(_) => pattern_fault(pattern@) is None && builder_patterns(*final(builder))
                == builder_patterns(*old(builder)).push(pattern@),
            Err(m) => pattern_fault(pattern@) == Some(m@) && builder_patterns(*final(builder))
                == builder_patterns(*old(builder)),
        },
{
    match globset::Glob::new(pattern) {
        Ok(glob) => {
            builder.add(glob);
            Ok(())
        },
        Err(err) => Err(err.to_string()),
    }
}

/// `globset::GlobSetBuilder::build`: the set of the builder's patterns, or a
/// complaint of `globset`. There is always a set of no patterns. The complaint
/// about a lone pattern is a function of it. Which of several patterns a complaint
/// is about is left unsaid: `globset` walks a hash map of them and stops at the
/// first that it cannot take.
#[verifier::external_body]
fn build_set(builder: &globset::GlobSetBuilder) -> (r: Result<globset::GlobSet, String>)
    ensures
        match r {
            Ok(set) => !patterns_refused(builder_patterns(*builder)) && set_patterns(set)
                == builder_patterns(*builder),
            Err(m) => patterns_refused(builder_patterns(*builder)) && builder_patterns(
                *builder,
            ).len() > 0 && (builder_patterns(*builder).len() == 1 ==> m@ == lone_complaint(
                builder_patterns(*builder)[0],
            )),
        },
{
    builder.build().map_err(|err| err.to_string())
}

/// `globset::GlobSet::is_match`: whether a pattern of the set matches the path.
#[verifier::external_body]
fn set_matches(set: &globset::GlobSet, path: &str) -> (r: bool)
    ensures
        r == (exists|i: int|
            0 <= i < set_patterns(*set).len() && pattern_matches(
                #[trigger] set_patterns(*set)[i],
                path@,
            )),
{
    set.is_match(path)
}

pub open spec fn some_pattern_matches(patterns: Seq<Seq<char>>, path: Seq<char>) -> bool {
    exists|i: int| 0 <= i < patterns.len() && pattern_matches(#[trigger] patterns[i], path)
}

/// The first complaint about a pattern that is no glob, from index `i` on.
pub open spec fn first_pattern_fault(patterns: Seq<Seq<char>>, i: int) -> Option<Seq<char>>
    decreases patterns.len() - i,
{
    if i >= patterns.len() {
        None
    } else {
        match pattern_fault(patterns[i]) {
            Some(m) => Some(m),
            None => first_pattern_fault(patterns, i + 1),
        }
    }
}

/// Whether the patterns make a set: each is a glob, and `globset` takes them
/// together.
pub open spec fn make_a_set(patterns: Seq<Seq<char>>) -> bool {
    first_pattern_fault(patterns, 0) is None && !patterns_refused(patterns)
}

/// Whether `m` says why the patterns make no set. It is the complaint about the
/// first of them that is no glob; where each is one, it is the complaint about a
/// lone pattern, and some complaint about several.
pub open spec fn says_why_no_set(patterns: Seq<Seq<char>>, m: Seq<char>) -> bool {
    match first_pattern_fault(patterns, 0) {
        Some(fault) => m == fault,
        None => patterns_refused(patterns) && patterns.len() > 0 && (patterns.len() == 1 ==> m
            == lone_complaint(patterns[0])),
    }
}

/// Makes a set of patterns.
pub fn build_globset(globs: &[String]) -> (r: Result<globset::GlobSet, Error>)
    ensures
        match r {
            Ok(set) => make_a_set(views(globs@)) && set_patterns(set) == views(globs@),
            Err(e) => says_why_no_set(views(globs@), e@),
        },
        r is Ok <==> make_a_set(views(globs@)),
{
    let ghost all = views(globs@);
    let mut builder = new_builder();
    let mut i: usize = 0;
    proof {
        assert(all.take(0) =~= seq![]);
    }
    while i < globs.len()
        invariant
            i <= globs@.len(),
            all == views(globs@),
            builder_patterns(builder) == all.take(i as int),
            first_pattern_fault(all, 0) == first_pattern_fault(all, i as int),
        decreases globs@.len() - i,
    {
        proof {
            assert(all.take(i + 1) =~= all.take(i as int).push(globs@[i as int]@));
        }
        match add_pattern(&mut builder, globs[i].as_str()) {
            Ok(_) => {},
            Err(m) => {
                return Err(Error::new(m));
            },
        }
        i = i + 1;
    }
    proof {
        assert(all.take(all.len() as int) =~= all);
    }
    match build_set(&builder) {
        Ok(set) => Ok(set),
        Err(m) => Err(Error::new(m)),
    }
}

/// A file is found by its path below `root`, or by its whole path.
pub open spec fn found_below(
    windows: bool,
    patterns: Seq<Seq<char>>,
    root: Seq<char>,
    path: Seq<char>,
) -> bool {
    let relative = match below(windows, path, root) {
        Some(rest) => rest,
        None => path,
    };
    some_pattern_matches(patterns, relative) || some_pattern_matches(patterns, path)
}

/// Whether a set finds the file at `path`, seen from `root`.
pub fn finds(windows: bool, set: &globset::GlobSet, root: &str, path: &str) -> (r: bool)
    ensures
        r == found_below(windows, set_patterns(*set), root@, path@),
{
    let p = chars_of(path);
    let base = chars_of(root);
    match strip_prefix(windows, p.as_slice(), base.as_slice()) {
        Some(rest) => set_matches(set, rest.as_str()) || set_matches(set, path),
        None => set_matches(set, path),
    }
}

} // verus!
