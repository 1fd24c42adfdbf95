//! A time limit that ends a search early with what it has found.

use crate::error::Error;
use vstd::prelude::*;

verus! {

/// How long a search may take where it is not told, in milliseconds.
pub const DEFAULT_SEARCH_TIMEOUT_MS: i64 = 10_000;

/// A time limit. Times are milliseconds of one clock.
#[derive(Debug)]
pub struct SoftTimeout {
    deadline: Option<u64>,
    timed_out: bool,
}

/// The time at which a search that starts at `now` is to end; `-1` sets no end,
/// and no other negative limit is one.
pub open spec fn deadline_of(timeout: Option<i64>, now: u64) -> Result<Option<int>, Seq<char>> {
    let limit = match timeout {
        Some(t) => t,
        None => DEFAULT_SEARCH_TIMEOUT_MS,
    };
    if limit == -1 {
        Ok(None)
    } else if limit < -1 {
        Err("timeout must be -1 or non-negative"@)
    } else {
        Ok(Some(now + limit))
    }
}

/// Whether a deadline has come.
pub open spec fn is_past(deadline: Option<int>, now: u64) -> bool {
    match deadline {
        Some(d) => now >= d,
        None => false,
    }
}

impl SoftTimeout {
    pub closed spec fn deadline(self) -> Option<int> {
        match self.deadline {
            Some(d) => Some(d as int),
            None => None,
        }
    }

    pub closed spec fn ran_out(self) -> bool {
        self.timed_out
    }

    /// A time limit of `timeout` milliseconds from `now` on.
    pub fn from_millis(timeout: Option<i64>, now: u64) -> (r: Result<SoftTimeout, Error>)
        requires
            now <= i64::MAX,
        ensures
            match r {
                Ok(t) => deadline_of(timeout, now) == Ok::<Option<int>, Seq<char>>(t.deadline())
                    && !t.ran_out(),
                Err(e) => deadline_of(timeout, now) == Err::<Option<int>, Seq<char>>(e@),
            },
    {
        let limit: i64 = match timeout {
            Some(t) => t,
            None => DEFAULT_SEARCH_TIMEOUT_MS,
        };
        if limit == -1 {
            Ok(SoftTimeout { deadline: None, timed_out: false })
        } else if limit < -1 {
            Err(Error::of("timeout must be -1 or non-negative"))
        } else {
            Ok(SoftTimeout { deadline: Some(now + limit as u64), timed_out: false })
        }
    }

    /// Whether the time is up at `now`. Once it was, that is not forgotten.
    pub fn expired(&mut self, now: u64) -> (r: bool)
        ensures
            r == is_past(old(self).deadline(), now),
            final(self).deadline() == old(self).deadline(),
            final(self).ran_out() == (old(self).ran_out() || r),
    {
        match self.deadline {
            Some(deadline) => {
                if now >= deadline {
                    self.timed_out = true;
                    return true;
                }
                false
            },
            None => false,
        }
    }

    /// Whether the time ever was up when it was asked for.
    pub fn timed_out(&self) -> (r: bool)
        ensures
            r == self.ran_out(),
    {
        self.timed_out
    }
}

/// A search ends ten seconds after it started where it is not told, otherwise after the
/// limit, never where that is `-1`; any other negative limit is refused.
pub proof fn lemma_searches_end(timeout: Option<i64>, now: u64, later: u64)
    ensures
        timeout is None ==> deadline_of(timeout, now) == Ok::<Option<int>, Seq<char>>(
            Some(now + 10_000),
        ),
        timeout matches Some(ms) ==> (deadline_of(timeout, now) is Err <==> ms < -1),
        timeout matches Some(ms) ==> (ms >= 0 ==> deadline_of(timeout, now) is Ok && (is_past(
            deadline_of(timeout, now)->Ok_0,
            later,
        ) <==> later - now >= ms)),
        timeout == Some(-1i64) ==> deadline_of(timeout, now) is Ok && !is_past(
            deadline_of(timeout, now)->Ok_0,
            later,
        ),
{
}

} // verus!
