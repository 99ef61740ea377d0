//! Byte-pattern scanning: find every non-overlapping occurrence of a masked
//! byte pattern (concrete bytes and wildcards) in a haystack of raw bytes.
//!
//! The pattern model lives in [`pattern`]; three interchangeable scanners
//! report true, strictly advancing, non-overlapping match offsets: a
//! naive scan ([`naive_search`]), a Horspool-style skip-table scan
//! ([`horspool`]), and a first-concrete-byte accelerated scan
//! ([`memchr`]). The naive scan always reports the whole greedy
//! non-overlapping match sequence; the two fast scans report exactly the
//! same sequence on the patterns for which they are exhaustive (see
//! [`Searcher::exhaustive`] and the module docs), and may trade matches
//! away for speed outside that.

use vstd::prelude::*;

pub mod horspool;
pub mod memchr;
pub mod naive_search;
pub mod pattern;

pub use horspool::Horspool;
pub use memchr::Memchr;
pub use naive_search::NaiveSearch;
pub use pattern::MaskedByte;
pub use pattern::ParseError;
pub use pattern::Pattern;

verus! {

use crate::pattern::first_concrete;
use crate::pattern::first_match;
use crate::pattern::has_concrete;
use crate::pattern::matches_at;

/// One common capability that the interchangeable scanners satisfy: a
/// pull-based producer of non-overlapping match start offsets over a
/// borrowed pattern and haystack.
///
/// Every implementation reports true, strictly advancing, non-overlapping
/// matches; an implementation whose [`Searcher::exhaustive`] predicate
/// holds for the pattern reports exactly the greedy non-overlapping match
/// sequence, so any two such implementations emit identical offsets.
pub trait Searcher<'a>: Sized {
    /// The pattern being searched for.
    spec fn pat(&self) -> Seq<MaskedByte>;

    /// The haystack being searched.
    spec fn hay(&self) -> Seq<u8>;

    /// The cursor: the offset at which the scan resumes.
    spec fn pos(&self) -> int;

    /// The scanner's internal state is usable.
    spec fn wf(&self) -> bool;

    /// The scanner reports every match of this pattern, not only some.
    spec fn exhaustive(&self) -> bool;

    /// A fresh scan over `data`, starting at offset 0.
    fn new(pattern: &'a Pattern, data: &'a [u8]) -> (s: Self)
        requires
            pattern.0@.len() >= 1,
            has_concrete(pattern.0@),
        ensures
            s.wf(),
            s.pat() == pattern.0@,
            s.hay() == data@,
            s.pos() == 0,
    ;

    /// The next reported match, or `None` when the scan gives up on the
    /// rest of the haystack.
    fn next(&mut self) -> (r: Option<usize>)
        requires
            old(self).wf(),
        ensures
            final(self).wf(),
            final(self).pat() == old(self).pat(),
            final(self).hay() == old(self).hay(),
            final(self).exhaustive() == old(self).exhaustive(),
            old(self).pos() <= final(self).pos(),
            match r {
                Some(j) => old(self).pos() <= j && matches_at(
                    old(self).pat(),
                    old(self).hay(),
                    j as int,
                ) && final(self).pos() == j + old(self).pat().len(),
                None => first_match(old(self).pat(), old(self).hay(), final(self).pos()) is None,
            },
            old(self).exhaustive() ==> match first_match(
                old(self).pat(),
                old(self).hay(),
                old(self).pos(),
            ) {
                Some(j) => r == Some(j as usize) && final(self).pos() == j + old(self).pat().len(),
                None => r is None,
            },
    ;
}

/// The default match sequence: the accelerated scanner behind a name
/// that says what it produces rather than how.
pub struct Matches<'a> {
    inner: Memchr<'a>,
}

impl<'a> Matches<'a> {
    /// The pattern being searched for.
    pub closed spec fn pat(self) -> Seq<MaskedByte> {
        self.inner.pat()
    }

    /// The haystack being searched.
    pub closed spec fn hay(self) -> Seq<u8> {
        self.inner.hay()
    }

    /// The cursor: the offset at which the scan resumes.
    pub closed spec fn pos(self) -> int {
        self.inner.pos()
    }

    /// The scanner is usable.
    pub closed spec fn wf(self) -> bool {
        self.inner.wf()
    }

    /// A fresh scan over `data`, starting at offset 0. The pattern must
    /// hold a concrete byte to accelerate on.
    pub fn new(pattern: &'a Pattern, data: &'a [u8]) -> (s: Self)
        requires
            pattern.0@.len() >= 1,
            has_concrete(pattern.0@),
        ensures
            s.wf(),
            s.pat() == pattern.0@,
            s.hay() == data@,
            s.pos() == 0,
    {
        Matches { inner: Memchr::new(pattern, data) }
    }

    /// The next reported match; see [`Memchr::next`] for the exact
    /// promises, including exhaustiveness for patterns whose first
    /// position is concrete.
    pub fn next(&mut self) -> (r: Option<usize>)
        requires
            old(self).wf(),
        ensures
            final(self).wf(),
            final(self).pat() == old(self).pat(),
            final(self).hay() == old(self).hay(),
            old(self).pos() <= final(self).pos(),
            match r {
                Some(j) => old(self).pos() <= j && matches_at(
                    old(self).pat(),
                    old(self).hay(),
                    j as int,
                ) && final(self).pos() == j + old(self).pat().len(),
                None => first_match(old(self).pat(), old(self).hay(), final(self).pos()) is None,
            },
            first_concrete(old(self).pat(), 0) == Some(0int) ==> match first_match(
                old(self).pat(),
                old(self).hay(),
                old(self).pos(),
            ) {
                Some(j) => r == Some(j as usize) && final(self).pos() == j + old(self).pat().len(),
                None => r is None,
            },
    {
        self.inner.next()
    }
}

impl Pattern {
    /// The default scan: the accelerated scanner over `data`.
    pub fn matches<'a>(&'a self, data: &'a [u8]) -> (m: Matches<'a>)
        requires
            self.0@.len() >= 1,
            has_concrete(self.0@),
        ensures
            m.wf(),
            m.pat() == self.0@,
            m.hay() == data@,
            m.pos() == 0,
    {
        Matches::new(self, data)
    }

    /// A scan with an explicitly chosen scanner strategy.
    pub fn matches_with_searcher<'a, S: Searcher<'a>>(&'a self, data: &'a [u8]) -> (s: S)
        requires
            self.0@.len() >= 1,
            has_concrete(self.0@),
        ensures
            s.wf(),
            s.pat() == self.0@,
            s.hay() == data@,
            s.pos() == 0,
    {
        S::new(self, data)
    }
}

} // verus!
