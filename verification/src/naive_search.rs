//! The naive scanner: the correctness baseline. It tests every window and
//! advances by one on a mismatch and by the whole pattern length on a match.

use vstd::prelude::*;

use crate::pattern::first_match;
use crate::pattern::MaskedByte;
use crate::pattern::Pattern;

verus! {

/// A pull-based scan over a borrowed pattern and haystack. Each call of
/// [`NaiveSearch::next`] runs until it finds the next match or exhausts
/// the haystack.
pub struct NaiveSearch<'a> {
    pattern: &'a Pattern,
    data: &'a [u8],
    index: usize,
}

impl<'a> NaiveSearch<'a> {
    /// The pattern being searched for.
    pub closed spec fn pat(self) -> Seq<MaskedByte> {
        self.pattern.0@
    }

    /// The haystack being searched.
    pub closed spec fn hay(self) -> Seq<u8> {
        self.data@
    }

    /// The cursor: the offset at which the scan resumes.
    pub closed spec fn pos(self) -> int {
        self.index as int
    }

    /// The scanner is usable: the pattern is non-empty.
    pub closed spec fn wf(self) -> bool {
        self.pattern.0@.len() >= 1
    }

    /// A fresh scan over `data`, starting at offset 0.
    pub fn new(pattern: &'a Pattern, data: &'a [u8]) -> (s: Self)
        requires
            pattern.0@.len() >= 1,
        ensures
            s.wf(),
            s.pat() == pattern.0@,
            s.hay() == data@,
            s.pos() == 0,
    {
        NaiveSearch { pattern, data, index: 0 }
    }

    /// The next match at or after the cursor, or `None` when the rest of
    /// the haystack holds no match. On a match the cursor resumes a whole
    /// pattern length further, so reported matches never overlap.
    pub fn next(&mut self) -> (r: Option<usize>)
        requires
            old(self).wf(),
        ensures
            final(self).wf(),
            final(self).pat() == old(self).pat(),
            final(self).hay() == old(self).hay(),
            old(self).pos() <= final(self).pos(),
            match first_match(old(self).pat(), old(self).hay(), old(self).pos()) {
                Some(j) => r == Some(j as usize) && final(self).pos() == j + old(self).pat().len(),
                None => r is None && first_match(
                    old(self).pat(),
                    old(self).hay(),
                    final(self).pos(),
                ) is None,
            },
    {
        let m = self.pattern.0.len();
        let n = self.data.len();
        if m > n || self.index > n - m {
            return None;
        }
        while self.index <= n - m
            invariant
                self.wf(),
                self.pattern == old(self).pattern,
                self.data == old(self).data,
                m == self.pat().len(),
                n == self.hay().len(),
                1 <= m <= n,
                old(self).pos() <= self.pos(),
                self.index <= n,
                first_match(self.pat(), self.hay(), old(self).pos()) == first_match(
                    self.pat(),
                    self.hay(),
                    self.pos(),
                ),
            decreases n - self.index,
        {
            if self.pattern.matches_window(self.data, self.index) {
                let found = self.index;
                self.index = found + m;
                return Some(found);
            }
            self.index += 1;
        }
        None
    }
}

impl<'a> crate::Searcher<'a> for NaiveSearch<'a> {
    open spec fn pat(&self) -> Seq<MaskedByte> {
        NaiveSearch::pat(*self)
    }

    open spec fn hay(&self) -> Seq<u8> {
        NaiveSearch::hay(*self)
    }

    open spec fn pos(&self) -> int {
        NaiveSearch::pos(*self)
    }

    open spec fn wf(&self) -> bool {
        NaiveSearch::wf(*self)
    }

    /// The naive scan tests every window, so it never skips a match.
    open spec fn exhaustive(&self) -> bool {
        true
    }

    fn new(pattern: &'a Pattern, data: &'a [u8]) -> (s: Self) {
        NaiveSearch::new(pattern, data)
    }

    fn next(&mut self) -> (r: Option<usize>) {
        let ghost p = self.pattern.0@;
        let ghost d = self.data@;
        let ghost i = self.index as int;
        let r = NaiveSearch::next(self);
        proof {
            crate::pattern::lemma_first_match_least(p, d, i);
        }
        r
    }
}

} // verus!
