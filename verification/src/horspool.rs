//! The Horspool-style skip-table scanner. A table indexed by byte value
//! gives, for the haystack byte under the pattern's last position, how far
//! the cursor may advance after a mismatch.
//!
//! The table is the classic Horspool construction extended to wildcards:
//! the default skip is the whole pattern length, reduced to reach the
//! rightmost wildcard before the last position if one exists, and each
//! byte occurring concretely before the last position gets the distance
//! from its rightmost such occurrence to the last position. For patterns
//! where every such byte occurs at or right of the rightmost wildcard
//! ([`skip_sound`], e.g. any wildcard-free pattern), the scan reports
//! exactly the greedy non-overlapping match sequence; a concrete
//! occurrence left of a wildcard can make the table step over an
//! alignment that the wildcard would have admitted, so there the scan
//! promises true, ordered, non-overlapping matches but not all of them.

use vstd::prelude::*;

use crate::pattern::first_match;
use crate::pattern::matches_at;
use crate::pattern::mb_matches;
use crate::pattern::MaskedByte;
use crate::pattern::Pattern;

verus! {

/// The rightmost wildcard position strictly before `n`, or `None`.
pub open spec fn last_wild_before(p: Seq<MaskedByte>, n: int) -> Option<int>
    decreases n,
{
    if n <= 0 {
        None
    } else if p[n - 1].0 is None {
        Some(n - 1)
    } else {
        last_wild_before(p, n - 1)
    }
}

/// The rightmost position strictly before `n` holding the concrete byte
/// `b`, or `None`.
pub open spec fn last_concrete_before(p: Seq<MaskedByte>, n: int, b: u8) -> Option<int>
    decreases n,
{
    if n <= 0 {
        None
    } else if p[n - 1].0 == Some(b) {
        Some(n - 1)
    } else {
        last_concrete_before(p, n - 1, b)
    }
}

/// The table's default entry: the whole pattern length, or the distance
/// from the rightmost wildcard before the last position to the last
/// position if such a wildcard exists.
pub open spec fn max_skip_spec(p: Seq<MaskedByte>) -> int {
    match last_wild_before(p, p.len() - 1) {
        Some(w) => p.len() - 1 - w,
        None => p.len() as int,
    }
}

/// The table entry for byte `b`: the distance from the rightmost
/// concrete occurrence of `b` before the last position to the last
/// position, or the default when `b` has no such occurrence.
pub open spec fn skip_spec(p: Seq<MaskedByte>, b: u8) -> int {
    match last_concrete_before(p, p.len() - 1, b) {
        Some(c) => p.len() - 1 - c,
        None => max_skip_spec(p),
    }
}

/// The table never steps over a possible alignment: whenever a position
/// before the last one admits the byte `b` (concretely or as a wildcard),
/// the skip for `b` stops at or before that alignment. Wildcard-free
/// patterns always satisfy this.
pub open spec fn skip_sound(p: Seq<MaskedByte>) -> bool {
    forall|q: int, b: u8|
        0 <= q < p.len() - 1 && mb_matches(p[q], b) ==> skip_spec(p, b) <= p.len() - 1 - q
}

/// The classic Horspool case: a pattern whose positions before the last
/// one are all concrete (a wildcard may still stand at the last
/// position) always has a sound table, so the scan is exhaustive on it.
pub proof fn lemma_concrete_prefix_skip_sound(p: Seq<MaskedByte>)
    requires
        p.len() >= 1,
        forall|k: int| 0 <= k < p.len() - 1 ==> p[k].0 is Some,
    ensures
        skip_sound(p),
{
    assert forall|q: int, b: u8|
        0 <= q < p.len() - 1 && mb_matches(p[q], b) implies skip_spec(p, b) <= p.len() - 1
        - q by {
        assert(p[q].0 is Some);
        assert(p[q].0 == Some(b));
        // The rightmost concrete occurrence of b before the last
        // position stands at or right of q.
        lemma_last_concrete_range(p, p.len() - 1, b);
    }
}

/// Every table entry is at least 1 (the scan always advances) and at
/// most the pattern length (the cursor never runs past the haystack).
proof fn lemma_skip_spec_bounds(p: Seq<MaskedByte>, b: u8)
    requires
        p.len() >= 1,
    ensures
        1 <= skip_spec(p, b) <= p.len(),
{
    lemma_last_wild_range(p, p.len() - 1);
    lemma_last_concrete_range(p, p.len() - 1, b);
}

proof fn lemma_last_wild_range(p: Seq<MaskedByte>, n: int)
    ensures
        match last_wild_before(p, n) {
            Some(w) => 0 <= w < n && p[w].0 is None && forall|q: int|
                w < q < n ==> !(p[q].0 is None),
            None => forall|q: int| 0 <= q < n ==> !(p[q].0 is None),
        },
    decreases n,
{
    if n > 0 && !(p[n - 1].0 is None) {
        lemma_last_wild_range(p, n - 1);
    }
}

proof fn lemma_last_concrete_range(p: Seq<MaskedByte>, n: int, b: u8)
    ensures
        match last_concrete_before(p, n, b) {
            Some(c) => 0 <= c < n && p[c].0 == Some(b) && forall|q: int|
                c < q < n ==> p[q].0 != Some(b),
            None => forall|q: int| 0 <= q < n ==> p[q].0 != Some(b),
        },
    decreases n,
{
    if n > 0 && p[n - 1].0 != Some(b) {
        lemma_last_concrete_before_step(p, n, b);
        lemma_last_concrete_range(p, n - 1, b);
    }
}

proof fn lemma_last_concrete_before_step(p: Seq<MaskedByte>, n: int, b: u8)
    requires
        n > 0,
        p[n - 1].0 != Some(b),
    ensures
        last_concrete_before(p, n, b) == last_concrete_before(p, n - 1, b),
{
}

/// Under [`skip_sound`], advancing the cursor by the table entry for the
/// haystack byte under the pattern's last position steps over mismatching
/// windows only.
proof fn lemma_skip_no_match(p: Seq<MaskedByte>, d: Seq<u8>, i: int, b: u8)
    requires
        p.len() >= 1,
        skip_sound(p),
        0 <= i,
        i + p.len() <= d.len(),
        !matches_at(p, d, i),
        b == d[i + p.len() - 1],
    ensures
        forall|t: int| i <= t < i + skip_spec(p, b) ==> !matches_at(p, d, t),
{
    let s = skip_spec(p, b);
    lemma_skip_spec_bounds(p, b);
    assert forall|t: int| i <= t < i + s implies !matches_at(p, d, t) by {
        if t > i && matches_at(p, d, t) {
            // A match at t aligns pattern position q with the trailing
            // haystack byte b, so the table entry for b would have
            // stopped at or before t.
            let q = i + p.len() - 1 - t;
            assert(0 <= q < p.len() - 1);
            assert(mb_matches(p[q], d[t + q]));
            assert(d[t + q] == b);
            assert(skip_spec(p, b) <= p.len() - 1 - q);
        }
    }
}

/// Builds the skip table: 256 entries, one per byte value, each equal to
/// [`skip_spec`] for that byte.
pub fn build_skip_table(pattern: &Pattern) -> (t: Vec<usize>)
    requires
        pattern.0@.len() >= 1,
    ensures
        t@.len() == 256,
        forall|b: int| 0 <= b < 256 ==> t@[b] == skip_spec(pattern.0@, b as u8),
{
    let ghost p = pattern.0@;
    let last_index = pattern.0.len() - 1;
    let mut max_skip = pattern.0.len();
    let mut i: usize = 0;
    while i < last_index
        invariant
            p == pattern.0@,
            0 <= i <= last_index,
            last_index == p.len() - 1,
            max_skip == match last_wild_before(p, i as int) {
                Some(w) => p.len() - 1 - w,
                None => p.len() as int,
            },
        decreases last_index - i,
    {
        if pattern.0[i].0.is_none() {
            max_skip = last_index - i;
        }
        i += 1;
    }
    let mut table: Vec<usize> = vec![max_skip; 256];
    let mut i: usize = 0;
    while i < last_index
        invariant
            p == pattern.0@,
            0 <= i <= last_index,
            last_index == p.len() - 1,
            table@.len() == 256,
            max_skip == max_skip_spec(p),
            forall|b: int| 0 <= b < 256 ==> table@[b] == match last_concrete_before(
                p,
                i as int,
                b as u8,
            ) {
                Some(c) => p.len() - 1 - c,
                None => max_skip_spec(p),
            },
        decreases last_index - i,
    {
        if let Some(byte) = pattern.0[i].0 {
            table[byte as usize] = last_index - i;
        }
        i += 1;
    }
    table
}

/// A pull-based skip-table scan over a borrowed pattern and haystack.
/// The table is built once per scanner and dropped with it.
pub struct Horspool<'a> {
    pattern: &'a Pattern,
    data: &'a [u8],
    skip_table: Vec<usize>,
    index: usize,
}

impl<'a> Horspool<'a> {
    /// The pattern being searched for.
    pub closed spec fn pat(self) -> Seq<MaskedByte> {
        self.pattern.0@
    }

    /// The haystack being searched.
    pub closed spec fn hay(self) -> Seq<u8> {
        self.data@
    }

    /// The cursor: the offset at which the scan resumes.
    pub closed spec fn pos(self) -> int {
        self.index as int
    }

    /// The scanner is usable: the pattern is non-empty and the cached
    /// table holds exactly the skip distances of [`skip_spec`].
    pub closed spec fn wf(self) -> bool {
        &&& self.pattern.0@.len() >= 1
        &&& self.skip_table@.len() == 256
        &&& forall|b: int|
            0 <= b < 256 ==> self.skip_table@[b] == skip_spec(self.pattern.0@, b as u8)
    }

    /// A fresh scan over `data`, starting at offset 0, with its skip
    /// table built from the pattern.
    pub fn new(pattern: &'a Pattern, data: &'a [u8]) -> (s: Self)
        requires
            pattern.0@.len() >= 1,
        ensures
            s.wf(),
            s.pat() == pattern.0@,
            s.hay() == data@,
            s.pos() == 0,
    {
        Horspool { pattern, data, skip_table: build_skip_table(pattern), index: 0 }
    }

    /// The next match the scan settles on, or `None` when it exhausts the
    /// haystack. Every reported offset is a true match at or after the
    /// cursor, and the cursor resumes a whole pattern length after a
    /// match, so reported matches never overlap.
    ///
    /// When the table is [`skip_sound`] for the pattern — any
    /// wildcard-free pattern qualifies — the scan is also exhaustive: it
    /// reports exactly the greedy non-overlapping match sequence.
    pub fn next(&mut self) -> (r: Option<usize>)
        requires
            old(self).wf(),
        ensures
            final(self).wf(),
            final(self).pat() == old(self).pat(),
            final(self).hay() == old(self).hay(),
            old(self).pos() <= final(self).pos(),
            match r {
                Some(j) => old(self).pos() <= j && matches_at(
                    old(self).pat(),
                    old(self).hay(),
                    j as int,
                ) && final(self).pos() == j + old(self).pat().len(),
                None => first_match(old(self).pat(), old(self).hay(), final(self).pos()) is None,
            },
            skip_sound(old(self).pat()) ==> match first_match(
                old(self).pat(),
                old(self).hay(),
                old(self).pos(),
            ) {
                Some(j) => r == Some(j as usize) && final(self).pos() == j + old(self).pat().len(),
                None => r is None,
            },
    {
        let ghost p = self.pattern.0@;
        let ghost d = self.data@;
        let m = self.pattern.0.len();
        let n = self.data.len();
        if m > n || self.index > n - m {
            return None;
        }
        while self.index <= n - m
            invariant
                self.wf(),
                self.pattern == old(self).pattern,
                self.data == old(self).data,
                self.skip_table@ == old(self).skip_table@,
                p == self.pat(),
                d == self.hay(),
                m == p.len(),
                n == d.len(),
                1 <= m <= n,
                old(self).pos() <= self.pos(),
                self.index <= n,
                skip_sound(p) ==> first_match(p, d, old(self).pos()) == first_match(
                    p,
                    d,
                    self.pos(),
                ),
            decreases n - self.index,
        {
            if self.pattern.matches_window(self.data, self.index) {
                let found = self.index;
                self.index = found + m;
                return Some(found);
            }
            let trailing = self.data[self.index + (m - 1)];
            let skip = self.skip_table[trailing as usize];
            proof {
                lemma_skip_spec_bounds(p, trailing);
                if skip_sound(p) {
                    lemma_skip_no_match(p, d, self.index as int, trailing);
                    crate::pattern::lemma_first_match_advance(
                        p,
                        d,
                        self.index as int,
                        self.index + skip,
                    );
                }
            }
            self.index += skip;
        }
        None
    }
}

impl<'a> crate::Searcher<'a> for Horspool<'a> {
    open spec fn pat(&self) -> Seq<MaskedByte> {
        Horspool::pat(*self)
    }

    open spec fn hay(&self) -> Seq<u8> {
        Horspool::hay(*self)
    }

    open spec fn pos(&self) -> int {
        Horspool::pos(*self)
    }

    open spec fn wf(&self) -> bool {
        Horspool::wf(*self)
    }

    /// The skip-table scan reports every match when the table is sound
    /// for the pattern; see [`skip_sound`].
    open spec fn exhaustive(&self) -> bool {
        skip_sound(Horspool::pat(*self))
    }

    fn new(pattern: &'a Pattern, data: &'a [u8]) -> (s: Self) {
        Horspool::new(pattern, data)
    }

    fn next(&mut self) -> (r: Option<usize>) {
        Horspool::next(self)
    }
}

} // verus!
