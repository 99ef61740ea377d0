//! The first-concrete-byte accelerated scanner. A single-byte find
//! primitive locates candidate alignments of the pattern's first concrete
//! byte; only those candidates get a full window comparison.

use vstd::prelude::*;
use vstd::slice::slice_subrange;

use crate::pattern::first_concrete;
use crate::pattern::first_match;
use crate::pattern::has_concrete;
use crate::pattern::matches_at;
use crate::pattern::mb_matches;
use crate::pattern::MaskedByte;
use crate::pattern::Pattern;

verus! {

/// The offset of the first occurrence of `needle` in `haystack`, or
/// `None` when the byte does not occur at all.
pub fn memchr(needle: u8, haystack: &[u8]) -> (r: Option<usize>)
    ensures
        match r {
            Some(k) => k < haystack@.len() && haystack@[k as int] == needle && forall|q: int|
                0 <= q < k ==> haystack@[q] != needle,
            None => forall|q: int| 0 <= q < haystack@.len() ==> haystack@[q] != needle,
        },
{
    let n = haystack.len();
    let mut k: usize = 0;
    while k < n
        invariant
            0 <= k <= n,
            n == haystack@.len(),
            forall|q: int| 0 <= q < k ==> haystack@[q] != needle,
        decreases n - k,
    {
        if haystack[k] == needle {
            return Some(k);
        }
        k += 1;
    }
    None
}

/// A pull-based accelerated scan over a borrowed pattern and haystack.
///
/// The scan needs a concrete byte to search for, so the pattern must hold
/// at least one. Candidate offsets are derived by sliding the found byte
/// back over the wildcard prefix; when the pattern starts with a concrete
/// byte (no wildcard prefix) the scan reports exactly the greedy
/// non-overlapping match sequence.
pub struct Memchr<'a> {
    pattern: &'a Pattern,
    prefix: usize,
    first: u8,
    data: &'a [u8],
    index: usize,
}

impl<'a> Memchr<'a> {
    /// The pattern being searched for.
    pub closed spec fn pat(self) -> Seq<MaskedByte> {
        self.pattern.0@
    }

    /// The haystack being searched.
    pub closed spec fn hay(self) -> Seq<u8> {
        self.data@
    }

    /// The cursor: the offset at which the scan resumes.
    pub closed spec fn pos(self) -> int {
        self.index as int
    }

    /// The scanner is usable: the pattern is non-empty and the cached
    /// `(prefix, first)` pair really is the first concrete position and
    /// its byte value.
    pub closed spec fn wf(self) -> bool {
        &&& self.pattern.0@.len() >= 1
        &&& 0 <= self.prefix < self.pattern.0@.len()
        &&& first_concrete(self.pattern.0@, 0) == Some(self.prefix as int)
        &&& self.pattern.0@[self.prefix as int].0 == Some(self.first)
    }

    /// A fresh scan over `data`, starting at offset 0. The pattern must
    /// hold a concrete byte; an all-wildcard pattern has no byte to
    /// accelerate on and belongs to the other scanners.
    pub fn new(pattern: &'a Pattern, data: &'a [u8]) -> (s: Self)
        requires
            pattern.0@.len() >= 1,
            has_concrete(pattern.0@),
        ensures
            s.wf(),
            s.pat() == pattern.0@,
            s.hay() == data@,
            s.pos() == 0,
    {
        let m = pattern.0.len();
        let mut k: usize = 0;
        while k < m
            invariant
                0 <= k <= m,
                m == pattern.0@.len(),
                forall|q: int| 0 <= q < k ==> pattern.0@[q].0 is None,
            decreases m - k,
        {
            if let Some(v) = pattern.0[k].0 {
                proof {
                    lemma_first_concrete_at(pattern.0@, 0, k as int);
                }
                return Memchr { pattern, prefix: k, first: v, data, index: 0 };
            }
            k += 1;
        }
        proof {
            let j = choose|j: int| 0 <= j < pattern.0@.len() && pattern.0@[j].0 is Some;
            assert(false);
        }
        unreached()
    }

    /// The next candidate the scan settles on, or `None` when the rest of
    /// the haystack holds no match. Every reported offset is a true match
    /// at or after the cursor, and the cursor resumes a whole pattern
    /// length after a match, so reported matches never overlap.
    ///
    /// When the pattern's first position is concrete, the scan is also
    /// exhaustive: it reports exactly the greedy non-overlapping match
    /// sequence. With a wildcard prefix, a candidate clamped at the cursor
    /// can step over a match, so only the clauses above are promised.
    pub fn next(&mut self) -> (r: Option<usize>)
        requires
            old(self).wf(),
        ensures
            final(self).wf(),
            final(self).pat() == old(self).pat(),
            final(self).hay() == old(self).hay(),
            old(self).pos() <= final(self).pos(),
            match r {
                Some(j) => old(self).pos() <= j && matches_at(
                    old(self).pat(),
                    old(self).hay(),
                    j as int,
                ) && final(self).pos() == j + old(self).pat().len(),
                None => first_match(old(self).pat(), old(self).hay(), final(self).pos()) is None,
            },
            first_concrete(old(self).pat(), 0) == Some(0int) ==> match first_match(
                old(self).pat(),
                old(self).hay(),
                old(self).pos(),
            ) {
                Some(j) => r == Some(j as usize) && final(self).pos() == j + old(self).pat().len(),
                None => r is None,
            },
    {
        let ghost p = self.pattern.0@;
        let ghost d = self.data@;
        let m = self.pattern.0.len();
        let n = self.data.len();
        if m > n || self.index > n - m {
            return None;
        }
        while self.index <= n - m
            invariant
                self.wf(),
                self.pattern == old(self).pattern,
                self.data == old(self).data,
                p == self.pat(),
                d == self.hay(),
                m == p.len(),
                n == d.len(),
                1 <= m <= n,
                old(self).pos() <= self.pos(),
                self.index <= n,
                self.prefix == old(self).prefix,
                self.first == old(self).first,
                first_concrete(p, 0) == Some(0int) ==> first_match(p, d, old(self).pos())
                    == first_match(p, d, self.pos()),
            decreases n - self.index,
        {
            let start = self.index;
            let sub = slice_subrange(self.data, start, n);
            match memchr(self.first, sub) {
                None => {
                    proof {
                        // No occurrence of the first concrete byte at or
                        // after the cursor: no window there can match,
                        // since the pattern pins that byte.
                        crate::pattern::lemma_first_match_least(p, d, start as int);
                        if let Some(j) = first_match(p, d, start as int) {
                            assert(matches_at(p, d, j));
                            assert(mb_matches(p[self.prefix as int], d[j + self.prefix]));
                            assert(sub@[j + self.prefix - start] == d[j + self.prefix]);
                            assert(false);
                        }
                    }
                    return None;
                },
                Some(off) => {
                    let mut offset = off;
                    if offset >= self.prefix {
                        offset -= self.prefix;
                    }
                    proof {
                        if first_concrete(p, 0) == Some(0int) {
                            assert(self.prefix == 0);
                            assert forall|t: int|
                                start <= t < start + offset implies !matches_at(p, d, t) by {
                                if matches_at(p, d, t) {
                                    assert(mb_matches(p[0], d[t + 0]));
                                    assert(sub@[t - start] == d[t]);
                                }
                            }
                            crate::pattern::lemma_first_match_advance(
                                p,
                                d,
                                start as int,
                                start + offset,
                            );
                        }
                    }
                    self.index += offset;
                    if self.index > n - m {
                        return None;
                    }
                    if self.pattern.matches_window(self.data, self.index) {
                        let found = self.index;
                        self.index = found + m;
                        return Some(found);
                    }
                    self.index += 1;
                },
            }
        }
        None
    }
}

impl<'a> crate::Searcher<'a> for Memchr<'a> {
    open spec fn pat(&self) -> Seq<MaskedByte> {
        Memchr::pat(*self)
    }

    open spec fn hay(&self) -> Seq<u8> {
        Memchr::hay(*self)
    }

    open spec fn pos(&self) -> int {
        Memchr::pos(*self)
    }

    open spec fn wf(&self) -> bool {
        Memchr::wf(*self)
    }

    /// The accelerated scan reports every match when the pattern's first
    /// position is concrete; a wildcard prefix can make a clamped
    /// candidate step over a match.
    open spec fn exhaustive(&self) -> bool {
        first_concrete(Memchr::pat(*self), 0) == Some(0int)
    }

    fn new(pattern: &'a Pattern, data: &'a [u8]) -> (s: Self) {
        Memchr::new(pattern, data)
    }

    fn next(&mut self) -> (r: Option<usize>) {
        Memchr::next(self)
    }
}

/// The least concrete position: if everything before `k` is a wildcard
/// and `k` is concrete, the first concrete position from `i <= k` is `k`.
proof fn lemma_first_concrete_at(p: Seq<MaskedByte>, i: int, k: int)
    requires
        0 <= i <= k < p.len(),
        p[k].0 is Some,
        forall|q: int| i <= q < k ==> p[q].0 is None,
    ensures
        first_concrete(p, i) == Some(k),
    decreases k - i,
{
    if i < k {
        lemma_first_concrete_at(p, i + 1, k);
    }
}

} // verus!
