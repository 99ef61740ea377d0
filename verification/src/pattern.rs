//! The pattern model: masked bytes, the window-match predicate, and the
//! greedy non-overlapping match sequence against which every scanner's
//! contract is stated.

use vstd::prelude::*;

verus! {

/// One pattern position: a concrete byte value, or a wildcard (`None`)
/// that matches any byte.
#[derive(Clone, Copy, Debug, PartialEq, Eq)]
pub struct MaskedByte(pub Option<u8>);

/// An ordered sequence of masked bytes defining what to search for.
///
/// The scanners assume a non-empty pattern; the accelerated scanner
/// additionally needs at least one concrete byte.
#[derive(Debug, PartialEq)]
pub struct Pattern(pub Vec<MaskedByte>);

/// The error returned when a pattern string holds a token that is neither
/// the wildcard marker `?` nor a byte written as one or two hex digits.
#[derive(Clone, Copy, Debug, PartialEq, Eq)]
pub struct ParseError;

/// One masked position against one concrete byte: a wildcard matches any
/// byte, a concrete value matches only itself.
pub open spec fn mb_matches(m: MaskedByte, b: u8) -> bool {
    match m.0 {
        Some(v) => v == b,
        None => true,
    }
}

/// The whole pattern matches the haystack window starting at `i`:
/// the window lies in bounds and every position satisfies `mb_matches`.
pub open spec fn matches_at(p: Seq<MaskedByte>, d: Seq<u8>, i: int) -> bool {
    &&& 0 <= i
    &&& i + p.len() <= d.len()
    &&& forall|k: int| 0 <= k < p.len() ==> mb_matches(p[k], d[i + k])
}

/// The least offset `j >= i` at which the pattern matches, or `None` if
/// no window at or after `i` matches.
pub open spec fn first_match(p: Seq<MaskedByte>, d: Seq<u8>, i: int) -> Option<int>
    decreases d.len() - i,
{
    if p.len() == 0 || i + p.len() > d.len() {
        None
    } else if matches_at(p, d, i) {
        Some(i)
    } else {
        first_match(p, d, i + 1)
    }
}

/// The greedy non-overlapping match sequence from offset `i` on: the scan
/// advances by one on a mismatch and by the whole pattern length on a match.
pub open spec fn all_matches_from(p: Seq<MaskedByte>, d: Seq<u8>, i: int) -> Seq<int>
    decreases d.len() - i,
{
    if p.len() == 0 || i + p.len() > d.len() {
        Seq::empty()
    } else if matches_at(p, d, i) {
        seq![i] + all_matches_from(p, d, i + p.len() as int)
    } else {
        all_matches_from(p, d, i + 1)
    }
}

/// The full greedy non-overlapping match sequence of a pattern in a haystack.
pub open spec fn all_matches(p: Seq<MaskedByte>, d: Seq<u8>) -> Seq<int> {
    all_matches_from(p, d, 0)
}

/// At least one position of the pattern holds a concrete byte.
pub open spec fn has_concrete(p: Seq<MaskedByte>) -> bool {
    exists|k: int| 0 <= k < p.len() && p[k].0 is Some
}

/// The least index `k >= i` holding a concrete byte, or `None`.
pub open spec fn first_concrete(p: Seq<MaskedByte>, i: int) -> Option<int>
    decreases p.len() - i,
{
    if i < 0 || i >= p.len() {
        None
    } else if p[i].0 is Some {
        Some(i)
    } else {
        first_concrete(p, i + 1)
    }
}

/// An ASCII whitespace character: the token separators of the pattern
/// syntax.
pub open spec fn is_space(c: char) -> bool {
    c == ' ' || c == '\t' || c == '\n' || c == '\x0C' || c == '\r'
}

/// An ASCII hex digit, either case.
pub open spec fn is_hex_digit(c: char) -> bool {
    (48 <= c as u32 && c as u32 <= 57) || (97 <= c as u32 && c as u32 <= 102) || (65 <= c as u32
        && c as u32 <= 70)
}

/// The value of an ASCII hex digit.
pub open spec fn hex_val(c: char) -> u8 {
    if 48 <= c as u32 && c as u32 <= 57 {
        (c as u32 - 48) as u8
    } else if 97 <= c as u32 && c as u32 <= 102 {
        (c as u32 - 87) as u8
    } else {
        (c as u32 - 55) as u8
    }
}

/// One token of the pattern syntax: the wildcard marker `?`, or a byte
/// value written as one or two hex digits. Anything else is malformed.
pub open spec fn token_to_mb(t: Seq<char>) -> Option<MaskedByte> {
    if t.len() == 1 && t[0] == '?' {
        Some(MaskedByte(None))
    } else if t.len() == 1 && is_hex_digit(t[0]) {
        Some(MaskedByte(Some(hex_val(t[0]))))
    } else if t.len() == 2 && is_hex_digit(t[0]) && is_hex_digit(t[1]) {
        Some(MaskedByte(Some((16 * hex_val(t[0]) + hex_val(t[1])) as u8)))
    } else {
        None
    }
}

/// The first index at or after `i` holding whitespace, or the string's
/// end: where the token starting at `i` stops.
pub open spec fn token_end(s: Seq<char>, i: int) -> int
    decreases s.len() - i,
{
    if i < 0 || i >= s.len() || is_space(s[i]) {
        i
    } else {
        token_end(s, i + 1)
    }
}

proof fn lemma_token_end_bounds(s: Seq<char>, i: int)
    requires
        0 <= i <= s.len(),
    ensures
        i <= token_end(s, i) <= s.len(),
    decreases s.len() - i,
{
    if i < s.len() && !is_space(s[i]) {
        lemma_token_end_bounds(s, i + 1);
    }
}

/// The meaning of a pattern string from index `i` on: skip whitespace,
/// convert each token with [`token_to_mb`], fail on the first malformed
/// token. The empty remainder parses to the empty sequence.
pub open spec fn parse_rec(s: Seq<char>, i: int) -> Option<Seq<MaskedByte>>
    decreases s.len() - i
        when 0 <= i
        via parse_rec_decreases
{
    if i >= s.len() {
        Some(Seq::empty())
    } else if is_space(s[i]) {
        parse_rec(s, i + 1)
    } else {
        let j = token_end(s, i);
        match token_to_mb(s.subrange(i, j)) {
            Some(mb) => match parse_rec(s, j) {
                Some(rest) => Some(seq![mb] + rest),
                None => None,
            },
            None => None,
        }
    }
}

#[via_fn]
proof fn parse_rec_decreases(s: Seq<char>, i: int) {
    if 0 <= i < s.len() && !is_space(s[i]) {
        lemma_token_end_bounds(s, i + 1);
    }
}

/// The meaning of a whole pattern string: `None` when some token is
/// malformed, otherwise the sequence of masked bytes, one per token.
pub open spec fn parse_spec(s: Seq<char>) -> Option<Seq<MaskedByte>> {
    parse_rec(s, 0)
}

/// `first_match` really is the least matching offset at or after `i`:
/// a `Some(j)` is a match with nothing before it, and a `None` means no
/// window at or after `i` matches at all.
pub proof fn lemma_first_match_least(p: Seq<MaskedByte>, d: Seq<u8>, i: int)
    requires
        p.len() >= 1,
    ensures
        match first_match(p, d, i) {
            Some(j) => i <= j && matches_at(p, d, j) && forall|t: int|
                i <= t < j ==> !matches_at(p, d, t),
            None => forall|t: int| i <= t ==> !matches_at(p, d, t),
        },
    decreases d.len() - i,
{
    if i + p.len() > d.len() {
        assert forall|t: int| i <= t implies !matches_at(p, d, t) by {
            assert(t + p.len() > d.len());
        }
    } else if matches_at(p, d, i) {
    } else {
        lemma_first_match_least(p, d, i + 1);
    }
}

/// Skipping over offsets that are known not to match leaves the next
/// match unchanged.
pub proof fn lemma_first_match_advance(p: Seq<MaskedByte>, d: Seq<u8>, i: int, j: int)
    requires
        p.len() >= 1,
        i <= j,
        forall|t: int| i <= t < j ==> !matches_at(p, d, t),
    ensures
        first_match(p, d, i) == first_match(p, d, j),
    decreases j - i,
{
    if i < j {
        if i + p.len() > d.len() {
            assert(j + p.len() > d.len());
            assert(first_match(p, d, j) == None::<int>);
        } else {
            lemma_first_match_advance(p, d, i + 1, j);
        }
    }
}

/// The greedy match sequence is exactly what a scanner that repeatedly
/// emits `first_match` and then resumes one pattern length further
/// produces. This is the common contract of all scanners: any two of
/// them, driven to the end, emit identical offset sequences.
pub proof fn lemma_all_matches_from_first(p: Seq<MaskedByte>, d: Seq<u8>, i: int)
    requires
        p.len() >= 1,
    ensures
        match first_match(p, d, i) {
            Some(j) => all_matches_from(p, d, i) == seq![j] + all_matches_from(
                p,
                d,
                j + p.len(),
            ),
            None => all_matches_from(p, d, i) == Seq::<int>::empty(),
        },
    decreases d.len() - i,
{
    if i + p.len() > d.len() {
    } else if matches_at(p, d, i) {
    } else {
        lemma_all_matches_from_first(p, d, i + 1);
    }
}

/// The cursor before the `k`-th emission of a scan that emitted the
/// offsets `s`: offset 0 to begin with, and one whole pattern length
/// past the previous emission afterwards.
pub open spec fn scan_cursor(p: Seq<MaskedByte>, s: Seq<int>, k: int) -> int {
    if k == 0 {
        0
    } else {
        s[k - 1] + p.len()
    }
}

/// A complete run of a scanner over `p` and `d`: every emitted offset is
/// the first match at or after the cursor, and the run ends only when no
/// match remains. This is exactly what the scanners' contracts promise
/// of a caller that drives `next` until it returns `None`.
pub open spec fn is_complete_scan(p: Seq<MaskedByte>, d: Seq<u8>, s: Seq<int>) -> bool {
    &&& forall|k: int|
        0 <= k < s.len() ==> first_match(p, d, #[trigger] scan_cursor(p, s, k)) == Some(s[k])
    &&& first_match(p, d, scan_cursor(p, s, s.len() as int)) is None
}

/// A complete scan emits exactly the greedy non-overlapping match
/// sequence, whatever scanner produced it.
pub proof fn lemma_complete_scan_is_all_matches(p: Seq<MaskedByte>, d: Seq<u8>, s: Seq<int>)
    requires
        p.len() >= 1,
        is_complete_scan(p, d, s),
    ensures
        s == all_matches(p, d),
{
    lemma_complete_scan_suffix(p, d, s, 0);
    assert(s.skip(0) =~= s);
}

proof fn lemma_complete_scan_suffix(p: Seq<MaskedByte>, d: Seq<u8>, s: Seq<int>, k: int)
    requires
        p.len() >= 1,
        is_complete_scan(p, d, s),
        0 <= k <= s.len(),
    ensures
        s.skip(k) == all_matches_from(p, d, scan_cursor(p, s, k)),
    decreases s.len() - k,
{
    lemma_all_matches_from_first(p, d, scan_cursor(p, s, k));
    if k == s.len() {
        assert(s.skip(k) =~= Seq::<int>::empty());
    } else {
        assert(first_match(p, d, scan_cursor(p, s, k)) == Some(s[k]));
        lemma_complete_scan_suffix(p, d, s, k + 1);
        assert(s.skip(k) =~= seq![s[k]] + s.skip(k + 1));
    }
}

/// Equivalence across scanners: two complete runs over the same pattern
/// and haystack emit identical offset sequences.
pub proof fn lemma_complete_scans_agree(p: Seq<MaskedByte>, d: Seq<u8>, s1: Seq<int>, s2: Seq<int>)
    requires
        p.len() >= 1,
        is_complete_scan(p, d, s1),
        is_complete_scan(p, d, s2),
    ensures
        s1 == s2,
{
    lemma_complete_scan_is_all_matches(p, d, s1);
    lemma_complete_scan_is_all_matches(p, d, s2);
}

/// Every offset in the greedy match sequence from `i` is a true match at
/// or after `i`, and any two consecutive offsets are at least a whole
/// pattern length apart: reported matches never overlap.
pub proof fn lemma_all_matches_from_props(p: Seq<MaskedByte>, d: Seq<u8>, i: int)
    requires
        p.len() >= 1,
    ensures
        forall|k: int| 0 <= k < all_matches_from(p, d, i).len() ==> i <= #[trigger] all_matches_from(
            p,
            d,
            i,
        )[k] && matches_at(p, d, all_matches_from(p, d, i)[k]),
        forall|k: int| 0 <= k < all_matches_from(p, d, i).len() - 1 ==> #[trigger] all_matches_from(
            p,
            d,
            i,
        )[k] + p.len() <= all_matches_from(p, d, i)[k + 1],
    decreases d.len() - i,
{
    let s = all_matches_from(p, d, i);
    if i + p.len() > d.len() {
    } else if matches_at(p, d, i) {
        lemma_all_matches_from_props(p, d, i + p.len() as int);
        let rest = all_matches_from(p, d, i + p.len() as int);
        assert(s == seq![i] + rest);
        assert forall|k: int| 0 <= k < s.len() implies i <= #[trigger] s[k] && matches_at(
            p,
            d,
            s[k],
        ) by {
            if k == 0 {
                assert(s[0] == i);
            } else {
                assert(s[k] == rest[k - 1]);
                assert(i + p.len() <= rest[k - 1] && matches_at(p, d, rest[k - 1]));
            }
        }
        assert forall|k: int| 0 <= k < s.len() - 1 implies #[trigger] s[k] + p.len() <= s[k
            + 1] by {
            if k > 0 {
                assert(s[k] == rest[k - 1]);
                assert(s[k + 1] == rest[k]);
            } else {
                assert(s[0] == i);
                assert(s[1] == rest[0]);
                assert(i + p.len() <= rest[0]);
            }
        }
    } else {
        lemma_all_matches_from_props(p, d, i + 1);
        let rest = all_matches_from(p, d, i + 1);
        assert(s == rest);
        assert forall|k: int| 0 <= k < s.len() implies i <= #[trigger] s[k] && matches_at(
            p,
            d,
            s[k],
        ) by {
            assert(i + 1 <= rest[k] && matches_at(p, d, rest[k]));
        }
        assert forall|k: int| 0 <= k < s.len() - 1 implies #[trigger] s[k] + p.len() <= s[k
            + 1] by {
            assert(rest[k] + p.len() <= rest[k + 1]);
        }
    }
}

/// Non-overlap of the reported matches: consecutive offsets `a < b` of
/// the full greedy match sequence satisfy `b >= a + p.len()`.
pub proof fn lemma_matches_non_overlapping(p: Seq<MaskedByte>, d: Seq<u8>, k: int)
    requires
        p.len() >= 1,
        0 <= k < all_matches(p, d).len() - 1,
    ensures
        all_matches(p, d)[k] + p.len() <= all_matches(p, d)[k + 1],
{
    lemma_all_matches_from_props(p, d, 0);
}

/// Exhaustiveness of the greedy scan: every true match window overlaps
/// one of the reported matches, so no match starting between two reported
/// matches (or before the first, or after the last) is ever skipped.
pub proof fn lemma_matches_exhaustive(p: Seq<MaskedByte>, d: Seq<u8>, t: int)
    requires
        p.len() >= 1,
        0 <= t,
        matches_at(p, d, t),
    ensures
        exists|k: int|
            0 <= k < all_matches(p, d).len() && #[trigger] all_matches(p, d)[k] <= t
                < all_matches(p, d)[k] + p.len(),
{
    lemma_all_matches_from_covers(p, d, 0, t);
    let s = all_matches_from(p, d, 0);
    let k = choose|k: int| 0 <= k < s.len() && #[trigger] s[k] <= t < s[k] + p.len();
    assert(0 <= k < all_matches(p, d).len() && all_matches(p, d)[k] <= t < all_matches(p, d)[k]
        + p.len());
}

proof fn lemma_all_matches_from_covers(p: Seq<MaskedByte>, d: Seq<u8>, i: int, t: int)
    requires
        p.len() >= 1,
        i <= t,
        matches_at(p, d, t),
    ensures
        exists|k: int|
            0 <= k < all_matches_from(p, d, i).len() && #[trigger] all_matches_from(p, d, i)[k] <= t
                < all_matches_from(p, d, i)[k] + p.len(),
    decreases d.len() - i,
{
    let s = all_matches_from(p, d, i);
    if i + p.len() > d.len() {
        assert(t + p.len() <= d.len());
        assert(false);
    } else if matches_at(p, d, i) {
        let rest = all_matches_from(p, d, i + p.len() as int);
        if t < i + p.len() {
            assert(s[0] == i);
            assert(0 <= 0 < s.len() && s[0] <= t < s[0] + p.len());
        } else {
            lemma_all_matches_from_covers(p, d, i + p.len() as int, t);
            let k = choose|k: int| 0 <= k < rest.len() && #[trigger] rest[k] <= t < rest[k] + p.len();
            assert(s[k + 1] == rest[k]);
            assert(0 <= k + 1 < s.len() && s[k + 1] <= t < s[k + 1] + p.len());
        }
    } else {
        if t == i {
            assert(false);
        }
        lemma_all_matches_from_covers(p, d, i + 1, t);
    }
}

/// Wildcard semantics: a pattern whose only concrete position is `c`,
/// holding the byte `b`, matches exactly the in-bounds windows whose
/// byte at relative position `c` equals `b`, whatever the neighbours are.
pub proof fn lemma_wildcard_semantics(p: Seq<MaskedByte>, d: Seq<u8>, c: int, b: u8, i: int)
    requires
        0 <= c < p.len(),
        p[c].0 == Some(b),
        forall|k: int| 0 <= k < p.len() && k != c ==> p[k].0 is None,
        0 <= i,
    ensures
        matches_at(p, d, i) <==> (i + p.len() <= d.len() && d[i + c] == b),
{
    if i + p.len() <= d.len() && d[i + c] == b {
        assert forall|k: int| 0 <= k < p.len() implies mb_matches(p[k], d[i + k]) by {
            if k != c {
                assert(p[k].0 is None);
            }
        }
    }
}

impl MaskedByte {
    /// Positional equality against a concrete byte: a wildcard matches
    /// any byte; a concrete value matches only itself.
    pub fn matches_byte(&self, b: u8) -> (r: bool)
        ensures
            r == mb_matches(*self, b),
    {
        match self.0 {
            Some(v) => v == b,
            None => true,
        }
    }
}

/// Decides [`is_space`].
fn is_space_char(c: char) -> (r: bool)
    ensures
        r == is_space(c),
{
    c == ' ' || c == '\t' || c == '\n' || c == '\x0C' || c == '\r'
}

/// Decides [`is_hex_digit`] and computes [`hex_val`] in one step.
fn hex_val_char(c: char) -> (r: Option<u8>)
    ensures
        match r {
            Some(v) => is_hex_digit(c) && v == hex_val(c) && v < 16,
            None => !is_hex_digit(c),
        },
{
    let u: u32 = c as u32;
    if 48 <= u && u <= 57 {
        Some((u - 48) as u8)
    } else if 97 <= u && u <= 102 {
        Some((u - 87) as u8)
    } else if 65 <= u && u <= 70 {
        Some((u - 55) as u8)
    } else {
        None
    }
}

impl MaskedByte {
    /// Parses one token: the wildcard marker `?`, or a byte value written
    /// as one or two hex digits; any other token is a [`ParseError`].
    pub fn from_str(s: &str) -> (r: Result<MaskedByte, ParseError>)
        ensures
            match r {
                Ok(mb) => token_to_mb(s@) == Some(mb),
                Err(_) => token_to_mb(s@) is None,
            },
    {
        let n = s.unicode_len();
        if n == 1 {
            let c0 = s.get_char(0);
            if c0 == '?' {
                return Ok(MaskedByte(None));
            }
            match hex_val_char(c0) {
                Some(v) => Ok(MaskedByte(Some(v))),
                None => Err(ParseError),
            }
        } else if n == 2 {
            let c0 = s.get_char(0);
            let c1 = s.get_char(1);
            match (hex_val_char(c0), hex_val_char(c1)) {
                (Some(h), Some(l)) => Ok(MaskedByte(Some(16 * h + l))),
                _ => Err(ParseError),
            }
        } else {
            Err(ParseError)
        }
    }
}

impl Pattern {
    /// Parses a whole pattern string: whitespace-separated tokens, each
    /// either the wildcard marker `?` or a byte value written as one or
    /// two hex digits. Fails with [`ParseError`] exactly when some token
    /// is malformed; a string with no tokens parses to the empty pattern.
    pub fn from_str(s: &str) -> (r: Result<Pattern, ParseError>)
        ensures
            match r {
                Ok(p) => parse_spec(s@) == Some(p.0@),
                Err(_) => parse_spec(s@) is None,
            },
    {
        let n = s.unicode_len();
        let mut out: Vec<MaskedByte> = Vec::new();
        let mut i: usize = 0;
        while i < n
            invariant
                0 <= i <= n,
                n == s@.len(),
                match parse_rec(s@, i as int) {
                    Some(rest) => parse_spec(s@) == Some(out@ + rest),
                    None => parse_spec(s@) is None,
                },
            decreases n - i,
        {
            let c = s.get_char(i);
            if is_space_char(c) {
                i += 1;
                continue ;
            }
            let mut j: usize = i + 1;
            while j < n && !is_space_char(s.get_char(j))
                invariant
                    i < j <= n,
                    n == s@.len(),
                    token_end(s@, i as int) == token_end(s@, j as int),
                decreases n - j,
            {
                j += 1;
            }
            proof {
                assert(token_end(s@, i as int) == j);
            }
            let ghost tok = s@.subrange(i as int, j as int);
            let mb_opt: Option<MaskedByte> = if j - i == 1 {
                if c == '?' {
                    Some(MaskedByte(None))
                } else {
                    match hex_val_char(c) {
                        Some(v) => Some(MaskedByte(Some(v))),
                        None => None,
                    }
                }
            } else if j - i == 2 {
                let c1 = s.get_char(i + 1);
                match (hex_val_char(c), hex_val_char(c1)) {
                    (Some(h), Some(l)) => Some(MaskedByte(Some(16 * h + l))),
                    _ => None,
                }
            } else {
                None
            };
            proof {
                assert(tok.len() == j - i);
                if tok.len() >= 1 {
                    assert(tok[0] == s@[i as int]);
                }
                if tok.len() >= 2 {
                    assert(tok[1] == s@[i + 1]);
                }
                assert(token_to_mb(tok) == mb_opt);
            }
            match mb_opt {
                None => {
                    return Err(ParseError);
                },
                Some(mb) => {
                    let ghost out_old = out@;
                    out.push(mb);
                    proof {
                        assert(out@ =~= out_old + seq![mb]);
                        if let Some(rest) = parse_rec(s@, j as int) {
                            assert(parse_rec(s@, i as int) == Some(seq![mb] + rest));
                            assert(out_old + (seq![mb] + rest) =~= (out_old + seq![mb]) + rest);
                        }
                    }
                    i = j;
                },
            }
        }
        proof {
            assert(parse_rec(s@, n as int) == Some(Seq::<MaskedByte>::empty()));
            assert(out@ + Seq::<MaskedByte>::empty() =~= out@);
        }
        Ok(Pattern(out))
    }

    /// Positional equality of the whole pattern against the haystack window
    /// of the same length starting at `i`. Callers must keep the window in
    /// bounds; the scanners check bounds before every comparison.
    pub fn matches_window(&self, data: &[u8], i: usize) -> (r: bool)
        requires
            i + self.0@.len() <= data@.len(),
        ensures
            r == matches_at(self.0@, data@, i as int),
    {
        let m = self.0.len();
        let n = data.len();
        let mut k: usize = 0;
        while k < m
            invariant
                0 <= k <= m,
                m == self.0@.len(),
                n == data@.len(),
                i + m <= n,
                forall|q: int| 0 <= q < k ==> mb_matches(self.0@[q], data@[i + q]),
            decreases m - k,
        {
            if !self.0[k].matches_byte(data[i + k]) {
                assert(!mb_matches(self.0@[k as int], data@[i + k as int]));
                return false;
            }
            k += 1;
        }
        true
    }
}

} // verus!
