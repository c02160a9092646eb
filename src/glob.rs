//! Glob-style patterns over paths: `*` stands for any run of bytes, `?` for
//! exactly one byte, and every other byte for itself.

use vstd::prelude::*;

verus! {

pub const STAR: u8 = 42;

pub const QUESTION: u8 = 63;

/// Whether `p[i..]` matches `s[j..]`.
pub open spec fn glob_from(p: Seq<u8>, s: Seq<u8>, i: int, j: int) -> bool
    decreases p.len() - i, s.len() - j,
{
    if i < 0 || j < 0 || i >= p.len() {
        i >= p.len() && j >= s.len()
    } else if p[i] == STAR {
        glob_from(p, s, i + 1, j) || (j < s.len() && glob_from(p, s, i, j + 1))
    } else {
        j < s.len() && (p[i] == QUESTION || p[i] == s[j]) && glob_from(p, s, i + 1, j + 1)
    }
}

/// Whether the whole of `s` matches the pattern `p`.
pub open spec fn glob_match(p: Seq<u8>, s: Seq<u8>) -> bool {
    glob_from(p, s, 0, 0)
}

/// Decides `glob_match(p, s)` by filling one row per pattern position, from the
/// end of the pattern back to its start; the column past the end of `s` is
/// kept apart from the row.
pub fn glob_matches(p: &[u8], s: &[u8]) -> (r: bool)
    ensures
        r == glob_match(p@, s@),
{
    let n = s.len();
    // the row of the empty pattern suffix
    let mut next: Vec<bool> = Vec::new();
    let mut next_end = true;
    let mut j: usize = 0;
    while j < n
        invariant
            n == s.len(),
            j <= n,
            next@.len() == j,
            forall|k: int| 0 <= k < j ==> next@[k] == glob_from(p@, s@, p@.len() as int, k),
        decreases n - j,
    {
        next.push(false);
        j = j + 1;
    }
    let mut i: usize = p.len();
    while i > 0
        invariant
            n == s.len(),
            i <= p.len(),
            next@.len() == n,
            next_end == glob_from(p@, s@, i as int, n as int),
            forall|k: int| 0 <= k < n ==> next@[k] == glob_from(p@, s@, i as int, k),
        decreases i,
    {
        i = i - 1;
        let c = p[i];
        let row_end = c == STAR && next_end;
        let mut row: Vec<bool> = vec![false; n];
        let mut k: usize = n;
        while k > 0
            invariant
                n == s.len(),
                i < p.len(),
                c == p@[i as int],
                k <= n,
                row@.len() == n,
                next@.len() == n,
                next_end == glob_from(p@, s@, i + 1, n as int),
                row_end == glob_from(p@, s@, i as int, n as int),
                forall|m: int| 0 <= m < n ==> next@[m] == glob_from(p@, s@, i + 1, m),
                forall|m: int| k <= m < n ==> row@[m] == glob_from(p@, s@, i as int, m),
            decreases k,
        {
            k = k - 1;
            let after_row = if k + 1 < n { row[k + 1] } else { row_end };
            let after_next = if k + 1 < n { next[k + 1] } else { next_end };
            let v = if c == STAR {
                next[k] || after_row
            } else {
                (c == QUESTION || c == s[k]) && after_next
            };
            row.set(k, v);
        }
        next = row;
        next_end = row_end;
    }
    if n == 0 {
        next_end
    } else {
        next[0]
    }
}

/// Whether a listing pattern selects `path`: `*` selects every path; any other
/// pattern selects the path equal to it and the paths it matches as a glob.
pub open spec fn pattern_selects(pattern: Seq<u8>, path: Seq<u8>) -> bool {
    pattern == seq![STAR] || pattern == path || glob_match(pattern, path)
}

/// Decides `pattern_selects(pattern, path)`.
pub fn selects(pattern: &[u8], path: &[u8]) -> (r: bool)
    ensures
        r == pattern_selects(pattern@, path@),
{
    if pattern.len() == 1 && pattern[0] == STAR {
        assert(pattern@ =~= seq![STAR]);
        return true;
    }
    assert(pattern@ != seq![STAR]) by {
        if pattern@ == seq![STAR] {
            assert(pattern@[0] == STAR);
        }
    }
    if crate::bytes::compare_bytes(pattern, path) == 0 {
        return true;
    }
    glob_matches(pattern, path)
}

} // verus!
