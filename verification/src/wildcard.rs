//! Matching of paths against patterns in which `*` stands for any run of
//! bytes, the empty run and path separators included. Every other byte of a
//! pattern stands for itself.

use vstd::prelude::*;

verus! {

/// The byte that stands for any run of bytes.
pub const STAR: u8 = 0x2a;

/// Whether the pattern from its byte `i` on matches the text from its byte
/// `j` on.
pub open spec fn matches_from(pattern: Seq<u8>, i: int, text: Seq<u8>, j: int) -> bool
    decreases pattern.len() - i, text.len() - j,
{
    if i >= pattern.len() {
        j >= text.len()
    } else if pattern[i] == STAR {
        matches_from(pattern, i + 1, text, j) || (j < text.len() && matches_from(
            pattern,
            i,
            text,
            j + 1,
        ))
    } else {
        j < text.len() && text[j] == pattern[i] && matches_from(pattern, i + 1, text, j + 1)
    }
}

/// Whether `pattern` matches the whole of `text`.
pub open spec fn pattern_matches(pattern: Seq<u8>, text: Seq<u8>) -> bool {
    matches_from(pattern, 0, text, 0)
}

/// Tells whether `pattern` matches the whole of `text`.
pub fn wildcard(pattern: &[u8], text: &[u8]) -> (r: bool)
    ensures
        r == pattern_matches(pattern@, text@),
{
    let n = text.len();
    let m = pattern.len();
    let mut row: Vec<bool> = Vec::new();
    let mut j: usize = 0;
    while j < n
        invariant
            j <= n,
            n == text.len(),
            m == pattern.len(),
            row.len() == j,
            forall|k: int| 0 <= k < j ==> row[k] == matches_from(pattern@, m as int, text@, k),
        decreases n - j,
    {
        row.push(false);
        j = j + 1;
    }
    let mut end: bool = true;
    let mut i: usize = m;
    while i > 0
        invariant
            i <= m,
            n == text.len(),
            m == pattern.len(),
            row.len() == n,
            forall|k: int| 0 <= k < n ==> row[k] == matches_from(pattern@, i as int, text@, k),
            end == matches_from(pattern@, i as int, text@, n as int),
        decreases i,
    {
        i = i - 1;
        let c = pattern[i];
        if c == STAR {
            let mut j: usize = n;
            while j > 0
                invariant
                    j <= n,
                    i < m,
                    n == text.len(),
                    m == pattern.len(),
                    row.len() == n,
                    pattern@[i as int] == STAR,
                    forall|k: int|
                        0 <= k < j ==> row[k] == matches_from(pattern@, i + 1, text@, k),
                    forall|k: int|
                        j <= k < n ==> row[k] == matches_from(pattern@, i as int, text@, k),
                    end == matches_from(pattern@, i as int, text@, n as int),
                decreases j,
            {
                j = j - 1;
                let next = if j + 1 < n {
                    row[j + 1]
                } else {
                    end
                };
                let here = row[j] || next;
                row.set(j, here);
            }
        } else {
            let mut j: usize = 0;
            while j < n
                invariant
                    j <= n,
                    i < m,
                    n == text.len(),
                    m == pattern.len(),
                    row.len() == n,
                    pattern@[i as int] == c,
                    c != STAR,
                    forall|k: int|
                        0 <= k < j ==> row[k] == matches_from(pattern@, i as int, text@, k),
                    forall|k: int|
                        j <= k < n ==> row[k] == matches_from(pattern@, i + 1, text@, k),
                    end == matches_from(pattern@, i + 1, text@, n as int),
                decreases n - j,
            {
                let next = if j + 1 < n {
                    row[j + 1]
                } else {
                    end
                };
                let here = text[j] == c && next;
                row.set(j, here);
                j = j + 1;
            }
            end = false;
        }
    }
    if n > 0 {
        row[0]
    } else {
        end
    }
}

} // verus!
