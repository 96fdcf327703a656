//! Byte strings: paths, titles and descriptions are sequences of bytes, as
//! they are inside an archive.

use vstd::prelude::*;

verus! {

/// The lower-case form of one byte: ASCII capitals move to their small
/// letters, every other byte stays.
pub open spec fn lower_byte(b: u8) -> u8 {
    if 0x41 <= b <= 0x5a {
        (b + 0x20) as u8
    } else {
        b
    }
}

/// The lower-case form of a byte string.
pub open spec fn lower(s: Seq<u8>) -> Seq<u8> {
    Seq::new(s.len(), |i: int| lower_byte(s[i]))
}

/// Whether a byte string holds an ASCII capital.
pub open spec fn has_capitals(s: Seq<u8>) -> bool {
    exists|i: int| 0 <= i < s.len() && 0x41 <= #[trigger] s[i] <= 0x5a
}

/// Lowering twice is lowering once.
pub proof fn lemma_lower_idempotent(s: Seq<u8>)
    ensures
        lower(lower(s)) == lower(s),
{
    assert(lower(lower(s)) =~= lower(s));
}

/// A string is its own lower-case form exactly when it holds no capital.
pub proof fn lemma_lower_fixed(s: Seq<u8>)
    ensures
        lower(s) == s <==> !has_capitals(s),
{
    if !has_capitals(s) {
        assert(lower(s) =~= s);
    } else {
        let i = choose|i: int| 0 <= i < s.len() && 0x41 <= #[trigger] s[i] <= 0x5a;
        assert(lower(s)[i] != s[i]);
    }
}

/// Lowers one byte.
pub fn to_lower_byte(b: u8) -> (r: u8)
    ensures
        r == lower_byte(b),
{
    if 0x41 <= b && b <= 0x5a {
        b + 0x20
    } else {
        b
    }
}

/// Lowers a byte string.
pub fn to_lower(s: &[u8]) -> (r: Vec<u8>)
    ensures
        r@ == lower(s@),
{
    let mut r: Vec<u8> = Vec::new();
    let mut i: usize = 0;
    while i < s.len()
        invariant
            i <= s.len(),
            r@ == lower(s@.subrange(0, i as int)),
        decreases s.len() - i,
    {
        r.push(to_lower_byte(s[i]));
        i = i + 1;
        assert(r@ =~= lower(s@.subrange(0, i as int)));
    }
    assert(s@.subrange(0, i as int) =~= s@);
    r
}

/// Tells whether a byte string holds a capital, and so differs from its
/// lower-case form.
pub fn contains_capitals(s: &[u8]) -> (r: bool)
    ensures
        r == has_capitals(s@),
        r == (lower(s@) != s@),
{
    proof {
        lemma_lower_fixed(s@);
    }
    let mut i: usize = 0;
    while i < s.len()
        invariant
            i <= s.len(),
            forall|j: int| 0 <= j < i ==> !(0x41 <= #[trigger] s@[j] <= 0x5a),
        decreases s.len() - i,
    {
        if 0x41 <= s[i] && s[i] <= 0x5a {
            return true;
        }
        i = i + 1;
    }
    false
}

/// Compares two byte strings.
pub fn bytes_eq(a: &[u8], b: &[u8]) -> (r: bool)
    ensures
        r == (a@ == b@),
{
    if a.len() != b.len() {
        return false;
    }
    let mut i: usize = 0;
    while i < a.len()
        invariant
            i <= a.len(),
            a.len() == b.len(),
            a@.subrange(0, i as int) == b@.subrange(0, i as int),
        decreases a.len() - i,
    {
        if a[i] != b[i] {
            return false;
        }
        i = i + 1;
        assert(a@.subrange(0, i as int) =~= a@.subrange(0, i - 1).push(a@[i - 1]));
        assert(b@.subrange(0, i as int) =~= b@.subrange(0, i - 1).push(b@[i - 1]));
    }
    assert(a@.subrange(0, i as int) =~= a@);
    assert(b@.subrange(0, i as int) =~= b@);
    true
}

/// Copies a byte string.
pub fn copy_bytes(s: &[u8]) -> (r: Vec<u8>)
    ensures
        r@ == s@,
{
    let mut r: Vec<u8> = Vec::new();
    let mut i: usize = 0;
    while i < s.len()
        invariant
            i <= s.len(),
            r@ == s@.subrange(0, i as int),
        decreases s.len() - i,
    {
        r.push(s[i]);
        i = i + 1;
        assert(r@ =~= s@.subrange(0, i as int));
    }
    assert(s@.subrange(0, i as int) =~= s@);
    r
}

/// Appends a byte string to a buffer.
pub fn append_bytes(buf: &mut Vec<u8>, s: &[u8])
    ensures
        final(buf)@ == old(buf)@ + s@,
{
    let ghost before = buf@;
    let mut i: usize = 0;
    while i < s.len()
        invariant
            i <= s.len(),
            buf@ == before + s@.subrange(0, i as int),
        decreases s.len() - i,
    {
        buf.push(s[i]);
        i = i + 1;
        assert(buf@ =~= before + s@.subrange(0, i as int));
    }
    assert(s@.subrange(0, i as int) =~= s@);
}

/// Appends the bytes of `s` from `start` up to `end` to a buffer.
pub fn append_range(buf: &mut Vec<u8>, s: &[u8], start: usize, end: usize)
    requires
        start <= end <= s.len(),
    ensures
        final(buf)@ == old(buf)@ + s@.subrange(start as int, end as int),
{
    let ghost before = buf@;
    let mut i: usize = start;
    while i < end
        invariant
            start <= i <= end <= s.len(),
            buf@ == before + s@.subrange(start as int, i as int),
        decreases end - i,
    {
        buf.push(s[i]);
        i = i + 1;
        assert(buf@ =~= before + s@.subrange(start as int, i as int));
    }
}

/// Whether `a` from its byte `i` on stands before `b` from its byte `i` on,
/// or is equal to it, in the order of a dictionary: the first byte in which
/// the two differ decides, and a text stands before its extensions.
pub open spec fn precedes_from(a: Seq<u8>, b: Seq<u8>, i: int) -> bool
    decreases a.len() - i,
{
    if i >= a.len() {
        true
    } else if i >= b.len() {
        false
    } else if a[i] == b[i] {
        precedes_from(a, b, i + 1)
    } else {
        a[i] < b[i]
    }
}

/// Whether `a` stands before `b`, or is equal to it, in the order of a
/// dictionary over bytes.
pub open spec fn precedes(a: Seq<u8>, b: Seq<u8>) -> bool {
    precedes_from(a, b, 0)
}

/// Of two texts one stands before the other.
pub proof fn lemma_precedes_total(a: Seq<u8>, b: Seq<u8>, i: int)
    requires
        0 <= i,
    ensures
        precedes_from(a, b, i) || precedes_from(b, a, i),
    decreases a.len() - i,
{
    if i < a.len() && i < b.len() && a[i] == b[i] {
        lemma_precedes_total(a, b, i + 1);
    }
}

/// What stands before a text stands before whatever that text stands before.
pub proof fn lemma_precedes_transitive(a: Seq<u8>, b: Seq<u8>, c: Seq<u8>, i: int)
    requires
        0 <= i,
        precedes_from(a, b, i),
        precedes_from(b, c, i),
    ensures
        precedes_from(a, c, i),
    decreases a.len() - i,
{
    if i < a.len() && i < b.len() && i < c.len() && a[i] == b[i] && b[i] == c[i] {
        lemma_precedes_transitive(a, b, c, i + 1);
    }
}

/// Tells whether `a` stands before `b` or is equal to it.
pub fn bytes_le(a: &[u8], b: &[u8]) -> (r: bool)
    ensures
        r == precedes(a@, b@),
{
    let mut i: usize = 0;
    while i < a.len() && i < b.len()
        invariant
            i <= a.len(),
            i <= b.len(),
            precedes(a@, b@) == precedes_from(a@, b@, i as int),
        decreases a.len() - i,
    {
        if a[i] != b[i] {
            return a[i] < b[i];
        }
        i = i + 1;
    }
    i >= a.len()
}

} // verus!
