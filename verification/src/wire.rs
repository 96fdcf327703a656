//! The primitive fields of the archive layout: little-endian integers and
//! zero-terminated strings, each with a writer, a reader and the fact that the
//! reader undoes the writer.

use vstd::prelude::*;

verus! {

/// The four bytes of a `u32`, least significant first.
pub open spec fn u32_le(x: u32) -> Seq<u8> {
    seq![
        (x % 256) as u8,
        (x / 0x100 % 256) as u8,
        (x / 0x1_0000 % 256) as u8,
        (x / 0x100_0000 % 256) as u8,
    ]
}

/// The eight bytes of a `u64`, least significant first.
pub open spec fn u64_le(x: u64) -> Seq<u8> {
    seq![
        (x % 256) as u8,
        (x / 0x100 % 256) as u8,
        (x / 0x1_0000 % 256) as u8,
        (x / 0x100_0000 % 256) as u8,
        (x / 0x1_0000_0000 % 256) as u8,
        (x / 0x100_0000_0000 % 256) as u8,
        (x / 0x1_0000_0000_0000 % 256) as u8,
        (x / 0x100_0000_0000_0000 % 256) as u8,
    ]
}

/// A string followed by its terminating zero.
pub open spec fn cstr(s: Seq<u8>) -> Seq<u8> {
    s.push(0u8)
}

/// Whether a string holds no zero byte, and so survives termination by zero.
pub open spec fn no_nul(s: Seq<u8>) -> bool {
    forall|i: int| 0 <= i < s.len() ==> #[trigger] s[i] != 0
}

/// The little-endian `u32` at `pos`, and the position behind it; `None` where
/// fewer than four bytes are left.
pub open spec fn read_u32(s: Seq<u8>, pos: int) -> Option<(u32, int)> {
    if 0 <= pos && pos + 4 <= s.len() {
        Some(
            (
                (s[pos] + 0x100 * s[pos + 1] + 0x1_0000 * s[pos + 2] + 0x100_0000 * s[pos
                    + 3]) as u32,
                pos + 4,
            ),
        )
    } else {
        None
    }
}

/// The little-endian `u64` at `pos`, and the position behind it; `None` where
/// fewer than eight bytes are left.
pub open spec fn read_u64(s: Seq<u8>, pos: int) -> Option<(u64, int)> {
    if 0 <= pos && pos + 8 <= s.len() {
        Some(
            (
                (s[pos] + 0x100 * s[pos + 1] + 0x1_0000 * s[pos + 2] + 0x100_0000 * s[pos + 3]
                    + 0x1_0000_0000 * s[pos + 4] + 0x100_0000_0000 * s[pos + 5]
                    + 0x1_0000_0000_0000 * s[pos + 6] + 0x100_0000_0000_0000 * s[pos
                    + 7]) as u64,
                pos + 8,
            ),
        )
    } else {
        None
    }
}

/// The number of non-zero bytes from `pos` up to the first zero byte or the
/// end of `s`.
pub open spec fn run_length(s: Seq<u8>, pos: int) -> nat
    decreases s.len() - pos,
{
    if 0 <= pos < s.len() && s[pos] != 0 {
        1 + run_length(s, pos + 1)
    } else {
        0
    }
}

/// The zero-terminated string at `pos`, and the position behind its
/// terminator; `None` where no zero byte follows.
pub open spec fn read_cstr(s: Seq<u8>, pos: int) -> Option<(Seq<u8>, int)> {
    let n = run_length(s, pos);
    if 0 <= pos && pos + n < s.len() {
        Some((s.subrange(pos, pos + n), pos + n + 1))
    } else {
        None
    }
}

/// Whether `field` stands in `s` at `pos`.
pub open spec fn holds_at(s: Seq<u8>, pos: int, field: Seq<u8>) -> bool {
    &&& 0 <= pos
    &&& pos + field.len() <= s.len()
    &&& s.subrange(pos, pos + field.len()) == field
}

/// What stands in a part of `s` stands in `s`.
pub proof fn lemma_holds_within(s: Seq<u8>, base: int, part: Seq<u8>, pos: int, field: Seq<u8>)
    requires
        holds_at(s, base, part),
        holds_at(part, pos, field),
    ensures
        holds_at(s, base + pos, field),
{
    let whole = s.subrange(base, base + part.len());
    assert(s.subrange(base + pos, base + pos + field.len()) =~= whole.subrange(
        pos,
        pos + field.len(),
    ));
}

/// Where two fields stand one behind the other, each stands.
pub proof fn lemma_holds_parts(s: Seq<u8>, pos: int, first: Seq<u8>, second: Seq<u8>)
    requires
        holds_at(s, pos, first + second),
    ensures
        holds_at(s, pos, first),
        holds_at(s, pos + first.len(), second),
{
    let whole = s.subrange(pos, pos + first.len() + second.len());
    assert(whole == first + second);
    assert(s.subrange(pos, pos + first.len()) =~= whole.subrange(0, first.len() as int));
    assert(whole.subrange(0, first.len() as int) =~= first);
    assert(s.subrange(pos + first.len(), pos + first.len() + second.len()) =~= whole.subrange(
        first.len() as int,
        whole.len() as int,
    ));
    assert(whole.subrange(first.len() as int, whole.len() as int) =~= second);
}

/// A field that stands in `s` has its bytes there.
pub proof fn lemma_holds_byte(s: Seq<u8>, pos: int, field: Seq<u8>, j: int)
    requires
        holds_at(s, pos, field),
        0 <= j < field.len(),
    ensures
        0 <= pos + j < s.len(),
        s[pos + j] == field[j],
{
    assert(s[pos + j] == s.subrange(pos, pos + field.len())[j]);
}

/// A run ends inside `s` or at its end, on a zero byte if inside, and holds
/// no zero byte.
pub proof fn lemma_run_length(s: Seq<u8>, pos: int)
    requires
        0 <= pos <= s.len(),
    ensures
        pos + run_length(s, pos) <= s.len(),
        pos + run_length(s, pos) < s.len() ==> s[pos + run_length(s, pos)] == 0,
        forall|j: int| pos <= j < pos + run_length(s, pos) ==> #[trigger] s[j] != 0,
    decreases s.len() - pos,
{
    if pos < s.len() && s[pos] != 0 {
        lemma_run_length(s, pos + 1);
    }
}

/// The first zero byte at or after `pos` ends the run.
pub proof fn lemma_run_to_nul(s: Seq<u8>, pos: int, n: nat)
    requires
        0 <= pos,
        pos + n < s.len(),
        s[pos + n] == 0,
        forall|j: int| pos <= j < pos + n ==> #[trigger] s[j] != 0,
    ensures
        run_length(s, pos) == n,
    decreases n,
{
    if n > 0 {
        lemma_run_to_nul(s, pos + 1, (n - 1) as nat);
    }
}

/// A `u32` takes four bytes, a `u64` eight.
pub proof fn lemma_le_lengths(x: u32, y: u64)
    ensures
        u32_le(x).len() == 4,
        u64_le(y).len() == 8,
{
}

/// A `u32` is the weighted sum of its four bytes.
pub proof fn lemma_u32_le_sum(x: u32)
    ensures
        x == (x % 256) + 0x100 * (x / 0x100 % 256) + 0x1_0000 * (x / 0x1_0000 % 256) + 0x100_0000
            * (x / 0x100_0000 % 256),
{
    assert(x == (x % 256) + 0x100 * (x / 0x100 % 256) + 0x1_0000 * (x / 0x1_0000 % 256)
        + 0x100_0000 * (x / 0x100_0000 % 256)) by (bit_vector);
}

/// A `u64` is the weighted sum of its eight bytes.
pub proof fn lemma_u64_le_sum(x: u64)
    ensures
        x == (x % 256) + 0x100 * (x / 0x100 % 256) + 0x1_0000 * (x / 0x1_0000 % 256) + 0x100_0000
            * (x / 0x100_0000 % 256) + 0x1_0000_0000 * (x / 0x1_0000_0000 % 256)
            + 0x100_0000_0000 * (x / 0x100_0000_0000 % 256) + 0x1_0000_0000_0000 * (x
            / 0x1_0000_0000_0000 % 256) + 0x100_0000_0000_0000 * (x / 0x100_0000_0000_0000 % 256),
{
    assert(x == (x % 256) + 0x100 * (x / 0x100 % 256) + 0x1_0000 * (x / 0x1_0000 % 256)
        + 0x100_0000 * (x / 0x100_0000 % 256) + 0x1_0000_0000 * (x / 0x1_0000_0000 % 256)
        + 0x100_0000_0000 * (x / 0x100_0000_0000 % 256) + 0x1_0000_0000_0000 * (x
        / 0x1_0000_0000_0000 % 256) + 0x100_0000_0000_0000 * (x / 0x100_0000_0000_0000 % 256))
        by (bit_vector);
}

/// Reading a `u32` where one was written gives it back.
pub proof fn lemma_read_u32(s: Seq<u8>, pos: int, x: u32)
    requires
        holds_at(s, pos, u32_le(x)),
    ensures
        read_u32(s, pos) == Some((x, pos + 4)),
{
    let f = s.subrange(pos, pos + 4);
    assert(f[0] == s[pos] && f[1] == s[pos + 1] && f[2] == s[pos + 2] && f[3] == s[pos + 3]);
    lemma_u32_le_sum(x);
}

/// Reading a `u64` where one was written gives it back.
pub proof fn lemma_read_u64(s: Seq<u8>, pos: int, x: u64)
    requires
        holds_at(s, pos, u64_le(x)),
    ensures
        read_u64(s, pos) == Some((x, pos + 8)),
{
    let f = s.subrange(pos, pos + 8);
    assert(f[0] == s[pos] && f[1] == s[pos + 1] && f[2] == s[pos + 2] && f[3] == s[pos + 3]);
    assert(f[4] == s[pos + 4] && f[5] == s[pos + 5] && f[6] == s[pos + 6] && f[7] == s[pos
        + 7]);
    lemma_u64_le_sum(x);
}

/// Reading a string where one without zero bytes was written gives it back.
pub proof fn lemma_read_cstr(s: Seq<u8>, pos: int, text: Seq<u8>)
    requires
        holds_at(s, pos, cstr(text)),
        no_nul(text),
    ensures
        read_cstr(s, pos) == Some((text, pos + text.len() + 1)),
{
    let f = s.subrange(pos, pos + text.len() + 1);
    assert(f == cstr(text));
    assert forall|j: int| pos <= j < pos + text.len() implies #[trigger] s[j] != 0 by {
        assert(s[j] == f[j - pos]);
        assert(f[j - pos] == text[j - pos]);
    }
    assert(s[pos + text.len()] == f[text.len() as int]);
    lemma_run_to_nul(s, pos, text.len());
    assert(s.subrange(pos, pos + text.len()) =~= text) by {
        assert forall|j: int| 0 <= j < text.len() implies s.subrange(pos, pos + text.len())[j]
            == text[j] by {
            assert(s[pos + j] == f[j]);
        }
    }
}

/// Appends a `u32`, least significant byte first.
pub fn write_u32(buf: &mut Vec<u8>, x: u32)
    ensures
        final(buf)@ == old(buf)@ + u32_le(x),
{
    let ghost before = buf@;
    buf.push((x % 256) as u8);
    buf.push((x / 0x100 % 256) as u8);
    buf.push((x / 0x1_0000 % 256) as u8);
    buf.push((x / 0x100_0000 % 256) as u8);
    assert(buf@ =~= before + u32_le(x));
}

/// Appends a `u64`, least significant byte first.
pub fn write_u64(buf: &mut Vec<u8>, x: u64)
    ensures
        final(buf)@ == old(buf)@ + u64_le(x),
{
    let ghost before = buf@;
    buf.push((x % 256) as u8);
    buf.push((x / 0x100 % 256) as u8);
    buf.push((x / 0x1_0000 % 256) as u8);
    buf.push((x / 0x100_0000 % 256) as u8);
    buf.push((x / 0x1_0000_0000 % 256) as u8);
    buf.push((x / 0x100_0000_0000 % 256) as u8);
    buf.push((x / 0x1_0000_0000_0000 % 256) as u8);
    buf.push((x / 0x100_0000_0000_0000 % 256) as u8);
    assert(buf@ =~= before + u64_le(x));
}

/// Appends a string and its terminating zero.
pub fn write_cstr(buf: &mut Vec<u8>, text: &[u8])
    ensures
        final(buf)@ == old(buf)@ + cstr(text@),
{
    let ghost before = buf@;
    crate::bytestr::append_bytes(buf, text);
    buf.push(0u8);
    assert(buf@ =~= before + cstr(text@));
}

/// Reads the `u32` at `pos`.
pub fn get_u32(s: &[u8], pos: usize) -> (r: Option<(u32, usize)>)
    ensures
        match r {
            Some((x, next)) => read_u32(s@, pos as int) == Some((x, next as int)),
            None => read_u32(s@, pos as int).is_none(),
        },
{
    if s.len() < 4 || pos > s.len() - 4 {
        return None;
    }
    let x: u32 = s[pos] as u32 + 0x100 * (s[pos + 1] as u32) + 0x1_0000 * (s[pos + 2] as u32)
        + 0x100_0000 * (s[pos + 3] as u32);
    Some((x, pos + 4))
}

/// Reads the `u64` at `pos`.
pub fn get_u64(s: &[u8], pos: usize) -> (r: Option<(u64, usize)>)
    ensures
        match r {
            Some((x, next)) => read_u64(s@, pos as int) == Some((x, next as int)),
            None => read_u64(s@, pos as int).is_none(),
        },
{
    if s.len() < 8 || pos > s.len() - 8 {
        return None;
    }
    let x: u64 = s[pos] as u64 + 0x100 * (s[pos + 1] as u64) + 0x1_0000 * (s[pos + 2] as u64)
        + 0x100_0000 * (s[pos + 3] as u64) + 0x1_0000_0000 * (s[pos + 4] as u64)
        + 0x100_0000_0000 * (s[pos + 5] as u64) + 0x1_0000_0000_0000 * (s[pos + 6] as u64)
        + 0x100_0000_0000_0000 * (s[pos + 7] as u64);
    Some((x, pos + 8))
}

/// Reads the zero-terminated string at `pos`.
pub fn get_cstr(s: &[u8], pos: usize) -> (r: Option<(Vec<u8>, usize)>)
    ensures
        match r {
            Some((text, next)) => read_cstr(s@, pos as int) == Some((text@, next as int)),
            None => read_cstr(s@, pos as int).is_none(),
        },
{
    if pos >= s.len() {
        return None;
    }
    let mut text: Vec<u8> = Vec::new();
    let mut i: usize = pos;
    while i < s.len() && s[i] != 0
        invariant
            pos <= i <= s.len(),
            text@ == s@.subrange(pos as int, i as int),
            run_length(s@, pos as int) == (i - pos) + run_length(s@, i as int),
        decreases s.len() - i,
    {
        text.push(s[i]);
        i = i + 1;
        assert(text@ =~= s@.subrange(pos as int, i as int));
    }
    if i < s.len() {
        Some((text, i + 1))
    } else {
        None
    }
}

} // verus!
