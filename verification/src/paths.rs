//! The paths that packing and unpacking work with: the addon's folder, the
//! archive's file name, and where each extracted file goes.

use crate::bytestr::{append_bytes, copy_bytes};
use vstd::prelude::*;
use vstd::string::StringSliceAdditionalSpecFns;

verus! {

/// The slash that parts the folders of a path.
pub const SLASH: u8 = 0x2f;

/// The backslash, which some systems write for the slash.
pub const BACKSLASH: u8 = 0x5c;

/// The point before a file name's extension.
pub const POINT: u8 = 0x2e;

/// A path with a slash for every backslash.
pub open spec fn with_slashes(path: Seq<u8>) -> Seq<u8> {
    Seq::new(
        path.len(),
        |i: int|
            if path[i] == BACKSLASH {
                SLASH
            } else {
                path[i]
            },
    )
}

/// A path without the slashes at its end.
pub open spec fn without_end_slashes(path: Seq<u8>) -> Seq<u8>
    decreases path.len(),
{
    if path.len() > 0 && path.last() == SLASH {
        without_end_slashes(path.drop_last())
    } else {
        path
    }
}

/// The first `n` bytes of a path without the extension that ends there: the
/// path is cut before the last point, unless a slash stands behind that
/// point or there is none.
pub open spec fn cut_extension(path: Seq<u8>, n: nat) -> Seq<u8>
    decreases n,
{
    if n == 0 || n > path.len() || path[n - 1] == SLASH {
        path
    } else if path[n - 1] == POINT {
        path.subrange(0, n - 1)
    } else {
        cut_extension(path, (n - 1) as nat)
    }
}

/// A path without its extension.
pub open spec fn without_extension(path: Seq<u8>) -> Seq<u8> {
    cut_extension(path, path.len())
}

/// The folder of the first `n` bytes of a path: what stands before the last
/// slash, or nothing where there is no slash.
pub open spec fn cut_filename(path: Seq<u8>, n: nat) -> Seq<u8>
    decreases n,
{
    if n == 0 || n > path.len() {
        Seq::empty()
    } else if path[n - 1] == SLASH {
        path.subrange(0, n - 1)
    } else {
        cut_filename(path, (n - 1) as nat)
    }
}

/// The folder part of a path.
pub open spec fn without_filename(path: Seq<u8>) -> Seq<u8> {
    cut_filename(path, path.len())
}

/// A folder's path as the tools use it: with slashes only, and exactly one
/// of them at the end.
pub open spec fn folder_of(path: Seq<u8>) -> Seq<u8> {
    without_end_slashes(with_slashes(path)).push(SLASH)
}

/// The file name of the archive that is made of `folder`, which ends in a
/// slash: `out_file` without its extension, or the folder's own path where
/// `out_file` is empty, and the extension `.gma`.
pub open spec fn archive_name(folder: Seq<u8>, out_file: Seq<u8>) -> Seq<u8> {
    without_extension(
        if out_file.len() == 0 {
            without_end_slashes(folder)
        } else {
            out_file
        },
    ) + ".gma".spec_bytes()
}

/// The folder into which the archive `file` is unpacked: `out_path`, or the
/// archive's path without its extension where `out_path` is empty.
pub open spec fn target_folder(file: Seq<u8>, out_path: Seq<u8>) -> Seq<u8> {
    folder_of(
        if out_path.len() == 0 {
            without_extension(file)
        } else {
            out_path
        },
    )
}

/// The decimal digits of a number.
pub open spec fn decimal(n: nat) -> Seq<u8>
    decreases n,
{
    if n < 10 {
        seq![(0x30 + n) as u8]
    } else {
        decimal(n / 10).push((0x30 + n % 10) as u8)
    }
}

/// Where a file goes that could not be written under its own name: into the
/// folder `badnames`, named by the count of such files before it.
pub open spec fn fallback_name(out_path: Seq<u8>, count: nat) -> Seq<u8> {
    out_path + "badnames/".spec_bytes() + decimal(count) + ".unk".spec_bytes()
}

/// Writes slashes for backslashes.
pub fn fix_slashes(path: &[u8]) -> (r: Vec<u8>)
    ensures
        r@ == with_slashes(path@),
{
    let mut r: Vec<u8> = Vec::new();
    let mut i: usize = 0;
    while i < path.len()
        invariant
            i <= path.len(),
            r@ == with_slashes(path@.subrange(0, i as int)),
        decreases path.len() - i,
    {
        let b = path[i];
        r.push(
            if b == BACKSLASH {
                SLASH
            } else {
                b
            },
        );
        i = i + 1;
        assert(r@ =~= with_slashes(path@.subrange(0, i as int)));
    }
    assert(path@.subrange(0, i as int) =~= path@);
    r
}

/// Takes the slashes from the end of a path.
pub fn trim_end_slashes(path: &[u8]) -> (r: Vec<u8>)
    ensures
        r@ == without_end_slashes(path@),
{
    let mut n: usize = path.len();
    assert(path@.subrange(0, n as int) =~= path@);
    while n > 0 && path[n - 1] == SLASH
        invariant
            n <= path.len(),
            without_end_slashes(path@) == without_end_slashes(path@.subrange(0, n as int)),
        decreases n,
    {
        assert(path@.subrange(0, n as int).drop_last() =~= path@.subrange(0, n - 1));
        n = n - 1;
    }
    let mut r: Vec<u8> = Vec::new();
    crate::bytestr::append_range(&mut r, path, 0, n);
    assert(r@ =~= path@.subrange(0, n as int));
    r
}

/// Takes the extension from a path.
pub fn strip_extension(path: &[u8]) -> (r: Vec<u8>)
    ensures
        r@ == without_extension(path@),
{
    let mut n: usize = path.len();
    while n > 0 && path[n - 1] != SLASH && path[n - 1] != POINT
        invariant
            n <= path.len(),
            without_extension(path@) == cut_extension(path@, n as nat),
        decreases n,
    {
        n = n - 1;
    }
    if n > 0 && path[n - 1] == POINT {
        let mut r: Vec<u8> = Vec::new();
        crate::bytestr::append_range(&mut r, path, 0, n - 1);
        assert(r@ =~= path@.subrange(0, n - 1));
        r
    } else {
        copy_bytes(path)
    }
}

/// Takes the file name from a path and leaves the folder.
pub fn strip_filename(path: &[u8]) -> (r: Vec<u8>)
    ensures
        r@ == without_filename(path@),
{
    let mut n: usize = path.len();
    while n > 0 && path[n - 1] != SLASH
        invariant
            n <= path.len(),
            without_filename(path@) == cut_filename(path@, n as nat),
        decreases n,
    {
        n = n - 1;
    }
    let mut r: Vec<u8> = Vec::new();
    if n > 0 {
        crate::bytestr::append_range(&mut r, path, 0, n - 1);
        assert(r@ =~= path@.subrange(0, n - 1));
    }
    r
}

/// Brings a folder's path into the form the tools use.
pub fn folder_path(path: &[u8]) -> (r: Vec<u8>)
    ensures
        r@ == folder_of(path@),
{
    let fixed = fix_slashes(path);
    let mut r = trim_end_slashes(fixed.as_slice());
    r.push(SLASH);
    r
}

/// Names the archive that is made of `folder`.
pub fn archive_path(folder: &[u8], out_file: &[u8]) -> (r: Vec<u8>)
    ensures
        r@ == archive_name(folder@, out_file@),
{
    let mut r = if out_file.len() == 0 {
        let trimmed = trim_end_slashes(folder);
        strip_extension(trimmed.as_slice())
    } else {
        strip_extension(out_file)
    };
    append_bytes(&mut r, ".gma".as_bytes());
    r
}

/// Names the folder into which the archive `file` is unpacked.
pub fn extract_path(file: &[u8], out_path: &[u8]) -> (r: Vec<u8>)
    ensures
        r@ == target_folder(file@, out_path@),
{
    if out_path.len() == 0 {
        let stripped = strip_extension(file);
        folder_path(stripped.as_slice())
    } else {
        folder_path(out_path)
    }
}

/// Appends the decimal digits of a number.
pub fn append_decimal(out: &mut Vec<u8>, n: u64)
    ensures
        final(out)@ == old(out)@ + decimal(n as nat),
    decreases n,
{
    let ghost before = out@;
    if n >= 10 {
        append_decimal(out, n / 10);
    }
    out.push(0x30 + (n % 10) as u8);
    assert(out@ =~= before + decimal(n as nat));
}

/// Names the file that takes the bytes of one that could not be written
/// under its own name.
pub fn fallback_path(out_path: &[u8], count: u64) -> (r: Vec<u8>)
    ensures
        r@ == fallback_name(out_path@, count as nat),
{
    let mut r = copy_bytes(out_path);
    append_bytes(&mut r, "badnames/".as_bytes());
    append_decimal(&mut r, count);
    append_bytes(&mut r, ".unk".as_bytes());
    r
}

} // verus!
