//! The byte layout of an archive, as mathematics: what the writer emits for a
//! list of files, and what the reader makes of a buffer.

use crate::addon_format::{author_name, ident, EntryView, Header, VERSION};
use crate::bytestr::lower;
use crate::crc32::crc32;
use crate::wire::{cstr, read_cstr, read_u32, read_u64, u32_le, u64_le};
use vstd::prelude::*;

verus! {

/// A file that is to enter an archive, as a mathematical value.
pub struct SourceView {
    pub name: Seq<u8>,
    pub contents: Seq<u8>,
}

/// A file that is to enter an archive: its path below the addon's folder, and
/// its bytes.
#[derive(Debug)]
pub struct SourceFile {
    pub name: Vec<u8>,
    pub contents: Vec<u8>,
}

impl View for SourceFile {
    type V = SourceView;

    open spec fn view(&self) -> SourceView {
        SourceView { name: self.name@, contents: self.contents@ }
    }
}

/// The files that a vector holds.
pub open spec fn source_views(v: Seq<SourceFile>) -> Seq<SourceView> {
    Seq::new(v.len(), |i: int| v[i]@)
}

/// Whether a list of files can be written: the file numbers fit the four
/// bytes that the table gives them, and no file is empty.
pub open spec fn creatable(files: Seq<SourceView>) -> bool {
    &&& files.len() <= u32::MAX
    &&& forall|i: int| 0 <= i < files.len() ==> (#[trigger] files[i]).contents.len() > 0
}

/// The header: magic, version, the unused identity, the timestamp, an empty
/// list of required content, title, description, author and the unused
/// addon version.
pub open spec fn header_bytes(timestamp: u64, title: Seq<u8>, description: Seq<u8>) -> Seq<u8> {
    ident() + seq![VERSION] + u64_le(0) + u64_le(timestamp) + seq![0u8] + cstr(title) + cstr(
        description,
    ) + cstr(author_name()) + u32_le(1)
}

/// The CRC field of a file: its CRC-32, or zero where checksums are off.
pub open spec fn crc_field(contents: Seq<u8>, do_crc: bool) -> u32 {
    if do_crc {
        crc32(contents)
    } else {
        0
    }
}

/// The table entry of the file with index `i`: its number, its path in lower
/// case, its size and its CRC field.
pub open spec fn entry_bytes(files: Seq<SourceView>, i: int, do_crc: bool) -> Seq<u8> {
    u32_le((i + 1) as u32) + cstr(lower(files[i].name)) + u64_le(files[i].contents.len() as u64)
        + u32_le(crc_field(files[i].contents, do_crc))
}

/// The table entries of the first `n` files, in order.
pub open spec fn table_bytes(files: Seq<SourceView>, n: nat, do_crc: bool) -> Seq<u8>
    decreases n,
{
    if n == 0 {
        Seq::empty()
    } else {
        table_bytes(files, (n - 1) as nat, do_crc) + entry_bytes(files, n - 1, do_crc)
    }
}

/// The bytes of the first `n` files, laid end to end.
pub open spec fn data_bytes(files: Seq<SourceView>, n: nat) -> Seq<u8>
    decreases n,
{
    if n == 0 {
        Seq::empty()
    } else {
        data_bytes(files, (n - 1) as nat) + files[n - 1].contents
    }
}

/// Everything but the trailing checksum: header, table, the zero that ends
/// the table, and the files' bytes.
pub open spec fn body_bytes(
    title: Seq<u8>,
    description: Seq<u8>,
    timestamp: u64,
    files: Seq<SourceView>,
    do_crc: bool,
) -> Seq<u8> {
    header_bytes(timestamp, title, description) + table_bytes(files, files.len(), do_crc) + u32_le(
        0,
    ) + data_bytes(files, files.len())
}

/// A whole archive: the body, then the CRC-32 of the body, or zero where
/// checksums are off.
pub open spec fn archive_bytes(
    title: Seq<u8>,
    description: Seq<u8>,
    timestamp: u64,
    files: Seq<SourceView>,
    do_crc: bool,
) -> Seq<u8> {
    let body = body_bytes(title, description, timestamp, files, do_crc);
    body + u32_le(crc_field(body, do_crc))
}

/// What the reader learns from a buffer before it looks at the description.
pub struct IndexView {
    pub version: u8,
    pub title: Seq<u8>,
    pub description: Seq<u8>,
    pub author: Seq<u8>,
    pub entries: Seq<EntryView>,
    pub file_block: int,
}

/// The position behind the list of required content that starts at `pos`:
/// strings are read up to and including the first empty one.
pub open spec fn skip_required(s: Seq<u8>, pos: int) -> Option<int>
    decreases s.len() - pos,
{
    match read_cstr(s, pos) {
        None => None,
        Some((text, next)) => if text.len() == 0 {
            Some(next)
        } else {
            skip_required(s, next)
        },
    }
}

/// The entries of the table that starts at `pos`, and the position behind
/// the zero that ends it. Entries are numbered from `number` on, whatever
/// number the table gives them, and the first begins at `offset`. `None`
/// where the buffer ends inside the table, or a number or an offset leaves
/// its field's range.
#[verifier::opaque]
pub open spec fn parse_entries(s: Seq<u8>, pos: int, number: nat, offset: nat) -> Option<
    (Seq<EntryView>, int),
>
    decreases s.len() - pos,
{
    match read_u32(s, pos) {
        None => None,
        Some((marker, pos1)) => if marker == 0 {
            Some((Seq::empty(), pos1))
        } else {
            match read_cstr(s, pos1) {
                None => None,
                Some((name, pos2)) => match read_u64(s, pos2) {
                    None => None,
                    Some((size, pos3)) => match read_u32(s, pos3) {
                        None => None,
                        Some((crc, pos4)) => if number > u32::MAX || offset + size > u64::MAX {
                            None
                        } else {
                            match parse_entries(s, pos4, number + 1, (offset + size) as nat) {
                                None => None,
                                Some((rest, end)) => Some(
                                    (
                                        seq![
                                            EntryView {
                                                name,
                                                size,
                                                crc,
                                                file_number: number as u32,
                                                offset: offset as u64,
                                            },
                                        ] + rest,
                                        end,
                                    ),
                                ),
                            }
                        },
                    },
                },
            }
        },
    }
}

/// The position of the title: behind magic, version, identity and timestamp,
/// and behind the required content where the version has any.
pub open spec fn title_position(s: Seq<u8>, version: u8) -> Option<int> {
    if s.len() < 21 {
        None
    } else if version > 1 {
        skip_required(s, 21)
    } else {
        Some(21)
    }
}

/// The index of an archive, or `None` where the buffer is none: the magic is
/// wrong, the version is newer than this codec, or the buffer ends before
/// the table does.
pub open spec fn parse_index(s: Seq<u8>) -> Option<IndexView> {
    match Header::at_start(s) {
        None => None,
        Some(header) => if !header.supported() {
            None
        } else {
            match title_position(s, header.version) {
                None => None,
                Some(pos0) => match read_cstr(s, pos0) {
                    None => None,
                    Some((title, pos1)) => match read_cstr(s, pos1) {
                        None => None,
                        Some((description, pos2)) => match read_cstr(s, pos2) {
                            None => None,
                            Some((author, pos3)) => match read_u32(s, pos3) {
                                None => None,
                                Some((_, pos4)) => match parse_entries(s, pos4, 1, 0) {
                                    None => None,
                                    Some((entries, file_block)) => Some(
                                        IndexView {
                                            version: header.version,
                                            title,
                                            description,
                                            author,
                                            entries,
                                            file_block,
                                        },
                                    ),
                                },
                            },
                        },
                    },
                },
            }
        },
    }
}

/// The bytes of the entry with the number `file_number`, cut from the file
/// block; `None` where no entry has that number or the buffer does not hold
/// all of the entry's bytes.
pub open spec fn entry_contents(
    s: Seq<u8>,
    entries: Seq<EntryView>,
    file_block: int,
    file_number: u32,
) -> Option<Seq<u8>> {
    if 1 <= file_number <= entries.len() {
        let e = entries[file_number - 1];
        if file_block + e.offset + e.size <= s.len() {
            Some(s.subrange(file_block + e.offset, file_block + e.offset + e.size))
        } else {
            None
        }
    } else {
        None
    }
}

/// Whether the entries carry the numbers `first`, `first + 1` and so on.
pub open spec fn numbered_from(entries: Seq<EntryView>, first: int) -> bool {
    forall|i: int| 0 <= i < entries.len() ==> (#[trigger] entries[i]).file_number == first + i
}

/// Whether the first entry begins at `start` and each further entry where the
/// one before it ends.
pub open spec fn chained_from(entries: Seq<EntryView>, start: int) -> bool {
    &&& entries.len() > 0 ==> entries[0].offset == start
    &&& forall|i: int, j: int|
        0 <= i && j == i + 1 && j < entries.len() ==> (#[trigger] entries[j]).offset == (
        #[trigger] entries[i]).offset + entries[i].size
}

/// Whether a table is as the reader makes it: numbered from 1 without gaps,
/// with each file's bytes directly behind those of the file before.
pub open spec fn well_indexed(entries: Seq<EntryView>) -> bool {
    numbered_from(entries, 1) && chained_from(entries, 0)
}

/// Whatever table the reader accepts, it numbers the entries from `number` on
/// without gaps, lays their bytes end to end from `offset` on, and stops
/// behind the first zero that stands where a file number is due.
pub proof fn lemma_parse_entries(s: Seq<u8>, pos: int, number: nat, offset: nat)
    ensures
        parse_entries(s, pos, number, offset) matches Some((entries, end)) ==> {
            &&& numbered_from(entries, number as int)
            &&& chained_from(entries, offset as int)
            &&& pos + 4 <= end <= s.len()
            &&& read_u32(s, end - 4) == Some((0u32, end))
            &&& entries.len() > 0 ==> entries.last().offset + entries.last().size <= u64::MAX
        },
    decreases s.len() - pos,
{
    reveal(parse_entries);
    match read_u32(s, pos) {
        None => {},
        Some((marker, pos1)) => {
            if marker != 0 {
                match read_cstr(s, pos1) {
                    None => {},
                    Some((name, pos2)) => match read_u64(s, pos2) {
                        None => {},
                        Some((size, pos3)) => match read_u32(s, pos3) {
                            None => {},
                            Some((crc, pos4)) => {
                                if !(number > u32::MAX || offset + size > u64::MAX) {
                                    lemma_parse_entries(s, pos4, number + 1, (offset + size) as nat);
                                    match parse_entries(s, pos4, number + 1, (offset + size) as nat) {
                                        None => {},
                                        Some((rest, end)) => {
                                            let first = EntryView {
                                                name,
                                                size,
                                                crc,
                                                file_number: number as u32,
                                                offset: offset as u64,
                                            };
                                            let entries = seq![first] + rest;
                                            assert(entries[0] == first);
                                            assert forall|i: int|
                                                1 <= i < entries.len() implies #[trigger] entries[i]
                                                == rest[i - 1] by {}
                                            assert(numbered_from(entries, number as int));
                                            assert(chained_from(entries, offset as int)) by {
                                                assert forall|i: int, j: int|
                                                    0 <= i && j == i + 1 && j
                                                        < entries.len() implies (
                                                #[trigger] entries[j]).offset == (
                                                #[trigger] entries[i]).offset
                                                    + entries[i].size by {
                                                    if i == 0 {
                                                        assert(entries[1] == rest[0]);
                                                    } else {
                                                        assert(entries[i] == rest[i - 1]);
                                                        assert(entries[j] == rest[j - 1]);
                                                    }
                                                }
                                            }
                                            if rest.len() > 0 {
                                                assert(entries.last() == rest.last());
                                            }
                                        },
                                    }
                                }
                            },
                        },
                    },
                }
            }
        },
    }
}

/// Whatever buffer the reader accepts begins with the magic identifier and
/// a version that this codec knows; a buffer with any other beginning is
/// refused.
pub proof fn lemma_index_needs_header(s: Seq<u8>)
    ensures
        parse_index(s) matches Some(index) ==> {
            &&& s.len() >= 5
            &&& s.subrange(0, 4) == ident()
            &&& s[4] <= VERSION
            &&& index.version == s[4]
        },
{
    if parse_index(s).is_some() {
        let header = Header::at_start(s).unwrap();
        assert(s.subrange(0, 4) =~= header.ident@);
    }
}

/// The index of whatever buffer the reader accepts is numbered from 1
/// without gaps, lays the files' bytes end to end from the start of the file
/// block on, and ends at the first zero that stands where a file number is
/// due: the file block begins directly behind that zero.
pub proof fn lemma_index_well_formed(s: Seq<u8>)
    ensures
        parse_index(s) matches Some(index) ==> {
            &&& well_indexed(index.entries)
            &&& 4 <= index.file_block <= s.len()
            &&& read_u32(s, index.file_block - 4) == Some((0u32, index.file_block))
        },
{
    match Header::at_start(s) {
        None => {},
        Some(header) => {
            if header.supported() {
                match title_position(s, header.version) {
                    None => {},
                    Some(pos0) => match read_cstr(s, pos0) {
                        None => {},
                        Some((title, pos1)) => match read_cstr(s, pos1) {
                            None => {},
                            Some((description, pos2)) => match read_cstr(s, pos2) {
                                None => {},
                                Some((author, pos3)) => match read_u32(s, pos3) {
                                    None => {},
                                    Some((_, pos4)) => {
                                        lemma_parse_entries(s, pos4, 1, 0);
                                    },
                                },
                            },
                        },
                    },
                }
            }
        },
    }
}

/// Where no entry is empty, a later entry begins behind an earlier one.
pub proof fn lemma_offsets_increase(entries: Seq<EntryView>, start: int, i: int, j: int)
    requires
        chained_from(entries, start),
        forall|k: int| 0 <= k < entries.len() ==> (#[trigger] entries[k]).size > 0,
        0 <= i < j < entries.len(),
    ensures
        entries[i].offset < entries[j].offset,
        entries[i].offset + entries[i].size <= entries[j].offset,
    decreases j - i,
{
    if j == i + 1 {
        assert(entries[j].offset == entries[i].offset + entries[i].size);
    } else {
        lemma_offsets_increase(entries, start, i, j - 1);
        assert(entries[j].offset == entries[j - 1].offset + entries[j - 1].size);
    }
}

/// With checksums off every checksum field of an archive is zero: that of
/// each entry, and the four bytes at the archive's end.
pub proof fn lemma_no_checksums(
    title: Seq<u8>,
    description: Seq<u8>,
    timestamp: u64,
    files: Seq<SourceView>,
)
    ensures
        forall|i: int|
            0 <= i < files.len() ==> #[trigger] entry_bytes(files, i, false) == u32_le(
                (i + 1) as u32,
            ) + cstr(lower(files[i].name)) + u64_le(files[i].contents.len() as u64) + seq![
                0u8,
                0u8,
                0u8,
                0u8,
            ],
        archive_bytes(title, description, timestamp, files, false) == body_bytes(
            title,
            description,
            timestamp,
            files,
            false,
        ) + seq![0u8, 0u8, 0u8, 0u8],
{
    assert(u32_le(0) =~= seq![0u8, 0u8, 0u8, 0u8]);
}

/// Whether the bytes of the entry with the number `file_number` have the
/// checksum that the table records for them; `None` where the entry or
/// some of its bytes are missing.
pub open spec fn entry_intact(
    s: Seq<u8>,
    entries: Seq<EntryView>,
    file_block: int,
    file_number: u32,
) -> Option<bool> {
    match entry_contents(s, entries, file_block, file_number) {
        None => None,
        Some(bytes) => Some(crc32(bytes) == entries[file_number - 1].crc),
    }
}

/// Whether the last four bytes of a buffer are the checksum of all bytes
/// before them.
pub open spec fn archive_intact(s: Seq<u8>) -> bool {
    s.len() >= 4 && read_u32(s, s.len() - 4) == Some(
        (crc32(s.subrange(0, s.len() - 4)), s.len() as int),
    )
}

} // verus!
