//! Reading an archive: the index of its entries, and the bytes of each.

pub use crate::addon_format::FileEntry;
use crate::addon_format::{EntryView, Header};
use crate::addon_json::{carried_tags, decode_description, plain_description};
use crate::bytestr::append_range;
use crate::crc32::checksum_range;
use crate::json::texts;
use crate::layout::{
    archive_intact, entry_contents, entry_intact, lemma_parse_entries, parse_entries,
    parse_index, skip_required, well_indexed, IndexView,
};
use crate::wire::{get_cstr, get_u32, get_u64};
use vstd::prelude::*;

verus! {

/// The entries that a vector holds.
pub open spec fn entry_views(v: Seq<FileEntry>) -> Seq<EntryView> {
    Seq::new(v.len(), |i: int| v[i]@)
}

/// A reader, as a mathematical value.
pub struct ReaderView {
    /// The bytes of the archive.
    pub buffer: Seq<u8>,
    pub version: u8,
    pub title: Seq<u8>,
    pub author: Seq<u8>,
    /// The description in plain words.
    pub description: Seq<u8>,
    /// Where the files' bytes begin in the buffer.
    pub file_block: int,
    pub tags: Seq<Seq<u8>>,
    pub entries: Seq<EntryView>,
}

/// The reader before it has a buffer.
pub open spec fn blank() -> ReaderView {
    ReaderView {
        buffer: Seq::empty(),
        version: 0,
        title: Seq::empty(),
        author: Seq::empty(),
        description: Seq::empty(),
        file_block: 0,
        tags: Seq::empty(),
        entries: Seq::empty(),
    }
}

/// The reader after it has parsed `buffer` and found `index`: the
/// description field is split into the plain description and the tags.
pub open spec fn parsed(buffer: Seq<u8>, index: IndexView) -> ReaderView {
    ReaderView {
        buffer,
        version: index.version,
        title: index.title,
        author: index.author,
        description: plain_description(index.description),
        file_block: index.file_block,
        tags: carried_tags(index.description),
        entries: index.entries,
    }
}

/// Parsing changes nothing that parsing reads: a reader that has parsed its
/// buffer comes out of a second parse as it went in.
pub proof fn lemma_parse_again(buffer: Seq<u8>, index: IndexView)
    requires
        parse_index(buffer) == Some(index),
    ensures
        parse_index(parsed(buffer, index).buffer) == Some(index),
        parsed(parsed(buffer, index).buffer, index) == parsed(buffer, index),
{
}

/// Holds the bytes of an archive and, once they are parsed, the index of
/// its entries.
pub struct Reader {
    buffer: Vec<u8>,
    fmt_version: u8,
    name: Vec<u8>,
    author: Vec<u8>,
    desc: Vec<u8>,
    file_block: usize,
    tags: Vec<Vec<u8>>,
    index: Vec<FileEntry>,
}

impl View for Reader {
    type V = ReaderView;

    closed spec fn view(&self) -> ReaderView {
        ReaderView {
            buffer: self.buffer@,
            version: self.fmt_version,
            title: self.name@,
            author: self.author@,
            description: self.desc@,
            file_block: self.file_block as int,
            tags: texts(self.tags@),
            entries: entry_views(self.index@),
        }
    }
}

/// Reads over the list of required content that starts at `pos`.
pub fn skip_required_list(s: &[u8], pos: usize) -> (r: Option<usize>)
    ensures
        match r {
            Some(next) => skip_required(s@, pos as int) == Some(next as int),
            None => skip_required(s@, pos as int).is_none(),
        },
{
    let mut at: usize = pos;
    loop
        invariant
            skip_required(s@, at as int) == skip_required(s@, pos as int),
            pos <= at,
        decreases s.len() - at,
    {
        match get_cstr(s, at) {
            None => {
                return None;
            },
            Some((text, next)) => {
                if text.len() == 0 {
                    return Some(next);
                }
                proof {
                    crate::wire::lemma_run_length(s@, at as int);
                }
                at = next;
            },
        }
    }
}

/// Reads the file table that starts at `pos`.
pub fn read_entries(s: &[u8], pos: usize) -> (r: Option<(Vec<FileEntry>, usize)>)
    ensures
        match r {
            Some((entries, end)) => parse_entries(s@, pos as int, 1, 0) == Some(
                (entry_views(entries@), end as int),
            ) && end <= s.len(),
            None => parse_entries(s@, pos as int, 1, 0).is_none(),
        },
{
    let mut entries: Vec<FileEntry> = Vec::new();
    let mut at: usize = pos;
    let mut number: u32 = 1;
    let mut offset: u64 = 0;
    let mut full: bool = false;
    assert(entry_views(entries@) =~= Seq::empty());
    loop
        invariant
            pos <= at,
            number >= 1,
            !full ==> number == entries.len() + 1,
            full ==> entries.len() == u32::MAX,
            parse_entries(s@, pos as int, 1, 0) == match parse_entries(
                s@,
                at as int,
                (entries.len() + 1) as nat,
                offset as nat,
            ) {
                None => None::<(Seq<EntryView>, int)>,
                Some((rest, end)) => Some((entry_views(entries@) + rest, end)),
            },
        decreases s.len() - at,
    {
        proof {
            reveal(parse_entries);
        }
        let (marker, pos1) = match get_u32(s, at) {
            None => {
                return None;
            },
            Some(found) => found,
        };
        if marker == 0 {
            assert(entry_views(entries@) + Seq::<EntryView>::empty() =~= entry_views(entries@));
            return Some((entries, pos1));
        }
        let (name, pos2) = match get_cstr(s, pos1) {
            None => {
                return None;
            },
            Some(found) => found,
        };
        let (size, pos3) = match get_u64(s, pos2) {
            None => {
                return None;
            },
            Some(found) => found,
        };
        let (crc, pos4) = match get_u32(s, pos3) {
            None => {
                return None;
            },
            Some(found) => found,
        };
        if full || size > u64::MAX - offset {
            return None;
        }
        proof {
            crate::wire::lemma_run_length(s@, pos1 as int);
        }
        let entry = FileEntry {
            str_name: name,
            i_size: size,
            i_crc: crc,
            i_file_number: number,
            i_offset: offset,
        };
        let ghost before = entry_views(entries@);
        entries.push(entry);
        proof {
            assert(entry_views(entries@) =~= before.push(entry@));
            match parse_entries(s@, pos4 as int, (entries.len() + 1) as nat, (offset + size) as nat) {
                None => {},
                Some((rest, end)) => {
                    assert(before + (seq![entry@] + rest) =~= entry_views(entries@) + rest);
                },
            }
        }
        offset = offset + size;
        if number == u32::MAX {
            full = true;
        } else {
            number = number + 1;
        }
        at = pos4;
    }
}

impl Reader {
    #[verifier::type_invariant]
    spec fn indexed(self) -> bool {
        well_indexed(entry_views(self.index@))
    }

    /// A reader without a buffer.
    pub fn new() -> (r: Reader)
        ensures
            r@ == blank(),
    {
        let r = Reader {
            buffer: Vec::new(),
            fmt_version: 0,
            name: Vec::new(),
            author: Vec::new(),
            desc: Vec::new(),
            file_block: 0,
            tags: Vec::new(),
            index: Vec::new(),
        };
        assert(r@.tags =~= Seq::empty());
        assert(r@.entries =~= Seq::empty());
        r
    }

    /// Takes the contents of an archive file as the reader's buffer.
    /// `contents` is what the file holds, or `None` where it could not be
    /// read: then the buffer is left empty and the result is false. What
    /// the reader knew of an earlier buffer stays until `parse` or `clear`.
    pub fn read_from_file(&mut self, contents: Option<Vec<u8>>) -> (ok: bool)
        ensures
            ok == contents.is_some(),
            final(self)@ == (ReaderView {
                buffer: match contents {
                    Some(bytes) => bytes@,
                    None => Seq::empty(),
                },
                ..old(self)@
            }),
    {
        proof {
            use_type_invariant(&*self);
        }
        match contents {
            Some(bytes) => {
                self.buffer = bytes;
                true
            },
            None => {
                self.buffer = Vec::new();
                false
            },
        }
    }

    /// Reads the header and the file table from the buffer. On success the
    /// reader holds the index: title, author, the description in plain
    /// words with the tags it carried, and the entries, each with the
    /// offset of its bytes. Fails, and leaves the reader as it was, where
    /// the buffer is no archive: the magic is wrong, the version is newer
    /// than this codec, the buffer ends before the table does, or the
    /// table's entries are more, or their sizes add up to more, than their
    /// fields can hold. Parsing the same buffer again gives the same index.
    pub fn parse(&mut self) -> (ok: bool)
        ensures
            match parse_index(old(self)@.buffer) {
                Some(index) => ok && final(self)@ == parsed(old(self)@.buffer, index),
                None => !ok && final(self)@ == old(self)@,
            },
            well_indexed(final(self)@.entries),
    {
        proof {
            use_type_invariant(&*self);
        }
        let s = self.buffer.as_slice();
        let header = match Header::read(s) {
            None => {
                return false;
            },
            Some(header) => header,
        };
        if !header.is_supported() {
            return false;
        }
        if s.len() < 21 {
            return false;
        }
        let pos0 = if header.version > 1 {
            match skip_required_list(s, 21) {
                None => {
                    return false;
                },
                Some(next) => next,
            }
        } else {
            21
        };
        let (title, pos1) = match get_cstr(s, pos0) {
            None => {
                return false;
            },
            Some(found) => found,
        };
        let (description, pos2) = match get_cstr(s, pos1) {
            None => {
                return false;
            },
            Some(found) => found,
        };
        let (author, pos3) = match get_cstr(s, pos2) {
            None => {
                return false;
            },
            Some(found) => found,
        };
        let pos4 = match get_u32(s, pos3) {
            None => {
                return false;
            },
            Some((_, next)) => next,
        };
        let (entries, file_block) = match read_entries(s, pos4) {
            None => {
                return false;
            },
            Some(found) => found,
        };
        proof {
            lemma_parse_entries(s@, pos4 as int, 1, 0);
        }
        let (plain, tags) = decode_description(description);
        self.fmt_version = header.version;
        self.name = title;
        self.author = author;
        self.desc = plain;
        self.tags = tags;
        self.file_block = file_block;
        self.index = entries;
        true
    }

    /// The entry with the number `file_id`, where the index has one.
    pub fn get_file(&self, file_id: u32) -> (r: Option<FileEntry>)
        ensures
            match r {
                Some(entry) => 1 <= file_id <= self@.entries.len() && entry@
                    == self@.entries[file_id - 1] && entry@.file_number == file_id,
                None => !(1 <= file_id <= self@.entries.len()),
            },
    {
        proof {
            use_type_invariant(self);
        }
        if file_id >= 1 && file_id as usize <= self.index.len() {
            let entry = self.index[(file_id - 1) as usize].clone();
            assert(entry@ == self.index@[file_id - 1]@);
            assert(entry_views(self.index@)[file_id - 1] == self.index@[file_id - 1]@);
            assert(entry_views(self.index@)[file_id - 1].file_number == file_id);
            Some(entry)
        } else {
            None
        }
    }

    /// Appends the bytes of the entry with the number `file_id` to `buffer`.
    /// Fails, and appends nothing, where the index has no such entry or the
    /// archive does not hold all of the entry's bytes.
    pub fn read_file(&self, file_id: u32, buffer: &mut Vec<u8>) -> (ok: bool)
        ensures
            match entry_contents(self@.buffer, self@.entries, self@.file_block, file_id) {
                Some(bytes) => ok && final(buffer)@ == old(buffer)@ + bytes,
                None => !ok && final(buffer)@ == old(buffer)@,
            },
    {
        if !(file_id >= 1 && file_id as usize <= self.index.len()) {
            return false;
        }
        let entry = &self.index[(file_id - 1) as usize];
        let length = self.buffer.len() as u64;
        let block = self.file_block as u64;
        if block > length || entry.i_offset > length - block || entry.i_size > length - block
            - entry.i_offset {
            return false;
        }
        let start = (block + entry.i_offset) as usize;
        let end = (block + entry.i_offset + entry.i_size) as usize;
        append_range(buffer, self.buffer.as_slice(), start, end);
        true
    }

    /// Tells whether the bytes of the entry with the number `file_id` have
    /// the checksum that the table records for them. `None` where the index
    /// has no such entry or the archive does not hold all of its bytes.
    /// Reading never does this by itself. An archive that was written
    /// without checksums records zero for every file.
    pub fn verify_file(&self, file_id: u32) -> (r: Option<bool>)
        ensures
            r == entry_intact(self@.buffer, self@.entries, self@.file_block, file_id),
    {
        if !(file_id >= 1 && file_id as usize <= self.index.len()) {
            return None;
        }
        let entry = &self.index[(file_id - 1) as usize];
        assert(self@.entries[file_id - 1] == entry@);
        let length = self.buffer.len() as u64;
        let block = self.file_block as u64;
        if block > length || entry.i_offset > length - block || entry.i_size > length - block
            - entry.i_offset {
            return None;
        }
        let start = (block + entry.i_offset) as usize;
        let end = (block + entry.i_offset + entry.i_size) as usize;
        Some(checksum_range(self.buffer.as_slice(), start, end) == entry.i_crc)
    }

    /// Tells whether the last four bytes of the buffer are the checksum of
    /// all bytes before them. Reading never does this by itself. An archive
    /// that was written without checksums ends in zero.
    pub fn verify_archive(&self) -> (r: bool)
        ensures
            r == archive_intact(self@.buffer),
    {
        let s = self.buffer.as_slice();
        if s.len() < 4 {
            return false;
        }
        let body = s.len() - 4;
        match get_u32(s, body) {
            None => false,
            Some((recorded, _)) => recorded == checksum_range(s, 0, body),
        }
    }

    /// Forgets the buffer and the index.
    pub fn clear(&mut self)
        ensures
            final(self)@ == blank(),
    {
        *self = Reader::new();
    }

    /// The entries of the index, in the order of the table: numbered from 1
    /// without gaps, each with its bytes directly behind those of the entry
    /// before.
    pub fn get_list(&self) -> (r: &Vec<FileEntry>)
        ensures
            entry_views(r@) == self@.entries,
            well_indexed(self@.entries),
    {
        proof {
            use_type_invariant(self);
        }
        &self.index
    }

    /// The format version of the archive parsed last.
    pub fn get_format_version(&self) -> (r: u8)
        ensures
            r == self@.version,
    {
        self.fmt_version
    }

    /// The bytes of the archive.
    pub fn get_buffer(&self) -> (r: &Vec<u8>)
        ensures
            r@ == self@.buffer,
    {
        &self.buffer
    }

    /// The addon's title.
    pub fn title(&self) -> (r: &Vec<u8>)
        ensures
            r@ == self@.title,
    {
        &self.name
    }

    /// The addon's description, in plain words.
    pub fn description(&self) -> (r: &Vec<u8>)
        ensures
            r@ == self@.description,
    {
        &self.desc
    }

    /// The author that the archive names.
    pub fn author(&self) -> (r: &Vec<u8>)
        ensures
            r@ == self@.author,
    {
        &self.author
    }

    /// The addon's tags.
    pub fn tags(&self) -> (r: &Vec<Vec<u8>>)
        ensures
            texts(r@) == self@.tags,
    {
        &self.tags
    }
}

} // verus!
