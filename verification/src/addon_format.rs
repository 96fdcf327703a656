//! The constants of the archive format, its header and file entries, and the
//! controlled vocabularies for an addon's type and tags.

use crate::bytestr::bytes_eq;
use vstd::prelude::*;
use vstd::string::StringSliceAdditionalSpecFns;

verus! {

/// The newest format version this codec writes and reads.
pub const VERSION: u8 = 3;

/// The application the archives belong to.
pub const APP_ID: u32 = 4000;

/// The signature that marks a compressed archive.
pub const COMPRESSION_SIGNATURE: u32 = 0xBEEF_CACE;

/// Where the timestamp stands in an archive: behind the magic, the version
/// and the eight unused identity bytes.
pub const TIMESTAMP_OFFSET: u32 = 13;

/// The magic identifier, `GMAD`.
pub open spec fn ident() -> Seq<u8> {
    seq![0x47u8, 0x4du8, 0x41u8, 0x44u8]
}

/// The author that every written archive names.
pub open spec fn author_name() -> Seq<u8> {
    "Author Name".spec_bytes()
}

/// The first five bytes of an archive.
#[derive(Clone, Copy, Debug)]
pub struct Header {
    pub ident: [u8; 4],
    pub version: u8,
}

impl Header {
    /// Whether the header carries the magic identifier and a version that
    /// this codec understands.
    pub open spec fn supported(self) -> bool {
        self.ident@ == ident() && self.version <= VERSION
    }

    /// The header at the start of `s`, where `s` holds five bytes or more.
    pub open spec fn at_start(s: Seq<u8>) -> Option<Header> {
        if s.len() >= 5 {
            Some(Header { ident: [s[0], s[1], s[2], s[3]], version: s[4] })
        } else {
            None
        }
    }

    /// Reads the header at the start of a buffer.
    pub fn read(s: &[u8]) -> (r: Option<Header>)
        ensures
            r == Header::at_start(s@),
    {
        if s.len() < 5 {
            None
        } else {
            Some(Header { ident: [s[0], s[1], s[2], s[3]], version: s[4] })
        }
    }

    /// Tells whether the header is one this codec accepts.
    pub fn is_supported(&self) -> (r: bool)
        ensures
            r == self.supported(),
    {
        let r = self.ident[0] == 0x47 && self.ident[1] == 0x4d && self.ident[2] == 0x41
            && self.ident[3] == 0x44 && self.version <= VERSION;
        proof {
            if r {
                assert(self.ident@ =~= ident());
            } else if self.version <= VERSION {
                assert(ident()[0] == 0x47 && ident()[1] == 0x4d && ident()[2] == 0x41 && ident()[3]
                    == 0x44);
            }
        }
        r
    }
}

/// What an entry of the file table is, as a mathematical value.
pub struct EntryView {
    pub name: Seq<u8>,
    pub size: u64,
    pub crc: u32,
    pub file_number: u32,
    pub offset: u64,
}

/// One entry of the file table.
#[derive(Debug)]
pub struct FileEntry {
    /// The path inside the archive.
    pub str_name: Vec<u8>,
    /// The file's length in bytes.
    pub i_size: u64,
    /// The CRC-32 that the archive records for the file.
    pub i_crc: u32,
    /// The entry's place in the table, counted from 1.
    pub i_file_number: u32,
    /// Where the file's bytes begin, counted from the start of the file block.
    pub i_offset: u64,
}

impl View for FileEntry {
    type V = EntryView;

    open spec fn view(&self) -> EntryView {
        EntryView {
            name: self.str_name@,
            size: self.i_size,
            crc: self.i_crc,
            file_number: self.i_file_number,
            offset: self.i_offset,
        }
    }
}

impl Clone for FileEntry {
    fn clone(&self) -> (r: Self)
        ensures
            r@ == self@,
    {
        FileEntry {
            str_name: crate::bytestr::copy_bytes(self.str_name.as_slice()),
            i_size: self.i_size,
            i_crc: self.i_crc,
            i_file_number: self.i_file_number,
            i_offset: self.i_offset,
        }
    }
}

/// The addon types, in the order of the format's documentation.
pub open spec fn type_names() -> Seq<Seq<u8>> {
    seq![
        "gamemode".spec_bytes(),
        "map".spec_bytes(),
        "weapon".spec_bytes(),
        "vehicle".spec_bytes(),
        "npc".spec_bytes(),
        "entity".spec_bytes(),
        "tool".spec_bytes(),
        "effects".spec_bytes(),
        "model".spec_bytes(),
        "servercontent".spec_bytes(),
    ]
}

/// The tags an addon may carry.
pub open spec fn tag_names() -> Seq<Seq<u8>> {
    seq![
        "fun".spec_bytes(),
        "roleplay".spec_bytes(),
        "scenic".spec_bytes(),
        "movie".spec_bytes(),
        "realism".spec_bytes(),
        "cartoon".spec_bytes(),
        "water".spec_bytes(),
        "comic".spec_bytes(),
        "build".spec_bytes(),
    ]
}

/// Tells whether `name` is one of the addon types.
pub fn type_exists(name: &[u8]) -> (r: bool)
    ensures
        r == type_names().contains(name@),
{
    let r = bytes_eq(name, "gamemode".as_bytes()) || bytes_eq(name, "map".as_bytes()) || bytes_eq(
        name,
        "weapon".as_bytes(),
    ) || bytes_eq(name, "vehicle".as_bytes()) || bytes_eq(name, "npc".as_bytes()) || bytes_eq(
        name,
        "entity".as_bytes(),
    ) || bytes_eq(name, "tool".as_bytes()) || bytes_eq(name, "effects".as_bytes()) || bytes_eq(
        name,
        "model".as_bytes(),
    ) || bytes_eq(name, "servercontent".as_bytes());
    proof {
        let t = type_names();
        assert(t.len() == 10);
        assert(t[0] == "gamemode".spec_bytes() && t[1] == "map".spec_bytes() && t[2]
            == "weapon".spec_bytes() && t[3] == "vehicle".spec_bytes() && t[4]
            == "npc".spec_bytes());
        assert(t[5] == "entity".spec_bytes() && t[6] == "tool".spec_bytes() && t[7]
            == "effects".spec_bytes() && t[8] == "model".spec_bytes() && t[9]
            == "servercontent".spec_bytes());
    }
    r
}

/// Tells whether `name` is one of the tags.
pub fn tag_exists(name: &[u8]) -> (r: bool)
    ensures
        r == tag_names().contains(name@),
{
    let r = bytes_eq(name, "fun".as_bytes()) || bytes_eq(name, "roleplay".as_bytes()) || bytes_eq(
        name,
        "scenic".as_bytes(),
    ) || bytes_eq(name, "movie".as_bytes()) || bytes_eq(name, "realism".as_bytes()) || bytes_eq(
        name,
        "cartoon".as_bytes(),
    ) || bytes_eq(name, "water".as_bytes()) || bytes_eq(name, "comic".as_bytes()) || bytes_eq(
        name,
        "build".as_bytes(),
    );
    proof {
        let t = tag_names();
        assert(t.len() == 9);
        assert(t[0] == "fun".spec_bytes() && t[1] == "roleplay".spec_bytes() && t[2]
            == "scenic".spec_bytes() && t[3] == "movie".spec_bytes() && t[4]
            == "realism".spec_bytes());
        assert(t[5] == "cartoon".spec_bytes() && t[6] == "water".spec_bytes() && t[7]
            == "comic".spec_bytes() && t[8] == "build".spec_bytes());
    }
    r
}

} // verus!
