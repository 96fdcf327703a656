//! Taking an archive apart: which files it holds, where each goes, and what
//! each holds.

use crate::addon_reader::{entry_views, Reader};
use crate::bytestr::{append_bytes, copy_bytes};
use crate::layout::{entry_contents, parse_index, well_indexed, IndexView};
use crate::paths::{extract_path, strip_filename, target_folder, without_filename};
use vstd::prelude::*;

verus! {

/// A file taken from an archive, as a mathematical value.
pub struct ExtractedView {
    pub name: Seq<u8>,
    pub size: u64,
    pub folder: Seq<u8>,
    pub target: Seq<u8>,
    pub contents: Option<Seq<u8>>,
}

/// A file taken from an archive.
#[derive(Debug)]
pub struct Extracted {
    /// The file's path inside the archive.
    pub name: Vec<u8>,
    /// The size that the archive records for the file.
    pub size: u64,
    /// The folder that must exist before the file is written.
    pub folder: Vec<u8>,
    /// The path under which the file is written.
    pub target: Vec<u8>,
    /// The file's bytes, or `None` where the archive does not hold them all.
    pub contents: Option<Vec<u8>>,
}

impl View for Extracted {
    type V = ExtractedView;

    open spec fn view(&self) -> ExtractedView {
        ExtractedView {
            name: self.name@,
            size: self.size,
            folder: self.folder@,
            target: self.target@,
            contents: match self.contents {
                Some(bytes) => Some(bytes@),
                None => None,
            },
        }
    }
}

/// The files that a vector holds.
pub open spec fn extracted_views(v: Seq<Extracted>) -> Seq<ExtractedView> {
    Seq::new(v.len(), |i: int| v[i]@)
}

/// What is taken from an archive.
#[derive(Debug)]
pub struct Extraction {
    /// The folder that takes the files; it ends in a slash.
    pub out_path: Vec<u8>,
    /// The files, in the order of the archive's table.
    pub files: Vec<Extracted>,
}

/// What becomes of the entry with index `i` when the archive in `buffer` is
/// unpacked into `out_path`.
pub open spec fn extracted_entry(buffer: Seq<u8>, index: IndexView, out_path: Seq<u8>, i: int) -> ExtractedView {
    ExtractedView {
        name: index.entries[i].name,
        size: index.entries[i].size,
        folder: out_path + without_filename(index.entries[i].name),
        target: out_path + index.entries[i].name,
        contents: entry_contents(buffer, index.entries, index.file_block, (i + 1) as u32),
    }
}

/// What becomes of the entries of the archive in `buffer` when it is
/// unpacked into `out_path`.
pub open spec fn extraction(buffer: Seq<u8>, index: IndexView, out_path: Seq<u8>) -> Seq<
    ExtractedView,
> {
    Seq::new(index.entries.len(), |i: int| extracted_entry(buffer, index, out_path, i))
}

/// Why nothing was taken from an archive.
#[derive(Debug)]
pub enum ExtractFailure {
    /// The archive could not be read.
    Open,
    /// What was read is no archive.
    Parse,
}

/// Takes apart the archive whose bytes are `contents`, or `None` where the
/// archive could not be read. `str_file` is the archive's path and
/// `str_out_path` the folder to unpack into, which may be empty: then the
/// archive's path without its extension names the folder. A file whose
/// bytes the archive does not hold in full comes without contents; the
/// others are not affected.
pub fn extract_addon_file(contents: Option<Vec<u8>>, str_file: &[u8], str_out_path: &[u8]) -> (r:
    Result<Extraction, ExtractFailure>)
    ensures
        match contents {
            None => r matches Err(ExtractFailure::Open),
            Some(bytes) => match parse_index(bytes@) {
                None => r matches Err(ExtractFailure::Parse),
                Some(index) => r matches Ok(taken) && taken.out_path@ == target_folder(
                    str_file@,
                    str_out_path@,
                ) && extracted_views(taken.files@) == extraction(bytes@, index, taken.out_path@),
            },
        },
{
    let out_path = extract_path(str_file, str_out_path);
    let mut reader = Reader::new();
    if !reader.read_from_file(contents) {
        return Err(ExtractFailure::Open);
    }
    let ghost buffer = reader@.buffer;
    if !reader.parse() {
        return Err(ExtractFailure::Parse);
    }
    let ghost index = parse_index(buffer).unwrap();
    let list = reader.get_list();
    let mut files: Vec<Extracted> = Vec::new();
    let mut i: usize = 0;
    assert(extracted_views(files@) =~= extraction(buffer, index, out_path@).subrange(0, 0));
    while i < list.len()
        invariant
            i <= list.len(),
            entry_views(list@) == index.entries,
            well_indexed(index.entries),
            reader@.buffer == buffer,
            reader@.entries == index.entries,
            reader@.file_block == index.file_block,
            extracted_views(files@) == extraction(buffer, index, out_path@).subrange(0, i as int),
        decreases list.len() - i,
    {
        let entry = &list[i];
        assert(index.entries[i as int] == entry@);
        assert(index.entries[i as int].file_number == i + 1);
        let mut bytes: Vec<u8> = Vec::new();
        let found = reader.read_file(entry.i_file_number, &mut bytes);
        let mut folder = copy_bytes(out_path.as_slice());
        let inner = strip_filename(entry.str_name.as_slice());
        append_bytes(&mut folder, inner.as_slice());
        let mut target = copy_bytes(out_path.as_slice());
        append_bytes(&mut target, entry.str_name.as_slice());
        let file = Extracted {
            name: copy_bytes(entry.str_name.as_slice()),
            size: entry.i_size,
            folder,
            target,
            contents: if found {
                Some(bytes)
            } else {
                None
            },
        };
        let ghost before = extracted_views(files@);
        proof {
            if found {
                assert(Seq::<u8>::empty() + bytes@ =~= bytes@);
            }
            assert(file@ == extracted_entry(buffer, index, out_path@, i as int));
        }
        files.push(file);
        assert(extracted_views(files@) =~= before.push(file@));
        i = i + 1;
        assert(extraction(buffer, index, out_path@).subrange(0, i as int) =~= before.push(
            extraction(buffer, index, out_path@)[i - 1],
        ));
    }
    assert(extraction(buffer, index, out_path@).subrange(0, i as int) =~= extraction(
        buffer,
        index,
        out_path@,
    ));
    Ok(Extraction { out_path, files })
}

} // verus!
