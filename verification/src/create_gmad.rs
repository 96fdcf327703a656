//! Building an archive from files held in memory.

use crate::addon_json::{description_json, ignored, CAddonJson};
use crate::addon_whitelist::{allowed, check};
use crate::bytestr::{append_bytes, bytes_le, copy_bytes, precedes, to_lower};
use crate::crc32::checksum;
use crate::json::texts;
use crate::layout::{
    archive_bytes, body_bytes, creatable, data_bytes, entry_bytes, header_bytes, source_views,
    table_bytes, SourceFile, SourceView,
};
use crate::paths::{archive_name, archive_path, folder_of, folder_path};
use crate::wire::{write_cstr, write_u32, write_u64};
use vstd::prelude::*;

verus! {

/// Tells whether a list of files can be written.
pub fn can_create(files: &Vec<SourceFile>) -> (r: bool)
    ensures
        r == creatable(source_views(files@)),
{
    if files.len() > 0xFFFF_FFFF {
        return false;
    }
    let mut i: usize = 0;
    while i < files.len()
        invariant
            i <= files.len(),
            forall|k: int|
                0 <= k < i ==> (#[trigger] source_views(files@)[k]).contents.len() > 0,
        decreases files.len() - i,
    {
        assert(source_views(files@)[i as int] == files@[i as int]@);
        if files[i].contents.len() == 0 {
            return false;
        }
        i = i + 1;
    }
    true
}

/// Writes the archive of `files` into `buffer`, in the order given: header,
/// table, file bytes, checksum. `timestamp` is the time of creation in
/// seconds since the epoch. Where `do_crc` is false every checksum field is
/// zero. Fails, and leaves the buffer empty, where a file is empty or the
/// files are more than the table can number.
pub fn create(
    buffer: &mut Vec<u8>,
    files: &Vec<SourceFile>,
    str_title: &[u8],
    str_description: &[u8],
    timestamp: u64,
    do_crc: bool,
) -> (ok: bool)
    ensures
        ok == creatable(source_views(files@)),
        ok ==> final(buffer)@ == archive_bytes(
            str_title@,
            str_description@,
            timestamp,
            source_views(files@),
            do_crc,
        ),
        !ok ==> final(buffer)@ == Seq::<u8>::empty(),
{
    buffer.clear();
    if !can_create(files) {
        return false;
    }
    buffer.push(0x47u8);
    buffer.push(0x4du8);
    buffer.push(0x41u8);
    buffer.push(0x44u8);
    buffer.push(crate::addon_format::VERSION);
    write_u64(buffer, 0);
    write_u64(buffer, timestamp);
    buffer.push(0u8);
    write_cstr(buffer, str_title);
    write_cstr(buffer, str_description);
    write_cstr(buffer, "Author Name".as_bytes());
    write_u32(buffer, 1);
    let ghost header = header_bytes(timestamp, str_title@, str_description@);
    let ghost sources = source_views(files@);
    assert(buffer@ =~= header);

    let mut i: usize = 0;
    while i < files.len()
        invariant
            i <= files.len(),
            creatable(sources),
            sources == source_views(files@),
            buffer@ == header + table_bytes(sources, i as nat, do_crc),
        decreases files.len() - i,
    {
        let ghost before = buffer@;
        let file = &files[i];
        assert(sources[i as int] == file@);
        write_u32(buffer, (i + 1) as u32);
        let name = to_lower(file.name.as_slice());
        write_cstr(buffer, name.as_slice());
        write_u64(buffer, file.contents.len() as u64);
        if do_crc {
            write_u32(buffer, checksum(file.contents.as_slice()));
        } else {
            write_u32(buffer, 0);
        }
        assert(buffer@ =~= before + entry_bytes(sources, i as int, do_crc));
        i = i + 1;
        assert(buffer@ =~= header + table_bytes(sources, i as nat, do_crc));
    }
    write_u32(buffer, 0);

    let ghost table = header + table_bytes(sources, sources.len(), do_crc) + crate::wire::u32_le(0);
    let mut i: usize = 0;
    while i < files.len()
        invariant
            i <= files.len(),
            sources == source_views(files@),
            buffer@ == table + data_bytes(sources, i as nat),
        decreases files.len() - i,
    {
        assert(sources[i as int] == files@[i as int]@);
        append_bytes(buffer, files[i].contents.as_slice());
        i = i + 1;
        assert(buffer@ =~= table + data_bytes(sources, i as nat));
    }
    assert(buffer@ == body_bytes(str_title@, str_description@, timestamp, sources, do_crc));
    if do_crc {
        let all = checksum(buffer.as_slice());
        write_u32(buffer, all);
    } else {
        write_u32(buffer, 0);
    }
    true
}

/// The test for a path that the whitelist lets in.
pub open spec fn permitted() -> spec_fn(Seq<u8>) -> bool {
    |path: Seq<u8>| allowed(path)
}

/// Whether a list of paths passes: it is not empty, and either every path
/// is on the whitelist or paths that are not may be dropped.
pub open spec fn verified(files: Seq<Seq<u8>>, warn_invalid: bool) -> bool {
    files.len() > 0 && (warn_invalid || forall|i: int|
        0 <= i < files.len() ==> allowed(#[trigger] files[i]))
}

/// Holds a list of paths to the whitelist. The paths that the whitelist
/// lets in stay, in their order; the others leave. The list passes where
/// it was not empty and, unless `warn_invalid` is set, no path had to
/// leave.
pub fn verify_files(files: &mut Vec<Vec<u8>>, warn_invalid: bool) -> (ok: bool)
    ensures
        ok == verified(texts(old(files)@), warn_invalid),
        texts(final(files)@) == texts(old(files)@).filter(permitted()),
{
    let mut kept: Vec<Vec<u8>> = Vec::new();
    let ghost all = texts(files@);
    let mut every: bool = true;
    let mut i: usize = 0;
    proof {
        reveal(Seq::filter);
        assert(texts(kept@) =~= all.subrange(0, 0).filter(permitted()));
    }
    while i < files.len()
        invariant
            i <= files.len(),
            all == texts(files@),
            texts(kept@) == all.subrange(0, i as int).filter(permitted()),
            every == forall|k: int| 0 <= k < i ==> allowed(#[trigger] all[k]),
        decreases files.len() - i,
    {
        let ghost before = texts(kept@);
        assert(all[i as int] == files@[i as int]@);
        if check(files[i].as_slice()) {
            kept.push(copy_bytes(files[i].as_slice()));
            assert(texts(kept@) =~= before.push(all[i as int]));
        } else {
            every = false;
        }
        proof {
            reveal(Seq::filter);
            assert(all.subrange(0, i + 1).drop_last() =~= all.subrange(0, i as int));
        }
        i = i + 1;
    }
    assert(all.subrange(0, i as int) =~= all);
    let ok = files.len() > 0 && (warn_invalid || every);
    *files = kept;
    ok
}

/// The test for a file that is not ignored.
pub open spec fn kept(ignores: Seq<Seq<u8>>) -> spec_fn(SourceView) -> bool {
    |file: SourceView| !ignored(ignores, file.name)
}

/// The test for a file whose path the whitelist lets in.
pub open spec fn admitted() -> spec_fn(SourceView) -> bool {
    |file: SourceView| allowed(file.name)
}

/// The paths of a list of files.
pub open spec fn names(files: Seq<SourceView>) -> Seq<Seq<u8>> {
    Seq::new(files.len(), |i: int| files[i].name)
}

/// Whether the files stand in the order of their paths.
pub open spec fn sorted_by_name(files: Seq<SourceView>) -> bool {
    forall|i: int, j: int|
        0 <= i <= j < files.len() ==> precedes(#[trigger] files[i].name, #[trigger] files[j].name)
}

/// Takes the files that an addon ignores out of a list.
pub fn drop_ignored(info: &CAddonJson, found: Vec<SourceFile>) -> (r: Vec<SourceFile>)
    ensures
        source_views(r@) == source_views(found@).filter(kept(info@.ignores)),
{
    let mut out: Vec<SourceFile> = Vec::new();
    let ghost all = source_views(found@);
    let ghost test = kept(info@.ignores);
    proof {
        reveal(Seq::filter);
        assert(source_views(out@) =~= all.subrange(0, 0).filter(test));
    }
    for file in it: found.into_iter()
        invariant
            it.seq() == found@,
            all == source_views(found@),
            test == kept(info@.ignores),
            source_views(out@) == all.subrange(0, it.index() as int).filter(test),
    {
        let ghost before = source_views(out@);
        let ghost i = it.index() as int;
        assert(all[i] == file@);
        let skip = info.is_ignored(file.name.as_slice());
        if !skip {
            out.push(file);
            assert(source_views(out@) =~= before.push(all[i]));
        }
        proof {
            reveal(Seq::filter);
            assert(all.subrange(0, i + 1).drop_last() =~= all.subrange(0, i));
        }
    }
    assert(all.subrange(0, all.len() as int) =~= all);
    out
}

/// Takes the files that the whitelist does not let in out of a list, and
/// tells whether none had to leave.
pub fn drop_unlisted(files: Vec<SourceFile>) -> (r: (Vec<SourceFile>, bool))
    ensures
        source_views(r.0@) == source_views(files@).filter(admitted()),
        r.1 == forall|i: int|
            0 <= i < files@.len() ==> allowed(#[trigger] names(source_views(files@))[i]),
{
    let mut out: Vec<SourceFile> = Vec::new();
    let mut every: bool = true;
    let ghost all = source_views(files@);
    proof {
        reveal(Seq::filter);
        assert(source_views(out@) =~= all.subrange(0, 0).filter(admitted()));
    }
    for file in it: files.into_iter()
        invariant
            it.seq() == files@,
            all == source_views(files@),
            source_views(out@) == all.subrange(0, it.index() as int).filter(admitted()),
            every == forall|k: int| 0 <= k < it.index() ==> allowed(#[trigger] names(all)[k]),
    {
        let ghost before = source_views(out@);
        let ghost i = it.index() as int;
        assert(all[i] == file@);
        assert(names(all)[i] == file@.name);
        if check(file.name.as_slice()) {
            out.push(file);
            assert(source_views(out@) =~= before.push(all[i]));
        } else {
            every = false;
        }
        proof {
            reveal(Seq::filter);
            assert(all.subrange(0, i + 1).drop_last() =~= all.subrange(0, i));
        }
    }
    assert(all.subrange(0, all.len() as int) =~= all);
    (out, every)
}

/// Brings files into the order of their paths.
pub fn sort_files(files: Vec<SourceFile>) -> (r: Vec<SourceFile>)
    ensures
        sorted_by_name(source_views(r@)),
        source_views(r@).to_multiset() == source_views(files@).to_multiset(),
{
    let mut out: Vec<SourceFile> = Vec::new();
    let ghost all = source_views(files@);
    assert(source_views(out@) =~= all.subrange(0, 0));
    for file in it: files.into_iter()
        invariant
            it.seq() == files@,
            all == source_views(files@),
            sorted_by_name(source_views(out@)),
            source_views(out@).to_multiset() == all.subrange(0, it.index() as int).to_multiset(),
    {
        let ghost before = source_views(out@);
        let ghost i = it.index() as int;
        assert(all[i] == file@);
        let mut j: usize = 0;
        while j < out.len() && bytes_le(out[j].name.as_slice(), file.name.as_slice())
            invariant
                j <= out.len(),
                before == source_views(out@),
                forall|k: int| 0 <= k < j ==> precedes(#[trigger] before[k].name, file@.name),
            decreases out.len() - j,
        {
            assert(before[j as int] == out@[j as int]@);
            j = j + 1;
        }
        proof {
            if j < out.len() {
                assert(before[j as int] == out@[j as int]@);
                crate::bytestr::lemma_precedes_total(before[j as int].name, file@.name, 0);
            }
            crate::bytestr::lemma_precedes_total(file@.name, file@.name, 0);
        }
        let ghost x = file@;
        out.insert(j, file);
        proof {
            let after = source_views(out@);
            assert(after =~= before.insert(j as int, x));
            assert forall|a: int, b: int| 0 <= a <= b < after.len() implies precedes(
                #[trigger] after[a].name,
                #[trigger] after[b].name,
            ) by {
                if a < j && b > j {
                    assert(precedes(before[a].name, before[b - 1].name));
                } else if a == j && b > j {
                    assert(precedes(before[j as int].name, before[b - 1].name));
                    crate::bytestr::lemma_precedes_transitive(
                        x.name,
                        before[j as int].name,
                        before[b - 1].name,
                        0,
                    );
                } else if a > j {
                    assert(precedes(before[a - 1].name, before[b - 1].name));
                } else if a < j && b < j {
                    assert(precedes(before[a].name, before[b].name));
                }
            }
            vstd::seq_lib::to_multiset_insert(before, j as int, x);
            assert(all.subrange(0, i + 1) =~= all.subrange(0, i).push(x));
            vstd::seq_lib::to_multiset_build(all.subrange(0, i), x);
        }
    }
    assert(all.subrange(0, all.len() as int) =~= all);
    out
}

/// Two lists that hold the same files are of one length, and each file of
/// the one is in the other.
pub proof fn lemma_same_files(a: Seq<SourceView>, b: Seq<SourceView>)
    requires
        a.to_multiset() == b.to_multiset(),
    ensures
        a.len() == b.len(),
        forall|i: int| 0 <= i < a.len() ==> b.contains(#[trigger] a[i]),
        creatable(a) ==> creatable(b),
{
    a.to_multiset_ensures();
    b.to_multiset_ensures();
    assert(a.len() == a.to_multiset().len());
    assert(b.len() == b.to_multiset().len());
    assert forall|i: int| 0 <= i < a.len() implies b.contains(#[trigger] a[i]) by {
        assert(a.contains(a[i]));
        assert(a.to_multiset().count(a[i]) > 0);
    }
    if creatable(a) {
        assert forall|j: int| 0 <= j < b.len() implies (#[trigger] b[j]).contents.len() > 0 by {
            assert(b.contains(b[j]));
            assert(b.to_multiset().count(b[j]) > 0);
            assert(a.contains(b[j]));
            let i = choose|i: int| 0 <= i < a.len() && a[i] == b[j];
            assert(a[i].contents.len() > 0);
        }
    }
}

/// The files of a folder that an addon does not ignore.
pub open spec fn considered(found: Seq<SourceView>, ignores: Seq<Seq<u8>>) -> Seq<SourceView> {
    found.filter(kept(ignores))
}

/// The files of a folder that enter the archive: those that the addon does
/// not ignore and the whitelist lets in.
pub open spec fn chosen(found: Seq<SourceView>, ignores: Seq<Seq<u8>>) -> Seq<SourceView> {
    considered(found, ignores).filter(admitted())
}

/// Why no archive was made.
#[derive(Debug)]
pub enum CreateFailure {
    /// `addon.json` was refused; the record says why.
    Info,
    /// No file was found, or one that the whitelist does not let in.
    Files,
    /// A file was empty, or the files were too many.
    Archive,
}

/// An archive, ready to be written to disk.
#[derive(Debug)]
pub struct Created {
    /// The file name for the archive.
    pub out_file: Vec<u8>,
    /// The files that the archive holds, in its order.
    pub files: Vec<SourceFile>,
    /// The bytes of the archive.
    pub archive: Vec<u8>,
}

/// Makes the archive of an addon's folder. `info` is what the folder's
/// `addon.json` says, `found` the files of the folder with their paths
/// below it. The files that the addon ignores are left out; of the rest
/// every one must be on the whitelist, unless `warn_invalid` is set, which
/// leaves the others out too. The files enter the archive in the order of
/// their paths.
pub fn create_addon_file(
    str_folder: &[u8],
    str_outfile: &[u8],
    info: &CAddonJson,
    found: Vec<SourceFile>,
    warn_invalid: bool,
    timestamp: u64,
    do_crc: bool,
) -> (r: Result<Created, CreateFailure>)
    ensures
        match r {
            Err(CreateFailure::Info) => info@.error.len() > 0,
            Err(CreateFailure::Files) => info@.error.len() == 0 && !verified(
                names(considered(source_views(found@), info@.ignores)),
                warn_invalid,
            ),
            Err(CreateFailure::Archive) => info@.error.len() == 0 && verified(
                names(considered(source_views(found@), info@.ignores)),
                warn_invalid,
            ) && !creatable(chosen(source_views(found@), info@.ignores)),
            Ok(made) => {
                &&& info@.error.len() == 0
                &&& verified(names(considered(source_views(found@), info@.ignores)), warn_invalid)
                &&& creatable(chosen(source_views(found@), info@.ignores))
                &&& made.out_file@ == archive_name(folder_of(str_folder@), str_outfile@)
                &&& sorted_by_name(source_views(made.files@))
                &&& source_views(made.files@).to_multiset() == chosen(
                    source_views(found@),
                    info@.ignores,
                ).to_multiset()
                &&& made.archive@ == archive_bytes(
                    info@.title,
                    description_json(info@.description, info@.addon_type, info@.tags),
                    timestamp,
                    source_views(made.files@),
                    do_crc,
                )
            },
        },
{
    if info.m_strError.len() > 0 {
        return Err(CreateFailure::Info);
    }
    let rest = drop_ignored(info, found);
    let any = rest.len() > 0;
    let (listed, every) = drop_unlisted(rest);
    if !(any && (warn_invalid || every)) {
        return Err(CreateFailure::Files);
    }
    let files = sort_files(listed);
    proof {
        lemma_same_files(source_views(files@), source_views(listed@));
        lemma_same_files(source_views(listed@), source_views(files@));
    }
    let description = info.build_description();
    let mut archive: Vec<u8> = Vec::new();
    if !create(
        &mut archive,
        &files,
        info.m_Title.as_slice(),
        description.as_slice(),
        timestamp,
        do_crc,
    ) {
        return Err(CreateFailure::Archive);
    }
    let folder = folder_path(str_folder);
    let out_file = archive_path(folder.as_slice(), str_outfile);
    Ok(Created { out_file, files, archive })
}

} // verus!
