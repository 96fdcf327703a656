//! What is written can be read: the index that the reader makes of a written
//! archive names every file, in lower case, and hands its bytes back.

use crate::addon_format::{author_name, ident, EntryView, Header, TIMESTAMP_OFFSET, VERSION};
use crate::addon_json::description_json;
use crate::addon_reader::parsed;
use crate::metadata_round_trip::lemma_description_round_trip;
use crate::bytestr::lower;
use crate::crc32::crc32;
use crate::layout::{
    archive_bytes, archive_intact, body_bytes, crc_field, creatable, data_bytes, entry_bytes,
    entry_contents, entry_intact,
    header_bytes, parse_entries, parse_index, skip_required, table_bytes, title_position,
    IndexView, SourceView,
};
use crate::wire::{
    cstr, holds_at, lemma_holds_parts, lemma_holds_within, lemma_le_lengths, lemma_read_cstr,
    lemma_read_u32,
    lemma_read_u64, no_nul, read_cstr, read_u32, read_u64, run_length, u32_le, u64_le,
};
use vstd::prelude::*;
use vstd::string::StringSliceAdditionalSpecFns;

verus! {

/// The entry that the reader makes of the file with index `i`.
pub open spec fn expected_entry(files: Seq<SourceView>, i: int, do_crc: bool) -> EntryView {
    EntryView {
        name: lower(files[i].name),
        size: files[i].contents.len() as u64,
        crc: crc_field(files[i].contents, do_crc),
        file_number: (i + 1) as u32,
        offset: data_bytes(files, i as nat).len() as u64,
    }
}

/// The entries that the reader makes of `files`.
pub open spec fn expected_entries(files: Seq<SourceView>, do_crc: bool) -> Seq<EntryView> {
    Seq::new(files.len(), |i: int| expected_entry(files, i, do_crc))
}

/// Whether an archive of these files can be read back: the files can be
/// written, no path holds a zero byte, and the files' lengths add up to a
/// number that the offset field can hold.
pub open spec fn readable_back(files: Seq<SourceView>) -> bool {
    &&& creatable(files)
    &&& forall|i: int| 0 <= i < files.len() ==> no_nul((#[trigger] files[i]).name)
    &&& data_bytes(files, files.len()).len() <= u64::MAX
}

/// The table of the first `n` files begins with the table of the first `i`,
/// and the entry of file `i` stands behind that.
pub proof fn lemma_entry_in_table(files: Seq<SourceView>, i: nat, n: nat, do_crc: bool)
    requires
        i < n,
    ensures
        holds_at(
            table_bytes(files, n, do_crc),
            table_bytes(files, i, do_crc).len() as int,
            entry_bytes(files, i as int, do_crc),
        ),
        table_bytes(files, i, do_crc).len() + entry_bytes(files, i as int, do_crc).len()
            <= table_bytes(files, n, do_crc).len(),
    decreases n - i,
{
    let whole = table_bytes(files, n, do_crc);
    let head = table_bytes(files, i, do_crc);
    let entry = entry_bytes(files, i as int, do_crc);
    if n == i + 1 {
        assert(whole == head + entry);
        assert(whole.subrange(head.len() as int, (head.len() + entry.len()) as int) =~= entry);
    } else {
        lemma_entry_in_table(files, i, (n - 1) as nat, do_crc);
        let shorter = table_bytes(files, (n - 1) as nat, do_crc);
        assert(whole == shorter + entry_bytes(files, n - 1, do_crc));
        assert(whole.subrange(head.len() as int, (head.len() + entry.len()) as int) =~= shorter.subrange(
            head.len() as int,
            (head.len() + entry.len()) as int,
        ));
    }
}

/// The bytes of the first `n` files begin with those of the first `i`, and
/// the bytes of file `i` stand behind that.
pub proof fn lemma_file_in_data(files: Seq<SourceView>, i: nat, n: nat)
    requires
        i < n,
    ensures
        holds_at(data_bytes(files, n), data_bytes(files, i).len() as int, files[i as int].contents),
        data_bytes(files, i).len() + files[i as int].contents.len() <= data_bytes(files, n).len(),
    decreases n - i,
{
    let whole = data_bytes(files, n);
    let head = data_bytes(files, i);
    let file = files[i as int].contents;
    if n == i + 1 {
        assert(whole == head + file);
        assert(whole.subrange(head.len() as int, (head.len() + file.len()) as int) =~= file);
    } else {
        lemma_file_in_data(files, i, (n - 1) as nat);
        let shorter = data_bytes(files, (n - 1) as nat);
        assert(whole == shorter + files[n - 1].contents);
        assert(whole.subrange(head.len() as int, (head.len() + file.len()) as int) =~= shorter.subrange(
            head.len() as int,
            (head.len() + file.len()) as int,
        ));
    }
}

/// A text without zero bytes has none in lower case either.
pub proof fn lemma_lower_no_nul(text: Seq<u8>)
    requires
        no_nul(text),
    ensures
        no_nul(lower(text)),
{
    assert forall|i: int| 0 <= i < lower(text).len() implies #[trigger] lower(text)[i] != 0 by {
        assert(text[i] != 0);
    }
}

/// Reading one entry where its four fields stand gives them back.
pub proof fn lemma_read_entry(s: Seq<u8>, pos: int, number: u32, name: Seq<u8>, size: u64, crc: u32)
    requires
        holds_at(s, pos, u32_le(number) + cstr(name) + u64_le(size) + u32_le(crc)),
        no_nul(name),
    ensures
        read_u32(s, pos) == Some((number, pos + 4)),
        read_cstr(s, pos + 4) == Some((name, pos + 5 + name.len())),
        read_u64(s, pos + 5 + name.len()) == Some((size, pos + 13 + name.len())),
        read_u32(s, pos + 13 + name.len()) == Some((crc, pos + 17 + name.len())),
        (u32_le(number) + cstr(name) + u64_le(size) + u32_le(crc)).len() == 17 + name.len(),
{
    let a = u32_le(number);
    let b = cstr(name);
    let c = u64_le(size);
    let d = u32_le(crc);
    lemma_le_lengths(number, size);
    lemma_le_lengths(crc, size);
    assert(a.len() == 4 && b.len() == name.len() + 1 && c.len() == 8 && d.len() == 4);
    lemma_holds_parts(s, pos, a + b + c, d);
    lemma_holds_parts(s, pos, a + b, c);
    lemma_holds_parts(s, pos, a, b);
    lemma_read_u32(s, pos, number);
    lemma_read_cstr(s, pos + 4, name);
    lemma_read_u64(s, pos + 5 + name.len(), size);
    lemma_read_u32(s, pos + 13 + name.len(), crc);
}

/// What the reader makes of a table whose first entry it can read: that
/// entry, and what it makes of the rest.
pub proof fn lemma_parse_step(
    s: Seq<u8>,
    pos: int,
    number: nat,
    offset: nat,
    marker: u32,
    name: Seq<u8>,
    size: u64,
    crc: u32,
)
    requires
        marker != 0,
        number <= u32::MAX,
        offset + size <= u64::MAX,
        read_u32(s, pos) == Some((marker, pos + 4)),
        read_cstr(s, pos + 4) == Some((name, pos + 5 + name.len())),
        read_u64(s, pos + 5 + name.len()) == Some((size, pos + 13 + name.len())),
        read_u32(s, pos + 13 + name.len()) == Some((crc, pos + 17 + name.len())),
    ensures
        parse_entries(s, pos, number, offset) == match parse_entries(
            s,
            pos + 17 + name.len(),
            number + 1,
            (offset + size) as nat,
        ) {
            None => None::<(Seq<EntryView>, int)>,
            Some((rest, end)) => Some(
                (
                    seq![
                        EntryView {
                            name,
                            size,
                            crc,
                            file_number: number as u32,
                            offset: offset as u64,
                        },
                    ] + rest,
                    end,
                ),
            ),
        },
{
    reveal(parse_entries);
}

/// What the reader makes of a table that ends at once: no entry.
pub proof fn lemma_parse_end(s: Seq<u8>, pos: int, number: nat, offset: nat)
    requires
        read_u32(s, pos) == Some((0u32, pos + 4)),
    ensures
        parse_entries(s, pos, number, offset) == Some((Seq::<EntryView>::empty(), pos + 4)),
{
    reveal(parse_entries);
}

/// Whether the entry of file `i` stands in `s`, where the table starts at
/// `base`.
pub open spec fn entry_stands(s: Seq<u8>, base: int, files: Seq<SourceView>, i: int, do_crc: bool) -> bool {
    holds_at(s, base + table_bytes(files, i as nat, do_crc).len(), entry_bytes(files, i, do_crc))
}

/// What the reader makes of a table at the entry of file `k`: the entry
/// expected of that file, and what it makes of the rest.
pub proof fn lemma_table_step(s: Seq<u8>, pos: int, files: Seq<SourceView>, k: nat, do_crc: bool)
    requires
        k < files.len() <= u32::MAX,
        data_bytes(files, (k + 1) as nat).len() <= u64::MAX,
        no_nul(files[k as int].name),
        holds_at(s, pos, entry_bytes(files, k as int, do_crc)),
    ensures
        parse_entries(s, pos, (k + 1) as nat, data_bytes(files, k).len()) == match parse_entries(
            s,
            pos + entry_bytes(files, k as int, do_crc).len(),
            (k + 2) as nat,
            data_bytes(files, (k + 1) as nat).len(),
        ) {
            None => None::<(Seq<EntryView>, int)>,
            Some((rest, end)) => Some((seq![expected_entry(files, k as int, do_crc)] + rest, end)),
        },
{
    let i = k as int;
    let name = lower(files[i].name);
    let size = files[i].contents.len() as u64;
    let crc = crc_field(files[i].contents, do_crc);
    let offset = data_bytes(files, k).len();
    assert(data_bytes(files, (k + 1) as nat) == data_bytes(files, k) + files[i].contents);
    lemma_lower_no_nul(files[i].name);
    lemma_read_entry(s, pos, (i + 1) as u32, name, size, crc);
    lemma_parse_step(s, pos, (k + 1) as nat, offset, (i + 1) as u32, name, size, crc);
}

/// Where the table of the first `i` files ends, counted from `base`.
pub open spec fn entry_start(base: int, files: Seq<SourceView>, i: int, do_crc: bool) -> int {
    base + table_bytes(files, i as nat, do_crc).len()
}

/// Whether reading the table at the entry of file `i` gives the entry
/// expected of that file, and then what reading at the next entry gives.
pub open spec fn entry_read(s: Seq<u8>, base: int, files: Seq<SourceView>, i: int, do_crc: bool) -> bool {
    parse_entries(s, entry_start(base, files, i, do_crc), (i + 1) as nat, data_bytes(files, i as nat).len())
        == match parse_entries(
        s,
        entry_start(base, files, i + 1, do_crc),
        (i + 2) as nat,
        data_bytes(files, (i + 1) as nat).len(),
    ) {
        None => None::<(Seq<EntryView>, int)>,
        Some((rest, end)) => Some((seq![expected_entry(files, i, do_crc)] + rest, end)),
    }
}

/// Where each entry is read as expected and the table ends behind the last,
/// reading from entry `k` on gives the entries expected from `k` on.
pub proof fn lemma_read_chain(s: Seq<u8>, base: int, files: Seq<SourceView>, k: nat, do_crc: bool)
    requires
        k <= files.len(),
        forall|i: int| k <= i < files.len() ==> #[trigger] entry_read(s, base, files, i, do_crc),
        parse_entries(
            s,
            entry_start(base, files, files.len() as int, do_crc),
            (files.len() + 1) as nat,
            data_bytes(files, files.len()).len(),
        ) == Some(
            (Seq::<EntryView>::empty(), entry_start(base, files, files.len() as int, do_crc) + 4),
        ),
    ensures
        parse_entries(
            s,
            entry_start(base, files, k as int, do_crc),
            (k + 1) as nat,
            data_bytes(files, k).len(),
        ) == Some(
            (
                expected_entries(files, do_crc).subrange(k as int, files.len() as int),
                entry_start(base, files, files.len() as int, do_crc) + 4,
            ),
        ),
    decreases files.len() - k,
{
    let n = files.len() as int;
    let all = expected_entries(files, do_crc);
    if k == n {
        assert(all.subrange(k as int, n) =~= Seq::empty());
    } else {
        let i = k as int;
        assert(entry_read(s, base, files, i, do_crc));
        lemma_read_chain(s, base, files, (k + 1) as nat, do_crc);
        assert(all.subrange(i, n) =~= seq![expected_entry(files, i, do_crc)] + all.subrange(
            i + 1,
            n,
        )) by {
            assert(all[i] == expected_entry(files, i, do_crc));
        }
    }
}

/// Reading the table from its start, where the entries of the files stand in
/// `s` from `base` on with a zero behind them, makes the entries expected
/// of the files.
pub proof fn lemma_read_table(s: Seq<u8>, base: int, files: Seq<SourceView>, do_crc: bool)
    requires
        0 <= base,
        files.len() <= u32::MAX,
        forall|i: int| 0 <= i < files.len() ==> no_nul((#[trigger] files[i]).name),
        data_bytes(files, files.len()).len() <= u64::MAX,
        forall|i: int| 0 <= i < files.len() ==> #[trigger] entry_stands(s, base, files, i, do_crc),
        holds_at(s, base + table_bytes(files, files.len(), do_crc).len(), u32_le(0)),
    ensures
        parse_entries(s, base, 1, 0) == Some(
            (
                expected_entries(files, do_crc),
                base + table_bytes(files, files.len(), do_crc).len() + 4,
            ),
        ),
{
    let n = files.len();
    assert forall|i: int| 0 <= i < n implies #[trigger] entry_read(s, base, files, i, do_crc) by {
        assert(entry_stands(s, base, files, i, do_crc));
        if i + 1 < n {
            lemma_file_in_data(files, (i + 1) as nat, n);
        }
        lemma_table_step(s, entry_start(base, files, i, do_crc), files, i as nat, do_crc);
        assert(table_bytes(files, (i + 1) as nat, do_crc) == table_bytes(files, i as nat, do_crc)
            + entry_bytes(files, i, do_crc));
    }
    let end = entry_start(base, files, n as int, do_crc);
    lemma_read_u32(s, end, 0);
    lemma_parse_end(s, end, (n + 1) as nat, data_bytes(files, n).len());
    lemma_read_chain(s, base, files, 0, do_crc);
    assert(expected_entries(files, do_crc).subrange(0, n as int) =~= expected_entries(
        files,
        do_crc,
    ));
    assert(table_bytes(files, 0, do_crc).len() == 0);
    assert(data_bytes(files, 0).len() == 0);
}

/// The bytes of the author's name hold no zero.
pub proof fn lemma_author_no_nul()
    ensures
        no_nul(author_name()),
{
    reveal_strlit("Author Name");
    let text = "Author Name";
    assert(vstd::string::is_ascii(text)) by {
        assert forall|i: int| 0 <= i < text@.len() implies (text@[i] as u32) < 128 by {}
    }
    vstd::string::is_ascii_spec_bytes(text);
}

/// Where the parts of an archive stand in it: the header at the start, the
/// table behind it, then the zero that ends the table, then the files'
/// bytes, then four bytes of checksum.
pub proof fn lemma_archive_parts(
    title: Seq<u8>,
    description: Seq<u8>,
    timestamp: u64,
    files: Seq<SourceView>,
    do_crc: bool,
)
    ensures
        ({
            let s = archive_bytes(title, description, timestamp, files, do_crc);
            let header = header_bytes(timestamp, title, description);
            let table = table_bytes(files, files.len(), do_crc);
            let data = data_bytes(files, files.len());
            let body = body_bytes(title, description, timestamp, files, do_crc);
            &&& holds_at(s, 0, body)
            &&& holds_at(s, 0, header)
            &&& holds_at(s, header.len() as int, table)
            &&& holds_at(s, (header.len() + table.len()) as int, u32_le(0))
            &&& holds_at(s, (header.len() + table.len() + 4) as int, data)
            &&& holds_at(s, body.len() as int, u32_le(crc_field(body, do_crc)))
            &&& body.len() == header.len() + table.len() + 4 + data.len()
            &&& s.len() == body.len() + 4
        }),
{
    let s = archive_bytes(title, description, timestamp, files, do_crc);
    let header = header_bytes(timestamp, title, description);
    let table = table_bytes(files, files.len(), do_crc);
    let data = data_bytes(files, files.len());
    let body = body_bytes(title, description, timestamp, files, do_crc);
    let tail = u32_le(crc_field(body, do_crc));
    lemma_le_lengths(crc_field(body, do_crc), 0);
    lemma_le_lengths(0, 0);
    assert(tail.len() == 4 && u32_le(0).len() == 4);
    assert(s.subrange(0, s.len() as int) =~= s);
    lemma_holds_parts(s, 0, body, tail);
    lemma_holds_parts(s, 0, header + table + u32_le(0), data);
    lemma_holds_parts(s, 0, header + table, u32_le(0));
    lemma_holds_parts(s, 0, header, table);
}

/// Where the fields of a header stand in it.
pub proof fn lemma_header_parts(s: Seq<u8>, timestamp: u64, title: Seq<u8>, description: Seq<u8>)
    requires
        holds_at(s, 0, header_bytes(timestamp, title, description)),
    ensures
        s.len() >= 22,
        s[0] == 0x47 && s[1] == 0x4d && s[2] == 0x41 && s[3] == 0x44,
        s[4] == VERSION,
        holds_at(s, TIMESTAMP_OFFSET as int, u64_le(timestamp)),
        s[21] == 0,
        holds_at(s, 22, cstr(title)),
        holds_at(s, 23int + title.len(), cstr(description)),
        holds_at(s, 24int + title.len() + description.len(), cstr(author_name())),
        holds_at(s, 25int + title.len() + description.len() + author_name().len(), u32_le(1)),
        header_bytes(timestamp, title, description).len() == 29 + title.len() + description.len()
            + author_name().len(),
{
    let a = ident();
    let b = seq![VERSION];
    let c = u64_le(0);
    let d = u64_le(timestamp);
    let e = seq![0u8];
    let f = cstr(title);
    let g = cstr(description);
    let h = cstr(author_name());
    let i = u32_le(1);
    lemma_le_lengths(1, 0);
    lemma_le_lengths(1, timestamp);
    assert(a.len() == 4 && b.len() == 1 && c.len() == 8 && d.len() == 8 && e.len() == 1 && i.len()
        == 4);
    lemma_holds_parts(s, 0, a + b + c + d + e + f + g + h, i);
    lemma_holds_parts(s, 0, a + b + c + d + e + f + g, h);
    lemma_holds_parts(s, 0, a + b + c + d + e + f, g);
    lemma_holds_parts(s, 0, a + b + c + d + e, f);
    lemma_holds_parts(s, 0, a + b + c + d, e);
    lemma_holds_parts(s, 0, a + b + c, d);
    lemma_holds_parts(s, 0, a + b, c);
    lemma_holds_parts(s, 0, a, b);
    assert(s[4] == s.subrange(4, 5)[0]);
    assert(s[21] == s.subrange(21, 22)[0]);
    let m = s.subrange(0, 4);
    assert(s[0] == m[0] && s[1] == m[1] && s[2] == m[2] && s[3] == m[3]);
}

/// Reading a header where one was written finds the title, the description
/// and the author, and then the table.
pub proof fn lemma_read_header(s: Seq<u8>, timestamp: u64, title: Seq<u8>, description: Seq<u8>)
    requires
        holds_at(s, 0, header_bytes(timestamp, title, description)),
        no_nul(title),
        no_nul(description),
    ensures
        ({
            let p = header_bytes(timestamp, title, description).len() as int;
            parse_index(s) == match parse_entries(s, p, 1, 0) {
                None => None::<IndexView>,
                Some((entries, file_block)) => Some(
                    IndexView {
                        version: VERSION,
                        title,
                        description,
                        author: author_name(),
                        entries,
                        file_block,
                    },
                ),
            }
        }),
{
    lemma_header_parts(s, timestamp, title, description);
    let h = Header::at_start(s).unwrap();
    assert(h.ident@ =~= ident());
    assert(run_length(s, 21) == 0);
    assert(s.subrange(21, 21) =~= Seq::<u8>::empty());
    assert(read_cstr(s, 21) == Some((Seq::<u8>::empty(), 22int)));
    assert(skip_required(s, 21) == Some(22int));
    assert(title_position(s, VERSION) == Some(22int));
    lemma_read_cstr(s, 22, title);
    lemma_read_cstr(s, 23int + title.len(), description);
    lemma_author_no_nul();
    lemma_read_cstr(s, 24int + title.len() + description.len(), author_name());
    lemma_read_u32(s, 25int + title.len() + description.len() + author_name().len(), 1);
}

/// Reading a buffer in which a header, the table of the files and a zero
/// stand one behind the other gives the index expected of the files.
pub proof fn lemma_read_written(
    s: Seq<u8>,
    title: Seq<u8>,
    description: Seq<u8>,
    timestamp: u64,
    files: Seq<SourceView>,
    do_crc: bool,
)
    requires
        readable_back(files),
        no_nul(title),
        no_nul(description),
        holds_at(s, 0, header_bytes(timestamp, title, description)),
        holds_at(
            s,
            header_bytes(timestamp, title, description).len() as int,
            table_bytes(files, files.len(), do_crc),
        ),
        holds_at(
            s,
            (header_bytes(timestamp, title, description).len() + table_bytes(
                files,
                files.len(),
                do_crc,
            ).len()) as int,
            u32_le(0),
        ),
    ensures
        parse_index(s) == Some(
            IndexView {
                version: VERSION,
                title,
                description,
                author: author_name(),
                entries: expected_entries(files, do_crc),
                file_block: (header_bytes(timestamp, title, description).len() + table_bytes(
                    files,
                    files.len(),
                    do_crc,
                ).len() + 4) as int,
            },
        ),
{
    let n = files.len();
    let table = table_bytes(files, n, do_crc);
    let base: int = header_bytes(timestamp, title, description).len() as int;
    lemma_read_header(s, timestamp, title, description);
    assert forall|i: int| 0 <= i < n implies #[trigger] entry_stands(
        s,
        base,
        files,
        i,
        do_crc,
    ) by {
        lemma_entry_in_table(files, i as nat, n, do_crc);
        lemma_holds_within(
            s,
            base,
            table,
            table_bytes(files, i as nat, do_crc).len() as int,
            entry_bytes(files, i, do_crc),
        );
    }
    lemma_read_table(s, base, files, do_crc);
}

/// Where the files' bytes stand in a buffer from `block` on, the entry
/// expected of a file has the file's bytes.
pub proof fn lemma_contents_written(
    s: Seq<u8>,
    block: int,
    files: Seq<SourceView>,
    do_crc: bool,
    i: int,
)
    requires
        readable_back(files),
        holds_at(s, block, data_bytes(files, files.len())),
        0 <= i < files.len(),
    ensures
        entry_contents(s, expected_entries(files, do_crc), block, (i + 1) as u32) == Some(
            files[i].contents,
        ),
{
    let n = files.len();
    lemma_file_in_data(files, i as nat, n);
    lemma_holds_within(
        s,
        block,
        data_bytes(files, n),
        data_bytes(files, i as nat).len() as int,
        files[i].contents,
    );
    assert(expected_entries(files, do_crc)[i] == expected_entry(files, i, do_crc));
}

/// An archive written from files that can be read back parses, and the index
/// holds what was written: the version, the title, the description field,
/// the author, and for each file an entry with its number, its path in
/// lower case, its size, its checksum and the offset of its bytes; and each
/// entry's bytes are the file's.
pub proof fn lemma_round_trip(
    title: Seq<u8>,
    description: Seq<u8>,
    timestamp: u64,
    files: Seq<SourceView>,
    do_crc: bool,
)
    requires
        readable_back(files),
        no_nul(title),
        no_nul(description),
    ensures
        parse_index(archive_bytes(title, description, timestamp, files, do_crc)) matches Some(
            index,
        ) && {
            &&& index.version == VERSION
            &&& index.title == title
            &&& index.description == description
            &&& index.author == author_name()
            &&& index.entries == expected_entries(files, do_crc)
            &&& forall|i: int|
                0 <= i < files.len() ==> entry_contents(
                    archive_bytes(title, description, timestamp, files, do_crc),
                    index.entries,
                    index.file_block,
                    (i + 1) as u32,
                ) == Some(#[trigger] files[i].contents)
        },
{
    let s = archive_bytes(title, description, timestamp, files, do_crc);
    let header = header_bytes(timestamp, title, description);
    let table = table_bytes(files, files.len(), do_crc);
    lemma_archive_parts(title, description, timestamp, files, do_crc);
    lemma_read_written(s, title, description, timestamp, files, do_crc);
    let block: int = (header.len() + table.len() + 4) as int;
    assert forall|i: int| 0 <= i < files.len() implies entry_contents(
        s,
        expected_entries(files, do_crc),
        block,
        (i + 1) as u32,
    ) == Some(#[trigger] files[i].contents) by {
        lemma_contents_written(s, block, files, do_crc, i);
    }
}

/// Packing an addon and reading the archive gives the addon back: the
/// reader holds the title, the description in plain words, the tags, and
/// for each file an entry with its path in lower case, and each entry's
/// bytes are the file's.
pub proof fn lemma_addon_round_trip(
    title: Seq<u8>,
    description: Seq<u8>,
    addon_type: Seq<u8>,
    tags: Seq<Seq<u8>>,
    timestamp: u64,
    files: Seq<SourceView>,
    do_crc: bool,
)
    requires
        readable_back(files),
        no_nul(title),
    ensures
        ({
            let archive = archive_bytes(
                title,
                description_json(description, addon_type, tags),
                timestamp,
                files,
                do_crc,
            );
            parse_index(archive) matches Some(index) && {
                let reader = parsed(archive, index);
                &&& reader.version == VERSION
                &&& reader.title == title
                &&& reader.description == description
                &&& reader.tags == tags
                &&& reader.author == author_name()
                &&& reader.entries == expected_entries(files, do_crc)
                &&& forall|i: int|
                    0 <= i < files.len() ==> entry_contents(
                        archive,
                        reader.entries,
                        reader.file_block,
                        (i + 1) as u32,
                    ) == Some(#[trigger] files[i].contents)
            }
        }),
{
    lemma_description_round_trip(description, addon_type, tags);
    lemma_round_trip(
        title,
        description_json(description, addon_type, tags),
        timestamp,
        files,
        do_crc,
    );
}

/// An archive that was written with checksums passes when they are held
/// against its bytes: each file's, and that of the whole.
pub proof fn lemma_written_is_intact(
    title: Seq<u8>,
    description: Seq<u8>,
    timestamp: u64,
    files: Seq<SourceView>,
)
    requires
        readable_back(files),
        no_nul(title),
        no_nul(description),
    ensures
        ({
            let archive = archive_bytes(title, description, timestamp, files, true);
            &&& archive_intact(archive)
            &&& parse_index(archive) matches Some(index) && forall|i: int|
                0 <= i < files.len() ==> #[trigger] entry_intact(
                    archive,
                    index.entries,
                    index.file_block,
                    (i + 1) as u32,
                ) == Some(true)
        }),
{
    let archive = archive_bytes(title, description, timestamp, files, true);
    let body = body_bytes(title, description, timestamp, files, true);
    lemma_archive_parts(title, description, timestamp, files, true);
    lemma_read_u32(archive, body.len() as int, crc32(body));
    assert(archive.subrange(0, archive.len() - 4) =~= body);
    lemma_round_trip(title, description, timestamp, files, true);
    let index = parse_index(archive).unwrap();
    assert forall|i: int| 0 <= i < files.len() implies #[trigger] entry_intact(
        archive,
        index.entries,
        index.file_block,
        (i + 1) as u32,
    ) == Some(true) by {
        assert(entry_contents(archive, index.entries, index.file_block, (i + 1) as u32) == Some(
            files[i].contents,
        ));
        assert(index.entries[i] == expected_entry(files, i, true));
    }
}

} // verus!
