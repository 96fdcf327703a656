use gmad::addon_reader::Reader;
use gmad::crc32::checksum;
use gmad::create_gmad::{can_create, create};
use gmad::layout::SourceFile;
use gmad::wire::{get_cstr, get_u32, get_u64, write_cstr, write_u32, write_u64};

fn file(name: &str, contents: &[u8]) -> SourceFile {
    SourceFile { name: name.as_bytes().to_vec(), contents: contents.to_vec() }
}

#[test]
fn crc32_of_known_texts() {
    assert_eq!(checksum(b""), 0);
    assert_eq!(checksum(b"a"), 0xe8b7_be43);
    assert_eq!(checksum(b"123456789"), 0xcbf4_3926);
    assert_eq!(checksum(b"The quick brown fox jumps over the lazy dog"), 0x414f_a339);
}

#[test]
fn integers_are_little_endian() {
    let mut out = Vec::new();
    write_u32(&mut out, 0x0403_0201);
    write_u64(&mut out, 0x0807_0605_0403_0201);
    assert_eq!(out, vec![1, 2, 3, 4, 1, 2, 3, 4, 5, 6, 7, 8]);
    assert_eq!(get_u32(&out, 0), Some((0x0403_0201, 4)));
    assert_eq!(get_u64(&out, 4), Some((0x0807_0605_0403_0201, 12)));
    assert_eq!(get_u32(&out, 9), None);
    assert_eq!(get_u64(&out, 5), None);
    assert_eq!(get_u32(&out, usize::MAX), None);
    let mut top = Vec::new();
    write_u32(&mut top, u32::MAX);
    write_u64(&mut top, u64::MAX);
    assert_eq!(top, vec![0xff; 12]);
    assert_eq!(get_u32(&top, 0), Some((u32::MAX, 4)));
    assert_eq!(get_u64(&top, 4), Some((u64::MAX, 12)));
}

#[test]
fn strings_end_in_zero() {
    let mut out = Vec::new();
    write_cstr(&mut out, b"ab");
    write_cstr(&mut out, b"");
    assert_eq!(out, vec![b'a', b'b', 0, 0]);
    assert_eq!(get_cstr(&out, 0), Some((b"ab".to_vec(), 3)));
    assert_eq!(get_cstr(&out, 1), Some((b"b".to_vec(), 3)));
    assert_eq!(get_cstr(&out, 3), Some((Vec::new(), 4)));
    assert_eq!(get_cstr(&out, 4), None);
    assert_eq!(get_cstr(b"abc", 0), None);
}

#[test]
fn archive_has_the_documented_bytes() {
    let files = vec![file("Lua/Init.LUA", b"hello\n")];
    let mut buffer = vec![9u8, 9, 9];
    assert!(create(&mut buffer, &files, b"Test", b"Desc", 0x0102_0304_0506_0708, true));
    let mut expected: Vec<u8> = Vec::new();
    expected.extend_from_slice(b"GMAD");
    expected.push(3);
    expected.extend_from_slice(&[0; 8]);
    expected.extend_from_slice(&[8, 7, 6, 5, 4, 3, 2, 1]);
    expected.push(0);
    expected.extend_from_slice(b"Test\0");
    expected.extend_from_slice(b"Desc\0");
    expected.extend_from_slice(b"Author Name\0");
    expected.extend_from_slice(&[1, 0, 0, 0]);
    expected.extend_from_slice(&[1, 0, 0, 0]);
    expected.extend_from_slice(b"lua/init.lua\0");
    expected.extend_from_slice(&[6, 0, 0, 0, 0, 0, 0, 0]);
    expected.extend_from_slice(&0x363a_3020u32.to_le_bytes());
    expected.extend_from_slice(&[0, 0, 0, 0]);
    expected.extend_from_slice(b"hello\n");
    let all = checksum(&expected);
    expected.extend_from_slice(&all.to_le_bytes());
    assert_eq!(checksum(b"hello\n"), 0x363a_3020);
    assert_eq!(buffer, expected);
    assert_eq!(&buffer[13..21], &[8, 7, 6, 5, 4, 3, 2, 1]);
}

#[test]
fn archive_without_checksums_has_zero_in_every_crc_field() {
    let files = vec![file("lua/a.lua", b"aaa"), file("lua/b.lua", b"bbbb")];
    let mut buffer = Vec::new();
    assert!(create(&mut buffer, &files, b"T", b"D", 5, false));
    assert_eq!(&buffer[buffer.len() - 4..], &[0, 0, 0, 0]);
    let mut reader = Reader::new();
    assert!(reader.read_from_file(Some(buffer)));
    assert!(reader.parse());
    assert_eq!(reader.get_list().len(), 2);
    for entry in reader.get_list().iter() {
        assert_eq!(entry.i_crc, 0);
    }
}

#[test]
fn written_archive_passes_its_checksums() {
    let files = vec![file("lua/a.lua", b"aaa"), file("lua/b.lua", b"bbbb")];
    let mut buffer = Vec::new();
    assert!(create(&mut buffer, &files, b"T", b"D", 5, true));
    let mut reader = Reader::new();
    assert!(reader.read_from_file(Some(buffer)));
    assert!(reader.parse());
    assert!(reader.verify_archive());
    assert_eq!(reader.verify_file(1), Some(true));
    assert_eq!(reader.verify_file(2), Some(true));
}

#[test]
fn archive_with_checksums_records_them() {
    let files = vec![file("lua/a.lua", b"aaa"), file("lua/b.lua", b"bbbb")];
    let mut buffer = Vec::new();
    assert!(create(&mut buffer, &files, b"T", b"D", 5, true));
    let body = buffer[..buffer.len() - 4].to_vec();
    assert_eq!(&buffer[buffer.len() - 4..], &checksum(&body).to_le_bytes());
    let mut reader = Reader::new();
    assert!(reader.read_from_file(Some(buffer)));
    assert!(reader.parse());
    assert_eq!(reader.get_list()[0].i_crc, checksum(b"aaa"));
    assert_eq!(reader.get_list()[1].i_crc, checksum(b"bbbb"));
}

#[test]
fn packing_and_unpacking_gives_the_files_back() {
    let files = vec![
        file("lua/autorun/Client.lua", b"print('hi')"),
        file("materials/Icon.PNG", &[0, 1, 2, 3, 255, 0, 0]),
        file("models/x.mdl", b"m"),
    ];
    let mut buffer = Vec::new();
    assert!(create(&mut buffer, &files, b"Title", b"Some words", 1, true));
    let mut reader = Reader::new();
    assert!(reader.read_from_file(Some(buffer)));
    assert!(reader.parse());
    assert_eq!(reader.title(), b"Title");
    assert_eq!(reader.description(), b"Some words");
    assert_eq!(reader.author(), b"Author Name");
    assert_eq!(reader.get_format_version(), 3);
    let list = reader.get_list();
    assert_eq!(list.len(), 3);
    assert_eq!(list[0].str_name, b"lua/autorun/client.lua");
    assert_eq!(list[1].str_name, b"materials/icon.png");
    assert_eq!(list[2].str_name, b"models/x.mdl");
    let mut offset = 0u64;
    for (i, source) in files.iter().enumerate() {
        assert_eq!(list[i].i_file_number as usize, i + 1);
        assert_eq!(list[i].i_size as usize, source.contents.len());
        assert_eq!(list[i].i_offset, offset);
        offset += list[i].i_size;
        let mut bytes = Vec::new();
        assert!(reader.read_file((i + 1) as u32, &mut bytes));
        assert_eq!(bytes, source.contents);
    }
}

#[test]
fn one_file_addon_has_one_entry() {
    let files = vec![file("lua/init.lua", b"return")];
    let mut buffer = Vec::new();
    assert!(create(&mut buffer, &files, b"Test", b"", 0, true));
    let mut reader = Reader::new();
    assert!(reader.read_from_file(Some(buffer)));
    assert!(reader.parse());
    assert_eq!(reader.get_list().len(), 1);
    let entry = reader.get_file(1).unwrap();
    assert_eq!(entry.i_file_number, 1);
    assert_eq!(entry.str_name, b"lua/init.lua");
    assert_eq!(entry.i_size, 6);
    let mut bytes = Vec::new();
    assert!(reader.read_file(1, &mut bytes));
    assert_eq!(bytes, b"return");
}

#[test]
fn empty_files_are_refused() {
    let files = vec![file("lua/a.lua", b"aaa"), file("lua/empty.lua", b"")];
    assert!(!can_create(&files));
    let mut buffer = vec![1u8, 2, 3];
    assert!(!create(&mut buffer, &files, b"T", b"D", 5, true));
    assert!(buffer.is_empty());
}

#[test]
fn no_files_make_an_archive_without_entries() {
    let files: Vec<SourceFile> = Vec::new();
    assert!(can_create(&files));
    let mut buffer = Vec::new();
    assert!(create(&mut buffer, &files, b"T", b"D", 0, false));
    let mut reader = Reader::new();
    assert!(reader.read_from_file(Some(buffer)));
    assert!(reader.parse());
    assert!(reader.get_list().is_empty());
}
