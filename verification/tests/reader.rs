use gmad::addon_reader::Reader;

fn push_u32(out: &mut Vec<u8>, x: u32) {
    out.extend_from_slice(&x.to_le_bytes());
}

fn push_u64(out: &mut Vec<u8>, x: u64) {
    out.extend_from_slice(&x.to_le_bytes());
}

fn push_str(out: &mut Vec<u8>, text: &str) {
    out.extend_from_slice(text.as_bytes());
    out.push(0);
}

/// The bytes of `example.gma`: version 3, one file of six bytes.
fn example_gma() -> Vec<u8> {
    let mut out = Vec::new();
    out.extend_from_slice(b"GMAD");
    out.push(3);
    push_u64(&mut out, 0);
    push_u64(&mut out, 1_700_000_000);
    out.push(0);
    push_str(&mut out, "Example Addon");
    push_str(&mut out, "This is an example addon for testing.");
    push_str(&mut out, "John Doe");
    push_u32(&mut out, 1);
    push_u32(&mut out, 1);
    push_str(&mut out, "lua/init.lua");
    push_u64(&mut out, 6);
    push_u32(&mut out, 0);
    push_u32(&mut out, 0);
    out.extend_from_slice(b"hello\n");
    push_u32(&mut out, 0);
    out
}

#[test]
fn test_reader() {
    let mut reader = Reader::new();
    assert!(reader.read_from_file(Some(example_gma())));
    assert!(reader.parse());
    assert_eq!(reader.title(), b"Example Addon");
    assert_eq!(reader.description(), b"This is an example addon for testing.");
    assert_eq!(reader.author(), b"John Doe");
    assert_eq!(reader.get_format_version(), 3);
    assert_eq!(reader.get_list().len(), 1);

    let mut buffer = Vec::new();
    assert!(reader.read_file(1, &mut buffer));
    assert_eq!(buffer.len(), 6);
}

#[test]
fn reader_reports_unreadable_files() {
    let mut reader = Reader::new();
    assert!(reader.read_from_file(Some(example_gma())));
    assert!(!reader.read_from_file(None));
    assert!(reader.get_buffer().is_empty());
    assert!(!reader.parse());
}

#[test]
fn reader_holds_checksums_against_the_bytes() {
    let mut bytes = example_gma();
    let mut reader = Reader::new();
    assert!(reader.read_from_file(Some(bytes.clone())));
    assert!(reader.parse());
    assert_eq!(reader.verify_file(1), Some(false));
    assert_eq!(reader.verify_file(2), None);
    assert_eq!(reader.verify_file(0), None);
    assert!(!reader.verify_archive());

    let crc_at = bytes.len() - 4 - 6 - 4 - 4;
    bytes[crc_at..crc_at + 4].copy_from_slice(&0x363a_3020u32.to_le_bytes());
    let end = bytes.len() - 4;
    let all = gmad::crc32::checksum(&bytes[..end]);
    bytes[end..].copy_from_slice(&all.to_le_bytes());
    assert!(reader.read_from_file(Some(bytes.clone())));
    assert!(reader.parse());
    assert_eq!(reader.verify_file(1), Some(true));
    assert!(reader.verify_archive());

    bytes[end - 1] ^= 1;
    assert!(reader.read_from_file(Some(bytes.clone())));
    assert!(reader.parse());
    assert_eq!(reader.verify_file(1), Some(false));
    assert!(!reader.verify_archive());

    assert!(reader.read_from_file(Some(bytes[..end - 1].to_vec())));
    assert!(reader.parse());
    assert_eq!(reader.verify_file(1), None);
    assert!(reader.read_from_file(Some(vec![1, 2, 3])));
    assert!(!reader.verify_archive());
}

#[test]
fn reader_starts_blank() {
    let reader = Reader::new();
    assert!(reader.get_buffer().is_empty());
    assert!(reader.get_list().is_empty());
    assert!(reader.title().is_empty());
    assert!(reader.tags().is_empty());
    assert_eq!(reader.get_format_version(), 0);
    assert!(reader.get_file(1).is_none());
}

#[test]
fn reader_hands_out_entries() {
    let mut reader = Reader::new();
    assert!(reader.read_from_file(Some(example_gma())));
    assert!(reader.parse());
    let entry = reader.get_file(1).unwrap();
    assert_eq!(entry.str_name, b"lua/init.lua");
    assert_eq!(entry.i_size, 6);
    assert_eq!(entry.i_crc, 0);
    assert_eq!(entry.i_file_number, 1);
    assert_eq!(entry.i_offset, 0);
    assert!(reader.get_file(0).is_none());
    assert!(reader.get_file(2).is_none());
    let mut buffer = vec![b'>'];
    assert!(reader.read_file(1, &mut buffer));
    assert_eq!(buffer, b">hello\n");
}

#[test]
fn reader_reports_unknown_file_numbers() {
    let mut reader = Reader::new();
    assert!(reader.read_from_file(Some(example_gma())));
    assert!(reader.parse());
    let mut buffer = vec![1u8, 2, 3];
    assert!(!reader.read_file(0, &mut buffer));
    assert!(!reader.read_file(2, &mut buffer));
    assert!(!reader.read_file(u32::MAX, &mut buffer));
    assert_eq!(buffer, vec![1u8, 2, 3]);
}

#[test]
fn reader_refuses_wrong_magic() {
    let mut bytes = example_gma();
    bytes[3] = b'X';
    let mut reader = Reader::new();
    assert!(reader.read_from_file(Some(bytes)));
    assert!(!reader.parse());
    assert!(reader.get_list().is_empty());
    assert!(reader.title().is_empty());
}

#[test]
fn reader_refuses_newer_version() {
    let mut bytes = example_gma();
    bytes[4] = 4;
    let mut reader = Reader::new();
    assert!(reader.read_from_file(Some(bytes)));
    assert!(!reader.parse());
    assert_eq!(reader.get_format_version(), 0);
}

#[test]
fn reader_refuses_short_buffers() {
    let whole = example_gma();
    let table_end = whole.len() - 4 - 6;
    for cut in 0..table_end {
        let mut reader = Reader::new();
        assert!(reader.read_from_file(Some(whole[..cut].to_vec())));
        assert!(!reader.parse(), "a buffer of {} bytes was accepted", cut);
    }
    let mut reader = Reader::new();
    assert!(reader.read_from_file(Some(whole[..table_end].to_vec())));
    assert!(reader.parse());
}

#[test]
fn reader_fails_gracefully_on_missing_bytes() {
    let whole = example_gma();
    let mut reader = Reader::new();
    assert!(reader.read_from_file(Some(whole[..whole.len() - 7].to_vec())));
    assert!(reader.parse());
    assert_eq!(reader.get_list().len(), 1);
    let mut buffer = Vec::new();
    assert!(!reader.read_file(1, &mut buffer));
    assert!(buffer.is_empty());
}

#[test]
fn reader_is_idempotent() {
    let mut reader = Reader::new();
    assert!(reader.read_from_file(Some(example_gma())));
    assert!(reader.parse());
    let first: Vec<(Vec<u8>, u64, u32, u32, u64)> = reader
        .get_list()
        .iter()
        .map(|e| (e.str_name.clone(), e.i_size, e.i_crc, e.i_file_number, e.i_offset))
        .collect();
    assert!(reader.parse());
    let second: Vec<(Vec<u8>, u64, u32, u32, u64)> = reader
        .get_list()
        .iter()
        .map(|e| (e.str_name.clone(), e.i_size, e.i_crc, e.i_file_number, e.i_offset))
        .collect();
    assert_eq!(first, second);
    assert_eq!(reader.get_list().len(), 1);
}

#[test]
fn reader_clears() {
    let mut reader = Reader::new();
    assert!(reader.read_from_file(Some(example_gma())));
    assert!(reader.parse());
    reader.clear();
    assert!(reader.get_buffer().is_empty());
    assert!(reader.get_list().is_empty());
    assert!(reader.title().is_empty());
    assert!(reader.description().is_empty());
    assert!(reader.author().is_empty());
    assert_eq!(reader.get_format_version(), 0);
}

#[test]
fn reader_reads_version_one_without_required_content() {
    let mut out = Vec::new();
    out.extend_from_slice(b"GMAD");
    out.push(1);
    push_u64(&mut out, 0);
    push_u64(&mut out, 0);
    push_str(&mut out, "Old");
    push_str(&mut out, "plain words");
    push_str(&mut out, "me");
    push_u32(&mut out, 1);
    push_u32(&mut out, 0);
    let mut reader = Reader::new();
    assert!(reader.read_from_file(Some(out)));
    assert!(reader.parse());
    assert_eq!(reader.get_format_version(), 1);
    assert_eq!(reader.title(), b"Old");
    assert_eq!(reader.description(), b"plain words");
    assert!(reader.tags().is_empty());
    assert!(reader.get_list().is_empty());
}

#[test]
fn reader_skips_required_content() {
    let mut out = Vec::new();
    out.extend_from_slice(b"GMAD");
    out.push(2);
    push_u64(&mut out, 7);
    push_u64(&mut out, 8);
    push_str(&mut out, "first needed");
    push_str(&mut out, "second needed");
    push_str(&mut out, "");
    push_str(&mut out, "Title");
    push_str(&mut out, "Words");
    push_str(&mut out, "Author");
    push_u32(&mut out, 1);
    push_u32(&mut out, 0);
    let mut reader = Reader::new();
    assert!(reader.read_from_file(Some(out)));
    assert!(reader.parse());
    assert_eq!(reader.title(), b"Title");
    assert_eq!(reader.description(), b"Words");
    assert_eq!(reader.author(), b"Author");
}

#[test]
fn reader_numbers_entries_itself_and_adds_up_offsets() {
    let mut out = Vec::new();
    out.extend_from_slice(b"GMAD");
    out.push(3);
    push_u64(&mut out, 0);
    push_u64(&mut out, 0);
    out.push(0);
    push_str(&mut out, "T");
    push_str(&mut out, "D");
    push_str(&mut out, "A");
    push_u32(&mut out, 1);
    for (marker, name, size) in [(9u32, "a.txt", 3u64), (9, "b.txt", 5), (2, "c.txt", 1)] {
        push_u32(&mut out, marker);
        push_str(&mut out, name);
        push_u64(&mut out, size);
        push_u32(&mut out, 0xdead_beef);
    }
    push_u32(&mut out, 0);
    let block = out.len();
    out.extend_from_slice(b"aaabbbbbc");
    push_u32(&mut out, 0);
    let mut reader = Reader::new();
    assert!(reader.read_from_file(Some(out)));
    assert!(reader.parse());
    let list = reader.get_list();
    assert_eq!(list.len(), 3);
    let numbers: Vec<u32> = list.iter().map(|e| e.i_file_number).collect();
    assert_eq!(numbers, vec![1, 2, 3]);
    let offsets: Vec<u64> = list.iter().map(|e| e.i_offset).collect();
    assert_eq!(offsets, vec![0, 3, 8]);
    assert_eq!(list[1].i_crc, 0xdead_beef);
    let mut second = Vec::new();
    assert!(reader.read_file(2, &mut second));
    assert_eq!(second, b"bbbbb");
    let mut third = Vec::new();
    assert!(reader.read_file(3, &mut third));
    assert_eq!(third, b"c");
    assert_eq!(&reader.get_buffer()[block - 4..block], &[0u8, 0, 0, 0]);
}

#[test]
fn reader_refuses_sizes_that_overflow() {
    let mut out = Vec::new();
    out.extend_from_slice(b"GMAD");
    out.push(3);
    push_u64(&mut out, 0);
    push_u64(&mut out, 0);
    out.push(0);
    push_str(&mut out, "T");
    push_str(&mut out, "D");
    push_str(&mut out, "A");
    push_u32(&mut out, 1);
    for size in [u64::MAX, 1] {
        push_u32(&mut out, 1);
        push_str(&mut out, "x");
        push_u64(&mut out, size);
        push_u32(&mut out, 0);
    }
    push_u32(&mut out, 0);
    let mut reader = Reader::new();
    assert!(reader.read_from_file(Some(out)));
    assert!(!reader.parse());
}

#[test]
fn reader_splits_json_descriptions() {
    let mut out = Vec::new();
    out.extend_from_slice(b"GMAD");
    out.push(3);
    push_u64(&mut out, 0);
    push_u64(&mut out, 0);
    out.push(0);
    push_str(&mut out, "T");
    push_str(
        &mut out,
        "{\n\t\"description\": \"A tool.\",\n\t\"type\": \"tool\",\n\t\"tags\": [ \"fun\", \"build\" ]\n}",
    );
    push_str(&mut out, "A");
    push_u32(&mut out, 1);
    push_u32(&mut out, 0);
    let mut reader = Reader::new();
    assert!(reader.read_from_file(Some(out)));
    assert!(reader.parse());
    assert_eq!(reader.description(), b"A tool.");
    assert_eq!(reader.tags(), &vec![b"fun".to_vec(), b"build".to_vec()]);
}
