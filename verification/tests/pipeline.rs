use gmad::addon_json::CAddonJson;
use gmad::addon_reader::Reader;
use gmad::create_gmad::{create_addon_file, drop_ignored, drop_unlisted, sort_files, CreateFailure};
use gmad::extract_gmad::{extract_addon_file, ExtractFailure};
use gmad::layout::SourceFile;
use gmad::paths::{
    append_decimal, archive_path, extract_path, fallback_path, fix_slashes, folder_path,
    strip_extension, strip_filename, trim_end_slashes,
};

fn file(name: &str, contents: &[u8]) -> SourceFile {
    SourceFile { name: name.as_bytes().to_vec(), contents: contents.to_vec() }
}

fn names(files: &[SourceFile]) -> Vec<String> {
    files.iter().map(|f| String::from_utf8(f.name.clone()).unwrap()).collect()
}

fn tool() -> CAddonJson {
    let text = b"{\"title\":\"Test\",\"type\":\"tool\",\"description\":\"A test.\",\"tags\":[\"fun\"],\"ignore\":[\"*.psd\"]}";
    let info = CAddonJson::new(Some(&text[..]));
    assert!(info.GetError().is_empty());
    info
}

#[test]
fn paths_are_brought_into_form() {
    assert_eq!(fix_slashes(b"a\\b/c\\"), b"a/b/c/");
    assert_eq!(trim_end_slashes(b"a/b///"), b"a/b");
    assert_eq!(trim_end_slashes(b"///"), b"");
    assert_eq!(trim_end_slashes(b"a"), b"a");
    assert_eq!(folder_path(b"C:\\addons\\mine\\"), b"C:/addons/mine/");
    assert_eq!(folder_path(b"mine"), b"mine/");
    assert_eq!(folder_path(b"mine//"), b"mine/");
    assert_eq!(folder_path(b""), b"/");
    assert_eq!(strip_extension(b"a/b.gma"), b"a/b");
    assert_eq!(strip_extension(b"a/b"), b"a/b");
    assert_eq!(strip_extension(b"a.b/c"), b"a.b/c");
    assert_eq!(strip_extension(b"a.b.c"), b"a.b");
    assert_eq!(strip_extension(b".gma"), b"");
    assert_eq!(strip_extension(b""), b"");
    assert_eq!(strip_filename(b"lua/autorun/x.lua"), b"lua/autorun");
    assert_eq!(strip_filename(b"x.lua"), b"");
    assert_eq!(strip_filename(b"lua/"), b"lua");
    assert_eq!(strip_filename(b"/x"), b"");
}

#[test]
fn archives_are_named_after_the_folder() {
    assert_eq!(archive_path(b"addons/mine/", b""), b"addons/mine.gma");
    assert_eq!(archive_path(b"addons/mine/", b"out/thing"), b"out/thing.gma");
    assert_eq!(archive_path(b"addons/mine/", b"out/thing.gma"), b"out/thing.gma");
    assert_eq!(archive_path(b"addons/mine/", b"out/thing.zip"), b"out/thing.gma");
    assert_eq!(archive_path(b"addons/my.addon/", b""), b"addons/my.gma");
    assert_eq!(extract_path(b"dl/thing.gma", b""), b"dl/thing/");
    assert_eq!(extract_path(b"dl/thing.gma", b"out\\here\\"), b"out/here/");
    assert_eq!(extract_path(b"dl/thing.gma", b"out"), b"out/");
}

#[test]
fn fallback_names_count_up() {
    assert_eq!(fallback_path(b"out/", 0), b"out/badnames/0.unk");
    assert_eq!(fallback_path(b"out/", 7), b"out/badnames/7.unk");
    assert_eq!(fallback_path(b"out/", 10), b"out/badnames/10.unk");
    assert_eq!(fallback_path(b"", 1234567890), b"badnames/1234567890.unk");
    let mut digits = Vec::new();
    append_decimal(&mut digits, u64::MAX);
    assert_eq!(digits, b"18446744073709551615");
}

#[test]
fn files_are_sorted_by_path() {
    let sorted = sort_files(vec![
        file("lua/b.lua", b"1"),
        file("lua/a.lua", b"2"),
        file("models/x.mdl", b"3"),
        file("lua/a.lua.bak", b"4"),
        file("Lua/z.lua", b"5"),
        file("lua/a", b"6"),
    ]);
    assert_eq!(
        names(&sorted),
        vec!["Lua/z.lua", "lua/a", "lua/a.lua", "lua/a.lua.bak", "lua/b.lua", "models/x.mdl"]
    );
    assert_eq!(sorted[2].contents, b"2");
    assert!(sort_files(Vec::new()).is_empty());
}

#[test]
fn files_are_selected() {
    let info = tool();
    let rest = drop_ignored(
        &info,
        vec![file("addon.json", b"{}"), file("lua/a.lua", b"1"), file("a.psd", b"2"), file("b.exe", b"3")],
    );
    assert_eq!(names(&rest), vec!["lua/a.lua", "b.exe"]);
    let (listed, every) = drop_unlisted(rest);
    assert_eq!(names(&listed), vec!["lua/a.lua"]);
    assert!(!every);
    let (listed, every) = drop_unlisted(vec![file("lua/a.lua", b"1"), file("maps/m.bsp", b"2")]);
    assert_eq!(listed.len(), 2);
    assert!(every);
}

#[test]
fn addon_folder_becomes_an_archive() {
    let info = tool();
    let found = vec![
        file("lua/init.lua", b"return"),
        file("addon.json", b"{}"),
        file("art/logo.psd", b"psd"),
        file("lua/autorun/A.lua", b"a"),
    ];
    let made = create_addon_file(b"addons\\test\\", b"", &info, found, false, 42, true).unwrap();
    assert_eq!(made.out_file, b"addons/test.gma");
    assert_eq!(names(&made.files), vec!["lua/autorun/A.lua", "lua/init.lua"]);

    let mut reader = Reader::new();
    assert!(reader.read_from_file(Some(made.archive)));
    assert!(reader.parse());
    assert_eq!(reader.title(), b"Test");
    assert_eq!(reader.description(), b"A test.");
    assert_eq!(reader.tags(), &vec![b"fun".to_vec()]);
    assert_eq!(reader.get_list().len(), 2);
    assert_eq!(reader.get_list()[0].str_name, b"lua/autorun/a.lua");
    assert_eq!(reader.get_list()[1].str_name, b"lua/init.lua");
    let mut bytes = Vec::new();
    assert!(reader.read_file(2, &mut bytes));
    assert_eq!(bytes, b"return");
}

#[test]
fn example_addon_has_one_entry() {
    let text = b"{\"title\":\"Test\",\"type\":\"tool\"}";
    let info = CAddonJson::new(Some(&text[..]));
    assert!(info.GetError().is_empty());
    let found = vec![file("addon.json", text), file("lua/init.lua", b"print(")];
    let made = create_addon_file(b"test", b"", &info, found, false, 0, true).unwrap();
    let taken = extract_addon_file(Some(made.archive), b"test.gma", b"").unwrap();
    assert_eq!(taken.files.len(), 1);
    assert_eq!(taken.files[0].name, b"lua/init.lua");
    assert_eq!(taken.files[0].size, 6);
    assert_eq!(taken.files[0].contents.as_deref(), Some(&b"print("[..]));
}

#[test]
fn addon_folder_is_refused_with_a_reason() {
    let bad = CAddonJson::new(Some(&b"{\"title\":\"T\"}"[..]));
    let r = create_addon_file(b"x", b"", &bad, vec![file("lua/a.lua", b"1")], false, 0, true);
    assert!(matches!(r, Err(CreateFailure::Info)));

    let info = tool();
    let r = create_addon_file(b"x", b"", &info, Vec::new(), false, 0, true);
    assert!(matches!(r, Err(CreateFailure::Files)));
    let r = create_addon_file(b"x", b"", &info, vec![file("addon.json", b"{}")], true, 0, true);
    assert!(matches!(r, Err(CreateFailure::Files)));
    let found = vec![file("lua/a.lua", b"1"), file("virus.exe", b"2")];
    let r = create_addon_file(b"x", b"", &info, found, false, 0, true);
    assert!(matches!(r, Err(CreateFailure::Files)));

    let found = vec![file("lua/a.lua", b"1"), file("virus.exe", b"2")];
    let made = create_addon_file(b"x", b"y.gma", &info, found, true, 0, true).unwrap();
    assert_eq!(names(&made.files), vec!["lua/a.lua"]);
    assert_eq!(made.out_file, b"y.gma");

    let found = vec![file("lua/a.lua", b"1"), file("lua/empty.lua", b"")];
    let r = create_addon_file(b"x", b"", &info, found, false, 0, true);
    assert!(matches!(r, Err(CreateFailure::Archive)));
    let found = vec![file("virus.exe", b"")];
    let r = create_addon_file(b"x", b"", &info, found, true, 0, true);
    assert!(r.is_ok());
}

#[test]
fn archive_is_taken_apart() {
    let info = tool();
    let found = vec![file("lua/autorun/a.lua", b"aaa"), file("models/m.mdl", b"mm"), file("lua/z.lua", b"z")];
    let made = create_addon_file(b"x", b"", &info, found, false, 0, false).unwrap();
    let taken = extract_addon_file(Some(made.archive.clone()), b"dl\\x.gma", b"").unwrap();
    assert_eq!(taken.out_path, b"dl/x/");
    assert_eq!(taken.files.len(), 3);
    assert_eq!(taken.files[0].name, b"lua/autorun/a.lua");
    assert_eq!(taken.files[0].folder, b"dl/x/lua/autorun");
    assert_eq!(taken.files[0].target, b"dl/x/lua/autorun/a.lua");
    assert_eq!(taken.files[0].size, 3);
    assert_eq!(taken.files[0].contents.as_deref(), Some(&b"aaa"[..]));
    assert_eq!(taken.files[1].name, b"lua/z.lua");
    assert_eq!(taken.files[1].contents.as_deref(), Some(&b"z"[..]));
    assert_eq!(taken.files[2].target, b"dl/x/models/m.mdl");
    assert_eq!(taken.files[2].contents.as_deref(), Some(&b"mm"[..]));

    let cut = made.archive[..made.archive.len() - 5].to_vec();
    let taken = extract_addon_file(Some(cut), b"x.gma", b"out").unwrap();
    assert_eq!(taken.out_path, b"out/");
    assert!(taken.files[0].contents.is_some());
    assert!(taken.files[1].contents.is_some());
    assert!(taken.files[2].contents.is_none());

    let r = extract_addon_file(Some(b"not an archive".to_vec()), b"x.gma", b"");
    assert!(matches!(r, Err(ExtractFailure::Parse)));
    let r = extract_addon_file(Some(Vec::new()), b"x.gma", b"");
    assert!(matches!(r, Err(ExtractFailure::Parse)));
    let r = extract_addon_file(None, b"x.gma", b"");
    assert!(matches!(r, Err(ExtractFailure::Open)));
}
