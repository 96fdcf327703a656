use gmad::addon_json::{check_tags, decode_description, CAddonJson};
use gmad::json::{get_child, import, write_quoted};
use gmad::json_text::{next_token, Scan, Token};

fn info(description: &str, kind: &str, tags: &[&str]) -> CAddonJson {
    CAddonJson {
        m_strError: Vec::new(),
        m_Title: b"Title".to_vec(),
        m_Description: description.as_bytes().to_vec(),
        m_AddonType: kind.as_bytes().to_vec(),
        m_Ignores: Vec::new(),
        m_Tags: tags.iter().map(|t| t.as_bytes().to_vec()).collect(),
    }
}

fn tags_of(list: &[&str]) -> Vec<Vec<u8>> {
    list.iter().map(|t| t.as_bytes().to_vec()).collect()
}

#[test]
fn description_is_written_compactly() {
    let text = info("Desc", "tool", &["fun", "build"]).build_description();
    assert_eq!(text, b"{\"description\":\"Desc\",\"type\":\"tool\",\"tags\":[\"fun\",\"build\"]}");
    let text = info("", "map", &[]).build_description();
    assert_eq!(text, b"{\"description\":\"\",\"type\":\"map\",\"tags\":[]}");
    let text = info("x", "map", &["fun"]).build_description();
    assert_eq!(text, b"{\"description\":\"x\",\"type\":\"map\",\"tags\":[\"fun\"]}");
}

#[test]
fn strings_are_escaped() {
    let mut out = Vec::new();
    write_quoted(&mut out, b"a\"b\\c\n\r\t\x08\x0c\x00\x1f/\x7f");
    assert_eq!(out, b"\"a\\\"b\\\\c\\n\\r\\t\\b\\f\\u0000\\u001f/\x7f\"");
    let mut out = Vec::new();
    write_quoted(&mut out, "héllo".as_bytes());
    assert_eq!(out, "\"héllo\"".as_bytes());
}

#[test]
fn description_survives_the_description_field() {
    for description in ["", "plain", "two\nlines\tand \"quotes\" \\ / {}[]:,", "\u{0}\u{1}\u{1f}", "héllo ✓ 😀"] {
        for tags in [&[][..], &["fun"], &["fun", "build"], &["", "a\"b"]] {
            let written = info(description, "tool", tags).build_description();
            assert!(!written.contains(&0));
            let (plain, carried) = decode_description(written);
            assert_eq!(plain, description.as_bytes());
            assert_eq!(carried, tags_of(tags));
        }
    }
    let bytes: Vec<u8> = (0..=255u8).collect();
    let mut record = info("", "tool", &[]);
    record.m_Description = bytes.clone();
    record.m_Tags = vec![bytes.clone()];
    let (plain, carried) = decode_description(record.build_description());
    assert_eq!(plain, bytes);
    assert_eq!(carried, vec![bytes]);
}

#[test]
fn plain_descriptions_are_kept_verbatim() {
    for text in [
        "Just some words.",
        "",
        "{",
        "{\"description\": \"cut off",
        "{\"description\": \"x\"} trailing",
        "{'description': 'x'}",
        "{\"description\": \"x\",}",
        "[1, 2,]",
        "{\"a\" \"b\"}",
        "nul",
        "[01]",
        "[1.]",
        "[1.e1]",
        "[-]",
        "[1e]",
        "[1e+]",
        "[+1]",
        "[.5]",
        "[tru]",
        "[falsey]",
        "[nul]",
        "[1 2]",
        "[\"a\" \"b\"]",
        "\"tab\tinside\"",
        "\"bad \\x escape\"",
        "\"lone \\ud800 surrogate\"",
        "\"lone \\udc00 surrogate\"",
        "\"half \\ud83d\\u0041\"",
        "\"short \\u12\"",
        "{\"a\":1}}",
        "[}",
        "{]",
        ",",
        ":",
        "{\"a\":}",
        "{1:2}",
        "-",
        "1e",
        "1e+",
        "+1",
        ".5",
        "tru",
        "falsey",
        "a",
        "42",
        "-1.5e3",
        "true",
        "false",
        "null",
        "\"a quoted sentence\"",
        " \"\" ",
    ] {
        let (plain, tags) = decode_description(text.as_bytes().to_vec());
        assert_eq!(plain, text.as_bytes(), "{:?}", text);
        assert!(tags.is_empty(), "{:?}", text);
        assert!(import(text.as_bytes()).is_none(), "{:?}", text);
    }
    let (plain, tags) = decode_description(vec![b'{', 0xff, b'}']);
    assert_eq!(plain, vec![b'{', 0xff, b'}']);
    assert!(tags.is_empty());
}

#[test]
fn json_descriptions_are_split() {
    let (plain, tags) =
        decode_description(b"{\"description\":\"D\",\"type\":\"tool\",\"tags\":[\"fun\"]}".to_vec());
    assert_eq!(plain, b"D");
    assert_eq!(tags, tags_of(&["fun"]));
    let (plain, tags) = decode_description(b" { \"tags\" : [ \"a\" , \"b\" , \"c\" ] } ".to_vec());
    assert_eq!(plain, b"");
    assert_eq!(tags, tags_of(&["a", "b", "c"]));
    let (plain, tags) = decode_description(b"{\"description\":\"unknown tag stays\",\"tags\":[\"nope\"]}".to_vec());
    assert_eq!(plain, b"unknown tag stays");
    assert_eq!(tags, tags_of(&["nope"]));
    let (plain, tags) = decode_description(b"{}".to_vec());
    assert_eq!(plain, b"");
    assert!(tags.is_empty());
    let (plain, tags) = decode_description(b"[\"description\", \"x\"]".to_vec());
    assert_eq!(plain, b"");
    assert!(tags.is_empty());
    let (plain, tags) = decode_description(b"[42]".to_vec());
    assert_eq!(plain, b"");
    assert!(tags.is_empty());
    let (plain, tags) =
        decode_description(b"{\"description\":\"first\",\"description\":\"second\"}".to_vec());
    assert_eq!(plain, b"first");
    assert!(tags.is_empty());
    let (plain, tags) = decode_description(
        b"{\"x\":{\"description\":\"inner\",\"tags\":[\"deep\"]},\"description\":7,\"tags\":\"fun\"}"
            .to_vec(),
    );
    assert_eq!(plain, b"");
    assert!(tags.is_empty());
    let (_, tags) = decode_description(b"{\"tags\":[\"a\",1,[\"b\"],{\"c\":\"d\"},null,\"e\"]}".to_vec());
    assert_eq!(tags, tags_of(&["a", "", "", "", "", "e"]));
    let (_, tags) = decode_description(b"{\"tags\":{\"k\":\"v\",\"n\":[1,2]}}".to_vec());
    assert_eq!(tags, tags_of(&["v", ""]));
}

#[test]
fn documents_are_read() {
    for text in [
        "[null]", "[true]", "[false]", "[0]", "[-0]", "[12]", "[-1.5]", "[1e9]", "[1E-9]",
        "[0.25e+2]", "[\"\"]", "[]", "{}", "[[[[[]]]]]",
        "{\"a\":{\"b\":{\"c\":[1,{\"d\":null}]}}}", " \t\r\n[1] \n", "[1,2,3]",
        "[\"a\",true,null]", "[\"\\u0041\\u00e9\\u20ac\\ud83d\\ude00\\/\"]",
        "{\"\":0}", "[0 , 1]", "[-0.0e-0]",
    ] {
        assert!(import(text.as_bytes()).is_some(), "{:?}", text);
    }
    let deep = "[".repeat(5000) + &"]".repeat(5000);
    assert!(import(deep.as_bytes()).is_some());
    let open = "[".repeat(5000);
    assert!(import(open.as_bytes()).is_none());
}

#[test]
fn members_carry_texts_and_children() {
    let members = import(
        b"{\"title\":\"T\\u00e9\\ud83d\\ude00\",\"n\":1,\"list\":[\"a\",\"b\"],\"title\":\"again\"}",
    )
    .unwrap();
    assert_eq!(members.len(), 4);
    assert_eq!(members[0].name, b"title");
    assert_eq!(members[0].value, "Té😀".as_bytes());
    assert!(members[0].children.is_empty());
    assert_eq!(members[1].name, b"n");
    assert!(members[1].value.is_empty());
    assert_eq!(members[2].name, b"list");
    assert_eq!(members[2].children, tags_of(&["a", "b"]));
    assert_eq!(get_child(&members, b"title").unwrap().value, "Té😀".as_bytes());
    assert_eq!(get_child(&members, b"list").unwrap().children.len(), 2);
    assert!(get_child(&members, b"missing").is_none());
    assert!(import(b"[1]").unwrap().is_empty());
}

#[test]
fn addon_json_is_loaded() {
    let text = b"{\n  \"title\": \"My Addon\",\n  \"type\": \"Tool\",\n  \"tags\": [\"\", \"Build\"],\n  \"ignore\": [\"*.psd\", \"src/*\"]\n}";
    let info = CAddonJson::new(Some(&text[..]));
    assert_eq!(info.GetError(), b"");
    assert_eq!(info.GetTitle(), b"My Addon");
    assert_eq!(info.GetDescription(), b"Description");
    assert_eq!(info.GetType(), b"tool");
    assert_eq!(info.m_Tags, tags_of(&["build"]));
    assert_eq!(info.m_Ignores, tags_of(&["*.psd", "src/*"]));

    let text = b"{\"title\":\"T\",\"type\":\"map\",\"description\":\"\"}";
    let info = CAddonJson::new(Some(&text[..]));
    assert_eq!(info.GetError(), b"");
    assert_eq!(info.GetDescription(), b"");
    assert!(info.m_Tags.is_empty());
    assert!(info.m_Ignores.is_empty());
}

#[test]
fn addon_json_is_refused_with_a_reason() {
    let info = CAddonJson::new(None);
    assert_eq!(info.GetError(), b"Couldn't find file");
    let info = CAddonJson::new(Some(&b"{ not json"[..]));
    assert_eq!(info.GetError(), b"Couldn't parse json");
    let info = CAddonJson::new(Some(&b"{\"type\":\"tool\"}"[..]));
    assert_eq!(info.GetError(), b"title is empty!");
    let info = CAddonJson::new(Some(&b"{\"title\":\"\",\"type\":\"tool\"}"[..]));
    assert_eq!(info.GetError(), b"title is empty!");
    let info = CAddonJson::new(Some(&b"{\"title\":\"T\",\"description\":\"D\"}"[..]));
    assert_eq!(info.GetError(), b"type is empty!");
    assert_eq!(info.GetTitle(), b"T");
    assert_eq!(info.GetDescription(), b"D");
    let info = CAddonJson::new(Some(&b"{\"title\":\"T\",\"type\":\"gadget\"}"[..]));
    assert_eq!(info.GetError(), b"type isn't a supported type!");
    assert_eq!(info.GetType(), b"gadget");
    let info = CAddonJson::new(Some(
        &b"{\"title\":\"T\",\"type\":\"tool\",\"tags\":[\"fun\",\"build\",\"water\"]}"[..],
    ));
    assert_eq!(info.GetError(), b"too many tags - specify 2 only!");
    assert!(info.m_Tags.is_empty());
    let info = CAddonJson::new(Some(
        &b"{\"title\":\"T\",\"type\":\"tool\",\"tags\":[\"fun\",\"nope\"],\"ignore\":[\"x\"]}"[..],
    ));
    assert_eq!(info.GetError(), b"tag isn't a supported word!");
    assert_eq!(info.m_Tags, tags_of(&["fun", "nope"]));
    assert!(info.m_Ignores.is_empty());
}

#[test]
fn tags_are_checked_in_order() {
    assert_eq!(check_tags(&tags_of(&[])), (tags_of(&[]), true));
    assert_eq!(check_tags(&tags_of(&["Fun", "", "BUILD"])), (tags_of(&["fun", "build"]), true));
    assert_eq!(check_tags(&tags_of(&["x", "fun"])), (tags_of(&["x"]), false));
    assert_eq!(check_tags(&tags_of(&["fun", "x", "build"])), (tags_of(&["fun", "x"]), false));
}

#[test]
fn ignored_files_are_removed() {
    let mut record = info("", "tool", &[]);
    record.m_Ignores = tags_of(&["*.psd", "src/*"]);
    let mut files = tags_of(&[
        "addon.json",
        "lua/a.lua",
        "art/icon.psd",
        "Thumbs.db",
        "maps/THUMBS.DB",
        "desktop.ini",
        "models/Desktop.ini",
        ".DS_Store",
        "lua/.DS_Store",
        "lua/.ds_store",
        "src/notes.txt",
        "materials/src/x.png",
        "Addon.json",
        "art/icon.PSD",
    ]);
    record.remove_ignored_files(&mut files);
    assert_eq!(
        files,
        tags_of(&["lua/a.lua", "lua/.ds_store", "materials/src/x.png", "Addon.json", "art/icon.PSD"])
    );
    assert!(record.is_ignored(b"addon.json"));
    assert!(!record.is_ignored(b"lua/addon.json"));
    let mut none: Vec<Vec<u8>> = Vec::new();
    record.remove_ignored_files(&mut none);
    assert!(none.is_empty());
}

#[test]
fn tokens_are_read_one_by_one() {
    let text = b" { \"k\" : [ -12.5e+3 , true ] } ";
    let mut pos = 0;
    let mut seen = Vec::new();
    loop {
        match next_token(text, pos) {
            Scan::Token(token, next) => {
                assert!(next > pos);
                seen.push(match token {
                    Token::Open(true) => "{".to_string(),
                    Token::Open(false) => "[".to_string(),
                    Token::Close(true) => "}".to_string(),
                    Token::Close(false) => "]".to_string(),
                    Token::Colon => ":".to_string(),
                    Token::Comma => ",".to_string(),
                    Token::Text(text) => format!("text {}", String::from_utf8(text).unwrap()),
                    Token::Scalar => "scalar".to_string(),
                });
                pos = next;
            }
            Scan::End => break,
            Scan::Bad => panic!("no token at {}", pos),
        }
    }
    assert_eq!(seen, vec!["{", "text k", ":", "[", "scalar", ",", "scalar", "]", "}"]);
    assert!(matches!(next_token(b"  ", 0), Scan::End));
    assert!(matches!(next_token(b"x", 5), Scan::End));
    assert!(matches!(next_token(b"x", 0), Scan::Bad));
    assert!(matches!(next_token(b"\"open", 0), Scan::Bad));
    assert!(matches!(next_token(b"-x", 0), Scan::Bad));
    assert!(matches!(next_token(b"1.5", 0), Scan::Token(Token::Scalar, 3)));
    assert!(matches!(next_token(b"01", 0), Scan::Token(Token::Scalar, 1)));
    assert!(matches!(next_token(b"false,", 0), Scan::Token(Token::Scalar, 5)));
    assert!(matches!(next_token(b"null", 0), Scan::Token(Token::Scalar, 4)));
}
