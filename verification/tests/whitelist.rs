use gmad::addon_format::{tag_exists, type_exists};
use gmad::addon_whitelist::{check, pattern_table};
use gmad::bytestr::{bytes_eq, bytes_le, contains_capitals, to_lower};
use gmad::create_gmad::verify_files;
use gmad::wildcard::wildcard;

#[test]
fn whitelist_lets_known_content_in() {
    assert!(check(b"models/foo.mdl"));
    assert!(check(b"gamemodes/x/gamemode/init.lua"));
    assert!(check(b"lua/autorun/server/deep/file.lua"));
    assert!(check(b"maps/thumb/gm_test.png"));
    assert!(check(b"resource/localization/en/addon.properties"));
    assert!(check(b"gamemodes/sandbox/content/sound/a/b.ogg"));
}

#[test]
fn whitelist_keeps_unknown_content_out() {
    assert!(!check(b"scripts/evil.exe"));
    assert!(!check(b"lua/init.lua.exe"));
    assert!(!check(b"addon.json"));
    assert!(!check(b"models/foo.mdl/"));
    assert!(!check(b""));
    assert!(!check(b"xlua/a.lua"));
    assert!(!check(b"gamemodes/logo.png"));
}

#[test]
fn whitelist_ignores_case() {
    assert!(check(b"MODELS/Foo.MDL"));
    assert!(check(b"Lua/Init.LUA"));
    assert!(!check(b"SCRIPTS/EVIL.EXE"));
    for path in [&b"Models/Foo.mdl"[..], b"maps/GM_Flat.BSP", b"scripts/x.EXE", b"LUA/"] {
        assert_eq!(check(path), check(&to_lower(path)));
    }
}

#[test]
fn whitelist_has_its_patterns() {
    let table = pattern_table();
    assert_eq!(table.len(), 56);
    assert_eq!(table[0], "lua/*.lua");
    assert_eq!(table[18], "models/*.mdl");
    assert_eq!(table[55], "gamemodes/*/content/sound/*.ogg");
}

#[test]
fn star_matches_any_run() {
    assert!(wildcard(b"*", b""));
    assert!(wildcard(b"*", b"a/b/c"));
    assert!(wildcard(b"a*c", b"ac"));
    assert!(wildcard(b"a*c", b"abc"));
    assert!(wildcard(b"a*c", b"a/b/c"));
    assert!(wildcard(b"a*c", b"abcbc"));
    assert!(!wildcard(b"a*c", b"abcb"));
    assert!(wildcard(b"*a*b*", b"xxaxxbxx"));
    assert!(!wildcard(b"*a*b*", b"xxbxxaxx"));
    assert!(wildcard(b"**", b"x"));
    assert!(wildcard(b"a**b", b"ab"));
    assert!(wildcard(b"*thumbs.db", b"a/thumbs.db"));
    assert!(wildcard(b"*.lua", b".lua"));
    assert!(wildcard(b"*aab", b"aaab"));
}

#[test]
fn other_bytes_match_themselves() {
    assert!(wildcard(b"", b""));
    assert!(!wildcard(b"", b"a"));
    assert!(wildcard(b"abc", b"abc"));
    assert!(!wildcard(b"abc", b"abd"));
    assert!(!wildcard(b"abc", b"ab"));
    assert!(!wildcard(b"ab", b"abc"));
    assert!(!wildcard(b"a?c", b"abc"));
    assert!(wildcard(b"a?c", b"a?c"));
    assert!(!wildcard(b"ABC", b"abc"));
}

#[test]
fn lower_case_moves_ascii_capitals_only() {
    assert_eq!(to_lower(b"Hello/WORLD.Txt"), b"hello/world.txt");
    assert_eq!(to_lower(b"@[`{AZaz09"), b"@[`{azaz09");
    assert_eq!(to_lower(&[0xc4, 0x80, b'Q']), vec![0xc4, 0x80, b'q']);
    assert!(contains_capitals(b"lua/Init.lua"));
    assert!(!contains_capitals(b"lua/init.lua"));
    assert!(!contains_capitals(b""));
    assert!(!contains_capitals(b"@[`{"));
}

#[test]
fn byte_strings_compare() {
    assert!(bytes_eq(b"", b""));
    assert!(bytes_eq(b"abc", b"abc"));
    assert!(!bytes_eq(b"abc", b"abd"));
    assert!(!bytes_eq(b"abc", b"ab"));
    assert!(bytes_le(b"", b""));
    assert!(bytes_le(b"", b"a"));
    assert!(!bytes_le(b"a", b""));
    assert!(bytes_le(b"abc", b"abc"));
    assert!(bytes_le(b"ab", b"abc"));
    assert!(!bytes_le(b"abc", b"ab"));
    assert!(bytes_le(b"abc", b"abd"));
    assert!(!bytes_le(b"abd", b"abc"));
    assert!(bytes_le(b"Z", b"a"));
    assert!(bytes_le(b"a", &[0xff]));
}

#[test]
fn files_are_verified_against_the_whitelist() {
    let mut files = vec![b"lua/a.lua".to_vec(), b"readme.txt".to_vec(), b"Models/B.MDL".to_vec()];
    assert!(!verify_files(&mut files, false));
    assert_eq!(files, vec![b"lua/a.lua".to_vec(), b"Models/B.MDL".to_vec()]);

    let mut files = vec![b"lua/a.lua".to_vec(), b"readme.txt".to_vec()];
    assert!(verify_files(&mut files, true));
    assert_eq!(files, vec![b"lua/a.lua".to_vec()]);

    let mut files = vec![b"lua/a.lua".to_vec(), b"maps/x.bsp".to_vec()];
    assert!(verify_files(&mut files, false));
    assert_eq!(files.len(), 2);

    let mut none: Vec<Vec<u8>> = Vec::new();
    assert!(!verify_files(&mut none, false));
    assert!(!verify_files(&mut none, true));

    let mut only_bad = vec![b"a.exe".to_vec()];
    assert!(verify_files(&mut only_bad, true));
    assert!(only_bad.is_empty());
}

#[test]
fn types_are_a_fixed_list() {
    for name in [
        "gamemode", "map", "weapon", "vehicle", "npc", "entity", "tool", "effects", "model",
        "servercontent",
    ] {
        assert!(type_exists(name.as_bytes()), "{}", name);
    }
    assert!(!type_exists(b"Tool"));
    assert!(!type_exists(b""));
    assert!(!type_exists(b"fun"));
    assert!(!type_exists(b"tools"));
}

#[test]
fn tags_are_a_fixed_list() {
    for name in
        ["fun", "roleplay", "scenic", "movie", "realism", "cartoon", "water", "comic", "build"]
    {
        assert!(tag_exists(name.as_bytes()), "{}", name);
    }
    assert!(!tag_exists(b"Fun"));
    assert!(!tag_exists(b""));
    assert!(!tag_exists(b"tool"));
}
