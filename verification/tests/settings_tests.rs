use laspad::config::{parse_mod_settings, LuaGetError};
use laspad::lua::{lookup, parse};

const EXAMPLE: &str = "\
name = \"NS2 Community Fixes\"
source_dir = \"\"
output_dir = \"output\"
description = [=[test description[]][]=]
image = \"preview.jpg\"
tag_modtype = \"Gameplay Tweak\"
tag_support = \"Must be run on Server\"
publish_id = \"4292cdec\"
";

#[test]
fn lib_test() {
    let map = parse(EXAMPLE);
    assert_eq!(lookup(&map, "name").unwrap(), "NS2 Community Fixes");
    assert_eq!(lookup(&map, "source_dir").unwrap(), "");
    assert_eq!(lookup(&map, "output_dir").unwrap(), "output");
    assert_eq!(lookup(&map, "description").unwrap(), "test description[]][");
    assert_eq!(lookup(&map, "image").unwrap(), "preview.jpg");
    assert_eq!(lookup(&map, "tag_modtype").unwrap(), "Gameplay Tweak");
    assert_eq!(lookup(&map, "tag_support").unwrap(), "Must be run on Server");
    assert_eq!(lookup(&map, "publish_id").unwrap(), "4292cdec");
}

#[test]
fn parse_stops_at_first_bad_declaration() {
    let map = parse("a = \"1\"\nnot a declaration\nb = \"2\"\n");
    assert_eq!(lookup(&map, "a").unwrap(), "1");
    assert_eq!(lookup(&map, "b"), None);
}

#[test]
fn parse_last_declaration_wins() {
    let map = parse("k = \"one\"\nk = \"two\"\n");
    assert_eq!(lookup(&map, "k").unwrap(), "two");
}

#[test]
fn parse_plain_long_bracket() {
    let map = parse("v = [[line one\nline two]]");
    assert_eq!(lookup(&map, "v").unwrap(), "line one\nline two");
}

#[test]
fn settings_missing_key_is_reported() {
    let text = "name = \"x\"\n";
    match parse_mod_settings(text) {
        Err(LuaGetError::MissingKey(k)) => assert_eq!(k, "description"),
        _ => panic!("expected a missing key"),
    }
}

#[test]
fn settings_invalid_publish_id_is_reported() {
    let text = "\
name = \"x\"
description = \"d\"
image = \"i.jpg\"
publish_id = \"zz-not-hex\"
source_dir = \"src\"
output_dir = \"out\"
";
    match parse_mod_settings(text) {
        Err(LuaGetError::InvalidPublishId) => {}
        _ => panic!("expected an invalid publish id"),
    }
}

#[test]
fn settings_readable_builds_master_branch() {
    let c = parse_mod_settings(EXAMPLE).unwrap();
    assert_eq!(c.branches.len(), 1);
    assert_eq!(c.branches[0].0, "master");
    let b = &c.branches[0].1;
    assert_eq!(b.name, "NS2 Community Fixes");
    assert_eq!(b.description_str.as_deref(), Some("test description[]]["));
    assert_eq!(b.preview.as_deref(), Some("preview.jpg"));
    assert_eq!(b.item.map(|i| i.0), Some(0x4292cdec));
    assert_eq!(b.autodescription, Some(false));
    assert_eq!(
        b.tags,
        vec!["Gameplay Tweak".to_string(), "Must be run on Server".to_string()]
    );
    let (s, o) = c.source_output_dir.unwrap();
    assert_eq!(s, Vec::<String>::new());
    assert_eq!(o, vec!["output".to_string()]);
    assert_eq!(c.deps.len(), 0);
}

#[test]
fn parse_accepts_an_empty_key() {
    // The identifier run may be empty: a bare `= "v"` declares the empty key.
    let map = parse("= \"v\"");
    assert_eq!(lookup(&map, "").unwrap(), "v");
}

#[test]
fn parse_skips_surrounding_whitespace() {
    let map = parse("  \n\t key =    \"value\"  \n next = \"n\"");
    assert_eq!(lookup(&map, "key").unwrap(), "value");
    assert_eq!(lookup(&map, "next").unwrap(), "n");
}
