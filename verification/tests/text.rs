use traework_assistant::json::Json;
use traework_assistant::number::{
    parse_signed, parse_unsigned, to_decimal, to_hex, to_signed_decimal,
};
use traework_assistant::paths::{file_name, join};
use traework_assistant::table::Table;
use traework_assistant::text;

fn chars(s: &str) -> Vec<char> {
    s.chars().collect()
}

#[test]
fn numbers_are_written_and_read() {
    assert_eq!(to_decimal(0), "0");
    assert_eq!(to_decimal(u64::MAX), "18446744073709551615");
    assert_eq!(to_hex(255), "FF");
    assert_eq!(to_signed_decimal(i64::MIN), "-9223372036854775808");
    assert_eq!(parse_unsigned(&chars("+65535"), 65535), Some(65535));
    assert_eq!(parse_unsigned(&chars("65536"), 65535), None);
    assert_eq!(parse_unsigned(&chars(""), 65535), None);
    assert_eq!(parse_signed(&chars("-9223372036854775808")), Some(i64::MIN));
    assert_eq!(parse_signed(&chars("9223372036854775808")), None);
    assert_eq!(parse_signed(&chars("-")), None);
}

#[test]
fn texts_are_cut_and_put_together() {
    assert_eq!(text::trim_text(" \u{3000}a b\n"), "a b");
    assert_eq!(text::split(&chars("a.b."), &chars(".")).len(), 3);
    assert!(text::text_contains("abc", "bc"));
    assert!(!text::text_contains("abc", "cb"));
    assert!(text::text_starts_with("abc", "ab"));
    assert!(text::text_matches_word("Content-Type", "content-type"));
    assert!(text::text_comes_before("TRAE", "Trae"));
    assert_eq!(text::plus("a".to_string(), "b"), "ab");
    assert_eq!(text::split_words(&chars("  a  b ")).len(), 2);
}

#[test]
fn paths_are_joined_and_taken_apart() {
    assert_eq!(join("/a", "b/c", false), "/a/b/c");
    assert_eq!(join("/a/", "b", false), "/a/b");
    assert_eq!(join("/a", "/b", false), "/b");
    assert_eq!(file_name("/a/b.app/", false).as_deref(), Some("b.app"));
    assert_eq!(file_name("C:\\x\\y", true).as_deref(), Some("y"));
    assert_eq!(file_name("/", false), None);
    assert_eq!(join("C:\\a", "b", true), "C:\\a\\b");
    assert_eq!(join("C:\\a\\", "b", true), "C:\\a\\b");
    assert_eq!(join("C:", "b", true), "C:b");
    assert_eq!(join("\\\\host\\share\\a", "b", true), "\\\\host\\share\\a\\b");
    assert_eq!(join("data", "app", true), "data\\app");
    assert_eq!(join("data", "app", false), "data/app");
    assert_eq!(join("C:x", "app", true), "C:x\\app");
    assert_eq!(join("C:x", "app", false), "C:x/app");
    assert_eq!(join("C:\\a", "D:b", true), "D:b");
    assert_eq!(join("C:\\a", "\\b", true), "C:\\b");
    assert_eq!(join("//host/share/a", "/b", true), "//host/share/b");
    assert_eq!(join("/a", "C:\\b", false), "/a/C:\\b");
    assert_eq!(file_name("C:\\", true), None);
    assert_eq!(file_name("C:\\x", true).as_deref(), Some("x"));
}

#[test]
fn json_is_read_and_written() {
    let v = Json::parse(r#"{"b":[1,-2,18446744073709551615,1.5,null,true],"a":"x\ny"}"#).unwrap();
    assert_eq!(
        v.to_compact(),
        r#"{"a":"x\ny","b":[1,-2,18446744073709551615,1.5,null,true]}"#
    );
    assert_eq!(v.get("a").unwrap().as_text().unwrap(), "x\ny");
    assert!(v.get("z").is_none());
    assert!(Json::parse("{").is_none());
    assert_eq!(Json::parse("7").unwrap().as_signed(), Some(7));
    assert_eq!(Json::parse("-7").unwrap().as_unsigned(), None);
    assert_eq!(Json::parse("18446744073709551615").unwrap().as_unsigned(), Some(u64::MAX));
    assert_eq!(Json::parse("18446744073709551615").unwrap().as_signed(), None);
    assert_eq!(Json::parse("false").unwrap().as_bool(), Some(false));
    assert_eq!(Json::parse("{\"a\":1}").unwrap().to_pretty(), "{\n  \"a\": 1\n}");
}

#[test]
fn a_table_forgets_what_is_old() {
    let mut t: Table<u8> = Table::new();
    t.put("a".into(), 10, 1);
    t.put("b".into(), 20, 2);
    t.put("a".into(), 30, 3);
    assert_eq!(t.len(), 2);
    assert_eq!(t.get("a"), Some((30, &3)));
    t.expire(40, 15);
    assert!(t.get("b").is_none());
    t.remove("a");
    assert_eq!(t.len(), 0);
    t.put("c".into(), 1, 1);
    t.clear();
    assert_eq!(t.len(), 0);
}
