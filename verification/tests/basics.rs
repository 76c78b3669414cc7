use noide::json::{Fields, Json};
use noide::order::{comes_before, text_before, Rank, Sorter};
use noide::path::{
    extension_of, file_name_of, join_path, split_name, split_pieces, split_search_path, Platform,
};
use noide::process::exit_number;
use noide::text::{
    after_prefix, blank, drop_char, find, find_last, fold_ascii, has_char, join_slices,
    leading_digits, parse_i64, parse_u16, parse_u32, parse_unsigned, replace_char, same, space,
    split_at_char, split_lines, split_words, splitn_at_char, trim_text, trimmed_end_char,
    trimmed_start_char, write_number, write_signed,
};
use noide::textmap::TextMap;

fn chars(s: &str) -> Vec<char> {
    s.chars().collect()
}

fn back(s: &[char]) -> String {
    s.iter().collect()
}

fn backs(v: Vec<&[char]>) -> Vec<String> {
    v.into_iter().map(back).collect()
}

#[test]
fn texts_are_trimmed_of_all_white_space() {
    assert_eq!(trim_text("\u{a0}\t x y\u{3000}\n"), "x y");
    assert!(blank(" \r\n") && !blank(" . "));
    for c in "\t\n\u{b}\u{c}\r \u{85}\u{a0}\u{1680}\u{2000}\u{2028}\u{2029}\u{202f}\u{205f}\u{3000}"
        .chars()
    {
        assert!(space(c) && c.is_whitespace());
    }
    for c in "a\u{200b}\u{feff}\u{1c}\u{180e}".chars() {
        assert_eq!(space(c), c.is_whitespace());
    }
    assert_eq!(back(trimmed_start_char(&chars("//a/"), '/')), "a/");
    assert_eq!(back(trimmed_end_char(&chars("//a//"), '/')), "//a");
}

#[test]
fn texts_are_split_as_std_splits_them() {
    for s in ["", "a", " a  b\tc ", "\n", "a\r\nb\n\nc", "a\rb", ",", "a,b,,c,"] {
        let c = chars(s);
        assert_eq!(backs(split_words(&c)), s.split_whitespace().collect::<Vec<_>>());
        assert_eq!(backs(split_lines(&c)), s.lines().collect::<Vec<_>>());
        assert_eq!(backs(split_at_char(&c, ',')), s.split(',').collect::<Vec<_>>());
        assert_eq!(backs(splitn_at_char(&c, ',', 2)), s.splitn(2, ',').collect::<Vec<_>>());
    }
}

#[test]
fn texts_are_found_in_texts() {
    let s = chars("abcabc");
    assert_eq!(find(&s, &chars("bc")), Some(1));
    assert_eq!(find_last(&s, &chars("bc")), Some(4));
    assert_eq!(find(&s, &chars("cb")), None);
    assert_eq!(find(&s, &chars("")), Some(0));
    assert_eq!(find_last(&s, &chars("")), Some(6));
    assert!(has_char(&s, 'c') && !has_char(&s, 'd'));
    assert_eq!(after_prefix(&s, "abc").map(back), Some("abc".to_string()));
    assert_eq!(after_prefix(&s, "bc"), None);
    assert!(same("x", "x") && !same("x", "X"));
}

#[test]
fn numbers_are_read_as_std_reads_them() {
    for s in ["0", "7", "+7", "-7", "", "+", "-", "007", "65535", "65536", "4294967296", " 1", "1x",
        "9223372036854775807", "-9223372036854775808", "9223372036854775808"]
    {
        let c = chars(s);
        assert_eq!(parse_u16(&c), s.parse::<u16>().ok(), "{}", s);
        assert_eq!(parse_u32(&c), s.parse::<u32>().ok(), "{}", s);
        assert_eq!(parse_i64(&c), s.parse::<i64>().ok(), "{}", s);
        assert_eq!(parse_unsigned(&c, u64::MAX), s.parse::<u64>().ok(), "{}", s);
    }
    assert_eq!(write_number(0), "0");
    assert_eq!(write_number(u64::MAX), "18446744073709551615");
    assert_eq!(write_signed(i64::MIN), "-9223372036854775808");
    assert_eq!(write_signed(-1), "-1");
    assert_eq!(back(leading_digits(&chars("12ab3"))), "12");
}

#[test]
fn characters_are_changed_one_by_one() {
    assert_eq!(back(&drop_char(&chars("a-b-c"), '-')), "abc");
    assert_eq!(back(&replace_char(&chars("a-b-c"), '-', '+')), "a+b+c");
    assert_eq!(back(&fold_ascii(&chars("AbÄ"))), "abÄ");
    let (a, b) = (chars("x"), chars("y"));
    assert_eq!(join_slices(&vec![&a[..], &b[..]], ", "), "x, y");
    assert_eq!(join_slices(&vec![], ", "), "");
}

#[test]
fn paths_are_read_as_std_reads_them() {
    let os = Platform::Unix;
    for s in ["/a/b.c", "a", "/", "", "a/..", "a/.", ".bashrc", "a.tar.gz", "x.", "/a//b/", "..", "./a",
        "C:\\a\\b.c", "\\\\?\\x.y"]
    {
        let p = std::path::Path::new(s);
        let name = p.file_name().map(|n| n.to_str().unwrap().to_string());
        assert_eq!(file_name_of(os, s), name, "{}", s);
        let ext = p.extension().map(|n| n.to_str().unwrap().to_string());
        assert_eq!(extension_of(os, s), ext, "{}", s);
        for base in ["", "/", "b", "b/", "C:"] {
            let joined = std::path::Path::new(base).join(s);
            assert_eq!(join_path(os, base, s), joined.to_str().unwrap(), "{} {}", base, s);
        }
        let dirs: Vec<&str> = s.split(':').collect();
        assert_eq!(split_search_path(os, s), dirs, "{}", s);
    }
    assert_eq!(split_pieces(os, &chars("/a/./b//../c")), vec!["a", "b", "..", "c"]);
    let name = chars("a.tar.gz");
    let (stem, ext) = split_name(&name);
    assert_eq!((back(stem), ext.map(back)), ("a.tar".to_string(), Some("gz".to_string())));
}

#[test]
fn windows_paths_are_joined() {
    for (base, path, joined) in [
        ("", "foo", "foo"),
        ("foo", "bar", r"foo\bar"),
        ("foo/", "bar", "foo/bar"),
        (r"foo\", "bar", r"foo\bar"),
        ("foo/.", "bar", r"foo/.\bar"),
        ("foo", "", r"foo\"),
        ("foo", "..", r"foo\.."),
        ("foo", "/bar", "/bar"),
        ("C:", r"a\b", r"C:a\b"),
        ("C:", r"..\a", r"C:..\a"),
        (r"C:\", "b", r"C:\b"),
        (r"C:\a", "b", r"C:\a\b"),
        (r"C:\a", r"\b", r"C:\b"),
        (r"C:\a", "/b", "C:/b"),
        (r"C:\a", "C:b", "C:b"),
        (r"C:\a", r"D:\b", r"D:\b"),
        (r"\\server\share\foo", "bar", r"\\server\share\foo\bar"),
        (r"\\server\share\foo", r"\bar", r"\\server\share\bar"),
        (r"\\server\share", r"C:\a", r"C:\a"),
        (r"\\.\COM1", "x", r"\\.\COM1\x"),
        (r"\\server", r"\x", r"\x"),
        (r"\\?\C:\bar", "../foo", r"\\?\C:\foo"),
        (r"\\?\C:\bar", "../../foo", r"\\?\C:\foo"),
        (r"\\?\C:\", "../foo", r"\\?\C:\foo"),
        (r"\\?\C:", r"D:\foo/./", r"D:\foo/./"),
        (r"\\?\A:\x\y", "/foo", r"\\?\A:\foo"),
        (r"\\?\A:", r"..\foo\.", r"\\?\A:\foo"),
        (r"\\?\A:\x\y", r".\foo\.", r"\\?\A:\x\y\foo"),
        (r"\\?\A:\x\y", "", r"\\?\A:\x\y\"),
        (r"\\?\UNC\server\share\x", "y", r"\\?\UNC\server\share\x\y"),
        (r"\\?\x", "y", r"\\?\x\y"),
    ] {
        assert_eq!(join_path(Platform::Windows, base, path), joined, "{} {}", base, path);
    }
}

#[test]
fn windows_paths_are_read() {
    for (path, name, ext) in [
        (r"C:\a\b.txt", Some("b.txt"), Some("txt")),
        ("C:/a/b.txt", Some("b.txt"), Some("txt")),
        (r"a\b/c", Some("c"), None),
        ("C:", None, None),
        ("C:x.y", Some("x.y"), Some("y")),
        (r"C:\", None, None),
        (r"a\..", None, None),
        (r"a\.", Some("a"), None),
        (r"\\server\share", None, None),
        (r"\\server\share\a.b\", Some("a.b"), Some("b")),
        (r"\\.\COM1", None, None),
        (r"\\?\C:\a\.", None, None),
        (r"\\?\C:\a.b", Some("a.b"), Some("b")),
        (r"\\?\C:/foo/bar", Some("foo/bar"), None),
        (r"\\?\UNC\server\share\a.b", Some("a.b"), Some("b")),
        (r"\\?\UNC\server\share", None, None),
        (r"//?/C:/a", Some("a"), None),
        (r"\\server", Some("server"), None),
    ] {
        assert_eq!(file_name_of(Platform::Windows, path).as_deref(), name, "{}", path);
        assert_eq!(extension_of(Platform::Windows, path).as_deref(), ext, "{}", path);
    }
    let pieces = |s: &str| split_pieces(Platform::Windows, &chars(s));
    assert_eq!(pieces(r"C:\a/.\b\\..\c"), vec!["a", "b", "..", "c"]);
    assert_eq!(pieces(r"\\?\C:\a/b\.\\c"), vec!["a/b", ".", "c"]);
}

#[test]
fn windows_search_paths_are_parted() {
    let parts = |s: &str| split_search_path(Platform::Windows, s);
    assert_eq!(parts(""), vec![""]);
    assert_eq!(parts("\"\""), vec![""]);
    assert_eq!(parts(";;"), vec!["", "", ""]);
    assert_eq!(parts(r"c:\"), vec![r"c:\"]);
    assert_eq!(parts(r"c:\;"), vec![r"c:\", ""]);
    assert_eq!(parts(r#"c:\;c:\"foo"\"#), vec![r"c:\", r"c:\foo\"]);
    assert_eq!(
        parts(r#"c:\;c:\"foo;bar"\;c:\baz"#),
        vec![r"c:\", r"c:\foo;bar\", r"c:\baz"]
    );
}

#[test]
fn items_stay_in_order() {
    assert!(text_before("a", "b") && text_before("a", "aa") && text_before("Z", "a"));
    assert!(!text_before("a", "a") && !comes_before(&chars("b"), &chars("a")));
    let mut s: Sorter<u32> = Sorter::new();
    let rank = |group: u8, text: &str| Rank { group, text: chars(text) };
    s.add(rank(1, "b"), 1);
    s.add(rank(0, "z"), 2);
    s.add(rank(1, "a"), 3);
    s.add(rank(1, "b"), 4);
    assert_eq!(s.into_items(), vec![2, 3, 1, 4]);
}

#[test]
fn maps_keep_one_value_for_a_text() {
    let mut m: TextMap<u32> = TextMap::new();
    m.insert("b".to_string(), 1);
    m.insert("a".to_string(), 2);
    m.insert("b".to_string(), 3);
    assert_eq!(m.len(), 2);
    assert_eq!(m.get("b"), Some(&3));
    assert!(m.contains_key("a") && !m.contains_key("c"));
    assert_eq!(m.keys(), vec!["a", "b"]);
    assert_eq!(m.remove("a"), Some(2));
    assert_eq!(m.remove("a"), None);
    assert_eq!(m.entries(), &vec![("b".to_string(), 3)]);
}

#[test]
fn values_are_told_by_their_kind() {
    let v = Fields::new()
        .text("t", "x")
        .number("n", 300)
        .flag("f", true)
        .with("l", Json::of_texts(&vec!["a".to_string(), "b".to_string()]))
        .object();
    assert_eq!(v.get("t").and_then(|x| x.text()), Some("x".to_string()));
    assert_eq!(v.get("n").and_then(|x| x.number(300)), Some(300));
    assert_eq!(v.get("n").and_then(|x| x.number(299)), None);
    assert_eq!(v.get("f").and_then(|x| x.flag()), Some(true));
    let list = v.get("l").and_then(|x| x.text_list());
    assert_eq!(list, Some(vec!["a".to_string(), "b".to_string()]));
    assert_eq!(v.get("none"), None);
    assert_eq!(v.copy(), v);
    assert_eq!(Json::Negative(-4).signed(), Some(-4));
    assert_eq!(Json::Unsigned(u64::MAX).signed(), None);
    assert_eq!(Json::Array(vec![Json::Null]).text_list(), None);
}

#[test]
fn refusals_are_worded_as_serde_words_them() {
    let serde = |text: &str| match serde_json::from_str::<String>(text) {
        Err(e) => e.to_string(),
        Ok(_) => panic!("accepted"),
    };
    for (text, value) in [
        ("null", Json::Null),
        ("true", Json::Bool(true)),
        ("7", Json::Unsigned(7)),
        ("-7", Json::Negative(-7)),
        ("1.5", Json::Float("1.5".to_string())),
        ("[]", Json::Array(vec![])),
        ("{}", Json::Object(vec![])),
    ] {
        let said = value.refuse_type("a string");
        assert!(serde(text).starts_with(&said), "{}: {}", serde(text), said);
    }
    let said = Json::Str("a\"b\n".to_string()).refuse_type("u64");
    assert_eq!(said, "invalid type: string \"a\\\"b\\n\", expected u64");
    let serde = match serde_json::from_str::<u16>("70000") {
        Err(e) => e.to_string(),
        Ok(_) => panic!("accepted"),
    };
    assert!(serde.starts_with(&Json::Unsigned(70000).refuse_value("u16")));
}

#[test]
fn missing_exit_codes_have_a_number() {
    assert_eq!(exit_number(Some(3)), 3);
    assert_eq!(exit_number(None), -1);
}
