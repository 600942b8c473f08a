use sulltec_remote::json::{
    from_text, json_eq, object_from_text, read_text, text_array, text_size, to_text, Json,
};
use sulltec_remote::num::{
    dec_i64, dec_u64, parse_clamped_u16, parse_i128, parse_i64, parse_u32, parse_u64, to_hex,
};
use sulltec_remote::text::{
    bytes_in, contains, cut_at, cut_before, ends_with, eq_ignore_case, has_name, is_blank,
    is_white_space, join, less, lines, replace, split, starts_with, strip_prefix, take_chars,
    to_ascii_lower, trim, trim_end, trim_end_char,
};

#[test]
fn numbers_read_back_as_written() {
    for n in [0, 9, 10, 4_294_967_296, u64::MAX] {
        assert_eq!(dec_u64(n), n.to_string());
        assert_eq!(parse_u64(&dec_u64(n)), Some(n));
    }
    for n in [0, -1, 42, i64::MIN, i64::MAX] {
        assert_eq!(dec_i64(n), n.to_string());
        assert_eq!(parse_i64(&dec_i64(n)), Some(n));
    }
}

#[test]
fn numbers_are_read_as_std_reads_them() {
    let texts = [
        "", "0", "007", "+5", "-5", "-0", "+", "-", "5 ", " 5", "5a", "\u{661}", "4294967295",
        "4294967296", "18446744073709551615", "18446744073709551616", "-9223372036854775808",
        "-9223372036854775809", "170141183460469231731687303715884105727",
        "-170141183460469231731687303715884105729",
    ];
    for t in texts {
        assert_eq!(parse_u64(t), t.parse::<u64>().ok(), "{t:?}");
        assert_eq!(parse_i64(t), t.parse::<i64>().ok(), "{t:?}");
        assert_eq!(parse_u32(t), t.parse::<u32>().ok(), "{t:?}");
        assert_eq!(parse_i128(t), t.parse::<i128>().ok(), "{t:?}");
    }
    assert_eq!(parse_clamped_u16("65535"), Some(65535));
    assert_eq!(parse_clamped_u16("70000"), Some(65535));
    assert_eq!(parse_clamped_u16("x"), None);
    assert_eq!(to_hex(&[0, 10, 255]), "000aff");
}

#[test]
fn texts_are_cut_as_std_cuts_them() {
    let texts = [
        "", " ", "a", " a b ", "a\nb", "a\r\nb\n", "\n\n", "\u{a0}x\u{2003}", "\u{e4}\u{f6}", "a,b,,c", "aa/bb/",
        "\u{85}y\u{1c}",
    ];
    for t in texts {
        assert_eq!(trim(t), t.trim(), "{t:?}");
        assert_eq!(trim_end(t), t.trim_end(), "{t:?}");
        assert_eq!(is_blank(t), t.trim().is_empty(), "{t:?}");
        assert_eq!(lines(t), t.lines().collect::<Vec<_>>(), "{t:?}");
        assert_eq!(split(t, ','), t.split(',').collect::<Vec<_>>(), "{t:?}");
        assert_eq!(replace(t, "a", "xyz"), t.replace("a", "xyz"), "{t:?}");
        assert_eq!(trim_end_char(t, '/'), t.trim_end_matches('/'), "{t:?}");
        assert_eq!(bytes_in(t), t.len(), "{t:?}");
        assert_eq!(to_ascii_lower(t), t.to_ascii_lowercase(), "{t:?}");
        assert_eq!(take_chars(t, 2), t.chars().take(2).collect::<String>(), "{t:?}");
        assert_eq!(contains(t, "b"), t.contains("b"), "{t:?}");
        for u in texts {
            assert_eq!(less(t, u), t < u, "{t:?} {u:?}");
            assert_eq!(starts_with(t, u), t.starts_with(u), "{t:?} {u:?}");
            assert_eq!(ends_with(t, u), t.ends_with(u), "{t:?} {u:?}");
            assert_eq!(strip_prefix(t, u).as_deref(), t.strip_prefix(u), "{t:?} {u:?}");
            assert_eq!(eq_ignore_case(t, u), t.eq_ignore_ascii_case(u), "{t:?} {u:?}");
        }
    }
    assert_eq!(replace("aaa", "aa", "b"), "aaa".replace("aa", "b"));
    assert_eq!(cut_before("x/api/y", "/api/"), Some("x".to_owned()));
    assert_eq!(cut_before("x", "/api/"), None);
    assert_eq!(cut_at("a+b+c", '+'), ("a".to_owned(), Some("b+c".to_owned())));
    assert_eq!(cut_at("a", '+'), ("a".to_owned(), None));
    assert_eq!(join(&vec!["a".to_owned(), "b".to_owned()], "\n"), "a\nb");
    assert!(has_name(&vec!["a".to_owned()], "a") && !has_name(&Vec::new(), "a"));
}

#[test]
fn white_space_is_what_std_takes_it_for() {
    for n in 0..0x11_0000u32 {
        if let Some(c) = char::from_u32(n) {
            assert_eq!(is_white_space(c), c.is_whitespace(), "{n:x}");
        }
    }
}

#[test]
fn values_read_back_as_written() {
    for t in [
        "null", "true", "[]", "{}", "-1", "18446744073709551615", "1.5", "1.0", r#""a\n\u0001\"""#,
        r#"{"a":[1,{"b":null}],"z":"x"}"#,
    ] {
        let v = from_text(t).expect("a value");
        assert_eq!(to_text(&v), t);
        assert_eq!(text_size(&v), t.len());
        assert!(json_eq(&v, &from_text(&to_text(&v)).unwrap()));
    }
    assert_eq!(to_text(&from_text(r#"{"b":1,"a":2,"b":3}"#).unwrap()), r#"{"a":2,"b":3}"#);
    assert!(from_text("{").is_none());
    assert!(read_text("{").err().unwrap().starts_with("EOF while parsing an object"));
    assert!(object_from_text(r#"{"a":1}"#).is_some() && object_from_text("[]").is_none());
    assert!(object_from_text(r#"{"a\n":1}"#).is_none(), "a name with an escape is no part of the text");
}

#[test]
fn members_are_set_and_found() {
    let v = Json::object().with("a", Json::Int(-1)).with("b", Json::UInt(2)).with("a", Json::Bool(true));
    assert_eq!(to_text(&v), r#"{"a":true,"b":2}"#);
    assert_eq!((v.get_bool("a"), v.get_i64("b"), v.get_u64("b")), (Some(true), Some(2), Some(2)));
    assert_eq!((v.get_str("a"), v.get_str_or_empty("a")), (None, String::new()));
    assert_eq!(to_text(&v.without("a")), r#"{"b":2}"#);
    assert!(from_text("9223372036854775808").unwrap().as_i64().is_none());
    assert!(from_text("-1").unwrap().as_u64().is_none());
    assert!(from_text("1.0").unwrap().as_u64().is_none());
    assert!(!json_eq(&from_text("1").unwrap(), &from_text("1.0").unwrap()));
    assert!(json_eq(&Json::Int(1), &Json::UInt(1)));
    assert!(Json::Null.get("a").is_none() && Json::Null.is_null());
    assert_eq!(to_text(&text_array(&vec!["x".to_owned()])), r#"["x"]"#);
}
