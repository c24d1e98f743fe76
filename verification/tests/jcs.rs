use agentcreds_core::binding::{
    bind_args, bound_args, parse_bound_args, semantic_eq, MAX_BOUND_ARGS_BYTES,
};
use agentcreds_core::jcs::{canonicalize, es_number_text, name_before, precision_hazards};
use agentcreds_core::json::{compact_text, read, write_string, Json, JsonMap};

fn json(s: &str) -> Json {
    read(s).unwrap()
}

fn canon(s: &str) -> String {
    canonicalize(&json(s)).unwrap()
}

#[test]
fn a_mixed_document_is_canonical() {
    assert_eq!(
        canon(
            "{ \"numbers\": [333333333.5, 1E30, 4.50, 2e-3, 0.000000000000000000000000001],\
             \"string\": \"\\u20ac$\\u000F\\u000aA'\\u0042\\u0022\\u005c\\\\\\\"\\/\",\
             \"literals\": [null, true, false] }"
        ),
        "{\"literals\":[null,true,false],\"numbers\":[333333333.5,1e+30,4.5,0.002,1e-27],\
         \"string\":\"\u{20ac}$\\u000f\\nA'B\\\"\\\\\\\\\\\"/\"}"
    );
}

#[test]
fn names_are_ordered_by_their_utf16_units() {
    assert_eq!(
        canon(
            "{\"\\u20ac\":1,\"\\r\":2,\"\\ufb33\":3,\"1\":4,\"\\ud83d\\ude00\":5,\"\\u0080\":6,\"\\u00f6\":7}"
        ),
        "{\"\\r\":2,\"1\":4,\"\u{80}\":6,\"\u{f6}\":7,\"\u{20ac}\":1,\"\u{1f600}\":5,\"\u{fb33}\":3}"
    );
    assert!(name_before("\u{1f600}", "\u{fb33}"));
    assert!(!name_before("\u{fb33}", "\u{1f600}"));
    assert!(name_before("a", "ab"));
    assert!(!name_before("a", "a"));
}

#[test]
fn numbers_are_written_as_ecmascript_does() {
    for (text, want) in [
        ("1.0", "1"),
        ("-0.0", "0"),
        ("0.000001", "0.000001"),
        ("1e-7", "1e-7"),
        ("1e20", "100000000000000000000"),
        ("1e21", "1e+21"),
        ("123456789000000000000", "123456789000000000000"),
        ("1.5e300", "1.5e+300"),
        ("-2.5", "-2.5"),
        ("12.34e-10", "1.234e-9"),
        ("18446744073709551615", "18446744073709551615"),
        ("-9223372036854775808", "-9223372036854775808"),
        ("5e-324", "5e-324"),
        ("1.7976931348623157e308", "1.7976931348623157e+308"),
    ] {
        assert_eq!(canon(text), want, "{text}");
    }
    assert_eq!(es_number_text(false, "12345", 3), "123.45");
    assert_eq!(es_number_text(true, "5", -5), "-0.000005");
    assert_eq!(es_number_text(true, "5", -6), "-5e-7");
    assert_eq!(es_number_text(false, "12", 22), "1.2e+21");
    assert_eq!(es_number_text(false, "1", 21), "100000000000000000000");
}

#[test]
fn a_number_without_json_text_is_refused() {
    for (bits, name) in [
        (f64::NAN.to_bits(), "NaN"),
        (f64::INFINITY.to_bits(), "inf"),
        (f64::NEG_INFINITY.to_bits(), "-inf"),
    ] {
        let v = Json::List(vec![Json::Real {
            bits,
            text: String::new(),
        }]);
        assert_eq!(
            canonicalize(&v).unwrap_err().to_string(),
            format!(
                "value out of bounds for field 'arguments': {name} has no JSON representation"
            )
        );
    }
}

#[test]
fn canonical_text_does_not_depend_on_member_order_or_spacing() {
    assert_eq!(
        canon("{\"b\":1,\"a\":{\"y\":2,\"x\":[3, 4]}}"),
        canon("{ \"a\" : {\"x\":[3,4],\"y\":2}, \"b\" : 1 }")
    );
    let swapped = Json::Object(vec![
        ("b".into(), Json::Whole(1)),
        ("a".into(), Json::Null),
    ]);
    assert_eq!(canonicalize(&swapped).unwrap(), "{\"a\":null,\"b\":1}");
}

#[test]
fn whole_numbers_beyond_the_safe_range_are_hazards() {
    let v = json(
        "{\"a/b\":{\"c~d\":[1, 9007199254740992, 9007199254740993]},\"f\":1e300,\
         \"n\":-9007199254740993,\"s\":\"9007199254740993\",\"u\":18446744073709551615}",
    );
    let found = precision_hazards(&v);
    let got: Vec<(&str, &str)> = found
        .iter()
        .map(|(p, n)| (p.as_str(), n.as_str()))
        .collect();
    assert_eq!(
        got,
        [
            ("/a~1b/c~0d/1", "9007199254740992"),
            ("/a~1b/c~0d/2", "9007199254740993"),
            ("/n", "-9007199254740993"),
            ("/u", "18446744073709551615"),
        ]
    );
    assert!(precision_hazards(&json("[9007199254740991, -9007199254740991]")).is_empty());
}

#[test]
fn strings_are_escaped_only_where_json_requires_it() {
    assert_eq!(
        write_string("\"\\\u{8}\t\n\u{c}\r\u{1}\u{1f}\u{7f}\u{e9}/"),
        "\"\\\"\\\\\\b\\t\\n\\f\\r\\u0001\\u001f\u{7f}\u{e9}/\""
    );
    let all: String = (0u32..0x100).filter_map(char::from_u32).collect();
    assert_eq!(write_string(&all), serde_json::to_string(&all).unwrap());
    assert_eq!(
        compact_text(&Json::Text(all.clone())),
        serde_json::to_string(&all).unwrap()
    );
}

#[test]
fn reading_and_writing_agree_with_the_json_crate() {
    for text in [
        "null",
        "[true,false,0,-1,1.5,1e300]",
        "{\"a\":[{}],\"b\":{\"c\":\"\\u0001\"}}",
    ] {
        let value: serde_json::Value = serde_json::from_str(text).unwrap();
        assert_eq!(
            compact_text(&json(text)),
            serde_json::to_string(&value).unwrap()
        );
    }
    let want: Result<serde_json::Value, _> = serde_json::from_str("{\"a\":");
    assert_eq!(
        read("{\"a\":").unwrap_err(),
        want.unwrap_err().to_string()
    );
}

#[test]
fn a_map_keeps_its_names_in_order_and_the_last_value_of_each() {
    let mut m = JsonMap::new();
    m.insert("b".into(), Json::Whole(1));
    m.insert("a".into(), Json::Whole(2));
    m.insert("b".into(), Json::Whole(3));
    assert_eq!(m.len(), 2);
    let names: Vec<&str> = m.entries().iter().map(|(n, _)| n.as_str()).collect();
    assert_eq!(names, ["a", "b"]);
    assert_eq!(compact_text(m.get("b").unwrap()), "3");
    assert!(m.get("c").is_none());
    assert!(m.contains_key("a") && !m.contains_key("c"));
}

#[test]
fn bound_arguments_are_carried_as_they_were_written() {
    let v = json("{ \"q\" : [1, 2.5, \"x\"] }");
    let carried = bind_args(&v);
    assert_eq!(carried, "{\"q\":[1,2.5,\"x\"]}");
    let back = parse_bound_args(&carried).unwrap();
    assert!(semantic_eq(&v, &back));
    assert!(!semantic_eq(&v, &json("{\"q\":[1,2.5,\"y\"]}")));
}

#[test]
fn each_way_carried_octets_are_refused_is_named() {
    let why = |s: &str| parse_bound_args(s).unwrap_err().to_string();
    let says = |s: &str| format!("value out of bounds for field 'bound_arguments': {s}");
    assert_eq!(why(""), says("no bound arguments were carried"));
    let long = format!("\"{}\"", "x".repeat(MAX_BOUND_ARGS_BYTES - 1));
    assert_eq!(
        why(&long),
        says("bound arguments are 65537 bytes, over the 65536-byte limit")
    );
    let fits = format!("\"{}\"", "x".repeat(MAX_BOUND_ARGS_BYTES - 2));
    assert!(parse_bound_args(&fits).is_ok());
    assert!(why("{").starts_with(&says("not valid JSON: ")));
    assert_eq!(
        bound_args("x", Err("bad".into())).unwrap_err().to_string(),
        says("not valid JSON: bad")
    );
    assert!(bound_args("x", Ok(Json::Null)).is_ok());
}

#[test]
fn values_are_compared_by_what_they_mean() {
    let same = |a: &str, b: &str| semantic_eq(&json(a), &json(b));
    assert!(same("1", "1.0"));
    assert!(same("-3", "-3.0"));
    assert!(same("0", "-0.0"));
    assert!(same("{\"a\":1,\"b\":[2]}", "{\"b\":[2.0],\"a\":1}"));
    assert!(!same("[1,2]", "[2,1]"));
    assert!(!same("{\"a\":1}", "{\"a\":1,\"b\":2}"));
    assert!(!same("{\"a\":1}", "{\"b\":1}"));
    assert!(!same("null", "false"));
    assert!(!same("\"1\"", "1"));
    // Whole numbers compare exactly, beyond what a double can tell apart.
    assert!(!same("9007199254740993", "9007199254740992"));
    assert!(!same("18446744073709551615", "18446744073709551614"));
    assert!(same("18446744073709551615", "18446744073709551615"));
    // A whole number and a double compare as doubles.
    assert!(same("9007199254740993", "9007199254740992.0"));
    assert!(same("1.5", "15e-1"));
    assert!(!same("1.5", "1"));
    assert!(!same("-9223372036854775808", "18446744073709551615"));
}
