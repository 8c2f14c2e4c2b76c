use postman2openapi::casing::to_identifier;
use postman2openapi::fault::Fault;
use postman2openapi::json::{infer_type, parse, read_value, value_infer_type, Json, Number};
use postman2openapi::map::StrMap;
use postman2openapi::notes::{
    description_of_groups, find_description_by_key, find_enum_by_key, find_headers, find_section,
    get_def_value, get_max_value, get_min_value, get_nullable_value, is_required,
    remove_descriptions_block, remove_headers_block, remove_words, replace_description,
    text_or_empty,
};
use postman2openapi::number::{
    parse_integer, parses_as_float, parses_as_not_finite, to_decimal, to_signed_decimal,
};
use postman2openapi::options::{TargetFormat, TranspileOptions};
use postman2openapi::text::{
    before, chars_of, contains, find, is_less, join, lines, part, replace, same, split, trim,
    words,
};

fn some(s: &str) -> Option<String> {
    Some(s.to_string())
}

fn literal(s: &str) -> Json {
    Json::Number(Number::Literal(s.to_string()))
}

fn float(s: &str) -> Json {
    Json::Number(Number::Float(s.to_string()))
}

#[test]
fn texts_are_compared_and_searched() {
    assert_eq!(chars_of("a\u{e9}"), vec!['a', '\u{e9}']);
    assert!(same("a", "a"));
    assert!(!same("a", "A"));
    assert_eq!(find("abcabc", "ca"), Some(2));
    assert_eq!(find("abc", ""), Some(0));
    assert_eq!(find("abc", "d"), None);
    assert!(contains("abc", "bc"));
    assert!(!contains("abc", "cb"));
    assert_eq!(part("abcd", 1, 3), "bc");
    assert_eq!(replace("aaaa", "aa", "b"), "bb");
    assert_eq!(replace("abc", "x", "y"), "abc");
}

#[test]
fn texts_are_trimmed_and_split() {
    assert_eq!(trim(" \t a b\u{a0}\n"), "a b");
    assert_eq!(trim(""), "");
    assert_eq!(trim("a \u{1f600}"), "a \u{1f600}");
    assert_eq!(trim("\u{b}\u{c}\r"), "");
    assert_eq!(words(" a\tb\u{3000}c\n"), vec!["a", "b", "c"]);
    assert!(words(" \n").is_empty());
    assert_eq!(split("a;b;", ';'), vec!["a", "b", ""]);
    assert_eq!(split("", ';'), vec![""]);
    assert_eq!(before("text/html; charset=utf-8", ';'), "text/html");
    assert_eq!(before("text/html", ';'), "text/html");
    assert_eq!(lines("a\r\nb\n\nc\r"), vec!["a", "b", "", "c\r"]);
    assert_eq!(lines("a\n"), vec!["a"]);
    assert!(lines("").is_empty());
    let parts = vec!["a".to_string(), "b".to_string(), "".to_string()];
    assert_eq!(join(&parts, "/"), "a/b/");
    assert_eq!(join(&Vec::new(), "/"), "");
}

#[test]
fn texts_stand_in_an_order() {
    assert!(is_less("", "a"));
    assert!(is_less("a", "ab"));
    assert!(is_less("Z", "a"));
    assert!(!is_less("b", "ab"));
    assert!(!is_less("a", "a"));
    let mut words = vec!["pear", "apple", "\u{e9}clair", "Apple", "app"];
    words.sort();
    for pair in words.windows(2) {
        assert!(is_less(pair[0], pair[1]));
    }
}

#[test]
fn integers_are_read() {
    assert_eq!(parse_integer("0"), Some(0));
    assert_eq!(parse_integer("+007"), Some(7));
    assert_eq!(parse_integer("-12"), Some(-12));
    assert_eq!(parse_integer("9223372036854775807"), Some(i64::MAX));
    assert_eq!(parse_integer("9223372036854775808"), None);
    assert_eq!(parse_integer("-9223372036854775808"), Some(i64::MIN));
    assert_eq!(parse_integer(""), None);
    assert_eq!(parse_integer("-"), None);
    assert_eq!(parse_integer(" 1"), None);
    assert_eq!(parse_integer("1.0"), None);
    for s in ["0", "+007", "-12", "1_000", "--1", "99999999999999999999", "-"] {
        assert_eq!(parse_integer(s), s.parse::<i64>().ok());
    }
}

#[test]
fn floats_are_known() {
    for s in [
        "1.5", "-1.5", "+.5", "5.", ".", "", "1e5", "1E-5", "1e", "1e+", "e5", "inf", "-INF",
        "Infinity", "nan", "-NaN", "infin", "1.2.3", "0x10", " 1", "1 ", "1_0", "+-1", "1e5.0",
    ] {
        assert_eq!(parses_as_float(s), s.parse::<f64>().is_ok(), "{s}");
    }
}

#[test]
fn finite_numbers_are_known() {
    let tie = "17976931348623158079372897140530341507993413271003782693617377898044496829276475\
        09466490179775872070963302864166928879109465555478519404026306574886715058206819\
        08902000708383676273854845817711531764475730270069855571366959622842914819860834\
        936475292719074168444365510704342711559699508093042880177904174497792";
    let below = tie.replace("497792", "497791");
    let zeros = "0".repeat(400);
    let nines = "9".repeat(310);
    let cases = [
        tie.to_string(),
        format!("-{tie}"),
        format!("{tie}.0"),
        format!("{tie}e-1"),
        below.clone(),
        format!("{below}.999"),
        format!("{below}0e-1"),
        format!("{below}0"),
        format!("{zeros}{below}"),
        format!("0.{zeros}{tie}e400"),
        format!("0.{zeros}{below}e709"),
        format!("0.{zeros}{tie}e709"),
        nines.clone(),
        format!("{nines}e-1"),
        format!("{nines}e-2"),
        "1e308".to_string(),
        "1e309".to_string(),
        "+1e999".to_string(),
        "1.7976931348623157e308".to_string(),
        "1.7976931348623158e308".to_string(),
        "1.7976931348623159e+308".to_string(),
        "1e99999999999999999999999999999999999999999".to_string(),
        "1e-99999999999999999999999999999999999999999".to_string(),
        "0e99999999999999999999999999999999999999999".to_string(),
        ".0e309".to_string(),
        "10.e308".to_string(),
        "1.5".to_string(),
        "nan".to_string(),
    ];
    for s in cases {
        let n = s.parse::<f64>().unwrap();
        assert_eq!(parses_as_not_finite(&s), !n.is_finite(), "{s}");
    }
    assert!(!parses_as_not_finite("1e999x"));
    assert!(!parses_as_not_finite("infin"));
}

#[test]
fn numbers_are_written() {
    assert_eq!(to_decimal(0), "0");
    assert_eq!(to_decimal(10), "10");
    assert_eq!(to_decimal(u64::MAX), "18446744073709551615");
    assert_eq!(to_signed_decimal(-7), "-7");
    assert_eq!(to_signed_decimal(i64::MIN), "-9223372036854775808");
    for n in [0, 1, -1, 200, 404, i64::MAX, i64::MIN] {
        assert_eq!(parse_integer(&to_signed_decimal(n)), Some(n));
    }
}

#[test]
fn names_become_identifiers() {
    assert_eq!(to_identifier("Get user by ID"), "getUserById");
    assert_eq!(to_identifier("  two  blanks "), "twoBlanks");
    assert_eq!(to_identifier("GET /users/{id}"), "getUsersId");
    assert_eq!(to_identifier("HTTPServer 2go"), "httpserver2go");
    assert_eq!(to_identifier("\u{e9}t\u{e9}"), "t");
    assert_eq!(to_identifier(""), "");
}

#[test]
fn values_have_types() {
    assert_eq!(infer_type("12"), "integer");
    assert_eq!(infer_type("1.5"), "number");
    assert_eq!(infer_type("true"), "boolean");
    assert_eq!(infer_type("True"), "string");
    assert_eq!(infer_type(""), "string");
    assert_eq!(value_infer_type("+12"), literal("12"));
    assert_eq!(value_infer_type("1.5"), float("1.5"));
    assert_eq!(value_infer_type("true"), Json::Bool(true));
    assert_eq!(value_infer_type("false"), Json::Bool(false));
    assert_eq!(value_infer_type("x"), Json::String("x".to_string()));
    assert_eq!(read_value("+12"), Ok(literal("12")));
    assert_eq!(read_value(".5"), Ok(float(".5")));
    assert_eq!(read_value("nano"), Ok(Json::String("nano".to_string())));
    for s in ["NaN", "-nan", "inf", "+Infinity", "INF", "1e999", "-1e309"] {
        assert_eq!(infer_type(s), "number");
        assert!(parses_as_not_finite(s));
        assert_eq!(read_value(s), Err(Fault::Number));
    }
    for s in ["", "+", "infin", "1", "--inf", "1e308"] {
        assert!(!parses_as_not_finite(s));
    }
}

#[test]
fn documents_are_parsed() {
    let mut fields = StrMap::new();
    fields.insert(
        "a".to_string(),
        Json::Array(vec![Json::Null, Json::Bool(true), literal("1.5")]),
    );
    fields.insert("b".to_string(), Json::String("c".to_string()));
    assert_eq!(
        parse(" {\"b\": \"\\u0063\", \"a\": [null, true, 1.50]} "),
        Some(Json::Object(fields))
    );
    assert_eq!(parse("-3"), Some(literal("-3")));
    assert_eq!(parse("18446744073709551615"), Some(literal("18446744073709551615")));
    assert_eq!(parse("{"), None);
    assert_eq!(parse(""), None);
    assert_eq!(parse("1 2"), None);
}

#[test]
fn maps_keep_their_keys_in_order() {
    let mut map: StrMap<usize> = StrMap::new();
    for (i, key) in ["b", "a", "c", "a"].into_iter().enumerate() {
        map.insert(key.to_string(), i);
    }
    let keys: Vec<&str> = map.entries.iter().map(|e| e.0.as_str()).collect();
    assert_eq!(keys, vec!["a", "b", "c"]);
    assert_eq!(map.get("a"), Some(&3));
    assert_eq!(map.get("d"), None);
    assert!(map.contains_key("b"));
    assert_eq!(map.position("c"), Some(2));
    *map.get_mut("b").unwrap() = 7;
    assert_eq!(map.get("b"), Some(&7));
    assert!(map.get_mut("d").is_none());
    *map.entry("bb", 1) += 1;
    *map.entry("bb", 10) += 1;
    assert_eq!(map.get("bb"), Some(&3));
    assert_eq!(map.position("bb"), Some(2));
}

#[test]
fn marks_are_noticed() {
    assert!(is_required("The id \\[required\\]"));
    assert!(!is_required("The id [required]"));
    assert_eq!(get_nullable_value("x \\[nullable\\]"), Some(true));
    assert_eq!(get_nullable_value("x"), None);
    assert_eq!(
        get_def_value("x \\[default: 5\\] y"),
        Ok(Some(literal("5")))
    );
    assert_eq!(
        get_def_value("x \\[default: a b\\]"),
        Ok(Some(Json::String("a b".to_string())))
    );
    assert_eq!(get_def_value("x \\[default: \\]"), Ok(None));
    assert_eq!(get_def_value("x"), Ok(None));
    let both = "\\[min: 1\\] \\[max: 2.5\\]";
    assert_eq!(get_min_value(both), Ok(Some(literal("1"))));
    assert_eq!(get_max_value(both), Ok(Some(float("2.5"))));
    assert_eq!(get_max_value("\\[min: 1\\]"), Ok(None));
    assert_eq!(get_max_value("\\[max: -NaN\\]"), Err(Fault::Number));
    // A value ends with the first mark on its line, and is not empty.
    assert_eq!(get_min_value("[min: 1\n\\] [min: 2\\]\\]"), Ok(Some(literal("2"))));
    assert_eq!(
        get_min_value("[min: \\]\\]"),
        Ok(Some(Json::String("\\]".to_string())))
    );
    assert_eq!(
        get_min_value("[min: [min: 3\\]"),
        Ok(Some(Json::String("[min: 3".to_string())))
    );
}

#[test]
fn marks_are_left_out_of_descriptions() {
    assert_eq!(
        replace_description(&some("Limit \\[required\\]\\[nullable\\]\\[default: 5\\]")),
        some("Limit ")
    );
    assert_eq!(
        replace_description(&some("a \\[min: 1\\] b")),
        some("a  b")
    );
    assert_eq!(
        replace_description(&some("a \\[max: 1\\] b ] c")),
        some("a  c")
    );
    assert_eq!(replace_description(&some("")), None);
    assert_eq!(replace_description(&None), None);
    assert_eq!(remove_words("a\\[required\\]b\\[nullable\\]"), "ab");
    assert_eq!(text_or_empty(&None), "");
    assert_eq!(text_or_empty(&some("a")), "a");
}

#[test]
fn blocks_are_left_out_of_the_account() {
    assert_eq!(
        remove_descriptions_block("a \\[descriptions\\] b \\[/descriptions\\] c "),
        "a  c"
    );
    assert_eq!(remove_descriptions_block(" a \\[descriptions\\] "), "a \\[descriptions\\]");
    assert_eq!(remove_descriptions_block(""), "");
    assert_eq!(remove_headers_block("\\[headers\\]A\\[/headers\\]b"), "b");
    assert_eq!(remove_headers_block(" b "), "b");
    // A closing mark before the opening one.
    assert_eq!(
        remove_headers_block("x\\[/headers\\]y\\[headers\\]z"),
        "x\\[/headers\\]yy\\[headers\\]z"
    );
}

const NOTES: &str = "About.\n\\[descriptions\\]\n\\[getUser\\]\nid - The user \\[required\\]\n* name - A name\n\\[/getUser\\]\n\\[global\\]\nid - Any id\nlimit  -  How many \n\\[/global\\]\n\\[/descriptions\\]";

#[test]
fn sections_are_found() {
    assert_eq!(
        find_section("x\\[a\\]b\\[/a\\]", "a"),
        Ok(some("b"))
    );
    assert_eq!(find_section("x\\[a\\]b", "a"), Ok(None));
    assert_eq!(find_section("b\\[/a\\]", "a"), Ok(None));
}

#[test]
fn a_section_that_closes_inside_its_opening_is_a_fault() {
    // The name itself holds the beginning of a closing mark.
    let name = r"\]\[/";
    let input = r"\[\]\[/\]\[/\]";
    assert_eq!(find_section(input, name), Err(Fault::Section));
    assert_eq!(
        find_description_by_key(input, Some(name), "a"),
        Err(Fault::Section)
    );
}

#[test]
fn keys_are_described() {
    let find = |section: Option<&str>, key: &str| find_description_by_key(NOTES, section, key);
    assert_eq!(
        find(Some("getUser"), "id"),
        Ok(some("The user \\[required\\]"))
    );
    assert_eq!(find(Some("getUser"), "name"), Ok(some("A name")));
    assert_eq!(find(Some("getUser"), "limit"), Ok(some("How many")));
    assert_eq!(find(Some("listUsers"), "id"), Ok(some("Any id")));
    assert_eq!(find(None, "id"), Ok(some("Any id")));
    assert_eq!(find(None, "name"), Ok(None));
    assert_eq!(find(None, ""), Ok(None));
    assert_eq!(find(None, "("), Err(Fault::Pattern));
    // A key is read as a pattern.
    assert_eq!(find(None, "l.m.t"), Ok(some("How many")));
}

#[test]
fn lines_describe_the_keys_that_they_begin_with() {
    let says = |lines: &str, key: &str| {
        let input = format!("\\[global\\]\n{lines}\n\\[/global\\]");
        find_description_by_key(&input, None, key).unwrap()
    };
    assert_eq!(says("id - x", "id"), some("x"));
    assert_eq!(says("id -x", "id"), None);
    assert_eq!(says("id- x", "id"), None);
    assert_eq!(says("id -", "id"), None);
    assert_eq!(says("id - ", "id"), some(""));
    assert_eq!(says("  * 1) id   -   x - y  ", "id"), some("x - y"));
    assert_eq!(says("the id - x", "id"), None);
    assert_eq!(says("ids - x\nID - y\nid - z\nid - u", "id"), some("z"));
    assert_eq!(says("\u{e9}id - x", "id"), some("x"));
    // Outside of a class these stand for themselves.
    assert_eq!(says("X-Id - x", "X-Id"), some("x"));
    assert_eq!(says("a#&~]} - x", "a#&~]}"), some("x"));
    assert_eq!(says("a b - x", "a b"), some("x"));
    // As much as can be stands before the key.
    assert_eq!(says("1 - 1 - x", "1"), some("x"));
    assert_eq!(says("1 - a 1 - x", "1"), some("a 1 - x"));
    assert_eq!(says("- - - x", "-"), some("x"));
}

#[test]
fn a_key_of_plain_characters_can_be_long() {
    let key = "-]k ".repeat(250);
    let input = format!("\\[global\\]\n{key} - x\n\\[/global\\]");
    assert_eq!(find_description_by_key(&input, None, &key), Ok(some("x")));
}

#[test]
fn what_follows_a_match_is_decided_by_its_groups() {
    assert_eq!(description_of_groups(&None), None);
    assert_eq!(
        description_of_groups(&Some(vec![some("a - b "), some("a"), some(" b ")])),
        some("b")
    );
    assert_eq!(
        description_of_groups(&Some(vec![some("a"), some("a"), None])),
        None
    );
    assert_eq!(description_of_groups(&Some(vec![some("a"), some("a")])), None);
}

#[test]
fn headers_are_listed() {
    assert_eq!(
        find_headers("a \\[headers\\]X-A, X-B\nX-C\\[/headers\\]"),
        vec!["X-A", "X-B", "X-C"]
    );
    assert!(find_headers("a").is_empty());
    assert!(find_headers("\\[headers\\]\\[/headers\\]").is_empty());
    assert_eq!(find_headers("\\[headers\\]\n\\[/headers\\]"), vec![""]);
}

#[test]
fn the_values_of_a_status_are_known() {
    assert_eq!(
        find_enum_by_key("status"),
        Some(vec!["OK".to_string(), "ERROR".to_string()])
    );
    assert_eq!(find_enum_by_key("Status"), None);
}

#[test]
fn formats_have_names() {
    assert_eq!("json".parse::<TargetFormat>(), Ok(TargetFormat::Json));
    assert_eq!("yaml".parse::<TargetFormat>(), Ok(TargetFormat::Yaml));
    assert_eq!("xml".parse::<TargetFormat>(), Err("invalid format"));
    assert_eq!("JSON".parse::<TargetFormat>(), Err("invalid format"));
    assert_eq!(TargetFormat::default(), TargetFormat::Yaml);
    assert_eq!(TranspileOptions::default().format, TargetFormat::Yaml);
}
