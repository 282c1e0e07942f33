use neo::normalize::{loose_object, parse_loose_json, strip_brace_bounds, ParseError};

fn object_of(pairs: &[(&str, &str)]) -> serde_json::Map<String, serde_json::Value> {
    let mut object = serde_json::Map::new();
    for (key, value) in pairs {
        object.insert(key.to_string(), serde_json::Value::String(value.to_string()));
    }
    object
}

#[test]
fn two_pairs_become_an_object_of_strings() {
    assert_eq!(
        parse_loose_json("name:widget,qty:3"),
        Ok(String::from("{\"name\":\"widget\",\"qty\":\"3\"}"))
    );
}

#[test]
fn output_parses_as_json_with_the_input_keys() {
    let text = parse_loose_json("key:value,key2:value2").unwrap();
    let parsed: serde_json::Value = serde_json::from_str(&text).unwrap();
    let object = parsed.as_object().unwrap();
    assert_eq!(object.len(), 2);
    assert_eq!(object.get("key"), Some(&serde_json::Value::String("value".to_string())));
    assert_eq!(object.get("key2"), Some(&serde_json::Value::String("value2".to_string())));
}

#[test]
fn numbers_and_booleans_stay_strings() {
    assert_eq!(
        parse_loose_json("n:3,b:true,z:null"),
        Ok(String::from("{\"n\":\"3\",\"b\":\"true\",\"z\":\"null\"}"))
    );
}

#[test]
fn braces_are_optional() {
    assert_eq!(parse_loose_json("{a:1}"), parse_loose_json("a:1"));
    assert_eq!(parse_loose_json("{a:1}"), Ok(String::from("{\"a\":\"1\"}")));
    assert_eq!(parse_loose_json("  { a : 1 , b : 2 }  "), parse_loose_json(" a : 1 , b : 2 "));
}

#[test]
fn braces_around_a_rejected_text_are_rejected_too() {
    assert_eq!(parse_loose_json("{a:1,bogus"), Err(ParseError::MissingColon));
    assert_eq!(parse_loose_json("{{a:1,bogus}"), Err(ParseError::MissingColon));
}

#[test]
fn only_one_brace_is_stripped_at_each_end() {
    assert_eq!(parse_loose_json("{{a:1}}"), Ok(String::from("{\"{a\":\"1}\"}")));
    assert_eq!(parse_loose_json("{a:1"), Ok(String::from("{\"a\":\"1\"}")));
    assert_eq!(parse_loose_json("a:1}"), Ok(String::from("{\"a\":\"1\"}")));
}

#[test]
fn segment_without_colon_is_rejected() {
    assert_eq!(parse_loose_json("a:1,bogus"), Err(ParseError::MissingColon));
    assert_eq!(parse_loose_json("bogus"), Err(ParseError::MissingColon));
    assert_eq!(parse_loose_json("a:1,"), Err(ParseError::MissingColon));
    assert_eq!(parse_loose_json(",a:1"), Err(ParseError::MissingColon));
    assert_eq!(parse_loose_json("a:1,,b:2"), Err(ParseError::MissingColon));
}

#[test]
fn empty_input_is_the_empty_object() {
    assert_eq!(parse_loose_json(""), Ok(String::from("{}")));
    assert_eq!(parse_loose_json("  \t\r\n "), Ok(String::from("{}")));
    assert_eq!(parse_loose_json("\u{a0}\u{3000}"), Ok(String::from("{}")));
}

#[test]
fn empty_braces_hold_one_segment_without_colon() {
    assert_eq!(parse_loose_json("{}"), Err(ParseError::MissingColon));
    assert_eq!(parse_loose_json("{ }"), Err(ParseError::MissingColon));
    assert_eq!(parse_loose_json("{"), Err(ParseError::MissingColon));
}

#[test]
fn keys_and_values_are_trimmed() {
    assert_eq!(
        parse_loose_json("  name :  widget  ,\tqty\t:\t3\n"),
        Ok(String::from("{\"name\":\"widget\",\"qty\":\"3\"}"))
    );
    assert_eq!(
        parse_loose_json("\u{2003}k\u{a0}:\u{3000}v\u{2028}"),
        Ok(String::from("{\"k\":\"v\"}"))
    );
    assert_eq!(parse_loose_json("a b : c d"), Ok(String::from("{\"a b\":\"c d\"}")));
}

#[test]
fn empty_key_and_empty_value_are_kept() {
    assert_eq!(parse_loose_json(":"), Ok(String::from("{\"\":\"\"}")));
    assert_eq!(parse_loose_json("a:"), Ok(String::from("{\"a\":\"\"}")));
    assert_eq!(parse_loose_json(" : v"), Ok(String::from("{\"\":\"v\"}")));
}

#[test]
fn segment_is_cut_at_its_first_colon() {
    assert_eq!(
        parse_loose_json("url:http://example.test:80/x"),
        Ok(String::from("{\"url\":\"http://example.test:80/x\"}"))
    );
}

#[test]
fn keys_keep_input_order() {
    assert_eq!(
        parse_loose_json("zeta:1,alpha:2,mid:3"),
        Ok(String::from("{\"zeta\":\"1\",\"alpha\":\"2\",\"mid\":\"3\"}"))
    );
}

#[test]
fn repeated_key_keeps_its_place_and_takes_the_last_value() {
    assert_eq!(
        parse_loose_json("a:1,b:2,a:3"),
        Ok(String::from("{\"a\":\"3\",\"b\":\"2\"}"))
    );
    assert_eq!(parse_loose_json("a:1, a :2"), Ok(String::from("{\"a\":\"2\"}")));
}

#[test]
fn quotes_and_backslashes_are_escaped_by_the_encoder() {
    assert_eq!(
        parse_loose_json("say:\"hi\",path:c\\d"),
        Ok(String::from("{\"say\":\"\\\"hi\\\"\",\"path\":\"c\\\\d\"}"))
    );
}

#[test]
fn multi_byte_text_is_kept() {
    assert_eq!(
        parse_loose_json("stadt:Zürich,名:値"),
        Ok(String::from("{\"stadt\":\"Zürich\",\"名\":\"値\"}"))
    );
}

#[test]
fn loose_object_holds_the_pairs() {
    assert_eq!(loose_object("name:widget,qty:3"), Ok(object_of(&[("name", "widget"), ("qty", "3")])));
    assert_eq!(loose_object(" "), Ok(object_of(&[])));
    assert_eq!(loose_object("a:1,b:2,a:3"), Ok(object_of(&[("a", "3"), ("b", "2")])));
    let object = loose_object("b:1,a:2").unwrap();
    let keys: Vec<&String> = object.keys().collect();
    assert_eq!(keys, vec!["b", "a"]);
    assert_eq!(loose_object("nothing"), Err(ParseError::MissingColon));
}

#[test]
fn strip_brace_bounds_drops_one_brace_per_end() {
    let chars: Vec<char> = "{{a}}".chars().collect();
    assert_eq!(strip_brace_bounds(&chars, 0, 5), (1, 4));
    assert_eq!(strip_brace_bounds(&chars, 1, 4), (2, 3));
    assert_eq!(strip_brace_bounds(&chars, 2, 3), (2, 3));
    assert_eq!(strip_brace_bounds(&chars, 0, 1), (1, 1));
    assert_eq!(strip_brace_bounds(&chars, 4, 5), (4, 4));
    assert_eq!(strip_brace_bounds(&chars, 3, 3), (3, 3));
    let both: Vec<char> = "{}".chars().collect();
    assert_eq!(strip_brace_bounds(&both, 0, 2), (1, 1));
}

#[test]
fn encoder_failure_becomes_unencodable() {
    let cause = serde_json::from_str::<serde_json::Value>("not json").unwrap_err();
    assert_eq!(ParseError::from(cause), ParseError::Unencodable);
}

#[test]
fn errors_describe_themselves() {
    assert_eq!(ParseError::MissingColon.message(), "body segment without ':'");
    assert_eq!(ParseError::Unencodable.message(), "body cannot be encoded as JSON");
}
