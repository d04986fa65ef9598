use lib::json::{parse, Value};
use lib::num::lexeme_to_u32;

fn text(s: &str) -> String {
    parse(s).map(|v| v.to_json()).unwrap_or_else(|| "NONE".to_string())
}

#[test]
fn parse_and_write_nested() {
    assert_eq!(text("{\"a\":1,\"b\":[true,null,\"x\"]}"), "{\"a\":1,\"b\":[true,null,\"x\"]}");
    assert_eq!(text("  { \"k\" : [ 1 , 2 ] }  "), "{\"k\":[1,2]}");
}

#[test]
fn numbers_written_canonically() {
    assert_eq!(text("-0.50"), "-0.5");
    assert_eq!(text("12.000"), "12");
    assert_eq!(text("-0"), "0");
    assert_eq!(text("007"), "7");
    assert_eq!(text("1."), "1");
    assert_eq!(text("-.5"), "-0.5");
}

#[test]
fn unreadable_texts() {
    assert_eq!(text(""), "NONE");
    assert_eq!(text("   "), "NONE");
    assert_eq!(text("{"), "NONE");
    assert_eq!(text("[1,"), "NONE");
    assert_eq!(text("tru"), "NONE");
    assert_eq!(text("-"), "NONE");
    assert_eq!(text("x"), "NONE");
}

#[test]
fn unreadable_element_is_left_out() {
    assert_eq!(text("[-]"), "[]");
    assert_eq!(text("[1,-,2]"), "[1,2]");
}

#[test]
fn strings_escaped_on_write() {
    let v = Value::String("é\n\"q\"".to_string());
    assert_eq!(v.to_json(), "\"\\u{e9}\\n\\\"q\\\"\"");
    assert_eq!(text("\"a\\nb\\\\c\""), "\"a\\nb\\\\c\"");
}

#[test]
fn get_set_remove() {
    let mut v = parse("{\"a\":\"1\",\"b\":2,\"a\":\"3\"}").unwrap();
    assert_eq!(v.get_str("a"), Some("1"));
    assert!(v.get_str("b").is_none());
    assert!(v.get("b").is_some());
    assert!(v.get("zz").is_none());
    // set keeps an existing member
    v.set("a", &Value::Boolean(true));
    assert_eq!(v.get_str("a"), Some("1"));
    // set adds a new member at the end
    v.set("c", &Value::Null);
    assert_eq!(v.to_json(), "{\"a\":\"1\",\"b\":2,\"a\":\"3\",\"c\":null}");
    // remove drops every member of that name
    v.remove("a");
    assert_eq!(v.to_json(), "{\"b\":2,\"c\":null}");
    v.remove("a");
    assert_eq!(v.to_json(), "{\"b\":2,\"c\":null}");
    assert!(v.get("a").is_none());
}

#[test]
fn set_and_get_on_non_objects() {
    let mut v = Value::Array(vec![Value::Null]);
    v.set("a", &Value::Null);
    assert_eq!(v.to_json(), "[null]");
    assert!(v.get("a").is_none());
}

#[test]
fn duplicate_is_equal_text() {
    let v = parse("{\"x\":[1,{\"y\":\"z\"}]}").unwrap();
    assert_eq!(v.duplicate().to_json(), v.to_json());
}

#[test]
fn parse_of_written_value_gives_it_back() {
    let v = Value::Object(vec![
        ("name".to_string(), Value::String("pkg".to_string())),
        ("n".to_string(), Value::Number("42".to_string())),
        ("list".to_string(), Value::Array(vec![Value::Boolean(false), Value::Null])),
    ]);
    let t = v.to_json();
    assert_eq!(parse(&t).unwrap().to_json(), t);
}

#[test]
fn count_text_reads_as_f64_then_u32() {
    let cases = [
        "0", "7", "7.5", "12", "-3.9", "-0.99999999999999999999", "0.99999999999999999999", "0.9999999999999999",
        "0.99999999999999995", "0.999999999999999944488848768742172978818416595458984375",
        "0.999999999999999944488848768742172978818416595458984374", "3.9999999", "3.9999999999999998",
        "3.99999999999999978", "1.99999999999999989", "4294967294.9999999", "4294967294.9999998",
        "4294967294.99999976", "4294967295", "4294967295.9", "4294967296.1", "123456789012345678901234567890",
        "1.", "2147483647.99999999", "2147483648.99999995", "1048575.9999999999", "00012.000",
    ];
    for c in cases {
        let expected = c.parse::<f64>().unwrap() as u32;
        assert_eq!(lexeme_to_u32(c), expected, "{}", c);
    }
    assert_eq!(lexeme_to_u32("0.99999999999999999999"), 1);
    assert_eq!(lexeme_to_u32("4294967294.9999999"), 4294967295);
    assert_eq!(lexeme_to_u32("3.9999999"), 3);
}

#[test]
fn count_text_agrees_with_f64_on_near_whole_numbers() {
    let wholes = [0u64, 1, 2, 3, 7, 8, 255, 1023, 1024, 65535, 1 << 20, (1 << 31) - 1, 1 << 31, 4294967293, 4294967294];
    for w in wholes {
        for nines in 1..60 {
            for tail in ["", "4", "5", "6", "49", "51"] {
                let c = format!("{}.{}{}", w, "9".repeat(nines), tail);
                assert_eq!(lexeme_to_u32(&c), c.parse::<f64>().unwrap() as u32, "{}", c);
            }
        }
    }
}
