use brief::minify::json::{minify_json, minify_jsonl};
use serde_json::Value;


#[test]
fn json_strips_whitespace() {
    let out = minify_json(
        r#"{
        "a": 1,
        "b": [1, 2, 3]
    }"#,
    )
    .unwrap();
    assert_eq!(out.body, r#"{"a":1,"b":[1,2,3]}"#);
}

#[test]
fn json_preserves_field_order() {
    let out = minify_json(r#"{"z":1,"a":2,"m":3}"#).unwrap();
    assert_eq!(out.body, r#"{"z":1,"a":2,"m":3}"#);
}

#[test]
fn json_unicode_string() {
    let out = minify_json(r#"{ "lang": "日本語" }"#).unwrap();
    assert_eq!(out.body, r#"{"lang":"日本語"}"#);
}

#[test]
fn json_preserves_unicode_escape() {
    // After a parse-then-serialize round-trip serde_json renders the
    // character directly, but the codepoint must survive intact.
    let out = minify_json(r#"{"x":"é"}"#).unwrap();
    let parsed: Value = serde_json::from_str(&out.body).unwrap();
    assert_eq!(parsed["x"], serde_json::Value::String("é".to_string()));
}

#[test]
fn json_empty_object_and_array() {
    assert_eq!(minify_json("{}").unwrap().body, "{}");
    assert_eq!(minify_json("[]").unwrap().body, "[]");
}

#[test]
fn json_deeply_nested() {
    let mut s = String::new();
    for _ in 0..50 {
        s.push('[');
    }
    s.push('1');
    for _ in 0..50 {
        s.push(']');
    }
    let out = minify_json(&s).unwrap();
    assert_eq!(out.body, s);
}

#[test]
fn json_large_integer() {
    // i64::MAX fits losslessly. serde_json parses this as an integer
    // without precision loss.
    let out = minify_json("9223372036854775807").unwrap();
    assert_eq!(out.body, "9223372036854775807");
}

#[test]
fn json_invalid_returns_error() {
    let r = minify_json("{ not valid json }");
    assert!(r.is_err());
}

#[test]
fn jsonl_one_per_line() {
    let src = "{\"a\":1}\n{\"b\":2}\n{\"c\":3}\n";
    let out = minify_jsonl(src).unwrap();
    assert_eq!(out.body, "{\"a\":1}\n{\"b\":2}\n{\"c\":3}");
}

#[test]
fn jsonl_drops_blank_lines() {
    let src = "{\"a\":1}\n\n   \n{\"b\":2}\n";
    let out = minify_jsonl(src).unwrap();
    assert_eq!(out.body, "{\"a\":1}\n{\"b\":2}");
}

#[test]
fn jsonl_invalid_line_fails() {
    let src = "{\"a\":1}\nnot json\n{\"b\":2}\n";
    let r = minify_jsonl(src);
    assert!(r.is_err());
    // Error message should reference the offending line number.
    assert!(r.unwrap_err().message.contains("line 2"));
}


#[test]
fn jsonl_crlf_lines_and_indented_documents() {
    let src = "{ \"a\" : 1 }\r\n\r\n  [1, 2]\r\n\"x\"\r";
    let out = minify_jsonl(src).unwrap();
    assert_eq!(out.body, "{\"a\":1}\n[1,2]\n\"x\"");
    assert!(out.warnings.is_empty());
}

#[test]
fn jsonl_error_counts_blank_lines() {
    let r = minify_jsonl("\n\n{oops}\n");
    assert!(r.unwrap_err().message.starts_with("line 3: "));
    assert_eq!(minify_jsonl("").unwrap().body, "");
}
