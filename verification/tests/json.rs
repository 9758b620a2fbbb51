use knot_nm_dns_update::json::{
    field, is_restorable, json_from_value, json_to_value, read_json, write_json, Json,
};

fn text(s: &str) -> Json {
    Json::Text(s.to_string())
}

#[test]
fn documents_are_read() {
    let j = read_json(br#" {"a": [null, true, "x\n"], "b": {}, "a2": 1.5} "#).unwrap();
    match &j {
        Json::Object(fields) => {
            assert_eq!(fields.len(), 3);
            assert_eq!(
                field(fields, "a"),
                Some(&Json::Array(vec![Json::Null, Json::Bool(true), text("x\n")]))
            );
            assert_eq!(field(fields, "b"), Some(&Json::Object(vec![])));
            assert!(matches!(field(fields, "a2"), Some(Json::Number(_))));
            assert_eq!(field(fields, "c"), None);
        }
        _ => panic!("no object"),
    }
    assert_eq!(j.clone(), j);
}

#[test]
fn malformed_text_is_refused() {
    for bad in ["", "[", "nul", "[1,]", "{} {}", "\u{feff}[]"] {
        assert!(read_json(bad.as_bytes()).is_err());
    }
    assert!(read_json(b"\"\xff\"").is_err());
}

#[test]
fn documents_are_written() {
    let j = Json::Object(vec![
        ("b".to_string(), Json::Array(vec![text("q\""), Json::Null])),
        ("a".to_string(), Json::Bool(false)),
    ]);
    assert_eq!(write_json(j).unwrap(), br#"{"a":false,"b":["q\"",null]}"#);
}

#[test]
fn later_fields_count() {
    let fields = vec![
        ("x".to_string(), Json::Bool(false)),
        ("y".to_string(), Json::Null),
        ("x".to_string(), Json::Bool(true)),
    ];
    assert_eq!(field(&fields, "x"), Some(&Json::Bool(true)));
    assert_eq!(write_json(Json::Object(fields)).unwrap(), br#"{"x":true,"y":null}"#);
}

#[test]
fn written_documents_read_back() {
    let mut nested = text("\u{1f980} \u{0} end");
    for _ in 0..127 {
        nested = Json::Array(vec![nested]);
    }
    let bytes = write_json(nested.clone()).unwrap();
    assert_eq!(read_json(&bytes).unwrap(), nested);
    let deeper = write_json(Json::Array(vec![nested])).unwrap();
    assert!(read_json(&deeper).is_err());
}

#[test]
fn written_integers_read_back() {
    let numbers = [
        serde_json::Number::from(0),
        serde_json::Number::from(53),
        serde_json::Number::from(-1),
        serde_json::Number::from(u64::MAX),
        serde_json::Number::from(i64::MIN),
    ];
    let j = Json::Object(vec![(
        "port".to_string(),
        Json::Array(numbers.iter().map(|n| Json::Number(n.clone())).collect()),
    )]);
    assert!(is_restorable(&j, 2));
    let bytes = write_json(j.clone()).unwrap();
    assert_eq!(bytes, br#"{"port":[0,53,-1,18446744073709551615,-9223372036854775808]}"#);
    assert_eq!(read_json(&bytes).unwrap(), j);
}

#[test]
fn restorable_documents() {
    let half = Json::Number(serde_json::Number::from_f64(0.5).unwrap());
    let whole = Json::Number(serde_json::Number::from_f64(2.0).unwrap());
    let two = Json::Number(serde_json::Number::from(2));
    assert!(!is_restorable(&half, 127));
    assert!(!is_restorable(&whole, 127));
    assert!(is_restorable(&two, 0));
    assert!(is_restorable(&text("x"), 0));
    assert!(!is_restorable(&Json::Array(vec![]), 0));
    assert!(!is_restorable(&Json::Object(vec![]), 0));
    assert!(!is_restorable(&Json::Array(vec![two.clone(), half.clone()]), 127));
    assert!(!is_restorable(&Json::Array(vec![Json::Array(vec![])]), 1));
    assert!(is_restorable(&Json::Array(vec![Json::Array(vec![])]), 2));
    let shadowed = vec![("x".to_string(), half.clone()), ("x".to_string(), two.clone())];
    assert!(is_restorable(&Json::Object(shadowed), 1));
    let shadowing = vec![("x".to_string(), two), ("x".to_string(), half)];
    assert!(!is_restorable(&Json::Object(shadowing), 1));
}

#[test]
fn values_convert_both_ways() {
    let v: serde_json::Value = serde_json::from_slice(br#"{"k":[1,-2,"s",{"n":null}],"t":true}"#).unwrap();
    assert_eq!(json_to_value(json_from_value(v.clone())), v);
}
