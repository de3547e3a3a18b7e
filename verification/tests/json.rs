use pliny::json::{find, Json};

fn value(raw: &str) -> Json {
    Json::from_value(serde_json::from_str(raw).unwrap())
}

#[test]
fn values_are_taken_over() {
    let v = value(r#"{"b":[1,-2,2.50,"x"],"a":null,"c":{"d":true}}"#);
    let Json::Object(members) = &v else { panic!() };
    let keys: Vec<&str> = members.iter().map(|m| m.0.as_str()).collect();
    assert_eq!(keys, vec!["a", "b", "c"]);
    assert!(matches!(members[0].1, Json::Null));
    let Json::Array(items) = &members[1].1 else { panic!() };
    assert!(matches!(&items[0], Json::Number(t) if t == "1"));
    assert!(matches!(&items[1], Json::Number(t) if t == "-2"));
    assert!(matches!(&items[2], Json::Number(t) if t == "2.5"));
    assert!(matches!(&items[3], Json::Str(t) if t == "x"));
    let Json::Object(inner) = &members[2].1 else { panic!() };
    assert!(matches!(&inner[0], (k, Json::Bool(true)) if k == "d"));
}

#[test]
fn equality_is_that_of_values() {
    let same = [
        ("null", "null"),
        ("1", "1"),
        ("0.0", "-0.0"),
        ("[1,2]", "[1, 2]"),
        (r#"{"a":1,"b":[{}]}"#, r#"{"b":[{}],"a":1}"#),
        ("\"x\"", "\"\\u0078\""),
    ];
    for (a, b) in same {
        assert!(value(a).equals(&value(b)), "{a} {b}");
        assert_eq!(
            serde_json::from_str::<serde_json::Value>(a).unwrap(),
            serde_json::from_str::<serde_json::Value>(b).unwrap()
        );
    }
    let different = [
        ("null", "false"),
        ("1", "1.0"),
        ("1", "\"1\""),
        ("[1,2]", "[2,1]"),
        ("[1]", "[1,1]"),
        (r#"{"a":1}"#, r#"{"a":2}"#),
        (r#"{"a":1}"#, r#"{"b":1}"#),
        (r#"{"a":1}"#, r#"{"a":1,"b":1}"#),
    ];
    for (a, b) in different {
        assert!(!value(a).equals(&value(b)), "{a} {b}");
        assert_ne!(
            serde_json::from_str::<serde_json::Value>(a).unwrap(),
            serde_json::from_str::<serde_json::Value>(b).unwrap()
        );
    }
}

#[test]
fn members_are_found_by_key() {
    let Json::Object(members) = value(r#"{"a":1,"b":2}"#) else { panic!() };
    assert!(matches!(find(&members, "b"), Some(Json::Number(t)) if t == "2"));
    assert!(find(&members, "c").is_none());
}

#[test]
fn clones_are_equal() {
    let v = value(r#"{"a":[1,{"b":"c"}],"d":false}"#);
    assert!(v.clone().equals(&v));
}
